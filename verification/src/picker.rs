use vstd::prelude::*;

verus! {

/// Trailing-padding waste that block size `s` leaves on an object of `len`
/// bytes: the number of unused bytes in the last block, `(s - len % s) % s`.
pub open spec fn waste(s: int, len: int) -> int {
    (s - len % s) % s
}

/// `s` is a catalog entry of minimal waste for `len`, and every entry before
/// its witness position has strictly greater waste. In an ascending catalog
/// this resolves ties to the smallest size; for `len == 0` every entry wastes
/// nothing, so the first entry wins.
pub open spec fn is_first_min_waste(catalog: Seq<u64>, len: u64, s: u64) -> bool {
    exists|k: int| {
        &&& 0 <= k < catalog.len()
        &&& catalog[k] == s
        &&& forall|j: int|
            0 <= j < catalog.len() ==> waste(#[trigger] catalog[j] as int, len as int)
                >= waste(s as int, len as int)
        &&& forall|j: int|
            0 <= j < k ==> waste(#[trigger] catalog[j] as int, len as int)
                > waste(s as int, len as int)
    }
}

/// The candidate block sizes, in bytes and ascending: 512 KB, 1024 KB,
/// 2048 KB and 4096 KB.
pub open spec fn default_catalog_spec() -> Seq<u64> {
    seq![524288u64, 1048576u64, 2097152u64, 4194304u64]
}

/// Builds the default candidate catalog: 512 KB, 1024 KB, 2048 KB and
/// 4096 KB, ascending.
pub fn default_catalog() -> (c: Vec<u64>)
    ensures
        c@ == default_catalog_spec(),
{
    let mut c: Vec<u64> = Vec::new();
    c.push(524288);
    c.push(1048576);
    c.push(2097152);
    c.push(4194304);
    proof {
        assert(c@ =~= default_catalog_spec());
    }
    c
}

/// Waste of block size `s` on an object of `len` bytes, executable form.
fn block_waste(s: u64, len: u64) -> (w: u64)
    requires
        s > 0,
    ensures
        w as int == waste(s as int, len as int),
{
    (s - len % s) % s
}

/// Chooses from `catalog` the block size that minimizes trailing-padding
/// waste for an object of `len` bytes; ties resolve to the earliest catalog
/// entry. Pure and total for a non-empty catalog of positive sizes.
pub fn pick_block_size(catalog: &Vec<u64>, len: u64) -> (s: u64)
    requires
        catalog@.len() > 0,
        forall|i: int| 0 <= i < catalog@.len() ==> #[trigger] catalog@[i] > 0,
    ensures
        is_first_min_waste(catalog@, len, s),
        exists|k: int| 0 <= k < catalog@.len() && catalog@[k] == s,
{
    let mut best: u64 = catalog[0];
    let mut best_waste: u64 = block_waste(catalog[0], len);
    let ghost mut best_k: int = 0;
    let mut i: usize = 1;
    while i < catalog.len()
        invariant
            1 <= i <= catalog@.len(),
            forall|j: int| 0 <= j < catalog@.len() ==> #[trigger] catalog@[j] > 0,
            0 <= best_k < i,
            catalog@[best_k] == best,
            best_waste as int == waste(best as int, len as int),
            forall|j: int|
                0 <= j < i ==> waste(#[trigger] catalog@[j] as int, len as int)
                    >= best_waste as int,
            forall|j: int|
                0 <= j < best_k ==> waste(#[trigger] catalog@[j] as int, len as int)
                    > best_waste as int,
        decreases catalog@.len() - i,
    {
        let c = catalog[i];
        let w = block_waste(c, len);
        if w < best_waste {
            best = c;
            best_waste = w;
            proof {
                best_k = i as int;
            }
        }
        i = i + 1;
    }
    best
}

/// Size selection is deterministic: at most one catalog entry is the
/// first-minimal-waste pick for a given length.
pub proof fn lemma_pick_deterministic(catalog: Seq<u64>, len: u64, s1: u64, s2: u64)
    requires
        is_first_min_waste(catalog, len, s1),
        is_first_min_waste(catalog, len, s2),
    ensures
        s1 == s2,
{
    let k1 = choose|k: int| {
        &&& 0 <= k < catalog.len()
        &&& catalog[k] == s1
        &&& forall|j: int|
            0 <= j < catalog.len() ==> waste(#[trigger] catalog[j] as int, len as int)
                >= waste(s1 as int, len as int)
        &&& forall|j: int|
            0 <= j < k ==> waste(#[trigger] catalog[j] as int, len as int)
                > waste(s1 as int, len as int)
    };
    let k2 = choose|k: int| {
        &&& 0 <= k < catalog.len()
        &&& catalog[k] == s2
        &&& forall|j: int|
            0 <= j < catalog.len() ==> waste(#[trigger] catalog[j] as int, len as int)
                >= waste(s2 as int, len as int)
        &&& forall|j: int|
            0 <= j < k ==> waste(#[trigger] catalog[j] as int, len as int)
                > waste(s2 as int, len as int)
    };
    if k1 < k2 {
        assert(waste(catalog[k1] as int, len as int) > waste(s2 as int, len as int));
        assert(waste(catalog[k2] as int, len as int) >= waste(s1 as int, len as int));
    } else if k2 < k1 {
        assert(waste(catalog[k2] as int, len as int) > waste(s1 as int, len as int));
        assert(waste(catalog[k1] as int, len as int) >= waste(s2 as int, len as int));
    }
}

} // verus!
