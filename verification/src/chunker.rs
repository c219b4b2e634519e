use vstd::prelude::*;
use vstd::arithmetic::div_mod::{
    lemma_fundamental_div_mod,
    lemma_fundamental_div_mod_converse,
    lemma_mod_bound,
};
use vstd::arithmetic::mul::{
    lemma_mul_inequality,
    lemma_mul_is_distributive_add_other_way,
    lemma_mul_is_distributive_sub_other_way,
};

verus! {

/// Number of blocks that an object of `len` bytes yields under block size
/// `bs`: the ceiling of `len / bs`. An empty object yields zero blocks (the
/// documented empty-input policy).
pub open spec fn num_blocks(len: int, bs: int) -> int {
    len / bs + if len % bs == 0 {
        0int
    } else {
        1int
    }
}

/// Exclusive end offset of block `i`: the next block boundary, clamped to the
/// object length for the final, possibly shorter, block.
pub open spec fn chunk_end(len: int, bs: int, i: int) -> int {
    if (i + 1) * bs <= len {
        (i + 1) * bs
    } else {
        len
    }
}

/// The bytes of block `i`: block `i` covers `[i * bs, i * bs + length)` of
/// the object, where `length == bs` for every block but possibly the last.
pub open spec fn chunk_of(data: Seq<u8>, bs: int, i: int) -> Seq<u8> {
    data.subrange(i * bs, chunk_end(data.len() as int, bs, i))
}

/// The ordered block sequence of `data` under block size `bs`.
pub open spec fn chunks_of(data: Seq<u8>, bs: int) -> Seq<Seq<u8>> {
    Seq::new(num_blocks(data.len() as int, bs) as nat, |i: int| chunk_of(data, bs, i))
}

/// Basic bounds of the block count: it is the least `n` with `n * bs >= len`.
pub proof fn lemma_num_blocks_bounds(len: int, bs: int)
    requires
        bs > 0,
        0 <= len,
    ensures
        0 <= num_blocks(len, bs) <= len,
        len <= num_blocks(len, bs) * bs,
        len > 0 ==> (num_blocks(len, bs) - 1) * bs < len,
        len > 0 ==> num_blocks(len, bs) >= 1,
        len == 0 ==> num_blocks(len, bs) == 0,
{
    lemma_fundamental_div_mod(len, bs);
    lemma_mod_bound(len, bs);
    let d = len / bs;
    let r = len % bs;
    let n = num_blocks(len, bs);
    assert(len == bs * d + r);
    assert(d >= 0) by {
        if d < 0 {
            lemma_mul_inequality(d, -1, bs);
        }
    }
    if r == 0 {
        assert(n == d);
        assert(n * bs == bs * d) by {
            vstd::arithmetic::mul::lemma_mul_is_commutative(n, bs);
        }
        if len > 0 {
            assert(d >= 1);
            assert((d - 1) * bs == d * bs - bs) by {
                lemma_mul_is_distributive_sub_other_way(bs, d, 1);
            }
            assert(d * bs == bs * d) by {
                vstd::arithmetic::mul::lemma_mul_is_commutative(d, bs);
            }
            assert(d <= d * bs) by {
                lemma_mul_inequality(1, bs, d);
                vstd::arithmetic::mul::lemma_mul_is_commutative(d, bs);
            }
        }
    } else {
        assert(n == d + 1);
        assert(n * bs == d * bs + bs) by {
            lemma_mul_is_distributive_add_other_way(bs, d, 1);
        }
        assert(d * bs == bs * d) by {
            vstd::arithmetic::mul::lemma_mul_is_commutative(d, bs);
        }
        assert(len > 0);
        assert(d <= d * bs) by {
            lemma_mul_inequality(1, bs, d);
            vstd::arithmetic::mul::lemma_mul_is_commutative(d, bs);
        }
    }
}

/// The block count is the unique `n` with `(n - 1) * bs < len <= n * bs`
/// for a non-empty object.
pub proof fn lemma_num_blocks_unique(len: int, bs: int, n: int)
    requires
        bs > 0,
        0 < len,
        n >= 1,
        (n - 1) * bs < len,
        len <= n * bs,
    ensures
        n == num_blocks(len, bs),
{
    let m = num_blocks(len, bs);
    lemma_num_blocks_bounds(len, bs);
    if n < m {
        lemma_mul_inequality(n, m - 1, bs);
    }
    if m < n {
        lemma_mul_inequality(m, n - 1, bs);
    }
}

/// Bounds of one block's extent: every block lies inside the object, ends
/// after it begins, and holds at most `bs` bytes; every block but the last
/// holds exactly `bs` bytes, and the last ends at the object's end.
pub proof fn lemma_chunk_extent(len: int, bs: int, i: int)
    requires
        bs > 0,
        0 <= len,
        0 <= i < num_blocks(len, bs),
    ensures
        0 <= i * bs < len,
        i * bs < chunk_end(len, bs, i) <= len,
        chunk_end(len, bs, i) - i * bs <= bs,
        i < num_blocks(len, bs) - 1 ==> chunk_end(len, bs, i) == i * bs + bs,
        i == num_blocks(len, bs) - 1 ==> chunk_end(len, bs, i) == len,
{
    let n = num_blocks(len, bs);
    lemma_num_blocks_bounds(len, bs);
    assert((i + 1) * bs == i * bs + bs) by {
        lemma_mul_is_distributive_add_other_way(bs, i, 1);
    }
    assert(i * bs <= (n - 1) * bs) by {
        lemma_mul_inequality(i, n - 1, bs);
    }
    assert(i * bs >= 0) by {
        vstd::arithmetic::mul::lemma_mul_nonnegative(i, bs);
    }
    if i < n - 1 {
        assert((i + 1) * bs <= (n - 1) * bs) by {
            lemma_mul_inequality(i + 1, n - 1, bs);
        }
    }
}

/// Slices `data` into consecutive non-overlapping blocks of `block_size`
/// bytes each; the final block holds the remainder of the object and may be
/// shorter. An empty object yields zero blocks.
pub fn chunk_bytes(data: &Vec<u8>, block_size: usize) -> (blocks: Vec<Vec<u8>>)
    requires
        block_size > 0,
    ensures
        blocks@.len() == num_blocks(data@.len() as int, block_size as int),
        forall|i: int|
            0 <= i < blocks@.len() ==> #[trigger] blocks@[i]@ == chunk_of(
                data@,
                block_size as int,
                i,
            ),
{
    let len = data.len();
    let bs = block_size;
    let mut blocks: Vec<Vec<u8>> = Vec::new();
    let mut off: usize = 0;
    proof {
        assert(blocks@.len() * (bs as int) == 0) by {
            vstd::arithmetic::mul::lemma_mul_by_zero_is_zero(bs as int);
        }
    }
    while off < len
        invariant
            bs == block_size,
            bs > 0,
            len == data@.len(),
            off <= len,
            off as int == blocks@.len() * (bs as int) || (off as int == len as int && (
            len as int) < blocks@.len() * (bs as int)),
            blocks@.len() > 0 ==> (blocks@.len() - 1) * (bs as int) < len as int,
            forall|k: int|
                0 <= k < blocks@.len() ==> #[trigger] blocks@[k]@ == chunk_of(
                    data@,
                    bs as int,
                    k,
                ),
        decreases len - off,
    {
        let ghost i = blocks@.len() as int;
        assert(off as int == i * (bs as int));
        let end = if len - off >= bs {
            off + bs
        } else {
            len
        };
        let mut chunk: Vec<u8> = Vec::new();
        let mut j = off;
        while j < end
            invariant
                off <= j <= end,
                end <= len,
                len == data@.len(),
                chunk@ == data@.subrange(off as int, j as int),
            decreases end - j,
        {
            chunk.push(data[j]);
            assert(chunk@ =~= data@.subrange(off as int, j as int + 1));
            j = j + 1;
        }
        proof {
            assert((i + 1) * (bs as int) == i * (bs as int) + (bs as int)) by {
                lemma_mul_is_distributive_add_other_way(bs as int, i, 1);
            }
            assert(chunk@ == chunk_of(data@, bs as int, i));
        }
        blocks.push(chunk);
        off = end;
        proof {
            assert(blocks@.len() - 1 == i);
            assert((blocks@.len() - 1) * (bs as int) == i * (bs as int));
        }
    }
    proof {
        let n = blocks@.len() as int;
        let bsi = bs as int;
        let leni = len as int;
        if leni == 0 {
            lemma_num_blocks_bounds(leni, bsi);
        } else {
            assert(off as int == leni);
            if off as int == n * bsi {
                lemma_num_blocks_unique(leni, bsi, n);
            } else {
                lemma_num_blocks_unique(leni, bsi, n);
            }
        }
    }
    blocks
}

/// Round-trip law: concatenating the blocks of `data` in order reproduces
/// `data` exactly.
pub proof fn lemma_chunks_concat(data: Seq<u8>, bs: int)
    requires
        bs > 0,
    ensures
        chunks_of(data, bs).flatten() == data,
    decreases data.len(),
{
    let len = data.len() as int;
    let chunks = chunks_of(data, bs);
    lemma_num_blocks_bounds(len, bs);
    if len == 0 {
        assert(chunks =~= Seq::<Seq<u8>>::empty());
        assert(chunks.flatten() =~= data);
    } else if len <= bs {
        assert(num_blocks(len, bs) == 1) by {
            lemma_num_blocks_unique(len, bs, 1);
        }
        assert(chunk_end(len, bs, 0) == len);
        assert(chunks[0] =~= data);
        chunks.lemma_flatten_one_element();
        assert(chunks.flatten() =~= data);
    } else {
        let rest = data.skip(bs);
        lemma_chunks_concat(rest, bs);
        let rest_chunks = chunks_of(rest, bs);
        assert(num_blocks(len, bs) == num_blocks(len - bs, bs) + 1) by {
            lemma_fundamental_div_mod(len, bs);
            lemma_mod_bound(len, bs);
            let d = len / bs;
            let r = len % bs;
            assert(len - bs == bs * (d - 1) + r) by {
                vstd::arithmetic::mul::lemma_mul_is_distributive_sub(bs, d, 1);
            }
            assert(d - 1 >= 0) by {
                if d <= 0 {
                    lemma_mul_inequality(d, 0, bs);
                    vstd::arithmetic::mul::lemma_mul_is_commutative(d, bs);
                }
            }
            lemma_fundamental_div_mod_converse(len - bs, bs, d - 1, r);
        }
        assert(chunks.drop_first() =~= rest_chunks) by {
            assert forall|i: int| 0 <= i < rest_chunks.len() implies chunks[i + 1]
                == rest_chunks[i] by {
                lemma_chunk_extent(len, bs, i + 1);
                lemma_chunk_extent(len - bs, bs, i);
                assert((i + 1) * bs == i * bs + bs) by {
                    lemma_mul_is_distributive_add_other_way(bs, i, 1);
                }
                assert((i + 2) * bs == (i + 1) * bs + bs) by {
                    lemma_mul_is_distributive_add_other_way(bs, i + 1, 1);
                }
                assert(chunk_end(len, bs, i + 1) == chunk_end(len - bs, bs, i) + bs);
                assert(chunks[i + 1] =~= rest_chunks[i]);
            }
        }
        assert(chunks.first() =~= data.take(bs)) by {
            lemma_chunk_extent(len, bs, 0);
        }
        assert(chunks.flatten() == chunks.first() + chunks.drop_first().flatten());
        assert(chunks.flatten() =~= data) by {
            assert(chunks.flatten() == data.take(bs) + rest);
            assert(data.take(bs) + data.skip(bs) =~= data);
        }
    }
}

} // verus!
