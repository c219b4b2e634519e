use vstd::prelude::*;
use std::collections::HashMap;

verus! {

broadcast use vstd::std_specs::hash::group_hash_axioms;

/// One durable block row, keyed by its block identifier within one object:
/// the byte count and the payload. Mirrors the backend table
/// `block(file_id, blk_id, length, data)` restricted to a single `file_id`.
#[derive(Debug, PartialEq, Eq)]
pub struct BlockRow {
    pub length: u64,
    pub data: Vec<u8>,
}

/// The durable object metadata row: identity, display path, chosen block
/// size, and the ordered topology of block identifiers.
#[derive(Debug, PartialEq, Eq)]
pub struct ObjectRow {
    pub file_id: String,
    pub path: String,
    pub block_size: u64,
    pub topology: Vec<u64>,
}

/// A model of the backend's reader-visible state for one object ingestion:
/// the block rows keyed by block identifier, and the object metadata row,
/// present only once committed. Each mutating method below stands for one
/// committed transaction: a reader sees the whole row or nothing, never a
/// partial write.
pub struct Store {
    blocks: HashMap<u64, BlockRow>,
    object: Option<ObjectRow>,
}

impl Store {
    /// The visible block rows, as a map from block identifier to
    /// `(length, payload bytes)`.
    pub closed spec fn blocks_map(self) -> Map<u64, (u64, Seq<u8>)> {
        Map::new(
            |k: u64| self.blocks@.contains_key(k),
            |k: u64| (self.blocks@[k].length, self.blocks@[k].data@),
        )
    }

    /// The visible object metadata row, if committed.
    pub closed spec fn object_row(self) -> Option<ObjectRow> {
        self.object
    }

    /// Atomicity of the visible state (invariant I3): if the object row is
    /// visible, every block identifier its topology references has a
    /// corresponding block row.
    pub open spec fn no_dangling(self) -> bool {
        match self.object_row() {
            Some(o) => forall|i: int|
                0 <= i < o.topology@.len() ==> self.blocks_map().contains_key(
                    #[trigger] o.topology@[i],
                ),
            None => true,
        }
    }

    /// An empty store: no block rows, no object row.
    pub fn new() -> (s: Store)
        ensures
            s.blocks_map() == Map::<u64, (u64, Seq<u8>)>::empty(),
            s.object_row() is None,
    {
        let s = Store { blocks: HashMap::new(), object: None };
        proof {
            assert(s.blocks_map() =~= Map::<u64, (u64, Seq<u8>)>::empty());
        }
        s
    }

    /// One committed block-write transaction: upserts the row keyed by
    /// `blk_id` (REPLACE semantics), leaving every other block row and the
    /// object row unchanged.
    pub fn replace_block(&mut self, blk_id: u64, length: u64, data: Vec<u8>)
        ensures
            final(self).blocks_map() == old(self).blocks_map().insert(blk_id, (length, data@)),
            final(self).object_row() == old(self).object_row(),
    {
        self.blocks.insert(blk_id, BlockRow { length, data });
        proof {
            assert(self.blocks_map() =~= old(self).blocks_map().insert(blk_id, (length, data@)));
        }
    }

    /// One committed metadata transaction: makes the object row visible,
    /// leaving every block row unchanged.
    pub fn replace_object(&mut self, row: ObjectRow)
        ensures
            final(self).object_row() == Some(row),
            final(self).blocks_map() == old(self).blocks_map(),
    {
        self.object = Some(row);
        proof {
            assert(self.blocks_map() =~= old(self).blocks_map());
        }
    }

    /// Whether a block row exists for `blk_id`.
    pub fn has_block(&self, blk_id: u64) -> (r: bool)
        ensures
            r == self.blocks_map().contains_key(blk_id),
    {
        self.blocks.contains_key(&blk_id)
    }

    /// The block row stored under `blk_id`, if any.
    pub fn get_block(&self, blk_id: u64) -> (r: Option<&BlockRow>)
        ensures
            match r {
                Some(b) => self.blocks_map().contains_key(blk_id) && self.blocks_map()[blk_id]
                    == (b.length, b.data@),
                None => !self.blocks_map().contains_key(blk_id),
            },
    {
        self.blocks.get(&blk_id)
    }

    /// The committed object metadata row, if any.
    pub fn object(&self) -> (r: &Option<ObjectRow>)
        ensures
            *r == self.object_row(),
    {
        &self.object
    }
}

/// Idempotent retry law: re-running one block write with identical arguments
/// after a prior success leaves the visible store state unchanged — a second
/// `insert` of the same row is absorbed.
pub proof fn lemma_block_write_idempotent(
    m: Map<u64, (u64, Seq<u8>)>,
    blk_id: u64,
    length: u64,
    data: Seq<u8>,
)
    ensures
        m.insert(blk_id, (length, data)).insert(blk_id, (length, data)) == m.insert(
            blk_id,
            (length, data),
        ),
{
    assert(m.insert(blk_id, (length, data)).insert(blk_id, (length, data)) =~= m.insert(
        blk_id,
        (length, data),
    ));
}

} // verus!
