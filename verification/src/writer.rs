use vstd::prelude::*;
use vstd::pervasive::VecAdditionalExecFns;
use crate::chunker;
use crate::errors::{FailReason, WriteOutcome};
use crate::picker;
use crate::store::ObjectRow;

verus! {

/// State of one object ingestion. `Chunking` through `CommittingMetadata`
/// advance in order; `Done` and `Failed` are terminal.
#[derive(Clone, Copy, PartialEq, Eq, Structural, Debug)]
pub enum WriterState {
    Chunking,
    Dispatching,
    AwaitingBlocks,
    CommittingMetadata,
    Done,
    Failed(FailReason),
}

/// What the caller must do next after feeding an event to the writer.
#[derive(Clone, Copy, PartialEq, Eq, Structural, Debug)]
pub enum Action {
    /// Keep waiting at the barrier: block confirmations are outstanding.
    Wait,
    /// Retry the write of this block: it failed transiently with budget left.
    RetryBlock(u64),
    /// Every block is confirmed durable: commit the metadata transaction.
    CommitMetadata,
    /// Retry the metadata transaction: it failed transiently with budget left.
    RetryMetadata,
    /// The ingestion failed: advise in-flight sibling writes to cancel.
    CancelSiblings,
    /// Terminal: nothing left to do.
    Halt,
}

/// One block to persist: its identifier (the block's position in the
/// object), its byte count, and its payload.
#[derive(Debug, PartialEq, Eq)]
pub struct BlockPlan {
    pub blk_id: u64,
    pub length: u64,
    pub payload: Vec<u8>,
}

/// Relies on `uuid::Uuid::new_v4` and its `Display` form (hyphenated, as in
/// `67e55044-10b1-426f-9247-bb680e5fe0c8`): a freshly generated version-4
/// identifier rendered as 36 characters. The value is random, so nothing
/// more is assumed of it.
#[verifier::external_body]
fn fresh_file_id() -> (r: String)
    ensures
        r@.len() == 36,
{
    uuid::Uuid::new_v4().to_string()
}

/// The orchestration state machine for one object ingestion.
///
/// The writer itself performs no backend call: the caller dispatches the
/// block writes (concurrently, one per block), feeds every reported outcome
/// back in, and performs the actions returned. The machine guarantees that
/// `CommitMetadata` is demanded only once every dispatched block write is
/// confirmed durable — the barrier that closes the dangling-topology hazard.
pub struct ObjectWriter {
    pub file_id: String,
    pub path: String,
    pub block_size: u64,
    pub confirmed: Vec<bool>,
    pub attempts_left: Vec<u64>,
    pub max_attempts: u64,
    pub meta_attempts_left: u64,
    pub state: WriterState,
}

impl ObjectWriter {
    /// Every dispatched block write is confirmed durable.
    pub open spec fn all_confirmed(self) -> bool {
        forall|i: int| 0 <= i < self.confirmed@.len() ==> self.confirmed@[i]
    }

    /// Well-formedness, established by the constructors and preserved by
    /// every transition. The last clause is invariant I3: the writer reaches
    /// the metadata commit, or success, only with every block confirmed.
    pub open spec fn wf(self) -> bool {
        &&& self.confirmed@.len() == self.attempts_left@.len()
        &&& (self.state == WriterState::CommittingMetadata || self.state == WriterState::Done)
            ==> self.all_confirmed()
    }

    /// The identity, path, size and retry budgets are those of `other`: the
    /// transitions below change nothing else.
    pub open spec fn same_plan(self, other: Self) -> bool {
        &&& self.file_id == other.file_id
        &&& self.path == other.path
        &&& self.block_size == other.block_size
        &&& self.max_attempts == other.max_attempts
        &&& self.confirmed@.len() == other.confirmed@.len()
    }

    /// Begins an ingestion of the object at `path` under a caller-chosen
    /// file identifier, with every retry budget set to `max_attempts`.
    pub fn new_with_file_id(file_id: String, path: String, max_attempts: u64) -> (w: ObjectWriter)
        ensures
            w.wf(),
            w.state == WriterState::Chunking,
            w.file_id == file_id,
            w.path == path,
            w.max_attempts == max_attempts,
            w.meta_attempts_left == max_attempts,
            w.confirmed@.len() == 0,
    {
        ObjectWriter {
            file_id,
            path,
            block_size: 0,
            confirmed: Vec::new(),
            attempts_left: Vec::new(),
            max_attempts,
            meta_attempts_left: max_attempts,
            state: WriterState::Chunking,
        }
    }

    /// Begins an ingestion of the object at `path` under a freshly generated
    /// unique file identifier (never reused), with every retry budget set to
    /// `max_attempts`.
    pub fn new(path: String, max_attempts: u64) -> (w: ObjectWriter)
        ensures
            w.wf(),
            w.state == WriterState::Chunking,
            w.file_id@.len() == 36,
            w.path == path,
            w.max_attempts == max_attempts,
            w.meta_attempts_left == max_attempts,
            w.confirmed@.len() == 0,
    {
        let file_id = fresh_file_id();
        Self::new_with_file_id(file_id, path, max_attempts)
    }

    /// Chunking step: picks from `catalog` the block size of least
    /// trailing-padding waste for `data`, slices `data` into blocks, and
    /// moves to `Dispatching`. Returns the ordered block plans, identifiers
    /// ascending from zero; an empty object yields zero blocks. Every block
    /// but the last is full; the last is non-empty and at most full.
    pub fn plan(&mut self, catalog: &Vec<u64>, data: &Vec<u8>) -> (blocks: Vec<BlockPlan>)
        requires
            old(self).wf(),
            old(self).state == WriterState::Chunking,
            catalog@.len() > 0,
            forall|i: int|
                0 <= i < catalog@.len() ==> 0 < #[trigger] catalog@[i] <= usize::MAX as u64,
        ensures
            final(self).wf(),
            final(self).state == WriterState::Dispatching,
            final(self).file_id == old(self).file_id,
            final(self).path == old(self).path,
            final(self).max_attempts == old(self).max_attempts,
            final(self).meta_attempts_left == old(self).meta_attempts_left,
            picker::is_first_min_waste(catalog@, data@.len() as u64, final(self).block_size),
            final(self).confirmed@.len() == chunker::num_blocks(
                data@.len() as int,
                final(self).block_size as int,
            ),
            blocks@.len() == final(self).confirmed@.len(),
            forall|i: int|
                0 <= i < blocks@.len() ==> (#[trigger] blocks@[i]).blk_id == i as u64,
            forall|i: int|
                0 <= i < blocks@.len() ==> (#[trigger] blocks@[i]).payload@ == chunker::chunk_of(
                    data@,
                    final(self).block_size as int,
                    i,
                ),
            forall|i: int|
                0 <= i < blocks@.len() ==> (#[trigger] blocks@[i]).length as int
                    == blocks@[i].payload@.len() as int,
            forall|i: int|
                0 <= i < blocks@.len() - 1 ==> (#[trigger] blocks@[i]).length
                    == final(self).block_size,
            blocks@.len() > 0 ==> 0 < blocks@[blocks@.len() - 1].length <= final(self).block_size,
            forall|i: int| 0 <= i < blocks@.len() ==> !(#[trigger] final(self).confirmed@[i]),
            forall|i: int|
                0 <= i < blocks@.len() ==> #[trigger] final(self).attempts_left@[i]
                    == final(self).max_attempts,
    {
        let len64 = data.len() as u64;
        let size = picker::pick_block_size(catalog, len64);
        proof {
            let k = choose|k: int| 0 <= k < catalog@.len() && catalog@[k] == size;
            assert(size <= usize::MAX as u64);
        }
        let bs = size as usize;
        let chunks = chunk_bytes_plans(data, bs);
        let n = chunks.len();
        let mut confirmed: Vec<bool> = Vec::new();
        let mut attempts_left: Vec<u64> = Vec::new();
        let mut i: usize = 0;
        while i < n
            invariant
                confirmed@.len() == i,
                attempts_left@.len() == i,
                i <= n,
                forall|k: int| 0 <= k < i ==> !(#[trigger] confirmed@[k]),
                forall|k: int|
                    0 <= k < i ==> #[trigger] attempts_left@[k] == old(self).max_attempts,
                self == old(self),
            decreases n - i,
        {
            confirmed.push(false);
            attempts_left.push(self.max_attempts);
            i = i + 1;
        }
        self.block_size = size;
        self.confirmed = confirmed;
        self.attempts_left = attempts_left;
        self.state = WriterState::Dispatching;
        chunks
    }

    /// Dispatching step: the caller has launched one block write per plan,
    /// concurrently. With zero blocks there is nothing to await and the
    /// writer proceeds directly to the metadata commit; otherwise it waits
    /// at the `AwaitingBlocks` barrier.
    pub fn dispatched(&mut self) -> (a: Action)
        requires
            old(self).wf(),
            old(self).state == WriterState::Dispatching,
        ensures
            final(self).wf(),
            final(self).same_plan(*old(self)),
            final(self).confirmed@ == old(self).confirmed@,
            final(self).attempts_left@ == old(self).attempts_left@,
            final(self).meta_attempts_left == old(self).meta_attempts_left,
            if old(self).confirmed@.len() == 0 {
                final(self).state == WriterState::CommittingMetadata && a == Action::CommitMetadata
            } else {
                final(self).state == WriterState::AwaitingBlocks && a == Action::Wait
            },
            a == Action::CommitMetadata ==> final(self).all_confirmed(),
    {
        if self.confirmed.len() == 0 {
            self.state = WriterState::CommittingMetadata;
            Action::CommitMetadata
        } else {
            self.state = WriterState::AwaitingBlocks;
            Action::Wait
        }
    }

    /// Barrier step: records the outcome one block write reported. `Done`
    /// confirms the block; only once every block is confirmed does the
    /// writer move to the metadata commit — never before (invariant I3). A
    /// `Transient` failure is retried while the block's attempt budget
    /// lasts; a `Fatal` failure, or an exhausted budget, fails the whole
    /// ingestion and advises cancellation of in-flight sibling writes.
    pub fn on_block_result(&mut self, blk_id: u64, outcome: WriteOutcome) -> (a: Action)
        requires
            old(self).wf(),
            old(self).state == WriterState::AwaitingBlocks,
            (blk_id as int) < old(self).confirmed@.len(),
        ensures
            final(self).wf(),
            final(self).same_plan(*old(self)),
            final(self).meta_attempts_left == old(self).meta_attempts_left,
            match outcome {
                WriteOutcome::Done => {
                    &&& final(self).confirmed@ == old(self).confirmed@.update(blk_id as int, true)
                    &&& final(self).attempts_left@ == old(self).attempts_left@
                    &&& if final(self).all_confirmed() {
                        final(self).state == WriterState::CommittingMetadata && a
                            == Action::CommitMetadata
                    } else {
                        final(self).state == WriterState::AwaitingBlocks && a == Action::Wait
                    }
                },
                WriteOutcome::Transient => {
                    &&& final(self).confirmed@ == old(self).confirmed@
                    &&& if old(self).attempts_left@[blk_id as int] > 0 {
                        &&& final(self).attempts_left@ == old(self).attempts_left@.update(
                            blk_id as int,
                            (old(self).attempts_left@[blk_id as int] - 1) as u64,
                        )
                        &&& final(self).state == WriterState::AwaitingBlocks
                        &&& a == Action::RetryBlock(blk_id)
                    } else {
                        &&& final(self).attempts_left@ == old(self).attempts_left@
                        &&& final(self).state == WriterState::Failed(FailReason::BlockWrite)
                        &&& a == Action::CancelSiblings
                    }
                },
                WriteOutcome::Fatal => {
                    &&& final(self).confirmed@ == old(self).confirmed@
                    &&& final(self).attempts_left@ == old(self).attempts_left@
                    &&& final(self).state == WriterState::Failed(FailReason::BlockWrite)
                    &&& a == Action::CancelSiblings
                },
            },
            a == Action::CommitMetadata ==> final(self).all_confirmed(),
    {
        let n = self.confirmed.len();
        proof {
            assert((blk_id as int) < (n as int));
        }
        let idx = blk_id as usize;
        match outcome {
            WriteOutcome::Done => {
                self.confirmed.set(idx, true);
                if all_true(&self.confirmed) {
                    self.state = WriterState::CommittingMetadata;
                    Action::CommitMetadata
                } else {
                    Action::Wait
                }
            },
            WriteOutcome::Transient => {
                let budget = self.attempts_left[idx];
                if budget > 0 {
                    self.attempts_left.set(idx, budget - 1);
                    Action::RetryBlock(blk_id)
                } else {
                    self.state = WriterState::Failed(FailReason::BlockWrite);
                    Action::CancelSiblings
                }
            },
            WriteOutcome::Fatal => {
                self.state = WriterState::Failed(FailReason::BlockWrite);
                Action::CancelSiblings
            },
        }
    }

    /// Metadata step: records the outcome of the metadata transaction.
    /// Success ends the ingestion; a transient failure is retried while the
    /// metadata budget lasts (the transaction is idempotent: the same
    /// identity deterministically produces the same row); a fatal failure,
    /// or an exhausted budget, fails the ingestion. Either way, by I3 any
    /// reader that sees the object row can read every referenced block.
    pub fn on_metadata_result(&mut self, outcome: WriteOutcome) -> (a: Action)
        requires
            old(self).wf(),
            old(self).state == WriterState::CommittingMetadata,
        ensures
            final(self).wf(),
            final(self).same_plan(*old(self)),
            final(self).confirmed@ == old(self).confirmed@,
            final(self).attempts_left@ == old(self).attempts_left@,
            match outcome {
                WriteOutcome::Done => {
                    &&& final(self).state == WriterState::Done
                    &&& a == Action::Halt
                    &&& final(self).meta_attempts_left == old(self).meta_attempts_left
                },
                WriteOutcome::Transient => {
                    if old(self).meta_attempts_left > 0 {
                        &&& final(self).meta_attempts_left == old(self).meta_attempts_left - 1
                        &&& final(self).state == WriterState::CommittingMetadata
                        &&& a == Action::RetryMetadata
                    } else {
                        &&& final(self).meta_attempts_left == old(self).meta_attempts_left
                        &&& final(self).state == WriterState::Failed(FailReason::Metadata)
                        &&& a == Action::Halt
                    }
                },
                WriteOutcome::Fatal => {
                    &&& final(self).meta_attempts_left == old(self).meta_attempts_left
                    &&& final(self).state == WriterState::Failed(FailReason::Metadata)
                    &&& a == Action::Halt
                },
            },
    {
        match outcome {
            WriteOutcome::Done => {
                self.state = WriterState::Done;
                Action::Halt
            },
            WriteOutcome::Transient => {
                if self.meta_attempts_left > 0 {
                    self.meta_attempts_left = self.meta_attempts_left - 1;
                    Action::RetryMetadata
                } else {
                    self.state = WriterState::Failed(FailReason::Metadata);
                    Action::Halt
                }
            },
            WriteOutcome::Fatal => {
                self.state = WriterState::Failed(FailReason::Metadata);
                Action::Halt
            },
        }
    }

    /// The object metadata row to commit: identity, path, chosen block size,
    /// and the ordered topology — block identifiers ascending from zero, no
    /// gaps, no duplicates. Available only at the metadata-commit step, when
    /// every block is confirmed durable (invariant I3).
    pub fn object_row(&self) -> (r: ObjectRow)
        requires
            self.wf(),
            self.state == WriterState::CommittingMetadata,
        ensures
            r.file_id == self.file_id,
            r.path == self.path,
            r.block_size == self.block_size,
            r.topology@.len() == self.confirmed@.len(),
            forall|i: int| 0 <= i < r.topology@.len() ==> #[trigger] r.topology@[i] == i as u64,
    {
        let n = self.confirmed.len();
        let mut topology: Vec<u64> = Vec::new();
        let mut i: usize = 0;
        while i < n
            invariant
                topology@.len() == i,
                i <= n,
                forall|k: int| 0 <= k < i ==> #[trigger] topology@[k] == k as u64,
            decreases n - i,
        {
            topology.push(i as u64);
            i = i + 1;
        }
        ObjectRow {
            file_id: self.file_id.clone(),
            path: self.path.clone(),
            block_size: self.block_size,
            topology,
        }
    }
}

/// Whether every entry of `v` is set.
fn all_true(v: &Vec<bool>) -> (r: bool)
    ensures
        r == forall|i: int| 0 <= i < v@.len() ==> v@[i],
{
    let mut i: usize = 0;
    while i < v.len()
        invariant
            i <= v@.len(),
            forall|k: int| 0 <= k < i ==> v@[k],
        decreases v@.len() - i,
    {
        if !v[i] {
            return false;
        }
        i = i + 1;
    }
    true
}

/// Slices `data` into block plans under `block_size`: plan `i` carries
/// identifier `i` and the bytes of block `i`.
fn chunk_bytes_plans(data: &Vec<u8>, block_size: usize) -> (blocks: Vec<BlockPlan>)
    requires
        block_size > 0,
    ensures
        blocks@.len() == chunker::num_blocks(data@.len() as int, block_size as int),
        forall|i: int| 0 <= i < blocks@.len() ==> (#[trigger] blocks@[i]).blk_id == i as u64,
        forall|i: int|
            0 <= i < blocks@.len() ==> (#[trigger] blocks@[i]).payload@ == chunker::chunk_of(
                data@,
                block_size as int,
                i,
            ),
        forall|i: int|
            0 <= i < blocks@.len() ==> (#[trigger] blocks@[i]).length as int
                == blocks@[i].payload@.len() as int,
        forall|i: int|
            0 <= i < blocks@.len() - 1 ==> (#[trigger] blocks@[i]).length as int
                == block_size as int,
        blocks@.len() > 0 ==> 0 < blocks@[blocks@.len() - 1].length as int <= block_size as int,
{
    let chunks = chunker::chunk_bytes(data, block_size);
    let n = chunks.len();
    let mut rest = chunks;
    let mut blocks: Vec<BlockPlan> = Vec::new();
    let ghost all = rest@;
    let mut i: usize = 0;
    proof {
        assert(all.skip(0) =~= all);
    }
    while i < n
        invariant
            blocks@.len() == i,
            i <= n,
            n == all.len(),
            rest@ == all.skip(i as int),
            forall|k: int| 0 <= k < i ==> (#[trigger] blocks@[k]).blk_id == k as u64,
            forall|k: int| 0 <= k < i ==> (#[trigger] blocks@[k]).payload@ == all[k]@,
            forall|k: int|
                0 <= k < i ==> (#[trigger] blocks@[k]).length as int
                    == blocks@[k].payload@.len() as int,
        decreases n - i,
    {
        let chunk = rest.remove(0);
        let length = chunk.len() as u64;
        blocks.push(BlockPlan { blk_id: i as u64, length, payload: chunk });
        i = i + 1;
        proof {
            assert(rest@ =~= all.skip(i as int));
        }
    }
    proof {
        let bs = block_size as int;
        let len = data@.len() as int;
        chunker::lemma_num_blocks_bounds(len, bs);
        assert forall|k: int| 0 <= k < blocks@.len() - 1 implies (#[trigger] blocks@[k]).length
            == block_size by {
            chunker::lemma_chunk_extent(len, bs, k);
        }
        if blocks@.len() > 0 {
            chunker::lemma_chunk_extent(len, bs, blocks@.len() - 1);
        }
    }
    blocks
}

} // verus!
