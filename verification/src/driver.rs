use vstd::prelude::*;
use crate::chunker;
use crate::errors::{FailReason, WriteOutcome};
use crate::picker;
use crate::store::Store;
use crate::writer::{Action, ObjectWriter, WriterState};

verus! {

/// The block-size pick for `len` bytes out of `catalog`: the first catalog
/// entry of minimal trailing-padding waste. It is unique, by
/// `picker::lemma_pick_deterministic`.
pub open spec fn spec_pick(catalog: Seq<u64>, len: u64) -> u64 {
    choose|s: u64| picker::is_first_min_waste(catalog, len, s)
}

/// The block size an ingestion of `data` under `catalog` chooses.
pub open spec fn planned_size(catalog: Seq<u64>, data: Seq<u8>) -> u64 {
    spec_pick(catalog, data.len() as u64)
}

/// How many blocks an ingestion of `data` under `catalog` produces.
pub open spec fn planned_count(catalog: Seq<u64>, data: Seq<u8>) -> int {
    chunker::num_blocks(data.len() as int, planned_size(catalog, data) as int)
}

/// The bytes of block `i` of an ingestion of `data` under `catalog`.
pub open spec fn planned_chunk(catalog: Seq<u64>, data: Seq<u8>, i: int) -> Seq<u8> {
    chunker::chunk_of(data, planned_size(catalog, data) as int, i)
}

/// The block row that block `i` of an ingestion of `data` under `catalog`
/// commits: its byte count and its payload.
pub open spec fn planned_row(catalog: Seq<u64>, data: Seq<u8>, i: int) -> (u64, Seq<u8>) {
    (planned_chunk(catalog, data, i).len() as u64, planned_chunk(catalog, data, i))
}

/// The outcome injected for block `i`: entries beyond the script's end mean
/// the write succeeds.
pub open spec fn injected(outcomes: Seq<WriteOutcome>, i: int) -> WriteOutcome {
    if 0 <= i < outcomes.len() {
        outcomes[i]
    } else {
        WriteOutcome::Done
    }
}

/// Every block before `i` is injected to succeed.
pub open spec fn all_done_before(outcomes: Seq<WriteOutcome>, i: int) -> bool {
    forall|j: int| 0 <= j < i ==> injected(outcomes, j) == WriteOutcome::Done
}

/// Block `i`'s write lands: the sequential run reaches it (every earlier
/// block succeeded) and its own injected outcome is success.
pub open spec fn block_written(outcomes: Seq<WriteOutcome>, i: int) -> bool {
    all_done_before(outcomes, i) && injected(outcomes, i) == WriteOutcome::Done
}

/// Every block write of an ingestion of `data` under `catalog` is injected
/// to succeed.
pub open spec fn ingestion_blocks_ok(
    catalog: Seq<u64>,
    data: Seq<u8>,
    outcomes: Seq<WriteOutcome>,
) -> bool {
    forall|i: int|
        0 <= i < planned_count(catalog, data) ==> injected(outcomes, i) == WriteOutcome::Done
}

/// The whole ingestion is injected to succeed: every block write, and the
/// metadata commit.
pub open spec fn ingestion_ok(
    catalog: Seq<u64>,
    data: Seq<u8>,
    outcomes: Seq<WriteOutcome>,
    meta_outcome: WriteOutcome,
) -> bool {
    ingestion_blocks_ok(catalog, data, outcomes) && meta_outcome == WriteOutcome::Done
}

/// The block rows that a run of the ingestion commits: one row per block
/// whose write lands (`block_written`), holding that block's bytes.
pub open spec fn written_rows(
    catalog: Seq<u64>,
    data: Seq<u8>,
    outcomes: Seq<WriteOutcome>,
) -> Map<u64, (u64, Seq<u8>)> {
    Map::new(
        |k: u64| (k as int) < planned_count(catalog, data) && block_written(outcomes, k as int),
        |k: u64| planned_row(catalog, data, k as int),
    )
}

/// Copies a byte payload: the caller keeps the plan, the store gets a copy.
fn clone_bytes(v: &Vec<u8>) -> (r: Vec<u8>)
    ensures
        r@ == v@,
{
    let mut r: Vec<u8> = Vec::new();
    let mut i: usize = 0;
    while i < v.len()
        invariant
            i <= v@.len(),
            r@ == v@.take(i as int),
        decreases v@.len() - i,
    {
        r.push(v[i]);
        proof {
            assert(r@ =~= v@.take(i as int + 1));
        }
        i = i + 1;
    }
    proof {
        assert(v@.take(v@.len() as int) =~= v@);
    }
    r
}

/// Runs one whole ingestion against `store`, sequentially: the verified
/// analog of the concurrent orchestration, with the backend's behaviour
/// injected by the caller. `outcomes[i]` is what every attempt to write
/// block `i` reports (entries beyond the script's end mean success);
/// `meta_outcome` is what every metadata-commit attempt reports. Blocks are
/// written in identifier order; the run stops at the first block whose write
/// fails (fatally, or transiently past its retry budget).
///
/// Atomicity: the object row becomes visible if and only if every block
/// write and the metadata commit succeed, and then it references only
/// durable blocks; on failure the object row is exactly what it was, while
/// blocks written before the failure remain as orphans, to be reclaimed by
/// an external sweep.
#[verifier::rlimit(100)]
pub fn run_ingestion(
    store: &mut Store,
    file_id: String,
    path: String,
    catalog: &Vec<u64>,
    data: &Vec<u8>,
    outcomes: &Vec<WriteOutcome>,
    meta_outcome: WriteOutcome,
    max_attempts: u64,
) -> (r: Result<(), FailReason>)
    requires
        catalog@.len() > 0,
        forall|i: int|
            0 <= i < catalog@.len() ==> 0 < #[trigger] catalog@[i] <= usize::MAX as u64,
    ensures
        (ingestion_ok(catalog@, data@, outcomes@, meta_outcome)) ==> r == Ok::<(), FailReason>(
            (),
        ),
        !(ingestion_blocks_ok(catalog@, data@, outcomes@)) ==> r == Err::<(), FailReason>(
            FailReason::BlockWrite,
        ),
        (ingestion_blocks_ok(catalog@, data@, outcomes@) && meta_outcome != WriteOutcome::Done)
            ==> r == Err::<(), FailReason>(FailReason::Metadata),
        final(store).blocks_map() == old(store).blocks_map().union_prefer_right(
            written_rows(catalog@, data@, outcomes@),
        ),
        (ingestion_ok(catalog@, data@, outcomes@, meta_outcome)) ==> (match final(store).object_row() {
            Some(row) => {
                &&& row.file_id == file_id
                &&& row.path == path
                &&& row.block_size == planned_size(catalog@, data@)
                &&& row.topology@.len() == planned_count(catalog@, data@)
                &&& forall|i: int|
                    0 <= i < planned_count(catalog@, data@) ==> #[trigger] row.topology@[i]
                        == i as u64
            },
            None => false,
        }),
        !(ingestion_ok(catalog@, data@, outcomes@, meta_outcome)) ==> final(store).object_row()
            == old(store).object_row(),
        old(store).no_dangling() ==> final(store).no_dangling(),
{
    let len64 = data.len() as u64;
    let mut w = ObjectWriter::new_with_file_id(file_id, path, max_attempts);
    let blocks = w.plan(catalog, data);
    proof {
        assert(picker::is_first_min_waste(catalog@, len64, w.block_size));
        assert(picker::is_first_min_waste(catalog@, len64, spec_pick(catalog@, len64)));
        picker::lemma_pick_deterministic(
            catalog@,
            len64,
            w.block_size,
            spec_pick(catalog@, len64),
        );
        assert(w.block_size == planned_size(catalog@, data@));
    }
    let n = blocks.len();
    let ghost np = planned_count(catalog@, data@);
    proof {
        assert(n as int == np);
    }
    let _barrier = w.dispatched();
    let mut failed = false;
    let mut i: usize = 0;
    while i < n && !failed
        invariant
            w.wf(),
            n == blocks@.len(),
            n as int == np,
            np == planned_count(catalog@, data@),
            i <= n,
            !failed ==> w.block_size == planned_size(catalog@, data@),
            !failed ==> w.file_id == file_id,
            !failed ==> w.path == path,
            !failed ==> w.confirmed@.len() == n,
            !failed ==> w.attempts_left@.len() == n,
            forall|k: int| 0 <= k < n ==> (#[trigger] blocks@[k]).blk_id == k as u64,
            forall|k: int|
                0 <= k < n ==> (#[trigger] blocks@[k]).payload@ == planned_chunk(
                    catalog@,
                    data@,
                    k,
                ),
            forall|k: int|
                0 <= k < n ==> (#[trigger] blocks@[k]).length as int
                    == blocks@[k].payload@.len() as int,
            !failed ==> all_done_before(outcomes@, i as int),
            !failed && i < n ==> w.state == WriterState::AwaitingBlocks,
            !failed && i < n ==> forall|k: int|
                0 <= k < n ==> (#[trigger] w.confirmed@[k] <==> k < i),
            !failed && i == n ==> w.state == WriterState::CommittingMetadata,
            failed ==> 0 <= (i as int) < (n as int) && all_done_before(outcomes@, i as int)
                && injected(outcomes@, i as int) != WriteOutcome::Done,
            store.object_row() == old(store).object_row(),
            forall|k: u64|
                (k as int) < (i as int) ==> #[trigger] store.blocks_map().contains_key(k)
                    && store.blocks_map()[k] == planned_row(catalog@, data@, k as int),
            forall|k: u64|
                !((k as int) < (i as int)) ==> #[trigger] store.blocks_map().contains_key(k)
                    == old(store).blocks_map().contains_key(k),
            forall|k: u64|
                !((k as int) < (i as int)) && old(store).blocks_map().contains_key(k)
                    ==> #[trigger] store.blocks_map()[k] == old(store).blocks_map()[k],
        decreases (if failed {
            0int
        } else {
            1int
        }), n - i,
    {
        let oc = if i < outcomes.len() {
            outcomes[i]
        } else {
            WriteOutcome::Done
        };
        proof {
            assert(oc == injected(outcomes@, i as int));
        }
        if oc == WriteOutcome::Done {
            let ghost pre = *store;
            let ghost ii = i as int;
            let payload = clone_bytes(&blocks[i].payload);
            store.replace_block(blocks[i].blk_id, blocks[i].length, payload);
            let _confirmed = w.on_block_result(blocks[i].blk_id, WriteOutcome::Done);
            i = i + 1;
            proof {
                assert(i as int == ii + 1);
                assert(all_done_before(outcomes@, i as int));
                assert(blocks@[ii].payload@ == planned_chunk(catalog@, data@, ii));
                assert(planned_chunk(catalog@, data@, ii).len() as u64 == blocks@[ii].length);
                assert(store.blocks_map() == pre.blocks_map().insert(
                    ii as u64,
                    (blocks@[ii].length, blocks@[ii].payload@),
                ));
                assert forall|k: u64| (k as int) < (i as int) implies #[trigger] store
                    .blocks_map().contains_key(k) && store.blocks_map()[k] == planned_row(
                    catalog@,
                    data@,
                    k as int,
                ) by {
                    if (k as int) < ii {
                        assert(k != ii as u64);
                        assert(pre.blocks_map().contains_key(k));
                        assert(pre.blocks_map()[k] == planned_row(catalog@, data@, k as int));
                    } else {
                        assert(k == ii as u64);
                    }
                }
                assert forall|k: u64| !((k as int) < (i as int)) implies #[trigger] store
                    .blocks_map().contains_key(k) == old(store).blocks_map().contains_key(k) by {
                    assert(k != ii as u64);
                    assert(pre.blocks_map().contains_key(k) == old(
                        store,
                    ).blocks_map().contains_key(k));
                }
                assert forall|k: u64|
                    !((k as int) < (i as int)) && old(store).blocks_map().contains_key(k)
                    implies #[trigger] store.blocks_map()[k] == old(store).blocks_map()[k] by {
                    assert(k != ii as u64);
                    assert(pre.blocks_map()[k] == old(store).blocks_map()[k]);
                }
                if i < n {
                    assert(!w.all_confirmed()) by {
                        assert(!w.confirmed@[i as int]);
                    }
                }
            }
        } else if oc == WriteOutcome::Transient {
            let blk = blocks[i].blk_id;
            let mut a = w.on_block_result(blk, WriteOutcome::Transient);
            while a == Action::RetryBlock(blk)
                invariant
                    w.wf(),
                    w.confirmed@.len() == n,
                    (blk as int) < (n as int),
                    a == Action::RetryBlock(blk) ==> w.state == WriterState::AwaitingBlocks,
                decreases w.attempts_left@[blk as int], (if a == Action::RetryBlock(blk) {
                    1int
                } else {
                    0int
                }),
            {
                a = w.on_block_result(blk, WriteOutcome::Transient);
            }
            failed = true;
        } else {
            let blk = blocks[i].blk_id;
            let _cancel = w.on_block_result(blk, WriteOutcome::Fatal);
            failed = true;
        }
    }
    proof {
        if old(store).no_dangling() {
            assert(store.no_dangling()) by {
                match store.object_row() {
                    Some(o) => {
                        assert forall|j: int| 0 <= j < o.topology@.len() implies store
                            .blocks_map().contains_key(#[trigger] o.topology@[j]) by {
                            let kk = o.topology@[j];
                            assert(old(store).blocks_map().contains_key(kk));
                            if !((kk as int) < (i as int)) {
                                assert(store.blocks_map().contains_key(kk) == old(
                                    store,
                                ).blocks_map().contains_key(kk));
                            }
                        }
                    },
                    None => {},
                }
            }
        }
    }
    if failed {
        proof {
            let wr = written_rows(catalog@, data@, outcomes@);
            assert forall|k: u64| #[trigger] wr.contains_key(k) implies (k as int) < (
            i as int) by {
                if (k as int) >= i as int {
                    assert(block_written(outcomes@, k as int));
                    if (k as int) == i as int {
                        assert(injected(outcomes@, i as int) == WriteOutcome::Done);
                    } else {
                        assert(all_done_before(outcomes@, k as int));
                        assert(injected(outcomes@, i as int) == WriteOutcome::Done);
                    }
                    assert(false);
                }
            }
            assert forall|k: u64| (k as int) < (i as int) implies #[trigger] wr.contains_key(k)
                && wr[k] == planned_row(catalog@, data@, k as int) by {
                assert(injected(outcomes@, k as int) == WriteOutcome::Done);
                assert(block_written(outcomes@, k as int));
                assert((k as int) < np);
            }
            assert(store.blocks_map() =~= old(store).blocks_map().union_prefer_right(wr));
        }
        return Err(FailReason::BlockWrite);
    }
    proof {
        assert(w.state == WriterState::CommittingMetadata);
        assert forall|k: int| 0 <= k < np implies #[trigger] block_written(outcomes@, k) by {
            assert(all_done_before(outcomes@, n as int));
        }
        let wr = written_rows(catalog@, data@, outcomes@);
        assert forall|k: u64| #[trigger] wr.contains_key(k) implies (k as int) < (i as int) by {
        }
        assert forall|k: u64| (k as int) < (i as int) implies #[trigger] wr.contains_key(k)
            && wr[k] == planned_row(catalog@, data@, k as int) by {
            assert(block_written(outcomes@, k as int));
        }
        assert(store.blocks_map() =~= old(store).blocks_map().union_prefer_right(wr));
    }
    let row = w.object_row();
    if meta_outcome == WriteOutcome::Done {
        store.replace_object(row);
        let _halt = w.on_metadata_result(WriteOutcome::Done);
        proof {
            assert(store.blocks_map() == old(store).blocks_map().union_prefer_right(
                written_rows(catalog@, data@, outcomes@),
            ));
            assert(store.no_dangling()) by {
                let fr = store.object_row()->Some_0;
                assert forall|j: int| 0 <= j < fr.topology@.len() implies store
                    .blocks_map().contains_key(#[trigger] fr.topology@[j]) by {
                    assert(fr.topology@[j] == j as u64);
                    assert(((j as u64) as int) < (i as int));
                    assert(store.blocks_map().contains_key(j as u64));
                }
            }
        }
        Ok(())
    } else if meta_outcome == WriteOutcome::Transient {
        let mut a = w.on_metadata_result(WriteOutcome::Transient);
        while a == Action::RetryMetadata
            invariant
                w.wf(),
                a == Action::RetryMetadata ==> w.state == WriterState::CommittingMetadata,
            decreases w.meta_attempts_left, (if a == Action::RetryMetadata {
                1int
            } else {
                0int
            }),
        {
            a = w.on_metadata_result(WriteOutcome::Transient);
        }
        Err(FailReason::Metadata)
    } else {
        let _halt = w.on_metadata_result(WriteOutcome::Fatal);
        Err(FailReason::Metadata)
    }
}

} // verus!
