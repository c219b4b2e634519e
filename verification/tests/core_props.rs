use chunkstore::chunker::chunk_bytes;
use chunkstore::errors::WriteOutcome;
use chunkstore::picker::{default_catalog, pick_block_size};
use chunkstore::store::{ObjectRow, Store};
use chunkstore::writer::{Action, ObjectWriter, WriterState};

#[test]
fn picker_scenario_ten_megabytes() {
    // 10,000,000 bytes against {512,1024,2048,4096} KB: 512 KB, 1024 KB and
    // 2048 KB all waste 485,760 bytes; the tie resolves to the smallest.
    let catalog = default_catalog();
    assert_eq!(pick_block_size(&catalog, 10_000_000), 512 * 1024);
}

#[test]
fn picker_zero_length_picks_first_entry() {
    let catalog = default_catalog();
    assert_eq!(pick_block_size(&catalog, 0), 512 * 1024);
}

#[test]
fn picker_prefers_smaller_waste() {
    // waste(3, 7) = 2, waste(5, 7) = 3.
    let catalog = vec![3u64, 5u64];
    assert_eq!(pick_block_size(&catalog, 7), 3);
    // waste(3, 9) = 0, waste(5, 9) = 1.
    assert_eq!(pick_block_size(&catalog, 9), 3);
    // waste(3, 10) = 2, waste(5, 10) = 0.
    assert_eq!(pick_block_size(&catalog, 10), 5);
}

#[test]
fn picker_tie_resolves_to_first_catalog_entry() {
    // 15 is a multiple of both: zero waste everywhere, first entry wins.
    let catalog = vec![3u64, 5u64];
    assert_eq!(pick_block_size(&catalog, 15), 3);
}

#[test]
fn chunker_splits_with_short_tail() {
    let data: Vec<u8> = (0u8..10).collect();
    let blocks = chunk_bytes(&data, 4);
    assert_eq!(blocks.len(), 3);
    assert_eq!(blocks[0], vec![0, 1, 2, 3]);
    assert_eq!(blocks[1], vec![4, 5, 6, 7]);
    assert_eq!(blocks[2], vec![8, 9]);
}

#[test]
fn chunker_exact_multiple_keeps_full_tail() {
    let data: Vec<u8> = (0u8..8).collect();
    let blocks = chunk_bytes(&data, 4);
    assert_eq!(blocks.len(), 2);
    assert_eq!(blocks[1].len(), 4);
}

#[test]
fn chunker_empty_input_yields_zero_blocks() {
    let data: Vec<u8> = Vec::new();
    let blocks = chunk_bytes(&data, 4);
    assert_eq!(blocks.len(), 0);
}

#[test]
fn chunker_round_trip_reconstructs_input() {
    let data: Vec<u8> = (0u8..=255).cycle().take(1000).collect();
    for bs in [1usize, 7, 256, 999, 1000, 2000] {
        let blocks = chunk_bytes(&data, bs);
        let mut joined: Vec<u8> = Vec::new();
        for b in &blocks {
            joined.extend_from_slice(b);
        }
        assert_eq!(joined, data);
    }
}

#[test]
fn store_block_write_is_idempotent() {
    let mut store = Store::new();
    store.replace_block(3, 4, vec![9, 9, 9, 9]);
    let once_len = store.get_block(3).unwrap().length;
    let once_data = store.get_block(3).unwrap().data.clone();
    store.replace_block(3, 4, vec![9, 9, 9, 9]);
    let b = store.get_block(3).unwrap();
    assert_eq!(b.length, once_len);
    assert_eq!(b.data, once_data);
    assert!(store.has_block(3));
    assert!(!store.has_block(2));
    assert!(store.object().is_none());
}

#[test]
fn store_replace_overwrites_row() {
    let mut store = Store::new();
    store.replace_block(0, 2, vec![1, 2]);
    store.replace_block(0, 3, vec![7, 8, 9]);
    let b = store.get_block(0).unwrap();
    assert_eq!(b.length, 3);
    assert_eq!(b.data, vec![7, 8, 9]);
}

#[test]
fn store_object_commit_keeps_blocks() {
    let mut store = Store::new();
    store.replace_block(0, 1, vec![5]);
    store.replace_object(ObjectRow {
        file_id: "f".to_string(),
        path: "p".to_string(),
        block_size: 4,
        topology: vec![0],
    });
    assert!(store.has_block(0));
    let o = store.object().as_ref().unwrap();
    assert_eq!(o.topology, vec![0]);
}

#[test]
fn writer_plan_assigns_ascending_identifiers() {
    let mut w = ObjectWriter::new_with_file_id("f".to_string(), "p".to_string(), 2);
    assert_eq!(w.state, WriterState::Chunking);
    let catalog = vec![4u64];
    let data: Vec<u8> = (0u8..10).collect();
    let blocks = w.plan(&catalog, &data);
    assert_eq!(w.state, WriterState::Dispatching);
    assert_eq!(w.block_size, 4);
    assert_eq!(blocks.len(), 3);
    for (i, b) in blocks.iter().enumerate() {
        assert_eq!(b.blk_id, i as u64);
        assert_eq!(b.length as usize, b.payload.len());
    }
    assert_eq!(blocks[2].payload, vec![8, 9]);
}

#[test]
fn writer_zero_blocks_skips_the_barrier() {
    let mut w = ObjectWriter::new_with_file_id("f".to_string(), "p".to_string(), 2);
    let catalog = vec![4u64];
    let data: Vec<u8> = Vec::new();
    let blocks = w.plan(&catalog, &data);
    assert_eq!(blocks.len(), 0);
    let a = w.dispatched();
    assert_eq!(a, Action::CommitMetadata);
    assert_eq!(w.state, WriterState::CommittingMetadata);
    let row = w.object_row();
    assert_eq!(row.topology.len(), 0);
}

#[test]
fn writer_commits_only_after_every_confirmation() {
    let mut w = ObjectWriter::new_with_file_id("f".to_string(), "p".to_string(), 2);
    let catalog = vec![4u64];
    let data: Vec<u8> = (0u8..10).collect();
    let _blocks = w.plan(&catalog, &data);
    assert_eq!(w.dispatched(), Action::Wait);
    assert_eq!(w.state, WriterState::AwaitingBlocks);
    assert_eq!(w.on_block_result(0, WriteOutcome::Done), Action::Wait);
    assert_eq!(w.on_block_result(2, WriteOutcome::Done), Action::Wait);
    assert_eq!(w.state, WriterState::AwaitingBlocks);
    assert_eq!(w.on_block_result(1, WriteOutcome::Done), Action::CommitMetadata);
    assert_eq!(w.state, WriterState::CommittingMetadata);
    let row = w.object_row();
    assert_eq!(row.topology, vec![0, 1, 2]);
    assert_eq!(row.block_size, 4);
    assert_eq!(w.on_metadata_result(WriteOutcome::Done), Action::Halt);
    assert_eq!(w.state, WriterState::Done);
}

#[test]
fn writer_transient_retries_until_budget_runs_out() {
    let mut w = ObjectWriter::new_with_file_id("f".to_string(), "p".to_string(), 2);
    let catalog = vec![4u64];
    let data: Vec<u8> = (0u8..10).collect();
    let _blocks = w.plan(&catalog, &data);
    w.dispatched();
    assert_eq!(w.on_block_result(1, WriteOutcome::Transient), Action::RetryBlock(1));
    assert_eq!(w.on_block_result(1, WriteOutcome::Transient), Action::RetryBlock(1));
    assert_eq!(w.on_block_result(1, WriteOutcome::Transient), Action::CancelSiblings);
    assert!(matches!(w.state, WriterState::Failed(_)));
}

#[test]
fn writer_fatal_fails_at_once() {
    let mut w = ObjectWriter::new_with_file_id("f".to_string(), "p".to_string(), 2);
    let catalog = vec![4u64];
    let data: Vec<u8> = (0u8..10).collect();
    let _blocks = w.plan(&catalog, &data);
    w.dispatched();
    assert_eq!(w.on_block_result(0, WriteOutcome::Fatal), Action::CancelSiblings);
    assert!(matches!(w.state, WriterState::Failed(_)));
}

#[test]
fn writer_metadata_outcomes() {
    let mut w = ObjectWriter::new_with_file_id("f".to_string(), "p".to_string(), 1);
    let catalog = vec![4u64];
    let data: Vec<u8> = Vec::new();
    w.plan(&catalog, &data);
    w.dispatched();
    assert_eq!(w.on_metadata_result(WriteOutcome::Transient), Action::RetryMetadata);
    assert_eq!(w.state, WriterState::CommittingMetadata);
    assert_eq!(w.on_metadata_result(WriteOutcome::Transient), Action::Halt);
    assert!(matches!(w.state, WriterState::Failed(_)));
}
