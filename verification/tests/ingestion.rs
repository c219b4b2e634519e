use chunkstore::driver::run_ingestion;
use chunkstore::errors::{FailReason, WriteOutcome};
use chunkstore::picker::default_catalog;
use chunkstore::store::Store;
use chunkstore::writer::ObjectWriter;

#[test]
fn ingestion_ten_megabyte_scenario() {
    // 10,000,000 bytes, catalog {512,1024,2048,4096} KB: the picker selects
    // 512 KB, the chunker yields ceil(10,000,000 / 524,288) = 20 blocks, the
    // last one 38,528 bytes; the object row is committed last with the exact
    // topology 0..19.
    let data: Vec<u8> = (0u8..=255).cycle().take(10_000_000).collect();
    let catalog = default_catalog();
    let mut store = Store::new();
    let outcomes: Vec<WriteOutcome> = Vec::new();
    let r = run_ingestion(
        &mut store,
        "fid-10mb".to_string(),
        "ten_megabytes.bin".to_string(),
        &catalog,
        &data,
        &outcomes,
        WriteOutcome::Done,
        3,
    );
    assert_eq!(r, Ok(()));
    let o = store.object().as_ref().unwrap();
    assert_eq!(o.file_id, "fid-10mb");
    assert_eq!(o.path, "ten_megabytes.bin");
    assert_eq!(o.block_size, 524_288);
    let expected_topology: Vec<u64> = (0u64..20).collect();
    assert_eq!(o.topology, expected_topology);
    for i in 0u64..19 {
        let b = store.get_block(i).unwrap();
        assert_eq!(b.length, 524_288);
    }
    let last = store.get_block(19).unwrap();
    assert_eq!(last.length, 38_528);
    assert!(store.get_block(20).is_none());
    // The stored rows reconstruct the object byte for byte.
    let mut joined: Vec<u8> = Vec::new();
    for i in 0u64..20 {
        joined.extend_from_slice(&store.get_block(i).unwrap().data);
    }
    assert_eq!(joined, data);
}

#[test]
fn ingestion_empty_object_commits_empty_topology() {
    let data: Vec<u8> = Vec::new();
    let catalog = default_catalog();
    let mut store = Store::new();
    let outcomes: Vec<WriteOutcome> = Vec::new();
    let r = run_ingestion(
        &mut store,
        "fid-empty".to_string(),
        "empty.bin".to_string(),
        &catalog,
        &data,
        &outcomes,
        WriteOutcome::Done,
        3,
    );
    assert_eq!(r, Ok(()));
    let o = store.object().as_ref().unwrap();
    assert_eq!(o.block_size, 524_288);
    assert!(o.topology.is_empty());
    assert!(store.get_block(0).is_none());
}

#[test]
fn ingestion_third_of_five_fatal_commits_no_object() {
    // 18 bytes under block size 4: five blocks (4,4,4,4,2). The third write
    // fails fatally: the ingestion fails, zero object rows exist, the blocks
    // written before the failure remain as orphans.
    let data: Vec<u8> = (0u8..18).collect();
    let catalog = vec![4u64];
    let mut store = Store::new();
    let outcomes = vec![
        WriteOutcome::Done,
        WriteOutcome::Done,
        WriteOutcome::Fatal,
        WriteOutcome::Done,
        WriteOutcome::Done,
    ];
    let r = run_ingestion(
        &mut store,
        "fid-fatal".to_string(),
        "five_blocks.bin".to_string(),
        &catalog,
        &data,
        &outcomes,
        WriteOutcome::Done,
        3,
    );
    assert_eq!(r, Err(FailReason::BlockWrite));
    assert!(store.object().is_none());
    assert!(store.has_block(0));
    assert!(store.has_block(1));
    assert!(!store.has_block(2));
    assert!(!store.has_block(3));
    assert!(!store.has_block(4));
}

#[test]
fn ingestion_exhausted_transient_retries_fail_the_block() {
    let data: Vec<u8> = (0u8..8).collect();
    let catalog = vec![4u64];
    let mut store = Store::new();
    let outcomes = vec![WriteOutcome::Done, WriteOutcome::Transient];
    let r = run_ingestion(
        &mut store,
        "fid-transient".to_string(),
        "two_blocks.bin".to_string(),
        &catalog,
        &data,
        &outcomes,
        WriteOutcome::Done,
        2,
    );
    assert_eq!(r, Err(FailReason::BlockWrite));
    assert!(store.object().is_none());
    assert!(store.has_block(0));
    assert!(!store.has_block(1));
}

#[test]
fn ingestion_metadata_fatal_commits_no_object() {
    let data: Vec<u8> = (0u8..8).collect();
    let catalog = vec![4u64];
    let mut store = Store::new();
    let outcomes: Vec<WriteOutcome> = Vec::new();
    let r = run_ingestion(
        &mut store,
        "fid-meta".to_string(),
        "two_blocks.bin".to_string(),
        &catalog,
        &data,
        &outcomes,
        WriteOutcome::Fatal,
        2,
    );
    assert_eq!(r, Err(FailReason::Metadata));
    assert!(store.object().is_none());
    // Both blocks are durable orphans.
    assert!(store.has_block(0));
    assert!(store.has_block(1));
}

#[test]
fn ingestion_rerun_leaves_storage_unchanged() {
    // Re-running the whole ingestion with identical inputs overwrites every
    // row with identical content: safe to retry.
    let data: Vec<u8> = (0u8..18).collect();
    let catalog = vec![4u64];
    let mut store = Store::new();
    let outcomes: Vec<WriteOutcome> = Vec::new();
    for _ in 0..2 {
        let r = run_ingestion(
            &mut store,
            "fid-rerun".to_string(),
            "again.bin".to_string(),
            &catalog,
            &data,
            &outcomes,
            WriteOutcome::Done,
            2,
        );
        assert_eq!(r, Ok(()));
    }
    let o = store.object().as_ref().unwrap();
    assert_eq!(o.topology, vec![0, 1, 2, 3, 4]);
    assert_eq!(store.get_block(4).unwrap().data, vec![16, 17]);
}

#[test]
fn fresh_file_id_is_a_hyphenated_token() {
    let w = ObjectWriter::new("fresh.bin".to_string(), 3);
    assert_eq!(w.file_id.len(), 36);
    assert_eq!(w.file_id.matches('-').count(), 4);
    let w2 = ObjectWriter::new("fresh.bin".to_string(), 3);
    assert_ne!(w.file_id, w2.file_id);
}
