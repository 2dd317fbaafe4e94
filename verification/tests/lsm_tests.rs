use mobiusdb_lsm::memtable::batch::{Batch, DataType, Field, Value};
use mobiusdb_lsm::LsmState;

fn tagged_batch(prefix: &str, n: i32) -> Batch {
    Batch::try_new(
        vec![Field::new("n", DataType::Int32)],
        vec![vec![Value::Int32(n)]],
        1,
        Some(prefix.to_string()),
    )
    .unwrap()
}

#[test]
fn append_is_durable_then_visible() {
    let mut state = LsmState::new("tmp".to_string(), 1024 * 1024);
    let records: Vec<Vec<u8>> = vec![b"payload-bytes".to_vec()];
    let batches = vec![tagged_batch("metrics", 7)];
    assert!(state.handle_append(&records, &batches));
    // The entry is durable: it can be read back from the segment.
    let offset = state.wal_service.indexs[0];
    let msg = state.wal_service.wal.read_with_index(offset).unwrap();
    assert_eq!(msg.records().unwrap(), records);
    // The batch is visible: the catalog lists its table.
    let names = state.handle_table_list().unwrap();
    assert_eq!(names.len(), 1);
    assert_eq!(names[0].prefix, "metrics");
    let table = state
        .handle_table(&names[0].get_memtable_name())
        .unwrap();
    assert_eq!(table.row_count, 1);
    assert_eq!(table.columns[0], vec![Value::Int32(7)]);
}

#[test]
fn offset_list_replies_for_sealed_segments_only() {
    let mut state = LsmState::new("tmp".to_string(), 8);
    let records: Vec<Vec<u8>> = vec![b"0123456789".to_vec()];
    assert!(state.handle_append(&records, &vec![]));
    let first_name = state.wal_service.wal.name();
    // The tiny segment is already past its ceiling: the next append
    // rotates it out.
    assert!(state.handle_append(&records, &vec![]));
    assert_eq!(state.handle_offset_list(&first_name).len(), 1);
    assert_eq!(state.handle_offset_list(&"unknown.wal".to_string()).len(), 0);
}

#[test]
fn commands_apply_in_order() {
    // Appends tagged with sequence numbers in their payloads land in
    // the log in call order: re-reading by offset order yields the
    // sequence numbers monotonically.
    let mut state = LsmState::new("tmp".to_string(), 1024 * 1024);
    for seq in 0..10u8 {
        let records: Vec<Vec<u8>> = vec![vec![seq]];
        assert!(state.handle_append(&records, &vec![]));
    }
    let mut offsets = state.wal_service.indexs.clone();
    offsets.sort_by_key(|o| o.offset);
    let mut last = None;
    for offset in offsets {
        let msg = state.wal_service.wal.read_with_index(offset).unwrap();
        let records = msg.records().unwrap();
        let seq = records[0][0];
        if let Some(prev) = last {
            assert!(seq > prev);
        }
        last = Some(seq);
    }
}

#[test]
fn append_reply_reflects_insert_outcomes() {
    // A batch whose insert fails does not vanish behind a true reply:
    // the append replies false, even though the log write succeeded.
    let mut state = LsmState::new("tmp".to_string(), 1024 * 1024);
    let records: Vec<Vec<u8>> = vec![b"first".to_vec()];
    assert!(state.handle_append(&records, &vec![tagged_batch("acc", 1)]));

    // Same prefix, same field name, different type: a schema conflict.
    let clashing = Batch::try_new(
        vec![Field::new("n", DataType::Utf8)],
        vec![vec![Value::Utf8("x".to_string())]],
        1,
        Some("acc".to_string()),
    )
    .unwrap();
    let records2: Vec<Vec<u8>> = vec![b"second".to_vec()];
    assert!(!state.handle_append(&records2, &vec![clashing]));
    // The entry is still durable: both appends stand in the log.
    assert_eq!(state.wal_service.indexs.len(), 2);

    // An untagged batch is rejected, so its append replies false too.
    let untagged = Batch::try_new(
        vec![Field::new("n", DataType::Int32)],
        vec![vec![Value::Int32(2)]],
        1,
        None,
    )
    .unwrap();
    let records3: Vec<Vec<u8>> = vec![b"third".to_vec()];
    assert!(!state.handle_append(&records3, &vec![untagged]));
}
