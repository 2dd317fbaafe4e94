use std::sync::Arc;

use arrow::array::{Int32Array, RecordBatch, StringArray, UInt64Array};
use arrow::datatypes::{DataType, Field, Schema};
use arrow_flight::utils::batches_to_flight_data;
use prost::Message;

use mobiusdb_lsm::wal::active_wal::ActiveWal;
use mobiusdb_lsm::wal::offset::{decode_offsets, encode_offsets, Offset};
use mobiusdb_lsm::wal::wal_msg::{decode_wal_msgs, WalMsg};
use mobiusdb_lsm::wal::WalService;

#[test]
fn it_works() {}

#[test]
fn offset_encode_and_decode() {
    let offset = Offset {
        offset: 1234,
        len: 5678,
    };

    let mut buf = Vec::new();
    let len = offset.encode(&mut buf);
    println!("len: {}", len);
    let new_offset = Offset::decode(&buf).unwrap();
    println!("offset: {:?}", new_offset);
    assert_eq!(new_offset, offset);
}

#[test]
fn offset_vec_encode_and_decode() {
    let mut offsets = Vec::new();
    for i in 0..10 {
        let offset = Offset {
            offset: i,
            len: 5678,
        };
        offsets.push(offset);
    }

    let mut buf = Vec::new();
    let len = encode_offsets(&offsets, &mut buf);
    println!("len: {}", len);
    let new_offsets = decode_offsets(&buf).unwrap();
    println!("offsets: {:?}", new_offsets);
    assert_eq!(new_offsets, offsets);
}

fn create_short_batch(n: impl Into<String>) -> RecordBatch {
    let schema = Arc::new(Schema::new(vec![
        Field::new("name", DataType::Utf8, false),
        Field::new("age", DataType::Int32, false),
        Field::new("address", DataType::Int32, false),
        Field::new("time", DataType::UInt64, true),
    ]));
    RecordBatch::try_new(
        schema.clone(),
        vec![
            Arc::new(StringArray::from(vec![
                n.into(),
                "2".to_string(),
                "3".to_string(),
            ])),
            Arc::new(Int32Array::from(vec![4, 5, 6])),
            Arc::new(Int32Array::from(vec![7, 8, 9])),
            Arc::new(UInt64Array::from(vec![None, None, Some(9)])),
        ],
    )
    .unwrap()
}

fn create_datas(n: impl Into<String>) -> Vec<Vec<u8>> {
    let name = n.into();
    let batch = create_short_batch(name.clone());
    let batch1 = create_short_batch(name + "1");
    let schema = batch.schema();
    let fds = batches_to_flight_data(&schema, vec![batch, batch1]).unwrap();
    fds.into_iter().map(|fd| fd.encode_to_vec()).collect()
}

#[test]
fn wal_msg_encode_and_decode_test() {
    let fds = create_datas("test");
    let wal_msg = WalMsg::from_records(&fds);
    println!("wal_msg: {:?}", wal_msg);
    let mut buf = Vec::new();
    wal_msg.encode(&mut buf);
    let wal_msg1 = WalMsg::decode(&buf);
    println!("wal_msg1: {:?}", wal_msg1);
    assert_eq!(wal_msg, wal_msg1);
}

fn create_bytes_from_walmsgs(num: usize) -> Vec<u8> {
    let mut resp = Vec::new();
    let b: Vec<u8> = b"hello world !".to_vec();
    for i in 0..num {
        let wal_msg = WalMsg {
            num: i as u16,
            indexs: vec![45; i],
            bytes: b.clone(),
        };
        let mut buf = Vec::new();
        wal_msg.encode(&mut buf);
        resp.extend_from_slice(&(buf.len() as u32).to_be_bytes());
        resp.extend_from_slice(&buf);
    }
    resp
}

#[test]
fn wal_msg_encode_and_decode_test1() {
    let buf = create_bytes_from_walmsgs(20);
    let vecs = decode_wal_msgs(&buf);
    println!("v: {:?}", vecs);
    assert_eq!(vecs.unwrap().len(), 20);
}

#[test]
fn entry_round_trip_through_segment() {
    // Round trip: records appended as one entry come back byte for
    // byte when the returned offset is read.
    let mut wal = ActiveWal::with_size(1024 * 1024);
    let records: Vec<Vec<u8>> = vec![b"alpha".to_vec(), b"br".to_vec(), vec![], b"c".to_vec()];
    let offset = wal.append(&records).unwrap();
    let msg = wal.read_with_index(offset).unwrap();
    let back = msg.records().unwrap();
    assert_eq!(back, records);

    // The frame-start read path finds the same entry.
    let msg2 = wal.read_with_offset(offset.offset - 4).unwrap();
    assert_eq!(msg2.records().unwrap(), records);
}

#[test]
fn recovery_scan_matches_writing_session() {
    // Recovery determinism: loading a segment's bytes yields the very
    // offsets the writing session accumulated.
    let mut wal = ActiveWal::with_size(1024 * 1024);
    let mut written = Vec::new();
    for i in 0..5u8 {
        let records: Vec<Vec<u8>> = vec![vec![i; (i as usize) + 1], b"xy".to_vec()];
        written.push(wal.append(&records).unwrap());
    }
    let data = wal.data.clone();
    let (_reloaded, offsets) = ActiveWal::load("seg.wal".to_string(), data).unwrap();
    assert_eq!(offsets, written);
}

#[test]
fn rotation_keeps_sealed_offsets() {
    // Rotation: once the cumulative size passes the ceiling, the next
    // append succeeds against a fresh segment and the sealed
    // segment's offsets stay addressable under its name.
    let mut ws = WalService::init("tmp".to_string(), 30);
    let records: Vec<Vec<u8>> = vec![b"0123456789".to_vec()];
    assert!(ws.append(&records));
    assert!(ws.append(&records));
    let old_name = ws.wal.name();
    let old_offsets = ws.indexs.clone();
    assert_eq!(old_offsets.len(), 2);
    // The segment is now past its ceiling: this append rotates.
    assert!(ws.append(&records));
    assert_eq!(ws.indexs.len(), 1);
    assert_eq!(ws.offsets_for(&old_name), old_offsets);
    assert_ne!(ws.wal.name(), old_name);
    // An unknown segment name yields no offsets.
    assert_eq!(ws.offsets_for(&"nowhere.wal".to_string()).len(), 0);
}

#[test]
fn offsets_are_monotonic_in_append_order() {
    // Command ordering: entries appended one after the other stand at
    // strictly increasing payload offsets in the segment.
    let mut ws = WalService::init("tmp".to_string(), 1024 * 1024);
    for i in 0..6u8 {
        let records: Vec<Vec<u8>> = vec![vec![i], vec![i, i]];
        assert!(ws.append(&records));
    }
    for w in ws.indexs.windows(2) {
        assert!(w[0].offset < w[1].offset);
    }
}

#[test]
fn corrupt_segment_is_rejected() {
    // A frame that declares more bytes than remain fails the load.
    let mut data = Vec::new();
    data.extend_from_slice(&100u32.to_be_bytes());
    data.extend_from_slice(b"short");
    assert!(ActiveWal::load("bad.wal".to_string(), data).is_err());
}

#[test]
fn active_wal_open_test() {
    // A replayed segment is read-only: appending to it fails.
    let (mut wal, _offsets) = ActiveWal::load("test2.wal".to_string(), Vec::new()).unwrap();
    let resp = wal.append_bytes(&b"test".to_vec());
    assert_eq!(resp.is_err(), true);
}

#[test]
fn activewal_should_be_work() {
    let mut active_wal = ActiveWal::new();
    let fds = create_datas("test");
    let index = active_wal.append(&fds).unwrap();
    println!("index: {:?}", index);
    let wal_msg = active_wal.read_with_offset(index.offset - 4).unwrap();
    let resp = wal_msg.records().unwrap();
    assert_eq!(resp, fds);
}

#[test]
fn file_load_test() {
    let mut source = ActiveWal::new();
    let fds = create_datas("test");
    source.append(&fds).unwrap();
    source.append(&fds).unwrap();
    let (_wal, offsets) = ActiveWal::load("test2.wal".to_string(), source.data.clone()).unwrap();
    println!("offsets = {:?}", offsets);
    assert_eq!(offsets.len(), 2);
}

#[test]
fn wal_service_init_test() {
    let path = "tmp";
    let service = WalService::init(path.to_string(), 1024 * 1024);
    assert_eq!(service.indexs.len(), 0);
    assert!(service.wal.name().ends_with(".wal"));
}
