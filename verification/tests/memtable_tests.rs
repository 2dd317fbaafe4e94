use std::sync::Arc;

use arrow::array::{ArrayRef, RecordBatch, StringArray};
use arrow::datatypes::{DataType as ArrowType, Field as ArrowField, Schema};
use arrow_flight::utils::batches_to_flight_data;

use mobiusdb_lsm::memtable::batch::{
    batch_size, merge_batches, merge_batches_with_schema, merge_schema, Batch, DataType, Field,
    Value,
};
use mobiusdb_lsm::memtable::memory::MAX_BATCH_SIZE;
use mobiusdb_lsm::memtable::table_size::TableSize;
use mobiusdb_lsm::memtable::{EngineError, MemTableService};

fn utf8(s: &str) -> Value {
    Value::Utf8(s.to_string())
}

fn field(name: &str, dtype: DataType) -> Field {
    Field::new(name, dtype)
}

fn create_student_batch1(name: &str, age: i32) -> Batch {
    Batch::try_new(
        vec![
            field("name", DataType::Utf8),
            field("age", DataType::Int32),
            field("address", DataType::Int32),
        ],
        vec![
            vec![utf8(name), utf8("Tom"), utf8("Jack")],
            vec![Value::Int32(age), Value::Int32(19), Value::Int32(20)],
            vec![Value::Int32(71), Value::Int32(81), Value::Int32(91)],
        ],
        3,
        None,
    )
    .unwrap()
}

fn create_teacher_batch2() -> Batch {
    Batch::try_new(
        vec![
            field("name", DataType::Utf8),
            field("age", DataType::Int32),
            field("teach", DataType::Utf8),
        ],
        vec![
            vec![utf8("James"), utf8("Michael"), utf8("David")],
            vec![Value::Int32(18), Value::Int32(19), Value::Int32(20)],
            vec![utf8("Computer"), utf8("language"), utf8("Music")],
        ],
        3,
        None,
    )
    .unwrap()
}

fn create_short_batch(n: &str) -> Batch {
    Batch::try_new(
        vec![
            field("name", DataType::Utf8),
            field("age", DataType::Int32),
            field("address", DataType::Int32),
            field("time", DataType::UInt64),
        ],
        vec![
            vec![utf8(n), utf8("2"), utf8("3")],
            vec![Value::Int32(4), Value::Int32(5), Value::Int32(6)],
            vec![Value::Int32(7), Value::Int32(8), Value::Int32(9)],
            vec![Value::Null, Value::Null, Value::UInt64(9)],
        ],
        3,
        Some(n.to_string()),
    )
    .unwrap()
}

fn create_students(class: &str, names: Vec<String>, ages: Vec<i32>, address: Vec<String>) -> Batch {
    let rows = names.len();
    Batch::try_new(
        vec![
            field("name", DataType::Utf8),
            field("age", DataType::Int32),
            field("address", DataType::Utf8),
        ],
        vec![
            names.into_iter().map(Value::Utf8).collect(),
            ages.into_iter().map(Value::Int32).collect(),
            address.into_iter().map(Value::Utf8).collect(),
        ],
        rows,
        Some(class.to_string()),
    )
    .unwrap()
}

#[test]
fn test_insert() {
    let mut table_size = TableSize::new();
    let key1 = "key1".to_string();
    table_size.insert(&key1, 10);
    let size = table_size.get(&key1).unwrap();
    assert_eq!(size, 10);
    table_size.insert(&key1, 10);
    table_size.insert(&key1, 10);
    let size = table_size.get(&key1).unwrap();
    assert_eq!(size, 30);
}

#[test]
fn merge_batches_test() {
    let batch1 = create_student_batch1("Tom", 19);
    let batch2 = create_teacher_batch2();
    let teacher = create_teacher_batch2();
    let merged = merge_batches(&vec![&batch1, &batch2, &teacher]);
    println!("merged: {:?}", merged)
}

#[test]
fn combined_batch_test() {
    let batch1 = create_short_batch("test");
    let batch1_vec = batch1.columns.to_vec();

    let batch2 = create_short_batch("test1");
    let batch2_vec = batch2.columns.to_vec();

    let mut merged = batch1_vec;
    merged.extend(batch2_vec);
    println!("merged: {:?}", merged);
}

#[test]
fn test1() {
    let batch1 = create_student_batch1("Tom", 19);
    let batch2 = create_teacher_batch2();
    let schema = merge_schema(&batch1.fields, &batch2.fields).unwrap();
    let resp = merge_batches_with_schema(&schema, &vec![&batch1, &batch2]);
    println!("resp: {:?}", resp);
}

#[test]
fn merge_batchs_test() {
    let group1 = create_students(
        "三年级二班",
        vec![
            "A".to_string(),
            "B".to_string(),
            "C".to_string(),
            "D".to_string(),
            "E".to_string(),
        ],
        vec![10, 11, 12, 13, 14],
        vec![
            "BeiJing".to_string(),
            "ShangHai".to_string(),
            "ChengDu".to_string(),
            "GuangZhou".to_string(),
            "ChongQing".to_string(),
        ],
    );
    let group2 = create_students(
        "三年级二班",
        vec!["F".to_string(), "G".to_string(), "H".to_string()],
        vec![10, 11, 12],
        vec![
            "BeiJing".to_string(),
            "ShangHai".to_string(),
            "ChengDu".to_string(),
        ],
    );
    let schema = group1.fields.clone();
    let resp = merge_batches_with_schema(&schema, &vec![&group1, &group2]);
    println!("resp: {:?}", resp);
    assert_eq!(resp.row_count, 8);
}

#[test]
fn merge_reconciles_schemas_exactly() {
    // Student rows carry {name, age, address}; teacher rows carry
    // {name, age, teach}. The union schema holds all four fields and
    // missing columns are null-filled.
    let batch1 = create_student_batch1("Tom", 19);
    let batch2 = create_teacher_batch2();
    let merged = merge_batches(&vec![&batch1, &batch2]).unwrap();
    let names: Vec<&str> = merged.fields.iter().map(|f| f.name.as_str()).collect();
    assert_eq!(names, vec!["name", "age", "address", "teach"]);
    assert_eq!(merged.row_count, 6);
    assert_eq!(merged.columns[0][0], utf8("Tom"));
    assert_eq!(merged.columns[0][3], utf8("James"));
    // Teachers have no address: their three rows are null there.
    assert_eq!(merged.columns[2][2], Value::Int32(91));
    assert_eq!(merged.columns[2][3], Value::Null);
    // Students have no teach column: their three rows are null there.
    assert_eq!(merged.columns[3][0], Value::Null);
    assert_eq!(merged.columns[3][5], utf8("Music"));
}

#[test]
fn merge_rejects_conflicting_types() {
    let a = Batch::try_new(
        vec![field("name", DataType::Utf8)],
        vec![vec![utf8("x")]],
        1,
        None,
    )
    .unwrap();
    let b = Batch::try_new(
        vec![field("name", DataType::Int32)],
        vec![vec![Value::Int32(1)]],
        1,
        None,
    )
    .unwrap();
    let merged = merge_batches(&vec![&a, &b]);
    assert_eq!(merged, Err(EngineError::SchemaConflict));
}

#[test]
fn schema_union_merge_builds_one_table() {
    // Inserting {name, age} ("Tom", 30) and then {name, address}
    // ("Ann", "NYC") under one prefix yields one queryable table with
    // schema {name, age, address} and two rows.
    let mut engine = MemTableService::new();
    let a = Batch::try_new(
        vec![field("name", DataType::Utf8), field("age", DataType::Int32)],
        vec![vec![utf8("Tom")], vec![Value::Int32(30)]],
        1,
        Some("people".to_string()),
    )
    .unwrap();
    let b = Batch::try_new(
        vec![field("name", DataType::Utf8), field("address", DataType::Utf8)],
        vec![vec![utf8("Ann")], vec![utf8("NYC")]],
        1,
        Some("people".to_string()),
    )
    .unwrap();
    assert_eq!(engine.insert_batch_at(&a, 1), Ok(true));
    assert_eq!(engine.insert_batch_at(&b, 2), Ok(true));
    let merged = engine
        .query_with_table(&"people-2".to_string())
        .unwrap()
        .pop()
        .unwrap();
    let names: Vec<&str> = merged.fields.iter().map(|f| f.name.as_str()).collect();
    assert_eq!(names, vec!["name", "age", "address"]);
    assert_eq!(merged.row_count, 2);
    assert_eq!(merged.columns[0], vec![utf8("Tom"), utf8("Ann")]);
    assert_eq!(merged.columns[1], vec![Value::Int32(30), Value::Null]);
    assert_eq!(merged.columns[2], vec![Value::Null, utf8("NYC")]);
}

#[test]
fn generation_rollover_seals_oversized_tables() {
    // A merged batch past the size threshold produces a sealed
    // generation; the next insert starts a fresh generation instead
    // of merging into it, and the sealed one stays visible under the
    // prefix without being writable.
    let mut engine = MemTableService::new();
    let big_text = "x".repeat(MAX_BATCH_SIZE + 1);
    let big = Batch::try_new(
        vec![field("payload", DataType::Utf8)],
        vec![vec![Value::Utf8(big_text)]],
        1,
        Some("events".to_string()),
    )
    .unwrap();
    assert_eq!(engine.insert_batch_at(&big, 1), Ok(true));
    let gen1 = engine
        .table_indexs
        .mutables
        .get_table(&"events".to_string())
        .unwrap();
    assert!(!gen1.mutable);

    let small = Batch::try_new(
        vec![field("payload", DataType::Utf8)],
        vec![vec![utf8("tiny")]],
        1,
        Some("events".to_string()),
    )
    .unwrap();
    assert_eq!(engine.insert_batch_at(&small, 2), Ok(true));
    let gen2 = engine
        .table_indexs
        .mutables
        .get_table(&"events".to_string())
        .unwrap();
    assert!(gen2.mutable);
    assert_eq!(gen2.name.time, Some(2));
    // The fresh generation holds only the small batch's single row.
    let fresh = engine
        .query_with_table(&"events-2".to_string())
        .unwrap()
        .pop()
        .unwrap();
    assert_eq!(fresh.row_count, 1);
    // Both generations are visible under the prefix; only the new one
    // is writable.
    let all = engine.query_with_table_prefix(&"events".to_string());
    assert_eq!(all.len(), 2);
    let names = engine.tables().unwrap();
    assert_eq!(names.len(), 2);
    assert_eq!(names[0].time, Some(1));
    assert_eq!(names[1].time, Some(2));
}

#[test]
fn untagged_batch_is_rejected_without_effect() {
    // A batch with no table-name tag returns false and mutates
    // nothing.
    let mut engine = MemTableService::new();
    let untagged = Batch::try_new(
        vec![field("name", DataType::Utf8)],
        vec![vec![utf8("x")]],
        1,
        None,
    )
    .unwrap();
    assert_eq!(engine.insert_batch_at(&untagged, 1), Ok(false));
    assert_eq!(engine.tables().unwrap().len(), 0);
    assert!(engine
        .query_with_table(&"anything".to_string())
        .is_err());
}

#[test]
fn mutable_generations_merge_in_place() {
    // Two small inserts under one prefix merge: the second generation
    // holds both rows.
    let mut engine = MemTableService::new();
    let one = Batch::try_new(
        vec![field("n", DataType::Int32)],
        vec![vec![Value::Int32(1)]],
        1,
        Some("acc".to_string()),
    )
    .unwrap();
    let two = Batch::try_new(
        vec![field("n", DataType::Int32)],
        vec![vec![Value::Int32(2)]],
        1,
        Some("acc".to_string()),
    )
    .unwrap();
    assert_eq!(engine.insert_batch_at(&one, 1), Ok(true));
    assert_eq!(engine.insert_batch_at(&two, 2), Ok(true));
    let merged = engine
        .query_with_table(&"acc-2".to_string())
        .unwrap()
        .pop()
        .unwrap();
    assert_eq!(merged.row_count, 2);
    assert_eq!(merged.columns[0], vec![Value::Int32(1), Value::Int32(2)]);
}

fn create_batch_with_opts(cloumn: usize, _table_name: &str) -> (Batch, RecordBatch) {
    let mut fields = Vec::new();
    let mut arrow_fields = Vec::new();
    let mut columns = Vec::new();
    let mut arrow_columns: Vec<ArrayRef> = Vec::new();
    for i in 0..cloumn {
        let name = format!("col_{}", i);
        fields.push(Field::new(&name, DataType::Utf8));
        arrow_fields.push(ArrowField::new(name, ArrowType::Utf8, true));
        let values: Vec<String> = (0..cloumn)
            .map(|j| "value_".to_string() + j.to_string().as_str())
            .collect();
        arrow_columns.push(Arc::new(StringArray::from(values.clone())));
        columns.push(values.into_iter().map(Value::Utf8).collect());
    }
    let batch = Batch::try_new(fields, columns, cloumn, None).unwrap();
    let arrow_batch =
        RecordBatch::try_new(Arc::new(Schema::new(arrow_fields)), arrow_columns).unwrap();
    (batch, arrow_batch)
}

#[test]
fn batch_size_test() {
    let (batch, arrow_batch) = create_batch_with_opts(2000, "table_name");
    let schema = arrow_batch.schema();
    println!("batch: {:?} kb", batch_size(&batch) / 1000);
    let mut vs = Vec::new();
    vs.push(arrow_batch);
    let batch1 = batches_to_flight_data(&schema, vs).unwrap();
    println!(
        "fd: {:?} kb",
        (batch1[0].data_header.len() + batch1[0].data_body.len()) / 1000
    );
}
