use mobiusdb_lsm::utils::file_utils::get_sstable_file_name;
use mobiusdb_lsm::utils::table_name::TableName;
use mobiusdb_lsm::utils::time_utils::{now, now_as_nano};

#[test]
fn test_table_name() {
    let ss_table = TableName::new_mem_name("test");
    println!("ss_table:{}", ss_table.get_sstable_name());
}

#[test]
fn get_sstable_file_name_test() {
    let path = "/Users/firoly/Documents/code/rust/mobiusdb/mobiusdb-lsm/tmp/l0/file0.sst";
    let resp = get_sstable_file_name(path);
    println!("resp: {:?}", resp);
}

#[test]
fn now_should_return_current_time() {
    let now = now();
    assert!(now > 0);
    let now_str = now.to_string();
    println!("now_str: {}", now_str);
    assert!(now_str.len() == 16);
}

#[test]
fn now_as_nano_should_return_current_time() {
    let now = now_as_nano();
    assert!(now > 0);
    let now_str = now.to_string();
    println!("now_str: {}", now_str);
    assert!(now_str.len() == 19);
}

#[test]
fn sstable_file_name_takes_last_component() {
    let path = "/a/b/c.sst";
    let resp = get_sstable_file_name(path).unwrap();
    assert_eq!(resp, "c.sst");
    let bare = get_sstable_file_name("plain.sst").unwrap();
    assert_eq!(bare, "plain.sst");
}

#[test]
fn table_name_renders_and_parses() {
    let name = TableName::new_with_time("orders", 1234567);
    let rendered = name.get_memtable_name();
    assert_eq!(rendered, "orders-1234567");
    let parsed = TableName::new_with_mem_name(&rendered);
    assert_eq!(parsed.prefix, "orders");
    assert_eq!(parsed.time, Some(1234567));
    assert_eq!(TableName::get_prefix_name_with_name(&rendered), "orders");
}

#[test]
fn sstable_name_includes_suffix() {
    let name = TableName::new_with_opts("orders", 7, ".sst");
    assert_eq!(name.get_sstable_name(), "orders-7.sst");
    assert_eq!(name.get_prefix_name(), "orders");
}
