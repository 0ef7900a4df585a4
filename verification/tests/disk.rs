use kvdb_file::disk::{disk_action, holds_key, plan, sweeps, DiskAction};
use kvdb_file::ops::Op;
use kvdb_file::store::InFile;

fn insert(col: u32, key: &[u8], value: &[u8]) -> Op {
    Op::Insert { col, key: key.to_vec(), value: value.to_vec() }
}

fn delete(col: u32, key: &[u8]) -> Op {
    Op::Delete { col, key: key.to_vec() }
}

fn delete_prefix(col: u32, prefix: &[u8]) -> Op {
    Op::DeletePrefix { col, prefix: prefix.to_vec() }
}

#[test]
fn insertion_writes_the_file_of_its_key() {
    let op = insert(2, b"key1", b"horse");
    match disk_action("db", &op) {
        DiskAction::WriteFile { path, data } => {
            assert_eq!(path, "db/2/0x6b657931");
            assert_eq!(data, b"horse");
        },
        other => panic!("{:?}", other),
    }
}

#[test]
fn insertion_of_an_empty_value_writes_an_empty_file() {
    let op = insert(0, &[1], b"");
    match disk_action("db", &op) {
        DiskAction::WriteFile { path, data } => {
            assert_eq!(path, "db/0/0x01");
            assert!(data.is_empty());
        },
        other => panic!("{:?}", other),
    }
}

#[test]
fn deletion_removes_the_file_of_its_key() {
    let op = delete(0, &[0xde, 0xad]);
    match disk_action("db", &op) {
        DiskAction::RemoveFile { path } => assert_eq!(path, "db/0/0xdead"),
        other => panic!("{:?}", other),
    }
}

#[test]
fn deletion_by_prefix_sweeps_the_directory_of_its_column() {
    let op = delete_prefix(3, b"a");
    match disk_action("db", &op) {
        DiskAction::SweepDir { dir, prefix } => {
            assert_eq!(dir, "db/3");
            assert_eq!(prefix, b"a");
        },
        other => panic!("{:?}", other),
    }
}

#[test]
fn plan_has_one_step_for_each_operation_in_order() {
    let ops = vec![insert(0, b"a", b"1"), delete(1, b"b"), delete_prefix(0, b""), insert(1, b"c", b"2")];
    let steps = plan("r", &ops);
    assert_eq!(steps.len(), 4);
    assert!(matches!(&steps[0], DiskAction::WriteFile { path, data } if path == "r/0/0x61" && *data == b"1"));
    assert!(matches!(&steps[1], DiskAction::RemoveFile { path } if path == "r/1/0x62"));
    assert!(matches!(&steps[2], DiskAction::SweepDir { dir, prefix } if dir == "r/0" && prefix.is_empty()));
    assert!(matches!(&steps[3], DiskAction::WriteFile { path, data } if path == "r/1/0x63" && *data == b"2"));
}

#[test]
fn plan_of_an_empty_transaction_is_empty() {
    let ops: Vec<Op> = Vec::new();
    assert!(plan("r", &ops).is_empty());
}

#[test]
fn store_plans_below_its_own_root() {
    let store = InFile::open("here".to_string(), 1, Vec::new());
    let ops = vec![insert(0, &[0xab], b"v"), delete_prefix(0, &[0xab])];
    let steps = store.plan(&ops);
    assert_eq!(steps.len(), 2);
    assert!(matches!(&steps[0], DiskAction::WriteFile { path, data } if path == "here/0/0xab" && *data == b"v"));
    assert!(matches!(&steps[1], DiskAction::SweepDir { dir, prefix } if dir == "here/0" && *prefix == [0xab]));
}

#[test]
fn plan_does_not_look_at_the_number_of_columns() {
    let store = InFile::open("here".to_string(), 1, Vec::new());
    let ops = vec![insert(9, &[0x01], b"v")];
    let steps = store.plan(&ops);
    assert!(matches!(&steps[0], DiskAction::WriteFile { path, .. } if path == "here/9/0x01"));
}

#[test]
fn regular_file_with_the_name_of_a_key_holds_that_key() {
    assert_eq!(holds_key("db/0/0x6b657931", true), Some(b"key1".to_vec()));
    assert_eq!(holds_key("db/0/0x", true), Some(Vec::new()));
    assert_eq!(holds_key("db/0/0xAB", true), Some(vec![0xab]));
}

#[test]
fn entry_that_is_no_regular_file_holds_no_key() {
    assert_eq!(holds_key("db/0/0x6b657931", false), None);
}

#[test]
fn file_with_another_name_holds_no_key() {
    assert_eq!(holds_key("db/0/readme.txt", true), None);
    assert_eq!(holds_key("db/0/0xabc", true), None);
    assert_eq!(holds_key("db/0/0xgg", true), None);
}

#[test]
fn sweep_for_the_empty_prefix_takes_every_regular_file() {
    assert!(sweeps(b"", "db/0/0x6162", true));
    assert!(sweeps(b"", "db/0/readme.txt", true));
    assert!(sweeps(b"", "db/0/0xabc", true));
}

#[test]
fn sweep_takes_no_entry_that_is_no_regular_file() {
    assert!(!sweeps(b"", "db/0/0x6162", false));
    assert!(!sweeps(b"a", "db/0/0x6162", false));
    assert!(!sweeps(b"", "db/0/subdir", false));
}

#[test]
fn sweep_for_a_prefix_takes_the_keys_that_start_with_it() {
    assert!(sweeps(b"a", "db/0/0x6162", true));
    assert!(sweeps(b"ab", "db/0/0x6162", true));
    assert!(!sweeps(b"b", "db/0/0x6162", true));
    assert!(!sweeps(b"abc", "db/0/0x6162", true));
    assert!(sweeps(&[0xab], "db/0/0xABCD", true));
}

#[test]
fn sweep_for_a_prefix_leaves_names_that_are_no_keys() {
    assert!(!sweeps(b"a", "db/0/readme.txt", true));
    assert!(!sweeps(b"a", "db/0/0x616", true));
    assert!(!sweeps(b"a", "db/0/6162", true));
}
