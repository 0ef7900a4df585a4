use kvdb_file::disk::{holds_key, sweeps, DiskAction};
use kvdb_file::ops::Op;
use kvdb_file::path_codec::{col_path, key2file};
use kvdb_file::store::{InFile, StoredFile};
use std::collections::BTreeMap;

/// The regular files of a disk that lives in memory, by path.
type Files = BTreeMap<String, Vec<u8>>;

fn directory_of(path: &str) -> &str {
    match path.rfind('/') {
        Some(at) => &path[..at],
        None => "",
    }
}

fn perform(files: &mut Files, action: &DiskAction) -> Result<(), String> {
    match action {
        DiskAction::WriteFile { path, data } => {
            if path.contains("missing/") {
                return Err(format!("no directory for {}", path));
            }
            files.insert(path.clone(), data.to_vec());
        },
        DiskAction::RemoveFile { path } => {
            files.remove(path);
        },
        DiskAction::SweepDir { dir, prefix } => {
            let doomed: Vec<String> = files
                .keys()
                .filter(|path| directory_of(path) == dir.as_str() && sweeps(prefix, path, true))
                .cloned()
                .collect();
            for path in doomed {
                files.remove(&path);
            }
        },
    }
    Ok(())
}

fn scan(files: &Files, root: &str, num_cols: u32) -> Vec<StoredFile> {
    let mut found = Vec::new();
    for col in 0..num_cols {
        let dir = col_path(root, col);
        for (path, data) in files {
            if directory_of(path) == dir.as_str() {
                if let Some(key) = holds_key(path, true) {
                    found.push(StoredFile { col, key, value: data.clone() });
                }
            }
        }
    }
    found
}

fn open(files: &Files, root: &str, num_cols: u32) -> InFile {
    InFile::open(root.to_string(), num_cols, scan(files, root, num_cols))
}

fn try_write(store: &mut InFile, files: &mut Files, ops: Vec<Op>) -> Result<(), String> {
    let on_disk = store.plan(&ops).iter().try_for_each(|action| perform(files, action));
    store.write(ops, on_disk)
}

fn write(store: &mut InFile, files: &mut Files, ops: Vec<Op>) {
    assert_eq!(try_write(store, files, ops), Ok(()));
}

fn contents(store: &InFile) -> Vec<Vec<(Vec<u8>, Vec<u8>)>> {
    (0..store.num_columns()).map(|col| store.iter(col).unwrap()).collect()
}

fn insert(col: u32, key: &[u8], value: &[u8]) -> Op {
    Op::Insert { col, key: key.to_vec(), value: value.to_vec() }
}

fn delete(col: u32, key: &[u8]) -> Op {
    Op::Delete { col, key: key.to_vec() }
}

fn delete_prefix(col: u32, prefix: &[u8]) -> Op {
    Op::DeletePrefix { col, prefix: prefix.to_vec() }
}

#[test]
fn store_opened_again_holds_what_was_written() {
    let mut files = Files::new();
    let mut store = open(&files, "db", 2);
    write(&mut store, &mut files, vec![insert(0, b"key1", b"horse"), insert(1, b"key2", b"cat")]);
    write(&mut store, &mut files, vec![insert(0, b"key3", b"dog"), delete(1, b"key2")]);
    let before = contents(&store);
    drop(store);
    let again = open(&files, "db", 2);
    assert_eq!(contents(&again), before);
    assert_eq!(again.get(0, b"key1"), Ok(Some(b"horse".to_vec())));
    assert_eq!(again.get(0, b"key3"), Ok(Some(b"dog".to_vec())));
    assert_eq!(again.get(1, b"key2"), Ok(None));
}

#[test]
fn store_opened_again_after_every_kind_of_operation() {
    let mut files = Files::new();
    let mut store = open(&files, "root/dir", 3);
    write(
        &mut store,
        &mut files,
        vec![
            insert(0, b"ab", b"1"),
            insert(0, b"ac", b"2"),
            insert(0, b"ba", b"3"),
            insert(1, b"ab", b"4"),
            insert(2, b"", b"5"),
            insert(2, &[0xff, 0x00], b""),
        ],
    );
    write(&mut store, &mut files, vec![delete_prefix(0, b"a"), insert(1, b"ab", b"6"), delete(2, b"zz")]);
    write(&mut store, &mut files, vec![delete_prefix(2, b""), insert(2, b"new", b"7")]);
    let before = contents(&store);
    assert_eq!(
        before,
        vec![
            vec![(b"ba".to_vec(), b"3".to_vec())],
            vec![(b"ab".to_vec(), b"6".to_vec())],
            vec![(b"new".to_vec(), b"7".to_vec())],
        ]
    );
    let again = open(&files, "root/dir", 3);
    assert_eq!(contents(&again), before);
}

#[test]
fn files_on_disk_follow_the_layout() {
    let mut files = Files::new();
    let mut store = open(&files, "db", 2);
    write(&mut store, &mut files, vec![insert(0, b"key1", b"horse"), insert(1, &[0xab], b"")]);
    let expected: Files = [
        ("db/0/0x6b657931".to_string(), b"horse".to_vec()),
        ("db/1/0xab".to_string(), Vec::new()),
    ]
    .into_iter()
    .collect();
    assert_eq!(files, expected);
    write(&mut store, &mut files, vec![delete(0, b"key1")]);
    assert_eq!(files.keys().collect::<Vec<_>>(), vec!["db/1/0xab"]);
}

#[test]
fn prefix_delete_removes_the_files_of_the_keys_with_the_prefix() {
    let mut files = Files::new();
    let mut store = open(&files, "db", 1);
    write(&mut store, &mut files, vec![insert(0, b"ab", b"1"), insert(0, b"ac", b"2"), insert(0, b"ba", b"3")]);
    write(&mut store, &mut files, vec![delete_prefix(0, b"a")]);
    assert_eq!(files.keys().collect::<Vec<_>>(), vec![&key2file("db", 0, b"ba")]);
    assert_eq!(store.iter(0), Ok(vec![(b"ba".to_vec(), b"3".to_vec())]));
    write(&mut store, &mut files, vec![delete_prefix(0, b"")]);
    assert!(files.is_empty());
    assert_eq!(store.iter(0), Ok(Vec::new()));
}

#[test]
fn sweep_stays_within_its_column() {
    let mut files = Files::new();
    let mut store = open(&files, "db", 12);
    write(&mut store, &mut files, vec![insert(1, b"a", b"1"), insert(11, b"a", b"2"), insert(0, b"a", b"3")]);
    write(&mut store, &mut files, vec![delete_prefix(1, b"")]);
    assert_eq!(files.keys().collect::<Vec<_>>(), vec!["db/0/0x61", "db/11/0x61"]);
    let again = open(&files, "db", 12);
    assert_eq!(contents(&again), contents(&store));
}

#[test]
fn files_with_other_names_are_passed_over_when_a_store_is_opened() {
    let mut files = Files::new();
    files.insert("db/0/readme.txt".to_string(), b"hello".to_vec());
    files.insert("db/0/0xabc".to_string(), b"odd".to_vec());
    files.insert("db/0/0x6b657931".to_string(), b"horse".to_vec());
    files.insert("db/0/deep/0x01".to_string(), b"nested".to_vec());
    files.insert("db/7/0x02".to_string(), b"no such column".to_vec());
    let store = open(&files, "db", 1);
    assert_eq!(store.iter(0), Ok(vec![(b"key1".to_vec(), b"horse".to_vec())]));
}

#[test]
fn sweep_for_a_prefix_leaves_files_with_other_names() {
    let mut files = Files::new();
    files.insert("db/0/readme.txt".to_string(), b"hello".to_vec());
    files.insert("db/0/0x6162".to_string(), b"1".to_vec());
    let mut store = open(&files, "db", 1);
    write(&mut store, &mut files, vec![delete_prefix(0, b"a")]);
    assert_eq!(files.keys().collect::<Vec<_>>(), vec!["db/0/readme.txt"]);
    write(&mut store, &mut files, vec![delete_prefix(0, b"")]);
    assert!(files.is_empty());
}

#[test]
fn overwritten_value_is_what_a_new_store_loads() {
    let mut files = Files::new();
    let mut store = open(&files, "", 1);
    write(&mut store, &mut files, vec![insert(0, b"k", b"old")]);
    write(&mut store, &mut files, vec![insert(0, b"k", b"new")]);
    assert_eq!(files.len(), 1);
    assert_eq!(files.get("0/0x6b"), Some(&b"new".to_vec()));
    let again = open(&files, "", 1);
    assert_eq!(again.get(0, b"k"), Ok(Some(b"new".to_vec())));
}

#[test]
fn failed_step_stops_the_transaction_and_is_not_rolled_back() {
    let mut files = Files::new();
    let mut store = open(&files, "db", 1);
    write(&mut store, &mut files, vec![insert(0, b"old", b"0")]);
    let mut elsewhere = InFile::open("db/missing".to_string(), 1, Vec::new());
    let done = try_write(
        &mut store,
        &mut files,
        vec![insert(0, b"a", b"1"), delete(0, b"old")],
    );
    assert_eq!(done, Ok(()));
    let failed = try_write(
        &mut elsewhere,
        &mut files,
        vec![delete(0, b"x"), insert(0, b"b", b"2"), insert(0, b"c", b"3")],
    );
    assert_eq!(failed, Err("no directory for db/missing/0/0x62".to_string()));
    assert_eq!(elsewhere.iter(0), Ok(Vec::new()));
    assert_eq!(files.keys().collect::<Vec<_>>(), vec!["db/0/0x61"]);
}

#[test]
fn steps_before_a_failed_one_stay_done_on_disk() {
    let mut files = Files::new();
    files.insert("missing/0/0x6f6c64".to_string(), b"0".to_vec());
    let mut store = open(&files, "missing", 1);
    assert_eq!(store.iter(0), Ok(vec![(b"old".to_vec(), b"0".to_vec())]));
    let failed = try_write(&mut store, &mut files, vec![delete(0, b"old"), insert(0, b"new", b"1")]);
    assert!(failed.is_err());
    assert!(files.is_empty());
    assert_eq!(store.iter(0), Ok(vec![(b"old".to_vec(), b"0".to_vec())]));
    let again = open(&files, "missing", 1);
    assert_eq!(again.iter(0), Ok(Vec::new()));
}
