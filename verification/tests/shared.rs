use kvdb::{DBKeyValue, DBOp, DBTransaction, DBValue, KeyValueDB};
use kvdb_file::ops::Op;
use kvdb_file::store::{InFile, StoreError};
use kvdb_shared_tests as st;
use std::io;
use std::sync::Mutex;

struct Mirror {
    store: Mutex<InFile>,
}

fn create(name: &str, num_cols: u32) -> Mirror {
    Mirror { store: Mutex::new(InFile::open(name.to_string(), num_cols, Vec::new())) }
}

fn failure(error: StoreError) -> io::Error {
    match error {
        StoreError::NoSuchColumn { col } => {
            io::Error::new(io::ErrorKind::Other, format!("No such column family: {:?}", col))
        },
    }
}

fn listed<'a>(
    found: Result<Vec<(Vec<u8>, Vec<u8>)>, StoreError>,
) -> Box<dyn Iterator<Item = io::Result<DBKeyValue>> + 'a> {
    match found {
        Ok(entries) => Box::new(entries.into_iter().map(|(key, value)| Ok((key.into(), value)))),
        Err(error) => Box::new(std::iter::once(Err(failure(error)))),
    }
}

impl KeyValueDB for Mirror {
    fn get(&self, col: u32, key: &[u8]) -> io::Result<Option<DBValue>> {
        self.store.lock().unwrap().get(col, key).map_err(failure)
    }

    fn get_by_prefix(&self, col: u32, prefix: &[u8]) -> io::Result<Option<DBValue>> {
        self.store.lock().unwrap().get_by_prefix(col, prefix).map_err(failure)
    }

    fn write(&self, transaction: DBTransaction) -> io::Result<()> {
        let ops: Vec<Op> = transaction
            .ops
            .into_iter()
            .map(|op| match op {
                DBOp::Insert { col, key, value } => Op::Insert { col, key: key.into_vec(), value },
                DBOp::Delete { col, key } => Op::Delete { col, key: key.into_vec() },
                DBOp::DeletePrefix { col, prefix } => Op::DeletePrefix { col, prefix: prefix.into_vec() },
            })
            .collect();
        let mut store = self.store.lock().unwrap();
        assert_eq!(store.plan(&ops).len(), ops.len());
        store.write(ops, Ok(()))
    }

    fn iter<'a>(&'a self, col: u32) -> Box<dyn Iterator<Item = io::Result<DBKeyValue>> + 'a> {
        listed(self.store.lock().unwrap().iter(col))
    }

    fn iter_with_prefix<'a>(
        &'a self,
        col: u32,
        prefix: &'a [u8],
    ) -> Box<dyn Iterator<Item = io::Result<DBKeyValue>> + 'a> {
        listed(self.store.lock().unwrap().iter_with_prefix(col, prefix))
    }
}

#[test]
fn get_fails_with_non_existing_column() -> io::Result<()> {
    let db = create("get_fails_with_non_existing_column", 1);
    st::test_get_fails_with_non_existing_column(&db)
}

#[test]
fn put_and_get() -> io::Result<()> {
    let db = create("put_and_get", 1);
    st::test_put_and_get(&db)
}

#[test]
fn delete_and_get() -> io::Result<()> {
    let db = create("delete_and_get", 1);
    st::test_delete_and_get(&db)
}

#[test]
fn delete_prefix() -> io::Result<()> {
    let db = create("delete_prefix", st::DELETE_PREFIX_NUM_COLUMNS);
    st::test_delete_prefix(&db)
}

#[test]
fn iter() -> io::Result<()> {
    let db = create("iter", 1);
    st::test_iter(&db)
}

#[test]
fn iter_with_prefix() -> io::Result<()> {
    let db = create("iter_with_prefix", 1);
    st::test_iter_with_prefix(&db)
}

#[test]
fn complex() -> io::Result<()> {
    let db = create("complex", 1);
    st::test_complex(&db)
}

#[test]
fn write_clears_buffered_ops() -> io::Result<()> {
    let db = create("write_clears_buffered_ops", 1);
    st::test_write_clears_buffered_ops(&db)
}
