//! The in-memory database that mirrors the files, as far as this crate
//! relies on it.
//!
//! Nothing in this file is proved. Each item states what the source of
//! `kvdb` or `kvdb_memorydb` shows of the item that it names.

use crate::bytes::option_view;
use crate::listing::{entries_view, found_by_prefix, lists};
use crate::ops::{apply_ops, empty_columns, lookup, with_prefix, OpSpec};
use kvdb::{DBTransaction, KeyValueDB};
use kvdb_memorydb::InMemory;
use vstd::prelude::*;

verus! {

/// `kvdb_memorydb::InMemory`: a set of columns, each an ordered map from
/// keys to values, behind a lock.
#[verifier::external_type_specification]
#[verifier::external_body]
pub struct ExInMemory(kvdb_memorydb::InMemory);

/// `kvdb::DBTransaction`: a list of operations.
#[verifier::external_type_specification]
#[verifier::external_body]
pub struct ExDBTransaction(kvdb::DBTransaction);

/// `std::io::Error`, the error of every call into the database.
#[verifier::external_type_specification]
#[verifier::external_body]
pub struct ExIoError(std::io::Error);

/// The columns that a database holds, by index, and in each the value of
/// every key.
pub uninterp spec fn mirror_columns(db: InMemory) -> Map<u32, Map<Seq<u8>, Seq<u8>>>;

/// The operations that a transaction holds, in the order in which they
/// were added.
pub uninterp spec fn staged_ops(txn: DBTransaction) -> Seq<OpSpec>;

/// Calls `kvdb_memorydb::create`, which makes a database with an empty
/// column for every index below `num_cols`.
#[verifier::external_body]
pub(crate) fn create(num_cols: u32) -> (db: InMemory)
    ensures
        mirror_columns(db) == empty_columns(num_cols),
{
    kvdb_memorydb::create(num_cols)
}

/// Calls `DBTransaction::new`, which makes a transaction without
/// operations.
#[verifier::external_body]
pub(crate) fn new_transaction() -> (txn: DBTransaction)
    ensures
        staged_ops(txn) == Seq::<OpSpec>::empty(),
{
    DBTransaction::new()
}

/// Calls `DBTransaction::put`, which adds an insertion of a copy of `key`
/// and a copy of `value` behind the operations that are there.
#[verifier::external_body]
pub(crate) fn stage_put(txn: &mut DBTransaction, col: u32, key: &[u8], value: &[u8])
    ensures
        staged_ops(*final(txn)) == staged_ops(*old(txn)).push(
            OpSpec::Insert { col, key: key@, value: value@ },
        ),
{
    txn.put(col, key, value)
}

/// Calls `DBTransaction::delete`, which adds a deletion of `key` behind
/// the operations that are there.
#[verifier::external_body]
pub(crate) fn stage_delete(txn: &mut DBTransaction, col: u32, key: &[u8])
    ensures
        staged_ops(*final(txn)) == staged_ops(*old(txn)).push(OpSpec::Delete { col, key: key@ }),
{
    txn.delete(col, key)
}

/// Calls `DBTransaction::delete_prefix`, which adds a deletion of the
/// keys with `prefix` behind the operations that are there.
#[verifier::external_body]
pub(crate) fn stage_delete_prefix(txn: &mut DBTransaction, col: u32, prefix: &[u8])
    ensures
        staged_ops(*final(txn)) == staged_ops(*old(txn)).push(
            OpSpec::DeletePrefix { col, prefix: prefix@ },
        ),
{
    txn.delete_prefix(col, prefix)
}

/// Calls `InMemory::write`, which applies the operations of the
/// transaction in order and always returns `Ok`. An insertion sets the key
/// in its column, a deletion removes it, a deletion by prefix removes the
/// keys that start with the prefix (every key, for the empty prefix), and
/// an operation on a column that is not there does nothing. The call
/// changes the database behind a shared reference; the exclusive one that
/// is asked for here keeps every other view of it away. Nothing in the
/// call panics: the lock has no poisoned state, and the range of keys
/// that a deletion by prefix walks never ends before it starts.
#[verifier::external_body]
pub(crate) fn write(db: &mut InMemory, txn: DBTransaction) -> (done: Result<(), std::io::Error>)
    ensures
        done is Ok,
        mirror_columns(*final(db)) == apply_ops(mirror_columns(*old(db)), staged_ops(txn)),
    no_unwind
{
    db.write(txn)
}

/// Calls `InMemory::get`, which fails if the column is not there and else
/// returns a copy of the value that the column holds for `key`, if any.
#[verifier::external_body]
pub(crate) fn get(db: &InMemory, col: u32, key: &[u8]) -> (found: Result<
    Option<Vec<u8>>,
    std::io::Error,
>)
    ensures
        found is Ok <==> mirror_columns(*db).contains_key(col),
        found matches Ok(value) ==> option_view(value) == lookup(mirror_columns(*db), col, key@),
{
    db.get(col, key)
}

/// Calls `InMemory::get_by_prefix`, which fails if the column is not
/// there and else walks the column in the order of its keys and returns a
/// copy of the value of the first key that starts with `prefix`, if there
/// is such a key.
#[verifier::external_body]
pub(crate) fn get_by_prefix(db: &InMemory, col: u32, prefix: &[u8]) -> (found: Result<
    Option<Vec<u8>>,
    std::io::Error,
>)
    ensures
        found is Ok <==> mirror_columns(*db).contains_key(col),
        found matches Ok(value) ==> found_by_prefix(
            mirror_columns(*db)[col],
            prefix@,
            option_view(value),
        ),
{
    db.get_by_prefix(col, prefix)
}

/// Calls `InMemory::iter` and collects what it yields. The iterator
/// yields a single error if the column is not there, and else a copy of
/// every pair of the column in the order of its keys.
#[verifier::external_body]
pub(crate) fn iter(db: &InMemory, col: u32) -> (listed: Result<
    Vec<(Vec<u8>, Vec<u8>)>,
    std::io::Error,
>)
    ensures
        listed is Ok <==> mirror_columns(*db).contains_key(col),
        listed matches Ok(entries) ==> lists(entries_view(entries@), mirror_columns(*db)[col]),
{
    db.iter(col).map(|item| item.map(|(key, value)| (key.into_vec(), value))).collect()
}

/// Calls `InMemory::iter_with_prefix` and collects what it yields. The
/// iterator yields a single error if the column is not there, and else a
/// copy of every pair of the column whose key starts with `prefix`, in the
/// order of the keys.
#[verifier::external_body]
pub(crate) fn iter_with_prefix(db: &InMemory, col: u32, prefix: &[u8]) -> (listed: Result<
    Vec<(Vec<u8>, Vec<u8>)>,
    std::io::Error,
>)
    ensures
        listed is Ok <==> mirror_columns(*db).contains_key(col),
        listed matches Ok(entries) ==> lists(
            entries_view(entries@),
            with_prefix(mirror_columns(*db)[col], prefix@),
        ),
{
    db.iter_with_prefix(col, prefix).map(|item| item.map(|(key, value)| (key.into_vec(), value))).collect()
}

} // verus!
