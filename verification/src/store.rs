//! The store: a root directory, a number of columns, and the mirror that
//! serves every read.

use crate::bytes::option_view;
use crate::disk;
use crate::disk::{actions_for, actions_view, DiskAction};
use crate::listing::{entries_view, found_by_prefix, lists};
use crate::mirror;
use crate::mirror::{mirror_columns, staged_ops};
use crate::ops::{apply_ops, empty_columns, has_columns, lookup, ops_view, with_prefix};
use crate::ops::{lemma_apply_ops_keeps_columns, Columns, Op, OpSpec};
use crate::path_codec;
use crate::path_codec::{column_path, key_of_path, key_path};
use kvdb::DBTransaction;
use kvdb_memorydb::InMemory;
use vstd::prelude::*;

verus! {

/// Why a read failed.
#[derive(Clone, Copy, Debug, PartialEq, Eq, Structural)]
pub enum StoreError {
    /// The store has no column with this index.
    NoSuchColumn { col: u32 },
}

/// A file that was found in a column directory: the column, the key that
/// the name of the file stands for, and the contents of the file.
#[derive(Clone, Debug)]
pub struct StoredFile {
    pub col: u32,
    pub key: Vec<u8>,
    pub value: Vec<u8>,
}

/// The insertions that bring the given files into a mirror, in the order
/// of the files.
pub open spec fn insertions(files: Seq<StoredFile>) -> Seq<OpSpec> {
    files.map_values(
        |file: StoredFile| OpSpec::Insert { col: file.col, key: file.key@, value: file.value@ },
    )
}

/// A key-value store that lives in files, one for each key, below a root
/// directory, and keeps all of them in memory.
pub struct InFile {
    path: String,
    num_cols: u32,
    in_memory: InMemory,
}

/// A store as contracts see it.
pub struct InFileView {
    /// The path of the root directory.
    pub root: Seq<char>,
    /// The number of columns; their indices are those below it.
    pub num_cols: u32,
    /// What the mirror holds.
    pub columns: Columns,
}

impl View for InFile {
    type V = InFileView;

    closed spec fn view(&self) -> InFileView {
        InFileView {
            root: self.path@,
            num_cols: self.num_cols,
            columns: mirror_columns(self.in_memory),
        }
    }
}

/// A transaction with the given operations, in their order.
fn stage(ops: &Vec<Op>) -> (txn: DBTransaction)
    ensures
        staged_ops(txn) == ops_view(ops@),
{
    let mut txn = mirror::new_transaction();
    let mut i: usize = 0;
    while i < ops.len()
        invariant
            i <= ops.len(),
            staged_ops(txn) == ops_view(ops@.take(i as int)),
        decreases ops.len() - i,
    {
        match &ops[i] {
            Op::Insert { col, key, value } => {
                mirror::stage_put(&mut txn, *col, key.as_slice(), value.as_slice());
            },
            Op::Delete { col, key } => {
                mirror::stage_delete(&mut txn, *col, key.as_slice());
            },
            Op::DeletePrefix { col, prefix } => {
                mirror::stage_delete_prefix(&mut txn, *col, prefix.as_slice());
            },
        }
        proof {
            assert(ops@.take(i + 1) =~= ops@.take(i as int).push(ops@[i as int]));
            assert(ops_view(ops@.take(i + 1)) =~= ops_view(ops@.take(i as int)).push(
                ops@[i as int]@,
            ));
        }
        i += 1;
    }
    assert(ops@.take(i as int) =~= ops@);
    txn
}

/// A transaction that inserts the given files, in their order.
fn stage_files(files: &Vec<StoredFile>) -> (txn: DBTransaction)
    ensures
        staged_ops(txn) == insertions(files@),
{
    let mut txn = mirror::new_transaction();
    let mut i: usize = 0;
    while i < files.len()
        invariant
            i <= files.len(),
            staged_ops(txn) == insertions(files@.take(i as int)),
        decreases files.len() - i,
    {
        let file = &files[i];
        mirror::stage_put(&mut txn, file.col, file.key.as_slice(), file.value.as_slice());
        proof {
            assert(files@.take(i + 1) =~= files@.take(i as int).push(files@[i as int]));
            assert(insertions(files@.take(i + 1)) =~= insertions(files@.take(i as int)).push(
                OpSpec::Insert { col: file.col, key: file.key@, value: file.value@ },
            ));
        }
        i += 1;
    }
    assert(files@.take(i as int) =~= files@);
    txn
}

impl Default for InFile {
    /// A store without columns, below the empty path.
    fn default() -> (store: InFile)
        ensures
            store@.root == Seq::<char>::empty(),
            store@.num_cols == 0,
            store@.columns == empty_columns(0),
    {
        InFile::open(String::new(), 0, Vec::new())
    }
}

impl InFile {
    /// The mirror has exactly the columns that the store was opened with.
    #[verifier::type_invariant]
    spec fn well_formed(&self) -> bool {
        has_columns(mirror_columns(self.in_memory), self.num_cols)
    }

    /// Opens the store below `path` with `num_cols` columns, from the
    /// files that were found in its column directories: a fresh mirror is
    /// filled with one insertion for each file, in their order.
    pub fn open(path: String, num_cols: u32, files: Vec<StoredFile>) -> (store: InFile)
        ensures
            store@.root == path@,
            store@.num_cols == num_cols,
            store@.columns == apply_ops(empty_columns(num_cols), insertions(files@)),
            has_columns(store@.columns, num_cols),
    {
        let mut in_memory = mirror::create(num_cols);
        let txn = stage_files(&files);
        proof {
            lemma_apply_ops_keeps_columns(empty_columns(num_cols), insertions(files@));
        }
        let _ = mirror::write(&mut in_memory, txn);
        InFile { path, num_cols, in_memory }
    }

    /// The path of the root directory.
    pub fn root(&self) -> (root: &str)
        ensures
            root@ == self@.root,
    {
        self.path.as_str()
    }

    /// The number of columns.
    pub fn num_columns(&self) -> (n: u32)
        ensures
            n == self@.num_cols,
            has_columns(self@.columns, n),
    {
        proof {
            use_type_invariant(self);
        }
        self.num_cols
    }

    /// The path of the directory of column `col`.
    pub fn col_path(&self, col: u32) -> (path: String)
        ensures
            path@ == column_path(self@.root, col),
    {
        path_codec::col_path(self.path.as_str(), col)
    }

    /// The path of the file that holds `key` of column `col`.
    pub fn key2file(&self, col: u32, key: &[u8]) -> (path: String)
        ensures
            path@ == key_path(self@.root, col, key@),
            key_of_path(path@) == Some(key@),
    {
        path_codec::key2file(self.path.as_str(), col, key)
    }

    /// The key that the file at `path` holds, going by its name; `None`
    /// if the name is not that of a key.
    pub fn file2key(path: &str) -> (key: Option<Vec<u8>>)
        ensures
            option_view(key) == key_of_path(path@),
    {
        path_codec::file2key(path)
    }

    /// The value of `key` in column `col`, from the mirror. Fails if the
    /// store has no such column.
    pub fn get(&self, col: u32, key: &[u8]) -> (found: Result<Option<Vec<u8>>, StoreError>)
        ensures
            col < self@.num_cols ==> found is Ok,
            col >= self@.num_cols ==> found == Err::<Option<Vec<u8>>, StoreError>(
                StoreError::NoSuchColumn { col },
            ),
            found matches Ok(value) ==> option_view(value) == lookup(self@.columns, col, key@),
    {
        proof {
            use_type_invariant(self);
        }
        match mirror::get(&self.in_memory, col, key) {
            Ok(found) => Ok(found),
            Err(_) => Err(StoreError::NoSuchColumn { col }),
        }
    }

    /// The value of the first key of column `col` that starts with
    /// `prefix`, in the order of the keys, from the mirror; `None` if no
    /// key of the column starts with it. Fails if the store has no such
    /// column.
    pub fn get_by_prefix(&self, col: u32, prefix: &[u8]) -> (found: Result<
        Option<Vec<u8>>,
        StoreError,
    >)
        ensures
            col < self@.num_cols ==> found is Ok,
            col >= self@.num_cols ==> found == Err::<Option<Vec<u8>>, StoreError>(
                StoreError::NoSuchColumn { col },
            ),
            found matches Ok(value) ==> found_by_prefix(
                self@.columns[col],
                prefix@,
                option_view(value),
            ),
    {
        proof {
            use_type_invariant(self);
        }
        match mirror::get_by_prefix(&self.in_memory, col, prefix) {
            Ok(found) => Ok(found),
            Err(_) => Err(StoreError::NoSuchColumn { col }),
        }
    }

    /// The first half of a write: the steps that the transaction takes on
    /// disk, one for each operation, in order. The caller performs them
    /// one by one and stops at the first that fails; what was done until
    /// then stays done.
    pub fn plan<'a>(&self, transaction: &'a Vec<Op>) -> (actions: Vec<DiskAction<'a>>)
        ensures
            actions_view(actions@) == actions_for(self@.root, ops_view(transaction@)),
    {
        disk::plan(self.path.as_str(), transaction)
    }

    /// The second half of a write. `on_disk` says how the first half
    /// went: `Ok` if every step of [`InFile::plan`] succeeded, and else
    /// the error of the step that failed. After a success on disk the
    /// transaction is applied to the mirror, its operations one after the
    /// other, which cannot fail. After a failure the mirror stays as it
    /// was, and the error is handed on.
    pub fn write<E>(&mut self, transaction: Vec<Op>, on_disk: Result<(), E>) -> (done: Result<
        (),
        E,
    >)
        ensures
            done == on_disk,
            final(self)@.root == old(self)@.root,
            final(self)@.num_cols == old(self)@.num_cols,
            final(self)@.columns == if on_disk is Ok {
                apply_ops(old(self)@.columns, ops_view(transaction@))
            } else {
                old(self)@.columns
            },
            has_columns(final(self)@.columns, final(self)@.num_cols),
    {
        proof {
            use_type_invariant(&*self);
        }
        if on_disk.is_ok() {
            proof {
                lemma_apply_ops_keeps_columns(self@.columns, ops_view(transaction@));
            }
            let txn = stage(&transaction);
            let _ = mirror::write(&mut self.in_memory, txn);
        }
        on_disk
    }

    /// The pairs of column `col`, in the order of their keys, as the
    /// mirror holds them at the time of the call. Fails if the store has
    /// no such column.
    pub fn iter(&self, col: u32) -> (listed: Result<Vec<(Vec<u8>, Vec<u8>)>, StoreError>)
        ensures
            col < self@.num_cols ==> listed is Ok,
            col >= self@.num_cols ==> listed == Err::<Vec<(Vec<u8>, Vec<u8>)>, StoreError>(
                StoreError::NoSuchColumn { col },
            ),
            listed matches Ok(entries) ==> lists(entries_view(entries@), self@.columns[col]),
    {
        proof {
            use_type_invariant(self);
        }
        match mirror::iter(&self.in_memory, col) {
            Ok(entries) => Ok(entries),
            Err(_) => Err(StoreError::NoSuchColumn { col }),
        }
    }

    /// The pairs of column `col` whose keys start with `prefix`, in the
    /// order of their keys, as the mirror holds them at the time of the
    /// call. Fails if the store has no such column.
    pub fn iter_with_prefix(&self, col: u32, prefix: &[u8]) -> (listed: Result<
        Vec<(Vec<u8>, Vec<u8>)>,
        StoreError,
    >)
        ensures
            col < self@.num_cols ==> listed is Ok,
            col >= self@.num_cols ==> listed == Err::<Vec<(Vec<u8>, Vec<u8>)>, StoreError>(
                StoreError::NoSuchColumn { col },
            ),
            listed matches Ok(entries) ==> lists(
                entries_view(entries@),
                with_prefix(self@.columns[col], prefix@),
            ),
    {
        proof {
            use_type_invariant(self);
        }
        match mirror::iter_with_prefix(&self.in_memory, col, prefix) {
            Ok(entries) => Ok(entries),
            Err(_) => Err(StoreError::NoSuchColumn { col }),
        }
    }
}

} // verus!
