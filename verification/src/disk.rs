//! What the store asks of the disk: the step that each operation of a
//! transaction takes there, and what a scan of a column directory makes
//! of each entry that it meets.

use crate::bytes::{option_view, starts_with};
use crate::ops::{ops_view, Op, OpSpec};
use crate::path_codec::{col_path, column_path, file2key, key2file, key_of_path, key_path};
use vstd::prelude::*;

verus! {

/// One step on disk. The caller performs it and goes on to the next one
/// only if it succeeded.
#[derive(Debug)]
pub enum DiskAction<'a> {
    /// Write `data` as the whole contents of the file at `path`, which is
    /// created if it is not there.
    WriteFile { path: String, data: &'a [u8] },
    /// Remove the file at `path` if a regular file is there; if none is,
    /// do nothing.
    RemoveFile { path: String },
    /// Walk the entries of the directory `dir` and remove each one of
    /// which [`sweeps`] says so.
    SweepDir { dir: String, prefix: &'a [u8] },
}

/// A step on disk as contracts see it.
pub enum DiskActionView {
    WriteFile { path: Seq<char>, data: Seq<u8> },
    RemoveFile { path: Seq<char> },
    SweepDir { dir: Seq<char>, prefix: Seq<u8> },
}

impl<'a> View for DiskAction<'a> {
    type V = DiskActionView;

    open spec fn view(&self) -> DiskActionView {
        match *self {
            DiskAction::WriteFile { path, data } => DiskActionView::WriteFile {
                path: path@,
                data: data@,
            },
            DiskAction::RemoveFile { path } => DiskActionView::RemoveFile { path: path@ },
            DiskAction::SweepDir { dir, prefix } => DiskActionView::SweepDir {
                dir: dir@,
                prefix: prefix@,
            },
        }
    }
}

/// The step that an operation takes on the disk of a store below `root`:
/// an insertion writes the file of its key, a deletion removes it, and a
/// deletion by prefix sweeps the directory of its column.
pub open spec fn action_for(root: Seq<char>, op: OpSpec) -> DiskActionView {
    match op {
        OpSpec::Insert { col, key, value } => DiskActionView::WriteFile {
            path: key_path(root, col, key),
            data: value,
        },
        OpSpec::Delete { col, key } => DiskActionView::RemoveFile { path: key_path(root, col, key) },
        OpSpec::DeletePrefix { col, prefix } => DiskActionView::SweepDir {
            dir: column_path(root, col),
            prefix,
        },
    }
}

/// The steps of a transaction, one for each operation, in order.
pub open spec fn actions_for(root: Seq<char>, ops: Seq<OpSpec>) -> Seq<DiskActionView> {
    ops.map_values(|op: OpSpec| action_for(root, op))
}

/// The steps of a sequence as contracts see them.
pub open spec fn actions_view(actions: Seq<DiskAction>) -> Seq<DiskActionView> {
    actions.map_values(|action: DiskAction| action@)
}

/// The key that an entry of a column directory holds: that of its name,
/// if the entry is a regular file and its name stands for a key. Every
/// other entry holds none and is passed over when a store is loaded.
pub open spec fn entry_key(path: Seq<char>, is_file: bool) -> Option<Seq<u8>> {
    if is_file {
        key_of_path(path)
    } else {
        None
    }
}

/// Whether the sweep of a column directory for `prefix` removes an entry.
/// Only regular files go. The empty prefix takes all of them, whatever
/// their names; any other prefix takes those whose name stands for a key
/// that starts with it.
pub open spec fn swept(prefix: Seq<u8>, path: Seq<char>, is_file: bool) -> bool {
    is_file && (prefix.len() == 0 || match key_of_path(path) {
        Some(key) => prefix.is_prefix_of(key),
        None => false,
    })
}

/// The step that `op` takes on the disk of a store below `root`.
pub fn disk_action<'a>(root: &str, op: &'a Op) -> (action: DiskAction<'a>)
    ensures
        action@ == action_for(root@, op@),
{
    match op {
        Op::Insert { col, key, value } => DiskAction::WriteFile {
            path: key2file(root, *col, key.as_slice()),
            data: value.as_slice(),
        },
        Op::Delete { col, key } => DiskAction::RemoveFile {
            path: key2file(root, *col, key.as_slice()),
        },
        Op::DeletePrefix { col, prefix } => DiskAction::SweepDir {
            dir: col_path(root, *col),
            prefix: prefix.as_slice(),
        },
    }
}

/// The steps that a transaction takes on the disk of a store below `root`,
/// one for each operation, in order.
pub fn plan<'a>(root: &str, ops: &'a Vec<Op>) -> (actions: Vec<DiskAction<'a>>)
    ensures
        actions_view(actions@) == actions_for(root@, ops_view(ops@)),
{
    let mut actions: Vec<DiskAction<'a>> = Vec::new();
    let mut i: usize = 0;
    while i < ops.len()
        invariant
            i <= ops.len(),
            actions@.len() == i,
            forall|j: int| 0 <= j < i ==> (#[trigger] actions@[j])@ == action_for(root@, ops@[j]@),
        decreases ops.len() - i,
    {
        actions.push(disk_action(root, &ops[i]));
        i += 1;
    }
    assert(actions_view(actions@) =~= actions_for(root@, ops_view(ops@)));
    actions
}

/// The key that an entry of a column directory holds, if it holds one.
/// `path` is the path of the entry, or its name alone, and `is_file` says
/// whether a regular file is there.
pub fn holds_key(path: &str, is_file: bool) -> (key: Option<Vec<u8>>)
    ensures
        option_view(key) == entry_key(path@, is_file),
{
    if is_file {
        file2key(path)
    } else {
        None
    }
}

/// Whether the sweep for `prefix` removes an entry. `path` is the path of
/// the entry, or its name alone, and `is_file` says whether a regular
/// file is there.
pub fn sweeps(prefix: &[u8], path: &str, is_file: bool) -> (yes: bool)
    ensures
        yes == swept(prefix@, path@, is_file),
{
    if !is_file {
        return false;
    }
    if prefix.len() == 0 {
        return true;
    }
    match file2key(path) {
        Some(key) => starts_with(key.as_slice(), prefix),
        None => false,
    }
}

} // verus!
