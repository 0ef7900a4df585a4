//! How the files and the mirror stay in step.
//!
//! The disk is taken here as the set of its regular files, each with its
//! contents. On that, the steps of a transaction have a plain meaning,
//! and so has the loading of a store. The laws of this module say that a
//! transaction does to what would be loaded from the files exactly what
//! it does to the mirror.

use crate::disk::{action_for, actions_for, swept, DiskActionView};
use crate::ops::{apply_op, apply_ops, empty_columns, Column, Columns, OpSpec};
use crate::ops::lemma_apply_ops_keeps_columns;
use crate::path_codec::{column_path, in_dir, key_of_path, key_path};
use crate::path_codec::{lemma_key_path_in_dir, lemma_key_path_injective, lemma_key_path_round_trip};
use crate::store::{insertions, StoredFile};
use vstd::prelude::*;

verus! {

/// The regular files of a disk: the contents of each, by its path.
pub type Files = Map<Seq<char>, Seq<u8>>;

/// The files after a step that succeeded.
pub open spec fn after_action(files: Files, action: DiskActionView) -> Files {
    match action {
        DiskActionView::WriteFile { path, data } => files.insert(path, data),
        DiskActionView::RemoveFile { path } => files.remove(path),
        DiskActionView::SweepDir { dir, prefix } => Map::new(
            |path: Seq<char>|
                files.contains_key(path) && !(in_dir(dir, path) && swept(prefix, path, true)),
            |path: Seq<char>| files[path],
        ),
    }
}

/// The files after a sequence of steps that all succeeded.
pub open spec fn after_actions(files: Files, actions: Seq<DiskActionView>) -> Files
    decreases actions.len(),
{
    if actions.len() == 0 {
        files
    } else {
        after_action(after_actions(files, actions.drop_last()), actions.last())
    }
}

/// The column that the files of the keys of column `col` stand for.
pub open spec fn loaded_column(files: Files, root: Seq<char>, col: u32) -> Column {
    Map::new(
        |key: Seq<u8>| files.contains_key(key_path(root, col, key)),
        |key: Seq<u8>| files[key_path(root, col, key)],
    )
}

/// The columns that the files below `root` stand for.
pub open spec fn loaded(files: Files, root: Seq<char>, num_cols: u32) -> Columns {
    Map::new(|col: u32| col < num_cols, |col: u32| loaded_column(files, root, col))
}

/// Whether every file in a column directory whose name stands for a key
/// has the name that the store gives to that key. The store writes no
/// other names, but it reads digits of either case.
pub open spec fn canonical(files: Files, root: Seq<char>, num_cols: u32) -> bool {
    forall|path: Seq<char>, col: u32|
        files.contains_key(path) && col < num_cols && #[trigger] in_dir(
            column_path(root, col),
            path,
        ) ==> match key_of_path(path) {
            Some(key) => path == key_path(root, col, key),
            None => true,
        }
}

/// Whether `found` is what a scan of the column directories finds: one
/// entry for every file there whose name stands for a key, with the
/// column, the key and the contents, and no other entry.
pub open spec fn scanned(
    found: Seq<StoredFile>,
    files: Files,
    root: Seq<char>,
    num_cols: u32,
) -> bool {
    &&& forall|i: int|
        0 <= i < found.len() ==> (#[trigger] found[i]).col < num_cols && exists|path: Seq<char>|
            #![trigger in_dir(column_path(root, found[i].col), path)]
            files.contains_key(path) && in_dir(column_path(root, found[i].col), path)
                && key_of_path(path) == Some(found[i].key@) && files[path] == found[i].value@
    &&& forall|path: Seq<char>, col: u32|
        files.contains_key(path) && col < num_cols && #[trigger] in_dir(
            column_path(root, col),
            path,
        ) && key_of_path(path) is Some ==> exists|i: int|
            0 <= i < found.len() && (#[trigger] found[i]).col == col && found[i].key@
                == key_of_path(path)->0 && found[i].value@ == files[path]
}

/// The step of an operation does to the columns that the files stand for
/// what the operation does to columns.
pub proof fn lemma_step_keeps_agreement(files: Files, root: Seq<char>, num_cols: u32, op: OpSpec)
    ensures
        loaded(after_action(files, action_for(root, op)), root, num_cols) == apply_op(
            loaded(files, root, num_cols),
            op,
        ),
{
    let before = loaded(files, root, num_cols);
    let files_after = after_action(files, action_for(root, op));
    let after = loaded(files_after, root, num_cols);
    let expected = apply_op(before, op);
    assert forall|col: u32| col < num_cols implies #[trigger] after[col] == expected[col] by {
        assert forall|key: Seq<u8>|
            #![trigger after[col].contains_key(key)]
            #![trigger expected[col].contains_key(key)]
            after[col].contains_key(key) == expected[col].contains_key(key) && (
            after[col].contains_key(key) ==> after[col][key] == expected[col][key]) by {
            let path = key_path(root, col, key);
            match op {
                OpSpec::Insert { col: c, key: k, value } => {
                    if path == key_path(root, c, k) {
                        lemma_key_path_injective(root, col, key, c, k);
                    }
                },
                OpSpec::Delete { col: c, key: k } => {
                    if path == key_path(root, c, k) {
                        lemma_key_path_injective(root, col, key, c, k);
                    }
                },
                OpSpec::DeletePrefix { col: c, prefix } => {
                    lemma_key_path_in_dir(root, col, key, c);
                    lemma_key_path_round_trip(root, col, key);
                    if prefix.len() == 0 {
                        assert(prefix =~= key.subrange(0, 0));
                    }
                },
            }
        }
        assert(after[col] =~= expected[col]);
    }
    assert(after =~= expected);
}

/// The steps of a transaction do to the columns that the files stand for
/// what the transaction does to columns.
pub proof fn lemma_transaction_keeps_agreement(
    files: Files,
    root: Seq<char>,
    num_cols: u32,
    ops: Seq<OpSpec>,
)
    ensures
        loaded(after_actions(files, actions_for(root, ops)), root, num_cols) == apply_ops(
            loaded(files, root, num_cols),
            ops,
        ),
    decreases ops.len(),
{
    if ops.len() > 0 {
        lemma_transaction_keeps_agreement(files, root, num_cols, ops.drop_last());
        assert(actions_for(root, ops).drop_last() =~= actions_for(root, ops.drop_last()));
        lemma_step_keeps_agreement(
            after_actions(files, actions_for(root, ops.drop_last())),
            root,
            num_cols,
            ops.last(),
        );
    }
}

/// The step of an operation leaves the names of the files as the store
/// gives them.
pub proof fn lemma_step_keeps_canonical(files: Files, root: Seq<char>, num_cols: u32, op: OpSpec)
    requires
        canonical(files, root, num_cols),
    ensures
        canonical(after_action(files, action_for(root, op)), root, num_cols),
{
    let files_after = after_action(files, action_for(root, op));
    assert forall|path: Seq<char>, col: u32|
        files_after.contains_key(path) && col < num_cols && #[trigger] in_dir(
            column_path(root, col),
            path,
        ) implies match key_of_path(path) {
        Some(key) => path == key_path(root, col, key),
        None => true,
    } by {
        if !files.contains_key(path) {
            match op {
                OpSpec::Insert { col: c, key: k, value } => {
                    lemma_key_path_in_dir(root, c, k, col);
                    lemma_key_path_round_trip(root, c, k);
                },
                _ => {},
            }
        }
    }
}

/// The steps of a transaction leave the names of the files as the store
/// gives them.
pub proof fn lemma_transaction_keeps_canonical(
    files: Files,
    root: Seq<char>,
    num_cols: u32,
    ops: Seq<OpSpec>,
)
    requires
        canonical(files, root, num_cols),
    ensures
        canonical(after_actions(files, actions_for(root, ops)), root, num_cols),
    decreases ops.len(),
{
    if ops.len() > 0 {
        lemma_transaction_keeps_canonical(files, root, num_cols, ops.drop_last());
        assert(actions_for(root, ops).drop_last() =~= actions_for(root, ops.drop_last()));
        lemma_step_keeps_canonical(
            after_actions(files, actions_for(root, ops.drop_last())),
            root,
            num_cols,
            ops.last(),
        );
    }
}

/// What the insertions of a scan make of empty columns, key by key.
proof fn lemma_scan_inserted(found: Seq<StoredFile>, num_cols: u32, col: u32, key: Seq<u8>)
    requires
        col < num_cols,
    ensures
        apply_ops(empty_columns(num_cols), insertions(found)).contains_key(col),
        apply_ops(empty_columns(num_cols), insertions(found))[col].contains_key(key) <==> exists|
            i: int,
        |
            0 <= i < found.len() && (#[trigger] found[i]).col == col && found[i].key@ == key,
        apply_ops(empty_columns(num_cols), insertions(found))[col].contains_key(key)
            ==> exists|i: int|
            0 <= i < found.len() && (#[trigger] found[i]).col == col && found[i].key@ == key
                && found[i].value@ == apply_ops(
                empty_columns(num_cols),
                insertions(found),
            )[col][key],
    decreases found.len(),
{
    let ops = insertions(found);
    lemma_apply_ops_keeps_columns(empty_columns(num_cols), ops);
    assert(empty_columns(num_cols).dom().contains(col));
    if found.len() > 0 {
        let rest = found.drop_last();
        let last = found.last();
        lemma_scan_inserted(rest, num_cols, col, key);
        lemma_apply_ops_keeps_columns(empty_columns(num_cols), insertions(rest));
        assert(ops.drop_last() =~= insertions(rest));
        let before = apply_ops(empty_columns(num_cols), insertions(rest));
        let after = apply_ops(empty_columns(num_cols), ops);
        assert(after == apply_op(before, ops.last()));
        assert(ops.last() == OpSpec::Insert { col: last.col, key: last.key@, value: last.value@ });
        if last.col == col && last.key@ == key {
            assert(found[found.len() - 1].col == col);
        } else {
            assert(after[col].contains_key(key) == before[col].contains_key(key));
            if before[col].contains_key(key) {
                let i = choose|i: int|
                    0 <= i < rest.len() && (#[trigger] rest[i]).col == col && rest[i].key@ == key
                        && rest[i].value@ == before[col][key];
                assert(found[i] == rest[i]);
            }
            if exists|i: int|
                0 <= i < found.len() && (#[trigger] found[i]).col == col && found[i].key@ == key {
                let i = choose|i: int|
                    0 <= i < found.len() && (#[trigger] found[i]).col == col && found[i].key@
                        == key;
                assert(rest[i] == found[i]);
            }
        }
    }
}

/// A store that is opened on files with the names that the store gives
/// them has in its mirror the columns that the files stand for.
pub proof fn lemma_open_loads(
    found: Seq<StoredFile>,
    files: Files,
    root: Seq<char>,
    num_cols: u32,
)
    requires
        canonical(files, root, num_cols),
        scanned(found, files, root, num_cols),
    ensures
        apply_ops(empty_columns(num_cols), insertions(found)) == loaded(files, root, num_cols),
{
    let opened = apply_ops(empty_columns(num_cols), insertions(found));
    let expected = loaded(files, root, num_cols);
    lemma_apply_ops_keeps_columns(empty_columns(num_cols), insertions(found));
    assert forall|col: u32| opened.contains_key(col) == expected.contains_key(col) by {
        assert(empty_columns(num_cols).dom().contains(col) == (col < num_cols));
        assert(opened.dom().contains(col) == opened.contains_key(col));
    }
    assert forall|col: u32| col < num_cols implies #[trigger] opened[col] == expected[col] by {
        assert forall|key: Seq<u8>|
            #![trigger opened[col].contains_key(key)]
            #![trigger expected[col].contains_key(key)]
            opened[col].contains_key(key) == expected[col].contains_key(key) && (
            opened[col].contains_key(key) ==> opened[col][key] == expected[col][key]) by {
            lemma_scan_inserted(found, num_cols, col, key);
            let path = key_path(root, col, key);
            lemma_key_path_in_dir(root, col, key, col);
            lemma_key_path_round_trip(root, col, key);
            if opened[col].contains_key(key) {
                let i = choose|i: int|
                    0 <= i < found.len() && (#[trigger] found[i]).col == col && found[i].key@ == key
                        && found[i].value@ == opened[col][key];
                let source = choose|source: Seq<char>|
                    #![trigger in_dir(column_path(root, found[i].col), source)]
                    files.contains_key(source) && in_dir(column_path(root, found[i].col), source)
                        && key_of_path(source) == Some(found[i].key@) && files[source]
                        == found[i].value@;
                assert(in_dir(column_path(root, col), source));
                assert(source == path);
            }
            if expected[col].contains_key(key) {
                assert(files.contains_key(path));
                assert(in_dir(column_path(root, col), path));
                let i = choose|i: int|
                    0 <= i < found.len() && (#[trigger] found[i]).col == col && found[i].key@
                        == key_of_path(path)->0 && found[i].value@ == files[path];
                assert(found[i].key@ == key);
            }
        }
        assert(opened[col] =~= expected[col]);
    }
    assert(opened =~= expected);
}

/// A store that is opened again after a transaction whose steps all
/// succeeded has in its mirror what the store that wrote the transaction
/// had in its own: the mirror of the first opening, with the transaction
/// applied. This holds of files that have the names that the store gives
/// them.
pub proof fn lemma_reopen_agrees(
    files: Files,
    root: Seq<char>,
    num_cols: u32,
    first_scan: Seq<StoredFile>,
    ops: Seq<OpSpec>,
    second_scan: Seq<StoredFile>,
)
    requires
        canonical(files, root, num_cols),
        scanned(first_scan, files, root, num_cols),
        scanned(second_scan, after_actions(files, actions_for(root, ops)), root, num_cols),
    ensures
        apply_ops(empty_columns(num_cols), insertions(second_scan)) == apply_ops(
            apply_ops(empty_columns(num_cols), insertions(first_scan)),
            ops,
        ),
{
    lemma_open_loads(first_scan, files, root, num_cols);
    lemma_transaction_keeps_canonical(files, root, num_cols, ops);
    lemma_open_loads(second_scan, after_actions(files, actions_for(root, ops)), root, num_cols);
    lemma_transaction_keeps_agreement(files, root, num_cols, ops);
}

} // verus!
