//! The operations of a transaction, and what they do to the columns of a
//! store.

use vstd::prelude::*;

verus! {

/// One operation of a transaction.
#[derive(Clone, Debug)]
pub enum Op {
    /// Set `key` to `value` in column `col`.
    Insert { col: u32, key: Vec<u8>, value: Vec<u8> },
    /// Remove `key` from column `col`.
    Delete { col: u32, key: Vec<u8> },
    /// Remove from column `col` every key that starts with `prefix`.
    DeletePrefix { col: u32, prefix: Vec<u8> },
}

/// An operation as contracts see it, with byte strings for its vectors.
pub enum OpSpec {
    Insert { col: u32, key: Seq<u8>, value: Seq<u8> },
    Delete { col: u32, key: Seq<u8> },
    DeletePrefix { col: u32, prefix: Seq<u8> },
}

impl View for Op {
    type V = OpSpec;

    open spec fn view(&self) -> OpSpec {
        match *self {
            Op::Insert { col, key, value } => OpSpec::Insert { col, key: key@, value: value@ },
            Op::Delete { col, key } => OpSpec::Delete { col, key: key@ },
            Op::DeletePrefix { col, prefix } => OpSpec::DeletePrefix { col, prefix: prefix@ },
        }
    }
}

impl OpSpec {
    /// The column that the operation works on.
    pub open spec fn col(self) -> u32 {
        match self {
            OpSpec::Insert { col, .. } => col,
            OpSpec::Delete { col, .. } => col,
            OpSpec::DeletePrefix { col, .. } => col,
        }
    }
}

/// The operations of a transaction as contracts see them, in order.
pub open spec fn ops_view(ops: Seq<Op>) -> Seq<OpSpec> {
    ops.map_values(|op: Op| op@)
}

/// One column: the value of each key that it holds.
pub type Column = Map<Seq<u8>, Seq<u8>>;

/// The columns of a store, by index.
pub type Columns = Map<u32, Column>;

/// `n` columns, indexed from zero, with no key in any of them.
pub open spec fn empty_columns(n: u32) -> Columns {
    Map::new(|c: u32| c < n, |c: u32| Map::empty())
}

/// Whether the columns are exactly those with an index below `n`.
pub open spec fn has_columns(columns: Columns, n: u32) -> bool {
    forall|c: u32| columns.contains_key(c) <==> c < n
}

/// The part of a column whose keys start with `prefix`.
pub open spec fn with_prefix(column: Column, prefix: Seq<u8>) -> Column {
    Map::new(
        |k: Seq<u8>| column.contains_key(k) && prefix.is_prefix_of(k),
        |k: Seq<u8>| column[k],
    )
}

/// The part of a column whose keys do not start with `prefix`.
pub open spec fn without_prefix(column: Column, prefix: Seq<u8>) -> Column {
    Map::new(
        |k: Seq<u8>| column.contains_key(k) && !prefix.is_prefix_of(k),
        |k: Seq<u8>| column[k],
    )
}

/// What an operation makes of the column that it works on.
pub open spec fn apply_to_column(column: Column, op: OpSpec) -> Column {
    match op {
        OpSpec::Insert { key, value, .. } => column.insert(key, value),
        OpSpec::Delete { key, .. } => column.remove(key),
        OpSpec::DeletePrefix { prefix, .. } => without_prefix(column, prefix),
    }
}

/// What an operation makes of the columns. One that names a column that
/// is not there changes nothing.
pub open spec fn apply_op(columns: Columns, op: OpSpec) -> Columns {
    if columns.contains_key(op.col()) {
        columns.insert(op.col(), apply_to_column(columns[op.col()], op))
    } else {
        columns
    }
}

/// What a transaction makes of the columns: its operations one after the
/// other, the first one first.
pub open spec fn apply_ops(columns: Columns, ops: Seq<OpSpec>) -> Columns
    decreases ops.len(),
{
    if ops.len() == 0 {
        columns
    } else {
        apply_op(apply_ops(columns, ops.drop_last()), ops.last())
    }
}

/// The value of `key` in column `col`, if the column holds the key.
pub open spec fn lookup(columns: Columns, col: u32, key: Seq<u8>) -> Option<Seq<u8>> {
    if columns.contains_key(col) && columns[col].contains_key(key) {
        Some(columns[col][key])
    } else {
        None
    }
}

/// A transaction neither adds a column nor removes one.
pub proof fn lemma_apply_ops_keeps_columns(columns: Columns, ops: Seq<OpSpec>)
    ensures
        apply_ops(columns, ops).dom() == columns.dom(),
    decreases ops.len(),
{
    if ops.len() > 0 {
        lemma_apply_ops_keeps_columns(columns, ops.drop_last());
        let before = apply_ops(columns, ops.drop_last());
        assert(apply_op(before, ops.last()).dom() =~= before.dom());
    }
}

/// Applying two transactions one after the other is applying the two as
/// one.
pub proof fn lemma_apply_ops_concat(columns: Columns, first: Seq<OpSpec>, second: Seq<OpSpec>)
    ensures
        apply_ops(columns, first + second) == apply_ops(apply_ops(columns, first), second),
    decreases second.len(),
{
    if second.len() == 0 {
        assert(first + second =~= first);
    } else {
        lemma_apply_ops_concat(columns, first, second.drop_last());
        assert((first + second).drop_last() =~= first + second.drop_last());
    }
}

/// After a transaction that ends with the insertion of `value` under `key`
/// in a column that is there, a lookup of the key in that column finds
/// `value`.
pub proof fn lemma_insert_then_get(
    columns: Columns,
    ops: Seq<OpSpec>,
    col: u32,
    key: Seq<u8>,
    value: Seq<u8>,
)
    requires
        columns.contains_key(col),
    ensures
        lookup(apply_ops(columns, ops.push(OpSpec::Insert { col, key, value })), col, key) == Some(
            value,
        ),
{
    let op = OpSpec::Insert { col, key, value };
    lemma_apply_ops_keeps_columns(columns, ops);
    assert(ops.push(op).drop_last() =~= ops);
    assert(apply_ops(columns, ops).dom().contains(col));
}

/// After a transaction that ends with the deletion of `key` from a column,
/// a lookup of the key in that column finds nothing.
pub proof fn lemma_delete_then_get(columns: Columns, ops: Seq<OpSpec>, col: u32, key: Seq<u8>)
    ensures
        lookup(apply_ops(columns, ops.push(OpSpec::Delete { col, key })), col, key) is None,
{
    let op = OpSpec::Delete { col, key };
    assert(ops.push(op).drop_last() =~= ops);
}

/// An operation leaves alone every key that it does not name: an
/// insertion and a deletion every key but their own, a deletion by prefix
/// every key that does not start with the prefix.
pub proof fn lemma_other_keys_untouched(
    columns: Columns,
    op: OpSpec,
    col: u32,
    key: Seq<u8>,
)
    requires
        match op {
            OpSpec::Insert { col: c, key: k, .. } => c != col || k != key,
            OpSpec::Delete { col: c, key: k } => c != col || k != key,
            OpSpec::DeletePrefix { col: c, prefix } => c != col || !prefix.is_prefix_of(key),
        },
    ensures
        lookup(apply_op(columns, op), col, key) == lookup(columns, col, key),
{
}

/// After the keys with a prefix were deleted from a column, the column
/// holds the keys that it held before and that do not start with the
/// prefix, each with its value; the empty prefix leaves no key.
pub proof fn lemma_delete_prefix(columns: Columns, col: u32, prefix: Seq<u8>, key: Seq<u8>)
    requires
        columns.contains_key(col),
    ensures
        lookup(apply_op(columns, OpSpec::DeletePrefix { col, prefix }), col, key) == if prefix.is_prefix_of(
            key,
        ) {
            None
        } else {
            lookup(columns, col, key)
        },
        prefix.len() == 0 ==> apply_op(columns, OpSpec::DeletePrefix { col, prefix })[col]
            == Map::<Seq<u8>, Seq<u8>>::empty(),
{
    if prefix.len() == 0 {
        let after = apply_op(columns, OpSpec::DeletePrefix { col, prefix })[col];
        assert forall|k: Seq<u8>| !after.contains_key(k) by {
            assert(prefix =~= k.subrange(0, 0));
        }
        assert(after =~= Map::<Seq<u8>, Seq<u8>>::empty());
    }
}

} // verus!
