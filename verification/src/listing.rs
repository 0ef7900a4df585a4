//! What it means for a sequence of entries to list a column.

use crate::bytes::{lemma_precedes_asymmetric, lemma_precedes_irreflexive, precedes};
use crate::ops::{apply_ops, with_prefix, Column, Columns, OpSpec};
use crate::ops::lemma_apply_ops_keeps_columns;
use vstd::prelude::*;

verus! {

/// The entries of a listing as contracts see them: pairs of a key and its
/// value.
pub open spec fn entries_view(entries: Seq<(Vec<u8>, Vec<u8>)>) -> Seq<(Seq<u8>, Seq<u8>)> {
    entries.map_values(|entry: (Vec<u8>, Vec<u8>)| (entry.0@, entry.1@))
}

/// Whether `entries` lists `column`: every entry is a key of the column
/// with its value, every key of the column has an entry, and the keys
/// come in ascending order, so that none comes twice.
pub open spec fn lists(entries: Seq<(Seq<u8>, Seq<u8>)>, column: Column) -> bool {
    &&& forall|i: int|
        0 <= i < entries.len() ==> column.contains_key((#[trigger] entries[i]).0)
            && column[entries[i].0] == entries[i].1
    &&& forall|key: Seq<u8>| #[trigger]
        column.contains_key(key) ==> exists|i: int|
            0 <= i < entries.len() && (#[trigger] entries[i]).0 == key
    &&& forall|i: int, j: int|
        0 <= i < j < entries.len() ==> precedes(
            (#[trigger] entries[i]).0,
            (#[trigger] entries[j]).0,
        )
}

/// Whether `key` is the first key of `column` that starts with `prefix`:
/// it is such a key, and it comes before every other one.
pub open spec fn is_first_with_prefix(column: Column, prefix: Seq<u8>, key: Seq<u8>) -> bool {
    &&& column.contains_key(key)
    &&& prefix.is_prefix_of(key)
    &&& forall|other: Seq<u8>| #[trigger]
        column.contains_key(other) && prefix.is_prefix_of(other) && other != key ==> precedes(
            key,
            other,
        )
}

/// Whether `found` is what a lookup by prefix finds in a column: the
/// value of the first key that starts with the prefix, or nothing if no
/// key of the column starts with it.
pub open spec fn found_by_prefix(column: Column, prefix: Seq<u8>, found: Option<Seq<u8>>) -> bool {
    match found {
        Some(value) => exists|key: Seq<u8>|
            #[trigger] is_first_with_prefix(column, prefix, key) && column[key] == value,
        None => forall|key: Seq<u8>| #[trigger]
            column.contains_key(key) ==> !prefix.is_prefix_of(key),
    }
}

/// Whether no two of the pairs have the same key.
pub open spec fn keys_distinct(pairs: Seq<(Seq<u8>, Seq<u8>)>) -> bool {
    forall|i: int, j: int|
        0 <= i < j < pairs.len() ==> (#[trigger] pairs[i]).0 != (#[trigger] pairs[j]).0
}

/// The insertions of the given pairs into column `col`, in their order.
pub open spec fn insertions_into(col: u32, pairs: Seq<(Seq<u8>, Seq<u8>)>) -> Seq<OpSpec> {
    pairs.map_values(|pair: (Seq<u8>, Seq<u8>)| OpSpec::Insert { col, key: pair.0, value: pair.1 })
}

/// The pairs whose key starts with `prefix`, in their order.
pub open spec fn pairs_with_prefix(pairs: Seq<(Seq<u8>, Seq<u8>)>, prefix: Seq<u8>) -> Seq<
    (Seq<u8>, Seq<u8>),
> {
    pairs.filter(|pair: (Seq<u8>, Seq<u8>)| prefix.is_prefix_of(pair.0))
}

/// Whether a column holds exactly the given pairs: the key of each with
/// its value, and no other key.
pub open spec fn holds_exactly(column: Column, pairs: Seq<(Seq<u8>, Seq<u8>)>) -> bool {
    &&& forall|i: int|
        0 <= i < pairs.len() ==> column.contains_key((#[trigger] pairs[i]).0)
            && column[pairs[i].0] == pairs[i].1
    &&& forall|key: Seq<u8>| #[trigger]
        column.contains_key(key) ==> exists|i: int|
            0 <= i < pairs.len() && (#[trigger] pairs[i]).0 == key
}

/// A column has at most one first key with a given prefix, so the value
/// that a lookup by prefix finds is determined.
pub proof fn lemma_first_with_prefix_unique(
    column: Column,
    prefix: Seq<u8>,
    a: Seq<u8>,
    b: Seq<u8>,
)
    requires
        is_first_with_prefix(column, prefix, a),
        is_first_with_prefix(column, prefix, b),
    ensures
        a == b,
{
    if a != b {
        assert(column.contains_key(b));
        assert(column.contains_key(a));
        lemma_precedes_asymmetric(a, b);
    }
}

/// What a lookup by prefix finds in a column is determined by the column
/// and the prefix.
pub proof fn lemma_found_by_prefix_unique(
    column: Column,
    prefix: Seq<u8>,
    a: Option<Seq<u8>>,
    b: Option<Seq<u8>>,
)
    requires
        found_by_prefix(column, prefix, a),
        found_by_prefix(column, prefix, b),
    ensures
        a == b,
{
    if a is Some && b is Some {
        let first = choose|key: Seq<u8>|
            #[trigger] is_first_with_prefix(column, prefix, key) && column[key] == a->0;
        let second = choose|key: Seq<u8>|
            #[trigger] is_first_with_prefix(column, prefix, key) && column[key] == b->0;
        lemma_first_with_prefix_unique(column, prefix, first, second);
    } else if a is Some {
        let first = choose|key: Seq<u8>|
            #[trigger] is_first_with_prefix(column, prefix, key) && column[key] == a->0;
        assert(column.contains_key(first));
    } else if b is Some {
        let second = choose|key: Seq<u8>|
            #[trigger] is_first_with_prefix(column, prefix, key) && column[key] == b->0;
        assert(column.contains_key(second));
    }
}

/// A listing names no key twice.
pub proof fn lemma_listing_has_no_duplicates(entries: Seq<(Seq<u8>, Seq<u8>)>, column: Column)
    requires
        lists(entries, column),
    ensures
        keys_distinct(entries),
        entries.no_duplicates(),
{
    assert forall|i: int, j: int| 0 <= i < j < entries.len() implies (#[trigger] entries[i]).0
        != (#[trigger] entries[j]).0 by {
        lemma_precedes_irreflexive(entries[i].0);
    }
}

/// All but the last entry of a listing list the column without the key
/// of the last entry.
proof fn lemma_listing_drop_last(entries: Seq<(Seq<u8>, Seq<u8>)>, column: Column)
    requires
        lists(entries, column),
        entries.len() > 0,
    ensures
        lists(entries.drop_last(), column.remove(entries.last().0)),
{
    let rest = entries.drop_last();
    let last_key = entries.last().0;
    let rest_column = column.remove(last_key);
    lemma_precedes_irreflexive(last_key);
    assert forall|i: int| 0 <= i < rest.len() implies rest_column.contains_key(
        (#[trigger] rest[i]).0,
    ) && rest_column[rest[i].0] == rest[i].1 by {
        assert(rest[i] == entries[i]);
        assert(precedes(entries[i].0, entries[entries.len() - 1].0));
    }
    assert forall|key: Seq<u8>| #[trigger] rest_column.contains_key(key) implies exists|i: int|
        0 <= i < rest.len() && (#[trigger] rest[i]).0 == key by {
        assert(column.contains_key(key));
        let i = choose|i: int| 0 <= i < entries.len() && (#[trigger] entries[i]).0 == key;
        assert(rest[i].0 == key);
    }
    assert forall|i: int, j: int| 0 <= i < j < rest.len() implies precedes(
        (#[trigger] rest[i]).0,
        (#[trigger] rest[j]).0,
    ) by {
        assert(rest[i] == entries[i] && rest[j] == entries[j]);
    }
}

/// A column has one listing only: what a listing must hold and the order
/// of its keys leave no choice.
pub proof fn lemma_listing_unique(
    a: Seq<(Seq<u8>, Seq<u8>)>,
    b: Seq<(Seq<u8>, Seq<u8>)>,
    column: Column,
)
    requires
        lists(a, column),
        lists(b, column),
    ensures
        a == b,
    decreases a.len(),
{
    if a.len() == 0 {
        if b.len() > 0 {
            assert(column.contains_key(b[0].0));
        }
        assert(a =~= b);
    } else {
        let last_a = a[a.len() - 1];
        assert(column.contains_key(last_a.0));
        let j = choose|j: int| 0 <= j < b.len() && (#[trigger] b[j]).0 == last_a.0;
        let last_b = b[b.len() - 1];
        assert(column.contains_key(last_b.0));
        let i = choose|i: int| 0 <= i < a.len() && (#[trigger] a[i]).0 == last_b.0;
        if last_a.0 != last_b.0 {
            assert(precedes(a[i].0, last_a.0));
            assert(precedes(b[j].0, last_b.0));
            lemma_precedes_asymmetric(last_a.0, last_b.0);
        }
        assert(last_a == last_b);
        lemma_listing_drop_last(a, column);
        lemma_listing_drop_last(b, column);
        lemma_listing_unique(a.drop_last(), b.drop_last(), column.remove(last_a.0));
        assert(a =~= a.drop_last().push(last_a));
        assert(b =~= b.drop_last().push(last_b));
    }
}

/// Two sequences of pairs without a repeated key that describe the same
/// column hold the same pairs, each once.
proof fn lemma_same_pairs(
    column: Column,
    a: Seq<(Seq<u8>, Seq<u8>)>,
    b: Seq<(Seq<u8>, Seq<u8>)>,
)
    requires
        holds_exactly(column, a),
        holds_exactly(column, b),
        keys_distinct(a),
        keys_distinct(b),
    ensures
        a.to_multiset() == b.to_multiset(),
{
    broadcast use vstd::seq_lib::group_to_multiset_ensures;

    assert(a.no_duplicates());
    assert(b.no_duplicates());
    a.lemma_multiset_has_no_duplicates();
    b.lemma_multiset_has_no_duplicates();
    assert forall|pair: (Seq<u8>, Seq<u8>)| a.contains(pair) <==> b.contains(pair) by {
        if a.contains(pair) {
            let i = choose|i: int| 0 <= i < a.len() && a[i] == pair;
            assert(column.contains_key(a[i].0));
            let j = choose|j: int| 0 <= j < b.len() && (#[trigger] b[j]).0 == pair.0;
            assert(b[j] == pair);
        }
        if b.contains(pair) {
            let j = choose|j: int| 0 <= j < b.len() && b[j] == pair;
            assert(column.contains_key(b[j].0));
            let i = choose|i: int| 0 <= i < a.len() && (#[trigger] a[i]).0 == pair.0;
            assert(a[i] == pair);
        }
    }
    assert forall|pair: (Seq<u8>, Seq<u8>)|
        a.to_multiset().count(pair) == b.to_multiset().count(pair) by {
        assert(a.contains(pair) <==> b.contains(pair));
    }
    assert(a.to_multiset() =~= b.to_multiset());
}

/// After pairs with distinct keys were inserted into an empty column, the
/// column holds exactly those pairs.
pub proof fn lemma_inserted_pairs(columns: Columns, col: u32, pairs: Seq<(Seq<u8>, Seq<u8>)>)
    requires
        columns.contains_key(col),
        columns[col] == Map::<Seq<u8>, Seq<u8>>::empty(),
        keys_distinct(pairs),
    ensures
        apply_ops(columns, insertions_into(col, pairs)).contains_key(col),
        holds_exactly(apply_ops(columns, insertions_into(col, pairs))[col], pairs),
    decreases pairs.len(),
{
    let ops = insertions_into(col, pairs);
    lemma_apply_ops_keeps_columns(columns, ops);
    assert(apply_ops(columns, ops).dom().contains(col));
    if pairs.len() > 0 {
        let rest = pairs.drop_last();
        let last = pairs.last();
        assert(keys_distinct(rest)) by {
            assert forall|i: int, j: int| 0 <= i < j < rest.len() implies (#[trigger] rest[i]).0
                != (#[trigger] rest[j]).0 by {
                assert(rest[i] == pairs[i] && rest[j] == pairs[j]);
            }
        }
        lemma_inserted_pairs(columns, col, rest);
        lemma_apply_ops_keeps_columns(columns, insertions_into(col, rest));
        assert(ops.drop_last() =~= insertions_into(col, rest));
        let before = apply_ops(columns, insertions_into(col, rest));
        assert(before.dom().contains(col));
        let after = apply_ops(columns, ops)[col];
        assert(after == before[col].insert(last.0, last.1));
        assert forall|i: int| 0 <= i < pairs.len() implies after.contains_key(
            (#[trigger] pairs[i]).0,
        ) && after[pairs[i].0] == pairs[i].1 by {
            if i < pairs.len() - 1 {
                assert(rest[i] == pairs[i]);
                assert(pairs[i].0 != pairs[pairs.len() - 1].0);
            }
        }
        assert forall|key: Seq<u8>| #[trigger] after.contains_key(key) implies exists|i: int|
            0 <= i < pairs.len() && (#[trigger] pairs[i]).0 == key by {
            if key == last.0 {
                assert(pairs[pairs.len() - 1].0 == key);
            } else {
                assert(before[col].contains_key(key));
                let i = choose|i: int| 0 <= i < rest.len() && (#[trigger] rest[i]).0 == key;
                assert(pairs[i].0 == key);
            }
        }
    }
}

/// Of pairs with distinct keys, those whose key starts with a prefix have
/// distinct keys too, and they are exactly what the part of the column
/// with that prefix holds.
proof fn lemma_pairs_with_prefix(column: Column, pairs: Seq<(Seq<u8>, Seq<u8>)>, prefix: Seq<u8>)
    requires
        holds_exactly(column, pairs),
        keys_distinct(pairs),
    ensures
        keys_distinct(pairs_with_prefix(pairs, prefix)),
        holds_exactly(with_prefix(column, prefix), pairs_with_prefix(pairs, prefix)),
    decreases pairs.len(),
{
    let wanted = |pair: (Seq<u8>, Seq<u8>)| prefix.is_prefix_of(pair.0);
    let kept = pairs.filter(wanted);
    reveal(Seq::filter);
    if pairs.len() > 0 {
        let rest = pairs.drop_last();
        let last = pairs.last();
        let rest_column = column.remove(last.0);
        assert(keys_distinct(rest)) by {
            assert forall|i: int, j: int| 0 <= i < j < rest.len() implies (#[trigger] rest[i]).0
                != (#[trigger] rest[j]).0 by {
                assert(rest[i] == pairs[i] && rest[j] == pairs[j]);
            }
        }
        assert(holds_exactly(rest_column, rest)) by {
            assert forall|i: int| 0 <= i < rest.len() implies rest_column.contains_key(
                (#[trigger] rest[i]).0,
            ) && rest_column[rest[i].0] == rest[i].1 by {
                assert(rest[i] == pairs[i]);
                assert(pairs[i].0 != pairs[pairs.len() - 1].0);
            }
            assert forall|key: Seq<u8>| #[trigger] rest_column.contains_key(key) implies exists|
                i: int,
            |
                0 <= i < rest.len() && (#[trigger] rest[i]).0 == key by {
                assert(column.contains_key(key));
                let i = choose|i: int| 0 <= i < pairs.len() && (#[trigger] pairs[i]).0 == key;
                assert(rest[i].0 == key);
            }
        }
        lemma_pairs_with_prefix(rest_column, rest, prefix);
        let rest_kept = rest.filter(wanted);
        assert(rest_kept == pairs_with_prefix(rest, prefix));
        let rest_part = with_prefix(rest_column, prefix);
        let part = with_prefix(column, prefix);
        assert(column.contains_key(pairs[pairs.len() - 1].0));
        if wanted(last) {
            assert(kept == rest_kept.push(last));
            assert forall|i: int, j: int| 0 <= i < j < kept.len() implies (#[trigger] kept[i]).0
                != (#[trigger] kept[j]).0 by {
                if j == kept.len() - 1 {
                    assert(rest_part.contains_key(rest_kept[i].0));
                }
            }
            assert forall|i: int| 0 <= i < kept.len() implies part.contains_key(
                (#[trigger] kept[i]).0,
            ) && part[kept[i].0] == kept[i].1 by {
                if i < kept.len() - 1 {
                    assert(rest_part.contains_key(rest_kept[i].0));
                }
            }
            assert forall|key: Seq<u8>| #[trigger] part.contains_key(key) implies exists|i: int|
                0 <= i < kept.len() && (#[trigger] kept[i]).0 == key by {
                if key == last.0 {
                    assert(kept[kept.len() - 1].0 == key);
                } else {
                    assert(rest_part.contains_key(key));
                    let i = choose|i: int|
                        0 <= i < rest_kept.len() && (#[trigger] rest_kept[i]).0 == key;
                    assert(kept[i].0 == key);
                }
            }
        } else {
            assert(kept == rest_kept);
            assert forall|i: int| 0 <= i < kept.len() implies part.contains_key(
                (#[trigger] kept[i]).0,
            ) && part[kept[i].0] == kept[i].1 by {
                assert(rest_part.contains_key(rest_kept[i].0));
            }
            assert forall|key: Seq<u8>| #[trigger] part.contains_key(key) implies exists|i: int|
                0 <= i < kept.len() && (#[trigger] kept[i]).0 == key by {
                assert(rest_part.contains_key(key));
            }
        }
    }
}

/// After pairs with distinct keys were inserted into an empty column,
/// every listing of the column holds exactly those pairs, each once, in
/// whatever order.
pub proof fn lemma_iteration_complete(
    columns: Columns,
    col: u32,
    pairs: Seq<(Seq<u8>, Seq<u8>)>,
    listed: Seq<(Seq<u8>, Seq<u8>)>,
)
    requires
        columns.contains_key(col),
        columns[col] == Map::<Seq<u8>, Seq<u8>>::empty(),
        keys_distinct(pairs),
        lists(listed, apply_ops(columns, insertions_into(col, pairs))[col]),
    ensures
        listed.to_multiset() == pairs.to_multiset(),
{
    let column = apply_ops(columns, insertions_into(col, pairs))[col];
    lemma_inserted_pairs(columns, col, pairs);
    lemma_listing_has_no_duplicates(listed, column);
    lemma_same_pairs(column, listed, pairs);
}

/// After pairs with distinct keys were inserted into an empty column,
/// every listing of the part of the column with a prefix holds exactly
/// those of the pairs whose key starts with the prefix, each once.
pub proof fn lemma_prefix_iteration_complete(
    columns: Columns,
    col: u32,
    pairs: Seq<(Seq<u8>, Seq<u8>)>,
    prefix: Seq<u8>,
    listed: Seq<(Seq<u8>, Seq<u8>)>,
)
    requires
        columns.contains_key(col),
        columns[col] == Map::<Seq<u8>, Seq<u8>>::empty(),
        keys_distinct(pairs),
        lists(
            listed,
            with_prefix(apply_ops(columns, insertions_into(col, pairs))[col], prefix),
        ),
    ensures
        listed.to_multiset() == pairs_with_prefix(pairs, prefix).to_multiset(),
{
    let column = apply_ops(columns, insertions_into(col, pairs))[col];
    lemma_inserted_pairs(columns, col, pairs);
    lemma_pairs_with_prefix(column, pairs, prefix);
    lemma_listing_has_no_duplicates(listed, with_prefix(column, prefix));
    lemma_same_pairs(with_prefix(column, prefix), listed, pairs_with_prefix(pairs, prefix));
}

} // verus!
