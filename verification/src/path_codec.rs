//! The layout on disk: which path names a column, which path names a key,
//! and which key a path names.
//!
//! A key of column `c` lives in the file `<root>/<c>/0x<hex of the key>`.
//! Paths are text whose components are parted by `/`.

use crate::bytes::option_view;
use crate::hex_codec::{decode, decoding, digit_of, encode, encoded, value_of};
use crate::hex_codec::lemma_encoding_round_trip;
use vstd::prelude::*;
use vstd::string::{StrSliceExecFns, StringExecFns};

verus! {

/// The decimal digits of `n`, without leading zeros.
pub open spec fn decimal(n: nat) -> Seq<char>
    decreases n,
{
    if n < 10 {
        seq![digit_of(n as int)]
    } else {
        decimal(n / 10).push(digit_of((n % 10) as int))
    }
}

/// `name` put below the directory `base`. An empty base stands for the
/// current directory, so the result is then `name` alone; a base that ends
/// in `/` gets no second one.
pub open spec fn joined(base: Seq<char>, name: Seq<char>) -> Seq<char> {
    if base.len() == 0 {
        name
    } else if base.last() == '/' {
        base + name
    } else {
        base + seq!['/'] + name
    }
}

/// The path of the directory of column `col` below `root`.
pub open spec fn column_path(root: Seq<char>, col: u32) -> Seq<char> {
    joined(root, decimal(col as nat))
}

/// The name of the file that holds `key`: `0x`, then the key in
/// lower-case hexadecimal.
pub open spec fn file_name(key: Seq<u8>) -> Seq<char> {
    seq!['0', 'x'] + encoded(key)
}

/// The path of the file that holds `key` of column `col` below `root`.
pub open spec fn key_path(root: Seq<char>, col: u32, key: Seq<u8>) -> Seq<char> {
    joined(column_path(root, col), file_name(key))
}

/// Where the last component of a path starts: behind its last `/`, or at
/// its start if it has none.
pub open spec fn name_start(path: Seq<char>) -> int
    decreases path.len(),
{
    if path.len() == 0 {
        0
    } else if path.last() == '/' {
        path.len() as int
    } else {
        name_start(path.drop_last())
    }
}

/// The last component of a path.
pub open spec fn name_of(path: Seq<char>) -> Seq<char> {
    path.skip(name_start(path))
}

/// The key that a file name stands for: the name must begin with `0x`,
/// and the rest must be hexadecimal text of whole bytes, in either case.
pub open spec fn key_of_name(name: Seq<char>) -> Option<Seq<u8>> {
    if name.len() >= 2 && name[0] == '0' && name[1] == 'x' {
        decoding(name.skip(2))
    } else {
        None
    }
}

/// The key that the file at `path` holds, going by its name.
pub open spec fn key_of_path(path: Seq<char>) -> Option<Seq<u8>> {
    key_of_name(name_of(path))
}

/// The start of the last component lies within the path.
pub proof fn lemma_name_start_bounds(path: Seq<char>)
    ensures
        0 <= name_start(path) <= path.len(),
    decreases path.len(),
{
    if path.len() > 0 && path.last() != '/' {
        lemma_name_start_bounds(path.drop_last());
    }
}

/// A name without `/` that is put behind a `/` is the last component of
/// the path that results.
proof fn lemma_name_of_appended(dir: Seq<char>, name: Seq<char>)
    requires
        dir.len() > 0,
        dir.last() == '/',
        forall|i: int| 0 <= i < name.len() ==> name[i] != '/',
    ensures
        name_start(dir + name) == dir.len(),
        name_of(dir + name) == name,
    decreases name.len(),
{
    let path = dir + name;
    if name.len() == 0 {
        assert(path =~= dir);
    } else {
        assert(path.last() == name.last());
        assert(path.drop_last() =~= dir + name.drop_last());
        lemma_name_of_appended(dir, name.drop_last());
    }
    assert(path.skip(dir.len() as int) =~= name);
}

/// A path without `/` is its own last component.
proof fn lemma_name_of_plain(name: Seq<char>)
    requires
        forall|i: int| 0 <= i < name.len() ==> name[i] != '/',
    ensures
        name_start(name) == 0,
        name_of(name) == name,
    decreases name.len(),
{
    if name.len() > 0 {
        lemma_name_of_plain(name.drop_last());
    }
    assert(name.skip(0) =~= name);
}

/// The last component of a path holds no `/`.
pub proof fn lemma_name_has_no_separator(path: Seq<char>)
    ensures
        forall|i: int| name_start(path) <= i < path.len() ==> path[i] != '/',
        forall|i: int| 0 <= i < name_of(path).len() ==> name_of(path)[i] != '/',
    decreases path.len(),
{
    lemma_name_start_bounds(path);
    if path.len() > 0 && path.last() != '/' {
        lemma_name_has_no_separator(path.drop_last());
        assert forall|i: int| name_start(path) <= i < path.len() implies path[i] != '/' by {
            if i < path.len() - 1 {
                assert(path[i] == path.drop_last()[i]);
            }
        }
    }
}

/// Only the last component of a path says which key the file holds: the
/// name alone stands for the same key as the whole path.
pub proof fn lemma_key_of_path_goes_by_name(path: Seq<char>)
    ensures
        key_of_path(name_of(path)) == key_of_path(path),
{
    lemma_name_has_no_separator(path);
    lemma_name_of_plain(name_of(path));
}

/// A name without `/` keeps being the last component when it is put
/// below a directory.
pub proof fn lemma_name_of_joined(base: Seq<char>, name: Seq<char>)
    requires
        forall|i: int| 0 <= i < name.len() ==> name[i] != '/',
    ensures
        name_of(joined(base, name)) == name,
{
    if base.len() == 0 {
        lemma_name_of_plain(name);
    } else if base.last() == '/' {
        lemma_name_of_appended(base, name);
    } else {
        lemma_name_of_appended(base + seq!['/'], name);
    }
}

/// A file name holds no `/`.
pub proof fn lemma_file_name_has_no_separator(key: Seq<u8>)
    ensures
        forall|i: int| 0 <= i < file_name(key).len() ==> file_name(key)[i] != '/',
{
    lemma_encoding_round_trip(key);
    let name = file_name(key);
    assert forall|i: int| 0 <= i < name.len() implies name[i] != '/' by {
        if i >= 2 {
            assert(name[i] == encoded(key)[i - 2]);
            assert(value_of(encoded(key)[i - 2]) is Some);
        }
    }
}

/// The name that stands for a key is read back as that key.
pub proof fn lemma_file_name_round_trip(key: Seq<u8>)
    ensures
        key_of_name(file_name(key)) == Some(key),
{
    lemma_encoding_round_trip(key);
    assert(file_name(key).skip(2) =~= encoded(key));
}

/// For every root, column and key, the path of the key is read back as
/// the key.
pub proof fn lemma_key_path_round_trip(root: Seq<char>, col: u32, key: Seq<u8>)
    ensures
        key_of_path(key_path(root, col, key)) == Some(key),
{
    lemma_file_name_has_no_separator(key);
    lemma_name_of_joined(column_path(root, col), file_name(key));
    lemma_file_name_round_trip(key);
}

/// The number that decimal digits stand for.
pub open spec fn decimal_value(text: Seq<char>) -> nat
    decreases text.len(),
{
    if text.len() == 0 {
        0
    } else {
        (decimal_value(text.drop_last()) * 10 + (text.last() as int - 48)) as nat
    }
}

/// The decimal digits of a number are read back as the number.
pub proof fn lemma_decimal_round_trip(n: nat)
    ensures
        decimal_value(decimal(n)) == n,
        decimal(n).len() > 0,
        decimal(n).last() != '/',
    decreases n,
{
    let text = decimal(n);
    if n < 10 {
        assert(text.drop_last() =~= Seq::<char>::empty());
        assert(decimal_value(text.drop_last()) == 0);
        assert(text.last() == digit_of(n as int));
    } else {
        lemma_decimal_round_trip(n / 10);
        assert(text.drop_last() =~= decimal(n / 10));
        assert(text.last() == digit_of((n % 10) as int));
    }
}

/// What stands in front of a name that is put below `base`.
pub open spec fn dir_prefix(base: Seq<char>) -> Seq<char> {
    if base.len() == 0 || base.last() == '/' {
        base
    } else {
        base.push('/')
    }
}

/// Putting a name below a directory writes the name behind the prefix of
/// the directory.
pub proof fn lemma_joined_is_prefixed(base: Seq<char>, name: Seq<char>)
    ensures
        joined(base, name) == dir_prefix(base) + name,
{
    assert(joined(base, name) =~= dir_prefix(base) + name);
}

/// Whether `path` names an entry of the directory `dir` itself: `path` is
/// its own last component put below `dir`.
pub open spec fn in_dir(dir: Seq<char>, path: Seq<char>) -> bool {
    name_of(path).len() > 0 && path == joined(dir, name_of(path))
}

/// Two columns of one root have the same directory only if they are the
/// same column.
pub proof fn lemma_column_path_injective(root: Seq<char>, a: u32, b: u32)
    requires
        column_path(root, a) == column_path(root, b),
    ensures
        a == b,
{
    lemma_joined_is_prefixed(root, decimal(a as nat));
    lemma_joined_is_prefixed(root, decimal(b as nat));
    let front = dir_prefix(root);
    assert(decimal(a as nat) =~= (front + decimal(a as nat)).skip(front.len() as int));
    assert(decimal(b as nat) =~= (front + decimal(b as nat)).skip(front.len() as int));
    lemma_decimal_round_trip(a as nat);
    lemma_decimal_round_trip(b as nat);
}

/// The directory of a column is no empty path, and it does not end in
/// `/`.
pub proof fn lemma_column_path_shape(root: Seq<char>, col: u32)
    ensures
        column_path(root, col).len() > 0,
        column_path(root, col).last() != '/',
        dir_prefix(column_path(root, col)) == column_path(root, col).push('/'),
{
    lemma_decimal_round_trip(col as nat);
    lemma_joined_is_prefixed(root, decimal(col as nat));
}

/// The file of a key lies in the directory of its column, and in that of
/// no other column of the same root.
pub proof fn lemma_key_path_in_dir(root: Seq<char>, col: u32, key: Seq<u8>, other: u32)
    ensures
        in_dir(column_path(root, other), key_path(root, col, key)) <==> other == col,
{
    let name = file_name(key);
    let path = key_path(root, col, key);
    lemma_file_name_has_no_separator(key);
    lemma_name_of_joined(column_path(root, col), name);
    assert(name.len() >= 2);
    if in_dir(column_path(root, other), path) {
        lemma_joined_is_prefixed(column_path(root, other), name);
        lemma_joined_is_prefixed(column_path(root, col), name);
        lemma_column_path_shape(root, other);
        lemma_column_path_shape(root, col);
        let mine = column_path(root, col).push('/');
        let theirs = column_path(root, other).push('/');
        assert(mine + name == theirs + name);
        assert(mine.len() == theirs.len());
        assert(mine =~= (mine + name).take(mine.len() as int));
        assert(theirs =~= (theirs + name).take(theirs.len() as int));
        assert(column_path(root, col) =~= mine.drop_last());
        assert(column_path(root, other) =~= theirs.drop_last());
        lemma_column_path_injective(root, col, other);
    }
}

/// Two keys have the same file only if they are the same key of the same
/// column.
pub proof fn lemma_key_path_injective(
    root: Seq<char>,
    col_a: u32,
    key_a: Seq<u8>,
    col_b: u32,
    key_b: Seq<u8>,
)
    requires
        key_path(root, col_a, key_a) == key_path(root, col_b, key_b),
    ensures
        col_a == col_b,
        key_a == key_b,
{
    lemma_key_path_round_trip(root, col_a, key_a);
    lemma_key_path_round_trip(root, col_b, key_b);
    lemma_key_path_in_dir(root, col_a, key_a, col_a);
    lemma_key_path_in_dir(root, col_b, key_b, col_a);
}

/// The text of one decimal digit.
fn digit_text(d: u32) -> (text: &'static str)
    requires
        d < 10,
    ensures
        text@ == seq![digit_of(d as int)],
{
    proof {
        reveal_strlit("0");
        reveal_strlit("1");
        reveal_strlit("2");
        reveal_strlit("3");
        reveal_strlit("4");
        reveal_strlit("5");
        reveal_strlit("6");
        reveal_strlit("7");
        reveal_strlit("8");
        reveal_strlit("9");
    }
    let text = if d == 0 {
        "0"
    } else if d == 1 {
        "1"
    } else if d == 2 {
        "2"
    } else if d == 3 {
        "3"
    } else if d == 4 {
        "4"
    } else if d == 5 {
        "5"
    } else if d == 6 {
        "6"
    } else if d == 7 {
        "7"
    } else if d == 8 {
        "8"
    } else {
        "9"
    };
    assert(text@ =~= seq![digit_of(d as int)]);
    text
}

/// The decimal text of a column index.
pub fn decimal_text(n: u32) -> (text: String)
    ensures
        text@ == decimal(n as nat),
    decreases n,
{
    if n < 10 {
        digit_text(n).to_owned()
    } else {
        let mut text = decimal_text(n / 10);
        text.append(digit_text(n % 10));
        text
    }
}

/// Puts `name` below the directory `base`.
pub fn join(base: &str, name: &str) -> (path: String)
    ensures
        path@ == joined(base@, name@),
{
    let len = base.unicode_len();
    if len == 0 {
        return name.to_owned();
    }
    let mut path = base.to_owned();
    if base.get_char(len - 1) != '/' {
        proof {
            reveal_strlit("/");
        }
        path.append("/");
        assert("/"@ =~= seq!['/']);
    }
    path.append(name);
    path
}

/// The path of the directory of column `col` below `root`.
pub fn col_path(root: &str, col: u32) -> (path: String)
    ensures
        path@ == column_path(root@, col),
{
    let index = decimal_text(col);
    join(root, index.as_str())
}

/// The path of the file that holds `key` of column `col` below `root`.
pub fn key2file(root: &str, col: u32, key: &[u8]) -> (path: String)
    ensures
        path@ == key_path(root@, col, key@),
        key_of_path(path@) == Some(key@),
{
    proof {
        reveal_strlit("0x");
        lemma_key_path_round_trip(root@, col, key@);
    }
    let dir = col_path(root, col);
    let mut name = "0x".to_owned();
    let digits = encode(key);
    name.append(digits.as_str());
    assert(name@ =~= file_name(key@));
    join(dir.as_str(), name.as_str())
}

/// Where the last component of `path` starts, counted in characters.
/// `len` is the number of characters of the path.
fn name_start_of(path: &str, len: usize) -> (start: usize)
    requires
        len == path@.len(),
    ensures
        start == name_start(path@),
{
    let mut start: usize = 0;
    let mut seen: usize = 0;
    for c in it: path.chars()
        invariant
            it.seq() == path@,
            len == path@.len(),
            seen == it.index(),
            start == name_start(path@.take(seen as int)),
    {
        assert(path@.take(seen + 1).drop_last() =~= path@.take(seen as int));
        seen += 1;
        if c == '/' {
            start = seen;
        }
    }
    assert(path@.take(seen as int) =~= path@);
    start
}

/// The key that the file at `path` holds, going by its name: the last
/// component of the path must begin with `0x` and go on with hexadecimal
/// text of whole bytes. `None` for every other path.
pub fn file2key(path: &str) -> (key: Option<Vec<u8>>)
    ensures
        option_view(key) == key_of_path(path@),
{
    proof {
        lemma_name_start_bounds(path@);
    }
    let len = path.unicode_len();
    let start = name_start_of(path, len);
    if len - start < 2 {
        return None;
    }
    let name = path.substring_char(start, len);
    if name.get_char(0) != '0' || name.get_char(1) != 'x' {
        return None;
    }
    let digits = name.substring_char(2, len - start);
    assert(digits@ =~= name_of(path@).skip(2));
    decode(digits)
}

} // verus!
