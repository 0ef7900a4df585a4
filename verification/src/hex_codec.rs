//! Hexadecimal text: what it means, and the calls that produce and read it.

use crate::bytes::option_view;
use vstd::prelude::*;

verus! {

/// The lower-case hexadecimal digit that stands for `n`, for `0 <= n < 16`.
pub open spec fn digit_of(n: int) -> char {
    if n < 10 {
        (n + 48) as char
    } else {
        (n + 87) as char
    }
}

/// The value of a hexadecimal digit of either case; `None` for any other
/// character.
pub open spec fn value_of(c: char) -> Option<int> {
    let point = c as int;
    if 48 <= point <= 57 {
        Some(point - 48)
    } else if 97 <= point <= 102 {
        Some(point - 87)
    } else if 65 <= point <= 70 {
        Some(point - 55)
    } else {
        None
    }
}

/// The hexadecimal text of a byte string: two lower-case digits for each
/// byte, the high half first.
pub open spec fn encoded(bytes: Seq<u8>) -> Seq<char> {
    Seq::new(
        2 * bytes.len(),
        |i: int|
            digit_of(
                if i % 2 == 0 {
                    bytes[i / 2] as int / 16
                } else {
                    bytes[i / 2] as int % 16
                },
            ),
    )
}

/// Whether `text` is hexadecimal text of whole bytes: an even number of
/// characters, each a digit of either case.
pub open spec fn is_encoding(text: Seq<char>) -> bool {
    &&& text.len() % 2 == 0
    &&& forall|i: int| 0 <= i < text.len() ==> value_of(#[trigger] text[i]) is Some
}

/// The bytes that hexadecimal text stands for.
pub open spec fn decoded(text: Seq<char>) -> Seq<u8> {
    Seq::new(
        text.len() / 2,
        |i: int| (value_of(text[2 * i])->0 * 16 + value_of(text[2 * i + 1])->0) as u8,
    )
}

/// What a reading of `text` as hexadecimal gives: its bytes, or nothing
/// if it is no hexadecimal text of whole bytes.
pub open spec fn decoding(text: Seq<char>) -> Option<Seq<u8>> {
    if is_encoding(text) {
        Some(decoded(text))
    } else {
        None
    }
}

/// Every digit that `digit_of` gives is read back as the value it stands
/// for.
pub proof fn lemma_digit_round_trip(n: int)
    requires
        0 <= n < 16,
    ensures
        value_of(digit_of(n)) == Some(n),
{
}

/// Reading the text of a byte string gives the byte string back.
pub proof fn lemma_encoding_round_trip(bytes: Seq<u8>)
    ensures
        is_encoding(encoded(bytes)),
        decoded(encoded(bytes)) == bytes,
        decoding(encoded(bytes)) == Some(bytes),
{
    let text = encoded(bytes);
    assert forall|i: int| 0 <= i < text.len() implies value_of(#[trigger] text[i]) is Some by {
        let byte = bytes[i / 2] as int;
        lemma_digit_round_trip(byte / 16);
        lemma_digit_round_trip(byte % 16);
    }
    assert forall|i: int| 0 <= i < bytes.len() implies decoded(text)[i] == bytes[i] by {
        let byte = bytes[i] as int;
        lemma_digit_round_trip(byte / 16);
        lemma_digit_round_trip(byte % 16);
        assert(text[2 * i] == digit_of(byte / 16));
        assert(text[2 * i + 1] == digit_of(byte % 16));
    }
    assert(decoded(text) =~= bytes);
}

/// Calls `hex::encode`, which writes each byte as two characters taken
/// from the table `0123456789abcdef`, the high four bits first.
#[verifier::external_body]
pub(crate) fn encode(bytes: &[u8]) -> (text: String)
    ensures
        text@ == encoded(bytes@),
{
    hex::encode(bytes)
}

/// Calls `hex::decode` and drops the reason of a failure. The call fails on
/// an odd number of bytes and on any byte that is no digit `0-9`, `a-f` or
/// `A-F`; a character outside ASCII is made of such bytes only. Otherwise
/// each pair of digits gives one byte, the high half first.
#[verifier::external_body]
pub(crate) fn decode(text: &str) -> (bytes: Option<Vec<u8>>)
    ensures
        option_view(bytes) == decoding(text@),
{
    hex::decode(text).ok()
}

} // verus!
