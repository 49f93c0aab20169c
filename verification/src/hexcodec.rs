//! Bytes as hexadecimal text.
use vstd::prelude::*;

use crate::text;

verus! {

/// The hexadecimal digit of `d`, in lower case where it is a letter.
pub open spec fn lower_digit(d: nat) -> char {
    if d < 10 { (48 + d) as char } else { (87 + d) as char }
}

/// Two digits for each byte, the high one first, with letters in upper case.
pub open spec fn hex_upper(data: Seq<u8>) -> Seq<char> {
    Seq::new(
        2 * data.len(),
        |i: int|
            text::digit_char(
                if i % 2 == 0 { (data[i / 2] / 16) as nat } else { (data[i / 2] % 16) as nat },
            ),
    )
}

/// Two digits for each byte, the high one first, with letters in lower case.
pub open spec fn hex_lower(data: Seq<u8>) -> Seq<char> {
    Seq::new(
        2 * data.len(),
        |i: int|
            lower_digit(
                if i % 2 == 0 { (data[i / 2] / 16) as nat } else { (data[i / 2] % 16) as nat },
            ),
    )
}

/// The bytes that pairs of hexadecimal digits write, in either case. There are none where
/// a character is no digit or a digit has no partner.
pub open spec fn hex_bytes(s: Seq<char>) -> Option<Seq<u8>> {
    if s.len() % 2 == 0 && text::is_number(s, 16) {
        Some(
            Seq::new(
                s.len() / 2,
                |i: int|
                    (text::digit_value(s[2 * i]) * 16 + text::digit_value(s[2 * i + 1])) as u8,
            ),
        )
    } else {
        None
    }
}

/// The place of the first byte that is no hexadecimal digit.
pub open spec fn first_fault(bytes: Seq<u8>) -> nat
    decreases bytes.len(),
{
    if bytes.len() == 0 || text::digit_value(bytes[0] as char) == 16 {
        0
    } else {
        1 + first_fault(bytes.skip(1))
    }
}

/// Why text is not hexadecimal, in the words of the decoder, which looks at the bytes of
/// the text in UTF-8. An odd number of them counts before a byte that is no digit.
pub open spec fn hex_error_text(s: Seq<char>) -> Seq<char> {
    let bytes = vstd::utf8::encode_utf8(s);
    let i = first_fault(bytes);
    if bytes.len() % 2 != 0 {
        "Odd number of digits"@
    } else {
        "Invalid character "@ + text::debug_char_text(bytes[i as int] as char) + " at position "@
            + text::number_text(i, 10)
    }
}

/// Calls `hex::encode_upper`, which writes each byte as two digits, the high one first.
#[verifier::external_body]
pub(crate) fn encode_upper(data: &[u8]) -> (r: String)
    ensures
        r@ == hex_upper(data@),
{
    hex::encode_upper(data)
}

/// Calls `hex::encode`, which writes each byte as two digits, the high one first.
#[verifier::external_body]
pub(crate) fn encode(data: &[u8]) -> (r: String)
    ensures
        r@ == hex_lower(data@),
{
    hex::encode(data)
}

/// Calls `hex::decode`, which reads pairs of digits in either case and fails on any other
/// text, and shows its error. How the error shows a character is named and not stated.
#[verifier::external_body]
pub(crate) fn decode(s: &str) -> (r: Result<Vec<u8>, String>)
    ensures
        match r {
            Ok(v) => hex_bytes(s@) == Some(v@),
            Err(e) => hex_bytes(s@) is None && e@ == hex_error_text(s@),
        },
{
    hex::decode(s).map_err(|e| e.to_string())
}

/// Bytes read back from their hexadecimal text, in upper or lower case.
pub proof fn hex_round_trip(data: Seq<u8>)
    ensures
        hex_bytes(hex_upper(data)) == Some(data),
        hex_bytes(hex_lower(data)) == Some(data),
{
    let u = hex_upper(data);
    let l = hex_lower(data);
    assert forall|i: int| 0 <= i < u.len() implies #[trigger] text::digit_value(u[i]) < 16 by {}
    assert forall|i: int| 0 <= i < l.len() implies #[trigger] text::digit_value(l[i]) < 16 by {}
    assert forall|i: int| 0 <= i < data.len() implies hex_bytes(u)->0[i] == data[i]
        && hex_bytes(l)->0[i] == data[i] by {
        assert((2 * i) / 2 == i && (2 * i + 1) / 2 == i && (2 * i) % 2 == 0 && (2 * i + 1) % 2
            == 1);
    }
    assert(hex_bytes(u)->0 =~= data);
    assert(hex_bytes(l)->0 =~= data);
}

/// The fault of a text stands where all bytes in front of it are digits and it is none.
pub proof fn place_of_a_fault(bytes: Seq<u8>)
    ensures
        first_fault(bytes) <= bytes.len(),
        forall|i: int|
            0 <= i < first_fault(bytes) ==> text::digit_value(#[trigger] bytes[i] as char) < 16,
        first_fault(bytes) < bytes.len() ==> text::digit_value(
            bytes[first_fault(bytes) as int] as char,
        ) >= 16,
    decreases bytes.len(),
{
    if bytes.len() > 0 && text::digit_value(bytes[0] as char) != 16 {
        let rest = bytes.skip(1);
        place_of_a_fault(rest);
        assert forall|i: int| 0 <= i < first_fault(bytes) implies text::digit_value(
            #[trigger] bytes[i] as char,
        ) < 16 by {
            if i > 0 {
                assert(bytes[i] == rest[i - 1]);
            }
        }
    }
}

} // verus!
