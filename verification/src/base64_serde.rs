//! Bytes as base64 text, the form that payloads have in JSON documents.
use vstd::prelude::*;

use crate::error::{Error, ErrorView};

verus! {

/// The character of the standard alphabet for a number below 64.
pub open spec fn base64_digit(n: nat) -> char {
    if n < 26 {
        (65 + n) as char
    } else if n < 52 {
        (97 + (n - 26)) as char
    } else if n < 62 {
        (48 + (n - 52)) as char
    } else if n == 62 {
        '+'
    } else {
        '/'
    }
}

/// Byte `i` of `data`, or 0 behind its end.
pub open spec fn byte_or_zero(data: Seq<u8>, i: int) -> nat {
    if i < data.len() { data[i] as nat } else { 0 }
}

/// Group `k` of six bits of `data`, the high bits of a byte first. Three bytes make four
/// groups.
pub open spec fn six_bits(data: Seq<u8>, k: int) -> nat {
    let a = byte_or_zero(data, 3 * (k / 4));
    let b = byte_or_zero(data, 3 * (k / 4) + 1);
    let c = byte_or_zero(data, 3 * (k / 4) + 2);
    if k % 4 == 0 {
        a / 4
    } else if k % 4 == 1 {
        a % 4 * 16 + b / 16
    } else if k % 4 == 2 {
        b % 16 * 4 + c / 64
    } else {
        c % 64
    }
}

/// The base64 text of `data`, in the standard alphabet: a character for each group of six
/// bits that holds bits of `data`, filled up with `=` to a multiple of four characters.
pub open spec fn base64_text(data: Seq<u8>) -> Seq<char> {
    Seq::new(
        4 * ((data.len() + 2) / 3),
        |k: int| if 6 * k < 8 * data.len() { base64_digit(six_bits(data, k)) } else { '=' },
    )
}

/// Why text is not base64, in the words of the decoder.
pub uninterp spec fn base64_error_text(s: Seq<char>) -> Seq<char>;

/// Calls `base64::Engine::encode` of the standard engine, which writes the bytes in the
/// standard alphabet and with padding.
#[verifier::external_body]
fn base64_encode(data: &[u8]) -> (r: String)
    requires
        4 * ((data@.len() + 2) / 3) <= usize::MAX,
    ensures
        r@ == base64_text(data@),
{
    base64::Engine::encode(&base64::engine::general_purpose::STANDARD, data)
}

/// Calls `base64::Engine::decode` of the standard engine, which accepts a text only in the
/// form that the encoder gives it: with its padding, and without bits behind the last
/// byte. So it gives the bytes whose text it was handed, and fails on every text that no
/// bytes have. What the error says is
/// named and not stated: it depends on the text alone.
#[verifier::external_body]
fn base64_decode(s: &str) -> (r: Result<Vec<u8>, String>)
    ensures
        match r {
            Ok(v) => s@ == base64_text(v@),
            Err(e) => e@ == base64_error_text(s@) && forall|b: Seq<u8>| #[trigger]
                base64_text(b) != s@,
        },
{
    base64::Engine::decode(&base64::engine::general_purpose::STANDARD, s).map_err(
        |e| e.to_string(),
    )
}

/// The base64 text of `bytes`.
pub fn serialize(bytes: &[u8]) -> (r: String)
    requires
        4 * ((bytes@.len() + 2) / 3) <= usize::MAX,
    ensures
        r@ == base64_text(bytes@),
        r@.len() == 4 * ((bytes@.len() + 2) / 3),
{
    base64_encode(bytes)
}

/// The bytes whose base64 text is `s`, and an error where there are none. So what
/// [`serialize`] writes is read back.
pub fn deserialize(s: &str) -> (r: Result<Vec<u8>, Error>)
    ensures
        match r {
            Ok(v) => s@ == base64_text(v@) && forall|b: Seq<u8>| #[trigger]
                base64_text(b) == s@ ==> b == v@,
            Err(e) => e@ == ErrorView::Other(base64_error_text(s@)) && forall|b: Seq<u8>| #[trigger]
                base64_text(b) != s@,
        },
{
    match base64_decode(s) {
        Ok(v) => {
            assert forall|b: Seq<u8>| #[trigger] base64_text(b) == s@ implies b == v@ by {
                base64_text_is_unique(b, v@);
            }
            Ok(v)
        },
        Err(e) => Err(Error::Other(e)),
    }
}

proof fn lemma_digits(m: nat, n: nat)
    requires
        m < 64,
        n < 64,
        base64_digit(m) == base64_digit(n),
    ensures
        m == n,
{
}

proof fn lemma_six_bits(data: Seq<u8>, i: int)
    requires
        0 <= i < data.len(),
    ensures
        data[i] == (if i % 3 == 0 {
            six_bits(data, 4 * (i / 3)) * 4 + six_bits(data, 4 * (i / 3) + 1) / 16
        } else if i % 3 == 1 {
            six_bits(data, 4 * (i / 3) + 1) % 16 * 16 + six_bits(data, 4 * (i / 3) + 2) / 4
        } else {
            six_bits(data, 4 * (i / 3) + 2) % 4 * 64 + six_bits(data, 4 * (i / 3) + 3)
        }),
{
    let t = i / 3;
    assert((4 * t) / 4 == t && (4 * t + 1) / 4 == t && (4 * t + 2) / 4 == t && (4 * t + 3) / 4
        == t);
    assert((4 * t) % 4 == 0 && (4 * t + 1) % 4 == 1 && (4 * t + 2) % 4 == 2 && (4 * t + 3) % 4
        == 3);
}

/// Bytes with the same text are the same bytes.
pub proof fn base64_text_is_unique(a: Seq<u8>, b: Seq<u8>)
    requires
        base64_text(a) == base64_text(b),
    ensures
        a == b,
{
    let s = base64_text(a);
    let t = base64_text(b);
    assert forall|k: int| 0 <= k < s.len() implies (6 * k < 8 * a.len() <==> 6 * k < 8 * b.len())
        && (6 * k < 8 * a.len() ==> #[trigger] six_bits(a, k) == six_bits(b, k)) by {
        assert(s[k] == t[k]);
        assert(six_bits(a, k) < 64 && six_bits(b, k) < 64);
        if six_bits(a, k) != six_bits(b, k) && base64_digit(six_bits(a, k)) == base64_digit(
            six_bits(b, k),
        ) {
            lemma_digits(six_bits(a, k), six_bits(b, k));
        }
    }
    if a.len() != b.len() {
        let last = s.len() - 1;
        assert(s.len() == t.len());
        assert(six_bits(a, last) >= 0 && six_bits(a, last - 1) >= 0);
    }
    assert forall|i: int| 0 <= i < a.len() implies a[i] == b[i] by {
        let k = 4 * (i / 3);
        lemma_six_bits(a, i);
        lemma_six_bits(b, i);
        assert(k + 1 < s.len());
        assert(six_bits(a, k) == six_bits(b, k));
        assert(six_bits(a, k + 1) == six_bits(b, k + 1));
        if i % 3 >= 1 {
            assert(six_bits(a, k + 2) == six_bits(b, k + 2));
        }
        if i % 3 == 2 {
            assert(six_bits(a, k + 3) == six_bits(b, k + 3));
        }
    }
    assert(a =~= b);
}

} // verus!
