//! Content digests.

use vstd::prelude::*;

use crate::text;

verus! {

/// The SHA-256 digest of some bytes, as `sha2::Sha256` computes it.
pub uninterp spec fn sha256(bytes: Seq<u8>) -> Seq<u8>;

/// `sha2::Sha256::digest`: named, and always of 32 bytes.
#[verifier::external_body]
fn sha256_bytes(bytes: &Vec<u8>) -> (r: Vec<u8>)
    ensures
        r@ == sha256(bytes@),
        r@.len() == 32,
{
    <sha2::Sha256 as sha2::Digest>::digest(bytes.as_slice()).to_vec()
}

/// The two hexadecimal digits of a byte.
pub open spec fn hex_byte(b: u8) -> Seq<char> {
    seq![crate::json::hex_digit(b as int / 16), crate::json::hex_digit(b as int % 16)]
}

/// Bytes in lower-case hexadecimal.
pub open spec fn hex(bytes: Seq<u8>) -> Seq<char>
    decreases bytes.len(),
{
    if bytes.len() == 0 {
        Seq::empty()
    } else {
        hex(bytes.drop_last()) + hex_byte(bytes.last())
    }
}

/// Whether a text holds nothing but lower-case hexadecimal digits.
pub open spec fn is_hex(s: Seq<char>) -> bool {
    forall|i: int| 0 <= i < s.len() ==> '0' <= #[trigger] s[i] <= '9' || 'a' <= s[i] <= 'f'
}

/// Whether a text is twelve lower-case hexadecimal digits.
pub open spec fn is_short_digest(s: Seq<char>) -> bool {
    s.len() == 12 && is_hex(s)
}

proof fn lemma_hex(bytes: Seq<u8>)
    ensures
        hex(bytes).len() == 2 * bytes.len(),
        is_hex(hex(bytes)),
    decreases bytes.len(),
{
    if bytes.len() > 0 {
        lemma_hex(bytes.drop_last());
    }
}

fn digit(d: u8) -> (c: char)
    requires
        d < 16,
    ensures
        c == crate::json::hex_digit(d as int),
{
    if d < 10 {
        (48 + d) as char
    } else {
        (87 + d) as char
    }
}

/// Writes the first `n` bytes in lower-case hexadecimal.
pub fn hex_of(bytes: &Vec<u8>, n: usize) -> (r: String)
    requires
        n <= bytes.len(),
    ensures
        r@ == hex(bytes@.subrange(0, n as int)),
{
    let mut out = String::new();
    let mut i: usize = 0;
    assert(out@ =~= hex(bytes@.subrange(0, 0)));
    while i < n
        invariant
            i <= n <= bytes.len(),
            out@ == hex(bytes@.subrange(0, i as int)),
        decreases n - i,
    {
        let b = bytes[i];
        out.push(digit(b / 16));
        out.push(digit(b % 16));
        i = i + 1;
        assert(bytes@.subrange(0, i as int).drop_last() =~= bytes@.subrange(0, i - 1));
        assert(out@ =~= hex(bytes@.subrange(0, i as int)));
    }
    out
}

/// The `sha256:` digest of some bytes.
pub open spec fn digest_text(bytes: Seq<u8>) -> Seq<char> {
    "sha256:"@ + hex(sha256(bytes))
}

/// The `sha256:` digest of some bytes.
pub fn digest_of(bytes: &Vec<u8>) -> (r: String)
    ensures
        r@ == digest_text(bytes@),
{
    let d = sha256_bytes(bytes);
    let h = hex_of(&d, 32);
    assert(d@.subrange(0, 32) =~= d@);
    text::cat2("sha256:", h.as_str())
}

/// The first six bytes of the digest, as twelve hexadecimal digits.
pub fn short_digest(bytes: &Vec<u8>) -> (r: String)
    ensures
        r@ == hex(sha256(bytes@).subrange(0, 6)),
        is_short_digest(r@),
{
    let d = sha256_bytes(bytes);
    proof {
        lemma_hex(d@.subrange(0, 6));
    }
    hex_of(&d, 6)
}

/// What `String::from_utf8_lossy` makes of some bytes.
pub uninterp spec fn lossy(bytes: Seq<u8>) -> Seq<char>;

/// `String::from_utf8_lossy`: named, and bytes that are valid UTF-8 are the encoding of the text.
#[verifier::external_body]
pub(crate) fn text_of_bytes(bytes: &Vec<u8>) -> (r: String)
    ensures
        r@ == lossy(bytes@),
        vstd::utf8::valid_utf8(bytes@) ==> vstd::utf8::encode_utf8(r@) == bytes@,
{
    String::from_utf8_lossy(bytes).into_owned()
}

/// The text that some bytes encode.
pub open spec fn utf8_of(bytes: Option<Seq<u8>>) -> Option<Seq<char>> {
    match bytes {
        Some(b) if vstd::utf8::valid_utf8(b) => Some(vstd::utf8::decode_utf8(b)),
        _ => None,
    }
}

/// `String::from_utf8`: the text that valid UTF-8 encodes, and nothing for other bytes.
#[verifier::external_body]
pub(crate) fn utf8_text(bytes: Vec<u8>) -> (r: Option<String>)
    ensures
        r.deep_view() == (if vstd::utf8::valid_utf8(bytes@) {
            Some(vstd::utf8::decode_utf8(bytes@))
        } else {
            None
        }),
{
    String::from_utf8(bytes).ok()
}

/// The value of a hexadecimal digit.
pub open spec fn digit_value(c: char) -> int {
    if c <= '9' {
        c as int - '0' as int
    } else {
        c as int - 'a' as int + 10
    }
}

/// Every byte is written as two digits, the high one first, and nothing is left out.
pub proof fn law_every_byte_is_two_digits(bytes: Seq<u8>, i: int)
    ensures
        hex(bytes).len() == 2 * bytes.len(),
        is_hex(hex(bytes)),
        0 <= i < bytes.len() ==> digit_value(hex(bytes)[2 * i]) * 16 + digit_value(hex(bytes)[2 * i + 1]) == bytes[i],
    decreases bytes.len(),
{
    if bytes.len() > 0 {
        let front = bytes.drop_last();
        law_every_byte_is_two_digits(front, i);
        let b = bytes.last() as int;
        assert(b == b / 16 * 16 + b % 16);
        assert(0 <= b / 16 < 16);
        let h = hex(bytes);
        assert(h[2 * front.len() as int] == crate::json::hex_digit(b / 16));
        assert(h[2 * front.len() as int + 1] == crate::json::hex_digit(b % 16));
        assert forall|k: int| 0 <= k < h.len() implies '0' <= #[trigger] h[k] <= '9' || 'a' <= h[k] <= 'f' by {
            if k < hex(front).len() {
                assert(h[k] == hex(front)[k]);
            }
        }
        if 0 <= i < front.len() {
            assert(h[2 * i] == hex(front)[2 * i]);
            assert(h[2 * i + 1] == hex(front)[2 * i + 1]);
        }
    }
}

} // verus!
