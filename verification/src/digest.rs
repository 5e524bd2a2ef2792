//! SHA-256 digests rendered as lowercase hexadecimal text.
use vstd::prelude::*;

use crate::text::string_from_chars;

verus! {

/// The SHA-256 digest of a byte sequence, as computed by the `sha2` crate.
pub uninterp spec fn spec_sha256(data: Seq<u8>) -> Seq<u8>;

/// Calls `sha2::Sha256::digest` on `data`; the digest is 32 bytes long.
#[verifier::external_body]
fn sha256(data: &[u8]) -> (r: Vec<u8>)
    ensures
        r@ == spec_sha256(data@),
        r@.len() == 32,
{
    <sha2::Sha256 as sha2::Digest>::digest(data).to_vec()
}

/// The lowercase hexadecimal digit for a value below 16.
pub open spec fn hex_digit(n: u8) -> char {
    if n < 10 {
        ((48 + n) as u8) as char
    } else {
        ((87 + n) as u8) as char
    }
}

/// Each byte as two lowercase hexadecimal digits, high nibble first
/// (the `{:x}` rendering of a digest).
pub open spec fn hex_lower(bytes: Seq<u8>) -> Seq<char>
    decreases bytes.len(),
{
    if bytes.len() == 0 {
        Seq::empty()
    } else {
        hex_lower(bytes.drop_last()) + seq![hex_digit(bytes.last() / 16), hex_digit(bytes.last() % 16)]
    }
}

/// Text made of lowercase hexadecimal digits only.
pub open spec fn is_hex_text(s: Seq<char>) -> bool {
    forall|i: int| 0 <= i < s.len() ==> ('0' <= #[trigger] s[i] <= '9') || ('a' <= s[i] <= 'f')
}

fn hex_digit_char(n: u8) -> (c: char)
    requires
        n < 16,
    ensures
        c == hex_digit(n),
{
    if n < 10 {
        (48 + n) as char
    } else {
        (87 + n) as char
    }
}

/// The first `count` bytes of `bytes` as lowercase hexadecimal text.
pub fn hex_prefix(bytes: &[u8], count: usize) -> (r: String)
    requires
        count <= bytes@.len(),
    ensures
        r@ == hex_lower(bytes@.take(count as int)),
{
    let mut out: Vec<char> = Vec::new();
    let mut i: usize = 0;
    while i < count
        invariant
            i <= count,
            count <= bytes@.len(),
            out@ == hex_lower(bytes@.take(i as int)),
        decreases count - i,
    {
        let b = bytes[i];
        out.push(hex_digit_char(b / 16));
        out.push(hex_digit_char(b % 16));
        assert(bytes@.take(i + 1).drop_last() =~= bytes@.take(i as int));
        i = i + 1;
    }
    string_from_chars(out.as_slice())
}

/// The SHA-256 digest of `data` as 64 lowercase hexadecimal digits.
pub fn sha256_hex(data: &[u8]) -> (r: String)
    ensures
        r@ == hex_lower(spec_sha256(data@)),
        r@.len() == 64,
        is_hex_text(r@),
{
    let digest = sha256(data);
    let r = hex_prefix(digest.as_slice(), 32);
    assert(digest@.take(32) =~= digest@);
    proof {
        lemma_hex_lower_len(digest@);
        lemma_hex_lower_digits(digest@);
    }
    r
}

/// The first eight hexadecimal digits of the SHA-256 digest of `data`.
pub fn sha256_hex8(data: &[u8]) -> (r: String)
    ensures
        r@ == hex_lower(spec_sha256(data@).take(4)),
        r@.len() == 8,
        is_hex_text(r@),
{
    let digest = sha256(data);
    let r = hex_prefix(digest.as_slice(), 4);
    proof {
        lemma_hex_lower_len(digest@.take(4));
        lemma_hex_lower_digits(digest@.take(4));
    }
    r
}

/// Hexadecimal text has two digits per byte.
pub proof fn lemma_hex_lower_len(bytes: Seq<u8>)
    ensures
        hex_lower(bytes).len() == 2 * bytes.len(),
    decreases bytes.len(),
{
    if bytes.len() > 0 {
        lemma_hex_lower_len(bytes.drop_last());
    }
}

/// Hexadecimal text holds lowercase hexadecimal digits only.
pub proof fn lemma_hex_lower_digits(bytes: Seq<u8>)
    ensures
        is_hex_text(hex_lower(bytes)),
    decreases bytes.len(),
{
    if bytes.len() > 0 {
        lemma_hex_lower_digits(bytes.drop_last());
        let hi = bytes.last() / 16;
        let lo = bytes.last() % 16;
        assert(('0' <= hex_digit(hi) <= '9') || ('a' <= hex_digit(hi) <= 'f'));
        assert(('0' <= hex_digit(lo) <= '9') || ('a' <= hex_digit(lo) <= 'f'));
        let a = hex_lower(bytes.drop_last());
        let h = a + seq![hex_digit(hi), hex_digit(lo)];
        assert forall|i: int| 0 <= i < h.len() implies ('0' <= #[trigger] h[i] <= '9') || ('a' <= h[i] <= 'f') by {
            if i < a.len() {
                assert(h[i] == a[i]);
            }
        }
    }
}

} // verus!
