//! SHA-1 digests and their lowercase hexadecimal notation.

use vstd::prelude::*;
use sha1::Digest;
use crate::text::digit_char;

verus! {

/// The SHA-1 digest of a byte string.
pub uninterp spec fn sha1_digest_of(data: Seq<u8>) -> Seq<u8>;

/// `Sha1::digest` from the `sha1` crate: the digest of `data`, named by
/// `sha1_digest_of`, which is 20 bytes long (the hasher's `OutputSize` is `U20`).
#[verifier::external_body]
pub(crate) fn sha1_digest(data: &[u8]) -> (r: Vec<u8>)
    ensures
        r@ == sha1_digest_of(data@),
        r@.len() == 20,
{
    sha1::Sha1::digest(data).to_vec()
}

/// A hexadecimal digit in lowercase.
pub open spec fn hex_char(d: nat) -> char {
    if d < 10 {
        digit_char(d)
    } else {
        ((d - 10 + 'a' as int) as u32) as char
    }
}

/// Lowercase hexadecimal notation of bytes, two digits each, as `{:x}` writes a digest.
pub open spec fn lower_hex_text(bytes: Seq<u8>) -> Seq<char>
    decreases bytes.len(),
{
    if bytes.len() == 0 {
        Seq::empty()
    } else {
        lower_hex_text(bytes.drop_last()) + seq![
            hex_char((bytes.last() / 16) as nat),
            hex_char((bytes.last() % 16) as nat),
        ]
    }
}

pub open spec fn is_lower_hex_digit(c: char) -> bool {
    ('0' <= c <= '9') || ('a' <= c <= 'f')
}

fn hex_digit(d: u8) -> (c: char)
    requires
        d < 16,
    ensures
        c == hex_char(d as nat),
        is_lower_hex_digit(c),
{
    if d < 10 {
        ((d + 48) as u8) as char
    } else {
        ((d - 10 + 97) as u8) as char
    }
}

/// Lowercase hexadecimal notation of `bytes`.
pub fn lower_hex(bytes: &Vec<u8>) -> (r: Vec<char>)
    ensures
        r@ == lower_hex_text(bytes@),
{
    let n = bytes.len();
    let mut r: Vec<char> = Vec::new();
    let mut k: usize = 0;
    assert(bytes@.take(0) =~= Seq::<u8>::empty());
    while k < n
        invariant
            k <= n,
            n == bytes@.len(),
            r@ == lower_hex_text(bytes@.take(k as int)),
        decreases n - k,
    {
        let b = bytes[k];
        r.push(hex_digit(b / 16));
        r.push(hex_digit(b % 16));
        proof {
            let t = bytes@.take(k + 1);
            assert(t.drop_last() =~= bytes@.take(k as int));
            assert(t.last() == b);
        }
        k = k + 1;
    }
    assert(bytes@.take(n as int) =~= bytes@);
    r
}

/// Hexadecimal notation has two digits per byte, none of them a line break.
pub proof fn lemma_lower_hex_text(bytes: Seq<u8>)
    ensures
        lower_hex_text(bytes).len() == 2 * bytes.len(),
        forall|i: int| 0 <= i < lower_hex_text(bytes).len() ==> is_lower_hex_digit(#[trigger] lower_hex_text(bytes)[i]),
    decreases bytes.len(),
{
    if bytes.len() > 0 {
        lemma_lower_hex_text(bytes.drop_last());
        let prev = lower_hex_text(bytes.drop_last());
        let t = lower_hex_text(bytes);
        let hi = (bytes.last() / 16) as nat;
        let lo = (bytes.last() % 16) as nat;
        lemma_hex_char(hi);
        lemma_hex_char(lo);
        assert forall|i: int| 0 <= i < t.len() implies is_lower_hex_digit(#[trigger] t[i]) by {
            if i < prev.len() {
                assert(t[i] == prev[i]);
            }
        }
    }
}

proof fn lemma_hex_char(d: nat)
    requires
        d < 16,
    ensures
        is_lower_hex_digit(hex_char(d)),
{
    if d < 10 {
        assert(((d + '0' as int) as u32) as char as int == d + 48);
    } else {
        assert(((d - 10 + 'a' as int) as u32) as char as int == d + 87);
    }
}

/// The SHA-1 digest of the UTF-8 text `text`, in lowercase hexadecimal.
pub open spec fn sha1_hex_of(text: Seq<char>) -> Seq<char> {
    lower_hex_text(sha1_digest_of(vstd::utf8::encode_utf8(text)))
}

/// The SHA-1 digest of the UTF-8 bytes of `text`, as `format!("{:x}", ..)` writes it.
pub fn sha1_hex(text: &str) -> (r: Vec<char>)
    ensures
        r@ == sha1_hex_of(text@),
        r@.len() == 40,
{
    let digest = sha1_digest(text.as_bytes());
    proof {
        lemma_lower_hex_text(digest@);
    }
    lower_hex(&digest)
}

} // verus!
