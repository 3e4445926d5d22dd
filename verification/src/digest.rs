//! SHA-256 digests in lower-case hexadecimal, and the proof-of-work target.

use vstd::prelude::*;
use vstd::string::*;
use vstd::utf8::encode_utf8;

verus! {

/// The SHA-256 digest of `data`, as the `sha2` crate computes it.
pub uninterp spec fn sha256(data: Seq<u8>) -> Seq<u8>;

/// Calls `sha2::Sha256::digest` (the `digest` crate's `Digest::digest`), which
/// feeds `data` to a fresh hasher and finalizes it. The 32 bytes it returns are
/// taken to be a function of `data` alone; they are not computed by any proof
/// here, only named.
#[verifier::external_body]
fn sha256_digest(data: &[u8]) -> (out: [u8; 32])
    ensures
        out@ == sha256(data@),
{
    <sha2::Sha256 as sha2::Digest>::digest(data).into()
}

/// The lower-case hexadecimal digit for `n`.
pub open spec fn hex_digit(n: nat) -> char {
    if n < 10 {
        (n + 48) as char
    } else {
        (n + 87) as char
    }
}

/// Two lower-case hexadecimal digits per byte, high nibble first.
pub open spec fn hex_text(bytes: Seq<u8>) -> Seq<char> {
    Seq::new(
        2 * bytes.len(),
        |i: int|
            if i % 2 == 0 {
                hex_digit((bytes[i / 2] / 16) as nat)
            } else {
                hex_digit((bytes[i / 2] % 16) as nat)
            },
    )
}

/// The digest under which a text is known: SHA-256 over its UTF-8 bytes, in
/// hexadecimal.
pub open spec fn text_digest(text: Seq<char>) -> Seq<char> {
    hex_text(sha256(encode_utf8(text)))
}

/// Whether `hash` begins with `difficulty` characters `'0'`.
pub open spec fn has_zero_prefix(hash: Seq<char>, difficulty: nat) -> bool {
    &&& difficulty <= hash.len()
    &&& forall|i: int| 0 <= i < difficulty ==> hash[i] == '0'
}

/// The lower-case hexadecimal digit for `n`.
fn hex_digit_of(n: u8) -> (c: char)
    requires
        n < 16,
    ensures
        c == hex_digit(n as nat),
{
    if n < 10 {
        (n + 48) as char
    } else {
        (n + 87) as char
    }
}

/// Renders `bytes` in lower-case hexadecimal.
pub fn to_hex(bytes: &[u8]) -> (out: String)
    ensures
        out@ == hex_text(bytes@),
{
    let mut out = String::new();
    let mut i: usize = 0;
    while i < bytes.len()
        invariant
            i <= bytes.len(),
            out@ =~= hex_text(bytes@.take(i as int)),
        decreases bytes.len() - i,
    {
        let b = bytes[i];
        out.push(hex_digit_of(b / 16));
        out.push(hex_digit_of(b % 16));
        i += 1;
    }
    out
}

/// How many characters a digest has: two for each of its 32 bytes.
pub const DIGEST_LEN: usize = 64;

/// The hexadecimal SHA-256 digest of `text`: 64 characters.
pub fn digest_of(text: &str) -> (out: String)
    ensures
        out@ == text_digest(text@),
        out@.len() == DIGEST_LEN,
{
    let raw = sha256_digest(text.as_bytes());
    to_hex(raw.as_slice())
}

/// Tells whether `hash` starts with `difficulty` zero characters.
pub fn meets_difficulty(hash: &str, difficulty: usize) -> (ok: bool)
    ensures
        ok == has_zero_prefix(hash@, difficulty as nat),
{
    let mut seen: usize = 0;
    for c in it: hash.chars()
        invariant
            it.seq() == hash@,
            seen == it.index(),
            seen <= difficulty,
            forall|i: int| 0 <= i < seen ==> hash@[i] == '0',
    {
        if seen == difficulty {
            return true;
        }
        if c != '0' {
            return false;
        }
        seen += 1;
    }
    seen == difficulty
}

/// Whether `a` and `b` are different inputs with the same SHA-256 digest.
pub open spec fn sha256_collision(a: Seq<u8>, b: Seq<u8>) -> bool {
    a != b && sha256(a) == sha256(b)
}

/// Different bytes are rendered as different hexadecimal text.
pub proof fn lemma_hex_text_injective(a: Seq<u8>, b: Seq<u8>)
    requires
        hex_text(a) == hex_text(b),
    ensures
        a == b,
{
    assert(hex_text(a).len() == 2 * a.len());
    assert forall|i: int| 0 <= i < a.len() implies a[i] == b[i] by {
        let high = hex_text(a)[2 * i];
        let low = hex_text(a)[2 * i + 1];
        assert(high == hex_text(b)[2 * i]);
        assert(low == hex_text(b)[2 * i + 1]);
        assert(high == hex_digit((a[i] / 16) as nat));
        assert(low == hex_digit((a[i] % 16) as nat));
        assert(a[i] / 16 == b[i] / 16);
        assert(a[i] % 16 == b[i] % 16);
    }
}

/// Texts with the same digest are the same text, or their UTF-8 bytes are a
/// SHA-256 collision.
pub proof fn lemma_same_digest(a: Seq<char>, b: Seq<char>)
    requires
        text_digest(a) == text_digest(b),
    ensures
        a == b || sha256_collision(encode_utf8(a), encode_utf8(b)),
{
    lemma_hex_text_injective(sha256(encode_utf8(a)), sha256(encode_utf8(b)));
    if encode_utf8(a) == encode_utf8(b) {
        vstd::utf8::encode_utf8_decode_utf8(a);
        vstd::utf8::encode_utf8_decode_utf8(b);
    }
}

} // verus!
