//! Content hashes of run files: SHA-256 (from `sha2`) written as lower-case
//! hex (by `hex`).
use vstd::prelude::*;

verus! {

/// The SHA-256 digest of `data`, as the `sha2` crate computes it.
pub uninterp spec fn sha256_digest(data: Seq<u8>) -> Seq<u8>;

/// The lower-case hex digit for a value below 16.
pub open spec fn hex_digit(n: int) -> char {
    if n < 10 {
        (48 + n) as char
    } else {
        (87 + n) as char
    }
}

/// `bytes` written as lower-case hex, two digits per byte, high nibble first.
pub open spec fn hex_lower(bytes: Seq<u8>) -> Seq<char>
    decreases bytes.len(),
{
    if bytes.len() == 0 {
        Seq::empty()
    } else {
        hex_lower(bytes.drop_last()) + seq![
            hex_digit(bytes.last() as int / 16),
            hex_digit(bytes.last() as int % 16),
        ]
    }
}

/// A character of `0-9a-f`.
pub open spec fn is_lower_hex_char(c: char) -> bool {
    ('0' <= c && c <= '9') || ('a' <= c && c <= 'f')
}

/// The content hash of a run file: its SHA-256 digest in lower-case hex.
pub open spec fn content_hash(contents: Seq<u8>) -> Seq<char> {
    hex_lower(sha256_digest(contents))
}

/// Computes SHA-256 with `sha2::Sha256` (`Digest::digest`). The contract
/// names the digest and states its documented size of 32 bytes.
#[verifier::external_body]
fn sha256(data: &[u8]) -> (r: Vec<u8>)
    ensures
        r@ == sha256_digest(data@),
        r@.len() == 32,
{
    <sha2::Sha256 as sha2::Digest>::digest(data).to_vec()
}

/// Encodes bytes with `hex::encode`: lower-case digits, two per byte, high
/// nibble first, as the crate's source and documentation show.
#[verifier::external_body]
fn hex_encode(data: &[u8]) -> (r: String)
    ensures
        r@ == hex_lower(data@),
{
    hex::encode(data)
}

/// The hash under which a run file's contents are remembered as uploaded.
pub fn hash_file_contents(contents: &[u8]) -> (r: String)
    ensures
        r@ == content_hash(contents@),
        r@.len() == 64,
        forall|i: int| 0 <= i < r@.len() ==> is_lower_hex_char(#[trigger] r@[i]),
{
    let digest = sha256(contents);
    let r = hex_encode(digest.as_slice());
    proof {
        lemma_hex_lower_shape(digest@);
    }
    r
}

/// Hex text is twice as long as the bytes it encodes, and made of `0-9a-f`.
pub proof fn lemma_hex_lower_shape(bytes: Seq<u8>)
    ensures
        hex_lower(bytes).len() == 2 * bytes.len(),
        forall|i: int| 0 <= i < hex_lower(bytes).len() ==> is_lower_hex_char(#[trigger] hex_lower(bytes)[i]),
    decreases bytes.len(),
{
    if bytes.len() > 0 {
        lemma_hex_lower_shape(bytes.drop_last());
        let hi = bytes.last() as int / 16;
        let lo = bytes.last() as int % 16;
        assert(0 <= hi < 16 && 0 <= lo < 16);
        let h = hex_lower(bytes);
        let p = hex_lower(bytes.drop_last());
        assert forall|i: int| 0 <= i < h.len() implies is_lower_hex_char(#[trigger] h[i]) by {
            if i < p.len() {
                assert(h[i] == p[i]);
            } else if i == p.len() {
                assert(h[i] == hex_digit(hi));
            } else {
                assert(h[i] == hex_digit(lo));
            }
        }
    }
}

/// Hex text holds, for the byte at each position, its high nibble and then
/// its low nibble as lower-case digits, and nothing else.
pub proof fn lemma_hex_lower_digits(bytes: Seq<u8>)
    ensures
        hex_lower(bytes).len() == 2 * bytes.len(),
        forall|i: int|
            0 <= i < bytes.len() ==> hex_lower(bytes)[2 * i] == hex_digit(#[trigger] bytes[i] as int / 16)
                && hex_lower(bytes)[2 * i + 1] == hex_digit(bytes[i] as int % 16),
    decreases bytes.len(),
{
    if bytes.len() > 0 {
        let p = bytes.drop_last();
        lemma_hex_lower_digits(p);
        let h = hex_lower(bytes);
        assert forall|i: int| 0 <= i < bytes.len() implies h[2 * i] == hex_digit(
            #[trigger] bytes[i] as int / 16,
        ) && h[2 * i + 1] == hex_digit(bytes[i] as int % 16) by {
            if i < p.len() {
                assert(bytes[i] == p[i]);
                assert(h[2 * i] == hex_lower(p)[2 * i]);
                assert(h[2 * i + 1] == hex_lower(p)[2 * i + 1]);
            }
        }
    }
}

/// Two values below 16 with the same hex digit are equal.
pub proof fn lemma_hex_digit_injective(a: int, b: int)
    requires
        0 <= a < 16,
        0 <= b < 16,
        hex_digit(a) == hex_digit(b),
    ensures
        a == b,
{
    assert((hex_digit(a) as int) == (if a < 10 { 48 + a } else { 87 + a }));
    assert((hex_digit(b) as int) == (if b < 10 { 48 + b } else { 87 + b }));
}

/// Different bytes give different hex text.
pub proof fn lemma_hex_lower_injective(a: Seq<u8>, b: Seq<u8>)
    ensures
        hex_lower(a) == hex_lower(b) ==> a == b,
{
    if hex_lower(a) == hex_lower(b) {
        lemma_hex_lower_digits(a);
        lemma_hex_lower_digits(b);
        assert forall|i: int| 0 <= i < a.len() implies a[i] == b[i] by {
            assert(hex_lower(a)[2 * i] == hex_lower(b)[2 * i]);
            assert(hex_lower(a)[2 * i + 1] == hex_lower(b)[2 * i + 1]);
            lemma_hex_digit_injective(a[i] as int / 16, b[i] as int / 16);
            lemma_hex_digit_injective(a[i] as int % 16, b[i] as int % 16);
        }
        assert(a =~= b);
    }
}

/// A run file's content hash is the hex of the SHA-256 digest of all its
/// bytes: two contents get the same hash exactly when their whole digests
/// agree, so contents that differ anywhere, however long, are told apart as
/// far as SHA-256 tells them apart.
pub proof fn lemma_content_hash_covers_all_bytes(a: Seq<u8>, b: Seq<u8>)
    ensures
        content_hash(a) == hex_lower(sha256_digest(a)),
        content_hash(a) == content_hash(b) <==> sha256_digest(a) == sha256_digest(b),
{
    lemma_hex_lower_injective(sha256_digest(a), sha256_digest(b));
}

} // verus!
