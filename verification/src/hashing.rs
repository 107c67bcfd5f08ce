//! Content hashing for re-index decisions.

use vstd::prelude::*;
use sha2::Digest;

verus! {

/// The SHA-256 digest of the text's UTF-8 bytes.
pub uninterp spec fn sha256_of(s: Seq<char>) -> Seq<u8>;

/// Relies on sha2's `Sha256::digest`: the 32-byte digest of the text's
/// UTF-8 bytes; the same text always hashes the same way.
#[verifier::external_body]
fn sha256_digest(content: &str) -> (r: Vec<u8>)
    ensures
        r@ == sha256_of(content@),
        r@.len() == 32,
{
    sha2::Sha256::digest(content.as_bytes()).to_vec()
}

/// The lowercase hex digit for a value below sixteen.
pub open spec fn hex_digit(d: int) -> char {
    if d == 0 { '0' } else if d == 1 { '1' } else if d == 2 { '2' } else if d == 3 { '3' }
    else if d == 4 { '4' } else if d == 5 { '5' } else if d == 6 { '6' } else if d == 7 { '7' }
    else if d == 8 { '8' } else if d == 9 { '9' } else if d == 10 { 'a' } else if d == 11 { 'b' }
    else if d == 12 { 'c' } else if d == 13 { 'd' } else if d == 14 { 'e' } else { 'f' }
}

/// The lowercase hex encoding of a byte string, two digits per byte.
pub open spec fn hex_lower_of(bytes: Seq<u8>) -> Seq<char>
    decreases bytes.len(),
{
    if bytes.len() == 0 {
        Seq::empty()
    } else {
        seq![hex_digit(bytes[0] as int / 16), hex_digit(bytes[0] as int % 16)] + hex_lower_of(bytes.drop_first())
    }
}

/// The hex digit character for a value below sixteen.
fn hex_digit_char(d: u8) -> (c: char)
    requires
        d < 16,
    ensures
        c == hex_digit(d as int),
{
    if d == 0 { '0' } else if d == 1 { '1' } else if d == 2 { '2' } else if d == 3 { '3' }
    else if d == 4 { '4' } else if d == 5 { '5' } else if d == 6 { '6' } else if d == 7 { '7' }
    else if d == 8 { '8' } else if d == 9 { '9' } else if d == 10 { 'a' } else if d == 11 { 'b' }
    else if d == 12 { 'c' } else if d == 13 { 'd' } else if d == 14 { 'e' } else { 'f' }
}

/// Hex-encode a byte string, lowercase.
fn to_hex_lower(bytes: &Vec<u8>) -> (r: Vec<char>)
    ensures
        r@ == hex_lower_of(bytes@),
{
    let mut r: Vec<char> = Vec::new();
    let mut i: usize = 0;
    proof {
        assert(bytes@.skip(0) =~= bytes@);
    }
    while i < bytes.len()
        invariant
            i <= bytes@.len(),
            r@ + hex_lower_of(bytes@.skip(i as int)) =~= hex_lower_of(bytes@),
        decreases bytes.len() - i,
    {
        let b = bytes[i];
        proof {
            assert(bytes@.skip(i as int)[0] == bytes@[i as int]);
            assert(bytes@.skip(i as int).drop_first() =~= bytes@.skip(i + 1));
        }
        let hi = hex_digit_char(b / 16);
        let lo = hex_digit_char(b % 16);
        r.push(hi);
        r.push(lo);
        proof {
            assert(hex_lower_of(bytes@.skip(i as int)) =~= seq![hex_digit(b as int / 16), hex_digit(b as int % 16)] + hex_lower_of(bytes@.skip(i + 1)));
        }
        i = i + 1;
    }
    proof {
        assert(bytes@.skip(bytes@.len() as int) =~= Seq::<u8>::empty());
        assert(r@ + hex_lower_of(bytes@.skip(bytes@.len() as int)) =~= r@);
    }
    r
}

/// The content hash a file row stores beside its vectors: the SHA-256
/// digest of the content, hex-encoded in lowercase.
pub open spec fn content_hash_of(content: Seq<char>) -> Seq<char> {
    hex_lower_of(sha256_of(content))
}

/// Compute the content hash of a file's text.
pub fn calculate_content_hash(content: &str) -> (r: String)
    ensures
        r@ == content_hash_of(content@),
{
    let digest = sha256_digest(content);
    let hex = to_hex_lower(&digest);
    crate::text::string_from_chars(&hex)
}

/// Does a file need re-indexing?  It does when it was never vector-indexed,
/// when no content hash was stored, or when the stored hash no longer
/// matches the current content's hash.
pub fn file_needs_reindex(vector_indexed: bool, stored_hash: Option<&String>, content: &str) -> (r: bool)
    ensures
        r == (!vector_indexed || (match stored_hash {
            Option::Some(h) => h@ != content_hash_of(content@),
            Option::None => true,
        })),
{
    if !vector_indexed {
        return true;
    }
    match stored_hash {
        Some(h) => {
            let current = calculate_content_hash(content);
            !h.eq(&current)
        },
        None => true,
    }
}

} // verus!
