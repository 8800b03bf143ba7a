//! Content digests of media files and scripts, rendered as fixed-width
//! lowercase hexadecimal text.
use vstd::prelude::*;
use vstd::utf8::*;

verus! {

/// The 128-bit XXH3 digest of the bytes.
pub uninterp spec fn xxh3_128_of(data: Seq<u8>) -> u128;

/// The 64-bit XXH3 digest of the bytes.
pub uninterp spec fn xxh3_64_of(data: Seq<u8>) -> u64;

/// Relies on xxhash_rust::xxh3::xxh3_128: the 128-bit XXH3 digest, a
/// function of the bytes alone.
#[verifier::external_body]
fn xxh3_128(data: &[u8]) -> (r: u128)
    ensures
        r == xxh3_128_of(data@),
{
    xxhash_rust::xxh3::xxh3_128(data)
}

/// Relies on xxhash_rust::xxh3::xxh3_64: the 64-bit XXH3 digest, a function
/// of the bytes alone.
#[verifier::external_body]
fn xxh3_64(data: &[u8]) -> (r: u64)
    ensures
        r == xxh3_64_of(data@),
{
    xxhash_rust::xxh3::xxh3_64(data)
}

pub open spec fn hex_digit(n: nat) -> char {
    seq!['0', '1', '2', '3', '4', '5', '6', '7', '8', '9', 'a', 'b', 'c', 'd', 'e', 'f'][(n % 16) as int]
}

/// The last `w` hexadecimal digits of `x`, most significant first, in lowercase.
pub open spec fn hex_text(x: nat, w: nat) -> Seq<char>
    decreases w,
{
    if w == 0 {
        Seq::empty()
    } else {
        hex_text(x / 16, (w - 1) as nat).push(hex_digit(x % 16))
    }
}

/// Relies on std's `LowerHex` formatting (`{:032x}`): the digits of the
/// number in lowercase, padded with zeros to 32.
#[verifier::external_body]
fn hex32(x: u128) -> (r: String)
    ensures
        r@ == hex_text(x as nat, 32),
{
    format!("{:032x}", x)
}

/// Relies on std's `LowerHex` formatting (`{:016x}`): the digits of the
/// number in lowercase, padded with zeros to 16.
#[verifier::external_body]
fn hex16(x: u64) -> (r: String)
    ensures
        r@ == hex_text(x as nat, 16),
{
    format!("{:016x}", x)
}

/// A 128-bit digest as 32 hexadecimal digits.
pub fn digest_text(digest: u128) -> (r: String)
    ensures
        r@ == hex_text(digest as nat, 32),
{
    hex32(digest)
}

/// The content hash of a file's bytes: their 128-bit XXH3 digest as 32
/// hexadecimal digits.
pub fn content_hash(data: &[u8]) -> (r: String)
    ensures
        r@ == hex_text(xxh3_128_of(data@) as nat, 32),
{
    hex32(xxh3_128(data))
}

/// The hash kept with a script: the 64-bit XXH3 digest of its text as 16
/// hexadecimal digits.
pub fn script_hash(body: &str) -> (r: String)
    ensures
        r@ == hex_text(xxh3_64_of(encode_utf8(body@)) as nat, 16),
{
    hex16(xxh3_64(body.as_bytes()))
}

pub proof fn lemma_hex_text_len(x: nat, w: nat)
    ensures
        hex_text(x, w).len() == w,
    decreases w,
{
    if w > 0 {
        lemma_hex_text_len(x / 16, (w - 1) as nat);
    }
}

/// Hashing the same bytes twice gives the same text, always 32 digits long.
pub proof fn law_content_hash_stable(a: Seq<u8>, b: Seq<u8>)
    requires
        a == b,
    ensures
        hex_text(xxh3_128_of(a) as nat, 32) == hex_text(xxh3_128_of(b) as nat, 32),
        hex_text(xxh3_128_of(a) as nat, 32).len() == 32,
{
    lemma_hex_text_len(xxh3_128_of(a) as nat, 32);
}

} // verus!
