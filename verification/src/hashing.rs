use md5::Digest;
use vstd::prelude::*;

verus! {

// Content-addressed deduplication keys: the MD5 digest of the raw bytes,
// rendered as a lower-case hexadecimal string.  The same function serves
// whole documents and individual chunks.

/// The 16-byte MD5 digest of a byte sequence; the digest depends on the
/// bytes alone.
pub uninterp spec fn md5_of(bytes: Seq<u8>) -> Seq<u8>;

/// Relies on md5's Digest::digest: the MD5 digest of the input bytes,
/// always 16 bytes long.
#[verifier::external_body]
fn md5_digest(bytes: &Vec<u8>) -> (r: Vec<u8>)
    ensures
        r@ == md5_of(bytes@),
        r@.len() == 16,
{
    md5::Md5::digest(bytes.as_slice()).to_vec()
}

/// The lower-case hexadecimal digit for a value below 16.
pub open spec fn hex_digit(n: int) -> char {
    if n == 0 {
        '0'
    } else if n == 1 {
        '1'
    } else if n == 2 {
        '2'
    } else if n == 3 {
        '3'
    } else if n == 4 {
        '4'
    } else if n == 5 {
        '5'
    } else if n == 6 {
        '6'
    } else if n == 7 {
        '7'
    } else if n == 8 {
        '8'
    } else if n == 9 {
        '9'
    } else if n == 10 {
        'a'
    } else if n == 11 {
        'b'
    } else if n == 12 {
        'c'
    } else if n == 13 {
        'd'
    } else if n == 14 {
        'e'
    } else {
        'f'
    }
}

/// The two hexadecimal digits of one byte, high nibble first.
pub open spec fn hex_of_byte(b: u8) -> Seq<char> {
    seq![hex_digit(b as int / 16), hex_digit(b as int % 16)]
}

/// The hexadecimal rendering of a byte sequence.
pub open spec fn hex_of(bytes: Seq<u8>) -> Seq<char>
    decreases bytes.len(),
{
    if bytes.len() == 0 {
        Seq::empty()
    } else {
        hex_of(bytes.drop_last()) + hex_of_byte(bytes.last())
    }
}

fn hex_digit_char(n: u8) -> (c: char)
    requires
        n < 16,
    ensures
        c == hex_digit(n as int),
{
    if n < 10 {
        crate::strutil::char_from_code(48 + n as u32)
    } else {
        crate::strutil::char_from_code(87 + n as u32)
    }
}

/// Renders bytes as a lower-case hexadecimal string.
pub fn to_hex(bytes: &Vec<u8>) -> (r: String)
    ensures
        r@ == hex_of(bytes@),
        r@.len() == 2 * bytes@.len(),
{
    let mut out: Vec<char> = Vec::new();
    let mut i: usize = 0;
    while i < bytes.len()
        invariant
            0 <= i <= bytes.len(),
            out@ == hex_of(bytes@.take(i as int)),
            out@.len() == 2 * i,
        decreases bytes.len() - i,
    {
        let b = bytes[i];
        let hi = b / 16;
        let lo = b % 16;
        out.push(hex_digit_char(hi));
        out.push(hex_digit_char(lo));
        proof {
            assert(bytes@.take(i + 1).drop_last() =~= bytes@.take(i as int));
            assert(bytes@.take(i + 1).last() == bytes@[i as int]);
            assert(out@ =~= hex_of(bytes@.take(i + 1)));
        }
        i = i + 1;
    }
    proof {
        assert(bytes@.take(bytes@.len() as int) =~= bytes@);
    }
    crate::strutil::string_from_chars(&out)
}

/// The deduplication key of a byte content: its MD5 digest in hexadecimal.
pub open spec fn content_hash_of(bytes: Seq<u8>) -> Seq<char> {
    hex_of(md5_of(bytes))
}

/// Computes the content hash used as the deduplication key.  Deterministic:
/// equal byte contents always give equal hashes.
pub fn content_hash(bytes: &Vec<u8>) -> (r: String)
    ensures
        r@ == content_hash_of(bytes@),
        r@.len() == 32,
{
    let digest = md5_digest(bytes);
    to_hex(&digest)
}

} // verus!
