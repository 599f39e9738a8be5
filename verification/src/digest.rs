//! The content digest that goes with each part: the MD5 digest of the part's
//! bytes, written in base64.

use md5::Digest;
use vstd::prelude::*;

verus! {

/// The MD5 digest of `data`.
pub uninterp spec fn md5_digest(data: Seq<u8>) -> Seq<u8>;

/// `md5::Md5::digest` of the crate `md-5`: the sixteen bytes of the MD5 digest
/// of `data`. The digest is a function of the bytes alone; which function is
/// not stated here.
#[verifier::external_body]
fn md5_of(data: &[u8]) -> (digest: [u8; 16])
    ensures
        digest@ == md5_digest(data@),
{
    md5::Md5::digest(data).into()
}

/// The character that stands for the six-bit value `v` in base64.
pub open spec fn base64_symbol(v: int) -> char
    recommends
        0 <= v < 64,
{
    if v < 26 {
        ('A' as int + v) as char
    } else if v < 52 {
        ('a' as int + (v - 26)) as char
    } else if v < 62 {
        ('0' as int + (v - 52)) as char
    } else if v == 62 {
        '+'
    } else {
        '/'
    }
}

/// `bytes` in base64, with the standard alphabet and with padding: each three
/// bytes give four characters, and what is left at the end is filled up with
/// `=`.
pub open spec fn base64_text(bytes: Seq<u8>) -> Seq<char>
    decreases bytes.len(),
{
    if bytes.len() == 0 {
        Seq::empty()
    } else if bytes.len() == 1 {
        seq![base64_symbol(bytes[0] as int / 4), base64_symbol(bytes[0] as int % 4 * 16), '=', '=']
    } else if bytes.len() == 2 {
        seq![
            base64_symbol(bytes[0] as int / 4),
            base64_symbol(bytes[0] as int % 4 * 16 + bytes[1] as int / 16),
            base64_symbol(bytes[1] as int % 16 * 4),
            '=',
        ]
    } else {
        seq![
            base64_symbol(bytes[0] as int / 4),
            base64_symbol(bytes[0] as int % 4 * 16 + bytes[1] as int / 16),
            base64_symbol(bytes[1] as int % 16 * 4 + bytes[2] as int / 64),
            base64_symbol(bytes[2] as int % 64),
        ] + base64_text(bytes.skip(3))
    }
}

/// `base64::encode` of the crate `base64`, on a digest of sixteen bytes: the
/// bytes in base64 with the standard alphabet and padding, as `base64_text`
/// spells it out.
#[verifier::external_body]
fn base64_of(digest: &[u8; 16]) -> (text: String)
    ensures
        text@ == base64_text(digest@),
{
    base64::encode(digest)
}

/// The content digest of a part: the MD5 digest of its bytes, in base64.
pub open spec fn content_md5_of(data: Seq<u8>) -> Seq<char> {
    base64_text(md5_digest(data))
}

/// Computes the content digest that the store holds a part against.
pub fn content_md5(data: &[u8]) -> (text: String)
    ensures
        text@ == content_md5_of(data@),
{
    let digest = md5_of(data);
    base64_of(&digest)
}

} // verus!
