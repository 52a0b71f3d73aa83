//! The legacy subject hash: the 32-bit value the platform derives from a
//! certificate subject's raw DER bytes to key files in its CA store.

use vstd::prelude::*;

verus! {

/// The 16-byte MD5 digest of a byte sequence. The digest is a fixed
/// function of the input bytes alone; its value is named here, not
/// written out.
pub uninterp spec fn md5_of(bytes: Seq<u8>) -> Seq<u8>;

/// Relies on md5::compute: returns the 16-byte MD5 digest of the input,
/// which depends on the input bytes alone.
#[verifier::external_body]
fn md5_digest(bytes: &[u8]) -> (r: Vec<u8>)
    ensures
        r@ == md5_of(bytes@),
        r@.len() == 16,
{
    md5::compute(bytes).0.to_vec()
}

/// The 32-bit little-endian value of the first four bytes of `s`.
pub open spec fn le_u32_of_prefix(s: Seq<u8>) -> u32
    recommends
        s.len() >= 4,
{
    (s[0] + s[1] * 0x100 + s[2] * 0x1_0000 + s[3] * 0x100_0000) as u32
}

/// The legacy subject hash: the first four bytes of the MD5 digest of
/// the subject's raw bytes, read as a little-endian 32-bit integer.
pub open spec fn legacy_hash_spec(bytes: Seq<u8>) -> u32 {
    le_u32_of_prefix(md5_of(bytes))
}

/// Computes the legacy subject hash of `bytes`.
pub fn legacy_hash(bytes: &[u8]) -> (r: u32)
    ensures
        r == legacy_hash_spec(bytes@),
{
    let d = md5_digest(bytes);
    let r: u32 = d[0] as u32 + (d[1] as u32) * 0x100 + (d[2] as u32) * 0x1_0000
        + (d[3] as u32) * 0x100_0000;
    r
}

} // verus!
