//! The certificate decoder boundary: splitting a PEM buffer into the
//! certificates it holds, each reduced to the plain values the installer
//! works on. The decoding itself is the X.509 library's; what it yields
//! for a given buffer is a named, fixed function of the buffer's bytes.

use vstd::prelude::*;

verus! {

/// One certificate decoded from the PEM source: the raw DER bytes of
/// its subject name, and the subject's display form for reporting.
#[derive(Debug)]
pub struct CertRecord {
    pub subject_raw: Vec<u8>,
    pub subject_display: String,
}

/// The certificates a PEM buffer holds, in order of appearance: for
/// each block that parses as an X.509 certificate, the raw bytes of
/// its subject name paired with the subject's display form. Blocks
/// that fail to decode or to parse are skipped. The value is a fixed
/// function of the buffer's bytes alone; it is named here, not written
/// out.
pub uninterp spec fn pem_certificates(bytes: Seq<u8>) -> Seq<(Seq<u8>, Seq<char>)>;

/// Relies on x509_parser: Pem::iter_from_buffer splits the buffer into
/// PEM blocks, Pem::parse_x509 decodes a block into an X.509
/// certificate (blocks failing either step are skipped, in keeping
/// with pem_certificates), and X509Name::as_raw hands out the raw
/// bytes of the certificate's subject name. The result depends on the
/// buffer's bytes alone.
#[verifier::external_body]
fn decode_pem_raw(bytes: &[u8]) -> (r: Vec<CertRecord>)
    ensures
        r@.map_values(|c: CertRecord| (c.subject_raw@, c.subject_display@)) == pem_certificates(
            bytes@,
        ),
{
    let mut out = Vec::new();
    for pem in x509_parser::pem::Pem::iter_from_buffer(bytes).flatten() {
        if let Ok(cert) = pem.parse_x509() {
            out.push(CertRecord {
                subject_raw: cert.subject().as_raw().to_vec(),
                subject_display: cert.subject().to_string(),
            });
        }
    }
    out
}

/// Decodes the certificates a PEM buffer holds, in order of
/// appearance; blocks that are not valid X.509 certificates are
/// skipped, not fatal.
pub fn decode_pem(bytes: &[u8]) -> (r: Vec<CertRecord>)
    ensures
        r@.map_values(|c: CertRecord| (c.subject_raw@, c.subject_display@)) == pem_certificates(
            bytes@,
        ),
{
    decode_pem_raw(bytes)
}

} // verus!
