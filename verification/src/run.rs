//! The install orchestrator: decodes every certificate from the PEM
//! source and installs each in turn. The bytes written to the device
//! are the original PEM buffer, unaltered. Certificates are processed
//! in order of appearance; the first install error aborts the run, and
//! no certificate after the failing one is touched.

use vstd::prelude::*;
use crate::hash::legacy_hash;
use crate::hash::legacy_hash_spec;
use crate::install::Action;
use crate::install::InstallError;
use crate::install::InstallOutcome;
use crate::install::already_installed_trace;
use crate::install::install;
use crate::install::installed_trace;
use crate::install::memory_install_post;
use crate::install::slot_stops;
use crate::install::views_of;
use crate::names::base_name;
use crate::names::base_name_spec;
use crate::names::candidate_spec;
use crate::pem::decode_pem;
use crate::pem::pem_certificates;
use crate::transport::DeviceLink;

verus! {

/// One certificate's report from a run: the subject's display form,
/// the computed legacy hash, the base filename derived from it, the
/// install outcome, and the transport operations performed.
#[derive(Debug)]
pub struct CertReport {
    pub subject_display: String,
    pub hash: u32,
    pub base: String,
    pub outcome: InstallOutcome,
    pub actions: Vec<Action>,
}

/// What a run owes in its report for a certificate with subject bytes
/// `sub` and display form `disp`, installing the file bytes `file`
/// under the store directory `dir`: the hash is the legacy subject
/// hash of `sub`, the base filename is derived from it under `dir`,
/// and the trace of transport operations matches the outcome exactly.
/// `file` is the whole input buffer for every certificate of a run —
/// a deliberate choice: the store receives the file exactly as it was
/// read, byte for byte, never a re-encoded or re-sliced form.
pub open spec fn report_matches(
    rep: CertReport,
    sub: Seq<u8>,
    disp: Seq<char>,
    file: Seq<u8>,
    dir: Seq<char>,
) -> bool {
    &&& rep.subject_display@ == disp
    &&& rep.hash == legacy_hash_spec(sub)
    &&& rep.base@ == base_name_spec(dir, legacy_hash_spec(sub))
    &&& match rep.outcome {
        InstallOutcome::Installed { iteration } => views_of(rep.actions@) == installed_trace(
            rep.base@,
            file,
            iteration as nat,
        ),
        InstallOutcome::AlreadyInstalled { iteration } => views_of(rep.actions@)
            == already_installed_trace(rep.base@, iteration as nat),
    }
}

/// The store a run leaves behind: starting from `f0`, each report's
/// outcome is applied in order — a write at iteration `i` adds `file`
/// under the report's base name and suffix `i`, an already-installed
/// outcome changes nothing.
pub open spec fn store_after(
    f0: Map<Seq<char>, Seq<u8>>,
    file: Seq<u8>,
    reports: Seq<CertReport>,
) -> Map<Seq<char>, Seq<u8>>
    decreases reports.len(),
{
    if reports.len() == 0 {
        f0
    } else {
        let prev = store_after(f0, file, reports.drop_last());
        match reports.last().outcome {
            InstallOutcome::Installed { iteration } => prev.insert(
                candidate_spec(reports.last().base@, iteration as nat),
                file,
            ),
            InstallOutcome::AlreadyInstalled { .. } => prev,
        }
    }
}

/// Installs every certificate of `pem_bytes` under the store directory
/// `cert_path`, in order of appearance. The bytes written for each are
/// the whole input buffer — the certificate's slot on the device holds
/// the file as it was read, byte for byte, never a re-encoded form.
/// One report per certificate processed; blocks that are not valid
/// certificates were already skipped by the decoder and cannot abort
/// the run. The run returns `Ok` exactly when every certificate was
/// processed: the first install error aborts it, and certificates
/// after the failing one are not touched at all.
///
/// Against the in-memory store the run is pinned completely: a
/// connected store never yields a transport fault, each certificate's
/// outcome satisfies the installer's store contract on the store state
/// its predecessors left, the final store is the fold of those
/// outcomes, and an exhaustion error can arise only when every probe
/// slot of the next certificate is occupied by differing contents.
#[verifier::loop_isolation(false)]
pub fn install_all(link: &mut DeviceLink, pem_bytes: &[u8], cert_path: &str) -> (r: (
    Vec<CertReport>,
    Result<(), InstallError>,
))
    requires
        old(link).wf(),
    ensures
        final(link).wf(),
        final(link).is_memory() == old(link).is_memory(),
        ({
            let certs = pem_certificates(pem_bytes@);
            &&& r.0@.len() <= certs.len()
            &&& forall|j: int|
                0 <= j < r.0@.len() ==> report_matches(
                    r.0@[j],
                    certs[j].0,
                    certs[j].1,
                    pem_bytes@,
                    cert_path@,
                )
            &&& (r.1 is Ok <==> r.0@.len() == certs.len())
        }),
        old(link).is_memory() ==> {
            let m = old(link).mem();
            let f0 = m.files_map();
            let file = pem_bytes@;
            let certs = pem_certificates(pem_bytes@);
            &&& final(link).mem().is_connected() == m.is_connected()
            &&& (!m.is_connected() ==> final(link).mem().files_map() == f0 && (certs.len() > 0
                ==> (r.1 matches Err(InstallError::Transport { .. })) && r.0@.len() == 0))
            &&& (m.is_connected() ==> {
                &&& !(r.1 matches Err(InstallError::Transport { .. }))
                &&& forall|j: int|
                    0 <= j < r.0@.len() ==> memory_install_post(
                        store_after(f0, file, r.0@.subrange(0, j)),
                        r.0@[j].base@,
                        file,
                        Ok(r.0@[j].outcome),
                        store_after(f0, file, r.0@.subrange(0, j + 1)),
                    )
                &&& final(link).mem().files_map() == store_after(f0, file, r.0@)
                &&& ((r.1 matches Err(InstallError::ProbeSpaceExhausted)) ==> forall|j: nat|
                    j < 256 ==> !slot_stops(
                        store_after(f0, file, r.0@),
                        base_name_spec(cert_path@, legacy_hash_spec(certs[r.0@.len() as int].0)),
                        file,
                        j,
                    ))
            })
        },
{
    let certs = decode_pem(pem_bytes);
    let ghost f0 = if old(link).is_memory() {
        old(link).mem().files_map()
    } else {
        Map::<Seq<char>, Seq<u8>>::empty()
    };
    let ghost file = pem_bytes@;
    let mut reports: Vec<CertReport> = Vec::new();
    let mut idx: usize = 0;
    while idx < certs.len()
        invariant
            idx <= certs@.len(),
            link.wf(),
            link.is_memory() == old(link).is_memory(),
            reports@.len() == idx,
            forall|j: int|
                0 <= j < idx ==> report_matches(
                    reports@[j],
                    pem_certificates(pem_bytes@)[j].0,
                    pem_certificates(pem_bytes@)[j].1,
                    pem_bytes@,
                    cert_path@,
                ),
            old(link).is_memory() ==> {
                &&& link.mem().is_connected() == old(link).mem().is_connected()
                &&& (!old(link).mem().is_connected() ==> link.mem().files_map() == f0 && idx == 0)
                &&& (old(link).mem().is_connected() ==> {
                    &&& link.mem().files_map() == store_after(f0, file, reports@)
                    &&& forall|j: int|
                        0 <= j < idx ==> memory_install_post(
                            store_after(f0, file, reports@.subrange(0, j)),
                            reports@[j].base@,
                            file,
                            Ok(reports@[j].outcome),
                            store_after(f0, file, reports@.subrange(0, j + 1)),
                        )
                })
            },
        decreases certs@.len() - idx,
    {
        let rec = &certs[idx];
        let h = legacy_hash(rec.subject_raw.as_slice());
        let base = base_name(cert_path, h);
        proof {
            assert(pem_certificates(pem_bytes@)[idx as int] == (
                certs@[idx as int].subject_raw@,
                certs@[idx as int].subject_display@,
            ));
        }
        let ghost before = if old(link).is_memory() {
            link.mem().files_map()
        } else {
            Map::<Seq<char>, Seq<u8>>::empty()
        };
        let (res, acts) = install(link, base.as_str(), pem_bytes);
        match res {
            Ok(outcome) => {
                let rep = CertReport {
                    subject_display: rec.subject_display.clone(),
                    hash: h,
                    base,
                    outcome,
                    actions: acts,
                };
                let ghost pre = reports@;
                reports.push(rep);
                proof {
                    if old(link).is_memory() && old(link).mem().is_connected() {
                        let rs = reports@;
                        assert(rs.drop_last() =~= pre);
                        assert(store_after(f0, file, rs) == link.mem().files_map());
                        assert forall|j: int| 0 <= j < rs.len() implies memory_install_post(
                            store_after(f0, file, rs.subrange(0, j)),
                            rs[j].base@,
                            file,
                            Ok(rs[j].outcome),
                            store_after(f0, file, rs.subrange(0, j + 1)),
                        ) by {
                            if j < rs.len() - 1 {
                                assert(rs.subrange(0, j) =~= pre.subrange(0, j));
                                assert(rs.subrange(0, j + 1) =~= pre.subrange(0, j + 1));
                            } else {
                                assert(rs.subrange(0, j) =~= pre);
                                assert(rs.subrange(0, j + 1) =~= rs);
                            }
                        }
                    }
                }
            },
            Err(e) => {
                proof {
                    if old(link).is_memory() && old(link).mem().is_connected() {
                        assert(memory_install_post(
                            before,
                            base@,
                            file,
                            Err(e),
                            link.mem().files_map(),
                        ));
                        assert(!(e matches InstallError::Transport { .. }));
                        assert(base@ == base_name_spec(
                            cert_path@,
                            legacy_hash_spec(pem_certificates(pem_bytes@)[idx as int].0),
                        ));
                    }
                }
                return (reports, Err(e));
            },
        }
        idx += 1;
    }
    proof {
        if old(link).is_memory() && old(link).mem().is_connected() {
            assert(reports@.subrange(0, idx as int) =~= reports@);
        }
    }
    (reports, Ok(()))
}

} // verus!
