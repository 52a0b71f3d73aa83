//! The collision-aware installer: probes candidate filenames from
//! iteration 0 upward, writes the certificate bytes to the first free
//! slot, reports already-installed on the first byte-identical occupant,
//! and aborts on the first transport fault. Every transport operation it
//! performs is returned as a trace, in order.

use vstd::prelude::*;
use crate::names::candidate_spec;
use crate::names::candidate_name;
use crate::transport::DeviceLink;
use crate::transport::TransportError;
use crate::transport::copy_bytes;
use crate::transport::link_exists;
use crate::transport::link_read;
use crate::transport::link_write;

verus! {

/// Whether two byte strings are identical.
pub fn bytes_eq(a: &[u8], b: &[u8]) -> (r: bool)
    ensures
        r == (a@ == b@),
{
    if a.len() != b.len() {
        return false;
    }
    let mut i: usize = 0;
    while i < a.len()
        invariant
            a@.len() == b@.len(),
            i <= a@.len(),
            forall|j: int| 0 <= j < i ==> a@[j] == b@[j],
        decreases a@.len() - i,
    {
        if a[i] != b[i] {
            return false;
        }
        i += 1;
    }
    proof {
        assert(a@ =~= b@);
    }
    true
}

/// One transport operation the installer performed, with the arguments
/// it handed the transport.
#[derive(Debug, PartialEq, Eq)]
pub enum Action {
    /// An existence check of the file at `path`.
    Check { path: String },
    /// A read of the file at `path`.
    Read { path: String },
    /// A write of `bytes` to the file at `path`.
    Write { path: String, bytes: Vec<u8> },
}

/// The mathematical image of an action.
pub enum ActionV {
    Check { path: Seq<char> },
    Read { path: Seq<char> },
    Write { path: Seq<char>, bytes: Seq<u8> },
}

impl View for Action {
    type V = ActionV;

    open spec fn view(&self) -> ActionV {
        match self {
            Action::Check { path } => ActionV::Check { path: path@ },
            Action::Read { path } => ActionV::Read { path: path@ },
            Action::Write { path, bytes } => ActionV::Write { path: path@, bytes: bytes@ },
        }
    }
}

/// The images of a sequence of actions.
pub open spec fn views_of(s: Seq<Action>) -> Seq<ActionV> {
    s.map_values(|a: Action| a@)
}

/// How one certificate's install ended without a fault.
#[derive(Debug, Clone, Copy, PartialEq, Eq, Structural)]
pub enum InstallOutcome {
    /// A free slot was found at `iteration` and the bytes were written
    /// there.
    Installed { iteration: u8 },
    /// The slot at `iteration` already held byte-identical contents;
    /// nothing was written.
    AlreadyInstalled { iteration: u8 },
}

/// Why one certificate's install ended short of an outcome.
#[derive(Debug)]
pub enum InstallError {
    /// A transport fault at probe iteration `iteration`; fatal to the
    /// whole run, never retried.
    Transport { iteration: u8, fault: TransportError },
    /// Every probe suffix was occupied by differing contents.
    ProbeSpaceExhausted,
}

/// The actions of `n` collision rounds: for each iteration below `n`,
/// a check that found the slot occupied, then a read that found
/// differing contents.
pub open spec fn collision_rounds(base: Seq<char>, n: nat) -> Seq<ActionV>
    decreases n,
{
    if n == 0 {
        Seq::empty()
    } else {
        collision_rounds(base, (n - 1) as nat)
            + seq![
            ActionV::Check { path: candidate_spec(base, (n - 1) as nat) },
            ActionV::Read { path: candidate_spec(base, (n - 1) as nat) },
        ]
    }
}

/// The full trace of an install that wrote `cert` at iteration `i`:
/// `i` collision rounds, one more check that found the slot free, and
/// exactly one write, of `cert`, to that slot.
pub open spec fn installed_trace(base: Seq<char>, cert: Seq<u8>, i: nat) -> Seq<ActionV> {
    collision_rounds(base, i)
        + seq![
        ActionV::Check { path: candidate_spec(base, i) },
        ActionV::Write { path: candidate_spec(base, i), bytes: cert },
    ]
}

/// The full trace of an install that found byte-identical contents at
/// iteration `i`: `i` collision rounds, one more check, one more read,
/// and no write at all.
pub open spec fn already_installed_trace(base: Seq<char>, i: nat) -> Seq<ActionV> {
    collision_rounds(base, i)
        + seq![
        ActionV::Check { path: candidate_spec(base, i) },
        ActionV::Read { path: candidate_spec(base, i) },
    ]
}

/// The trace of an install aborted by a transport fault after `n`
/// collision rounds: the faulting operation is the last action, and
/// nothing follows it.
pub open spec fn faulted_trace(base: Seq<char>, cert: Seq<u8>, n: nat, t: Seq<ActionV>) -> bool {
    ||| t == collision_rounds(base, n).push(ActionV::Check { path: candidate_spec(base, n) })
    ||| t == already_installed_trace(base, n)
    ||| t == installed_trace(base, cert, n)
}

/// The number of existence checks in a trace.
pub open spec fn count_checks(t: Seq<ActionV>) -> nat
    decreases t.len(),
{
    if t.len() == 0 {
        0
    } else {
        count_checks(t.drop_last()) + (if t.last() is Check {
            1nat
        } else {
            0nat
        })
    }
}

/// The number of reads in a trace.
pub open spec fn count_reads(t: Seq<ActionV>) -> nat
    decreases t.len(),
{
    if t.len() == 0 {
        0
    } else {
        count_reads(t.drop_last()) + (if t.last() is Read {
            1nat
        } else {
            0nat
        })
    }
}

/// The number of writes in a trace.
pub open spec fn count_writes(t: Seq<ActionV>) -> nat
    decreases t.len(),
{
    if t.len() == 0 {
        0
    } else {
        count_writes(t.drop_last()) + (if t.last() is Write {
            1nat
        } else {
            0nat
        })
    }
}

/// Every write in `t` carries exactly `bytes`.
pub open spec fn writes_only(t: Seq<ActionV>, bytes: Seq<u8>) -> bool {
    forall|j: int| 0 <= j < t.len() && t[j] is Write ==> t[j]->Write_bytes == bytes
}

proof fn lemma_counts_push(t: Seq<ActionV>, a: ActionV)
    ensures
        count_checks(t.push(a)) == count_checks(t) + (if a is Check {
            1nat
        } else {
            0nat
        }),
        count_reads(t.push(a)) == count_reads(t) + (if a is Read {
            1nat
        } else {
            0nat
        }),
        count_writes(t.push(a)) == count_writes(t) + (if a is Write {
            1nat
        } else {
            0nat
        }),
{
    assert(t.push(a).drop_last() =~= t);
    assert(t.push(a).last() == a);
}

/// `n` collision rounds are `2 * n` actions: `n` existence checks, `n`
/// reads, and no write at all.
pub proof fn lemma_collision_rounds_counts(base: Seq<char>, n: nat)
    ensures
        collision_rounds(base, n).len() == 2 * n,
        count_checks(collision_rounds(base, n)) == n,
        count_reads(collision_rounds(base, n)) == n,
        count_writes(collision_rounds(base, n)) == 0,
        forall|j: int| 0 <= j < 2 * n ==> !(collision_rounds(base, n)[j] is Write),
    decreases n,
{
    if n > 0 {
        lemma_collision_rounds_counts(base, (n - 1) as nat);
        let prev = collision_rounds(base, (n - 1) as nat);
        let t = collision_rounds(base, n);
        let c = ActionV::Check { path: candidate_spec(base, (n - 1) as nat) };
        let rd = ActionV::Read { path: candidate_spec(base, (n - 1) as nat) };
        assert(t =~= prev.push(c).push(rd));
        lemma_counts_push(prev, c);
        lemma_counts_push(prev.push(c), rd);
        assert forall|j: int| 0 <= j < 2 * n implies !(t[j] is Write) by {
            if j < 2 * (n - 1) {
                assert(t[j] == prev[j]);
            }
        }
    }
}

/// An install that succeeds at iteration `i` performs `i + 1`
/// existence checks, `i` reads, and exactly one write; every write in
/// its trace carries the certificate bytes. At iteration 0 this is one
/// existence check, no read, and the one write.
pub proof fn lemma_installed_trace_counts(base: Seq<char>, cert: Seq<u8>, i: nat)
    ensures
        installed_trace(base, cert, i).len() == 2 * i + 2,
        count_checks(installed_trace(base, cert, i)) == i + 1,
        count_reads(installed_trace(base, cert, i)) == i,
        count_writes(installed_trace(base, cert, i)) == 1,
        writes_only(installed_trace(base, cert, i), cert),
{
    lemma_collision_rounds_counts(base, i);
    let prev = collision_rounds(base, i);
    let t = installed_trace(base, cert, i);
    let c = ActionV::Check { path: candidate_spec(base, i) };
    let w = ActionV::Write { path: candidate_spec(base, i), bytes: cert };
    assert(t =~= prev.push(c).push(w));
    lemma_counts_push(prev, c);
    lemma_counts_push(prev.push(c), w);
    assert forall|j: int| 0 <= j < t.len() && t[j] is Write implies t[j]->Write_bytes
        == cert by {
        if j < 2 * i {
            assert(t[j] == prev[j]);
        }
    }
}

/// An install that finds byte-identical contents at iteration `i`
/// performs `i + 1` existence checks, `i + 1` reads, and no write at
/// all. At iteration 0 this is one existence check, one read, and no
/// write.
pub proof fn lemma_already_installed_trace_counts(base: Seq<char>, i: nat)
    ensures
        already_installed_trace(base, i).len() == 2 * i + 2,
        count_checks(already_installed_trace(base, i)) == i + 1,
        count_reads(already_installed_trace(base, i)) == i + 1,
        count_writes(already_installed_trace(base, i)) == 0,
{
    lemma_collision_rounds_counts(base, i);
    let prev = collision_rounds(base, i);
    let t = already_installed_trace(base, i);
    let c = ActionV::Check { path: candidate_spec(base, i) };
    let rd = ActionV::Read { path: candidate_spec(base, i) };
    assert(t =~= prev.push(c).push(rd));
    lemma_counts_push(prev, c);
    lemma_counts_push(prev.push(c), rd);
}

/// A transport fault aborts the probe at once: the faulting operation
/// is the last action of the trace, at most one action in the trace is
/// a write, and any write carries the certificate bytes.
pub proof fn lemma_faulted_trace_writes(base: Seq<char>, cert: Seq<u8>, n: nat, t: Seq<ActionV>)
    requires
        faulted_trace(base, cert, n, t),
    ensures
        count_writes(t) <= 1,
        writes_only(t, cert),
        count_writes(t) == 1 ==> t.last() is Write,
{
    lemma_collision_rounds_counts(base, n);
    let prev = collision_rounds(base, n);
    let c = ActionV::Check { path: candidate_spec(base, n) };
    if t == prev.push(c) {
        lemma_counts_push(prev, c);
        assert forall|j: int| 0 <= j < t.len() && t[j] is Write implies t[j]->Write_bytes
            == cert by {
            if j < 2 * n {
                assert(t[j] == prev[j]);
            }
        }
    } else if t == already_installed_trace(base, n) {
        lemma_already_installed_trace_counts(base, n);
        let rd = ActionV::Read { path: candidate_spec(base, n) };
        assert(t =~= prev.push(c).push(rd));
        assert forall|j: int| 0 <= j < t.len() && t[j] is Write implies t[j]->Write_bytes
            == cert by {
            if j < 2 * n {
                assert(t[j] == prev[j]);
            }
        }
    } else {
        lemma_installed_trace_counts(base, cert, n);
    }
}

/// Whether the probe stops at iteration `i` of `base` on a store
/// holding `files`: the slot is free, or holds `cert` itself.
pub open spec fn slot_stops(
    files: Map<Seq<char>, Seq<u8>>,
    base: Seq<char>,
    cert: Seq<u8>,
    i: nat,
) -> bool {
    !files.contains_key(candidate_spec(base, i)) || files[candidate_spec(base, i)] == cert
}

/// What an install against the in-memory store guarantees, given the
/// store's files `f` before the call, the result `res`, and the files
/// `f2` after it: the probe stopped at the first iteration whose slot
/// was free or already held `cert`, a write added exactly that one
/// file, and anything else left the store untouched.
pub open spec fn memory_install_post(
    f: Map<Seq<char>, Seq<u8>>,
    base: Seq<char>,
    cert: Seq<u8>,
    res: Result<InstallOutcome, InstallError>,
    f2: Map<Seq<char>, Seq<u8>>,
) -> bool {
    match res {
        Ok(InstallOutcome::Installed { iteration }) => {
            &&& !f.contains_key(candidate_spec(base, iteration as nat))
            &&& forall|j: nat| j < iteration as nat ==> !slot_stops(f, base, cert, j)
            &&& f2 == f.insert(candidate_spec(base, iteration as nat), cert)
        },
        Ok(InstallOutcome::AlreadyInstalled { iteration }) => {
            &&& f.contains_key(candidate_spec(base, iteration as nat))
            &&& f[candidate_spec(base, iteration as nat)] == cert
            &&& forall|j: nat| j < iteration as nat ==> !slot_stops(f, base, cert, j)
            &&& f2 == f
        },
        Err(InstallError::ProbeSpaceExhausted) => {
            &&& forall|j: nat| j < 256 ==> !slot_stops(f, base, cert, j)
            &&& f2 == f
        },
        Err(InstallError::Transport { .. }) => false,
    }
}

/// A certificate not previously present: when slot 0 is free, the only
/// result the installer's contract admits is a write at iteration 0,
/// and the store gains exactly that one file.
pub proof fn lemma_fresh_store_outcome(
    f: Map<Seq<char>, Seq<u8>>,
    base: Seq<char>,
    cert: Seq<u8>,
    res: Result<InstallOutcome, InstallError>,
    f2: Map<Seq<char>, Seq<u8>>,
)
    requires
        memory_install_post(f, base, cert, res, f2),
        !f.contains_key(candidate_spec(base, 0)),
    ensures
        res == Ok::<InstallOutcome, InstallError>(InstallOutcome::Installed { iteration: 0u8 }),
        f2 == f.insert(candidate_spec(base, 0), cert),
{
    assert(slot_stops(f, base, cert, 0));
    match res {
        Ok(InstallOutcome::Installed { iteration }) => {
            if iteration > 0 {
                assert(!slot_stops(f, base, cert, 0));
            }
        },
        Ok(InstallOutcome::AlreadyInstalled { iteration }) => {
            if iteration > 0 {
                assert(!slot_stops(f, base, cert, 0));
            }
        },
        Err(InstallError::ProbeSpaceExhausted) => {
            assert(!slot_stops(f, base, cert, 0));
        },
        Err(InstallError::Transport { .. }) => {},
    }
}

/// A byte-identical occupant at slot 0: the only result the
/// installer's contract admits is already-installed at iteration 0,
/// with the store untouched.
pub proof fn lemma_identical_at_zero_outcome(
    f: Map<Seq<char>, Seq<u8>>,
    base: Seq<char>,
    cert: Seq<u8>,
    res: Result<InstallOutcome, InstallError>,
    f2: Map<Seq<char>, Seq<u8>>,
)
    requires
        memory_install_post(f, base, cert, res, f2),
        f.contains_key(candidate_spec(base, 0)),
        f[candidate_spec(base, 0)] == cert,
    ensures
        res == Ok::<InstallOutcome, InstallError>(
            InstallOutcome::AlreadyInstalled { iteration: 0u8 },
        ),
        f2 == f,
{
    assert(slot_stops(f, base, cert, 0));
    match res {
        Ok(InstallOutcome::Installed { iteration }) => {
            if iteration > 0 {
                assert(!slot_stops(f, base, cert, 0));
            }
        },
        Ok(InstallOutcome::AlreadyInstalled { iteration }) => {
            if iteration > 0 {
                assert(!slot_stops(f, base, cert, 0));
            }
        },
        Err(InstallError::ProbeSpaceExhausted) => {
            assert(!slot_stops(f, base, cert, 0));
        },
        Err(InstallError::Transport { .. }) => {},
    }
}

/// `k` colliding occupants at iterations `0 .. k-1` and a byte-identical
/// occupant at `k`: the only result the installer's contract admits is
/// already-installed at iteration `k`, with the store untouched.
pub proof fn lemma_identical_after_collisions_outcome(
    f: Map<Seq<char>, Seq<u8>>,
    base: Seq<char>,
    cert: Seq<u8>,
    k: u8,
    res: Result<InstallOutcome, InstallError>,
    f2: Map<Seq<char>, Seq<u8>>,
)
    requires
        memory_install_post(f, base, cert, res, f2),
        forall|j: nat|
            j < k as nat ==> f.contains_key(candidate_spec(base, j)) && f[candidate_spec(base, j)]
                != cert,
        f.contains_key(candidate_spec(base, k as nat)),
        f[candidate_spec(base, k as nat)] == cert,
    ensures
        res == Ok::<InstallOutcome, InstallError>(
            InstallOutcome::AlreadyInstalled { iteration: k },
        ),
        f2 == f,
{
    assert(slot_stops(f, base, cert, k as nat));
    assert forall|j: nat| j < k as nat implies !slot_stops(f, base, cert, j) by {
        assert(f.contains_key(candidate_spec(base, j)));
    }
    match res {
        Ok(InstallOutcome::Installed { iteration }) => {
            if (iteration as nat) < k as nat {
                assert(slot_stops(f, base, cert, iteration as nat));
            } else if (iteration as nat) > k as nat {
                assert(!slot_stops(f, base, cert, k as nat));
            } else {
                assert(f.contains_key(candidate_spec(base, k as nat)));
            }
        },
        Ok(InstallOutcome::AlreadyInstalled { iteration }) => {
            if (iteration as nat) < k as nat {
                assert(slot_stops(f, base, cert, iteration as nat));
            } else if (iteration as nat) > k as nat {
                assert(!slot_stops(f, base, cert, k as nat));
            }
        },
        Err(InstallError::ProbeSpaceExhausted) => {
            assert(!slot_stops(f, base, cert, k as nat));
        },
        Err(InstallError::Transport { .. }) => {},
    }
}

/// `k` colliding occupants at iterations `0 .. k-1` — same base, each
/// with differing contents — and a free slot at `k`: the only result
/// the installer's contract admits is a write at iteration `k`.
pub proof fn lemma_collisions_then_free_outcome(
    f: Map<Seq<char>, Seq<u8>>,
    base: Seq<char>,
    cert: Seq<u8>,
    k: u8,
    res: Result<InstallOutcome, InstallError>,
    f2: Map<Seq<char>, Seq<u8>>,
)
    requires
        memory_install_post(f, base, cert, res, f2),
        forall|j: nat|
            j < k as nat ==> f.contains_key(candidate_spec(base, j)) && f[candidate_spec(base, j)]
                != cert,
        !f.contains_key(candidate_spec(base, k as nat)),
    ensures
        res == Ok::<InstallOutcome, InstallError>(InstallOutcome::Installed { iteration: k }),
        f2 == f.insert(candidate_spec(base, k as nat), cert),
{
    assert(slot_stops(f, base, cert, k as nat));
    assert forall|j: nat| j < k as nat implies !slot_stops(f, base, cert, j) by {
        assert(f.contains_key(candidate_spec(base, j)));
    }
    match res {
        Ok(InstallOutcome::Installed { iteration }) => {
            if (iteration as nat) < k as nat {
                assert(slot_stops(f, base, cert, iteration as nat));
            } else if (iteration as nat) > k as nat {
                assert(!slot_stops(f, base, cert, k as nat));
            }
        },
        Ok(InstallOutcome::AlreadyInstalled { iteration }) => {
            if (iteration as nat) < k as nat {
                assert(slot_stops(f, base, cert, iteration as nat));
            } else if (iteration as nat) > k as nat {
                assert(!slot_stops(f, base, cert, k as nat));
            } else {
                assert(f.contains_key(candidate_spec(base, k as nat)));
            }
        },
        Err(InstallError::ProbeSpaceExhausted) => {
            assert(!slot_stops(f, base, cert, k as nat));
        },
        Err(InstallError::Transport { .. }) => {},
    }
}

/// Installs `cert` under `base`, probing iterations 0, 1, 2, ... For
/// every transport the returned trace is exact: a faulting operation is
/// the last action and no write carries anything but `cert`. For the
/// in-memory store the outcome itself is pinned: the probe stops at the
/// first iteration whose slot is free or already holds `cert`, and the
/// store gains exactly that one file on a write.
#[verifier::loop_isolation(false)]
pub fn install(link: &mut DeviceLink, base: &str, cert: &[u8]) -> (r: (
    Result<InstallOutcome, InstallError>,
    Vec<Action>,
))
    requires
        old(link).wf(),
    ensures
        final(link).wf(),
        final(link).is_memory() == old(link).is_memory(),
        (match r.0 {
            Ok(InstallOutcome::Installed { iteration }) => views_of(r.1@) == installed_trace(
                base@,
                cert@,
                iteration as nat,
            ),
            Ok(InstallOutcome::AlreadyInstalled { iteration }) => views_of(r.1@)
                == already_installed_trace(base@, iteration as nat),
            Err(InstallError::ProbeSpaceExhausted) => views_of(r.1@) == collision_rounds(
                base@,
                256,
            ),
            Err(InstallError::Transport { iteration, .. }) => iteration <= 255
                && faulted_trace(base@, cert@, iteration as nat, views_of(r.1@)),
        }),
        old(link).is_memory() ==> {
            let m = old(link).mem();
            let f = m.files_map();
            &&& final(link).mem().is_connected() == m.is_connected()
            &&& (!m.is_connected() ==> (r.0 matches Err(InstallError::Transport { .. }))
                && final(link).mem().files_map() == f)
            &&& (m.is_connected() ==> memory_install_post(
                f,
                base@,
                cert@,
                r.0,
                final(link).mem().files_map(),
            ))
        },
{
    let mut actions: Vec<Action> = Vec::new();
    let mut i: u8 = 0;
    loop
        invariant
            i <= 255,
            link.wf(),
            link.is_memory() == old(link).is_memory(),
            views_of(actions@) == collision_rounds(base@, i as nat),
            old(link).is_memory() ==> {
                &&& link.mem() == old(link).mem()
                &&& (old(link).mem().is_connected() ==> forall|j: nat|
                    j < i as nat ==> !slot_stops(
                        old(link).mem().files_map(),
                        base@,
                        cert@,
                        j,
                    ))
            },
        decreases 255 - i,
    {
        let name = candidate_name(base, i);
        actions.push(Action::Check { path: name.clone() });
        proof {
            assert(views_of(actions@) =~= collision_rounds(base@, i as nat).push(
                ActionV::Check { path: candidate_spec(base@, i as nat) },
            ));
        }
        match link_exists(&*link, name.as_str()) {
            Err(e) => {
                proof {
                    assert(faulted_trace(base@, cert@, i as nat, views_of(actions@)));
                }
                return (Err(InstallError::Transport { iteration: i, fault: e }), actions);
            },
            Ok(false) => {
                actions.push(Action::Write { path: name.clone(), bytes: copy_bytes(cert) });
                proof {
                    assert(views_of(actions@) =~= installed_trace(base@, cert@, i as nat));
                }
                match link_write(link, name.as_str(), cert) {
                    Err(e) => {
                        proof {
                            assert(faulted_trace(base@, cert@, i as nat, views_of(actions@)));
                        }
                        return (Err(InstallError::Transport { iteration: i, fault: e }), actions);
                    },
                    Ok(_) => {
                        return (Ok(InstallOutcome::Installed { iteration: i }), actions);
                    },
                }
            },
            Ok(true) => {
                actions.push(Action::Read { path: name.clone() });
                proof {
                    assert(views_of(actions@) =~= already_installed_trace(base@, i as nat));
                }
                match link_read(&*link, name.as_str()) {
                    Err(e) => {
                        proof {
                            assert(faulted_trace(base@, cert@, i as nat, views_of(actions@)));
                        }
                        return (Err(InstallError::Transport { iteration: i, fault: e }), actions);
                    },
                    Ok(existing) => {
                        if bytes_eq(existing.as_slice(), cert) {
                            return (Ok(InstallOutcome::AlreadyInstalled { iteration: i }), actions);
                        }
                        proof {
                            assert(views_of(actions@) =~= collision_rounds(
                                base@,
                                i as nat + 1,
                            ));
                        }
                    },
                }
            },
        }
        if i == 255 {
            return (Err(InstallError::ProbeSpaceExhausted), actions);
        }
        i = i + 1;
    }
}

} // verus!
