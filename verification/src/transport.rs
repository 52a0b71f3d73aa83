//! The device transport: existence checks, reads and writes against the
//! certificate store of a connected device. A `DeviceLink` is either a
//! live debugging-bridge connection or an in-memory store; the in-memory
//! store's operations carry exact contracts over a map view, the bridge
//! operations are trusted wrappers around the bridge library.

use vstd::prelude::*;
use vstd::string::StringExecFns;

verus! {

/// A transport-level fault: connectivity, permission or I/O failure on
/// the device link. Fatal to a run; never retried.
#[derive(Debug)]
pub struct TransportError {
    pub message: String,
}

impl TransportError {
    /// A fault for a link that is down.
    pub fn link_down() -> (r: TransportError) {
        TransportError { message: String::from_str("transport link is down") }
    }
}

/// Copies a byte slice into an owned vector.
pub fn copy_bytes(src: &[u8]) -> (r: Vec<u8>)
    ensures
        r@ == src@,
{
    let mut out: Vec<u8> = Vec::new();
    let mut i: usize = 0;
    while i < src.len()
        invariant
            i <= src@.len(),
            out@ == src@.subrange(0, i as int),
        decreases src@.len() - i,
    {
        out.push(src[i]);
        i += 1;
        proof {
            assert(out@ =~= src@.subrange(0, i as int));
        }
    }
    proof {
        assert(out@ =~= src@);
    }
    out
}

/// The file map an association list denotes: later entries shadow
/// earlier ones with the same path.
pub open spec fn map_of(s: Seq<(String, Vec<u8>)>) -> Map<Seq<char>, Seq<u8>>
    decreases s.len(),
{
    if s.len() == 0 {
        Map::empty()
    } else {
        map_of(s.drop_last()).insert(s.last().0@, s.last().1@)
    }
}

/// No two entries share a path.
pub open spec fn keys_unique(s: Seq<(String, Vec<u8>)>) -> bool {
    forall|i: int, j: int| 0 <= i < j < s.len() ==> s[i].0@ != s[j].0@
}

proof fn lemma_map_of_contains(s: Seq<(String, Vec<u8>)>, k: Seq<char>)
    ensures
        map_of(s).contains_key(k) <==> exists|i: int| 0 <= i < s.len() && s[i].0@ == k,
    decreases s.len(),
{
    if s.len() > 0 {
        lemma_map_of_contains(s.drop_last(), k);
        if map_of(s).contains_key(k) {
            if s.last().0@ == k {
                assert(s[s.len() - 1].0@ == k);
            } else {
                let i = choose|i: int| 0 <= i < s.drop_last().len() && s.drop_last()[i].0@ == k;
                assert(s[i].0@ == k);
            }
        } else {
            assert forall|i: int| 0 <= i < s.len() implies s[i].0@ != k by {
                if i < s.len() - 1 {
                    assert(s.drop_last()[i].0@ == s[i].0@);
                }
            }
        }
    }
}

proof fn lemma_map_of_get(s: Seq<(String, Vec<u8>)>, k: Seq<char>, i: int)
    requires
        keys_unique(s),
        0 <= i < s.len(),
        s[i].0@ == k,
    ensures
        map_of(s).contains_key(k),
        map_of(s)[k] == s[i].1@,
    decreases s.len(),
{
    if i == s.len() - 1 {
    } else {
        assert(keys_unique(s.drop_last()));
        assert(s.drop_last()[i] == s[i]);
        lemma_map_of_get(s.drop_last(), k, i);
        assert(s.last().0@ != k);
    }
}

proof fn lemma_map_of_update(s: Seq<(String, Vec<u8>)>, i: int, p: String, b: Vec<u8>)
    requires
        keys_unique(s),
        0 <= i < s.len(),
        s[i].0@ == p@,
    ensures
        keys_unique(s.update(i, (p, b))),
        map_of(s.update(i, (p, b))) == map_of(s).insert(p@, b@),
    decreases s.len(),
{
    let t = s.update(i, (p, b));
    assert forall|x: int, y: int| 0 <= x < y < t.len() implies t[x].0@ != t[y].0@ by {
        assert(s[x].0@ != s[y].0@);
    }
    if i == s.len() - 1 {
        assert(t.drop_last() =~= s.drop_last());
        assert(t.last() == (p, b));
        assert(map_of(t) =~= map_of(s).insert(p@, b@));
    } else {
        assert(keys_unique(s.drop_last()));
        assert(s.drop_last()[i] == s[i]);
        lemma_map_of_update(s.drop_last(), i, p, b);
        assert(t.drop_last() =~= s.drop_last().update(i, (p, b)));
        assert(t.last() == s.last());
        assert(s.last().0@ != p@);
        assert(map_of(t) =~= map_of(s).insert(p@, b@));
    }
}

/// Finds the entry whose path equals `path`, if one exists.
fn find_path(files: &Vec<(String, Vec<u8>)>, path: &String) -> (r: Option<usize>)
    ensures
        match r {
            Some(i) => 0 <= i < files@.len() && files@[i as int].0@ == path@,
            None => forall|i: int| 0 <= i < files@.len() ==> files@[i].0@ != path@,
        },
{
    let mut i: usize = 0;
    while i < files.len()
        invariant
            i <= files@.len(),
            forall|j: int| 0 <= j < i ==> files@[j].0@ != path@,
        decreases files@.len() - i,
    {
        if files[i].0 == *path {
            return Some(i);
        }
        i += 1;
    }
    None
}

/// An in-memory device store: files keyed by path, behind a link that
/// can be down. Operations mirror the bridge transport's and carry
/// exact contracts over the map view.
#[derive(Debug)]
pub struct MemoryDevice {
    files: Vec<(String, Vec<u8>)>,
    connected: bool,
}

impl MemoryDevice {
    /// The store's contents: a map from path to file bytes.
    pub closed spec fn files_map(&self) -> Map<Seq<char>, Seq<u8>> {
        map_of(self.files@)
    }

    /// Whether the link is up; when it is down, every operation fails.
    pub closed spec fn is_connected(&self) -> bool {
        self.connected
    }

    /// Entries never share a path, so the map view is faithful.
    pub closed spec fn wf(&self) -> bool {
        keys_unique(self.files@)
    }

    /// An empty store behind a live link.
    pub fn new() -> (r: MemoryDevice)
        ensures
            r.wf(),
            r.files_map() == Map::<Seq<char>, Seq<u8>>::empty(),
            r.is_connected(),
    {
        MemoryDevice { files: Vec::new(), connected: true }
    }

    /// Takes the link down: every later operation fails.
    pub fn disconnect(&mut self)
        requires
            old(self).wf(),
        ensures
            final(self).wf(),
            final(self).files_map() == old(self).files_map(),
            !final(self).is_connected(),
    {
        self.connected = false;
    }

    /// Whether a file exists at `path`.
    pub fn has_path(&self, path: &str) -> (r: Result<bool, TransportError>)
        requires
            self.wf(),
        ensures
            match r {
                Ok(b) => self.is_connected() && b == self.files_map().contains_key(path@),
                Err(_) => !self.is_connected(),
            },
    {
        if !self.connected {
            return Err(TransportError::link_down());
        }
        let p = path.to_owned();
        let r = find_path(&self.files, &p);
        proof {
            lemma_map_of_contains(self.files@, path@);
        }
        Ok(r.is_some())
    }

    /// The contents of the file at `path`.
    pub fn read(&self, path: &str) -> (r: Result<Vec<u8>, TransportError>)
        requires
            self.wf(),
        ensures
            match r {
                Ok(b) => self.is_connected() && self.files_map().contains_key(path@) && b@
                    == self.files_map()[path@],
                Err(_) => !self.is_connected() || !self.files_map().contains_key(path@),
            },
    {
        if !self.connected {
            return Err(TransportError::link_down());
        }
        let p = path.to_owned();
        match find_path(&self.files, &p) {
            Some(i) => {
                proof {
                    lemma_map_of_get(self.files@, path@, i as int);
                }
                Ok(copy_bytes(self.files[i].1.as_slice()))
            },
            None => {
                proof {
                    lemma_map_of_contains(self.files@, path@);
                }
                Err(TransportError { message: String::from_str("no such file") })
            },
        }
    }

    /// Writes `bytes` to `path`, replacing any file already there.
    pub fn write(&mut self, path: &str, bytes: &[u8]) -> (r: Result<(), TransportError>)
        requires
            old(self).wf(),
        ensures
            final(self).wf(),
            final(self).is_connected() == old(self).is_connected(),
            match r {
                Ok(_) => old(self).is_connected() && final(self).files_map() == old(
                    self,
                ).files_map().insert(path@, bytes@),
                Err(_) => !old(self).is_connected() && *final(self) == *old(self),
            },
    {
        if !self.connected {
            return Err(TransportError::link_down());
        }
        let p = path.to_owned();
        let copy = copy_bytes(bytes);
        match find_path(&self.files, &p) {
            Some(i) => {
                proof {
                    lemma_map_of_update(self.files@, i as int, p, copy);
                }
                self.files[i] = (p, copy);
            },
            None => {
                let ghost before = self.files@;
                self.files.push((p, copy));
                proof {
                    assert(self.files@.drop_last() =~= before);
                    assert forall|x: int, y: int|
                        0 <= x < y < self.files@.len() implies self.files@[x].0@
                        != self.files@[y].0@ by {
                        if y < self.files@.len() - 1 {
                            assert(before[x].0@ != before[y].0@);
                        } else {
                            assert(before[x].0@ != path@);
                        }
                    }
                }
            },
        }
        Ok(())
    }

    /// The contents at `path`, if a file is there: for looking over the
    /// store after a run.
    pub fn lookup(&self, path: &str) -> (r: Option<Vec<u8>>)
        requires
            self.wf(),
        ensures
            match r {
                Some(b) => self.files_map().contains_key(path@) && b@ == self.files_map()[path@],
                None => !self.files_map().contains_key(path@),
            },
    {
        let p = path.to_owned();
        match find_path(&self.files, &p) {
            Some(i) => {
                proof {
                    lemma_map_of_get(self.files@, path@, i as int);
                }
                Some(copy_bytes(self.files[i].1.as_slice()))
            },
            None => {
                proof {
                    lemma_map_of_contains(self.files@, path@);
                }
                None
            },
        }
    }
}

#[verifier::external_type_specification]
#[verifier::external_body]
pub struct ExDevice(mozdevice::Device);

/// Relies on mozdevice::Device::path_exists: asks the connected device
/// whether a file exists at `path`; the answer depends on the device's
/// filesystem, so nothing is promised of it.
#[verifier::external_body]
fn adb_path_exists(device: &mozdevice::Device, path: &str) -> (r: Result<bool, TransportError>) {
    match device.path_exists(mozdevice::UnixPath::new(path), false) {
        Ok(b) => Ok(b),
        Err(e) => Err(TransportError { message: format!("{}", e) }),
    }
}

/// Relies on mozdevice::Device::pull: fetches the contents of the file
/// at `path` from the connected device; the bytes depend on the
/// device's filesystem, so nothing is promised of them. A misbehaving
/// bridge server can make the library itself panic (it indexes a fixed
/// buffer with a length taken from the wire); that depends on the
/// peer, not on the arguments, so no `requires` can exclude it.
#[verifier::external_body]
fn adb_pull(device: &mozdevice::Device, path: &str) -> (r: Result<Vec<u8>, TransportError>) {
    let mut buf: Vec<u8> = Vec::new();
    match device.pull(mozdevice::UnixPath::new(path), &mut buf) {
        Ok(()) => Ok(buf),
        Err(e) => Err(TransportError { message: format!("{}", e) }),
    }
}

/// Relies on mozdevice::Device::push: writes exactly the given bytes to
/// the file at `path` on the connected device, or fails with a
/// transport fault. The library reads the system clock for the file's
/// timestamp and panics on a pre-1970 clock; that depends on the
/// machine, not on the arguments, so no `requires` can exclude it.
#[verifier::external_body]
fn adb_push(device: &mozdevice::Device, path: &str, bytes: &[u8]) -> (r: Result<
    (),
    TransportError,
>) {
    let mut cursor = std::io::Cursor::new(bytes);
    match device.push(&mut cursor, mozdevice::UnixPath::new(path), 0) {
        Ok(()) => Ok(()),
        Err(e) => Err(TransportError { message: format!("{}", e) }),
    }
}

/// A handle on the device store: a live debugging-bridge connection,
/// or the in-memory store.
#[derive(Debug)]
pub enum DeviceLink {
    Adb(mozdevice::Device),
    Memory(MemoryDevice),
}

impl DeviceLink {
    /// Whether this link is the in-memory store.
    pub open spec fn is_memory(&self) -> bool {
        self is Memory
    }

    /// The in-memory store behind the link.
    pub open spec fn mem(&self) -> MemoryDevice
        recommends
            self.is_memory(),
    {
        self->Memory_0
    }

    pub open spec fn wf(&self) -> bool {
        self.is_memory() ==> self.mem().wf()
    }
}

/// Asks the device whether a file exists at `path`.
pub fn link_exists(link: &DeviceLink, path: &str) -> (r: Result<bool, TransportError>)
    requires
        link.wf(),
    ensures
        link.is_memory() ==> match r {
            Ok(b) => link.mem().is_connected() && b == link.mem().files_map().contains_key(path@),
            Err(_) => !link.mem().is_connected(),
        },
{
    match link {
        DeviceLink::Adb(d) => adb_path_exists(d, path),
        DeviceLink::Memory(m) => m.has_path(path),
    }
}

/// Reads the contents of the file at `path` from the device.
pub fn link_read(link: &DeviceLink, path: &str) -> (r: Result<Vec<u8>, TransportError>)
    requires
        link.wf(),
    ensures
        link.is_memory() ==> match r {
            Ok(b) => link.mem().is_connected() && link.mem().files_map().contains_key(path@) && b@
                == link.mem().files_map()[path@],
            Err(_) => !link.mem().is_connected() || !link.mem().files_map().contains_key(path@),
        },
{
    match link {
        DeviceLink::Adb(d) => adb_pull(d, path),
        DeviceLink::Memory(m) => m.read(path),
    }
}

/// Writes `bytes` to the file at `path` on the device.
pub fn link_write(link: &mut DeviceLink, path: &str, bytes: &[u8]) -> (r: Result<
    (),
    TransportError,
>)
    requires
        old(link).wf(),
    ensures
        final(link).wf(),
        final(link).is_memory() == old(link).is_memory(),
        old(link).is_memory() ==> {
            &&& final(link).mem().is_connected() == old(link).mem().is_connected()
            &&& match r {
                Ok(_) => old(link).mem().is_connected() && final(link).mem().files_map() == old(
                    link,
                ).mem().files_map().insert(path@, bytes@),
                Err(_) => !old(link).mem().is_connected() && final(link).mem() == old(link).mem(),
            }
        },
{
    match link {
        DeviceLink::Adb(d) => adb_push(d, path, bytes),
        DeviceLink::Memory(m) => m.write(path, bytes),
    }
}

} // verus!
