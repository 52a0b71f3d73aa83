use cacert_install::install::install;
use cacert_install::install::Action;
use cacert_install::install::InstallError;
use cacert_install::install::InstallOutcome;
use cacert_install::transport::DeviceLink;
use cacert_install::transport::MemoryDevice;

fn memory_of(link: DeviceLink) -> MemoryDevice {
    match link {
        DeviceLink::Memory(m) => m,
        DeviceLink::Adb(_) => panic!("expected the in-memory store"),
    }
}

#[test]
fn fresh_install_writes_at_iteration_zero() {
    let mut link = DeviceLink::Memory(MemoryDevice::new());
    let cert = b"certificate bytes";

    let (res, actions) = install(&mut link, "/c/abcd", cert);

    assert_eq!(res.unwrap(), InstallOutcome::Installed { iteration: 0 });
    // Exactly one existence check and one write, both at iteration 0.
    assert_eq!(actions.len(), 2);
    assert_eq!(actions[0], Action::Check { path: "/c/abcd.0".to_string() });
    assert_eq!(
        actions[1],
        Action::Write { path: "/c/abcd.0".to_string(), bytes: cert.to_vec() },
    );

    // Round trip: the device holds exactly the bytes that were handed in.
    let mem = memory_of(link);
    assert_eq!(mem.lookup("/c/abcd.0").unwrap(), cert.to_vec());
}

#[test]
fn identical_occupant_reports_already_installed() {
    let mut mem = MemoryDevice::new();
    let cert = b"certificate bytes";
    mem.write("/c/abcd.0", cert).unwrap();
    let mut link = DeviceLink::Memory(mem);

    let (res, actions) = install(&mut link, "/c/abcd", cert);

    assert_eq!(res.unwrap(), InstallOutcome::AlreadyInstalled { iteration: 0 });
    // One existence check, one read, and no write at all.
    assert_eq!(actions.len(), 2);
    assert_eq!(actions[0], Action::Check { path: "/c/abcd.0".to_string() });
    assert_eq!(actions[1], Action::Read { path: "/c/abcd.0".to_string() });

    let mem = memory_of(link);
    assert_eq!(mem.lookup("/c/abcd.0").unwrap(), cert.to_vec());
}

#[test]
fn collisions_probe_until_first_free_slot() {
    let mut mem = MemoryDevice::new();
    let cert = b"the certificate";
    mem.write("/c/ab.0", b"an unrelated certificate").unwrap();
    mem.write("/c/ab.1", b"another unrelated certificate").unwrap();
    let mut link = DeviceLink::Memory(mem);

    let (res, actions) = install(&mut link, "/c/ab", cert);

    assert_eq!(res.unwrap(), InstallOutcome::Installed { iteration: 2 });
    // k = 2 collisions: k + 1 existence checks, k reads, one write at k.
    assert_eq!(actions.len(), 6);
    assert_eq!(actions[0], Action::Check { path: "/c/ab.0".to_string() });
    assert_eq!(actions[1], Action::Read { path: "/c/ab.0".to_string() });
    assert_eq!(actions[2], Action::Check { path: "/c/ab.1".to_string() });
    assert_eq!(actions[3], Action::Read { path: "/c/ab.1".to_string() });
    assert_eq!(actions[4], Action::Check { path: "/c/ab.2".to_string() });
    assert_eq!(
        actions[5],
        Action::Write { path: "/c/ab.2".to_string(), bytes: cert.to_vec() },
    );

    // The occupants are untouched and the new slot holds the exact bytes.
    let mem = memory_of(link);
    assert_eq!(mem.lookup("/c/ab.0").unwrap(), b"an unrelated certificate".to_vec());
    assert_eq!(mem.lookup("/c/ab.1").unwrap(), b"another unrelated certificate".to_vec());
    assert_eq!(mem.lookup("/c/ab.2").unwrap(), cert.to_vec());
}

#[test]
fn transport_fault_aborts_on_first_operation() {
    let mut mem = MemoryDevice::new();
    mem.disconnect();
    let mut link = DeviceLink::Memory(mem);

    let (res, actions) = install(&mut link, "/c/ab", b"bytes");

    assert!(matches!(res, Err(InstallError::Transport { iteration: 0, .. })));
    // The faulting operation is the last action; nothing follows it.
    assert_eq!(actions.len(), 1);
    assert_eq!(actions[0], Action::Check { path: "/c/ab.0".to_string() });

    // Nothing was written.
    let mem = memory_of(link);
    assert!(mem.lookup("/c/ab.0").is_none());
}

#[test]
fn exhausted_probe_space_is_an_error() {
    let mut mem = MemoryDevice::new();
    // Every slot 0..=255 is occupied by differing contents.
    for i in 0u16..=255 {
        let path = format!("/c/ab.{}", i);
        let occupant = format!("occupant number {}", i);
        mem.write(&path, occupant.as_bytes()).unwrap();
    }
    let mut link = DeviceLink::Memory(mem);

    let (res, actions) = install(&mut link, "/c/ab", b"the certificate");

    assert!(matches!(res, Err(InstallError::ProbeSpaceExhausted)));
    // 256 collision rounds: one check and one read for each iteration,
    // and no write at all.
    assert_eq!(actions.len(), 512);
    assert!(actions.iter().all(|a| !matches!(a, Action::Write { .. })));

    let mem = memory_of(link);
    assert_eq!(mem.lookup("/c/ab.255").unwrap(), b"occupant number 255".to_vec());
}
