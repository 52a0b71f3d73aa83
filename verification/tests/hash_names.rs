use cacert_install::hash::legacy_hash;
use cacert_install::install::bytes_eq;
use cacert_install::names::base_name;
use cacert_install::names::candidate_name;
use cacert_install::names::dec_u8;
use cacert_install::names::hex_lower;

fn reference_hash(bytes: &[u8]) -> u32 {
    let digest = md5::compute(bytes);
    u32::from_le_bytes([digest[0], digest[1], digest[2], digest[3]])
}

#[test]
fn legacy_hash_of_empty_buffer() {
    // md5("") = d41d8cd98f00b204e9800998ecf8427e; first four bytes little-endian.
    assert_eq!(legacy_hash(&[]), 0xd98c1dd4);
}

#[test]
fn legacy_hash_of_abc() {
    // md5("abc") = 900150983cd24fb0d6963f7d28e17f72; first four bytes little-endian.
    assert_eq!(legacy_hash(b"abc"), 0x98500190);
}

#[test]
fn legacy_hash_matches_md5_prefix() {
    let bufs: Vec<Vec<u8>> = vec![
        vec![],
        vec![0],
        vec![255, 0, 128, 7],
        b"some subject name".to_vec(),
        vec![1; 1000],
    ];
    for b in &bufs {
        assert_eq!(legacy_hash(b), reference_hash(b));
    }
}

#[test]
fn legacy_hash_is_deterministic() {
    let a = legacy_hash(b"subject");
    let b = legacy_hash(b"subject");
    assert_eq!(a, b);
}

#[test]
fn hex_lower_formats_like_lowercase_hex() {
    assert_eq!(hex_lower(0), "0");
    assert_eq!(hex_lower(10), "a");
    assert_eq!(hex_lower(26), "1a");
    assert_eq!(hex_lower(0xdeadbeef), "deadbeef");
    assert_eq!(hex_lower(u32::MAX), "ffffffff");
    for n in [0u32, 1, 9, 15, 16, 255, 4096, 0x1234abcd, u32::MAX] {
        assert_eq!(hex_lower(n), format!("{:x}", n));
    }
}

#[test]
fn dec_u8_formats_like_decimal() {
    assert_eq!(dec_u8(0), "0");
    assert_eq!(dec_u8(7), "7");
    assert_eq!(dec_u8(10), "10");
    assert_eq!(dec_u8(255), "255");
    for n in 0u8..=255 {
        assert_eq!(dec_u8(n), format!("{}", n));
    }
}

#[test]
fn candidate_name_appends_dot_iteration() {
    assert_eq!(candidate_name("/system/etc/security/cacerts/1a2b3c4d", 0),
        "/system/etc/security/cacerts/1a2b3c4d.0");
    assert_eq!(candidate_name("ab", 7), "ab.7");
    assert_eq!(candidate_name("x", 255), "x.255");
}

#[test]
fn base_name_joins_dir_and_hex_hash() {
    assert_eq!(base_name("/system/etc/security/cacerts/", 0x1a2b3c4d),
        "/system/etc/security/cacerts/1a2b3c4d");
    assert_eq!(base_name("/d/", 0x1a), "/d/1a");
    assert_eq!(base_name("", 0), "0");
}

#[test]
fn bytes_eq_compares_contents() {
    assert!(bytes_eq(&[], &[]));
    assert!(bytes_eq(b"abc", b"abc"));
    assert!(!bytes_eq(b"abc", b"abd"));
    assert!(!bytes_eq(b"abc", b"abcd"));
    assert!(!bytes_eq(b"", b"a"));
}
