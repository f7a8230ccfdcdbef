use track::{Certificate, Certify, CertifyError, Key, KeyMode, MAX_CAPACITY};

fn s(v: &str) -> String {
    v.to_string()
}

fn write(reg: &mut Certify, hash: &str, id: Option<&str>, ts: u64) -> Certificate {
    reg.certify(true, s(hash), id.map(s), ts).unwrap()
}

fn timestamps(reg: &Certify) -> Vec<u64> {
    reg.entries().iter().map(|c| c.timestamp).collect()
}

#[test]
fn test_certify_and_verify() {
    let mut reg = Certify::new(KeyMode::ByTimestamp);
    let hash = s("abc123");
    let id = s("cert001");
    let timestamp = 1234567890;

    reg.certify(true, hash.clone(), Some(id.clone()), timestamp).unwrap();

    let verified_cert = reg.verify(&Key::Timestamp(timestamp)).unwrap();
    assert_eq!(verified_cert.hash, hash);
    assert_eq!(verified_cert.id, Some(id));

    let wrong_timestamp = 9876543210;
    let missing = reg.verify(&Key::Timestamp(wrong_timestamp));
    assert_eq!(missing, Err(CertifyError::CertificateNotFound));
}

#[test]
fn round_trip_returns_written_fields() {
    let mut reg = Certify::new(KeyMode::ByTimestamp);
    let written = write(&mut reg, "abc123", Some("cert001"), 1234567890);
    assert_eq!(written, Certificate::new(s("abc123"), Some(s("cert001")), 1234567890));
    let read = reg.verify(&Key::Timestamp(1234567890)).unwrap();
    assert_eq!(read.hash, "abc123");
    assert_eq!(read.id, Some(s("cert001")));
    assert_eq!(read.timestamp, 1234567890);
}

#[test]
fn absent_key_is_not_found() {
    let empty = Certify::new(KeyMode::ByTimestamp);
    assert_eq!(empty.verify(&Key::Timestamp(9999999999)), Err(CertifyError::CertificateNotFound));
    let mut reg = Certify::new(KeyMode::ByTimestamp);
    write(&mut reg, "abc123", Some("cert001"), 1234567890);
    assert_eq!(reg.verify(&Key::Timestamp(9999999999)), Err(CertifyError::CertificateNotFound));
}

#[test]
fn key_of_another_mode_is_not_found() {
    let mut reg = Certify::new(KeyMode::ByTimestamp);
    write(&mut reg, "abc123", None, 5);
    assert_eq!(reg.verify(&Key::Hash(s("abc123"))), Err(CertifyError::CertificateNotFound));
    assert_eq!(reg.verify(&Key::Slot), Err(CertifyError::CertificateNotFound));
}

#[test]
fn capacity_holds_after_every_write() {
    for mode in [KeyMode::ByTimestamp, KeyMode::ByHash] {
        let mut reg = Certify::new(mode);
        for i in 0..50u64 {
            let h = format!("h{}", i % 37);
            write(&mut reg, &h, None, (i * 7919) % 101);
            assert!(reg.len() <= MAX_CAPACITY);
        }
        assert_eq!(reg.len(), MAX_CAPACITY);
    }
}

#[test]
fn oldest_entry_is_evicted_first() {
    let mut reg = Certify::new(KeyMode::ByTimestamp);
    for t in 1..=21u64 {
        write(&mut reg, &format!("h{}", t), None, t);
    }
    assert_eq!(timestamps(&reg), (2..=21u64).collect::<Vec<u64>>());
    assert_eq!(reg.verify(&Key::Timestamp(1)), Err(CertifyError::CertificateNotFound));
    assert_eq!(reg.verify(&Key::Timestamp(21)).unwrap().hash, "h21");
}

#[test]
fn eviction_tie_removes_first_stored() {
    let mut reg = Certify::new(KeyMode::ByHash);
    for i in 0..20u64 {
        write(&mut reg, &format!("h{}", i), None, if i == 3 || i == 9 { 1 } else { 100 + i });
    }
    write(&mut reg, "new", None, 500);
    assert_eq!(reg.len(), 20);
    assert_eq!(reg.verify(&Key::Hash(s("h3"))), Err(CertifyError::CertificateNotFound));
    assert_eq!(reg.verify(&Key::Hash(s("h9"))).unwrap().timestamp, 1);
}

#[test]
fn new_oldest_write_into_full_registry_is_dropped() {
    let mut reg = Certify::new(KeyMode::ByTimestamp);
    for t in 10..30u64 {
        write(&mut reg, "x", None, t);
    }
    let before = timestamps(&reg);
    let r = write(&mut reg, "y", None, 1);
    assert_eq!(r.timestamp, 1);
    assert_eq!(timestamps(&reg), before);
}

#[test]
fn same_hash_overwrites() {
    let mut reg = Certify::new(KeyMode::ByHash);
    write(&mut reg, "other", None, 3);
    write(&mut reg, "H", Some("first"), 10);
    write(&mut reg, "H", Some("second"), 20);
    let with_h: Vec<Certificate> = reg.entries().into_iter().filter(|c| c.hash == "H").collect();
    assert_eq!(with_h, vec![Certificate::new(s("H"), Some(s("second")), 20)]);
    assert_eq!(reg.len(), 2);
    assert_eq!(reg.verify(&Key::Hash(s("H"))).unwrap().id, Some(s("second")));
}

#[test]
fn same_timestamp_overwrites() {
    let mut reg = Certify::new(KeyMode::ByTimestamp);
    write(&mut reg, "a", None, 7);
    write(&mut reg, "b", Some("two"), 7);
    assert_eq!(reg.len(), 1);
    assert_eq!(reg.verify(&Key::Timestamp(7)).unwrap().hash, "b");
}

#[test]
fn unauthorized_write_changes_nothing() {
    let mut reg = Certify::new(KeyMode::ByTimestamp);
    write(&mut reg, "abc", None, 1);
    let before = reg.entries();
    let r = reg.certify(false, s("zzz"), Some(s("id")), 2);
    assert_eq!(r, Err(CertifyError::Unauthorized));
    assert_eq!(reg.entries(), before);
    assert_eq!(reg.verify(&Key::Timestamp(2)), Err(CertifyError::CertificateNotFound));
}

#[test]
fn singleton_keeps_last_write() {
    let mut reg = Certify::new(KeyMode::Singleton);
    write(&mut reg, "first", Some("a"), 1);
    assert_eq!(reg.len(), 1);
    write(&mut reg, "second", Some("b"), 2);
    assert_eq!(reg.len(), 1);
    assert_eq!(reg.entries(), vec![Certificate::new(s("second"), Some(s("b")), 2)]);
    assert_eq!(reg.verify(&Key::Slot).unwrap().hash, "second");
    assert_eq!(Certify::new(KeyMode::Singleton).verify(&Key::Slot), Err(CertifyError::CertificateNotFound));
}

#[test]
fn from_entries_checks_keys_and_capacity() {
    let a = Certificate::new(s("a"), None, 1);
    let b = Certificate::new(s("b"), None, 1);
    let r = Certify::from_entries(KeyMode::ByTimestamp, vec![a.clone(), b.clone()]);
    assert!(r.is_none());
    let r = Certify::from_entries(KeyMode::ByHash, vec![a.clone(), b.clone()]).unwrap();
    assert_eq!(r.entries(), vec![a.clone(), b.clone()]);
    assert_eq!(r.mode(), KeyMode::ByHash);
    assert!(Certify::from_entries(KeyMode::Singleton, vec![a.clone(), b.clone()]).is_none());
    let many: Vec<Certificate> = (0..21u64).map(|t| Certificate::new(s("x"), None, t)).collect();
    assert!(Certify::from_entries(KeyMode::ByTimestamp, many.clone()).is_none());
    assert!(Certify::from_entries(KeyMode::ByTimestamp, many[..20].to_vec()).is_some());
}
