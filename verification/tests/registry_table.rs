use term_sessions::registry::{copy_id, id_eq, Registry};

#[test]
fn check_and_insert_admits_one_record_per_id() {
    let mut reg: Registry<u32> = Registry::new();
    assert!(reg.insert_if_absent(b"a".to_vec(), 1));
    assert!(!reg.insert_if_absent(b"a".to_vec(), 2));
    assert!(reg.insert_if_absent(b"b".to_vec(), 3));
    assert_eq!(reg.count(), 2);
    // The first record survived the duplicate insert.
    assert_eq!(reg.lookup(&b"a".to_vec()), Some(&1));
    assert_eq!(reg.lookup(&b"b".to_vec()), Some(&3));
}

#[test]
fn lookup_of_an_absent_id_fails_cleanly() {
    let reg: Registry<u32> = Registry::new();
    assert_eq!(reg.lookup(&b"ghost".to_vec()), None);
    assert!(!reg.contains(&b"ghost".to_vec()));
}

#[test]
fn remove_is_idempotent_for_absent_ids() {
    let mut reg: Registry<u32> = Registry::new();
    assert!(reg.insert_if_absent(b"x".to_vec(), 9));
    assert_eq!(reg.remove(&b"x".to_vec()), Some(9));
    assert_eq!(reg.remove(&b"x".to_vec()), None);
    assert_eq!(reg.count(), 0);
}

#[test]
fn ids_compare_by_bytes() {
    assert!(id_eq(&b"t1".to_vec(), &b"t1".to_vec()));
    assert!(!id_eq(&b"t1".to_vec(), &b"t2".to_vec()));
    assert!(!id_eq(&b"t1".to_vec(), &b"t1x".to_vec()));
    let copied = copy_id(&b"session".to_vec());
    assert_eq!(copied, b"session".to_vec());
}
