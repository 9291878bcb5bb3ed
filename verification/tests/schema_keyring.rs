use blurt::schema::error::SchemaError;
use blurt::schema::keyring::{
    from_hex, to_hex, Keyring, MasterKey, SlotKind, KEYRING_VERSION, MASTER_KEY_LEN,
};
use blurt::schema::recovery::RecoveryKey;

const PASSPHRASE: &str = "correct horse battery staple";

fn keyring_with_passphrase() -> (Keyring, MasterKey) {
    let master = MasterKey::generate();
    let mut ring = Keyring::new();
    ring.add_passphrase_slot(SlotKind::Passphrase, &master, PASSPHRASE)
        .expect("add slot");
    (ring, master)
}

#[test]
fn master_key_is_random_not_derived() {
    let a = MasterKey::generate();
    let b = MasterKey::generate();
    assert_eq!(a.as_bytes().len(), MASTER_KEY_LEN);
    assert_ne!(a.as_bytes(), &[0u8; MASTER_KEY_LEN]);
    assert_ne!(a.as_bytes(), b.as_bytes(), "two master keys collided");
}

#[test]
fn master_key_hex_is_64_lowercase_chars() {
    let key = MasterKey::from_bytes([0xAB; MASTER_KEY_LEN]);
    let hex = key.to_hex();
    assert_eq!(hex.len(), 64);
    assert_eq!(hex, "ab".repeat(32));
}

#[test]
fn keyring_debug_never_leaks_key_material() {
    let key = MasterKey::from_bytes([0xAB; MASTER_KEY_LEN]);
    let rendered = key.debug_repr();
    assert!(!rendered.contains("ab") && !rendered.contains("AB"));
    assert!(rendered.contains("redacted"));
}

#[test]
fn passphrase_slot_round_trips() {
    let (ring, master) = keyring_with_passphrase();
    let unwrapped = ring
        .unwrap_with_passphrase(SlotKind::Passphrase, PASSPHRASE)
        .expect("unwrap");
    assert_eq!(master.as_bytes(), unwrapped.as_bytes());
}

#[test]
fn recovery_slot_round_trips() {
    let master = MasterKey::generate();
    let recovery = RecoveryKey::generate();
    let mut ring = Keyring::new();
    ring.add_recovery_slot(&master, &recovery).expect("add");
    let unwrapped = ring.unwrap_with_recovery_key(&recovery).expect("unwrap");
    assert_eq!(master.as_bytes(), unwrapped.as_bytes());
}

#[test]
fn sensitive_slot_round_trips_independently() {
    let master = MasterKey::generate();
    let mut ring = Keyring::new();
    ring.add_passphrase_slot(SlotKind::Passphrase, &master, PASSPHRASE)
        .unwrap();
    ring.add_passphrase_slot(SlotKind::Sensitive, &master, "a different one")
        .unwrap();

    assert_eq!(
        ring.unwrap_with_passphrase(SlotKind::Sensitive, "a different one")
            .unwrap()
            .as_bytes(),
        master.as_bytes()
    );
    assert!(matches!(
        ring.unwrap_with_passphrase(SlotKind::Sensitive, PASSPHRASE),
        Err(SchemaError::WrongSecret)
    ));
}

#[test]
fn sensitive_slot_may_reuse_the_master_passphrase() {
    let master = MasterKey::generate();
    let mut ring = Keyring::new();
    ring.add_passphrase_slot(SlotKind::Passphrase, &master, PASSPHRASE)
        .unwrap();
    ring.add_passphrase_slot(SlotKind::Sensitive, &master, PASSPHRASE)
        .unwrap();

    let a = &ring.slots[0];
    let b = &ring.slots[1];
    assert_ne!(a.salt, b.salt, "slots must not share a salt");
    assert_ne!(a.wrapped_key, b.wrapped_key, "reuse is visible on disk");

    assert_eq!(
        ring.unwrap_with_passphrase(SlotKind::Sensitive, PASSPHRASE)
            .unwrap()
            .as_bytes(),
        master.as_bytes()
    );
}

#[test]
fn wrong_passphrase_fails_cleanly() {
    let (ring, _) = keyring_with_passphrase();
    let err = ring
        .unwrap_with_passphrase(SlotKind::Passphrase, "not the passphrase")
        .err()
        .expect("a wrong passphrase must not unwrap");
    assert!(matches!(err, SchemaError::WrongSecret));
}

#[test]
fn wrong_recovery_key_fails_cleanly() {
    let master = MasterKey::generate();
    let mut ring = Keyring::new();
    ring.add_recovery_slot(&master, &RecoveryKey::generate())
        .unwrap();
    let err = ring
        .unwrap_with_recovery_key(&RecoveryKey::generate())
        .err()
        .expect("a wrong recovery key must not unwrap");
    assert!(matches!(err, SchemaError::WrongSecret));
}

#[test]
fn unwrapping_a_missing_slot_is_an_error_not_a_panic() {
    let ring = Keyring::new();
    assert!(matches!(
        ring.unwrap_with_passphrase(SlotKind::Passphrase, PASSPHRASE),
        Err(SchemaError::NoSuchSlot(_))
    ));
}

#[test]
fn adding_a_slot_leaves_the_master_key_byte_identical() {
    let (mut ring, master) = keyring_with_passphrase();
    let recovery = RecoveryKey::generate();
    ring.add_recovery_slot(&master, &recovery).unwrap();
    ring.add_passphrase_slot(SlotKind::Sensitive, &master, "sensitive one")
        .unwrap();

    for unwrapped in [
        ring.unwrap_with_passphrase(SlotKind::Passphrase, PASSPHRASE).unwrap(),
        ring.unwrap_with_passphrase(SlotKind::Sensitive, "sensitive one").unwrap(),
        ring.unwrap_with_recovery_key(&recovery).unwrap(),
    ] {
        assert_eq!(
            master.as_bytes(),
            unwrapped.as_bytes(),
            "a slot unwrapped to a different master key"
        );
    }
}

#[test]
fn adding_a_duplicate_slot_kind_is_rejected() {
    let (mut ring, master) = keyring_with_passphrase();
    assert!(matches!(
        ring.add_passphrase_slot(SlotKind::Passphrase, &master, "another"),
        Err(SchemaError::SlotExists(_))
    ));
}

#[test]
fn replacing_a_passphrase_preserves_the_master_key_and_other_slots() {
    let (mut ring, master) = keyring_with_passphrase();
    let recovery = RecoveryKey::generate();
    ring.add_recovery_slot(&master, &recovery).unwrap();

    ring.replace_passphrase_slot(SlotKind::Passphrase, &master, "brand new passphrase")
        .unwrap();

    assert_eq!(
        ring.unwrap_with_passphrase(SlotKind::Passphrase, "brand new passphrase")
            .unwrap()
            .as_bytes(),
        master.as_bytes()
    );
    assert!(matches!(
        ring.unwrap_with_passphrase(SlotKind::Passphrase, PASSPHRASE),
        Err(SchemaError::WrongSecret),
    ));
    assert_eq!(
        ring.unwrap_with_recovery_key(&recovery).unwrap().as_bytes(),
        master.as_bytes()
    );
}

#[test]
fn removing_a_slot_leaves_the_others_working() {
    let (mut ring, master) = keyring_with_passphrase();
    let recovery = RecoveryKey::generate();
    ring.add_recovery_slot(&master, &recovery).unwrap();

    ring.remove_slot(SlotKind::Recovery).unwrap();

    assert!(!ring.has_slot(SlotKind::Recovery));
    assert_eq!(
        ring.unwrap_with_passphrase(SlotKind::Passphrase, PASSPHRASE)
            .unwrap()
            .as_bytes(),
        master.as_bytes()
    );
}

#[test]
fn removing_the_last_slot_is_refused() {
    let (mut ring, _) = keyring_with_passphrase();
    assert!(
        ring.remove_slot(SlotKind::Passphrase).is_err(),
        "removing the last slot would orphan the database forever"
    );
}

#[test]
fn hex_helpers_round_trip() {
    let bytes = vec![0x00, 0x0f, 0xa5, 0xff];
    assert_eq!(to_hex(&bytes), "000fa5ff");
    assert_eq!(from_hex("000fa5ff").unwrap(), bytes);
    assert!(from_hex("abc").is_err());
    assert!(from_hex("zz").is_err());
}

#[test]
fn hex_decoding_accepts_either_case_and_a_plus_sign() {
    assert_eq!(from_hex("A5fF").unwrap(), vec![0xa5, 0xff]);
    assert_eq!(from_hex("+a").unwrap(), vec![0x0a]);
    assert_eq!(from_hex("-a"), Err("invalid hex digit"));
    assert_eq!(from_hex("abc"), Err("odd-length hex string"));
}

#[test]
fn removing_a_missing_kind_names_it() {
    let (mut ring, _) = keyring_with_passphrase();
    assert_eq!(ring.remove_slot(SlotKind::Sensitive), Err(SchemaError::NoSuchSlot("sensitive")));
    assert_eq!(ring.slots.len(), 1);
}

#[test]
fn only_the_current_keyring_version_is_accepted() {
    let ring = Keyring::new();
    assert_eq!(ring.version, KEYRING_VERSION);
    assert!(ring.check_version().is_ok());
    let old = Keyring { version: 7, slots: Vec::new() };
    assert!(matches!(
        old.check_version(),
        Err(SchemaError::UnsupportedKeyringVersion(7))
    ));
}

#[test]
fn errors_read_as_sentences() {
    assert_eq!(SchemaError::WrongSecret.message(), "incorrect passphrase or recovery key");
    assert_eq!(SchemaError::NoSuchSlot("recovery").message(), "no recovery keyslot present");
    assert_eq!(
        SchemaError::UnsupportedKeyringVersion(12).message(),
        "unsupported keyring format version 12"
    );
}

#[test]
fn hex_text_that_would_be_sliced_inside_a_character_is_detected() {
    assert!(blurt::schema::keyring::hex_slices_whole_of("00ff"));
    assert!(blurt::schema::keyring::hex_slices_whole_of("0"));
    // The very first pair would end inside 'é'.
    assert!(!blurt::schema::keyring::hex_slices_whole_of("aéb"));
    // "ab" decodes, then the next pair would end inside 'é'.
    assert!(!blurt::schema::keyring::hex_slices_whole_of("abaéb"));
    // A pair that fails to decode stops the walk before any slicing.
    assert!(blurt::schema::keyring::hex_slices_whole_of("zzaéb"));
}
