use blurt::app::error::CommandError;
use blurt::app::vault::{new_vault_keyring, unlock_master};
use blurt::schema::keyring::{Keyring, MasterKey, SlotKind, KEYRING_VERSION};
use blurt::schema::recovery::RecoveryKey;

const MASTER: &str = "correct horse battery staple";
const SENSITIVE: &str = "a different one entirely";

fn vault() -> (Keyring, MasterKey, RecoveryKey) {
    let master = MasterKey::generate();
    let recovery = RecoveryKey::generate();
    let ring = new_vault_keyring(&master, MASTER, &recovery, SENSITIVE).unwrap();
    (ring, master, recovery)
}

#[test]
fn a_new_vault_opens_with_each_of_its_three_secrets() {
    let (ring, master, recovery) = vault();

    assert_eq!(ring.version, KEYRING_VERSION);
    let kinds: Vec<SlotKind> = ring.slots.iter().map(|s| s.kind).collect();
    assert_eq!(kinds, vec![SlotKind::Passphrase, SlotKind::Recovery, SlotKind::Sensitive]);

    let by_pass = ring.unwrap_with_passphrase(SlotKind::Passphrase, MASTER).unwrap();
    let by_recovery = ring.unwrap_with_recovery_key(&recovery).unwrap();
    let by_sensitive = ring.unwrap_with_passphrase(SlotKind::Sensitive, SENSITIVE).unwrap();
    assert_eq!(by_pass.as_bytes(), master.as_bytes());
    assert_eq!(by_recovery.as_bytes(), master.as_bytes());
    assert_eq!(by_sensitive.as_bytes(), master.as_bytes());
}

#[test]
fn initializing_returns_the_recovery_key_in_the_form_onboarding_displays() {
    let (_, _, recovery) = vault();
    let shown = recovery.to_grouped_string();

    assert!(shown.contains('-'), "expected grouped form, got {shown}");
    assert!(RecoveryKey::parse(&shown).is_ok(), "must round-trip");
}

#[test]
fn a_vault_can_be_locked_and_unlocked_again() {
    let (ring, master, _) = vault();

    let unlocked = unlock_master(ring, MASTER).ok().expect("the passphrase unlocks");
    assert_eq!(unlocked.as_bytes(), master.as_bytes());
}

#[test]
fn a_wrong_passphrase_is_refused_and_leaves_the_vault_locked() {
    let (ring, _, _) = vault();

    let error = unlock_master(ring, "not the passphrase").err();
    assert_eq!(error, Some(CommandError::WrongSecret));
}

#[test]
fn the_sensitive_passphrase_is_a_separate_slot_that_does_not_unlock_the_app() {
    let (ring, _, _) = vault();

    let error = unlock_master(ring, SENSITIVE).err();
    assert_eq!(error, Some(CommandError::WrongSecret));
}

#[test]
fn reusing_the_master_passphrase_for_sensitive_access_is_allowed() {
    let master = MasterKey::generate();
    let recovery = RecoveryKey::generate();

    assert!(new_vault_keyring(&master, MASTER, &recovery, MASTER).is_ok());
}

#[test]
fn a_keyring_of_another_version_is_refused() {
    let (mut ring, _, _) = vault();
    ring.version = 7;

    let error = unlock_master(ring, MASTER).err();
    assert_eq!(error, Some(CommandError::Schema("unsupported keyring format version 7".to_string())));
}
