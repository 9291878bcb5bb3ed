//! The keyring of a new vault.
//!
//! A vault is set up with three ways in to one master key: the day-to-day
//! passphrase, the recovery key, and the passphrase that guards sensitive
//! destinations (which may be the same string as the first; each slot has
//! its own salt). Writing the keyring and creating the database stand
//! outside the library.
use vstd::prelude::*;
use vstd::string::StringSliceAdditionalSpecFns;

use crate::app::error::CommandError;
use crate::schema::error::SchemaError;
use crate::schema::keyring::{
    has_kind, kinds_distinct, lemma_added_slot_unlocks, lemma_adding_keeps_kinds_distinct,
    lemma_adding_keeps_unlocks, lemma_first_slot, unlocks, unwrap_in_range, unwrap_outcome, Keyring, MasterKey,
    SlotKind, KEYRING_VERSION, SALT_LEN,
};
use crate::schema::recovery::RecoveryKey;

verus! {

/// The keyring of a new vault: a passphrase slot, the recovery slot and a
/// sensitive slot, in that order, each wrapping `master`.
///
/// Fails, with a key-derivation error, only when a passphrase is longer than
/// the key derivation accepts.
pub fn new_vault_keyring(
    master: &MasterKey,
    master_passphrase: &str,
    recovery: &RecoveryKey,
    sensitive_passphrase: &str,
) -> (r: Result<Keyring, SchemaError>)
    ensures
        r is Err <==> (master_passphrase.spec_bytes().len() > 0xFFFF_FFFF
            || sensitive_passphrase.spec_bytes().len() > 0xFFFF_FFFF),
        r is Err ==> (r matches Err(SchemaError::Kdf(_))),
        r matches Ok(k) ==> {
            &&& k.version == KEYRING_VERSION
            &&& k.slots@.len() == 3
            &&& k.slots@[0].kind == SlotKind::Passphrase
            &&& k.slots@[1].kind == SlotKind::Recovery
            &&& k.slots@[2].kind == SlotKind::Sensitive
            &&& forall|i: int| 0 <= i < 3 ==> #[trigger] k.slots@[i].salt@.len() == SALT_LEN
            &&& kinds_distinct(k.slots@)
            &&& unlocks(k.slots@, SlotKind::Passphrase, master_passphrase.spec_bytes(), master@)
            &&& unlocks(k.slots@, SlotKind::Recovery, recovery@, master@)
            &&& unlocks(k.slots@, SlotKind::Sensitive, sensitive_passphrase.spec_bytes(), master@)
            &&& unwrap_in_range(k.slots@, SlotKind::Passphrase)
            &&& unwrap_in_range(k.slots@, SlotKind::Recovery)
            &&& unwrap_in_range(k.slots@, SlotKind::Sensitive)
        },
{
    let mut keyring = Keyring::new();
    let ghost s0 = keyring.slots@;
    match keyring.add_passphrase_slot(SlotKind::Passphrase, master, master_passphrase) {
        Ok(()) => {},
        Err(e) => {
            return Err(e);
        },
    }
    let ghost s1 = keyring.slots@;
    proof {
        assert(s1.drop_last() == s0);
        assert(s1 =~= s0.push(s1.last()));
        lemma_added_slot_unlocks(s0, s1.last(), master_passphrase.spec_bytes(), master@);
        lemma_adding_keeps_kinds_distinct(s0, s1.last());
        assert(!has_kind(s1, SlotKind::Recovery));
    }
    match keyring.add_recovery_slot(master, recovery) {
        Ok(()) => {},
        Err(e) => {
            return Err(e);
        },
    }
    let ghost s2 = keyring.slots@;
    proof {
        assert(s2 =~= s1.push(s2.last()));
        lemma_added_slot_unlocks(s1, s2.last(), recovery@, master@);
        lemma_adding_keeps_unlocks(
            s1,
            s2.last(),
            SlotKind::Passphrase,
            master_passphrase.spec_bytes(),
            master@,
        );
        lemma_adding_keeps_kinds_distinct(s1, s2.last());
        assert(s2[0] == s1[0]);
        assert(!has_kind(s2, SlotKind::Sensitive));
    }
    match keyring.add_passphrase_slot(SlotKind::Sensitive, master, sensitive_passphrase) {
        Ok(()) => {},
        Err(e) => {
            return Err(e);
        },
    }
    let ghost s3 = keyring.slots@;
    proof {
        assert(s3 =~= s2.push(s3.last()));
        lemma_added_slot_unlocks(s2, s3.last(), sensitive_passphrase.spec_bytes(), master@);
        lemma_adding_keeps_unlocks(
            s2,
            s3.last(),
            SlotKind::Passphrase,
            master_passphrase.spec_bytes(),
            master@,
        );
        lemma_adding_keeps_unlocks(s2, s3.last(), SlotKind::Recovery, recovery@, master@);
        lemma_adding_keeps_kinds_distinct(s2, s3.last());
        assert(s3[0] == s1[0] && s3[1] == s2[1]);
        lemma_first_slot(s3, SlotKind::Passphrase);
        lemma_first_slot(s3, SlotKind::Recovery);
        lemma_first_slot(s3, SlotKind::Sensitive);
        assert(has_kind(s3, SlotKind::Passphrase) && s3[0].kind
            == SlotKind::Passphrase);
        assert(has_kind(s3, SlotKind::Recovery) && s3[1].kind
            == SlotKind::Recovery);
        assert(has_kind(s3, SlotKind::Sensitive) && s3[2].kind
            == SlotKind::Sensitive);
        assert(s3[0].salt@.len() == SALT_LEN && s3[1].salt@.len() == SALT_LEN
            && s3[2].salt@.len() == SALT_LEN);
    }
    Ok(keyring)
}

/// Unwraps the master key of a keyring read from storage with the
/// day-to-day passphrase. A keyring of another format version is refused; a
/// wrong passphrase is reported as such, and only the passphrase slot is
/// tried, so the sensitive passphrase never unlocks the app.
pub fn unlock_master(keyring: Keyring, passphrase: &str) -> (r: Result<MasterKey, CommandError>)
    requires
        unwrap_in_range(keyring.slots@, SlotKind::Passphrase),
    ensures
        keyring.version != KEYRING_VERSION ==> (r matches Err(CommandError::Schema(m)) && m@
            == SchemaError::UnsupportedKeyringVersion(keyring.version).message_spec()),
        keyring.version == KEYRING_VERSION ==> exists|u: Result<MasterKey, SchemaError>|
            #[trigger] unwrap_outcome(keyring.slots@, SlotKind::Passphrase, passphrase.spec_bytes(), u)
                && match u {
                Ok(k) => r matches Ok(k2) && k2@ == k@,
                Err(e) => {
                    &&& e is WrongSecret ==> r == Err::<MasterKey, CommandError>(
                        CommandError::WrongSecret,
                    )
                    &&& !(e is WrongSecret) ==> (r matches Err(CommandError::Schema(m)) && m@
                        == e.message_spec())
                },
            },
{
    let keyring = match keyring.check_version() {
        Ok(k) => k,
        Err(e) => {
            return Err(CommandError::from_schema(e));
        },
    };
    match keyring.unwrap_with_passphrase(SlotKind::Passphrase, passphrase) {
        Ok(k) => Ok(k),
        Err(e) => Err(CommandError::from_schema(e)),
    }
}

} // verus!
