use blurt::schema::error::SchemaError;
use blurt::schema::recovery::{RecoveryKey, GROUP_COUNT, GROUP_LEN, RECOVERY_KEY_LEN};

const ALPHABET: &[u8; 32] = b"0123456789ABCDEFGHJKMNPQRSTVWXYZ";

#[test]
fn generated_keys_are_full_length_and_not_all_zero() {
    let key = RecoveryKey::generate();
    assert_eq!(key.as_bytes().len(), RECOVERY_KEY_LEN);
    assert_ne!(key.as_bytes(), &[0u8; RECOVERY_KEY_LEN]);
}

#[test]
fn generated_keys_differ() {
    let a = RecoveryKey::generate();
    let b = RecoveryKey::generate();
    assert_ne!(a.as_bytes(), b.as_bytes(), "two generated keys collided");
}

#[test]
fn encodes_to_thirteen_groups_of_four() {
    let key = RecoveryKey::from_bytes([0x42; RECOVERY_KEY_LEN]);
    let encoded = key.to_grouped_string();
    let groups: Vec<&str> = encoded.split('-').collect();
    assert_eq!(groups.len(), GROUP_COUNT, "expected {GROUP_COUNT} groups");
    assert!(groups.iter().all(|g| g.len() == GROUP_LEN));
    assert_eq!(key.groups().len(), GROUP_COUNT);
}

#[test]
fn encoding_uses_only_crockford_characters() {
    let key = RecoveryKey::generate();
    let encoded = key.to_grouped_string();
    for ch in encoded.chars().filter(|c| *c != '-') {
        assert!(
            ALPHABET.contains(&(ch as u8)),
            "character {ch:?} is outside the Crockford alphabet"
        );
    }
}

#[test]
fn round_trips_through_encoding() {
    let key = RecoveryKey::generate();
    let parsed = RecoveryKey::parse(&key.to_grouped_string()).expect("should parse");
    assert_eq!(key.as_bytes(), parsed.as_bytes());
}

#[test]
fn parsing_tolerates_how_people_actually_type() {
    let key = RecoveryKey::from_bytes([0x9c; RECOVERY_KEY_LEN]);
    let canonical = key.to_grouped_string();

    let lowercase = canonical.to_lowercase();
    let no_dashes = canonical.replace('-', "");
    let spaces = canonical.replace('-', " ");
    let padded = format!("  {canonical}  ");

    for variant in [lowercase, no_dashes, spaces, padded] {
        let parsed = RecoveryKey::parse(&variant)
            .unwrap_or_else(|e| panic!("failed to parse {variant:?}: {}", e.message()));
        assert_eq!(key.as_bytes(), parsed.as_bytes(), "variant {variant:?}");
    }
}

#[test]
fn parsing_folds_ambiguous_characters() {
    let key = RecoveryKey::from_bytes([0x00; RECOVERY_KEY_LEN]);
    let canonical = key.to_grouped_string();
    assert!(canonical.contains('0'), "fixture should contain a zero");

    let with_letter_o = canonical.replace('0', "O");
    let parsed = RecoveryKey::parse(&with_letter_o).expect("O should fold to 0");
    assert_eq!(key.as_bytes(), parsed.as_bytes());
}

#[test]
fn rejects_wrong_length() {
    assert!(matches!(
        RecoveryKey::parse("ABCD-EFGH"),
        Err(SchemaError::InvalidRecoveryKey(_))
    ));
}

#[test]
fn rejects_characters_outside_the_alphabet() {
    let key = RecoveryKey::generate();
    let mut bad = key.to_grouped_string();
    bad.replace_range(0..1, "!");
    assert!(matches!(
        RecoveryKey::parse(&bad),
        Err(SchemaError::InvalidRecoveryKey(_))
    ));
}

#[test]
fn recovery_debug_never_leaks_key_material() {
    let key = RecoveryKey::from_bytes([0xAB; RECOVERY_KEY_LEN]);
    let rendered = key.debug_repr();
    assert!(!rendered.contains("AB"), "Debug leaked key bytes");
    assert!(rendered.contains("redacted"));
}

#[test]
fn a_known_key_encodes_to_its_crockford_form() {
    let key = RecoveryKey::from_bytes([0xFF; RECOVERY_KEY_LEN]);
    assert_eq!(
        key.to_grouped_string(),
        "ZZZZ-ZZZZ-ZZZZ-ZZZZ-ZZZZ-ZZZZ-ZZZZ-ZZZZ-ZZZZ-ZZZZ-ZZZZ-ZZZZ-ZZZG"
    );
    let zero = RecoveryKey::from_bytes([0x00; RECOVERY_KEY_LEN]);
    assert_eq!(zero.groups()[0], "0000");
}

#[test]
fn the_letter_u_is_refused_and_i_l_fold_to_one() {
    let key = RecoveryKey::from_bytes([0x00; RECOVERY_KEY_LEN]);
    let canonical = key.to_grouped_string();
    let with_u = format!("U{}", &canonical[1..]);
    assert!(matches!(
        RecoveryKey::parse(&with_u),
        Err(SchemaError::InvalidRecoveryKey("invalid character"))
    ));
    let ones = "1".repeat(52);
    let folded = "iL".repeat(26);
    assert_eq!(
        RecoveryKey::parse(&ones).unwrap().as_bytes(),
        RecoveryKey::parse(&folded).unwrap().as_bytes()
    );
    assert!(matches!(
        RecoveryKey::parse("ABCD"),
        Err(SchemaError::InvalidRecoveryKey("wrong length"))
    ));
}

#[test]
fn last_group_ends_in_zero_or_g() {
    let even = RecoveryKey::from_bytes([0xFE; RECOVERY_KEY_LEN]).groups();
    assert!(even[GROUP_COUNT - 1].ends_with('0'));
    let odd = RecoveryKey::from_bytes([0xFF; RECOVERY_KEY_LEN]).groups();
    assert!(odd[GROUP_COUNT - 1].ends_with('G'));
    for g in odd.iter().chain(even.iter()) {
        assert!(g.bytes().all(|c| ALPHABET.contains(&c)));
    }
}
