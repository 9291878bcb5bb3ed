use blurt::router::error::RouterError;
use blurt::schema::error::SchemaError;

#[test]
fn a_storage_error_reads_as_a_storage_error() {
    let err = RouterError::from(SchemaError::Sqlite("disk I/O error".to_string()));
    assert_eq!(err, RouterError::Schema(SchemaError::Sqlite("disk I/O error".to_string())));
    assert_eq!(err.message(), "storage error: database error: disk I/O error");
}

#[test]
fn schema_error_messages_name_the_slot_and_version() {
    assert_eq!(SchemaError::NoSuchSlot("sensitive").message(), "no sensitive keyslot present");
    assert_eq!(SchemaError::SlotExists("passphrase").message(), "a passphrase keyslot already exists");
    assert_eq!(
        SchemaError::UnsupportedKeyringVersion(42).message(),
        "unsupported keyring format version 42"
    );
    assert_eq!(SchemaError::WrongSecret.message(), "incorrect passphrase or recovery key");
}
