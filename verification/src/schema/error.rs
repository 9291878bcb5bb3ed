//! Errors of the storage and encryption layer.
use vstd::prelude::*;
use vstd::string::StringExecFns;

use crate::text::{decimal, decimal_spec};

verus! {

/// Everything that can go wrong in the storage and encryption layer.
///
/// `WrongSecret` carries no detail about why an unwrap failed, so a wrong
/// passphrase cannot be told apart from a corrupt slot.
#[derive(Debug, Clone, PartialEq, Eq)]
pub enum SchemaError {
    /// The supplied passphrase or recovery key did not unwrap the slot.
    WrongSecret,
    /// The requested slot is not present in the keyring.
    NoSuchSlot(&'static str),
    /// A slot of this kind already exists; replace it rather than adding.
    SlotExists(&'static str),
    /// The recovery key string could not be parsed.
    InvalidRecoveryKey(&'static str),
    /// The keyring file is a version this build does not understand.
    UnsupportedKeyringVersion(u32),
    /// The database opened but could not be read with the supplied key.
    DatabaseLocked,
    /// Key derivation or key wrapping failed.
    Kdf(String),
    /// A database error, by its message.
    Sqlite(String),
    /// An I/O error, by its message.
    Io(String),
    /// A keyring serialization error, by its message.
    Serde(String),
}

impl SchemaError {
    /// The error as it reads to a user.
    pub open spec fn message_spec(&self) -> Seq<char> {
        match self {
            SchemaError::WrongSecret => "incorrect passphrase or recovery key"@,
            SchemaError::NoSuchSlot(kind) => "no "@ + kind@ + " keyslot present"@,
            SchemaError::SlotExists(kind) => "a "@ + kind@ + " keyslot already exists"@,
            SchemaError::InvalidRecoveryKey(why) => "invalid recovery key: "@ + why@,
            SchemaError::UnsupportedKeyringVersion(v) => "unsupported keyring format version "@
                + decimal_spec(*v as nat),
            SchemaError::DatabaseLocked => "database could not be decrypted with the supplied key"@,
            SchemaError::Kdf(m) => "key derivation failed: "@ + m@,
            SchemaError::Sqlite(m) => "database error: "@ + m@,
            SchemaError::Io(m) => "io error: "@ + m@,
            SchemaError::Serde(m) => "keyring serialization error: "@ + m@,
        }
    }

    /// The error as it reads to a user.
    pub fn message(&self) -> (s: String)
        ensures
            s@ == self.message_spec(),
    {
        let s = match self {
            SchemaError::WrongSecret => String::from_str("incorrect passphrase or recovery key"),
            SchemaError::NoSuchSlot(kind) => concat3("no ", kind, " keyslot present"),
            SchemaError::SlotExists(kind) => concat3("a ", kind, " keyslot already exists"),
            SchemaError::InvalidRecoveryKey(why) => concat3("invalid recovery key: ", why, ""),
            SchemaError::UnsupportedKeyringVersion(v) => {
                let d = decimal(*v as u128);
                concat3("unsupported keyring format version ", d.as_str(), "")
            },
            SchemaError::DatabaseLocked => String::from_str(
                "database could not be decrypted with the supplied key",
            ),
            SchemaError::Kdf(m) => concat3("key derivation failed: ", m.as_str(), ""),
            SchemaError::Sqlite(m) => concat3("database error: ", m.as_str(), ""),
            SchemaError::Io(m) => concat3("io error: ", m.as_str(), ""),
            SchemaError::Serde(m) => concat3("keyring serialization error: ", m.as_str(), ""),
        };
        proof {
            reveal_strlit("");
        }
        assert(s@ =~= self.message_spec());
        s
    }
}

/// `a`, `b` and `c` run together.
fn concat3(a: &str, b: &str, c: &str) -> (s: String)
    ensures
        s@ == a@ + b@ + c@,
{
    let mut s = String::from_str(a);
    s.append(b);
    s.append(c);
    s
}

} // verus!
