//! The storage layer's logic: the keyring of independently unwrappable
//! slots that hold the master key, the recovery-key codec, the
//! cryptographic primitives they rest on, the destination rows and the
//! paths walked over them, the stored records, and the storage errors.
pub mod crypto;
pub mod destinations;
pub mod error;
pub mod keyring;
pub mod records;
pub mod recovery;
