//! `@` parsing and destination routing: decides, never writes.
pub mod candidates;
pub mod chain;
pub mod error;
pub mod nl;
pub mod resolve;
pub mod voice;
