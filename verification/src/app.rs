//! The command layer's logic: the types that cross the user-interface
//! boundary, the command errors, id parsing, the decisions behind the
//! capture, destination, classify, search, ask and vault commands, and the
//! schedule of the background indexing worker.
pub mod capture;
pub mod destinations;
pub mod dto;
pub mod error;
pub mod ids;
pub mod indexer;
pub mod search;
pub mod state;
pub mod vault;
