//! Blurt's capture, routing, recall and key-management logic.
//!
//! `router` turns raw capture text into a routing decision, `rag` chunks,
//! classifies and ranks text for retrieval and recall, `schema` holds the
//! key-wrapping keyring, the recovery-key codec and the stored rows, `app`
//! holds the command layer's decisions and the types that cross the
//! user-interface boundary, and `text` the character-level helpers they share.
use vstd::prelude::*;

pub mod app;
pub mod rag;
pub mod router;
pub mod schema;
pub mod text;

verus! {

} // verus!
