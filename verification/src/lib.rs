//! A governance ledger for a tokenized company structure.
//!
//! The crate tracks company identity, a shareholder registry with delegable
//! voting power, and weighted polls with tie-break resolution. Records live in
//! explicit store objects that each operation receives, so every state
//! transition is a verified function from the old store to the new one.

pub mod engine;
pub mod errors;
pub mod ids;
pub mod poll;
pub mod registry;
