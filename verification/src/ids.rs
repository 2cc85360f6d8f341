use vstd::prelude::*;

verus! {

/// An opaque principal reference: an account or wallet address in the hosting
/// environment, carried as four 64-bit limbs so that a 32-byte address maps
/// to it exactly, distinct addresses to distinct values. The ledger never
/// inspects an identity; it only compares identities for equality and uses
/// them as record keys.
#[derive(Clone, Copy, Debug, PartialEq, Eq, Structural)]
pub struct AccountId(pub u64, pub u64, pub u64, pub u64);

} // verus!
