use vstd::prelude::*;

verus! {

/// The 32 bytes that tell one account or contract from every other, most
/// significant half first.
#[derive(Copy, Clone, Debug, PartialEq, Eq, Structural)]
pub struct Key {
    pub high: u128,
    pub low: u128,
}

/// Who holds tokens or shares, or which contract issues them.
#[derive(Copy, Clone, Debug, PartialEq, Eq, Structural)]
pub enum Address {
    /// An account, by its public key.
    Account(Key),
    /// A contract, by its identifier.
    Contract(Key),
}

} // verus!
