use vstd::prelude::*;

verus! {

/// A token movement that the host must carry out on behalf of a contract.
#[derive(Clone, Copy, Debug, PartialEq, Eq, Structural)]
pub enum TokenTransfer {
    /// `amount` of `token` moves from account `from` into the contract.
    In { token: u64, from: u64, amount: i128 },
    /// `amount` of `token` moves from the contract to account `to`.
    Out { token: u64, to: u64, amount: i128 },
}

} // verus!
