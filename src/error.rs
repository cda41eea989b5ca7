use vstd::prelude::*;

verus! {

/// The conditions the engine reports to its caller.
#[derive(Clone, Copy, Debug, PartialEq, Eq, Structural)]
pub enum GameError {
    /// A finite shoe has no card left; the session ends.
    EmptyShoe,
    /// A wager, or the debit that doubles one, exceeds the wallet.
    InsufficientFunds,
    /// A split was asked for on a hand that is not an unsplit pair.
    IneligibleSplit,
}

} // verus!
