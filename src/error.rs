use vstd::prelude::*;

verus! {

/// Why an operation on the contract was refused. A refused operation changes nothing.
#[derive(Clone, Copy, Debug, PartialEq, Eq, Structural)]
pub enum ArkanaError {
    /// The caller is neither the owner nor an allowed membership contract, as the operation asks.
    Unauthorized,
    /// No account or reward goes by the given identifier.
    NotFound,
    /// The account is registered already.
    AlreadyRegistered,
    /// The reward has a winner already.
    AlreadyFinalized,
    /// The balance does not cover the debit.
    InsufficientPoints,
    /// A cooldown runs; the value is the wait left, in whole seconds.
    CooldownActive(u64),
    /// The reward no longer sells tickets.
    RewardEnded,
    /// The reward is still selling tickets.
    RewardNotEnded,
    /// The reward sold no ticket, so no winner can be drawn.
    NoTicketsSold,
    /// A balance, a ticket count or the reward counter would pass `u64::MAX`.
    Overflow,
}

} // verus!
