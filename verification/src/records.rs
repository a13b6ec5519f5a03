//! Plain records of the registries that keep their data beside the vault:
//! escrow, missions, badges, reapers, the token and the treasury.

use vstd::prelude::*;

verus! {

/// Where an escrow stands between locking the funds and paying them out.
#[derive(Clone, Copy, Debug, PartialEq, Eq, Structural)]
pub enum EscrowStatus {
    Locked,
    Released,
    Disputed,
    Refunded,
}

/// How often a voter sided with the final outcome, and what that earned.
#[derive(Clone, Copy, Debug, PartialEq, Eq, Structural)]
pub struct VoterAccuracy {
    pub correct_votes: u32,
    pub total_votes: u32,
    pub rewards_earned: i128,
}

/// Life cycle of a mission.
#[derive(Clone, Copy, Debug, PartialEq, Eq, Structural)]
pub enum MissionStatus {
    Active,
    InProgress,
    Review,
    Sealed,
    Failed,
    Expired,
}

/// Mission counts by outcome.
#[derive(Clone, Copy, Debug, PartialEq, Eq, Structural)]
pub struct MissionCounter {
    pub total: u32,
    pub active: u32,
    pub sealed: u32,
    pub failed: u32,
}

/// Supply figures of the token.
#[derive(Clone, Copy, Debug, PartialEq, Eq, Structural)]
pub struct TokenInfo {
    pub total_supply: i128,
    pub holders: u32,
    pub total_staked: i128,
}

/// Rank of a badge, by the number of badges its holder already has.
#[derive(Clone, Copy, Debug, PartialEq, Eq, Structural)]
pub enum BadgeTier {
    Bronze,
    Silver,
    Gold,
    Bankai,
}

/// Whether a registered reaper may act.
#[derive(Clone, Copy, Debug, PartialEq, Eq, Structural)]
pub enum ReaperStatus {
    Active,
    Suspended,
}

/// One step in a reaper's power history.
#[derive(Clone, Copy, Debug, PartialEq, Eq, Structural)]
pub struct PowerChange {
    pub old_power: u32,
    pub new_power: u32,
    pub timestamp: u64,
}

/// Kind of a treasury movement.
#[derive(Clone, Copy, Debug, PartialEq, Eq, Structural)]
pub enum TxType {
    Deposit,
    Withdrawal,
    Allocation,
}

} // verus!
