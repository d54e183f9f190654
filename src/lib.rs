//! Time-locked token allocations: each recipient's position vests on its own schedule and
//! unlocks on a schedule shared by all; recipients withdraw what is both vested and unlocked,
//! and a two-step owner handover guards who may create positions.

pub mod msg;
pub mod contract;
pub mod ledger;
pub mod lemmas;
pub mod schedule;
