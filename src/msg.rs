use vstd::prelude::*;

verus! {

/// A linear release curve: nothing before `start_time + cliff`, everything from
/// `start_time + duration` on, and a share proportional to the elapsed time in between.
#[derive(Clone, Copy, Debug, PartialEq, Eq, Structural)]
pub struct Schedule {
    /// Time when vesting/unlocking starts
    pub start_time: u64,
    /// Time before which no token is vested/unlocked
    pub cliff: u64,
    /// Duration of the vesting/unlocking process; at `start_time + duration` the tokens are
    /// released in full
    pub duration: u64,
}

/// Denomination of the token to be vested
pub const VEST_DENOM: &'static str = "umars";

/// An amount of one denomination.
#[derive(Clone, Debug, PartialEq, Eq)]
pub struct Coin {
    pub denom: String,
    pub amount: u128,
}

/// Who sends a request, and the funds that come with it.
#[derive(Clone, Debug, PartialEq, Eq)]
pub struct MessageInfo {
    pub sender: String,
    pub funds: Vec<Coin>,
}

#[derive(Clone, Debug, PartialEq, Eq)]
pub struct InstantiateMsg {
    /// The contract's owner
    pub owner: String,
    /// Schedule for token unlocking; this schedule is the same for all users
    pub unlock_schedule: Schedule,
}

#[derive(Clone, Debug, PartialEq, Eq)]
pub enum ExecuteMsg {
    /// Create a new vesting position for a user
    CreatePosition { user: String, vest_schedule: Schedule },
    /// Propose to transfer the contract's ownership to another account
    TransferOwnership { new_owner: String },
    /// Accept the proposed ownership transfer
    AcceptOwnership {},
    /// Withdraw vested and unlocked tokens
    Withdraw {},
}

#[derive(Clone, Debug, PartialEq, Eq)]
pub enum QueryMsg {
    /// The contract's configuration; answered with `ConfigResponse`
    Config {},
    /// Amount of tokens currently locked in the contract
    TotalVotingPower {},
    /// Amount of tokens of one recipient currently locked in the contract
    VotingPower { user: String },
    /// Details of a recipient's vesting position; answered with `PositionResponse`
    Position { user: String },
    /// Enumerate the vesting positions in ascending order of recipient
    Positions { start_after: Option<String>, limit: Option<u32> },
}

#[derive(Clone, Debug, PartialEq, Eq)]
pub struct ConfigResponse {
    /// The contract's owner
    pub owner: String,
    /// If there is an ongoing transfer of ownership, address of the pending owner
    pub pending_owner: Option<String>,
    /// Schedule for token unlocking; this schedule is the same for all users
    pub unlock_schedule: Schedule,
}

#[derive(Clone, Debug, PartialEq, Eq)]
pub struct PositionResponse {
    /// Address of the user
    pub user: String,
    /// Total amount of tokens allocated to this recipient
    pub total: u128,
    /// Amount of tokens that have been vested, according to the vesting schedule
    pub vested: u128,
    /// Amount of tokens that have been unlocked, according to the unlocking schedule
    pub unlocked: u128,
    /// Amount of tokens that have already been withdrawn
    pub withdrawn: u128,
    /// Amount of tokens that can be withdrawn now: the smaller of vested and unlocked, less
    /// what was already withdrawn
    pub withdrawable: u128,
    /// This vesting position's vesting schedule
    pub vest_schedule: Schedule,
}

/// The answer to a query.
#[derive(Clone, Debug, PartialEq, Eq)]
pub enum QueryResponse {
    Config(ConfigResponse),
    TotalVotingPower(u128),
    VotingPower(u128),
    Position(PositionResponse),
    Positions(Vec<PositionResponse>),
}

/// A record of what a successful operation did.
#[derive(Clone, Debug, PartialEq, Eq)]
pub enum Event {
    PositionCreated { user: String, total: u128, vest_schedule: Schedule },
    Withdrawn { user: String, timestamp: u64, amount: u128 },
    OwnershipTransferProposed { current_owner: String, pending_owner: String },
    OwnershipTransferCompleted { previous_owner: String, new_owner: String },
}

/// An instruction to pay `amount` of the vesting denomination to `to_address`.
#[derive(Clone, Debug, PartialEq, Eq)]
pub struct BankSend {
    pub to_address: String,
    pub amount: u128,
}

/// What a successful operation hands back: its record, and a payment where one is due.
#[derive(Clone, Debug, PartialEq, Eq)]
pub struct Response {
    pub payment: Option<BankSend>,
    pub event: Event,
}

/// Why a request failed.
#[derive(Clone, Copy, Debug, PartialEq, Eq, Structural)]
pub enum ContractError {
    /// The caller is not the owner, or not the pending owner
    Unauthorized,
    /// A position must come with exactly one coin
    WrongCoinCount,
    /// The coin sent is not of the vesting denomination
    WrongDenom,
    /// The amount of a new position is zero
    InvalidAmount,
    /// The recipient already has a position
    AlreadyExists,
    /// The recipient has no position
    NotFound,
    /// Nothing can be withdrawn now
    NothingToWithdraw,
    /// No ownership transfer has been proposed
    NoPendingTransfer,
    /// The total locked amount would exceed the largest representable amount
    Overflow,
}

} // verus!
