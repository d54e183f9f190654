use vstd::prelude::*;
use crate::ledger::{
    find_position, has_user, is_sorted, key_of, lemma_key_injective, lemma_lex_total,
    lemma_lex_transitive, lemma_sum_covers_entry, lemma_sum_insert, lemma_sum_update, lex_lt,
    locked, lower_bound, positions_valid, upper_bound, voting_power_sum, Position,
    PositionEntry,
};
use crate::msg::{
    BankSend, Coin, ConfigResponse, ContractError, Event, ExecuteMsg, InstantiateMsg,
    MessageInfo, PositionResponse, QueryMsg, QueryResponse, Response, Schedule, VEST_DENOM,
};
use crate::schedule::{compute_withdrawable, withdrawable_amounts};

verus! {

/// Largest page of positions returned by one enumeration.
pub const MAX_LIMIT: u32 = 30;

/// Page size of an enumeration that names none.
pub const DEFAULT_LIMIT: u32 = 10;

/// Everything the contract keeps between requests.
#[derive(Debug)]
pub struct Store {
    /// The current administrator
    pub owner: String,
    /// The proposed successor, between a proposal and its acceptance
    pub pending_owner: Option<String>,
    /// The unlocking schedule shared by all positions
    pub unlock_schedule: Schedule,
    /// The sum over all positions of what they still hold locked
    pub total_voting_power: u128,
    /// The positions, in strictly ascending order of recipient
    pub positions: Vec<PositionEntry>,
}

impl Store {
    /// The store's invariant: positions sorted by recipient (so each recipient has at most
    /// one), each with `0 < total` and `withdrawn <= total`, and the aggregate equal to the
    /// sum of what they hold locked.
    pub open spec fn wf(&self) -> bool {
        &&& is_sorted(self.positions@)
        &&& positions_valid(self.positions@)
        &&& self.total_voting_power == voting_power_sum(self.positions@)
    }

    /// Owner, pending owner and unlocking schedule are those of `other`.
    pub open spec fn same_config(&self, other: &Store) -> bool {
        &&& self.owner == other.owner
        &&& self.pending_owner == other.pending_owner
        &&& self.unlock_schedule == other.unlock_schedule
    }

    /// Positions and aggregate are those of `other`.
    pub open spec fn same_ledger(&self, other: &Store) -> bool {
        &&& self.positions@ == other.positions@
        &&& self.total_voting_power == other.total_voting_power
    }
}

/// The withdrawable amount of position `p` at `time` under unlocking schedule `unlock`.
pub open spec fn withdrawable_of(time: u64, p: Position, unlock: Schedule) -> nat {
    withdrawable_amounts(
        time as nat,
        p.total as nat,
        p.withdrawn as nat,
        p.vest_schedule,
        unlock,
    ).2
}

/// The projection of entry `e` that queries report at `time`.
pub open spec fn position_response(time: u64, e: PositionEntry, unlock: Schedule) -> PositionResponse {
    let a = withdrawable_amounts(
        time as nat,
        e.position.total as nat,
        e.position.withdrawn as nat,
        e.position.vest_schedule,
        unlock,
    );
    PositionResponse {
        user: e.user,
        total: e.position.total,
        vested: a.0 as u128,
        unlocked: a.1 as u128,
        withdrawn: e.position.withdrawn,
        withdrawable: a.2 as u128,
        vest_schedule: e.position.vest_schedule,
    }
}

/// Sets up a store with the given owner and unlocking schedule and no positions.
pub fn instantiate(msg: InstantiateMsg) -> (r: Store)
    ensures
        r.wf(),
        r.owner == msg.owner,
        r.pending_owner is None,
        r.unlock_schedule == msg.unlock_schedule,
        r.total_voting_power == 0,
        r.positions@.len() == 0,
{
    let r = Store {
        owner: msg.owner,
        pending_owner: None,
        unlock_schedule: msg.unlock_schedule,
        total_voting_power: 0,
        positions: Vec::new(),
    };
    assert(voting_power_sum(r.positions@) == 0);
    r
}

/// The error with which a request to create a position for `user` fails, if any, in the
/// order in which the conditions are checked.
pub open spec fn create_error(s: &Store, info: MessageInfo, user: Seq<char>) -> Option<
    ContractError,
> {
    if info.sender@ != s.owner@ {
        Some(ContractError::Unauthorized)
    } else if info.funds@.len() != 1 {
        Some(ContractError::WrongCoinCount)
    } else if info.funds@[0].denom@ != VEST_DENOM@ {
        Some(ContractError::WrongDenom)
    } else if info.funds@[0].amount == 0 {
        Some(ContractError::InvalidAmount)
    } else if has_user(s.positions@, user) {
        Some(ContractError::AlreadyExists)
    } else if s.total_voting_power + info.funds@[0].amount > u128::MAX {
        Some(ContractError::Overflow)
    } else {
        None
    }
}

/// What `create_position` does: from a valid store `pre` it ends in `post` with result `r`.
pub open spec fn creates_position(
    pre: &Store,
    post: &Store,
    info: MessageInfo,
    user: String,
    vest_schedule: Schedule,
    r: Result<Response, ContractError>,
) -> bool {
    &&& post.same_config(pre)
    &&& match create_error(pre, info, user@) {
        Some(e) => r == Err::<Response, ContractError>(e) && post.same_ledger(pre),
        None => {
            let total = info.funds@[0].amount;
            let entry = PositionEntry {
                user,
                position: Position { total, vest_schedule, withdrawn: 0 },
            };
            &&& r == Ok::<Response, ContractError>(
                Response {
                    payment: None,
                    event: Event::PositionCreated { user, total, vest_schedule },
                },
            )
            &&& exists|p: int|
                0 <= p <= pre.positions@.len() && post.positions@ == pre.positions@.insert(
                    p,
                    entry,
                )
            &&& post.total_voting_power == pre.total_voting_power + total
        },
    }
}

/// What `withdraw` does: from a valid store `pre` it ends in `post` with result `r`.
pub open spec fn withdraws(
    pre: &Store,
    post: &Store,
    time: u64,
    user: String,
    r: Result<Response, ContractError>,
) -> bool {
    &&& post.same_config(pre)
    &&& !has_user(pre.positions@, user@) ==> {
        &&& r == Err::<Response, ContractError>(ContractError::NotFound)
        &&& post.same_ledger(pre)
    }
    &&& forall|i: int|
        0 <= i < pre.positions@.len() && #[trigger] pre.positions@[i].user@ == user@ ==> {
            let e = pre.positions@[i];
            let w = withdrawable_of(time, e.position, pre.unlock_schedule);
            if w == 0 {
                &&& r == Err::<Response, ContractError>(ContractError::NothingToWithdraw)
                &&& post.same_ledger(pre)
            } else {
                &&& r == Ok::<Response, ContractError>(
                    Response {
                        payment: Some(BankSend { to_address: user, amount: w as u128 }),
                        event: Event::Withdrawn { user, timestamp: time, amount: w as u128 },
                    },
                )
                &&& post.positions@ == pre.positions@.update(
                    i,
                    PositionEntry {
                        user: e.user,
                        position: Position {
                            withdrawn: (e.position.withdrawn + w) as u128,
                            ..e.position
                        },
                    },
                )
                &&& post.total_voting_power == pre.total_voting_power - w
            }
        }
}

/// What `transfer_ownership` does: from a valid store `pre` it ends in `post` with result `r`.
pub open spec fn proposes_owner(
    pre: &Store,
    post: &Store,
    sender: String,
    new_owner: String,
    r: Result<Response, ContractError>,
) -> bool {
    &&& post.same_ledger(pre)
    &&& post.unlock_schedule == pre.unlock_schedule
    &&& post.owner == pre.owner
    &&& if sender@ != pre.owner@ {
        &&& r == Err::<Response, ContractError>(ContractError::Unauthorized)
        &&& post.pending_owner == pre.pending_owner
    } else {
        &&& r == Ok::<Response, ContractError>(
            Response {
                payment: None,
                event: Event::OwnershipTransferProposed {
                    current_owner: pre.owner,
                    pending_owner: new_owner,
                },
            },
        )
        &&& post.pending_owner == Some(new_owner)
    }
}

/// What `accept_ownership` does: from a valid store `pre` it ends in `post` with result `r`.
pub open spec fn accepts_owner(
    pre: &Store,
    post: &Store,
    sender: String,
    r: Result<Response, ContractError>,
) -> bool {
    &&& post.same_ledger(pre)
    &&& post.unlock_schedule == pre.unlock_schedule
    &&& match pre.pending_owner {
        None => {
            &&& r == Err::<Response, ContractError>(ContractError::NoPendingTransfer)
            &&& post.same_config(pre)
        },
        Some(pending) => if sender@ != pending@ {
            &&& r == Err::<Response, ContractError>(ContractError::Unauthorized)
            &&& post.same_config(pre)
        } else {
            &&& r == Ok::<Response, ContractError>(
                Response {
                    payment: None,
                    event: Event::OwnershipTransferCompleted {
                        previous_owner: pre.owner,
                        new_owner: pending,
                    },
                },
            )
            &&& post.owner == pending
            &&& post.pending_owner is None
        },
    }
}

/// The aggregate after `added` is locked and `released` is paid out, unless it would not fit.
fn update_total_voting_power(current: u128, added: u128, released: u128) -> (r: Option<u128>)
    requires
        released <= current,
    ensures
        match r {
            Some(v) => v == current + added - released,
            None => current - released + added > u128::MAX,
        },
        added == 0 ==> r is Some,
{
    let rest = current - released;
    if added > u128::MAX - rest {
        None
    } else {
        Some(rest + added)
    }
}

/// Creates a position of the coin sent with the request for `user`, under `vest_schedule`.
/// Only the owner may do so, with exactly one coin of the vesting denomination and a
/// positive amount, and only for a recipient without a position.
pub fn create_position(
    store: &mut Store,
    info: MessageInfo,
    user: String,
    vest_schedule: Schedule,
) -> (r: Result<Response, ContractError>)
    requires
        old(store).wf(),
    ensures
        final(store).wf(),
        creates_position(old(store), final(store), info, user, vest_schedule, r),
{
    if !(info.sender == store.owner) {
        return Err(ContractError::Unauthorized);
    }
    if info.funds.len() != 1 {
        return Err(ContractError::WrongCoinCount);
    }
    let coin: &Coin = &info.funds[0];
    let denom = VEST_DENOM.to_owned();
    proof {
        reveal_strlit("umars");
    }
    if !(coin.denom == denom) {
        return Err(ContractError::WrongDenom);
    }
    let total = coin.amount;
    if total == 0 {
        return Err(ContractError::InvalidAmount);
    }
    if find_position(&store.positions, &user).is_some() {
        return Err(ContractError::AlreadyExists);
    }
    let new_power = match update_total_voting_power(store.total_voting_power, total, 0) {
        Some(v) => v,
        None => return Err(ContractError::Overflow),
    };
    let p = lower_bound(&store.positions, user.as_str().as_bytes());
    let entry = PositionEntry {
        user: user.clone(),
        position: Position { total, vest_schedule, withdrawn: 0 },
    };
    proof {
        let s = store.positions@;
        let k = key_of(user@);
        assert forall|i: int| p <= i < s.len() implies lex_lt(k, #[trigger] key_of(s[i].user@)) by {
            if key_of(s[i].user@) == k {
                lemma_key_injective(s[i].user@, user@);
            }
            lemma_lex_total(key_of(s[i].user@), k);
        }
        let t = s.insert(p as int, entry);
        assert forall|i: int, j: int|
            0 <= i < j < t.len() implies lex_lt(
            #[trigger] key_of(t[i].user@),
            #[trigger] key_of(t[j].user@),
        ) by {
            if i < p && j == p {
            } else if i < p && j > p {
                assert(t[j] == s[j - 1]);
                lemma_lex_transitive(key_of(t[i].user@), k, key_of(t[j].user@));
            } else if i == p {
                assert(t[j] == s[j - 1]);
            } else if i > p {
                assert(t[i] == s[i - 1] && t[j] == s[j - 1]);
                assert(lex_lt(key_of(s[i - 1].user@), key_of(s[j - 1].user@)));
            } else {
                assert(t[i] == s[i] && t[j] == s[j]);
            }
        }
        lemma_sum_insert(s, p as int, entry);
    }
    store.positions.insert(p, entry);
    store.total_voting_power = new_power;
    Ok(
        Response {
            payment: None,
            event: Event::PositionCreated { user, total, vest_schedule },
        },
    )
}

/// Pays `user` what may be withdrawn of their position at `time`, and records it as withdrawn.
/// Fails when `user` has no position, or when nothing may be withdrawn now; a failure changes
/// nothing.
pub fn withdraw(store: &mut Store, time: u64, user: String) -> (r: Result<Response, ContractError>)
    requires
        old(store).wf(),
    ensures
        final(store).wf(),
        withdraws(old(store), final(store), time, user, r),
{
    let i = match find_position(&store.positions, &user) {
        Some(i) => i,
        None => return Err(ContractError::NotFound),
    };
    proof {
        assert forall|j: int|
            0 <= j < store.positions@.len() && #[trigger] store.positions@[j].user@
                == user@ implies j == i by {
            crate::ledger::lemma_sorted_unique(store.positions@, i as int, j);
        }
    }
    let position = store.positions[i].position;
    let (_, _, withdrawable) = compute_withdrawable(
        time,
        position.total,
        position.withdrawn,
        &position.vest_schedule,
        &store.unlock_schedule,
    );
    if withdrawable == 0 {
        return Err(ContractError::NothingToWithdraw);
    }
    proof {
        lemma_sum_covers_entry(store.positions@, i as int);
    }
    let new_power = update_total_voting_power(store.total_voting_power, 0, withdrawable).unwrap();
    let entry = PositionEntry {
        user: store.positions[i].user.clone(),
        position: Position { withdrawn: position.withdrawn + withdrawable, ..position },
    };
    proof {
        let s = store.positions@;
        let t = s.update(i as int, entry);
        assert forall|a: int, b: int|
            0 <= a < b < t.len() implies lex_lt(
            #[trigger] key_of(t[a].user@),
            #[trigger] key_of(t[b].user@),
        ) by {
            assert(t[a].user@ == s[a].user@ && t[b].user@ == s[b].user@);
        }
        lemma_sum_update(s, i as int, entry);
    }
    store.positions.set(i, entry);
    store.total_voting_power = new_power;
    let to_address = user.clone();
    Ok(
        Response {
            payment: Some(BankSend { to_address, amount: withdrawable }),
            event: Event::Withdrawn { user, timestamp: time, amount: withdrawable },
        },
    )
}

/// Proposes `new_owner` as the next owner; only the owner may do so, and a new proposal
/// replaces an earlier one.
pub fn transfer_ownership(store: &mut Store, sender: String, new_owner: String) -> (r: Result<
    Response,
    ContractError,
>)
    requires
        old(store).wf(),
    ensures
        final(store).wf(),
        proposes_owner(old(store), final(store), sender, new_owner, r),
{
    if !(sender == store.owner) {
        return Err(ContractError::Unauthorized);
    }
    let current_owner = store.owner.clone();
    let pending_owner = new_owner.clone();
    store.pending_owner = Some(new_owner);
    Ok(
        Response {
            payment: None,
            event: Event::OwnershipTransferProposed { current_owner, pending_owner },
        },
    )
}

/// Completes a proposed ownership transfer; only the proposed owner may do so.
pub fn accept_ownership(store: &mut Store, sender: String) -> (r: Result<Response, ContractError>)
    requires
        old(store).wf(),
    ensures
        final(store).wf(),
        accepts_owner(old(store), final(store), sender, r),
{
    let pending = match &store.pending_owner {
        Some(p) => p.clone(),
        None => return Err(ContractError::NoPendingTransfer),
    };
    if !(sender == pending) {
        return Err(ContractError::Unauthorized);
    }
    let new_owner = pending.clone();
    let previous_owner = store.owner.clone();
    store.owner = pending;
    store.pending_owner = None;
    Ok(
        Response {
            payment: None,
            event: Event::OwnershipTransferCompleted { previous_owner, new_owner },
        },
    )
}

/// The projection of `user`'s `position` at `time`, with its vested, unlocked and
/// withdrawable amounts.
pub fn compute_position_response(
    time: u64,
    user: String,
    position: &Position,
    unlock_schedule: &Schedule,
) -> (r: PositionResponse)
    ensures
        r == position_response(time, PositionEntry { user, position: *position }, *unlock_schedule),
{
    let (vested, unlocked, withdrawable) = compute_withdrawable(
        time,
        position.total,
        position.withdrawn,
        &position.vest_schedule,
        unlock_schedule,
    );
    PositionResponse {
        user,
        total: position.total,
        vested,
        unlocked,
        withdrawn: position.withdrawn,
        withdrawable,
        vest_schedule: position.vest_schedule,
    }
}

/// The owner, the pending owner if any, and the unlocking schedule.
pub fn query_config(store: &Store) -> (r: ConfigResponse)
    ensures
        r == (ConfigResponse {
            owner: store.owner,
            pending_owner: store.pending_owner,
            unlock_schedule: store.unlock_schedule,
        }),
{
    let pending_owner = match &store.pending_owner {
        Some(p) => Some(p.clone()),
        None => None,
    };
    ConfigResponse {
        owner: store.owner.clone(),
        pending_owner,
        unlock_schedule: store.unlock_schedule,
    }
}

/// The amount locked over all positions.
pub fn query_total_voting_power(store: &Store) -> (r: u128)
    requires
        store.wf(),
    ensures
        r == voting_power_sum(store.positions@),
{
    store.total_voting_power
}

/// The amount `user` still holds locked: zero when `user` has no position.
pub fn query_voting_power(store: &Store, user: &String) -> (r: u128)
    requires
        store.wf(),
    ensures
        !has_user(store.positions@, user@) ==> r == 0,
        forall|i: int|
            0 <= i < store.positions@.len() && #[trigger] store.positions@[i].user@ == user@ ==> r
                == locked(store.positions@[i].position),
{
    match find_position(&store.positions, user) {
        Some(i) => {
            proof {
                assert forall|j: int|
                    0 <= j < store.positions@.len() && #[trigger] store.positions@[j].user@
                        == user@ implies j == i by {
                    crate::ledger::lemma_sorted_unique(store.positions@, i as int, j);
                }
            }
            store.positions[i].position.total - store.positions[i].position.withdrawn
        },
        None => 0,
    }
}

/// `user`'s position as seen at `time`; fails when `user` has none.
pub fn query_position(store: &Store, time: u64, user: String) -> (r: Result<
    PositionResponse,
    ContractError,
>)
    requires
        store.wf(),
    ensures
        !has_user(store.positions@, user@) ==> r == Err::<PositionResponse, ContractError>(
            ContractError::NotFound,
        ),
        forall|i: int|
            0 <= i < store.positions@.len() && #[trigger] store.positions@[i].user@ == user@ ==> r
                == Ok::<PositionResponse, ContractError>(
                position_response(time, store.positions@[i], store.unlock_schedule),
            ),
{
    match find_position(&store.positions, &user) {
        Some(i) => {
            proof {
                assert forall|j: int|
                    0 <= j < store.positions@.len() && #[trigger] store.positions@[j].user@
                        == user@ implies j == i by {
                    crate::ledger::lemma_sorted_unique(store.positions@, i as int, j);
                }
            }
            let e = &store.positions[i];
            Ok(compute_position_response(time, e.user.clone(), &e.position, &store.unlock_schedule))
        },
        None => Err(ContractError::NotFound),
    }
}

/// The number of positions a page holds at most: the requested limit, or the default, capped
/// at the maximum.
pub open spec fn page_limit(limit: Option<u32>) -> nat {
    let l = match limit {
        Some(l) => l,
        None => DEFAULT_LIMIT,
    };
    if l < MAX_LIMIT {
        l as nat
    } else {
        MAX_LIMIT as nat
    }
}

/// `k` is where a page that starts after `cursor` begins in the sorted entries `s`: every
/// entry before `k` lies at or below the cursor and every entry from `k` on above it.
pub open spec fn is_cut(s: Seq<PositionEntry>, cursor: Option<Seq<char>>, k: int) -> bool {
    &&& 0 <= k <= s.len()
    &&& match cursor {
        None => k == 0,
        Some(c) => {
            &&& forall|i: int| 0 <= i < k ==> !lex_lt(key_of(c), #[trigger] key_of(s[i].user@))
            &&& forall|i: int| k <= i < s.len() ==> lex_lt(key_of(c), #[trigger] key_of(s[i].user@))
        },
    }
}

/// The cursor's recipient, if a cursor was given.
pub open spec fn cursor_of(start_after: Option<String>) -> Option<Seq<char>> {
    match start_after {
        Some(c) => Some(c@),
        None => None,
    }
}

/// The page of `s` that begins at `k` and holds at most `limit` entries, each projected at
/// `time`.
pub open spec fn page(
    s: Seq<PositionEntry>,
    k: int,
    limit: nat,
    time: u64,
    unlock: Schedule,
) -> Seq<PositionResponse> {
    let n = if limit <= s.len() - k {
        limit as int
    } else {
        s.len() - k
    };
    s.subrange(k, k + n).map_values(|e: PositionEntry| position_response(time, e, unlock))
}

/// The positions after `start_after` in ascending order of recipient, at most `limit` of them
/// (the default when none is given, never more than the maximum), as seen at `time`.
pub fn query_positions(
    store: &Store,
    time: u64,
    start_after: Option<String>,
    limit: Option<u32>,
) -> (r: Vec<PositionResponse>)
    requires
        store.wf(),
    ensures
        exists|k: int|
            is_cut(store.positions@, cursor_of(start_after), k) && r@ == page(
                store.positions@,
                k,
                page_limit(limit),
                time,
                store.unlock_schedule,
            ),
{
    let start: usize = match &start_after {
        Some(c) => upper_bound(&store.positions, c.as_str().as_bytes()),
        None => 0,
    };
    let requested = match limit {
        Some(l) => l,
        None => DEFAULT_LIMIT,
    };
    let cap = if requested < MAX_LIMIT {
        requested
    } else {
        MAX_LIMIT
    };
    let end: usize = if (cap as usize) <= store.positions.len() - start {
        start + cap as usize
    } else {
        store.positions.len()
    };
    let mut out: Vec<PositionResponse> = Vec::new();
    let mut i: usize = start;
    while i < end
        invariant
            start <= i <= end <= store.positions@.len(),
            out@ == store.positions@.subrange(start as int, i as int).map_values(
                |e: PositionEntry| position_response(time, e, store.unlock_schedule),
            ),
        decreases end - i,
    {
        let e = &store.positions[i];
        let resp = compute_position_response(
            time,
            e.user.clone(),
            &e.position,
            &store.unlock_schedule,
        );
        out.push(resp);
        assert(store.positions@.subrange(start as int, i + 1).map_values(
            |e: PositionEntry| position_response(time, e, store.unlock_schedule),
        ) =~= store.positions@.subrange(start as int, i as int).map_values(
            |e: PositionEntry| position_response(time, e, store.unlock_schedule),
        ).push(position_response(time, store.positions@[i as int], store.unlock_schedule)));
        i = i + 1;
    }
    proof {
        assert(is_cut(store.positions@, cursor_of(start_after), start as int));
        assert(out@ == page(
            store.positions@,
            start as int,
            page_limit(limit),
            time,
            store.unlock_schedule,
        ));
    }
    out
}

/// What `execute` does: from a valid store `pre` it ends in `post` with result `r`.
pub open spec fn executes(
    pre: &Store,
    post: &Store,
    time: u64,
    info: MessageInfo,
    msg: ExecuteMsg,
    r: Result<Response, ContractError>,
) -> bool {
    match msg {
        ExecuteMsg::CreatePosition { user, vest_schedule } => creates_position(
            pre,
            post,
            info,
            user,
            vest_schedule,
            r,
        ),
        ExecuteMsg::TransferOwnership { new_owner } => proposes_owner(
            pre,
            post,
            info.sender,
            new_owner,
            r,
        ),
        ExecuteMsg::AcceptOwnership {  } => accepts_owner(pre, post, info.sender, r),
        ExecuteMsg::Withdraw {  } => withdraws(pre, post, time, info.sender, r),
    }
}

/// Carries out a request sent by `info.sender` at `time`.
pub fn execute(store: &mut Store, time: u64, info: MessageInfo, msg: ExecuteMsg) -> (r: Result<
    Response,
    ContractError,
>)
    requires
        old(store).wf(),
    ensures
        final(store).wf(),
        executes(old(store), final(store), time, info, msg, r),
{
    match msg {
        ExecuteMsg::CreatePosition { user, vest_schedule } => create_position(
            store,
            info,
            user,
            vest_schedule,
        ),
        ExecuteMsg::TransferOwnership { new_owner } => transfer_ownership(
            store,
            info.sender,
            new_owner,
        ),
        ExecuteMsg::AcceptOwnership {  } => accept_ownership(store, info.sender),
        ExecuteMsg::Withdraw {  } => withdraw(store, time, info.sender),
    }
}

/// Answers a read-only request at `time`.
pub fn query(store: &Store, time: u64, msg: QueryMsg) -> (r: Result<QueryResponse, ContractError>)
    requires
        store.wf(),
    ensures
        match msg {
            QueryMsg::Config {  } => r == Ok::<QueryResponse, ContractError>(
                QueryResponse::Config(
                    ConfigResponse {
                        owner: store.owner,
                        pending_owner: store.pending_owner,
                        unlock_schedule: store.unlock_schedule,
                    },
                ),
            ),
            QueryMsg::TotalVotingPower {  } => r == Ok::<QueryResponse, ContractError>(
                QueryResponse::TotalVotingPower(voting_power_sum(store.positions@) as u128),
            ),
            QueryMsg::VotingPower { user } => {
                &&& !has_user(store.positions@, user@) ==> r == Ok::<QueryResponse, ContractError>(
                    QueryResponse::VotingPower(0),
                )
                &&& forall|i: int|
                    0 <= i < store.positions@.len() && #[trigger] store.positions@[i].user@
                        == user@ ==> r == Ok::<QueryResponse, ContractError>(
                        QueryResponse::VotingPower(locked(store.positions@[i].position) as u128),
                    )
            },
            QueryMsg::Position { user } => {
                &&& !has_user(store.positions@, user@) ==> r == Err::<
                    QueryResponse,
                    ContractError,
                >(ContractError::NotFound)
                &&& forall|i: int|
                    0 <= i < store.positions@.len() && #[trigger] store.positions@[i].user@
                        == user@ ==> r == Ok::<QueryResponse, ContractError>(
                        QueryResponse::Position(
                            position_response(time, store.positions@[i], store.unlock_schedule),
                        ),
                    )
            },
            QueryMsg::Positions { start_after, limit } => match r {
                Ok(QueryResponse::Positions(v)) => exists|k: int|
                    is_cut(store.positions@, cursor_of(start_after), k) && v@ == page(
                        store.positions@,
                        k,
                        page_limit(limit),
                        time,
                        store.unlock_schedule,
                    ),
                _ => false,
            },
        },
{
    match msg {
        QueryMsg::Config {  } => Ok(QueryResponse::Config(query_config(store))),
        QueryMsg::TotalVotingPower {  } => Ok(
            QueryResponse::TotalVotingPower(query_total_voting_power(store)),
        ),
        QueryMsg::VotingPower { user } => Ok(
            QueryResponse::VotingPower(query_voting_power(store, &user)),
        ),
        QueryMsg::Position { user } => match query_position(store, time, user) {
            Ok(p) => Ok(QueryResponse::Position(p)),
            Err(e) => Err(e),
        },
        QueryMsg::Positions { start_after, limit } => Ok(
            QueryResponse::Positions(query_positions(store, time, start_after, limit)),
        ),
    }
}

} // verus!
