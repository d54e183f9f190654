use vstd::prelude::*;
use crate::contract::{
    executes, is_cut, page, position_response, withdrawable_of, withdraws, Store,
};
use crate::ledger::{
    is_sorted, key_of, lemma_lex_irreflexive, lemma_sum_insert, lemma_sum_update, lex_lt,
    positions_valid, voting_power_sum, Position, PositionEntry,
};
use crate::msg::{ContractError, ExecuteMsg, MessageInfo, PositionResponse, Response, Schedule};
use crate::schedule::lemma_released_bounds;

verus! {

/// The ledger's accounting facts: every position has `0 < total` and `withdrawn <= total`,
/// and the aggregate equals the sum of what the positions hold locked.
pub open spec fn ledger_consistent(s: &Store) -> bool {
    &&& positions_valid(s.positions@)
    &&& s.total_voting_power == voting_power_sum(s.positions@)
}

/// What may be withdrawn never takes a position past its total.
pub proof fn lemma_withdrawable_within_total(time: u64, p: Position, unlock: Schedule)
    ensures
        p.withdrawn <= p.total ==> p.withdrawn + withdrawable_of(time, p, unlock) <= p.total,
{
    lemma_released_bounds(p.vest_schedule, p.total as nat, time as nat);
    lemma_released_bounds(unlock, p.total as nat, time as nat);
}

/// One request of any kind keeps the accounting facts: `withdrawn` stays within `total` for
/// every position, and the aggregate stays equal to the sum of `total - withdrawn`.
pub proof fn lemma_execute_keeps_ledger(
    pre: &Store,
    post: &Store,
    time: u64,
    info: MessageInfo,
    msg: ExecuteMsg,
    r: Result<Response, ContractError>,
)
    requires
        ledger_consistent(pre),
        executes(pre, post, time, info, msg, r),
    ensures
        ledger_consistent(post),
{
    match msg {
        ExecuteMsg::CreatePosition { user, vest_schedule } => {
            if crate::contract::create_error(pre, info, user@) is None {
                let total = info.funds@[0].amount;
                let entry = PositionEntry {
                    user,
                    position: Position { total, vest_schedule, withdrawn: 0 },
                };
                let p = choose|p: int|
                    0 <= p <= pre.positions@.len() && post.positions@ == pre.positions@.insert(
                        p,
                        entry,
                    );
                lemma_sum_insert(pre.positions@, p, entry);
                assert forall|i: int| 0 <= i < post.positions@.len() implies #[trigger] post.positions@[i].position.withdrawn
                    <= post.positions@[i].position.total && post.positions@[i].position.total
                    > 0 by {
                    if i > p {
                        assert(post.positions@[i] == pre.positions@[i - 1]);
                    } else if i < p {
                        assert(post.positions@[i] == pre.positions@[i]);
                    }
                }
            }
        },
        ExecuteMsg::Withdraw {  } => {
            let user = info.sender;
            if exists|i: int|
                0 <= i < pre.positions@.len() && #[trigger] pre.positions@[i].user@ == user@ {
                let i = choose|i: int|
                    0 <= i < pre.positions@.len() && #[trigger] pre.positions@[i].user@ == user@;
                let e = pre.positions@[i];
                let w = withdrawable_of(time, e.position, pre.unlock_schedule);
                if w != 0 {
                    lemma_withdrawable_within_total(time, e.position, pre.unlock_schedule);
                    let ne = PositionEntry {
                        user: e.user,
                        position: Position {
                            withdrawn: (e.position.withdrawn + w) as u128,
                            ..e.position
                        },
                    };
                    lemma_sum_update(pre.positions@, i, ne);
                    assert forall|j: int| 0 <= j < post.positions@.len() implies #[trigger] post.positions@[j].position.withdrawn
                        <= post.positions@[j].position.total && post.positions@[j].position.total
                        > 0 by {
                        if j != i {
                            assert(post.positions@[j] == pre.positions@[j]);
                        }
                    }
                }
            }
        },
        _ => {},
    }
}

/// Over any run of requests that starts from a consistent ledger, every store reached is
/// consistent: the aggregate is always the sum of `total - withdrawn` over all positions.
pub proof fn lemma_run_keeps_ledger(
    stores: Seq<Store>,
    times: Seq<u64>,
    infos: Seq<MessageInfo>,
    msgs: Seq<ExecuteMsg>,
    results: Seq<Result<Response, ContractError>>,
)
    requires
        stores.len() > 0,
        times.len() == stores.len() - 1,
        infos.len() == stores.len() - 1,
        msgs.len() == stores.len() - 1,
        results.len() == stores.len() - 1,
        ledger_consistent(&stores[0]),
        forall|n: int|
            0 <= n < stores.len() - 1 ==> executes(
                &#[trigger] stores[n],
                &stores[n + 1],
                times[n],
                infos[n],
                msgs[n],
                results[n],
            ),
    ensures
        forall|n: int| 0 <= n < stores.len() ==> ledger_consistent(&#[trigger] stores[n]),
    decreases stores.len(),
{
    if stores.len() > 1 {
        let m = stores.len() - 1;
        lemma_run_keeps_ledger(
            stores.take(m),
            times.take(m - 1),
            infos.take(m - 1),
            msgs.take(m - 1),
            results.take(m - 1),
        );
        assert(ledger_consistent(&stores.take(m)[m - 1]));
        lemma_execute_keeps_ledger(
            &stores[m - 1],
            &stores[m],
            times[m - 1],
            infos[m - 1],
            msgs[m - 1],
            results[m - 1],
        );
        assert forall|n: int| 0 <= n < stores.len() implies ledger_consistent(
            &#[trigger] stores[n],
        ) by {
            if n < m {
                assert(stores.take(m)[n] == stores[n]);
            }
        }
    }
}

/// A withdrawal when nothing may be withdrawn fails with `NothingToWithdraw` and leaves the
/// store as it was.
pub proof fn lemma_rejected_withdraw_changes_nothing(
    pre: &Store,
    post: &Store,
    time: u64,
    user: String,
    r: Result<Response, ContractError>,
    i: int,
)
    requires
        withdraws(pre, post, time, user, r),
        0 <= i < pre.positions@.len(),
        pre.positions@[i].user@ == user@,
        withdrawable_of(time, pre.positions@[i].position, pre.unlock_schedule) == 0,
    ensures
        r == Err::<Response, ContractError>(ContractError::NothingToWithdraw),
        post.owner == pre.owner,
        post.pending_owner == pre.pending_owner,
        post.unlock_schedule == pre.unlock_schedule,
        post.positions@ == pre.positions@,
        post.total_voting_power == pre.total_voting_power,
{
}

/// A successful withdrawal takes all there is: at the same time nothing more may be withdrawn
/// from that position, so a second withdrawal then is rejected.
pub proof fn lemma_withdraw_exhausts(
    pre: &Store,
    post: &Store,
    time: u64,
    user: String,
    r: Result<Response, ContractError>,
    i: int,
)
    requires
        withdraws(pre, post, time, user, r),
        0 <= i < pre.positions@.len(),
        pre.positions@[i].user@ == user@,
        r is Ok,
    ensures
        post.positions@.len() == pre.positions@.len(),
        post.positions@[i].user == pre.positions@[i].user,
        withdrawable_of(time, post.positions@[i].position, post.unlock_schedule) == 0,
{
    let e = pre.positions@[i];
    let w = withdrawable_of(time, e.position, pre.unlock_schedule);
    assert(w != 0);
    lemma_released_bounds(e.position.vest_schedule, e.position.total as nat, time as nat);
    assert(post.positions@[i].position.withdrawn == e.position.withdrawn + w);
}

/// The first page, asked for without a cursor, starts at the first entry.
pub proof fn lemma_first_page_starts_at_beginning(s: Seq<PositionEntry>)
    ensures
        is_cut(s, None, 0),
{
}

/// Pages resume without gap or repeat: after a non-empty page that began at `k` and held `n`
/// entries, the page asked for with its last recipient as cursor begins at `k + n`. Once the
/// cursor lies at or past the last entry, the page is empty.
pub proof fn lemma_page_resumes(
    s: Seq<PositionEntry>,
    cursor: Option<Seq<char>>,
    k: int,
    limit: nat,
    time: u64,
    unlock: Schedule,
)
    requires
        is_sorted(s),
        is_cut(s, cursor, k),
    ensures
        k == s.len() ==> page(s, k, limit, time, unlock).len() == 0,
        ({
            let n = page(s, k, limit, time, unlock).len() as int;
            n > 0 ==> n <= limit && is_cut(s, Some(s[k + n - 1].user@), k + n)
                && page(s, k, limit, time, unlock).last().user == s[k + n - 1].user
        }),
{
    let n = page(s, k, limit, time, unlock).len() as int;
    if n > 0 {
        let c = key_of(s[k + n - 1].user@);
        assert forall|i: int| 0 <= i < k + n implies !lex_lt(c, #[trigger] key_of(s[i].user@)) by {
            if i < k + n - 1 && lex_lt(c, key_of(s[i].user@)) {
                assert(lex_lt(key_of(s[i].user@), c));
                crate::ledger::lemma_lex_transitive(c, key_of(s[i].user@), c);
            }
            lemma_lex_irreflexive(c);
        }
    }
}

/// The concatenation of the pages met when each page's last recipient becomes the next cursor,
/// starting from the page that begins at `k`.
pub open spec fn all_pages(
    s: Seq<PositionEntry>,
    k: int,
    limit: nat,
    time: u64,
    unlock: Schedule,
) -> Seq<PositionResponse>
    decreases s.len() - k,
{
    if k < 0 || k >= s.len() || limit == 0 {
        Seq::empty()
    } else {
        let n = page(s, k, limit, time, unlock).len() as int;
        page(s, k, limit, time, unlock) + all_pages(s, k + n, limit, time, unlock)
    }
}

/// Walking the pages from the start, each time with the last recipient of a page as the next
/// cursor, yields every position exactly once, in ascending order of recipient.
pub proof fn lemma_pages_cover_all(
    s: Seq<PositionEntry>,
    k: int,
    limit: nat,
    time: u64,
    unlock: Schedule,
)
    requires
        0 <= k <= s.len(),
        limit > 0,
    ensures
        all_pages(s, k, limit, time, unlock) == s.skip(k).map_values(
            |e: PositionEntry| position_response(time, e, unlock),
        ),
    decreases s.len() - k,
{
    if k < s.len() {
        let n = page(s, k, limit, time, unlock).len() as int;
        lemma_pages_cover_all(s, k + n, limit, time, unlock);
        assert(all_pages(s, k, limit, time, unlock) =~= s.skip(k).map_values(
            |e: PositionEntry| position_response(time, e, unlock),
        ));
    } else {
        assert(s.skip(k).map_values(|e: PositionEntry| position_response(time, e, unlock))
            =~= Seq::<PositionResponse>::empty());
    }
}

} // verus!
