use vstd::prelude::*;
use crate::msg::Schedule;

verus! {

/// The amount of `total` that `s` has released at `time`.
pub open spec fn released(s: Schedule, total: nat, time: nat) -> nat {
    if time < s.start_time + s.cliff {
        0
    } else if time >= s.start_time + s.duration {
        total
    } else {
        total * ((time - s.start_time) as nat) / (s.duration as nat)
    }
}

/// Evaluates schedule `s` on an allocation of `total` at time `time`.
pub fn evaluate(s: &Schedule, total: u128, time: u64) -> (r: u128)
    ensures
        r == released(*s, total as nat, time as nat),
{
    let start = s.start_time as u128;
    let t = time as u128;
    if t < start + s.cliff as u128 {
        0
    } else if t >= start + s.duration as u128 {
        total
    } else {
        let d = s.duration as u128;
        let e = t - start;
        let q = total / d;
        let rem = total % d;
        proof {
            lemma_split_ratio(total as nat, e as nat, d as nat);
            assert(d * d <= 0xffff_ffff_ffff_ffffu128 * 0xffff_ffff_ffff_ffffu128) by (nonlinear_arith)
                requires
                    d <= 0xffff_ffff_ffff_ffffu128,
            ;
        }
        q * e + rem * e / d
    }
}

/// `total * e / d`, split so that no intermediate exceeds `total` or `d * d`.
proof fn lemma_split_ratio(total: nat, e: nat, d: nat)
    requires
        0 < d,
        e < d,
    ensures
        total * e / d == (total / d) * e + (total % d) * e / d,
        (total / d) * e + (total % d) * e / d <= total,
        (total % d) * e < d * d,
{
    let q = total / d;
    let r = total % d;
    vstd::arithmetic::div_mod::lemma_fundamental_div_mod(total as int, d as int);
    assert(total * e == d * (q * e) + r * e) by (nonlinear_arith)
        requires
            total == d * q + r,
    ;
    vstd::arithmetic::div_mod::lemma_hoist_over_denominator((r * e) as int, (q * e) as int, d);
    assert((q * e) * d == d * (q * e)) by (nonlinear_arith);
    assert(r * e < d * d) by (nonlinear_arith)
        requires
            r < d,
            e < d,
    ;
    assert(r * e <= r * d) by (nonlinear_arith)
        requires
            e < d,
    ;
    vstd::arithmetic::div_mod::lemma_div_is_ordered((r * e) as int, (r * d) as int, d as int);
    vstd::arithmetic::div_mod::lemma_div_multiples_vanish(r as int, d as int);
    assert(q * e + r <= total) by (nonlinear_arith)
        requires
            total == d * q + r,
            e < d,
    ;
}

/// The linear share of `total` at elapsed time `e < d` never exceeds `total`.
proof fn lemma_linear_le_total(total: nat, e: nat, d: nat)
    requires
        e < d,
    ensures
        total * e / d <= total,
{
    assert(total * e <= total * d) by (nonlinear_arith)
        requires
            e < d,
    ;
    vstd::arithmetic::div_mod::lemma_div_is_ordered((total * e) as int, (total * d) as int, d as int);
    vstd::arithmetic::div_mod::lemma_div_multiples_vanish(total as int, d as int);
    assert(d * total == total * d) by (nonlinear_arith);
}

/// Before the cliff nothing is released, from `start_time + duration` on everything is, and
/// the released amount lies between zero and `total`.
pub proof fn lemma_released_bounds(s: Schedule, total: nat, time: nat)
    ensures
        released(s, total, time) <= total,
        time < s.start_time + s.cliff ==> released(s, total, time) == 0,
        time >= s.start_time + s.cliff && time >= s.start_time + s.duration ==> released(
            s,
            total,
            time,
        ) == total,
{
    if time >= s.start_time + s.cliff && time < s.start_time + s.duration {
        lemma_linear_le_total(total, (time - s.start_time) as nat, s.duration as nat);
    }
}

/// The released amount never decreases as time goes on.
pub proof fn lemma_released_monotonic(s: Schedule, total: nat, t1: nat, t2: nat)
    requires
        t1 <= t2,
    ensures
        released(s, total, t1) <= released(s, total, t2),
{
    lemma_released_bounds(s, total, t1);
    lemma_released_bounds(s, total, t2);
    if t1 >= s.start_time + s.cliff && t1 < s.start_time + s.duration && t2 < s.start_time
        + s.duration {
        let e1 = (t1 - s.start_time) as nat;
        let e2 = (t2 - s.start_time) as nat;
        assert(total * e1 <= total * e2) by (nonlinear_arith)
            requires
                e1 <= e2,
        ;
        vstd::arithmetic::div_mod::lemma_div_is_ordered(
            (total * e1) as int,
            (total * e2) as int,
            s.duration as int,
        );
    }
}

/// A schedule of zero duration divides by nothing: it releases all of `total` from the end
/// of its cliff on (from `start_time` on when it has no cliff), and nothing before.
pub proof fn lemma_zero_duration(s: Schedule, total: nat, time: nat)
    requires
        s.duration == 0,
    ensures
        released(s, total, time) == if time >= s.start_time + s.cliff {
            total
        } else {
            0
        },
        s.cliff == 0 ==> (released(s, total, time) == total <==> time >= s.start_time || total
            == 0),
{
}

/// The three amounts of a position at a given time: vested, unlocked, and what may be
/// withdrawn now, i.e. the smaller of the first two less what was withdrawn, never below zero.
pub open spec fn withdrawable_amounts(
    time: nat,
    total: nat,
    withdrawn: nat,
    vest_schedule: Schedule,
    unlock_schedule: Schedule,
) -> (nat, nat, nat) {
    let vested = released(vest_schedule, total, time);
    let unlocked = released(unlock_schedule, total, time);
    let cap = if vested <= unlocked {
        vested
    } else {
        unlocked
    };
    (vested, unlocked, if cap >= withdrawn {
        (cap - withdrawn) as nat
    } else {
        0
    })
}

/// Computes the vested, unlocked and withdrawable amounts of a position at `time`.
pub fn compute_withdrawable(
    time: u64,
    total: u128,
    withdrawn: u128,
    vest_schedule: &Schedule,
    unlock_schedule: &Schedule,
) -> (r: (u128, u128, u128))
    ensures
        (r.0 as nat, r.1 as nat, r.2 as nat) == withdrawable_amounts(
            time as nat,
            total as nat,
            withdrawn as nat,
            *vest_schedule,
            *unlock_schedule,
        ),
        r.2 as nat + withdrawn as nat <= total || withdrawn > total,
{
    let vested = evaluate(vest_schedule, total, time);
    let unlocked = evaluate(unlock_schedule, total, time);
    proof {
        lemma_released_bounds(*vest_schedule, total as nat, time as nat);
    }
    let cap = if vested <= unlocked {
        vested
    } else {
        unlocked
    };
    let withdrawable = if cap >= withdrawn {
        cap - withdrawn
    } else {
        0
    };
    (vested, unlocked, withdrawable)
}

} // verus!
