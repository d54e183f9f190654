use vstd::prelude::*;
use vstd::utf8::encode_utf8;
use crate::msg::Schedule;

verus! {

/// One recipient's allocation.
#[derive(Clone, Copy, Debug, PartialEq, Eq, Structural)]
pub struct Position {
    /// Total amount allocated to the recipient
    pub total: u128,
    /// The recipient's vesting schedule
    pub vest_schedule: Schedule,
    /// Amount already withdrawn
    pub withdrawn: u128,
}

/// A position together with the recipient that holds it.
#[derive(Clone, Debug, PartialEq, Eq)]
pub struct PositionEntry {
    pub user: String,
    pub position: Position,
}

/// Strict lexicographic order on byte strings, the order of `str`'s `Ord`.
pub open spec fn lex_lt(a: Seq<u8>, b: Seq<u8>) -> bool
    decreases a.len(),
{
    if b.len() == 0 {
        false
    } else if a.len() == 0 {
        true
    } else if a[0] != b[0] {
        a[0] < b[0]
    } else {
        lex_lt(a.drop_first(), b.drop_first())
    }
}

/// The key by which positions are ordered: the recipient's UTF-8 bytes.
pub open spec fn key_of(user: Seq<char>) -> Seq<u8> {
    encode_utf8(user)
}

/// Entries in strictly ascending order of recipient.
pub open spec fn is_sorted(s: Seq<PositionEntry>) -> bool {
    forall|i: int, j: int|
        0 <= i < j < s.len() ==> lex_lt(#[trigger] key_of(s[i].user@), #[trigger] key_of(s[j].user@))
}

/// Every position holds a positive total of which at most all has been withdrawn.
pub open spec fn positions_valid(s: Seq<PositionEntry>) -> bool {
    forall|i: int|
        0 <= i < s.len() ==> #[trigger] s[i].position.withdrawn <= s[i].position.total
            && s[i].position.total > 0
}

/// What a position still holds locked: its total less what was withdrawn.
pub open spec fn locked(p: Position) -> int {
    p.total - p.withdrawn
}

/// The sum of the locked amounts of all entries.
pub open spec fn voting_power_sum(s: Seq<PositionEntry>) -> int
    decreases s.len(),
{
    if s.len() == 0 {
        0
    } else {
        voting_power_sum(s.drop_last()) + locked(s.last().position)
    }
}

/// There is an entry for `user`.
pub open spec fn has_user(s: Seq<PositionEntry>, user: Seq<char>) -> bool {
    exists|i: int| 0 <= i < s.len() && #[trigger] s[i].user@ == user
}

pub proof fn lemma_lex_irreflexive(a: Seq<u8>)
    ensures
        !lex_lt(a, a),
    decreases a.len(),
{
    if a.len() > 0 {
        lemma_lex_irreflexive(a.drop_first());
    }
}

pub proof fn lemma_lex_transitive(a: Seq<u8>, b: Seq<u8>, c: Seq<u8>)
    requires
        lex_lt(a, b),
        lex_lt(b, c),
    ensures
        lex_lt(a, c),
    decreases a.len(),
{
    if a.len() > 0 && a[0] == b[0] && b[0] == c[0] {
        lemma_lex_transitive(a.drop_first(), b.drop_first(), c.drop_first());
    }
}

pub proof fn lemma_lex_total(a: Seq<u8>, b: Seq<u8>)
    requires
        a != b,
    ensures
        lex_lt(a, b) || lex_lt(b, a),
    decreases a.len(),
{
    if a.len() > 0 && b.len() > 0 && a[0] == b[0] {
        if a.drop_first() == b.drop_first() {
            assert(a =~= seq![a[0]] + a.drop_first());
            assert(b =~= seq![b[0]] + b.drop_first());
        }
        lemma_lex_total(a.drop_first(), b.drop_first());
    } else if a.len() == 0 && b.len() == 0 {
        assert(a =~= b);
    }
}

proof fn lemma_lex_asymmetric(a: Seq<u8>, b: Seq<u8>)
    requires
        lex_lt(a, b),
    ensures
        !lex_lt(b, a),
{
    if lex_lt(b, a) {
        lemma_lex_transitive(a, b, a);
        lemma_lex_irreflexive(a);
    }
}

/// Two recipients with the same key are the same recipient.
pub proof fn lemma_key_injective(u: Seq<char>, v: Seq<char>)
    requires
        key_of(u) == key_of(v),
    ensures
        u == v,
{
    vstd::utf8::encode_utf8_decode_utf8(u);
    vstd::utf8::encode_utf8_decode_utf8(v);
}

/// In a sorted sequence no recipient appears twice.
pub proof fn lemma_sorted_unique(s: Seq<PositionEntry>, i: int, j: int)
    requires
        is_sorted(s),
        0 <= i < s.len(),
        0 <= j < s.len(),
        s[i].user@ == s[j].user@,
    ensures
        i == j,
{
    if i < j {
        assert(lex_lt(key_of(s[i].user@), key_of(s[j].user@)));
        lemma_lex_irreflexive(key_of(s[i].user@));
    } else if j < i {
        assert(lex_lt(key_of(s[j].user@), key_of(s[i].user@)));
        lemma_lex_irreflexive(key_of(s[i].user@));
    }
}

proof fn lemma_sum_single(e: PositionEntry)
    ensures
        voting_power_sum(seq![e]) == locked(e.position),
{
    assert(seq![e].drop_last() =~= Seq::<PositionEntry>::empty());
    assert(voting_power_sum(Seq::<PositionEntry>::empty()) == 0);
    assert(seq![e].last() == e);
}

proof fn lemma_sum_concat(a: Seq<PositionEntry>, b: Seq<PositionEntry>)
    ensures
        voting_power_sum(a + b) == voting_power_sum(a) + voting_power_sum(b),
    decreases b.len(),
{
    if b.len() > 0 {
        assert((a + b).drop_last() =~= a + b.drop_last());
        lemma_sum_concat(a, b.drop_last());
    } else {
        assert(a + b =~= a);
    }
}

/// The sum of locked amounts grows by exactly the locked amount of an inserted entry.
pub proof fn lemma_sum_insert(s: Seq<PositionEntry>, p: int, e: PositionEntry)
    requires
        0 <= p <= s.len(),
    ensures
        voting_power_sum(s.insert(p, e)) == voting_power_sum(s) + locked(e.position),
{
    assert(s.insert(p, e) =~= s.take(p) + seq![e] + s.skip(p));
    assert(s =~= s.take(p) + s.skip(p));
    lemma_sum_concat(s.take(p) + seq![e], s.skip(p));
    lemma_sum_concat(s.take(p), seq![e]);
    lemma_sum_concat(s.take(p), s.skip(p));
    lemma_sum_single(e);
}

/// Replacing an entry changes the sum by the difference of the two locked amounts.
pub proof fn lemma_sum_update(s: Seq<PositionEntry>, i: int, e: PositionEntry)
    requires
        0 <= i < s.len(),
    ensures
        voting_power_sum(s.update(i, e)) == voting_power_sum(s) - locked(s[i].position) + locked(
            e.position,
        ),
{
    assert(s.update(i, e) =~= s.take(i) + seq![e] + s.skip(i + 1));
    assert(s =~= s.take(i) + seq![s[i]] + s.skip(i + 1));
    lemma_sum_concat(s.take(i) + seq![e], s.skip(i + 1));
    lemma_sum_concat(s.take(i), seq![e]);
    lemma_sum_concat(s.take(i) + seq![s[i]], s.skip(i + 1));
    lemma_sum_concat(s.take(i), seq![s[i]]);
    lemma_sum_single(e);
    lemma_sum_single(s[i]);
}

/// With valid positions the sum is at least the locked amount of any one of them.
pub proof fn lemma_sum_covers_entry(s: Seq<PositionEntry>, i: int)
    requires
        positions_valid(s),
        0 <= i < s.len(),
    ensures
        0 <= locked(s[i].position) <= voting_power_sum(s),
    decreases s.len(),
{
    lemma_sum_nonneg(s.drop_last());
    if i < s.len() - 1 {
        lemma_sum_covers_entry(s.drop_last(), i);
    }
}

proof fn lemma_sum_nonneg(s: Seq<PositionEntry>)
    requires
        positions_valid(s),
    ensures
        voting_power_sum(s) >= 0,
    decreases s.len(),
{
    if s.len() > 0 {
        lemma_sum_nonneg(s.drop_last());
    }
}

/// Compares two byte strings in lexicographic order.
pub fn bytes_lt(a: &[u8], b: &[u8]) -> (r: bool)
    ensures
        r == lex_lt(a@, b@),
{
    let mut i: usize = 0;
    assert(a@.skip(0) =~= a@);
    assert(b@.skip(0) =~= b@);
    while i < a.len() && i < b.len()
        invariant
            i <= a@.len(),
            i <= b@.len(),
            lex_lt(a@, b@) == lex_lt(a@.skip(i as int), b@.skip(i as int)),
        decreases a.len() - i,
    {
        if a[i] != b[i] {
            return a[i] < b[i];
        }
        assert(a@.skip(i as int).drop_first() =~= a@.skip(i + 1));
        assert(b@.skip(i as int).drop_first() =~= b@.skip(i + 1));
        i = i + 1;
    }
    i < b.len()
}

/// Finds the entry of `user`.
pub fn find_position(entries: &Vec<PositionEntry>, user: &String) -> (r: Option<usize>)
    ensures
        match r {
            Some(i) => i < entries@.len() && entries@[i as int].user@ == user@,
            None => !has_user(entries@, user@),
        },
{
    let mut i: usize = 0;
    while i < entries.len()
        invariant
            i <= entries@.len(),
            forall|j: int| 0 <= j < i ==> entries@[j].user@ != user@,
        decreases entries.len() - i,
    {
        if entries[i].user == *user {
            return Some(i);
        }
        i = i + 1;
    }
    None
}

/// The index of the first entry whose key is not below `key`: the place where a recipient
/// of that key belongs.
pub fn lower_bound(entries: &Vec<PositionEntry>, key: &[u8]) -> (p: usize)
    requires
        is_sorted(entries@),
    ensures
        p <= entries@.len(),
        forall|i: int| 0 <= i < p ==> lex_lt(#[trigger] key_of(entries@[i].user@), key@),
        forall|i: int| p <= i < entries@.len() ==> !lex_lt(#[trigger] key_of(entries@[i].user@), key@),
{
    let mut i: usize = 0;
    while i < entries.len()
        invariant
            i <= entries@.len(),
            is_sorted(entries@),
            forall|j: int| 0 <= j < i ==> lex_lt(#[trigger] key_of(entries@[j].user@), key@),
        decreases entries.len() - i,
    {
        if !bytes_lt(entries[i].user.as_str().as_bytes(), key) {
            assert forall|j: int| i <= j < entries@.len() implies !lex_lt(
                #[trigger] key_of(entries@[j].user@),
                key@,
            ) by {
                if j > i && lex_lt(key_of(entries@[j].user@), key@) {
                    lemma_lex_transitive(
                        key_of(entries@[i as int].user@),
                        key_of(entries@[j].user@),
                        key@,
                    );
                }
            }
            return i;
        }
        i = i + 1;
    }
    i
}

/// The index of the first entry whose key lies strictly above `key`.
pub fn upper_bound(entries: &Vec<PositionEntry>, key: &[u8]) -> (p: usize)
    requires
        is_sorted(entries@),
    ensures
        p <= entries@.len(),
        forall|i: int| 0 <= i < p ==> !lex_lt(key@, #[trigger] key_of(entries@[i].user@)),
        forall|i: int| p <= i < entries@.len() ==> lex_lt(key@, #[trigger] key_of(entries@[i].user@)),
{
    let mut i: usize = 0;
    while i < entries.len()
        invariant
            i <= entries@.len(),
            is_sorted(entries@),
            forall|j: int| 0 <= j < i ==> !lex_lt(key@, #[trigger] key_of(entries@[j].user@)),
        decreases entries.len() - i,
    {
        if bytes_lt(key, entries[i].user.as_str().as_bytes()) {
            assert forall|j: int| i <= j < entries@.len() implies lex_lt(
                key@,
                #[trigger] key_of(entries@[j].user@),
            ) by {
                if j > i {
                    lemma_lex_transitive(
                        key@,
                        key_of(entries@[i as int].user@),
                        key_of(entries@[j].user@),
                    );
                }
            }
            return i;
        }
        i = i + 1;
    }
    i
}

} // verus!
