//! Vote tally engine: a pure computation over a snapshot of players that
//! produces the day's elimination ranking.
//!
//! Only votes cast by currently-alive players and targeting currently-alive
//! players count. Votes are grouped by target, targets with no votes are
//! omitted, and the ranking is ordered by descending vote count with ties
//! broken by ascending target id.

use vstd::prelude::*;
use vstd::multiset::Multiset;
use vstd::relations::{sorted_by, total_ordering};
use vstd::seq_lib::*;
use crate::state::{distinct_ids, Player};

verus! {

/// One line of a tally: a target and the number of votes it received.
#[derive(Clone, Copy, Debug, PartialEq, Eq, Structural)]
pub struct TallyEntry {
    pub target: u64,
    pub votes: u64,
}

/// `a` comes no later than `b` in a ranking: more votes first, ties broken
/// by ascending target id.
pub open spec fn tally_le(a: TallyEntry, b: TallyEntry) -> bool {
    a.votes > b.votes || (a.votes == b.votes && a.target <= b.target)
}

/// The ranking order as a relation value, for use with `sorted_by`.
pub open spec fn tally_order() -> spec_fn(TallyEntry, TallyEntry) -> bool {
    |a: TallyEntry, b: TallyEntry| tally_le(a, b)
}

/// The ranking order is a total order.
pub proof fn lemma_tally_order_total()
    ensures
        total_ordering(tally_order()),
{
    let leq = tally_order();
    assert forall|a: TallyEntry, b: TallyEntry| #[trigger] leq(a, b) && leq(b, a) implies a
        == b by {
        assert(a.votes == b.votes && a.target == b.target);
    }
}

/// Whether this player's vote counts toward the given target: the voter is
/// alive and currently targets exactly that player.
pub open spec fn counts_vote_for(p: Player, target: u64) -> bool {
    p.is_alive && p.votes_for == Some(target)
}

/// The vote predicate for one target, as a function value.
pub open spec fn vote_pred(target: u64) -> spec_fn(Player) -> bool {
    |p: Player| counts_vote_for(p, target)
}

/// The players whose votes count toward the given target.
pub open spec fn votes_for_target(ps: Seq<Player>, target: u64) -> Seq<Player> {
    ps.filter(vote_pred(target))
}

/// Number of (distinct, alive) voters currently targeting `target`.
pub open spec fn vote_count(ps: Seq<Player>, target: u64) -> nat {
    votes_for_target(ps, target).len()
}

/// Whether some alive player has the given user id.
pub open spec fn is_alive_target(ps: Seq<Player>, target: u64) -> bool {
    exists|i: int| 0 <= i < ps.len() && ps[i].is_alive && ps[i].user_id == target
}

/// A ranking entry is correct for the snapshot: its target is an alive
/// player that received at least one counted vote, and the recorded count
/// is exact.
pub open spec fn entry_ok(ps: Seq<Player>, e: TallyEntry) -> bool {
    &&& is_alive_target(ps, e.target)
    &&& e.votes == vote_count(ps, e.target)
    &&& e.votes > 0
}

/// Whether some entry of the ranking names the given target.
pub open spec fn has_target(r: Seq<TallyEntry>, target: u64) -> bool {
    exists|i: int| 0 <= i < r.len() && r[i].target == target
}

/// Every alive target with at least one counted vote appears in the ranking.
pub open spec fn ranking_complete(ps: Seq<Player>, r: Seq<TallyEntry>) -> bool {
    forall|t: u64|
        is_alive_target(ps, t) && vote_count(ps, t) > 0 ==> #[trigger] has_target(r, t)
}

/// No target appears twice in the ranking.
pub open spec fn distinct_targets(r: Seq<TallyEntry>) -> bool {
    forall|i: int, j: int| 0 <= i < j < r.len() ==> r[i].target != r[j].target
}

/// `r` is the vote tally of the snapshot `ps`: correct entries, complete,
/// duplicate-free, and sorted by descending count with ascending-id ties.
/// For a given snapshot there is exactly one such sequence
/// (see `lemma_ranking_unique`).
pub open spec fn is_ranking(ps: Seq<Player>, r: Seq<TallyEntry>) -> bool {
    &&& forall|i: int| 0 <= i < r.len() ==> entry_ok(ps, #[trigger] r[i])
    &&& ranking_complete(ps, r)
    &&& distinct_targets(r)
    &&& sorted_by(r, tally_order())
}

/// Appending a player extends the counted voters for a target by that
/// player exactly when their vote counts toward it.
pub proof fn lemma_votes_push(ps: Seq<Player>, p: Player, target: u64)
    ensures
        votes_for_target(ps.push(p), target) == if counts_vote_for(p, target) {
            votes_for_target(ps, target).push(p)
        } else {
            votes_for_target(ps, target)
        },
{
    reveal(Seq::filter);
    assert(ps.push(p).drop_last() =~= ps);
    assert(ps.push(p).last() == p);
}

/// Count the votes currently standing against one target.
pub fn count_votes(players: &Vec<Player>, target: u64) -> (c: u64)
    ensures
        c == vote_count(players@, target),
{
    let n = players.len();
    let mut c: usize = 0;
    let mut i: usize = 0;
    while i < n
        invariant
            n == players@.len(),
            i <= n,
            c <= i,
            c == vote_count(players@.take(i as int), target),
        decreases n - i,
    {
        let p = players[i];
        proof {
            assert(players@.take(i as int).push(players@[i as int]) =~= players@.take(
                i + 1 as int,
            ));
            lemma_votes_push(players@.take(i as int), players@[i as int], target);
        }
        if p.is_alive {
            if let Some(t) = p.votes_for {
                if t == target {
                    c = c + 1;
                }
            }
        }
        i = i + 1;
    }
    proof {
        assert(players@.take(n as int) =~= players@);
    }
    c as u64
}

/// Some player among the first `bound` is alive and carries the given id.
spec fn alive_id_in_prefix(ps: Seq<Player>, bound: int, t: u64) -> bool {
    exists|j: int| 0 <= j < bound && ps[j].is_alive && ps[j].user_id == t
}

/// One correct, complete, duplicate-free entry list for the snapshot, in
/// player-list order (not yet sorted).
fn collect_entries(players: &Vec<Player>) -> (out: Vec<TallyEntry>)
    requires
        distinct_ids(players@),
    ensures
        forall|k: int| 0 <= k < out@.len() ==> entry_ok(players@, #[trigger] out@[k]),
        ranking_complete(players@, out@),
        distinct_targets(out@),
{
    let ghost ps = players@;
    let n = players.len();
    let mut out: Vec<TallyEntry> = Vec::new();
    let mut i: usize = 0;
    while i < n
        invariant
            distinct_ids(ps),
            ps == players@,
            n == ps.len(),
            i <= n,
            forall|k: int| 0 <= k < out@.len() ==> entry_ok(ps, #[trigger] out@[k]),
            forall|k: int|
                0 <= k < out@.len() ==> alive_id_in_prefix(ps, i as int, #[trigger] out@[k].target),
            forall|j: int|
                0 <= j < i && ps[j].is_alive && vote_count(ps, ps[j].user_id) > 0
                    ==> has_target(out@, #[trigger] ps[j].user_id),
            distinct_targets(out@),
        decreases n - i,
    {
        let p = players[i];
        let ghost old_out = out@;
        if p.is_alive {
            let c = count_votes(players, p.user_id);
            if c > 0 {
                proof {
                    assert forall|k: int| 0 <= k < old_out.len() implies old_out[k].target != p
                        .user_id by {
                        let j = choose|j: int|
                            0 <= j < i && ps[j].is_alive && ps[j].user_id == old_out[k].target;
                        assert(ps[j].user_id != ps[i as int].user_id);
                    }
                }
                out.push(TallyEntry { target: p.user_id, votes: c });
            }
        }
        proof {
            assert forall|k: int| 0 <= k < out@.len() implies alive_id_in_prefix(
                ps,
                i + 1 as int,
                #[trigger] out@[k].target,
            ) by {
                if k < old_out.len() {
                    let j = choose|j: int|
                        0 <= j < i && ps[j].is_alive && ps[j].user_id == old_out[k].target;
                    assert(0 <= j < i + 1 && ps[j].is_alive && ps[j].user_id == out@[k].target);
                } else {
                    assert(0 <= i < i + 1 && ps[i as int].is_alive && ps[i as int].user_id
                        == out@[k].target);
                }
            }
            assert forall|j: int|
                0 <= j < i + 1 && ps[j].is_alive && vote_count(ps, ps[j].user_id)
                    > 0 implies has_target(out@, #[trigger] ps[j].user_id) by {
                if j < i {
                    let k = choose|k: int|
                        0 <= k < old_out.len() && old_out[k].target == ps[j].user_id;
                    assert(out@[k].target == ps[j].user_id);
                } else {
                    assert(out@[out@.len() - 1].target == ps[j].user_id);
                }
            }
        }
        i = i + 1;
    }
    proof {
        assert forall|t: u64|
            is_alive_target(ps, t) && vote_count(ps, t) > 0 implies #[trigger] has_target(
            out@,
            t,
        ) by {
            let j = choose|j: int| 0 <= j < ps.len() && ps[j].is_alive && ps[j].user_id == t;
            assert(has_target(out@, ps[j].user_id));
        }
    }
    out
}

/// Run-time comparison matching the ranking order.
fn entry_le(a: &TallyEntry, b: &TallyEntry) -> (r: bool)
    ensures
        r == tally_le(*a, *b),
{
    a.votes > b.votes || (a.votes == b.votes && a.target <= b.target)
}

/// Sort entries into the ranking order. The result holds exactly the given
/// entries.
fn sort_entries(input: Vec<TallyEntry>) -> (out: Vec<TallyEntry>)
    ensures
        out@.to_multiset() == input@.to_multiset(),
        sorted_by(out@, tally_order()),
{
    broadcast use vstd::seq_lib::group_to_multiset_ensures;
    broadcast use vstd::multiset::group_multiset_axioms;

    let ghost full = input@.to_multiset();
    let mut rem = input;
    let mut out: Vec<TallyEntry> = Vec::new();
    while rem.len() > 0
        invariant
            out@.to_multiset().add(rem@.to_multiset()) == full,
            sorted_by(out@, tally_order()),
            forall|x: int, y: int|
                0 <= x < out@.len() && 0 <= y < rem@.len() ==> tally_le(out@[x], rem@[y]),
        decreases rem.len(),
    {
        // Find the entry that comes first under the ranking order.
        let mut m: usize = 0;
        let mut k: usize = 1;
        while k < rem.len()
            invariant
                rem@.len() > 0,
                m < k <= rem@.len(),
                forall|j: int| 0 <= j < k ==> tally_le(rem@[m as int], #[trigger] rem@[j]),
            decreases rem@.len() - k,
        {
            if !entry_le(&rem[m], &rem[k]) {
                proof {
                    assert forall|j: int| 0 <= j < k + 1 implies tally_le(
                        rem@[k as int],
                        #[trigger] rem@[j],
                    ) by {
                        assert(tally_le(rem@[k as int], rem@[m as int]));
                        assert(tally_le(rem@[m as int], rem@[j]) || j == k);
                    }
                }
                m = k;
            }
            k = k + 1;
        }
        let ghost old_rem = rem@;
        let ghost old_out = out@;
        let e = rem.remove(m);
        out.push(e);
        proof {
            let leq = tally_order();
            old_out.to_multiset_ensures();
            old_rem.to_multiset_ensures();
            assert(old_rem[m as int] == e);
            assert(out@ == old_out.push(e));
            assert(rem@ == old_rem.remove(m as int));
            assert(out@.to_multiset() == old_out.to_multiset().insert(e));
            assert(rem@.to_multiset() == old_rem.to_multiset().remove(e));
            assert(old_rem.contains(e));
            assert(old_rem.to_multiset().count(e) > 0);
            assert(out@.to_multiset().add(rem@.to_multiset()) =~= full);
            assert forall|x: int, y: int|
                0 <= x < out@.len() && 0 <= y < rem@.len() implies tally_le(
                out@[x],
                rem@[y],
            ) by {
                let oy: int = if y < m { y } else { y + 1 };
                assert(rem@[y] == old_rem[oy]);
                if x < old_out.len() {
                    assert(tally_le(old_out[x], old_rem[oy]));
                } else {
                    assert(out@[x] == e);
                    assert(tally_le(old_rem[m as int], old_rem[oy]));
                }
            }
            assert forall|x: int, y: int| 0 <= x < y < out@.len() implies #[trigger] leq(
                out@[x],
                out@[y],
            ) by {
                if y < out@.len() - 1 {
                    assert(leq(old_out[x], old_out[y]));
                    assert(out@[x] == old_out[x] && out@[y] == old_out[y]);
                } else {
                    assert(out@[y] == e);
                    if x < old_out.len() {
                        assert(tally_le(old_out[x], old_rem[m as int]));
                    } else {
                        assert(out@[x] == e);
                    }
                }
            }
            assert(sorted_by(out@, tally_order()));
        }
    }
    proof {
        rem@.to_multiset_ensures();
        assert(rem@.to_multiset().len() == 0);
        assert(rem@.to_multiset() =~= Multiset::<TallyEntry>::empty());
        assert(out@.to_multiset() =~= full);
    }
    out
}

/// Two correct entries for the same snapshot and the same target are equal:
/// the vote count is a function of the target.
proof fn lemma_entry_determined(ps: Seq<Player>, a: TallyEntry, b: TallyEntry)
    requires
        entry_ok(ps, a),
        entry_ok(ps, b),
        a.target == b.target,
    ensures
        a == b,
{
}

/// A correct entry list with distinct targets has no duplicate entries.
proof fn lemma_entries_no_duplicates(ps: Seq<Player>, r: Seq<TallyEntry>)
    requires
        forall|i: int| 0 <= i < r.len() ==> entry_ok(ps, #[trigger] r[i]),
        distinct_targets(r),
    ensures
        r.no_duplicates(),
{
    assert forall|i: int, j: int|
        0 <= i < r.len() && 0 <= j < r.len() && i != j implies r[i] != r[j] by {
        if i < j {
            assert(r[i].target != r[j].target);
        } else {
            assert(r[j].target != r[i].target);
        }
    }
}

/// Correctness, completeness and target-distinctness carry over to any
/// reordering of an entry list.
proof fn lemma_entry_props_transfer(ps: Seq<Player>, a: Seq<TallyEntry>, b: Seq<TallyEntry>)
    requires
        a.to_multiset() == b.to_multiset(),
        forall|i: int| 0 <= i < a.len() ==> entry_ok(ps, #[trigger] a[i]),
        ranking_complete(ps, a),
        distinct_targets(a),
    ensures
        forall|i: int| 0 <= i < b.len() ==> entry_ok(ps, #[trigger] b[i]),
        ranking_complete(ps, b),
        distinct_targets(b),
{
    a.to_multiset_ensures();
    b.to_multiset_ensures();
    assert forall|i: int| 0 <= i < b.len() implies entry_ok(ps, #[trigger] b[i]) by {
        assert(b.contains(b[i]));
        assert(a.to_multiset().count(b[i]) > 0);
        assert(a.contains(b[i]));
        let k = choose|k: int| 0 <= k < a.len() && a[k] == b[i];
        assert(entry_ok(ps, a[k]));
    }
    assert forall|t: u64|
        is_alive_target(ps, t) && vote_count(ps, t) > 0 implies #[trigger] has_target(
        b,
        t,
    ) by {
        assert(has_target(a, t));
        let k = choose|k: int| 0 <= k < a.len() && a[k].target == t;
        assert(a.contains(a[k]));
        assert(b.to_multiset().count(a[k]) > 0);
        assert(b.contains(a[k]));
        let j = choose|j: int| 0 <= j < b.len() && b[j] == a[k];
        assert(b[j].target == t);
    }
    lemma_entries_no_duplicates(ps, a);
    a.lemma_multiset_has_no_duplicates();
    b.lemma_multiset_has_no_duplicates_conv();
    assert forall|i: int, j: int| 0 <= i < j < b.len() implies b[i].target != b[j].target by {
        if b[i].target == b[j].target {
            lemma_entry_determined(ps, b[i], b[j]);
        }
    }
}

/// Compute the day's elimination ranking for a snapshot of the players.
///
/// The result lists every alive player that received at least one vote from
/// an alive player, paired with that exact vote count, ordered by descending
/// count with ties broken by ascending target id, and nothing else.
pub fn vote_tally(players: &Vec<Player>) -> (r: Vec<TallyEntry>)
    requires
        distinct_ids(players@),
    ensures
        is_ranking(players@, r@),
{
    let entries = collect_entries(players);
    let ghost unsorted = entries@;
    let r = sort_entries(entries);
    proof {
        lemma_entry_props_transfer(players@, unsorted, r@);
    }
    r
}

/// The ranking of a snapshot is unique: any two sequences satisfying
/// `is_ranking` for the same players are equal. In particular the tally is
/// deterministic and independent of how it was computed.
pub proof fn lemma_ranking_unique(ps: Seq<Player>, r1: Seq<TallyEntry>, r2: Seq<TallyEntry>)
    requires
        is_ranking(ps, r1),
        is_ranking(ps, r2),
    ensures
        r1 == r2,
{
    broadcast use vstd::multiset::group_multiset_axioms;

    r1.to_multiset_ensures();
    r2.to_multiset_ensures();
    lemma_entries_no_duplicates(ps, r1);
    lemma_entries_no_duplicates(ps, r2);
    r1.lemma_multiset_has_no_duplicates();
    r2.lemma_multiset_has_no_duplicates();
    assert forall|x: TallyEntry| r1.contains(x) implies r2.contains(x) by {
        let i = choose|i: int| 0 <= i < r1.len() && r1[i] == x;
        assert(entry_ok(ps, x));
        assert(has_target(r2, x.target));
        let j = choose|j: int| 0 <= j < r2.len() && r2[j].target == x.target;
        lemma_entry_determined(ps, x, r2[j]);
    }
    assert forall|x: TallyEntry| r2.contains(x) implies r1.contains(x) by {
        let i = choose|i: int| 0 <= i < r2.len() && r2[i] == x;
        assert(entry_ok(ps, x));
        assert(has_target(r1, x.target));
        let j = choose|j: int| 0 <= j < r1.len() && r1[j].target == x.target;
        lemma_entry_determined(ps, x, r1[j]);
    }
    assert(r1.to_multiset() =~= r2.to_multiset()) by {
        assert forall|x: TallyEntry|
            r1.to_multiset().count(x) == r2.to_multiset().count(x) by {
            if r1.contains(x) {
                assert(r2.contains(x));
                assert(r1.to_multiset().count(x) == 1 && r2.to_multiset().count(x) == 1);
            } else {
                assert(!r2.contains(x));
                assert(!(r1.to_multiset().count(x) > 0) && !(r2.to_multiset().count(x) > 0));
            }
        }
    }
    lemma_tally_order_total();
    lemma_sorted_unique(r1, r2, tally_order());
}

/// Removing one player removes exactly their contribution to a filter.
proof fn lemma_filter_len_remove(s: Seq<Player>, j: int, pred: spec_fn(Player) -> bool)
    requires
        0 <= j < s.len(),
    ensures
        s.remove(j).filter(pred).len() + (if pred(s[j]) {
            1int
        } else {
            0
        }) == s.filter(pred).len(),
{
    reveal(Seq::filter);
    let a = s.subrange(0, j);
    let mid = s.subrange(j, j + 1);
    let b = s.subrange(j + 1, s.len() as int);
    assert(s =~= (a + mid) + b);
    assert(s.remove(j) =~= a + b);
    Seq::filter_distributes_over_add(a + mid, b, pred);
    Seq::filter_distributes_over_add(a, mid, pred);
    Seq::filter_distributes_over_add(a, b, pred);
    assert(mid.drop_last() =~= Seq::<Player>::empty());
    assert(Seq::<Player>::empty().filter(pred) =~= Seq::<Player>::empty());
    assert(mid.last() == s[j]);
    assert(mid.filter(pred).len() == (if pred(s[j]) {
        1int
    } else {
        0
    }));
}

/// Sequences holding the same players in any order filter to the same
/// number of elements.
proof fn lemma_filter_len_multiset(s1: Seq<Player>, s2: Seq<Player>, pred: spec_fn(Player) -> bool)
    requires
        s1.to_multiset() == s2.to_multiset(),
    ensures
        s1.filter(pred).len() == s2.filter(pred).len(),
    decreases s1.len(),
{
    broadcast use vstd::multiset::group_multiset_axioms;

    s1.to_multiset_ensures();
    s2.to_multiset_ensures();
    if s1.len() == 0 {
        assert(s2.len() == 0);
        reveal(Seq::filter);
    } else {
        let x = s1.last();
        let s1d = s1.drop_last();
        s1d.to_multiset_ensures();
        assert(s1d.push(x) =~= s1);
        assert(s1.contains(x));
        assert(s2.to_multiset().count(x) > 0);
        assert(s2.contains(x));
        let j = choose|j: int| 0 <= j < s2.len() && s2[j] == x;
        let s2r = s2.remove(j);
        assert(s2r.to_multiset() == s2.to_multiset().remove(x));
        assert(s1d.to_multiset() == s1.to_multiset().remove(x)) by {
            assert(s1d.push(x).to_multiset() == s1d.to_multiset().insert(x));
            assert(s1d.to_multiset().insert(x).remove(x) =~= s1d.to_multiset());
        }
        lemma_filter_len_multiset(s1d, s2r, pred);
        lemma_filter_len_remove(s2, j, pred);
        reveal(Seq::filter);
        assert(s1.drop_last() == s1d && s1.last() == x);
        assert(s1.filter(pred).len() == s1d.filter(pred).len() + (if pred(x) {
            1int
        } else {
            0
        }));
    }
}

/// Vote counts and the set of alive targets depend only on which players
/// are in the snapshot, not on their order.
proof fn lemma_counts_order_independent(ps1: Seq<Player>, ps2: Seq<Player>)
    requires
        ps1.to_multiset() == ps2.to_multiset(),
    ensures
        forall|t: u64| #[trigger] vote_count(ps1, t) == vote_count(ps2, t),
        forall|t: u64| #[trigger] is_alive_target(ps1, t) == is_alive_target(ps2, t),
{
    ps1.to_multiset_ensures();
    ps2.to_multiset_ensures();
    assert forall|t: u64| #[trigger] vote_count(ps1, t) == vote_count(ps2, t) by {
        lemma_filter_len_multiset(ps1, ps2, vote_pred(t));
    }
    assert forall|t: u64| #[trigger] is_alive_target(ps1, t) == is_alive_target(ps2, t) by {
        if is_alive_target(ps1, t) {
            let i = choose|i: int| 0 <= i < ps1.len() && ps1[i].is_alive && ps1[i].user_id == t;
            assert(ps1.contains(ps1[i]));
            assert(ps2.to_multiset().count(ps1[i]) > 0);
            assert(ps2.contains(ps1[i]));
            let j = choose|j: int| 0 <= j < ps2.len() && ps2[j] == ps1[i];
            assert(ps2[j].is_alive && ps2[j].user_id == t);
        }
        if is_alive_target(ps2, t) {
            let i = choose|i: int| 0 <= i < ps2.len() && ps2[i].is_alive && ps2[i].user_id == t;
            assert(ps2.contains(ps2[i]));
            assert(ps1.to_multiset().count(ps2[i]) > 0);
            assert(ps1.contains(ps2[i]));
            let j = choose|j: int| 0 <= j < ps1.len() && ps1[j] == ps2[i];
            assert(ps1[j].is_alive && ps1[j].user_id == t);
        }
    }
}

/// The tally is invariant to the order in which players (and hence their
/// votes) were recorded: a ranking for one ordering is a ranking for every
/// reordering of the same players.
pub proof fn lemma_tally_order_independent(
    ps1: Seq<Player>,
    ps2: Seq<Player>,
    r: Seq<TallyEntry>,
)
    requires
        ps1.to_multiset() == ps2.to_multiset(),
        is_ranking(ps1, r),
    ensures
        is_ranking(ps2, r),
{
    lemma_counts_order_independent(ps1, ps2);
    assert forall|i: int| 0 <= i < r.len() implies entry_ok(ps2, #[trigger] r[i]) by {
        assert(entry_ok(ps1, r[i]));
        assert(vote_count(ps1, r[i].target) == vote_count(ps2, r[i].target));
        assert(is_alive_target(ps1, r[i].target) == is_alive_target(ps2, r[i].target));
    }
    assert forall|t: u64|
        is_alive_target(ps2, t) && vote_count(ps2, t) > 0 implies #[trigger] has_target(
        r,
        t,
    ) by {
        assert(vote_count(ps1, t) == vote_count(ps2, t));
        assert(is_alive_target(ps1, t) == is_alive_target(ps2, t));
    }
}

/// Changing the vote of a dead player never changes the ranking: votes
/// cast by dead players are excluded from the tally.
pub proof fn lemma_tally_ignores_dead_votes(
    ps: Seq<Player>,
    i: int,
    w: Option<u64>,
    r: Seq<TallyEntry>,
)
    requires
        0 <= i < ps.len(),
        !ps[i].is_alive,
        is_ranking(ps, r),
    ensures
        is_ranking(ps.update(i, Player { votes_for: w, ..ps[i] }), r),
{
    let q = Player { votes_for: w, ..ps[i] };
    let ps2 = ps.update(i, q);
    assert forall|t: u64| #[trigger] vote_count(ps2, t) == vote_count(ps, t) by {
        lemma_filter_len_remove(ps, i, vote_pred(t));
        lemma_filter_len_remove(ps2, i, vote_pred(t));
        assert(ps2.remove(i) =~= ps.remove(i));
        assert(!vote_pred(t)(ps[i]) && !vote_pred(t)(ps2[i]));
    }
    assert forall|t: u64| #[trigger] is_alive_target(ps2, t) == is_alive_target(ps, t) by {
        if is_alive_target(ps, t) {
            let k = choose|k: int| 0 <= k < ps.len() && ps[k].is_alive && ps[k].user_id == t;
            assert(ps2[k].is_alive && ps2[k].user_id == t);
        }
        if is_alive_target(ps2, t) {
            let k = choose|k: int| 0 <= k < ps2.len() && ps2[k].is_alive && ps2[k].user_id == t;
            assert(ps[k].is_alive && ps[k].user_id == t);
        }
    }
    assert forall|i2: int| 0 <= i2 < r.len() implies entry_ok(ps2, #[trigger] r[i2]) by {
        assert(entry_ok(ps, r[i2]));
    }
    assert forall|t: u64|
        is_alive_target(ps2, t) && vote_count(ps2, t) > 0 implies #[trigger] has_target(
        r,
        t,
    ) by {
        assert(is_alive_target(ps, t) && vote_count(ps, t) > 0);
    }
}

/// A vote aimed at a target that is not an alive player never influences
/// the ranking: clearing such a vote leaves the ranking intact.
pub proof fn lemma_tally_ignores_votes_at_dead(ps: Seq<Player>, i: int, r: Seq<TallyEntry>)
    requires
        0 <= i < ps.len(),
        ps[i].votes_for matches Some(t) && !is_alive_target(ps, t),
        is_ranking(ps, r),
    ensures
        is_ranking(ps.update(i, Player { votes_for: None, ..ps[i] }), r),
{
    let q = Player { votes_for: None, ..ps[i] };
    let ps2 = ps.update(i, q);
    let dead_t = ps[i].votes_for->Some_0;
    assert forall|t: u64| #[trigger] is_alive_target(ps2, t) == is_alive_target(ps, t) by {
        if is_alive_target(ps, t) {
            let k = choose|k: int| 0 <= k < ps.len() && ps[k].is_alive && ps[k].user_id == t;
            assert(ps2[k].is_alive && ps2[k].user_id == t);
        }
        if is_alive_target(ps2, t) {
            let k = choose|k: int| 0 <= k < ps2.len() && ps2[k].is_alive && ps2[k].user_id == t;
            assert(ps[k].is_alive && ps[k].user_id == t);
        }
    }
    assert forall|t: u64| t != dead_t implies #[trigger] vote_count(ps2, t) == vote_count(
        ps,
        t,
    ) by {
        lemma_filter_len_remove(ps, i, vote_pred(t));
        lemma_filter_len_remove(ps2, i, vote_pred(t));
        assert(ps2.remove(i) =~= ps.remove(i));
        assert(!vote_pred(t)(ps[i]) && !vote_pred(t)(ps2[i]));
    }
    assert forall|i2: int| 0 <= i2 < r.len() implies entry_ok(ps2, #[trigger] r[i2]) by {
        assert(entry_ok(ps, r[i2]));
        assert(r[i2].target != dead_t);
    }
    assert forall|t: u64|
        is_alive_target(ps2, t) && vote_count(ps2, t) > 0 implies #[trigger] has_target(
        r,
        t,
    ) by {
        assert(t != dead_t);
        assert(is_alive_target(ps, t) && vote_count(ps, t) > 0);
    }
}

} // verus!



