//! Sorting of leaderboard and standings rows by their ranking order, rank
//! assignment, and the facts that make the ranked result unique.

use vstd::prelude::*;
use vstd::relations::total_ordering;
use vstd::seq_lib::lemma_sorted_unique;

use crate::address::lemma_address_order;
use crate::storage_types::{LeaderboardEntry, StandingEntry};

verus! {

broadcast use vstd::seq_lib::group_to_multiset_ensures, vstd::multiset::group_multiset_axioms;

// ---------------------------------------------------------------------------
// Standings order
// ---------------------------------------------------------------------------

/// No row of `s` ranks strictly above a row before it.
pub open spec fn standings_sorted(s: Seq<StandingEntry>) -> bool {
    forall|i: int, j: int| 0 <= i < j < s.len() ==> !#[trigger] s[j].ranks_above(#[trigger] s[i])
}

/// A standings row with its rank cleared.
pub open spec fn standing_unranked(e: StandingEntry) -> StandingEntry {
    StandingEntry { rank: 0, ..e }
}

/// The fields the standings order looks at agree.
pub open spec fn standing_same_key(a: StandingEntry, b: StandingEntry) -> bool {
    &&& a.weighted_score == b.weighted_score
    &&& a.correct_count == b.correct_count
    &&& a.achieved_at == b.achieved_at
    &&& a.user == b.user
}

/// The standings order is a strict order on rows, total on rows with
/// different sort keys.
pub proof fn lemma_standing_order(a: StandingEntry, b: StandingEntry, c: StandingEntry)
    ensures
        !a.ranks_above(a),
        !(a.ranks_above(b) && b.ranks_above(a)),
        a.ranks_above(b) && b.ranks_above(c) ==> a.ranks_above(c),
        !standing_same_key(a, b) ==> a.ranks_above(b) || b.ranks_above(a),
        standing_same_key(a, b) ==> !a.ranks_above(b),
        standing_same_key(a, b) ==> (c.ranks_above(a) == c.ranks_above(b) && a.ranks_above(c)
            == b.ranks_above(c)),
{
    lemma_address_order(a.user, b.user, c.user);
    lemma_address_order(a.user, c.user, b.user);
    lemma_address_order(b.user, a.user, c.user);
    lemma_address_order(c.user, a.user, b.user);
}

/// Swapping two positions keeps the multiset of a sequence.
pub proof fn lemma_swap_multiset<A>(s: Seq<A>, i: int, j: int)
    requires
        0 <= i < s.len(),
        0 <= j < s.len(),
    ensures
        s.update(i, s[j]).update(j, s[i]).to_multiset() == s.to_multiset(),
{
    vstd::seq_lib::to_multiset_update(s, i, s[j]);
    let s1 = s.update(i, s[j]);
    vstd::seq_lib::to_multiset_update(s1, j, s[i]);
    if i == j {
        assert(s.update(i, s[j]) =~= s);
        assert(s1.update(j, s[i]) =~= s);
    } else {
        assert(s1[j] == s[j]);
        assert(s1.update(j, s[i]).to_multiset() =~= s.to_multiset());
    }
}

/// Mapping a function over two sequences with the same elements gives two
/// sequences with the same elements.
pub proof fn lemma_map_multiset<A, B>(a: Seq<A>, b: Seq<A>, f: spec_fn(A) -> B)
    requires
        a.to_multiset() == b.to_multiset(),
    ensures
        a.map_values(f).to_multiset() == b.map_values(f).to_multiset(),
    decreases a.len(),
{
    if a.len() == 0 {
        assert(b.to_multiset().len() == 0);
        assert(b.len() == 0);
        assert(a.map_values(f) =~= b.map_values(f));
    } else {
        let x = a.last();
        let a1 = a.drop_last();
        assert(a1.push(x) =~= a);
        assert(a.to_multiset() =~= a1.to_multiset().insert(x));
        assert(a.to_multiset().count(x) > 0);
        assert(b.contains(x));
        let i = choose|i: int| 0 <= i < b.len() && b[i] == x;
        let b1 = b.remove(i);
        assert(b1.to_multiset() =~= b.to_multiset().remove(x));
        assert(a1.to_multiset() =~= a.to_multiset().remove(x));
        lemma_map_multiset(a1, b1, f);
        assert(a1.map_values(f).push(f(x)) =~= a.map_values(f));
        assert(b.map_values(f).remove(i) =~= b1.map_values(f));
        assert(b.map_values(f)[i] == f(x));
        let bm = b.map_values(f);
        assert(bm.remove(i).to_multiset() =~= bm.to_multiset().remove(f(x)));
        assert(bm.to_multiset().count(f(x)) > 0);
        assert(bm.to_multiset() =~= bm.to_multiset().remove(f(x)).insert(f(x)));
        assert(a.map_values(f).to_multiset() =~= a1.map_values(f).to_multiset().insert(f(x)));
    }
}

/// The positions 0, 1, …, n - 1.
pub open spec fn index_seq(n: nat) -> Seq<int> {
    Seq::new(n, |i: int| i)
}

/// `r` is `s` put in standings order by insertion sort: `perm[k]` is the
/// position in `s` of `r[k]`, no row ranks above an earlier one, and rows
/// with equal sort keys come in the reverse of their order in `s`.
pub open spec fn is_standings_sort(r: Seq<StandingEntry>, s: Seq<StandingEntry>, perm: Seq<int>) -> bool {
    &&& r.len() == s.len()
    &&& perm.len() == s.len()
    &&& perm.to_multiset() == index_seq(s.len()).to_multiset()
    &&& forall|k: int| 0 <= k < r.len() ==> 0 <= #[trigger] perm[k] < s.len() && r[k] == s[perm[k]]
    &&& standings_sorted(r)
    &&& forall|k: int, l: int|
        0 <= k < l < r.len() && standing_same_key(#[trigger] r[k], #[trigger] r[l]) ==> perm[k]
            > perm[l]
}

/// Sorts `v` so that no row ranks above an earlier row (insertion sort);
/// rows with equal sort keys end up in the reverse of their input order.
pub fn sort_standings(v: &mut Vec<StandingEntry>)
    ensures
        exists|perm: Seq<int>| is_standings_sort(final(v)@, old(v)@, perm),
{
    let ghost s = v@;
    let len = v.len();
    let ghost mut perm = index_seq(len as nat);
    if len < 2 {
        assert(is_standings_sort(v@, s, perm));
        return;
    }
    let mut i: usize = 1;
    while i < len
        invariant
            v.len() == len,
            s == old(v)@,
            s.len() == len,
            1 <= i <= len,
            perm.len() == len,
            perm.to_multiset() == index_seq(len as nat).to_multiset(),
            forall|k: int| 0 <= k < len ==> 0 <= #[trigger] perm[k] < len && v[k] == s[perm[k]],
            forall|k: int| 0 <= k < i ==> #[trigger] perm[k] < i,
            forall|k: int| i <= k < len ==> #[trigger] perm[k] == k,
            forall|a: int, b: int| 0 <= a < b < i ==> !#[trigger] v[b].ranks_above(#[trigger] v[a]),
            forall|a: int, b: int|
                0 <= a < b < i && standing_same_key(#[trigger] v[a], #[trigger] v[b]) ==> perm[a]
                    > perm[b],
        decreases len - i,
    {
        let mut j: usize = i;
        let mut done = false;
        while j > 0 && !done
            invariant
                v.len() == len,
                s.len() == len,
                1 <= i < len,
                j <= i,
                perm.len() == len,
                perm.to_multiset() == index_seq(len as nat).to_multiset(),
                forall|k: int| 0 <= k < len ==> 0 <= #[trigger] perm[k] < len && v[k] == s[perm[k]],
                perm[j as int] == i,
                forall|k: int| 0 <= k <= i && k != j ==> #[trigger] perm[k] < i,
                forall|k: int| i < k < len ==> #[trigger] perm[k] == k,
                forall|a: int, b: int|
                    0 <= a < b <= i && a != j && b != j ==> !#[trigger] v[b].ranks_above(
                        #[trigger] v[a],
                    ),
                forall|b: int| j < b <= i ==> !#[trigger] v[b].ranks_above(v[j as int]),
                forall|a: int, b: int|
                    0 <= a < b <= i && a != j && b != j && standing_same_key(
                        #[trigger] v[a],
                        #[trigger] v[b],
                    ) ==> perm[a] > perm[b],
                done ==> j > 0 && v[j - 1].ranks_above(v[j as int]),
            decreases j + (if done {
                0int
            } else {
                1int
            }),
        {
            let prev = v[j - 1];
            let curr = v[j];
            if prev.outranks(&curr) {
                done = true;
            } else {
                proof {
                    lemma_swap_multiset(perm, j - 1, j as int);
                    perm = perm.update(j - 1, perm[j as int]).update(j as int, perm[j - 1]);
                }
                v.set(j - 1, curr);
                v.set(j, prev);
                j = j - 1;
            }
        }
        proof {
            assert forall|a: int, b: int| 0 <= a < b <= i implies !#[trigger] v[b].ranks_above(
                #[trigger] v[a],
            ) by {
                if b == j && a < j {
                    let k = j - 1;
                    lemma_standing_order(v[k], v[j as int], v[a]);
                    lemma_standing_order(v[a], v[k], v[j as int]);
                    lemma_standing_order(v[j as int], v[a], v[k]);
                }
            }
            assert forall|a: int, b: int|
                0 <= a < b <= i && standing_same_key(#[trigger] v[a], #[trigger] v[b]) implies perm[a]
                > perm[b] by {
                if b == j {
                    let k = j - 1;
                    lemma_standing_order(v[a], v[j as int], v[k]);
                    lemma_standing_order(v[k], v[j as int], v[a]);
                }
            }
        }
        i = i + 1;
    }
    assert(is_standings_sort(v@, s, perm));
}

/// Gives every row its 1-based position as rank.
pub fn assign_standing_ranks(v: &mut Vec<StandingEntry>)
    requires
        old(v).len() <= u32::MAX,
    ensures
        final(v).len() == old(v).len(),
        forall|k: int|
            0 <= k < final(v).len() ==> #[trigger] final(v)[k] == (StandingEntry {
                rank: (k + 1) as u32,
                ..old(v)[k]
            }),
{
    let len = v.len();
    let mut i: usize = 0;
    while i < len
        invariant
            v.len() == len,
            len <= u32::MAX,
            i <= len,
            forall|k: int|
                0 <= k < i ==> #[trigger] v[k] == (StandingEntry {
                    rank: (k + 1) as u32,
                    ..old(v)[k]
                }),
            forall|k: int| i <= k < len ==> #[trigger] v[k] == old(v)[k],
        decreases len - i,
    {
        let mut entry = v[i];
        entry.rank = (i as u32) + 1;
        v.set(i, entry);
        i = i + 1;
    }
}

/// `r` is the ranked form of `rows` through positions `perm`: `r[k]` is row
/// `perm[k]` of `rows` with rank k + 1, in standings order, rows with equal
/// sort keys in the reverse of their order in `rows`.
pub open spec fn is_standings_ranking_by(r: Seq<StandingEntry>, rows: Seq<StandingEntry>, perm: Seq<int>) -> bool {
    &&& r.len() == rows.len()
    &&& perm.len() == rows.len()
    &&& perm.to_multiset() == index_seq(rows.len()).to_multiset()
    &&& forall|k: int|
        0 <= k < r.len() ==> 0 <= #[trigger] perm[k] < rows.len() && standing_unranked(r[k])
            == standing_unranked(rows[perm[k]])
    &&& forall|k: int| 0 <= k < r.len() ==> #[trigger] r[k].rank == k + 1
    &&& standings_sorted(r)
    &&& forall|k: int, l: int|
        0 <= k < l < r.len() && standing_same_key(#[trigger] r[k], #[trigger] r[l]) ==> perm[k]
            > perm[l]
}

/// `r` is the ranked form of `rows`: the rows sorted by the standings order
/// (rows with equal sort keys in the reverse of their input order) and
/// numbered 1, 2, … in order.
pub open spec fn is_standings_ranking(r: Seq<StandingEntry>, rows: Seq<StandingEntry>) -> bool {
    exists|perm: Seq<int>| is_standings_ranking_by(r, rows, perm)
}

/// Sorts `rows` by the standings order and numbers them 1..N.
pub fn rank_standing_rows(rows: Vec<StandingEntry>) -> (r: Vec<StandingEntry>)
    requires
        rows.len() <= u32::MAX,
    ensures
        r.len() == rows.len(),
        is_standings_ranking(r@, rows@),
{
    let mut v = rows;
    sort_standings(&mut v);
    let ghost sorted = v@;
    let ghost perm = choose|perm: Seq<int>| is_standings_sort(sorted, rows@, perm);
    assign_standing_ranks(&mut v);
    proof {
        assert(is_standings_sort(sorted, rows@, perm));
        assert forall|k: int| 0 <= k < v.len() implies 0 <= #[trigger] perm[k] < rows.len()
            && standing_unranked(v@[k]) == standing_unranked(rows@[perm[k]]) by {
            assert(v@[k] == (StandingEntry { rank: (k + 1) as u32, ..sorted[k] }));
            assert(sorted[k] == rows@[perm[k]]);
        }
        assert forall|k: int, l: int| 0 <= k < l < v.len() implies !#[trigger] v@[l].ranks_above(
            #[trigger] v@[k],
        ) && (standing_same_key(v@[k], v@[l]) ==> perm[k] > perm[l]) by {
            assert(v@[k] == (StandingEntry { rank: (k + 1) as u32, ..sorted[k] }));
            assert(v@[l] == (StandingEntry { rank: (l + 1) as u32, ..sorted[l] }));
            assert(!sorted[l].ranks_above(sorted[k]));
        }
        assert(is_standings_ranking_by(v@, rows@, perm));
    }
    v
}

/// A ranking holds the same rows as its input (ranks aside), sorted, with
/// ranks 1, 2, … in order.
pub proof fn lemma_standings_ranking_content(r: Seq<StandingEntry>, rows: Seq<StandingEntry>)
    requires
        is_standings_ranking(r, rows),
    ensures
        r.map_values(|e: StandingEntry| standing_unranked(e)).to_multiset() == rows.map_values(
            |e: StandingEntry| standing_unranked(e),
        ).to_multiset(),
        standings_sorted(r),
        forall|k: int| 0 <= k < r.len() ==> #[trigger] r[k].rank == k + 1,
{
    let perm = choose|perm: Seq<int>| is_standings_ranking_by(r, rows, perm);
    let f = |i: int| standing_unranked(rows[i]);
    lemma_map_multiset(perm, index_seq(rows.len()), f);
    assert(r.map_values(|e: StandingEntry| standing_unranked(e)) =~= perm.map_values(f));
    assert(index_seq(rows.len()).map_values(f) =~= rows.map_values(
        |e: StandingEntry| standing_unranked(e),
    ));
}

/// Row `i` of `rows` comes before row `j` in a ranking: it ranks above it,
/// or has the same sort key and a later position.
pub open spec fn standing_before(rows: Seq<StandingEntry>, i: int, j: int) -> bool {
    ||| rows[i].ranks_above(rows[j])
    ||| (standing_same_key(rows[i], rows[j]) && i > j)
}

proof fn lemma_standing_before_total(rows: Seq<StandingEntry>)
    ensures
        total_ordering(|i: int, j: int| i == j || standing_before(rows, i, j)),
{
    let leq = |i: int, j: int| i == j || standing_before(rows, i, j);
    assert forall|i: int, j: int| #[trigger] leq(i, j) && leq(j, i) implies i == j by {
        lemma_standing_order(rows[i], rows[j], rows[i]);
    }
    assert forall|i: int, j: int, k: int| #[trigger] leq(i, j) && #[trigger] leq(j, k) implies leq(
        i,
        k,
    ) by {
        lemma_standing_order(rows[i], rows[j], rows[k]);
        lemma_standing_order(rows[j], rows[k], rows[i]);
        lemma_standing_order(rows[i], rows[k], rows[j]);
    }
    assert forall|i: int, j: int| #[trigger] leq(i, j) || leq(j, i) by {
        lemma_standing_order(rows[i], rows[j], rows[i]);
    }
}

/// The ranked standings of given rows are unique: any two rankings of the
/// same rows are identical.
pub proof fn lemma_standings_ranking_unique(
    x: Seq<StandingEntry>,
    y: Seq<StandingEntry>,
    rows: Seq<StandingEntry>,
)
    requires
        is_standings_ranking(x, rows),
        is_standings_ranking(y, rows),
    ensures
        x == y,
{
    let px = choose|perm: Seq<int>| is_standings_ranking_by(x, rows, perm);
    let py = choose|perm: Seq<int>| is_standings_ranking_by(y, rows, perm);
    let leq = |i: int, j: int| i == j || standing_before(rows, i, j);
    assert forall|k: int, l: int| 0 <= k < l < px.len() implies #[trigger] leq(px[k], px[l]) by {
        assert(!x[l].ranks_above(x[k]));
        lemma_standing_order(rows[px[k]], rows[px[l]], rows[px[k]]);
    }
    assert forall|k: int, l: int| 0 <= k < l < py.len() implies #[trigger] leq(py[k], py[l]) by {
        assert(!y[l].ranks_above(y[k]));
        lemma_standing_order(rows[py[k]], rows[py[l]], rows[py[k]]);
    }
    lemma_standing_before_total(rows);
    lemma_sorted_unique(px, py, leq);
    assert forall|k: int| 0 <= k < x.len() implies x[k] == y[k] by {
        assert(px[k] == py[k]);
        assert(x[k] == (StandingEntry { rank: x[k].rank, ..standing_unranked(x[k]) }));
        assert(y[k] == (StandingEntry { rank: y[k].rank, ..standing_unranked(y[k]) }));
    }
    assert(x =~= y);
}

/// Total order on rows that refines the standings order; rows with equal
/// sort keys are ordered by event id and then rank.
pub open spec fn standing_leq(a: StandingEntry, b: StandingEntry) -> bool {
    ||| a == b
    ||| a.ranks_above(b)
    ||| (standing_same_key(a, b) && (a.event_id < b.event_id || (a.event_id == b.event_id
        && a.rank < b.rank)))
}

proof fn lemma_standing_leq_total()
    ensures
        total_ordering(|a: StandingEntry, b: StandingEntry| standing_leq(a, b)),
{
    let leq = |a: StandingEntry, b: StandingEntry| standing_leq(a, b);
    assert forall|a: StandingEntry, b: StandingEntry| #[trigger] leq(a, b) && leq(b, a) implies a
        == b by {
        lemma_standing_order(a, b, a);
    }
    assert forall|a: StandingEntry, b: StandingEntry, c: StandingEntry| #[trigger] leq(a, b)
        && #[trigger] leq(b, c) implies leq(a, c) by {
        lemma_standing_order(a, b, c);
        lemma_standing_order(b, c, a);
        lemma_standing_order(a, c, b);
    }
    assert forall|a: StandingEntry, b: StandingEntry| #[trigger] leq(a, b) || leq(b, a) by {
        lemma_standing_order(a, b, a);
    }
}

/// Two rankings of rows that agree up to order (and share one event id) are
/// identical.
pub proof fn lemma_standings_ranking_unique_up_to_order(
    x: Seq<StandingEntry>,
    y: Seq<StandingEntry>,
    rows_x: Seq<StandingEntry>,
    rows_y: Seq<StandingEntry>,
    event_id: u64,
)
    requires
        is_standings_ranking(x, rows_x),
        is_standings_ranking(y, rows_y),
        rows_x.to_multiset() == rows_y.to_multiset(),
        forall|k: int| 0 <= k < rows_x.len() ==> (#[trigger] rows_x[k]).event_id == event_id,
    ensures
        x == y,
{
    lemma_standings_ranking_content(x, rows_x);
    lemma_standings_ranking_content(y, rows_y);
    let f = |e: StandingEntry| standing_unranked(e);
    let leq = |a: StandingEntry, b: StandingEntry| standing_leq(a, b);
    lemma_map_multiset(rows_x, rows_y, f);
    let ux = x.map_values(f);
    let uy = y.map_values(f);
    let ur = rows_x.map_values(f);
    assert forall|k: int| 0 <= k < ux.len() implies (#[trigger] ux[k]).event_id == event_id
        && ux[k].rank == 0 by {
        assert(ux.to_multiset().count(ux[k]) > 0);
        assert(ur.contains(ux[k]));
        let i = choose|i: int| 0 <= i < ur.len() && ur[i] == ux[k];
        assert(rows_x[i].event_id == event_id);
    }
    assert forall|k: int| 0 <= k < uy.len() implies (#[trigger] uy[k]).event_id == event_id
        && uy[k].rank == 0 by {
        assert(uy.to_multiset().count(uy[k]) > 0);
        assert(ur.contains(uy[k]));
        let i = choose|i: int| 0 <= i < ur.len() && ur[i] == uy[k];
        assert(rows_x[i].event_id == event_id);
    }
    assert forall|i: int, j: int| 0 <= i < j < ux.len() implies #[trigger] leq(ux[i], ux[j]) by {
        assert(!x[j].ranks_above(x[i]));
        lemma_standing_order(ux[i], ux[j], ux[i]);
    }
    assert forall|i: int, j: int| 0 <= i < j < uy.len() implies #[trigger] leq(uy[i], uy[j]) by {
        assert(!y[j].ranks_above(y[i]));
        lemma_standing_order(uy[i], uy[j], uy[i]);
    }
    lemma_standing_leq_total();
    lemma_sorted_unique(ux, uy, leq);
    assert(ux.len() == uy.len());
    assert forall|k: int| 0 <= k < x.len() implies x[k] == y[k] by {
        assert(ux[k] == uy[k]);
        assert(x[k] == (StandingEntry { rank: x[k].rank, ..ux[k] }));
        assert(y[k] == (StandingEntry { rank: y[k].rank, ..uy[k] }));
    }
    assert(x =~= y);
}

// ---------------------------------------------------------------------------
// Leaderboard order
// ---------------------------------------------------------------------------

/// No row of `s` ranks strictly above a row before it.
pub open spec fn leaderboard_sorted(s: Seq<LeaderboardEntry>) -> bool {
    forall|i: int, j: int| 0 <= i < j < s.len() ==> !#[trigger] s[j].ranks_above(#[trigger] s[i])
}

/// A leaderboard row with its rank cleared.
pub open spec fn leaderboard_unranked(e: LeaderboardEntry) -> LeaderboardEntry {
    LeaderboardEntry { rank: 0, ..e }
}

/// The fields the leaderboard order looks at agree.
pub open spec fn leaderboard_same_key(a: LeaderboardEntry, b: LeaderboardEntry) -> bool {
    &&& a.total_points == b.total_points
    &&& a.exact_scores == b.exact_scores
    &&& a.last_prediction_time == b.last_prediction_time
    &&& a.user == b.user
}

/// The leaderboard order is a strict order on rows, total on rows with
/// different sort keys.
pub proof fn lemma_leaderboard_order(a: LeaderboardEntry, b: LeaderboardEntry, c: LeaderboardEntry)
    ensures
        !a.ranks_above(a),
        !(a.ranks_above(b) && b.ranks_above(a)),
        a.ranks_above(b) && b.ranks_above(c) ==> a.ranks_above(c),
        !leaderboard_same_key(a, b) ==> a.ranks_above(b) || b.ranks_above(a),
        leaderboard_same_key(a, b) ==> !a.ranks_above(b),
        leaderboard_same_key(a, b) ==> (c.ranks_above(a) == c.ranks_above(b) && a.ranks_above(c)
            == b.ranks_above(c)),
{
    lemma_address_order(a.user, b.user, c.user);
    lemma_address_order(a.user, c.user, b.user);
    lemma_address_order(b.user, a.user, c.user);
    lemma_address_order(c.user, a.user, b.user);
}

/// `r` is `s` put in leaderboard order by insertion sort: `perm[k]` is the
/// position in `s` of `r[k]`, no row ranks above an earlier one, and rows
/// with equal sort keys come in the reverse of their order in `s`.
pub open spec fn is_leaderboard_sort(r: Seq<LeaderboardEntry>, s: Seq<LeaderboardEntry>, perm: Seq<int>) -> bool {
    &&& r.len() == s.len()
    &&& perm.len() == s.len()
    &&& perm.to_multiset() == index_seq(s.len()).to_multiset()
    &&& forall|k: int| 0 <= k < r.len() ==> 0 <= #[trigger] perm[k] < s.len() && r[k] == s[perm[k]]
    &&& leaderboard_sorted(r)
    &&& forall|k: int, l: int|
        0 <= k < l < r.len() && leaderboard_same_key(#[trigger] r[k], #[trigger] r[l]) ==> perm[k]
            > perm[l]
}

/// Sorts `v` so that no row ranks above an earlier row (insertion sort);
/// rows with equal sort keys end up in the reverse of their input order.
pub fn sort_leaderboard(v: &mut Vec<LeaderboardEntry>)
    ensures
        exists|perm: Seq<int>| is_leaderboard_sort(final(v)@, old(v)@, perm),
{
    let ghost s = v@;
    let len = v.len();
    let ghost mut perm = index_seq(len as nat);
    if len < 2 {
        assert(is_leaderboard_sort(v@, s, perm));
        return;
    }
    let mut i: usize = 1;
    while i < len
        invariant
            v.len() == len,
            s == old(v)@,
            s.len() == len,
            1 <= i <= len,
            perm.len() == len,
            perm.to_multiset() == index_seq(len as nat).to_multiset(),
            forall|k: int| 0 <= k < len ==> 0 <= #[trigger] perm[k] < len && v[k] == s[perm[k]],
            forall|k: int| 0 <= k < i ==> #[trigger] perm[k] < i,
            forall|k: int| i <= k < len ==> #[trigger] perm[k] == k,
            forall|a: int, b: int| 0 <= a < b < i ==> !#[trigger] v[b].ranks_above(#[trigger] v[a]),
            forall|a: int, b: int|
                0 <= a < b < i && leaderboard_same_key(#[trigger] v[a], #[trigger] v[b]) ==> perm[a]
                    > perm[b],
        decreases len - i,
    {
        let mut j: usize = i;
        let mut done = false;
        while j > 0 && !done
            invariant
                v.len() == len,
                s.len() == len,
                1 <= i < len,
                j <= i,
                perm.len() == len,
                perm.to_multiset() == index_seq(len as nat).to_multiset(),
                forall|k: int| 0 <= k < len ==> 0 <= #[trigger] perm[k] < len && v[k] == s[perm[k]],
                perm[j as int] == i,
                forall|k: int| 0 <= k <= i && k != j ==> #[trigger] perm[k] < i,
                forall|k: int| i < k < len ==> #[trigger] perm[k] == k,
                forall|a: int, b: int|
                    0 <= a < b <= i && a != j && b != j ==> !#[trigger] v[b].ranks_above(
                        #[trigger] v[a],
                    ),
                forall|b: int| j < b <= i ==> !#[trigger] v[b].ranks_above(v[j as int]),
                forall|a: int, b: int|
                    0 <= a < b <= i && a != j && b != j && leaderboard_same_key(
                        #[trigger] v[a],
                        #[trigger] v[b],
                    ) ==> perm[a] > perm[b],
                done ==> j > 0 && v[j - 1].ranks_above(v[j as int]),
            decreases j + (if done {
                0int
            } else {
                1int
            }),
        {
            let prev = v[j - 1];
            let curr = v[j];
            if prev.outranks(&curr) {
                done = true;
            } else {
                proof {
                    lemma_swap_multiset(perm, j - 1, j as int);
                    perm = perm.update(j - 1, perm[j as int]).update(j as int, perm[j - 1]);
                }
                v.set(j - 1, curr);
                v.set(j, prev);
                j = j - 1;
            }
        }
        proof {
            assert forall|a: int, b: int| 0 <= a < b <= i implies !#[trigger] v[b].ranks_above(
                #[trigger] v[a],
            ) by {
                if b == j && a < j {
                    let k = j - 1;
                    lemma_leaderboard_order(v[k], v[j as int], v[a]);
                    lemma_leaderboard_order(v[a], v[k], v[j as int]);
                    lemma_leaderboard_order(v[j as int], v[a], v[k]);
                }
            }
            assert forall|a: int, b: int|
                0 <= a < b <= i && leaderboard_same_key(#[trigger] v[a], #[trigger] v[b]) implies perm[a]
                > perm[b] by {
                if b == j {
                    let k = j - 1;
                    lemma_leaderboard_order(v[a], v[j as int], v[k]);
                    lemma_leaderboard_order(v[k], v[j as int], v[a]);
                }
            }
        }
        i = i + 1;
    }
    assert(is_leaderboard_sort(v@, s, perm));
}

/// Gives every row its 1-based position as rank.
pub fn assign_leaderboard_ranks(v: &mut Vec<LeaderboardEntry>)
    requires
        old(v).len() <= u32::MAX,
    ensures
        final(v).len() == old(v).len(),
        forall|k: int|
            0 <= k < final(v).len() ==> #[trigger] final(v)[k] == (LeaderboardEntry {
                rank: (k + 1) as u32,
                ..old(v)[k]
            }),
{
    let len = v.len();
    let mut i: usize = 0;
    while i < len
        invariant
            v.len() == len,
            len <= u32::MAX,
            i <= len,
            forall|k: int|
                0 <= k < i ==> #[trigger] v[k] == (LeaderboardEntry {
                    rank: (k + 1) as u32,
                    ..old(v)[k]
                }),
            forall|k: int| i <= k < len ==> #[trigger] v[k] == old(v)[k],
        decreases len - i,
    {
        let mut entry = v[i];
        entry.rank = (i as u32) + 1;
        v.set(i, entry);
        i = i + 1;
    }
}

/// `r` is the ranked form of `rows` through positions `perm`: `r[k]` is row
/// `perm[k]` of `rows` with rank k + 1, in leaderboard order, rows with equal
/// sort keys in the reverse of their order in `rows`.
pub open spec fn is_leaderboard_ranking_by(r: Seq<LeaderboardEntry>, rows: Seq<LeaderboardEntry>, perm: Seq<int>) -> bool {
    &&& r.len() == rows.len()
    &&& perm.len() == rows.len()
    &&& perm.to_multiset() == index_seq(rows.len()).to_multiset()
    &&& forall|k: int|
        0 <= k < r.len() ==> 0 <= #[trigger] perm[k] < rows.len() && leaderboard_unranked(r[k])
            == leaderboard_unranked(rows[perm[k]])
    &&& forall|k: int| 0 <= k < r.len() ==> #[trigger] r[k].rank == k + 1
    &&& leaderboard_sorted(r)
    &&& forall|k: int, l: int|
        0 <= k < l < r.len() && leaderboard_same_key(#[trigger] r[k], #[trigger] r[l]) ==> perm[k]
            > perm[l]
}

/// `r` is the ranked form of `rows`: the rows sorted by the leaderboard order
/// (rows with equal sort keys in the reverse of their input order) and
/// numbered 1, 2, … in order.
pub open spec fn is_leaderboard_ranking(r: Seq<LeaderboardEntry>, rows: Seq<LeaderboardEntry>) -> bool {
    exists|perm: Seq<int>| is_leaderboard_ranking_by(r, rows, perm)
}

/// Sorts `rows` by the leaderboard order and numbers them 1..N.
pub fn rank_leaderboard_rows(rows: Vec<LeaderboardEntry>) -> (r: Vec<LeaderboardEntry>)
    requires
        rows.len() <= u32::MAX,
    ensures
        r.len() == rows.len(),
        is_leaderboard_ranking(r@, rows@),
{
    let mut v = rows;
    sort_leaderboard(&mut v);
    let ghost sorted = v@;
    let ghost perm = choose|perm: Seq<int>| is_leaderboard_sort(sorted, rows@, perm);
    assign_leaderboard_ranks(&mut v);
    proof {
        assert(is_leaderboard_sort(sorted, rows@, perm));
        assert forall|k: int| 0 <= k < v.len() implies 0 <= #[trigger] perm[k] < rows.len()
            && leaderboard_unranked(v@[k]) == leaderboard_unranked(rows@[perm[k]]) by {
            assert(v@[k] == (LeaderboardEntry { rank: (k + 1) as u32, ..sorted[k] }));
            assert(sorted[k] == rows@[perm[k]]);
        }
        assert forall|k: int, l: int| 0 <= k < l < v.len() implies !#[trigger] v@[l].ranks_above(
            #[trigger] v@[k],
        ) && (leaderboard_same_key(v@[k], v@[l]) ==> perm[k] > perm[l]) by {
            assert(v@[k] == (LeaderboardEntry { rank: (k + 1) as u32, ..sorted[k] }));
            assert(v@[l] == (LeaderboardEntry { rank: (l + 1) as u32, ..sorted[l] }));
            assert(!sorted[l].ranks_above(sorted[k]));
        }
        assert(is_leaderboard_ranking_by(v@, rows@, perm));
    }
    v
}

/// A ranking holds the same rows as its input (ranks aside), sorted, with
/// ranks 1, 2, … in order.
pub proof fn lemma_leaderboard_ranking_content(r: Seq<LeaderboardEntry>, rows: Seq<LeaderboardEntry>)
    requires
        is_leaderboard_ranking(r, rows),
    ensures
        r.map_values(|e: LeaderboardEntry| leaderboard_unranked(e)).to_multiset() == rows.map_values(
            |e: LeaderboardEntry| leaderboard_unranked(e),
        ).to_multiset(),
        leaderboard_sorted(r),
        forall|k: int| 0 <= k < r.len() ==> #[trigger] r[k].rank == k + 1,
{
    let perm = choose|perm: Seq<int>| is_leaderboard_ranking_by(r, rows, perm);
    let f = |i: int| leaderboard_unranked(rows[i]);
    lemma_map_multiset(perm, index_seq(rows.len()), f);
    assert(r.map_values(|e: LeaderboardEntry| leaderboard_unranked(e)) =~= perm.map_values(f));
    assert(index_seq(rows.len()).map_values(f) =~= rows.map_values(
        |e: LeaderboardEntry| leaderboard_unranked(e),
    ));
}

/// Row `i` of `rows` comes before row `j` in a ranking: it ranks above it,
/// or has the same sort key and a later position.
pub open spec fn leaderboard_before(rows: Seq<LeaderboardEntry>, i: int, j: int) -> bool {
    ||| rows[i].ranks_above(rows[j])
    ||| (leaderboard_same_key(rows[i], rows[j]) && i > j)
}

proof fn lemma_leaderboard_before_total(rows: Seq<LeaderboardEntry>)
    ensures
        total_ordering(|i: int, j: int| i == j || leaderboard_before(rows, i, j)),
{
    let leq = |i: int, j: int| i == j || leaderboard_before(rows, i, j);
    assert forall|i: int, j: int| #[trigger] leq(i, j) && leq(j, i) implies i == j by {
        lemma_leaderboard_order(rows[i], rows[j], rows[i]);
    }
    assert forall|i: int, j: int, k: int| #[trigger] leq(i, j) && #[trigger] leq(j, k) implies leq(
        i,
        k,
    ) by {
        lemma_leaderboard_order(rows[i], rows[j], rows[k]);
        lemma_leaderboard_order(rows[j], rows[k], rows[i]);
        lemma_leaderboard_order(rows[i], rows[k], rows[j]);
    }
    assert forall|i: int, j: int| #[trigger] leq(i, j) || leq(j, i) by {
        lemma_leaderboard_order(rows[i], rows[j], rows[i]);
    }
}

/// The ranked leaderboard of given rows is unique: any two rankings of the
/// same rows are identical.
pub proof fn lemma_leaderboard_ranking_unique(
    x: Seq<LeaderboardEntry>,
    y: Seq<LeaderboardEntry>,
    rows: Seq<LeaderboardEntry>,
)
    requires
        is_leaderboard_ranking(x, rows),
        is_leaderboard_ranking(y, rows),
    ensures
        x == y,
{
    let px = choose|perm: Seq<int>| is_leaderboard_ranking_by(x, rows, perm);
    let py = choose|perm: Seq<int>| is_leaderboard_ranking_by(y, rows, perm);
    let leq = |i: int, j: int| i == j || leaderboard_before(rows, i, j);
    assert forall|k: int, l: int| 0 <= k < l < px.len() implies #[trigger] leq(px[k], px[l]) by {
        assert(!x[l].ranks_above(x[k]));
        lemma_leaderboard_order(rows[px[k]], rows[px[l]], rows[px[k]]);
    }
    assert forall|k: int, l: int| 0 <= k < l < py.len() implies #[trigger] leq(py[k], py[l]) by {
        assert(!y[l].ranks_above(y[k]));
        lemma_leaderboard_order(rows[py[k]], rows[py[l]], rows[py[k]]);
    }
    lemma_leaderboard_before_total(rows);
    lemma_sorted_unique(px, py, leq);
    assert forall|k: int| 0 <= k < x.len() implies x[k] == y[k] by {
        assert(px[k] == py[k]);
        assert(x[k] == (LeaderboardEntry { rank: x[k].rank, ..leaderboard_unranked(x[k]) }));
        assert(y[k] == (LeaderboardEntry { rank: y[k].rank, ..leaderboard_unranked(y[k]) }));
    }
    assert(x =~= y);
}

/// Lexicographic order on the fields the leaderboard order ignores.
pub open spec fn leaderboard_tail_lt(a: LeaderboardEntry, b: LeaderboardEntry) -> bool {
    ||| a.event_id < b.event_id
    ||| (a.event_id == b.event_id && a.correct_results < b.correct_results)
    ||| (a.event_id == b.event_id && a.correct_results == b.correct_results && a.matches_played
        < b.matches_played)
    ||| (a.event_id == b.event_id && a.correct_results == b.correct_results && a.matches_played
        == b.matches_played && a.rank < b.rank)
}

/// Total order on rows that refines the leaderboard order; rows with equal
/// sort keys are ordered by the remaining fields.
pub open spec fn leaderboard_leq(a: LeaderboardEntry, b: LeaderboardEntry) -> bool {
    ||| a == b
    ||| a.ranks_above(b)
    ||| (leaderboard_same_key(a, b) && leaderboard_tail_lt(a, b))
}

proof fn lemma_leaderboard_leq_total()
    ensures
        total_ordering(|a: LeaderboardEntry, b: LeaderboardEntry| leaderboard_leq(a, b)),
{
    let leq = |a: LeaderboardEntry, b: LeaderboardEntry| leaderboard_leq(a, b);
    assert forall|a: LeaderboardEntry, b: LeaderboardEntry| #[trigger] leq(a, b) && leq(b, a) implies a
        == b by {
        lemma_leaderboard_order(a, b, a);
    }
    assert forall|a: LeaderboardEntry, b: LeaderboardEntry, c: LeaderboardEntry| #[trigger] leq(a, b)
        && #[trigger] leq(b, c) implies leq(a, c) by {
        lemma_leaderboard_order(a, b, c);
        lemma_leaderboard_order(b, c, a);
        lemma_leaderboard_order(a, c, b);
    }
    assert forall|a: LeaderboardEntry, b: LeaderboardEntry| #[trigger] leq(a, b) || leq(b, a) by {
        lemma_leaderboard_order(a, b, a);
    }
}

/// Two rankings of rows that agree up to order (share one event id, and hold one row per
/// address) are identical.
pub proof fn lemma_leaderboard_ranking_unique_up_to_order(
    x: Seq<LeaderboardEntry>,
    y: Seq<LeaderboardEntry>,
    rows_x: Seq<LeaderboardEntry>,
    rows_y: Seq<LeaderboardEntry>,
    event_id: u64,
)
    requires
        is_leaderboard_ranking(x, rows_x),
        is_leaderboard_ranking(y, rows_y),
        rows_x.to_multiset() == rows_y.to_multiset(),
        forall|k: int| 0 <= k < rows_x.len() ==> (#[trigger] rows_x[k]).event_id == event_id,
        forall|i: int, j: int|
            0 <= i < rows_x.len() && 0 <= j < rows_x.len() && (#[trigger] rows_x[i]).user == (
            #[trigger] rows_x[j]).user ==> leaderboard_unranked(rows_x[i]) == leaderboard_unranked(
                rows_x[j],
            ),
    ensures
        x == y,
{
    lemma_leaderboard_ranking_content(x, rows_x);
    lemma_leaderboard_ranking_content(y, rows_y);
    let f = |e: LeaderboardEntry| leaderboard_unranked(e);
    let leq = |a: LeaderboardEntry, b: LeaderboardEntry| leaderboard_leq(a, b);
    lemma_map_multiset(rows_x, rows_y, f);
    let ux = x.map_values(f);
    let uy = y.map_values(f);
    let ur = rows_x.map_values(f);
    assert forall|k: int| 0 <= k < ux.len() implies (#[trigger] ux[k]).event_id == event_id
        && ux[k].rank == 0 by {
        assert(ux.to_multiset().count(ux[k]) > 0);
        assert(ur.contains(ux[k]));
        let i = choose|i: int| 0 <= i < ur.len() && ur[i] == ux[k];
        assert(rows_x[i].event_id == event_id);
    }
    assert forall|k: int| 0 <= k < uy.len() implies (#[trigger] uy[k]).event_id == event_id
        && uy[k].rank == 0 by {
        assert(uy.to_multiset().count(uy[k]) > 0);
        assert(ur.contains(uy[k]));
        let i = choose|i: int| 0 <= i < ur.len() && ur[i] == uy[k];
        assert(rows_x[i].event_id == event_id);
    }
    assert forall|i: int, j: int| 0 <= i < j < ux.len() implies #[trigger] leq(ux[i], ux[j]) by {
        assert(!x[j].ranks_above(x[i]));
        lemma_leaderboard_order(ux[i], ux[j], ux[i]);
        assert(ux.to_multiset().count(ux[i]) > 0);
        assert(ux.to_multiset().count(ux[j]) > 0);
        assert(ur.contains(ux[i]));
        assert(ur.contains(ux[j]));
        let a = choose|a: int| 0 <= a < ur.len() && ur[a] == ux[i];
        let b = choose|b: int| 0 <= b < ur.len() && ur[b] == ux[j];
        assert(rows_x[a].user == ux[i].user);
        assert(rows_x[b].user == ux[j].user);
    }
    assert forall|i: int, j: int| 0 <= i < j < uy.len() implies #[trigger] leq(uy[i], uy[j]) by {
        assert(!y[j].ranks_above(y[i]));
        lemma_leaderboard_order(uy[i], uy[j], uy[i]);
        assert(uy.to_multiset().count(uy[i]) > 0);
        assert(uy.to_multiset().count(uy[j]) > 0);
        assert(ur.contains(uy[i]));
        assert(ur.contains(uy[j]));
        let a = choose|a: int| 0 <= a < ur.len() && ur[a] == uy[i];
        let b = choose|b: int| 0 <= b < ur.len() && ur[b] == uy[j];
        assert(rows_x[a].user == uy[i].user);
        assert(rows_x[b].user == uy[j].user);
    }
    lemma_leaderboard_leq_total();
    lemma_sorted_unique(ux, uy, leq);
    assert(ux.len() == uy.len());
    assert forall|k: int| 0 <= k < x.len() implies x[k] == y[k] by {
        assert(ux[k] == uy[k]);
        assert(x[k] == (LeaderboardEntry { rank: x[k].rank, ..ux[k] }));
        assert(y[k] == (LeaderboardEntry { rank: y[k].rank, ..uy[k] }));
    }
    assert(x =~= y);
}

// ---------------------------------------------------------------------------
// What a ranking puts first
// ---------------------------------------------------------------------------

/// Along ranked standings the weighted score never rises; among equal
/// weighted scores the correct count never rises, and among equal scores and
/// counts achieved_at never falls.
pub proof fn lemma_standings_ranking_order(r: Seq<StandingEntry>, rows: Seq<StandingEntry>)
    requires
        is_standings_ranking(r, rows),
    ensures
        forall|k: int, l: int|
            0 <= k < l < r.len() ==> (#[trigger] r[k]).weighted_score >= (#[trigger] r[l]).weighted_score,
        forall|k: int, l: int|
            0 <= k < l < r.len() && (#[trigger] r[k]).weighted_score == (#[trigger] r[l]).weighted_score
                ==> r[k].correct_count >= r[l].correct_count,
        forall|k: int, l: int|
            0 <= k < l < r.len() && (#[trigger] r[k]).weighted_score == (#[trigger] r[l]).weighted_score
                && r[k].correct_count == r[l].correct_count ==> r[k].achieved_at <= r[l].achieved_at,
{
    lemma_standings_ranking_content(r, rows);
    assert forall|k: int, l: int| 0 <= k < l < r.len() implies (#[trigger] r[k]).weighted_score >= (
    #[trigger] r[l]).weighted_score && (r[k].weighted_score == r[l].weighted_score
        ==> r[k].correct_count >= r[l].correct_count) && (r[k].weighted_score
        == r[l].weighted_score && r[k].correct_count == r[l].correct_count ==> r[k].achieved_at
        <= r[l].achieved_at) by {
        assert(!r[l].ranks_above(r[k]));
        crate::storage_types::lemma_standings_tiebreak_chain(r[l], r[k]);
    }
}

/// Along a ranked leaderboard the total points never rise; among equal
/// totals the exact scores never rise, and among equal totals and exact
/// scores the last prediction time never falls.
pub proof fn lemma_leaderboard_ranking_order(r: Seq<LeaderboardEntry>, rows: Seq<LeaderboardEntry>)
    requires
        is_leaderboard_ranking(r, rows),
    ensures
        forall|k: int, l: int|
            0 <= k < l < r.len() ==> (#[trigger] r[k]).total_points >= (#[trigger] r[l]).total_points,
        forall|k: int, l: int|
            0 <= k < l < r.len() && (#[trigger] r[k]).total_points == (#[trigger] r[l]).total_points
                ==> r[k].exact_scores >= r[l].exact_scores,
        forall|k: int, l: int|
            0 <= k < l < r.len() && (#[trigger] r[k]).total_points == (#[trigger] r[l]).total_points
                && r[k].exact_scores == r[l].exact_scores ==> r[k].last_prediction_time
                <= r[l].last_prediction_time,
{
    lemma_leaderboard_ranking_content(r, rows);
    assert forall|k: int, l: int| 0 <= k < l < r.len() implies (#[trigger] r[k]).total_points >= (
    #[trigger] r[l]).total_points && (r[k].total_points == r[l].total_points
        ==> r[k].exact_scores >= r[l].exact_scores) && (r[k].total_points == r[l].total_points
        && r[k].exact_scores == r[l].exact_scores ==> r[k].last_prediction_time
        <= r[l].last_prediction_time) by {
        assert(!r[l].ranks_above(r[k]));
        crate::storage_types::lemma_leaderboard_tiebreak_chain(r[l], r[k]);
    }
}

} // verus!
