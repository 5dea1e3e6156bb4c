//! Quorum-based commit-index calculation and the snapshot-freshness predicate,
//! together with the safety lemmas of the commit rule: the returned commit
//! index never moves backwards, is replicated on a majority, and only counts
//! entries of the leader's own term.

use vstd::prelude::*;
use vstd::relations::{sorted_by, total_ordering};
use vstd::seq_lib::group_to_multiset_ensures;
use vstd::seq_lib::lemma_sorted_unique;

verus! {

/// The order in which match pairs `(match_index, match_term)` are ranked:
/// by index, with ties broken by term. A total order, so the sorted
/// arrangement of any collection of pairs is unique.
pub open spec fn pair_leq() -> spec_fn((u64, u64), (u64, u64)) -> bool {
    |a: (u64, u64), b: (u64, u64)| a.0 < b.0 || (a.0 == b.0 && a.1 <= b.1)
}

pub proof fn lemma_pair_leq_total_ordering()
    ensures
        total_ordering(pair_leq()),
{
}

/// How many members form a majority of a cluster of `n` voters.
pub open spec fn spec_majority(n: int) -> int {
    n / 2 + 1
}

/// Smallest count of nodes that makes a majority of `n` nodes.
pub fn majority_of(n: usize) -> (r: usize)
    ensures
        r == spec_majority(n as int),
{
    n / 2 + 1
}

/// The match pairs arranged in ascending `pair_leq` order.
pub open spec fn sorted_pairs(s: Seq<(u64, u64)>) -> Seq<(u64, u64)> {
    s.sort_by(pair_leq())
}

/// The new commit index determined by the match pairs of all voters: the
/// highest index replicated on a majority, taken only if it advances past
/// `current_commit` and its entry carries the leader's own term; otherwise
/// `current_commit` stands.
pub open spec fn new_commit_index(s: Seq<(u64, u64)>, current_commit: u64, leader_term: u64) -> u64 {
    if s.len() == 0 {
        current_commit
    } else {
        let c = sorted_pairs(s)[s.len() - spec_majority(s.len() as int)];
        if c.0 > current_commit && c.1 == leader_term {
            c.0
        } else {
            current_commit
        }
    }
}

/// How many of the pairs report a match index at least `x`.
pub open spec fn geq_count(s: Seq<(u64, u64)>, x: u64) -> int
    decreases s.len(),
{
    if s.len() == 0 {
        0
    } else {
        geq_count(s.drop_last(), x) + if s.last().0 >= x {
            1int
        } else {
            0int
        }
    }
}

proof fn lemma_geq_count_nonneg(s: Seq<(u64, u64)>, x: u64)
    ensures
        geq_count(s, x) >= 0,
    decreases s.len(),
{
    if s.len() > 0 {
        lemma_geq_count_nonneg(s.drop_last(), x);
    }
}

/// Lowering the bar can only raise the count.
pub proof fn lemma_geq_count_monotone(s: Seq<(u64, u64)>, x: u64, y: u64)
    requires
        x <= y,
    ensures
        geq_count(s, x) >= geq_count(s, y),
    decreases s.len(),
{
    if s.len() > 0 {
        lemma_geq_count_monotone(s.drop_last(), x, y);
    }
}

proof fn lemma_geq_count_remove(s: Seq<(u64, u64)>, i: int, x: u64)
    requires
        0 <= i < s.len(),
    ensures
        geq_count(s, x) == geq_count(s.remove(i), x) + if s[i].0 >= x {
            1int
        } else {
            0int
        },
    decreases s.len(),
{
    if i == s.len() - 1 {
        assert(s.remove(i) =~= s.drop_last());
    } else {
        assert(s.remove(i).drop_last() =~= s.drop_last().remove(i));
        assert(s.remove(i).last() == s.last());
        lemma_geq_count_remove(s.drop_last(), i, x);
    }
}

/// The count of pairs at or above `x` depends only on which pairs occur,
/// not on their arrangement.
proof fn lemma_geq_count_permutation(s: Seq<(u64, u64)>, t: Seq<(u64, u64)>, x: u64)
    requires
        s.to_multiset() == t.to_multiset(),
    ensures
        geq_count(s, x) == geq_count(t, x),
    decreases s.len(),
{
    broadcast use group_to_multiset_ensures;

    if s.len() == 0 {
        assert(s.len() == s.to_multiset().len());
        assert(t.len() == t.to_multiset().len());
        assert(t.len() == 0);
    } else {
        let v = s.last();
        assert(s.contains(v));
        assert(t.to_multiset().count(v) > 0);
        assert(t.contains(v));
        let j = choose|j: int| 0 <= j < t.len() && t[j] == v;
        assert(s.drop_last() =~= s.remove(s.len() - 1));
        assert(s.remove(s.len() - 1).to_multiset() =~= s.to_multiset().remove(v));
        assert(t.remove(j).to_multiset() =~= t.to_multiset().remove(v));
        lemma_geq_count_permutation(s.drop_last(), t.remove(j), x);
        lemma_geq_count_remove(t, j, x);
    }
}

/// In a sorted arrangement, every position from `off` up holds an index at
/// least as large as the one at `off`, so at least `len - off` pairs match it.
proof fn lemma_geq_count_sorted_suffix(ss: Seq<(u64, u64)>, off: int, x: u64)
    requires
        sorted_by(ss, pair_leq()),
        0 <= off < ss.len(),
        ss[off].0 >= x,
    ensures
        geq_count(ss, x) >= ss.len() - off,
    decreases ss.len(),
{
    assert(pair_leq()(ss[off], ss[ss.len() - 1]) || off == ss.len() - 1);
    assert(ss.last().0 >= x);
    if off == ss.len() - 1 {
        lemma_geq_count_nonneg(ss.drop_last(), x);
    } else {
        assert(sorted_by(ss.drop_last(), pair_leq())) by {
            assert forall|i: int, j: int|
                0 <= i < j < ss.drop_last().len() implies #[trigger] pair_leq()(
                ss.drop_last()[i],
                ss.drop_last()[j],
            ) by {
                assert(ss.drop_last()[i] == ss[i]);
                assert(ss.drop_last()[j] == ss[j]);
            }
        }
        lemma_geq_count_sorted_suffix(ss.drop_last(), off, x);
    }
}

/// Sorting keeps the length.
proof fn lemma_sorted_pairs_len(s: Seq<(u64, u64)>)
    ensures
        sorted_pairs(s).len() == s.len(),
        sorted_pairs(s).to_multiset() == s.to_multiset(),
        sorted_by(sorted_pairs(s), pair_leq()),
{
    broadcast use group_to_multiset_ensures;

    lemma_pair_leq_total_ordering();
    s.lemma_sort_by_ensures(pair_leq());
    assert(s.len() == s.to_multiset().len());
    assert(sorted_pairs(s).len() == sorted_pairs(s).to_multiset().len());
}

/// Inserting `x` at the position found by a linear search keeps the sequence
/// sorted.
proof fn lemma_sorted_insert(s: Seq<(u64, u64)>, j: int, x: (u64, u64))
    requires
        sorted_by(s, pair_leq()),
        0 <= j <= s.len(),
        forall|k: int| 0 <= k < j ==> !pair_leq()(x, #[trigger] s[k]),
        j < s.len() ==> pair_leq()(x, s[j]),
    ensures
        sorted_by(s.insert(j, x), pair_leq()),
{
    let leq = pair_leq();
    lemma_pair_leq_total_ordering();
    let t = s.insert(j, x);
    assert(forall|k: int|
        0 <= k < t.len() ==> t[k] == (if k < j {
            s[k]
        } else if k == j {
            x
        } else {
            s[k - 1]
        }));
    assert forall|a: int, b: int| 0 <= a < b < t.len() implies #[trigger] leq(t[a], t[b]) by {
        if b < j {
            assert(leq(s[a], s[b]));
        } else if a == j {
            assert(leq(x, s[j]));
            if b - 1 > j {
                assert(leq(s[j], s[b - 1]));
            }
        } else if b == j {
            assert(!leq(x, s[a]));
            assert(leq(s[a], x) || leq(x, s[a]));
        } else if a < j {
            assert(leq(s[a], s[b - 1]));
        } else {
            assert(leq(s[a - 1], s[b - 1]));
        }
    }
}

proof fn lemma_to_multiset_insert(s: Seq<(u64, u64)>, j: int, x: (u64, u64))
    requires
        0 <= j <= s.len(),
    ensures
        s.insert(j, x).to_multiset() =~= s.to_multiset().insert(x),
{
    broadcast use group_to_multiset_ensures;
    broadcast use vstd::multiset::group_multiset_axioms;

    let t = s.insert(j, x);
    assert(t.remove(j) =~= s);
    assert(t[j] == x);
    assert(t.remove(j).to_multiset() =~= t.to_multiset().remove(x));
    assert(t.contains(x));
    assert(t.to_multiset().count(x) > 0);
    assert forall|a: (u64, u64)| true implies t.to_multiset().count(a) == s.to_multiset().insert(
        x,
    ).count(a) by {
        if a == x {
            assert(s.to_multiset().count(x) == t.to_multiset().count(x) - 1);
        } else {
            assert(s.to_multiset().count(a) == t.to_multiset().count(a));
        }
    }
}

/// Comparison in the `pair_leq` order.
fn pair_le(a: (u64, u64), b: (u64, u64)) -> (r: bool)
    ensures
        r == pair_leq()(a, b),
{
    a.0 < b.0 || (a.0 == b.0 && a.1 <= b.1)
}

/// Rearrange the match pairs into ascending `pair_leq` order, by insertion
/// into an already-sorted output.
fn sort_pairs(v: &mut Vec<(u64, u64)>)
    ensures
        final(v)@ == old(v)@.sort_by(pair_leq()),
{
    let ghost leq = pair_leq();
    proof {
        lemma_pair_leq_total_ordering();
        old(v)@.lemma_sort_by_ensures(leq);
        broadcast use group_to_multiset_ensures;

    }
    let n = v.len();
    let mut out: Vec<(u64, u64)> = Vec::new();
    for i in 0..n
        invariant
            n == v@.len(),
            v@ == old(v)@,
            out@.len() == i,
            out@.to_multiset() == v@.subrange(0, i as int).to_multiset(),
            sorted_by(out@, pair_leq()),
    {
        let x = v[i];
        let mut j: usize = 0;
        while j < out.len() && !pair_le(x, out[j])
            invariant
                0 <= j <= out@.len(),
                forall|k: int| 0 <= k < j ==> !pair_leq()(x, #[trigger] out@[k]),
            decreases out@.len() - j,
        {
            j += 1;
        }
        let ghost prev = out@;
        proof {
            assert(forall|k: int| 0 <= k < j ==> !pair_leq()(x, #[trigger] prev[k]));
        }
        out.insert(j, x);
        proof {
            broadcast use group_to_multiset_ensures;

            lemma_to_multiset_insert(prev, j as int, x);
            lemma_sorted_insert(prev, j as int, x);
            assert(v@.subrange(0, i as int).push(x) =~= v@.subrange(0, i + 1 as int));
            assert(v@.subrange(0, i as int).push(x).to_multiset() =~= v@.subrange(
                0,
                i as int,
            ).to_multiset().insert(x));
        }
    }
    proof {
        assert(v@.subrange(0, n as int) =~= v@);
        lemma_sorted_unique(out@, v@.sort_by(leq), leq);
        assert(out@ =~= v@.sort_by(leq));
    }
    *v = out;
}

/// Determine the new commit index from all voters' highest replicated
/// `(index, term)` pairs, one per voter, the leader included.
///
/// The result never falls below `current_commit`, and it advances only to an
/// index that a majority of the voters have replicated and whose entry's term
/// is the leader's current term.
pub fn calculate_new_commit_index(entries: Vec<(u64, u64)>, current_commit: u64, leader_term: u64) -> (r:
    u64)
    ensures
        r == new_commit_index(entries@, current_commit, leader_term),
        r >= current_commit,
{
    let ghost input = entries@;
    let mut entries = entries;
    if entries.len() == 0 {
        return current_commit;
    }
    sort_pairs(&mut entries);
    proof {
        lemma_sorted_pairs_len(input);
    }
    let majority = majority_of(entries.len());
    let offset = entries.len() - majority;
    let new_val = entries[offset];
    if new_val.0 > current_commit && new_val.1 == leader_term {
        new_val.0
    } else {
        current_commit
    }
}

/// The returned commit index never moves backwards.
pub proof fn lemma_commit_index_monotonic(s: Seq<(u64, u64)>, current_commit: u64, leader_term: u64)
    ensures
        new_commit_index(s, current_commit, leader_term) >= current_commit,
{
}

/// Recalculating over the same match pairs moves the commit index no
/// further: the calculation is idempotent.
pub proof fn lemma_new_commit_index_idempotent(s: Seq<(u64, u64)>, current_commit: u64, leader_term: u64)
    ensures
        new_commit_index(s, new_commit_index(s, current_commit, leader_term), leader_term)
            == new_commit_index(s, current_commit, leader_term),
{
}

/// When the commit index advances, the index it advances to is replicated on
/// at least a majority of the voters whose pairs were passed in.
pub proof fn lemma_commit_index_majority(s: Seq<(u64, u64)>, current_commit: u64, leader_term: u64)
    ensures
        new_commit_index(s, current_commit, leader_term) > current_commit ==> geq_count(
            s,
            new_commit_index(s, current_commit, leader_term),
        ) >= spec_majority(s.len() as int),
{
    let r = new_commit_index(s, current_commit, leader_term);
    if r > current_commit {
        lemma_sorted_pairs_len(s);
        let ss = sorted_pairs(s);
        let off = s.len() - spec_majority(s.len() as int);
        lemma_geq_count_sorted_suffix(ss, off as int, r);
        lemma_geq_count_permutation(s, ss, r);
    }
}

/// When the commit index advances, some voter reported exactly that index
/// with the leader's own term: entries of prior terms are never committed by
/// counting replicas.
pub proof fn lemma_commit_index_term_matches(s: Seq<(u64, u64)>, current_commit: u64, leader_term: u64)
    ensures
        new_commit_index(s, current_commit, leader_term) > current_commit ==> s.contains(
            (new_commit_index(s, current_commit, leader_term), leader_term),
        ),
{
    let r = new_commit_index(s, current_commit, leader_term);
    if r > current_commit {
        lemma_pair_leq_total_ordering();
        s.lemma_sort_by_ensures(pair_leq());
        lemma_sorted_pairs_len(s);
        let ss = sorted_pairs(s);
        let off = s.len() - spec_majority(s.len() as int);
        assert(0 <= off < ss.len());
        assert(ss.contains(ss[off as int]));
    }
}

/// Whether the distance from the snapshot's last index to the head of the log
/// is within half of the configured snapshot threshold (underflow counts as
/// distance zero).
pub open spec fn within_half_of_threshold(
    snapshot_last_index: u64,
    last_log_index: u64,
    threshold: u64,
) -> bool {
    (if snapshot_last_index > last_log_index {
        0int
    } else {
        last_log_index - snapshot_last_index
    }) <= threshold as int / 2
}

/// Check if the given snapshot is close enough to the head of the log to be
/// served to a lagging follower, rather than building a fresh one.
pub fn snapshot_is_within_half_of_threshold(
    snapshot_last_index: &u64,
    last_log_index: &u64,
    threshold: &u64,
) -> (r: bool)
    ensures
        r == within_half_of_threshold(*snapshot_last_index, *last_log_index, *threshold),
{
    let distance_from_line = if snapshot_last_index > last_log_index {
        0u64
    } else {
        last_log_index - snapshot_last_index
    };
    let half_of_threshold = threshold / 2;
    distance_from_line <= half_of_threshold
}

} // verus!
