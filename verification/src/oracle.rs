//! What every module is expected to report, stated over the graph's shape.
//!
//! A module reports its own value plus what each of its dependencies
//! reports, a dependency counted once for every edge that leads to it.
//! Edges lead from a node to nodes of lesser index only, so the value of a
//! node is defined by recursion on its index.

use crate::store::positions;
use vstd::prelude::*;

verus! {

/// What the first `k` dependencies in the list of node `i` report
/// together. An entry that is no node before `i` counts for nothing.
pub open spec fn dep_sum(selfs: Seq<u64>, deps: Seq<Seq<int>>, i: int, k: int) -> int
    decreases i, k,
{
    if k <= 0 {
        0
    } else {
        let d = deps[i][k - 1];
        dep_sum(selfs, deps, i, k - 1) + if 0 <= d < i {
            expected_value(selfs, deps, d)
        } else {
            0
        }
    }
}

/// What node `i` is expected to report: its own value and the report of
/// each of its direct dependencies, once for every edge.
pub open spec fn expected_value(selfs: Seq<u64>, deps: Seq<Seq<int>>, i: int) -> int
    decreases i, deps[i].len() + 1,
{
    selfs[i] + dep_sum(selfs, deps, i, deps[i].len() as int)
}

/// Whether the expected value of every node fits in 64 bits.
pub open spec fn values_fit(selfs: Seq<u64>, deps: Seq<Seq<int>>) -> bool {
    forall|i: int| 0 <= i < selfs.len() ==> #[trigger] expected_value(selfs, deps, i) <= u64::MAX
}

/// What the entries of `values` at the positions that `targets` lists add
/// up to, an entry counted as often as it is listed.
pub open spec fn picked_sum(values: Seq<u64>, targets: Seq<usize>) -> int
    decreases targets.len(),
{
    if targets.len() == 0 {
        0
    } else {
        picked_sum(values, targets.drop_last()) + values[targets.last() as int]
    }
}

/// No partial sum over the dependencies of a node is negative.
proof fn lemma_dep_sum_nonnegative(selfs: Seq<u64>, deps: Seq<Seq<int>>, i: int, k: int)
    ensures
        dep_sum(selfs, deps, i, k) >= 0,
    decreases i, k,
{
    if k > 0 {
        lemma_dep_sum_nonnegative(selfs, deps, i, k - 1);
        let d = deps[i][k - 1];
        if 0 <= d < i {
            lemma_dep_sum_nonnegative(selfs, deps, d, deps[d].len() as int);
            assert(expected_value(selfs, deps, d) == selfs[d] + dep_sum(
                selfs,
                deps,
                d,
                deps[d].len() as int,
            ));
        }
    }
}

/// No expected value and no partial sum of them is negative.
pub proof fn lemma_values_nonnegative(selfs: Seq<u64>, deps: Seq<Seq<int>>, i: int, k: int)
    ensures
        expected_value(selfs, deps, i) >= 0,
        dep_sum(selfs, deps, i, k) >= 0,
{
    lemma_dep_sum_nonnegative(selfs, deps, i, deps[i].len() as int);
    lemma_dep_sum_nonnegative(selfs, deps, i, k);
}

/// A sum of picked entries is not negative and grows with the list.
pub proof fn lemma_picked_sum_monotone(values: Seq<u64>, targets: Seq<usize>, j: int)
    requires
        0 <= j <= targets.len(),
    ensures
        0 <= picked_sum(values, targets.take(j)) <= picked_sum(values, targets),
    decreases targets.len(),
{
    if targets.len() == 0 || j == targets.len() {
        assert(targets.take(j) =~= targets);
        if targets.len() > 0 {
            lemma_picked_sum_monotone(values, targets.drop_last(), j - 1);
            assert(targets.drop_last().take(j - 1) =~= targets.drop_last());
        }
    } else {
        lemma_picked_sum_monotone(values, targets.drop_last(), j);
        assert(targets.drop_last().take(j) =~= targets.take(j));
    }
}

/// Where `found` is the list of the dependencies of node `i`, all of them
/// nodes before `i`, and `values` holds what each of them reports, the
/// entries picked add up to the dependencies' share of what `i` reports.
pub proof fn lemma_picked_sum_is_dep_sum(
    selfs: Seq<u64>,
    deps: Seq<Seq<int>>,
    i: int,
    values: Seq<u64>,
    found: Seq<usize>,
    k: int,
)
    requires
        positions(found) == deps[i],
        0 <= k <= found.len(),
        forall|t: int|
            0 <= t < found.len() ==> #[trigger] found[t] < i && values[found[t] as int]
                == expected_value(selfs, deps, found[t] as int),
    ensures
        picked_sum(values, found.take(k)) == dep_sum(selfs, deps, i, k),
    decreases k,
{
    if k > 0 {
        lemma_picked_sum_is_dep_sum(selfs, deps, i, values, found, k - 1);
        assert(found.take(k).drop_last() =~= found.take(k - 1));
        assert(deps[i][k - 1] == positions(found)[k - 1]);
        assert(found[k - 1] < i);
    }
}

/// Adds up the entries of `values` at the positions that `targets` lists,
/// as far as the sum fits in 64 bits.
pub fn sum_picked(values: &Vec<u64>, targets: &Vec<usize>) -> (r: Option<u64>)
    requires
        forall|t: int| 0 <= t < targets@.len() ==> #[trigger] targets@[t] < values@.len(),
    ensures
        match r {
            Some(sum) => sum == picked_sum(values@, targets@),
            None => picked_sum(values@, targets@) > u64::MAX,
        },
{
    let mut sum: u64 = 0;
    let mut t: usize = 0;
    while t < targets.len()
        invariant
            t <= targets@.len(),
            sum == picked_sum(values@, targets@.take(t as int)),
            forall|t: int| 0 <= t < targets@.len() ==> #[trigger] targets@[t] < values@.len(),
        decreases targets@.len() - t,
    {
        assert(targets@.take(t + 1).drop_last() =~= targets@.take(t as int));
        match sum.checked_add(values[targets[t]]) {
            Some(next) => {
                sum = next;
            },
            None => {
                proof {
                    lemma_picked_sum_monotone(values@, targets@, t + 1);
                }
                return None;
            },
        }
        t += 1;
    }
    assert(targets@.take(targets@.len() as int) =~= targets@);
    Some(sum)
}

/// What the nodes that `list` names report to node `i` together. An entry
/// that is no node before `i` counts for nothing.
pub open spec fn reports_sum(selfs: Seq<u64>, deps: Seq<Seq<int>>, i: int, list: Seq<int>) -> int
    decreases list.len(),
{
    if list.len() == 0 {
        0
    } else {
        reports_sum(selfs, deps, i, list.drop_last()) + if 0 <= list.last() < i {
            expected_value(selfs, deps, list.last())
        } else {
            0
        }
    }
}

/// The sum over the first `k` dependencies of a node is the sum over that
/// part of its list.
proof fn lemma_dep_sum_is_reports_sum(selfs: Seq<u64>, deps: Seq<Seq<int>>, i: int, k: int)
    requires
        0 <= k <= deps[i].len(),
    ensures
        dep_sum(selfs, deps, i, k) == reports_sum(selfs, deps, i, deps[i].take(k)),
    decreases k,
{
    if k > 0 {
        lemma_dep_sum_is_reports_sum(selfs, deps, i, k - 1);
        assert(deps[i].take(k).drop_last() =~= deps[i].take(k - 1));
    }
}

/// Taking one entry out of a list takes its report out of the sum.
proof fn lemma_reports_sum_remove(
    selfs: Seq<u64>,
    deps: Seq<Seq<int>>,
    i: int,
    list: Seq<int>,
    j: int,
)
    requires
        0 <= j < list.len(),
    ensures
        reports_sum(selfs, deps, i, list) == reports_sum(selfs, deps, i, list.remove(j)) + if 0
            <= list[j] < i {
            expected_value(selfs, deps, list[j])
        } else {
            0
        },
    decreases list.len(),
{
    if j == list.len() - 1 {
        assert(list.remove(j) =~= list.drop_last());
    } else {
        lemma_reports_sum_remove(selfs, deps, i, list.drop_last(), j);
        assert(list.remove(j).drop_last() =~= list.drop_last().remove(j));
        assert(list.remove(j).last() == list.last());
    }
}

/// Two lists that hold the same entries equally often give the same sum.
proof fn lemma_reports_sum_permuted(
    selfs: Seq<u64>,
    deps: Seq<Seq<int>>,
    i: int,
    one: Seq<int>,
    other: Seq<int>,
)
    requires
        one.to_multiset() == other.to_multiset(),
    ensures
        reports_sum(selfs, deps, i, one) == reports_sum(selfs, deps, i, other),
    decreases one.len(),
{
    broadcast use vstd::seq_lib::group_to_multiset_ensures;

    if one.len() == 0 {
        assert(one.to_multiset().len() == 0);
        assert(other.to_multiset().len() == other.len());
    } else {
        let x = one.last();
        assert(one.drop_last().push(x) =~= one);
        assert(one.contains(x));
        assert(one.to_multiset().count(x) > 0);
        assert(other.to_multiset().count(x) > 0);
        assert(other.contains(x));
        let j = other.index_of(x);
        assert(one.drop_last() =~= one.remove(one.len() - 1));
        assert(one.drop_last().to_multiset() == other.remove(j).to_multiset());
        lemma_reports_sum_permuted(selfs, deps, i, one.drop_last(), other.remove(j));
        lemma_reports_sum_remove(selfs, deps, i, other, j);
    }
}

/// Where two graphs agree in what every node before `i` reports, a list
/// gives the same sum in both.
proof fn lemma_reports_sum_agrees(
    selfs: Seq<u64>,
    one: Seq<Seq<int>>,
    other: Seq<Seq<int>>,
    i: int,
    list: Seq<int>,
)
    requires
        forall|d: int| 0 <= d < i ==> #[trigger] expected_value(selfs, one, d) == expected_value(selfs, other, d),
    ensures
        reports_sum(selfs, one, i, list) == reports_sum(selfs, other, i, list),
    decreases list.len(),
{
    if list.len() > 0 {
        lemma_reports_sum_agrees(selfs, one, other, i, list.drop_last());
    }
}

/// What a node reports depends on how often each edge occurs, not on the
/// order of the edges: graphs whose nodes have the same dependencies
/// equally often agree in every expected value.
pub proof fn lemma_values_count_edges_only(
    selfs: Seq<u64>,
    one: Seq<Seq<int>>,
    other: Seq<Seq<int>>,
    i: int,
)
    requires
        one.len() == other.len(),
        0 <= i < one.len(),
        forall|a: int| 0 <= a < one.len() ==> (#[trigger] one[a]).to_multiset() == other[a].to_multiset(),
    ensures
        expected_value(selfs, one, i) == expected_value(selfs, other, i),
    decreases i,
{
    assert forall|d: int| 0 <= d < i implies #[trigger] expected_value(selfs, one, d)
        == expected_value(selfs, other, d) by {
        lemma_values_count_edges_only(selfs, one, other, d);
    }
    lemma_dep_sum_is_reports_sum(selfs, one, i, one[i].len() as int);
    lemma_dep_sum_is_reports_sum(selfs, other, i, other[i].len() as int);
    assert(one[i].take(one[i].len() as int) =~= one[i]);
    assert(other[i].take(other[i].len() as int) =~= other[i]);
    assert(one[i].to_multiset() == other[i].to_multiset());
    lemma_reports_sum_permuted(selfs, one, i, one[i], other[i]);
    lemma_reports_sum_agrees(selfs, one, other, i, other[i]);
}

} // verus!
