//! Facts about lists of successors: how many edges they hold, and why a
//! graph whose edges all lead to earlier nodes has no cycle.

use crate::oracle::expected_value;
use crate::oracle::lemma_picked_sum_is_dep_sum;
use crate::oracle::picked_sum;
use crate::store::has_cycle;
use crate::store::has_edge;
use crate::store::is_path;
use crate::store::is_topological_order;
use crate::store::positions;
use crate::store::total_edges;
use vstd::prelude::*;

verus! {

/// Whether every edge leads from its node to a node of lesser position.
pub open spec fn descending(lists: Seq<Seq<int>>) -> bool {
    forall|a: int, t: int|
        0 <= a < lists.len() && 0 <= t < lists[a].len() ==> 0 <= #[trigger] lists[a][t] < a
}

/// The positions `0..n` from the last to the first.
pub open spec fn creation_order_reversed(n: nat) -> Seq<usize> {
    Seq::new(n, |p: int| (n - 1 - p) as usize)
}

/// Replacing one list changes the number of edges by the difference of
/// the lengths.
pub proof fn lemma_total_edges_update(lists: Seq<Seq<int>>, a: int, list: Seq<int>)
    requires
        0 <= a < lists.len(),
    ensures
        total_edges(lists.update(a, list)) == total_edges(lists) - lists[a].len() + list.len(),
    decreases lists.len(),
{
    if a == lists.len() - 1 {
        assert(lists.update(a, list).drop_last() =~= lists.drop_last());
    } else {
        lemma_total_edges_update(lists.drop_last(), a, list);
        assert(lists.update(a, list).drop_last() =~= lists.drop_last().update(a, list));
    }
}

/// Along a walk in a descending graph the positions fall.
proof fn lemma_path_falls(lists: Seq<Seq<int>>, path: Seq<int>, k: int)
    requires
        descending(lists),
        is_path(lists, path),
        0 <= k < path.len(),
    ensures
        path[k] <= path[0] - k,
    decreases k,
{
    if k > 0 {
        lemma_path_falls(lists, path, k - 1);
        assert(has_edge(lists, path[k - 1], path[k - 1 + 1]));
        let t = lists[path[k - 1]].index_of(path[k]);
        assert(lists[path[k - 1]][t] < path[k - 1]);
    }
}

/// A graph whose edges all lead to earlier nodes has no cycle, and taking
/// its nodes from the last created to the first puts every node before
/// its dependencies.
pub proof fn lemma_descending_is_acyclic(lists: Seq<Seq<int>>)
    requires
        descending(lists),
        lists.len() <= usize::MAX,
    ensures
        !has_cycle(lists),
        is_topological_order(creation_order_reversed(lists.len()), lists.len(), lists),
{
    assert forall|path: Seq<int>|
        #[trigger] is_path(lists, path) && path.len() >= 2 implies path.first()
        != path.last() by {
        lemma_path_falls(lists, path, path.len() - 1);
    }
    let n = lists.len();
    let order = creation_order_reversed(n);
    assert forall|p: int, q: int|
        0 <= p < n && 0 <= q < n && has_edge(
            lists,
            #[trigger] order[p] as int,
            #[trigger] order[q] as int,
        ) implies p < q by {
        let a = order[p] as int;
        let t = lists[a].index_of(order[q] as int);
        assert(lists[a][t] < a);
    }
}

/// An order that lists `n` positions below `n` without repeating one
/// lists every position.
pub proof fn lemma_order_covers(order: Seq<usize>, n: nat)
    requires
        order.len() == n,
        order.no_duplicates(),
        forall|p: int| 0 <= p < n ==> #[trigger] order[p] < n,
    ensures
        forall|x: usize| x < n ==> #[trigger] order.contains(x),
{
    let listed = positions(order);
    assert(listed.no_duplicates()) by {
        assert forall|p: int, q: int|
            0 <= p < listed.len() && 0 <= q < listed.len() && p != q implies listed[p]
            != listed[q] by {
            assert(order[p] != order[q]);
        }
    }
    listed.unique_seq_to_set();
    vstd::set_lib::lemma_int_range(0, n as int);
    let all = vstd::set_lib::set_int_range(0, n as int);
    assert(listed.to_set().subset_of(all)) by {
        assert forall|i: int| listed.to_set().contains(i) implies all.contains(i) by {
            let p = choose|p: int| 0 <= p < listed.len() && listed[p] == i;
            assert(order[p] < n);
        }
    }
    vstd::set_lib::lemma_len_subset(listed.to_set(), all);
    vstd::set_lib::lemma_subset_equality(listed.to_set(), all);
    assert forall|x: usize| x < n implies #[trigger] order.contains(x) by {
        assert(all.contains(x as int));
        assert(listed.to_set().contains(x as int));
        assert(listed.contains(x as int));
        let p = choose|p: int| 0 <= p < listed.len() && listed[p] == x as int;
        assert(order[p] == x);
    }
}

/// In a descending graph, once every node that comes after position `k`
/// of a topological order has its report in `values`, the reports that
/// the successors of the node at `k` contribute, added to its own value,
/// are what that node should report.
pub proof fn lemma_report_from_successors(
    lists: Seq<Seq<int>>,
    selfs: Seq<u64>,
    order: Seq<usize>,
    k: int,
    values: Seq<u64>,
    found: Seq<usize>,
)
    requires
        descending(lists),
        lists.len() == selfs.len(),
        is_topological_order(order, selfs.len(), lists),
        values.len() == selfs.len(),
        0 <= k < selfs.len(),
        positions(found) == lists[order[k] as int],
        forall|p: int|
            k < p < selfs.len() ==> values[#[trigger] order[p] as int] == expected_value(
                selfs,
                lists,
                order[p] as int,
            ),
    ensures
        forall|t: int| 0 <= t < found.len() ==> #[trigger] found[t] < values.len(),
        selfs[order[k] as int] + picked_sum(values, found) == expected_value(
            selfs,
            lists,
            order[k] as int,
        ),
{
    let n = selfs.len();
    let u = order[k] as int;
    lemma_order_covers(order, n);
    assert forall|t: int| 0 <= t < found.len() implies #[trigger] found[t] < u && values[found[t] as int]
        == expected_value(selfs, lists, found[t] as int) by {
        assert(lists[u][t] == positions(found)[t]);
        assert(0 <= lists[u][t] < u);
        assert(order.contains(found[t]));
        let q = choose|q: int| 0 <= q < order.len() && order[q] == found[t];
        assert(lists[u].contains(found[t] as int));
        assert(has_edge(lists, order[k] as int, order[q] as int));
    }
    lemma_picked_sum_is_dep_sum(selfs, lists, u, values, found, found.len() as int);
    assert(found.take(found.len() as int) =~= found);
    assert(positions(found).len() == found.len());
}

} // verus!
