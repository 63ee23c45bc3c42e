//! What holds of every graph and of every run, proved once and for all.

use crate::index::Index;
use crate::oracle::lemma_values_count_edges_only;
use crate::oracle::lemma_values_nonnegative;
use crate::shape::creation_order_reversed;
use crate::shape::lemma_descending_is_acyclic;
use crate::state::GraphState;
use crate::state::Outcome;
use crate::store::has_cycle;
use crate::transaction::LoaderTransactionGen;
use vstd::prelude::*;

verus! {

/// A well-formed graph has a topological order, namely its nodes from the
/// last created to the first, and no cycle: no walk along one edge or more
/// comes back to where it began.
pub proof fn law_acyclic(s: GraphState)
    requires
        s.wf(),
    ensures
        s.is_topological(creation_order_reversed(s.nodes.len())),
        !has_cycle(s.dependencies),
{
    lemma_descending_is_acyclic(s.dependencies);
}

/// What a node should report does not depend on what the nodes hold or on
/// any sequence number: graphs that agree in edges and own values agree in
/// every expected value.
pub proof fn law_oracle_reads_shape_only(s: GraphState, t: GraphState, i: int)
    requires
        s.dependencies == t.dependencies,
        s.nodes.len() == t.nodes.len(),
        forall|j: int| 0 <= j < s.nodes.len() ==> (#[trigger] s.nodes[j]).self_value == t.nodes[j].self_value,
    ensures
        s.oracle(i) == t.oracle(i),
        s.fits() == t.fits(),
{
    assert(s.self_values() =~= t.self_values());
}

/// Once the expected values are derived and stored, every node holds its
/// own value plus what each of its dependencies holds, a dependency
/// counted once for every edge that leads to it.
pub proof fn law_recomputed_is_consistent(s: GraphState)
    requires
        s.fits(),
    ensures
        s.recomputed().consistent(),
{
    let r = s.recomputed();
    assert forall|i: int| 0 <= i < r.nodes.len() implies (#[trigger] r.nodes[i]).expected_value
        == r.oracle(i) by {
        law_oracle_reads_shape_only(s, r, i);
        lemma_values_nonnegative(s.self_values(), s.dependencies, i, 0);
        assert(s.oracle(i) <= u64::MAX);
    }
}

/// Applying an operation to a graph whose nodes hold what they should
/// report leaves a graph whose nodes hold what they should report.
pub proof fn law_operation_keeps_consistent(s: GraphState, gen: LoaderTransactionGen)
    requires
        s.nodes.len() > 0,
        s.consistent(),
    ensures
        s.after(gen).consistent(),
        s.after(gen).nodes.len() == s.nodes.len(),
{
    let t = s.after(gen);
    match s.outcome(gen) {
        Outcome::Publish(a) => {
            let lhs = gen->UpdateEdge_0;
            let rhs = gen->UpdateEdge_1;
            lhs.lemma_in_range(s.nodes.len() as int);
            rhs.lemma_in_range(s.nodes.len() as int);
            let toggled = s.toggled(s.dependent(lhs, rhs), s.dependency(lhs, rhs));
            law_recomputed_is_consistent(toggled);
            assert forall|i: int| 0 <= i < t.nodes.len() implies (#[trigger] t.nodes[i]).expected_value
                == t.oracle(i) by {
                law_oracle_reads_shape_only(toggled.recomputed(), t, i);
                assert(toggled.recomputed().nodes[i].expected_value == toggled.recomputed().oracle(i));
            }
        },
        _ => {
            assert forall|i: int| 0 <= i < t.nodes.len() implies (#[trigger] t.nodes[i]).expected_value
                == t.oracle(i) by {
                law_oracle_reads_shape_only(s, t, i);
                assert(s.nodes[i].expected_value == s.oracle(i));
            }
        },
    }
}

/// At every point of a test run that starts from a graph whose nodes hold
/// what they should report, the nodes hold what they should report: after
/// the batch that publishes and invokes every node, and after each of the
/// operations that follow.
pub proof fn law_run_keeps_consistent(s: GraphState, gens: Seq<LoaderTransactionGen>, k: int)
    requires
        k > 0 ==> s.nodes.len() > 0,
        s.consistent(),
        0 <= k <= gens.len(),
    ensures
        s.launched().consistent(),
        s.launched().run(gens, k).consistent(),
        s.launched().run(gens, k).nodes.len() == s.nodes.len(),
    decreases k,
{
    let first = s.launched();
    assert forall|i: int| 0 <= i < first.nodes.len() implies (#[trigger] first.nodes[i]).expected_value
        == first.oracle(i) by {
        law_oracle_reads_shape_only(s, first, i);
        assert(s.nodes[i].expected_value == s.oracle(i));
    }
    if k > 0 {
        law_run_keeps_consistent(s, gens, k - 1);
        law_operation_keeps_consistent(first.run(gens, k - 1), gens[k - 1]);
    }
}

/// An edge update whose two indices resolve to one node does nothing: the
/// graph stays as it is and no request is handed out.
pub proof fn law_update_of_one_node_is_no_op(s: GraphState, lhs: Index, rhs: Index)
    requires
        lhs.spec_index(s.nodes.len() as int) == rhs.spec_index(s.nodes.len() as int),
    ensures
        s.outcome(LoaderTransactionGen::UpdateEdge(lhs, rhs)) == Outcome::Nothing,
        s.after(LoaderTransactionGen::UpdateEdge(lhs, rhs)) == s,
        s.hands_out(LoaderTransactionGen::UpdateEdge(lhs, rhs), None),
{
}

/// Updating the same edge twice brings back the edges: where the
/// dependent has at most one edge to the dependency and the second update
/// is not refused, every node has the dependencies it began with, each as
/// often as before.
pub proof fn law_double_update_restores_edges(s: GraphState, lhs: Index, rhs: Index)
    requires
        s.wf(),
        s.nodes.len() > 0,
        s.dependencies[s.dependent(lhs, rhs)].to_multiset().count(s.dependency(lhs, rhs)) <= 1,
        !(s.after(LoaderTransactionGen::UpdateEdge(lhs, rhs)).outcome(
            LoaderTransactionGen::UpdateEdge(lhs, rhs),
        ) is Fail),
    ensures
        ({
            let gen = LoaderTransactionGen::UpdateEdge(lhs, rhs);
            let twice = s.after(gen).after(gen);
            &&& twice.nodes.len() == s.nodes.len()
            &&& twice.dependencies.len() == s.dependencies.len()
            &&& forall|a: int|
                0 <= a < s.nodes.len() ==> (#[trigger] twice.dependencies[a]).to_multiset()
                    == s.dependencies[a].to_multiset()
        }),
{
    broadcast use vstd::seq_lib::group_to_multiset_ensures;

    let gen = LoaderTransactionGen::UpdateEdge(lhs, rhs);
    let a = s.dependent(lhs, rhs);
    let b = s.dependency(lhs, rhs);
    let once = s.after(gen);
    let twice = once.after(gen);
    lhs.lemma_in_range(s.nodes.len() as int);
    rhs.lemma_in_range(s.nodes.len() as int);
    if s.outcome(gen) is Publish {
        let list = s.dependencies[a];
        assert(once.nodes.len() == s.nodes.len());
        assert(once.dependent(lhs, rhs) == a && once.dependency(lhs, rhs) == b);
        assert(once.outcome(gen) is Publish);
        list.index_of_first_ensures(b);
        if list.contains(b) {
            let first = list.index_of_first(b).unwrap();
            assert(once.dependencies[a] == list.remove(first));
            assert(list.to_multiset().count(b) == 1);
            assert(list.remove(first).to_multiset().count(b) == 0);
            assert(!list.remove(first).contains(b));
            assert(twice.dependencies[a] =~= list.remove(first).insert(0, b));
            assert(twice.dependencies[a].to_multiset() =~= list.to_multiset());
        } else {
            let put = seq![b] + list;
            assert(once.dependencies[a] == put);
            put.index_of_first_ensures(b);
            assert(put[0] == b);
            assert(put.index_of_first(b) == Some(0int));
            assert(put.remove(0) =~= list);
            assert(twice.dependencies[a] =~= list);
        }
    }
}

/// Updating the same edge twice brings back the values: where, beyond
/// what brings back the edges, the nodes hold what they should report,
/// every node holds the value it began with.
pub proof fn law_double_update_restores_values(s: GraphState, lhs: Index, rhs: Index)
    requires
        s.wf(),
        s.nodes.len() > 0,
        s.consistent(),
        s.dependencies[s.dependent(lhs, rhs)].to_multiset().count(s.dependency(lhs, rhs)) <= 1,
        !(s.after(LoaderTransactionGen::UpdateEdge(lhs, rhs)).outcome(
            LoaderTransactionGen::UpdateEdge(lhs, rhs),
        ) is Fail),
    ensures
        ({
            let gen = LoaderTransactionGen::UpdateEdge(lhs, rhs);
            let twice = s.after(gen).after(gen);
            forall|i: int|
                0 <= i < s.nodes.len() ==> (#[trigger] twice.nodes[i]).expected_value
                    == s.nodes[i].expected_value
        }),
{
    let gen = LoaderTransactionGen::UpdateEdge(lhs, rhs);
    let once = s.after(gen);
    let twice = once.after(gen);
    law_double_update_restores_edges(s, lhs, rhs);
    law_operation_keeps_consistent(s, gen);
    law_operation_keeps_consistent(once, gen);
    assert forall|i: int| 0 <= i < s.nodes.len() implies (#[trigger] twice.nodes[i]).expected_value
        == s.nodes[i].expected_value by {
        assert(twice.self_values() =~= s.self_values());
        lemma_values_count_edges_only(s.self_values(), twice.dependencies, s.dependencies, i);
        assert(s.nodes[i].expected_value == s.oracle(i));
    }
}

} // verus!
