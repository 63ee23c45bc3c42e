//! The graph as a mathematical value, and what each operation makes of it.

use crate::account::AccountData;
use crate::account::ModuleId;
use crate::index::Index;
use crate::node::Node;
use crate::oracle::expected_value;
use crate::oracle::values_fit;
use crate::store::has_edge;
use crate::store::total_edges;
use crate::store::with_edge;
use crate::transaction::entry_function;
use crate::transaction::invoke_arguments;
use crate::transaction::LoaderError;
use crate::transaction::LoaderTransaction;
use crate::transaction::LoaderTransactionGen;
use vstd::prelude::*;

verus! {

/// The nodes in the order of their creation; for each node the positions
/// of its direct dependencies, one entry for each edge, the edge added
/// last first; and the account that sends the invocations.
pub struct GraphState {
    pub nodes: Seq<Node>,
    pub dependencies: Seq<Seq<int>>,
    pub sender: AccountData,
}

/// What applying a drawn operation leads to.
pub enum Outcome {
    /// Nothing changes and no transaction is due.
    Nothing,
    /// The node at this position is published anew.
    Publish(int),
    /// The node at this position is invoked.
    Invoke(int),
    /// The operation is refused and nothing changes.
    Fail(LoaderError),
}

/// The names of the nodes at the positions that `targets` lists.
pub open spec fn names_of(nodes: Seq<Node>, targets: Seq<int>) -> Seq<ModuleId> {
    Seq::new(targets.len(), |t: int| nodes[targets[t]].name)
}

impl GraphState {
    /// Every edge leads from a node to one created before it, identities
    /// are valid and differ from node to node, each module lives at its
    /// owner's address, the sender owns no module, and the graph can still
    /// be numbered.
    pub open spec fn wf(self) -> bool {
        &&& self.dependencies.len() == self.nodes.len() <= u32::MAX
        &&& total_edges(self.dependencies) <= u32::MAX
        &&& forall|a: int, t: int|
            0 <= a < self.dependencies.len() && 0 <= t < self.dependencies[a].len() ==> 0
                <= #[trigger] self.dependencies[a][t] < a
        &&& forall|i: int|
            0 <= i < self.nodes.len() ==> (#[trigger] self.nodes[i]).name.wf()
                && self.nodes[i].name.address == self.nodes[i].account_data.address
        &&& forall|i: int, j: int|
            0 <= i < j < self.nodes.len() ==> !(#[trigger] self.nodes[i]).name.same_module(
                &(#[trigger] self.nodes[j]).name,
            )
        &&& forall|i: int|
            0 <= i < self.nodes.len() ==> (#[trigger] self.nodes[i]).account_data.address.bytes@
                != self.sender.address.bytes@
    }

    /// The nodes' own values, by position.
    pub open spec fn self_values(self) -> Seq<u64> {
        Seq::new(self.nodes.len(), |i: int| self.nodes[i].self_value)
    }

    /// What the node at position `i` should report.
    pub open spec fn oracle(self, i: int) -> int {
        expected_value(self.self_values(), self.dependencies, i)
    }

    /// Whether what every node should report fits in 64 bits.
    pub open spec fn fits(self) -> bool {
        values_fit(self.self_values(), self.dependencies)
    }

    /// Whether every node holds the value that it should report.
    pub open spec fn consistent(self) -> bool {
        forall|i: int|
            0 <= i < self.nodes.len() ==> (#[trigger] self.nodes[i]).expected_value == self.oracle(i)
    }

    /// The same graph with every node holding what it should report.
    pub open spec fn recomputed(self) -> GraphState {
        GraphState {
            nodes: Seq::new(
                self.nodes.len(),
                |i: int| self.nodes[i].with_expected(self.oracle(i) as u64),
            ),
            ..self
        }
    }

    /// The same graph with the first edge from `a` to `b` taken out if
    /// there is one, and an edge from `a` to `b` put in front of the other
    /// edges of `a` if there is none.
    pub open spec fn toggled(self, a: int, b: int) -> GraphState {
        GraphState {
            dependencies: if self.dependencies[a].contains(b) {
                self.dependencies.update(a, self.dependencies[a].remove_value(b))
            } else {
                with_edge(self.dependencies, a, b)
            },
            ..self
        }
    }

    /// The same graph after the owner of node `a` signed a transaction.
    pub open spec fn published(self, a: int) -> GraphState {
        GraphState { nodes: self.nodes.update(a, self.nodes[a].with_next_sequence()), ..self }
    }

    /// The same graph after the sender signed `count` transactions.
    pub open spec fn invoked(self, count: int) -> GraphState {
        GraphState {
            sender: AccountData {
                sequence_number: (self.sender.sequence_number + count) as u64,
                ..self.sender
            },
            ..self
        }
    }

    /// The greater of the two positions that the indices resolve to: the
    /// dependent of the pair.
    pub open spec fn dependent(self, lhs: Index, rhs: Index) -> int {
        let l = lhs.spec_index(self.nodes.len() as int);
        let r = rhs.spec_index(self.nodes.len() as int);
        if l >= r {
            l
        } else {
            r
        }
    }

    /// The lesser of the two positions that the indices resolve to: the
    /// dependency of the pair.
    pub open spec fn dependency(self, lhs: Index, rhs: Index) -> int {
        let l = lhs.spec_index(self.nodes.len() as int);
        let r = rhs.spec_index(self.nodes.len() as int);
        if l >= r {
            r
        } else {
            l
        }
    }

    /// What applying `gen` leads to.
    pub open spec fn outcome(self, gen: LoaderTransactionGen) -> Outcome {
        match gen {
            LoaderTransactionGen::Invoke(idx) => {
                if self.sender.sequence_number == u64::MAX {
                    Outcome::Fail(LoaderError::SequenceOverflow)
                } else {
                    Outcome::Invoke(idx.spec_index(self.nodes.len() as int))
                }
            },
            LoaderTransactionGen::UpdateEdge(lhs, rhs) => {
                let a = self.dependent(lhs, rhs);
                let b = self.dependency(lhs, rhs);
                if a == b {
                    Outcome::Nothing
                } else if !self.dependencies[a].contains(b) && total_edges(self.dependencies)
                    >= u32::MAX {
                    Outcome::Fail(LoaderError::CapacityExceeded)
                } else if self.nodes[a].account_data.sequence_number == u64::MAX {
                    Outcome::Fail(LoaderError::SequenceOverflow)
                } else if !self.toggled(a, b).fits() {
                    Outcome::Fail(LoaderError::ValueOverflow)
                } else {
                    Outcome::Publish(a)
                }
            },
        }
    }

    /// The graph as it is when the transaction that `gen` leads to is
    /// written: the edge updated and the values computed anew, no sequence
    /// number raised yet.
    pub open spec fn prepared(self, gen: LoaderTransactionGen) -> GraphState {
        match gen {
            LoaderTransactionGen::Invoke(_) => self,
            LoaderTransactionGen::UpdateEdge(lhs, rhs) => {
                if self.outcome(gen) is Publish {
                    self.toggled(
                        self.dependent(lhs, rhs),
                        self.dependency(lhs, rhs),
                    ).recomputed()
                } else {
                    self
                }
            },
        }
    }

    /// The graph after `gen` was applied.
    pub open spec fn after(self, gen: LoaderTransactionGen) -> GraphState {
        match self.outcome(gen) {
            Outcome::Nothing => self,
            Outcome::Fail(_) => self,
            Outcome::Invoke(_) => self.invoked(1),
            Outcome::Publish(a) => self.prepared(gen).published(a),
        }
    }

    /// Whether `order` lists every node once.
    pub open spec fn lists_all_nodes(self, order: Seq<usize>) -> bool {
        &&& order.len() == self.nodes.len()
        &&& order.no_duplicates()
        &&& forall|p: int| 0 <= p < order.len() ==> #[trigger] order[p] < self.nodes.len()
    }

    /// Whether `order` lists every node once, each before all of its
    /// dependencies.
    pub open spec fn is_topological(self, order: Seq<usize>) -> bool {
        &&& self.lists_all_nodes(order)
        &&& forall|p: int, q: int|
            0 <= p < order.len() && 0 <= q < order.len() && has_edge(
                self.dependencies,
                #[trigger] order[p] as int,
                #[trigger] order[q] as int,
            ) ==> p < q
    }

    /// Whether every owner can sign one transaction more, and the sender
    /// one for each node.
    pub open spec fn can_launch(self) -> bool {
        &&& self.sender.sequence_number + self.nodes.len() <= u64::MAX
        &&& forall|i: int|
            0 <= i < self.nodes.len() ==> (#[trigger] self.nodes[i]).account_data.sequence_number
                < u64::MAX
    }

    /// The same graph after every node was published and invoked once.
    pub open spec fn launched(self) -> GraphState {
        GraphState {
            nodes: Seq::new(self.nodes.len(), |i: int| self.nodes[i].with_next_sequence()),
            ..self.invoked(self.nodes.len() as int)
        }
    }

    /// Whether `txns` is the batch that publishes and then invokes every
    /// node: first the packages, dependencies before the nodes that depend
    /// on them, which is `order` taken from its end; then the invocations
    /// in the order of `order`.
    pub open spec fn is_initial_batch(self, order: Seq<usize>, txns: Seq<LoaderTransaction>) -> bool {
        let n = self.nodes.len() as int;
        &&& txns.len() == 2 * n
        &&& forall|k: int|
            0 <= k < n ==> self.is_publish_of(#[trigger] txns[k], order[n - 1 - k] as int)
        &&& forall|k: int|
            0 <= k < n ==> self.invoked(k).is_invoke_of(#[trigger] txns[n + k], order[k] as int)
    }

    /// The graph after the first `k` of `gens` were applied in turn.
    pub open spec fn run(self, gens: Seq<LoaderTransactionGen>, k: int) -> GraphState
        decreases k,
    {
        if k <= 0 {
            self
        } else {
            self.run(gens, k - 1).after(gens[k - 1])
        }
    }

    /// Whether the operation at position `k` of `gens` hands out a request.
    pub open spec fn yields(self, gens: Seq<LoaderTransactionGen>, k: int) -> bool {
        self.run(gens, k).outcome(gens[k]) is Publish || self.run(gens, k).outcome(gens[k]) is Invoke
    }

    /// How many requests the first `k` of `gens` hand out.
    pub open spec fn produced(self, gens: Seq<LoaderTransactionGen>, k: int) -> int
        decreases k,
    {
        if k <= 0 {
            0
        } else {
            self.produced(gens, k - 1) + if self.yields(gens, k - 1) {
                1int
            } else {
                0int
            }
        }
    }

    /// Whether none of the first `k` of `gens` is refused.
    pub open spec fn runs_through(self, gens: Seq<LoaderTransactionGen>, k: int) -> bool {
        forall|j: int| 0 <= j < k ==> !(#[trigger] self.run(gens, j).outcome(gens[j]) is Fail)
    }

    /// Whether `txns` holds the requests that applying `gens` in turn
    /// hands out, in that order and nothing else.
    pub open spec fn follows(self, gens: Seq<LoaderTransactionGen>, txns: Seq<LoaderTransaction>) -> bool {
        &&& txns.len() == self.produced(gens, gens.len() as int)
        &&& forall|k: int|
            0 <= k < gens.len() && #[trigger] self.yields(gens, k) ==> self.run(gens, k).hands_out(
                gens[k],
                Some(txns[self.produced(gens, k)]),
            )
    }

    /// Whether `txn` asks to publish node `a` of this graph: signed by its
    /// owner, with its own value and the names of its dependencies, one
    /// for each edge and in the order of the edges.
    pub open spec fn is_publish_of(self, txn: LoaderTransaction, a: int) -> bool {
        &&& txn matches LoaderTransaction::Publish(p)
        &&& p.sender == self.nodes[a].account_data.address
        &&& p.sequence_number == self.nodes[a].account_data.sequence_number
        &&& p.module == self.nodes[a].name
        &&& p.self_value == self.nodes[a].self_value
        &&& p.dependencies@ == names_of(self.nodes, self.dependencies[a])
    }

    /// Whether `txn` asks to invoke node `i` of this graph, asserting the
    /// value that the node holds.
    pub open spec fn is_invoke_of(self, txn: LoaderTransaction, i: int) -> bool {
        &&& txn matches LoaderTransaction::Invoke(c)
        &&& c.sender == self.sender.address
        &&& c.sequence_number == self.sender.sequence_number
        &&& c.module == self.nodes[i].name
        &&& c.function@ == entry_function()
        &&& c.expected_value == self.nodes[i].expected_value
        &&& invoke_arguments(c.arguments@, c.expected_value)
    }

    /// Whether the request that applying `gen` hands out, if any, is `txn`.
    pub open spec fn hands_out(self, gen: LoaderTransactionGen, txn: Option<LoaderTransaction>) -> bool {
        match self.outcome(gen) {
            Outcome::Nothing => txn is None,
            Outcome::Fail(_) => txn is None,
            Outcome::Invoke(i) => txn matches Some(t) && self.is_invoke_of(t, i),
            Outcome::Publish(a) => txn matches Some(t) && self.prepared(gen).is_publish_of(t, a),
        }
    }
}

/// Storing the expected values keeps a graph well formed.
pub proof fn lemma_recomputed_wf(s: GraphState)
    requires
        s.wf(),
    ensures
        s.recomputed().wf(),
{
    let r = s.recomputed();
    assert forall|i: int, j: int| 0 <= i < j < r.nodes.len() implies !(#[trigger] r.nodes[i]).name.same_module(
        &(#[trigger] r.nodes[j]).name,
    ) by {
        assert(r.nodes[i].name == s.nodes[i].name);
        assert(r.nodes[j].name == s.nodes[j].name);
    }
    assert forall|i: int| 0 <= i < r.nodes.len() implies (#[trigger] r.nodes[i]).name.wf()
        && r.nodes[i].name.address == r.nodes[i].account_data.address by {
        assert(r.nodes[i].name == s.nodes[i].name);
        assert(s.nodes[i].name.wf());
    }
    assert forall|i: int| 0 <= i < r.nodes.len() implies (#[trigger] r.nodes[i]).account_data.address.bytes@
        != r.sender.address.bytes@ by {
        assert(r.nodes[i].account_data == s.nodes[i].account_data);
    }
}

/// The count of requests handed out grows with the number of operations,
/// by one at least across an operation that hands one out.
pub proof fn lemma_produced_grows(s: GraphState, gens: Seq<LoaderTransactionGen>, j: int, k: int)
    requires
        0 <= j <= k,
    ensures
        0 <= s.produced(gens, j) <= s.produced(gens, k),
        j < k && s.yields(gens, j) ==> s.produced(gens, j) < s.produced(gens, k),
    decreases k,
{
    if j < k {
        lemma_produced_grows(s, gens, j, k - 1);
    } else if k > 0 {
        lemma_produced_grows(s, gens, 0, k - 1);
        lemma_produced_grows(s, gens, k - 1, k - 1);
    }
}

/// A request to publish a node stays one when other nodes were published
/// in the meantime: neither the node nor any name or edge has changed.
pub proof fn lemma_publish_request_stands(
    now: GraphState,
    then: GraphState,
    txn: LoaderTransaction,
    a: int,
)
    requires
        then.wf(),
        now.is_publish_of(txn, a),
        now.dependencies == then.dependencies,
        now.nodes.len() == then.nodes.len(),
        0 <= a < now.nodes.len(),
        now.nodes[a] == then.nodes[a],
        forall|i: int| 0 <= i < now.nodes.len() ==> (#[trigger] now.nodes[i]).name == then.nodes[i].name,
    ensures
        then.is_publish_of(txn, a),
{
    let targets = then.dependencies[a];
    assert(names_of(then.nodes, targets) =~= names_of(now.nodes, targets)) by {
        assert forall|t: int| 0 <= t < targets.len() implies then.nodes[targets[t]].name
            == now.nodes[targets[t]].name by {
            assert(0 <= then.dependencies[a][t] < a);
        }
    }
}

} // verus!
