//! Whole batches of requests: the one that publishes and invokes every
//! node, and the requests that a list of drawn operations hands out.

use crate::graph::DependencyGraph;
use crate::laws::law_run_keeps_consistent;
use crate::shape::lemma_order_covers;
use crate::state::lemma_produced_grows;
use crate::state::lemma_publish_request_stands;
use crate::state::Outcome;
use crate::transaction::LoaderError;
use crate::transaction::LoaderTransaction;
use crate::transaction::LoaderTransactionGen;
use vstd::prelude::*;

verus! {

impl DependencyGraph {
    /// Whether every owner can sign one transaction more, and the sender
    /// one for each node.
    pub fn can_launch(&self) -> (r: bool)
        requires
            self.wf(),
        ensures
            r == self@.can_launch(),
    {
        let n = self.node_count();
        if self.sender().sequence_number > u64::MAX - (n as u64) {
            return false;
        }
        let mut i: usize = 0;
        while i < n
            invariant
                self.wf(),
                i <= n == self@.nodes.len(),
                forall|j: int|
                    0 <= j < i ==> (#[trigger] self@.nodes[j]).account_data.sequence_number < u64::MAX,
            decreases n - i,
        {
            if self.node(i).account_data.sequence_number == u64::MAX {
                return false;
            }
            i += 1;
        }
        true
    }

    /// The batch that publishes and then invokes every node, for a given
    /// order of the nodes: the packages come first, in the reverse of
    /// `order`, then the invocations, in `order`. Where some account could
    /// not sign its share, nothing is handed out and nothing changes.
    pub fn batch_in_order(&mut self, order: &Vec<usize>) -> (r: Result<
        Vec<LoaderTransaction>,
        LoaderError,
    >)
        requires
            old(self).wf(),
            old(self)@.lists_all_nodes(order@),
        ensures
            final(self).wf(),
            final(self)@.nodes.len() == old(self)@.nodes.len(),
            old(self)@.consistent() ==> final(self)@.consistent(),
            match r {
                Ok(txns) => {
                    &&& old(self)@.can_launch()
                    &&& old(self)@.is_initial_batch(order@, txns@)
                    &&& final(self)@ == old(self)@.launched()
                },
                Err(e) => {
                    &&& !old(self)@.can_launch()
                    &&& e == LoaderError::SequenceOverflow
                    &&& final(self)@ == old(self)@
                },
            },
    {
        if !self.can_launch() {
            return Err(LoaderError::SequenceOverflow);
        }
        proof {
            if self@.consistent() {
                law_run_keeps_consistent(self@, Seq::empty(), 0);
            }
        }
        let n = order.len();
        let mut txns: Vec<LoaderTransaction> = Vec::new();
        let mut k: usize = 0;
        while k < n
            invariant
                self.wf(),
                old(self).wf(),
                old(self)@.lists_all_nodes(order@),
                old(self)@.can_launch(),
                k <= n == old(self)@.nodes.len() == self@.nodes.len(),
                self@.dependencies == old(self)@.dependencies,
                self@.sender == old(self)@.sender,
                forall|i: int|
                    0 <= i < n ==> (#[trigger] self@.nodes[i]).name == old(self)@.nodes[i].name,
                forall|p: int|
                    0 <= p < n - k ==> self@.nodes[#[trigger] order@[p] as int] == old(self)@.nodes[order@[p] as int],
                forall|p: int|
                    n - k <= p < n ==> self@.nodes[#[trigger] order@[p] as int] == old(
                        self,
                    )@.nodes[order@[p] as int].with_next_sequence(),
                txns@.len() == k,
                forall|j: int|
                    0 <= j < k ==> old(self)@.is_publish_of(
                        #[trigger] txns@[j],
                        order@[n - 1 - j] as int,
                    ),
            decreases n - k,
        {
            let a = order[n - 1 - k];
            let ghost before = self@;
            assert(before.nodes[order@[n - 1 - k] as int] == old(self)@.nodes[a as int]);
            match self.build_package_for_node(a) {
                Ok(txn) => {
                    proof {
                        lemma_publish_request_stands(before, old(self)@, txn, a as int);
                        assert forall|p: int| 0 <= p < n - (k + 1) implies self@.nodes[
                        #[trigger] order@[p] as int] == old(self)@.nodes[order@[p] as int] by {
                            assert(order@[p] != order@[n - 1 - k]);
                        }
                        assert forall|p: int| n - (k + 1) <= p < n implies self@.nodes[
                        #[trigger] order@[p] as int] == old(
                            self,
                        )@.nodes[order@[p] as int].with_next_sequence() by {
                            if p > n - 1 - k {
                                assert(order@[p] != order@[n - 1 - k]);
                            }
                        }
                    }
                    txns.push(txn);
                },
                Err(e) => {
                    return Err(e);
                },
            }
            k += 1;
        }
        proof {
            lemma_order_covers(order@, n as nat);
            assert forall|i: int| 0 <= i < n implies self@.nodes[i] == old(
                self,
            )@.nodes[i].with_next_sequence() by {
                assert(order@.contains(i as usize));
                let p = choose|p: int| 0 <= p < order@.len() && order@[p] == i as usize;
                assert(self@.nodes[order@[p] as int] == old(
                    self,
                )@.nodes[order@[p] as int].with_next_sequence());
            }
            assert(self@.nodes =~= old(self)@.launched().nodes);
        }
        let mut k: usize = 0;
        while k < n
            invariant
                self.wf(),
                old(self)@.lists_all_nodes(order@),
                old(self)@.can_launch(),
                k <= n == old(self)@.nodes.len(),
                self@.dependencies == old(self)@.dependencies,
                self@.nodes == old(self)@.launched().nodes,
                self@.sender == old(self)@.invoked(k as int).sender,
                txns@.len() == n + k,
                forall|j: int|
                    0 <= j < n ==> old(self)@.is_publish_of(
                        #[trigger] txns@[j],
                        order@[n - 1 - j] as int,
                    ),
                forall|j: int|
                    0 <= j < k ==> old(self)@.invoked(j).is_invoke_of(
                        #[trigger] txns@[n + j],
                        order@[j] as int,
                    ),
            decreases n - k,
        {
            match self.invoke_at(order[k]) {
                Ok(txn) => {
                    assert(old(self)@.invoked(k as int).is_invoke_of(txn, order@[k as int] as int));
                    txns.push(txn);
                },
                Err(e) => {
                    return Err(e);
                },
            }
            k += 1;
        }
        Ok(txns)
    }

    /// The batch that publishes every node, dependencies before the nodes
    /// that depend on them, and then invokes every node.
    pub fn build_initial_batch(&mut self) -> (r: Result<Vec<LoaderTransaction>, LoaderError>)
        requires
            old(self).wf(),
        ensures
            final(self).wf(),
            final(self)@.nodes.len() == old(self)@.nodes.len(),
            old(self)@.consistent() ==> final(self)@.consistent(),
            match r {
                Ok(txns) => {
                    &&& old(self)@.can_launch()
                    &&& exists|order: Seq<usize>|
                        old(self)@.is_topological(order) && #[trigger] old(self)@.is_initial_batch(
                            order,
                            txns@,
                        )
                    &&& final(self)@ == old(self)@.launched()
                },
                Err(e) => {
                    &&& !old(self)@.can_launch()
                    &&& e == LoaderError::SequenceOverflow
                    &&& final(self)@ == old(self)@
                },
            },
    {
        let order = self.topological_order();
        self.batch_in_order(&order)
    }

    /// Applies the operations in turn and collects the requests they hand
    /// out. The first operation that is refused ends the run: what came
    /// before it stays applied, and its reason is returned.
    pub fn generate_txns(&mut self, gens: &Vec<LoaderTransactionGen>) -> (r: Result<
        Vec<LoaderTransaction>,
        LoaderError,
    >)
        requires
            old(self).wf(),
            gens@.len() > 0 ==> old(self)@.nodes.len() > 0,
        ensures
            final(self).wf(),
            final(self)@.nodes.len() == old(self)@.nodes.len(),
            old(self)@.consistent() ==> final(self)@.consistent(),
            match r {
                Ok(txns) => {
                    &&& old(self)@.runs_through(gens@, gens@.len() as int)
                    &&& old(self)@.follows(gens@, txns@)
                    &&& final(self)@ == old(self)@.run(gens@, gens@.len() as int)
                },
                Err(e) => exists|k: int|
                    {
                        &&& 0 <= k < gens@.len()
                        &&& old(self)@.runs_through(gens@, k)
                        &&& #[trigger] old(self)@.run(gens@, k).outcome(gens@[k]) == Outcome::Fail(e)
                        &&& final(self)@ == old(self)@.run(gens@, k)
                    },
            },
    {
        let mut txns: Vec<LoaderTransaction> = Vec::new();
        let mut k: usize = 0;
        while k < gens.len()
            invariant
                self.wf(),
                k <= gens@.len(),
                self@.nodes.len() == old(self)@.nodes.len(),
                gens@.len() > 0 ==> self@.nodes.len() > 0,
                old(self)@.consistent() ==> self@.consistent(),
                self@ == old(self)@.run(gens@, k as int),
                old(self)@.runs_through(gens@, k as int),
                txns@.len() == old(self)@.produced(gens@, k as int),
                forall|j: int|
                    0 <= j < k && #[trigger] old(self)@.yields(gens@, j) ==> old(self)@.run(
                        gens@,
                        j,
                    ).hands_out(gens@[j], Some(txns@[old(self)@.produced(gens@, j)])),
            decreases gens@.len() - k,
        {
            let ghost held = txns@;
            assert(old(self)@.run(gens@, k + 1) == old(self)@.run(gens@, k as int).after(
                gens@[k as int],
            ));
            match self.generate_txn(gens[k]) {
                Ok(Some(txn)) => {
                    txns.push(txn);
                    assert(old(self)@.yields(gens@, k as int));
                },
                Ok(None) => {
                    assert(!old(self)@.yields(gens@, k as int));
                },
                Err(e) => {
                    return Err(e);
                },
            }
            proof {
                assert forall|j: int| 0 <= j < k + 1 && #[trigger] old(self)@.yields(
                    gens@,
                    j,
                ) implies old(self)@.run(gens@, j).hands_out(
                    gens@[j],
                    Some(txns@[old(self)@.produced(gens@, j)]),
                ) by {
                    lemma_produced_grows(old(self)@, gens@, j, k as int);
                    if j < k {
                        assert(txns@[old(self)@.produced(gens@, j)] == held[old(self)@.produced(
                            gens@,
                            j,
                        )]);
                    }
                }
            }
            k += 1;
        }
        Ok(txns)
    }

    /// Plays a whole test run: publishes every node, dependencies first,
    /// invokes every node, and then applies the drawn operations in turn.
    /// Returns the requests in the order in which they are to be run.
    pub fn execute(&mut self, additional_txns: Vec<LoaderTransactionGen>) -> (r: Result<
        Vec<LoaderTransaction>,
        LoaderError,
    >)
        requires
            old(self).wf(),
            additional_txns@.len() > 0 ==> old(self)@.nodes.len() > 0,
        ensures
            final(self).wf(),
            final(self)@.nodes.len() == old(self)@.nodes.len(),
            old(self)@.consistent() ==> final(self)@.consistent(),
            match r {
                Ok(txns) => {
                    let first = old(self)@.launched();
                    let n = old(self)@.nodes.len() as int;
                    &&& old(self)@.can_launch()
                    &&& exists|order: Seq<usize>|
                        old(self)@.is_topological(order) && #[trigger] old(self)@.is_initial_batch(
                            order,
                            txns@.take(2 * n),
                        )
                    &&& txns@.len() == 2 * n + first.produced(
                        additional_txns@,
                        additional_txns@.len() as int,
                    )
                    &&& first.runs_through(additional_txns@, additional_txns@.len() as int)
                    &&& first.follows(additional_txns@, txns@.skip(2 * n))
                    &&& final(self)@ == first.run(additional_txns@, additional_txns@.len() as int)
                },
                Err(e) => if old(self)@.can_launch() {
                    let first = old(self)@.launched();
                    exists|k: int|
                        {
                            &&& 0 <= k < additional_txns@.len()
                            &&& first.runs_through(additional_txns@, k)
                            &&& #[trigger] first.run(additional_txns@, k).outcome(
                                additional_txns@[k],
                            ) == Outcome::Fail(e)
                            &&& final(self)@ == first.run(additional_txns@, k)
                        }
                } else {
                    e == LoaderError::SequenceOverflow && final(self)@ == old(self)@
                },
            },
    {
        let mut txns = match self.build_initial_batch() {
            Ok(txns) => txns,
            Err(e) => {
                return Err(e);
            },
        };
        let ghost batch = txns@;
        let mut rest = match self.generate_txns(&additional_txns) {
            Ok(rest) => rest,
            Err(e) => {
                return Err(e);
            },
        };
        let ghost tail = rest@;
        txns.append(&mut rest);
        proof {
            let n = old(self)@.nodes.len() as int;
            let first = old(self)@.launched();
            assert(txns@.take(2 * n) =~= batch);
            assert(txns@.skip(2 * n) =~= tail);
            assert(first.follows(additional_txns@, txns@.skip(2 * n)));
            assert(exists|order: Seq<usize>|
                old(self)@.is_topological(order) && #[trigger] old(self)@.is_initial_batch(
                    order,
                    txns@.take(2 * n),
                ));
        }
        Ok(txns)
    }
}

} // verus!
