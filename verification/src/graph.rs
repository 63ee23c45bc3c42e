//! The dependency graph itself: how it is built, how the expected values
//! are derived from it, and which transactions it asks for.

use crate::account::is_identifier;
use crate::account::is_valid_identifier;
use crate::account::AccountAddress;
use crate::account::AccountData;
use crate::account::ModuleId;
use crate::account::DEFAULT_BALANCE;
use crate::index::Index;
use crate::laws::law_operation_keeps_consistent;
use crate::laws::law_recomputed_is_consistent;
use crate::node::Node;
use crate::oracle::expected_value;
use crate::oracle::sum_picked;
use crate::shape::descending;
use crate::shape::lemma_descending_is_acyclic;
use crate::shape::lemma_order_covers;
use crate::shape::lemma_report_from_successors;
use crate::shape::lemma_total_edges_update;
use crate::state::lemma_recomputed_wf;
use crate::state::names_of;
use crate::state::GraphState;
use crate::state::Outcome;
use crate::store::graph_add_edge;
use crate::store::graph_add_node;
use crate::store::graph_clone;
use crate::store::graph_edge_count;
use crate::store::graph_edge_place;
use crate::store::graph_find_edge;
use crate::store::graph_neighbors;
use crate::store::graph_new;
use crate::store::graph_node_count;
use crate::store::graph_node_weight;
use crate::store::graph_node_weight_mut;
use crate::store::graph_nodes;
use crate::store::graph_remove_edge;
use crate::store::graph_successors;
use crate::store::graph_toposort;
use crate::store::is_topological_order;
use crate::store::positions;
use crate::store::total_edges;
use crate::store::with_edge;
use crate::transaction::encode_arguments;
use crate::transaction::entry_function_name;
use crate::transaction::InvokeRequest;
use crate::transaction::LoaderError;
use crate::transaction::LoaderTransaction;
use crate::transaction::LoaderTransactionGen;
use crate::transaction::PublishRequest;
use petgraph::graph::Graph;
use vstd::prelude::*;

verus! {

/// Modules and the dependencies between them, with the account that sends
/// the invocations.
#[derive(Debug)]
pub struct DependencyGraph {
    graph: Graph<Node, ()>,
    sender_account: AccountData,
}

/// The node that is made of the account, own value and name at position
/// `i` of `accounts`. It holds no expected value yet.
pub open spec fn created_node(accounts: Seq<(AccountData, u16, String)>, i: int) -> Node {
    Node {
        name: ModuleId { address: accounts[i].0.address, name: accounts[i].2 },
        self_value: accounts[i].1 as u64,
        account_data: accounts[i].0,
        expected_value: 0,
    }
}

/// The nodes that are made of `accounts`, in the same order.
pub open spec fn created_nodes(accounts: Seq<(AccountData, u16, String)>) -> Seq<Node> {
    Seq::new(accounts.len(), |i: int| created_node(accounts, i))
}

/// The edges that the attempts put into a graph of `n` nodes: each pair is
/// resolved against `n` and leads from the later node to the earlier one;
/// a pair that resolves to one node twice puts in nothing, and a pair that
/// comes again puts in a parallel edge. A later attempt comes before an
/// earlier one in the list of its node.
pub open spec fn created_dependencies(n: int, attempts: Seq<(Index, Index)>) -> Seq<Seq<int>>
    decreases attempts.len(),
{
    if attempts.len() == 0 {
        Seq::new(n as nat, |i: int| Seq::<int>::empty())
    } else {
        let rest = created_dependencies(n, attempts.drop_last());
        let a = attempts.last().0.spec_index(n);
        let b = attempts.last().1.spec_index(n);
        if a > b {
            with_edge(rest, a, b)
        } else if a < b {
            with_edge(rest, b, a)
        } else {
            rest
        }
    }
}

/// Whether the entries at positions `j` and `i` have one address and one
/// name.
pub open spec fn same_identity(accounts: Seq<(AccountData, u16, String)>, j: int, i: int) -> bool {
    accounts[j].0.address.bytes@ == accounts[i].0.address.bytes@ && accounts[j].2@ == accounts[i].2@
}

/// What is wrong with the identity of the node at position `i`, if
/// anything: its name is no identifier, an earlier node has its identity,
/// or its owner is the account that is to send the invocations.
pub open spec fn node_error(
    accounts: Seq<(AccountData, u16, String)>,
    sender: AccountAddress,
    i: int,
) -> Option<LoaderError> {
    if !is_valid_identifier(accounts[i].2@) {
        Some(LoaderError::InvalidName(i as usize))
    } else if exists|j: int| 0 <= j < i && #[trigger] same_identity(accounts, j, i) {
        Some(LoaderError::DuplicateModule(i as usize))
    } else if accounts[i].0.address.bytes@ == sender.bytes@ {
        Some(LoaderError::SenderOwnsModule(i as usize))
    } else {
        None
    }
}

/// What is wrong with the first of the first `k` nodes with whose
/// identity something is wrong, if there is one.
pub open spec fn identity_error_among(
    accounts: Seq<(AccountData, u16, String)>,
    sender: AccountAddress,
    k: int,
) -> Option<LoaderError>
    decreases k,
{
    if k <= 0 {
        None
    } else if identity_error_among(accounts, sender, k - 1) is Some {
        identity_error_among(accounts, sender, k - 1)
    } else {
        node_error(accounts, sender, k - 1)
    }
}

/// What is wrong with the first node with whose identity something is
/// wrong, if there is one.
pub open spec fn identity_error(
    accounts: Seq<(AccountData, u16, String)>,
    sender: AccountAddress,
) -> Option<LoaderError> {
    identity_error_among(accounts, sender, accounts.len() as int)
}

/// The graph that is made of these inputs, before the expected values are
/// derived.
pub open spec fn created_shape(
    accounts: Seq<(AccountData, u16, String)>,
    attempts: Seq<(Index, Index)>,
    sender: AccountAddress,
) -> GraphState {
    GraphState {
        nodes: created_nodes(accounts),
        dependencies: created_dependencies(accounts.len() as int, attempts),
        sender: AccountData { address: sender, balance: DEFAULT_BALANCE, sequence_number: 0 },
    }
}

/// What `create` answers to these inputs if it refuses them: more nodes
/// or attempts than can be numbered, or an expected value that does not
/// fit in 64 bits.
pub open spec fn creation_error(
    accounts: Seq<(AccountData, u16, String)>,
    attempts: Seq<(Index, Index)>,
    sender: AccountAddress,
) -> Option<LoaderError> {
    if accounts.len() > u32::MAX || attempts.len() > u32::MAX {
        Some(LoaderError::CapacityExceeded)
    } else if !created_shape(accounts, attempts, sender).fits() {
        Some(LoaderError::ValueOverflow)
    } else {
        None
    }
}

/// What is wrong among the first nodes stays what is wrong among more.
proof fn lemma_first_error(
    accounts: Seq<(AccountData, u16, String)>,
    sender: AccountAddress,
    i: int,
    k: int,
)
    requires
        0 <= i <= k,
        identity_error_among(accounts, sender, i) is Some,
    ensures
        identity_error_among(accounts, sender, k) == identity_error_among(accounts, sender, i),
    decreases k,
{
    if i < k {
        lemma_first_error(accounts, sender, i, k - 1);
    }
}

/// Where nothing is wrong among the first `k` nodes, nothing is wrong
/// with any of them.
proof fn lemma_no_node_error(
    accounts: Seq<(AccountData, u16, String)>,
    sender: AccountAddress,
    i: int,
    k: int,
)
    requires
        identity_error_among(accounts, sender, k) is None,
        0 <= i < k,
    ensures
        node_error(accounts, sender, i) is None,
    decreases k,
{
    if i < k - 1 {
        lemma_no_node_error(accounts, sender, i, k - 1);
    }
}

/// Where nothing is wrong with any identity, every name is an identifier.
proof fn lemma_names_in_order(accounts: Seq<(AccountData, u16, String)>, sender: AccountAddress)
    requires
        identity_error(accounts, sender) is None,
    ensures
        forall|k: int| 0 <= k < accounts.len() ==> is_valid_identifier(#[trigger] accounts[k].2@),
{
    assert forall|k: int| 0 <= k < accounts.len() implies is_valid_identifier(
        #[trigger] accounts[k].2@,
    ) by {
        lemma_no_node_error(accounts, sender, k, accounts.len() as int);
    }
}

/// Where nothing is wrong with any identity, the nodes made of the
/// accounts have valid identities that differ from node to node, and none
/// is owned by the sender.
proof fn lemma_identities_in_order(
    accounts: Seq<(AccountData, u16, String)>,
    sender: AccountAddress,
    nodes: Seq<Node>,
)
    requires
        identity_error(accounts, sender) is None,
        nodes == created_nodes(accounts),
    ensures
        forall|i: int|
            0 <= i < nodes.len() ==> (#[trigger] nodes[i]).name.wf() && nodes[i].name.address
                == nodes[i].account_data.address,
        forall|i: int, j: int|
            0 <= i < j < nodes.len() ==> !(#[trigger] nodes[i]).name.same_module(
                &(#[trigger] nodes[j]).name,
            ),
        forall|i: int|
            0 <= i < nodes.len() ==> (#[trigger] nodes[i]).account_data.address.bytes@ != sender.bytes@,
{
    assert forall|i: int| 0 <= i < nodes.len() implies (#[trigger] nodes[i]).name.wf()
        && nodes[i].account_data.address.bytes@ != sender.bytes@ by {
        lemma_no_node_error(accounts, sender, i, accounts.len() as int);
    }
    assert forall|i: int, j: int| 0 <= i < j < nodes.len() implies !(#[trigger] nodes[i]).name.same_module(
        &(#[trigger] nodes[j]).name,
    ) by {
        lemma_no_node_error(accounts, sender, j, accounts.len() as int);
        assert(!same_identity(accounts, i, j));
    }
}

/// Whether one of the first `i` entries has the address and name of the
/// entry at position `i`.
fn comes_earlier(accounts: &Vec<(AccountData, u16, String)>, i: usize) -> (r: bool)
    requires
        i < accounts@.len(),
    ensures
        r == exists|j: int| 0 <= j < i && #[trigger] same_identity(accounts@, j, i as int),
{
    let mut j: usize = 0;
    while j < i
        invariant
            j <= i < accounts@.len(),
            forall|k: int| 0 <= k < j ==> !#[trigger] same_identity(accounts@, k, i as int),
        decreases i - j,
    {
        if accounts[j].0.address.same(&accounts[i].0.address) && accounts[j].2 == accounts[i].2 {
            assert(same_identity(accounts@, j as int, i as int));
            return true;
        }
        j += 1;
    }
    false
}

impl View for DependencyGraph {
    type V = GraphState;

    closed spec fn view(&self) -> GraphState {
        GraphState {
            nodes: graph_nodes(self.graph),
            dependencies: graph_successors(self.graph),
            sender: self.sender_account,
        }
    }
}

impl DependencyGraph {
    /// Whether the graph is well formed.
    pub open spec fn wf(&self) -> bool {
        self@.wf()
    }

    /// Tells whether the identities that a graph is to be made of are in
    /// order: every name an identifier, no two nodes with one address and
    /// one name, and no node owned by `sender`. What is wrong with the
    /// first node with which something is wrong is the answer otherwise.
    pub fn check_identities(accounts: &Vec<(AccountData, u16, String)>, sender: AccountAddress) -> (r:
        Result<(), LoaderError>)
        ensures
            match r {
                Ok(_) => identity_error(accounts@, sender) is None,
                Err(e) => identity_error(accounts@, sender) == Some(e),
            },
    {
        let mut i: usize = 0;
        while i < accounts.len()
            invariant
                i <= accounts@.len(),
                identity_error_among(accounts@, sender, i as int) is None,
            decreases accounts@.len() - i,
        {
            let wrong = if !is_identifier(accounts[i].2.as_str()) {
                Some(LoaderError::InvalidName(i))
            } else if comes_earlier(accounts, i) {
                Some(LoaderError::DuplicateModule(i))
            } else if accounts[i].0.address.same(&sender) {
                Some(LoaderError::SenderOwnsModule(i))
            } else {
                None
            };
            assert(wrong == node_error(accounts@, sender, i as int));
            match wrong {
                Some(e) => {
                    proof {
                        lemma_first_error(accounts@, sender, i + 1, accounts@.len() as int);
                    }
                    return Err(e);
                },
                None => {},
            }
            i += 1;
        }
        Ok(())
    }

    /// Builds the graph: one node for each entry of `accounts`, in that
    /// order, and one edge for each pair of `edges` that resolves to two
    /// different nodes; then derives what every node should report and
    /// stores it. Invocations will be sent from `sender`, a fresh account
    /// with the default balance, which owns none of the nodes.
    pub fn create(
        accounts: Vec<(AccountData, u16, String)>,
        edges: Vec<(Index, Index)>,
        sender: AccountAddress,
    ) -> (r: Result<DependencyGraph, LoaderError>)
        requires
            edges@.len() > 0 ==> accounts@.len() > 0,
            identity_error(accounts@, sender) is None,
        ensures
            match r {
                Ok(g) => {
                    &&& creation_error(accounts@, edges@, sender) is None
                    &&& g.wf()
                    &&& g@.consistent()
                    &&& g@ == created_shape(accounts@, edges@, sender).recomputed()
                    &&& total_edges(g@.dependencies) <= edges@.len()
                },
                Err(e) => creation_error(accounts@, edges@, sender) == Some(e),
            },
    {
        if accounts.len() > 0xffff_ffff || edges.len() > 0xffff_ffff {
            return Err(LoaderError::CapacityExceeded);
        }
        proof {
            lemma_names_in_order(accounts@, sender);
        }
        let mut graph = graph_new();
        let mut indices: Vec<usize> = Vec::new();
        let mut i: usize = 0;
        while i < accounts.len()
            invariant
                i <= accounts@.len() <= u32::MAX,
                graph_nodes(graph) == created_nodes(accounts@).take(i as int),
                graph_successors(graph) == Seq::new(i as nat, |i: int| Seq::<int>::empty()),
                indices@.len() == i,
                forall|k: int| 0 <= k < i ==> indices@[k] == k,
                forall|k: int|
                    0 <= k < accounts@.len() ==> is_valid_identifier(#[trigger] accounts@[k].2@),
            decreases accounts@.len() - i,
        {
            let account = accounts[i].0;
            let self_value = accounts[i].1;
            let name = match ModuleId::new(account.address, accounts[i].2.clone()) {
                Some(name) => name,
                None => vstd::pervasive::unreached(),
            };
            let node = Node {
                name,
                self_value: self_value as u64,
                account_data: account,
                expected_value: 0,
            };
            assert(node == created_node(accounts@, i as int));
            let at = graph_add_node(&mut graph, node);
            indices.push(at);
            assert(graph_nodes(graph) =~= created_nodes(accounts@).take(i + 1));
            assert(graph_successors(graph) =~= Seq::new((i + 1) as nat, |i: int| Seq::<int>::empty()));
            i += 1;
        }
        assert(created_nodes(accounts@).take(accounts@.len() as int) =~= created_nodes(accounts@));
        let n = accounts.len();
        proof {
            assert(edges@.take(0) =~= Seq::<(Index, Index)>::empty());
            lemma_no_edges(n as nat);
        }
        let mut k: usize = 0;
        while k < edges.len()
            invariant
                k <= edges@.len() <= u32::MAX,
                n == accounts@.len(),
                n <= u32::MAX,
                edges@.len() > 0 ==> n > 0,
                indices@.len() == n,
                forall|p: int| 0 <= p < n ==> indices@[p] == p,
                graph_nodes(graph) == created_nodes(accounts@),
                graph_successors(graph).len() == n,
                total_edges(graph_successors(graph)) <= k,
                descending(graph_successors(graph)),
                graph_successors(graph) == created_dependencies(n as int, edges@.take(k as int)),
            decreases edges@.len() - k,
        {
            let lhs = *edges[k].0.get(indices.as_slice());
            let rhs = *edges[k].1.get(indices.as_slice());
            assert(edges@.take(k + 1).drop_last() =~= edges@.take(k as int));
            let ghost lists = graph_successors(graph);
            if lhs > rhs {
                proof {
                    lemma_total_edges_update(lists, lhs as int, seq![rhs as int] + lists[lhs as int]);
                }
                graph_add_edge(&mut graph, lhs, rhs);
            } else if lhs < rhs {
                proof {
                    lemma_total_edges_update(lists, rhs as int, seq![lhs as int] + lists[rhs as int]);
                }
                graph_add_edge(&mut graph, rhs, lhs);
            }
            k += 1;
        }
        assert(edges@.take(edges@.len() as int) =~= edges@);
        let sender_account = AccountData::new(sender, DEFAULT_BALANCE, 0);
        let mut g = DependencyGraph { graph, sender_account };
        proof {
            assert(g@ == created_shape(accounts@, edges@, sender));
            lemma_identities_in_order(accounts@, sender, g@.nodes);
        }
        match g.caculate_expected_values() {
            Ok(_) => Ok(g),
            Err(e) => Err(e),
        }
    }

    /// What every node should report, by position, derived from the shape
    /// of the graph alone; none if some value does not fit in 64 bits.
    ///
    /// The nodes are taken in reverse topological order, so that every
    /// dependency is settled before the nodes that depend on it.
    pub fn expected_values(&self) -> (r: Option<Vec<u64>>)
        requires
            self.wf(),
        ensures
            r is Some <==> self@.fits(),
            r matches Some(values) ==> {
                &&& values@.len() == self@.nodes.len()
                &&& forall|i: int| 0 <= i < values@.len() ==> values@[i] == self@.oracle(i)
            },
    {
        let n = graph_node_count(&self.graph);
        proof {
            lemma_descending_is_acyclic(graph_successors(self.graph));
        }
        let order = match graph_toposort(&self.graph) {
            Ok(order) => order,
            Err(_) => vstd::pervasive::unreached(),
        };
        let mut values: Vec<u64> = Vec::new();
        while values.len() < n
            invariant
                values@.len() <= n,
            decreases n - values@.len(),
        {
            values.push(0);
        }
        let ghost selfs = self@.self_values();
        let ghost lists = graph_successors(self.graph);
        let mut k: usize = n;
        while k > 0
            invariant
                k <= n == graph_nodes(self.graph).len() <= u32::MAX,
                values@.len() == n,
                selfs == self@.self_values(),
                lists == graph_successors(self.graph),
                lists.len() == n,
                descending(lists),
                is_topological_order(order@, n as nat, lists),
                forall|p: int|
                    k <= p < n ==> values@[#[trigger] order@[p] as int] == expected_value(
                        selfs,
                        lists,
                        order@[p] as int,
                    ),
            decreases k,
        {
            k -= 1;
            let u = order[k];
            let own = match graph_node_weight(&self.graph, u) {
                Some(node) => node.self_value,
                None => vstd::pervasive::unreached(),
            };
            let found = graph_neighbors(&self.graph, u);
            proof {
                lemma_report_from_successors(lists, selfs, order@, k as int, values@, found@);
            }
            let report = match sum_picked(&values, &found) {
                Some(sum) => sum.checked_add(own),
                None => None,
            };
            match report {
                Some(report) => {
                    values.set(u, report);
                    assert forall|p: int| k <= p < n implies values@[#[trigger] order@[p] as int]
                        == expected_value(selfs, lists, order@[p] as int) by {
                        if p > k {
                            assert(order@[p] != order@[k as int]);
                        }
                    }
                },
                None => {
                    assert(expected_value(selfs, lists, u as int) > u64::MAX);
                    return None;
                },
            }
        }
        proof {
            lemma_order_covers(order@, n as nat);
            assert forall|i: int| 0 <= i < n implies values@[i] == self@.oracle(i) by {
                assert(order@.contains(i as usize));
                let p = choose|p: int| 0 <= p < order@.len() && order@[p] == i as usize;
                assert(values@[order@[p] as int] == expected_value(selfs, lists, order@[p] as int));
            }
            assert forall|i: int| 0 <= i < selfs.len() implies #[trigger] expected_value(
                selfs,
                self@.dependencies,
                i,
            ) <= u64::MAX by {
                assert(values@[i] == self@.oracle(i));
            }
        }
        Some(values)
    }

    /// Derives what every node should report and stores it in the nodes.
    /// Where some value does not fit in 64 bits the graph stays as it is.
    pub fn caculate_expected_values(&mut self) -> (r: Result<(), LoaderError>)
        requires
            old(self).wf(),
        ensures
            final(self).wf(),
            final(self)@.nodes.len() == old(self)@.nodes.len(),
            r is Ok ==> final(self)@.consistent(),
            match r {
                Ok(_) => old(self)@.fits() && final(self)@ == old(self)@.recomputed(),
                Err(e) => !old(self)@.fits() && e == LoaderError::ValueOverflow && final(self)@ == old(
                    self,
                )@,
            },
    {
        let values = match self.expected_values() {
            Some(values) => values,
            None => {
                return Err(LoaderError::ValueOverflow);
            },
        };
        self.store_values(&values);
        proof {
            assert(self@.nodes =~= old(self)@.recomputed().nodes);
            lemma_recomputed_wf(old(self)@);
            law_recomputed_is_consistent(old(self)@);
        }
        Ok(())
    }

    /// Stores `values` in the nodes, by position.
    fn store_values(&mut self, values: &Vec<u64>)
        requires
            old(self).wf(),
            values@.len() == old(self)@.nodes.len(),
        ensures
            final(self)@.dependencies == old(self)@.dependencies,
            final(self)@.sender == old(self)@.sender,
            final(self)@.nodes == Seq::new(
                old(self)@.nodes.len(),
                |i: int| old(self)@.nodes[i].with_expected(values@[i]),
            ),
    {
        let n = values.len();
        let mut i: usize = 0;
        while i < n
            invariant
                i <= n == values@.len() == old(self)@.nodes.len() <= u32::MAX,
                graph_successors(self.graph) == graph_successors(old(self).graph),
                self.sender_account == old(self).sender_account,
                graph_nodes(self.graph).len() == n,
                forall|j: int|
                    0 <= j < i ==> graph_nodes(self.graph)[j] == old(self)@.nodes[j].with_expected(
                        values@[j],
                    ),
                forall|j: int| i <= j < n ==> graph_nodes(self.graph)[j] == old(self)@.nodes[j],
            decreases n - i,
        {
            match graph_node_weight_mut(&mut self.graph, i) {
                Some(node) => {
                    node.expected_value = values[i];
                },
                None => {},
            }
            i += 1;
        }
        assert(self@.nodes =~= Seq::new(
            old(self)@.nodes.len(),
            |i: int| old(self)@.nodes[i].with_expected(values@[i]),
        ));
    }

    /// Puts one more edge from `a` to `b` into the graph, in front of the
    /// other edges of `a`.
    fn put_edge(&mut self, a: usize, b: usize)
        requires
            old(self).wf(),
            b < a < old(self)@.nodes.len(),
            total_edges(old(self)@.dependencies) < u32::MAX,
        ensures
            final(self).wf(),
            final(self)@.nodes.len() == old(self)@.nodes.len(),
            final(self)@ == (GraphState {
                dependencies: with_edge(old(self)@.dependencies, a as int, b as int),
                ..old(self)@
            }),
    {
        proof {
            let lists = graph_successors(self.graph);
            lemma_total_edges_update(lists, a as int, seq![b as int] + lists[a as int]);
        }
        graph_add_edge(&mut self.graph, a, b);
    }

    /// Takes the first edge from `a` to `b` out of the graph, if there is
    /// one.
    fn take_edge(&mut self, a: usize, b: usize) -> (r: bool)
        requires
            old(self).wf(),
            b < a < old(self)@.nodes.len(),
        ensures
            final(self).wf(),
            final(self)@.nodes.len() == old(self)@.nodes.len(),
            r == old(self)@.dependencies[a as int].contains(b as int),
            final(self)@ == (GraphState {
                dependencies: if r {
                    old(self)@.dependencies.update(
                        a as int,
                        old(self)@.dependencies[a as int].remove_value(b as int),
                    )
                } else {
                    old(self)@.dependencies
                },
                ..old(self)@
            }),
            r ==> total_edges(final(self)@.dependencies) == total_edges(old(self)@.dependencies) - 1,
    {
        match graph_find_edge(&self.graph, a, b) {
            Some(e) => {
                proof {
                    let lists = graph_successors(self.graph);
                    let place = graph_edge_place(self.graph, e as int);
                    lists[a as int].index_of_first_ensures(b as int);
                    let first = lists[a as int].index_of_first(b as int).unwrap();
                    assert(first == place.1) by {
                        if first < place.1 {
                            assert(lists[a as int][first] != b);
                        }
                    }
                    lemma_total_edges_update(lists, a as int, lists[a as int].remove(place.1));
                }
                graph_remove_edge(&mut self.graph, e);
                true
            },
            None => false,
        }
    }

    /// The request to invoke the node at `node_idx`, asserting the value
    /// that the node holds at this moment. The sender signs it and its
    /// sequence number goes up by one.
    pub fn invoke_at(&mut self, node_idx: usize) -> (r: Result<LoaderTransaction, LoaderError>)
        requires
            old(self).wf(),
            node_idx < old(self)@.nodes.len(),
        ensures
            final(self).wf(),
            final(self)@.nodes.len() == old(self)@.nodes.len(),
            match r {
                Ok(txn) => {
                    &&& old(self)@.sender.sequence_number < u64::MAX
                    &&& old(self)@.is_invoke_of(txn, node_idx as int)
                    &&& final(self)@ == old(self)@.invoked(1)
                },
                Err(e) => {
                    &&& old(self)@.sender.sequence_number == u64::MAX
                    &&& e == LoaderError::SequenceOverflow
                    &&& final(self)@ == old(self)@
                },
            },
    {
        if self.sender_account.sequence_number == u64::MAX {
            return Err(LoaderError::SequenceOverflow);
        }
        let node = match graph_node_weight(&self.graph, node_idx) {
            Some(node) => node,
            None => vstd::pervasive::unreached(),
        };
        let txn = LoaderTransaction::Invoke(
            InvokeRequest {
                sender: self.sender_account.address,
                sequence_number: self.sender_account.sequence_number,
                module: node.name.duplicate(),
                function: entry_function_name(),
                expected_value: node.expected_value,
                arguments: encode_arguments(node.expected_value),
            },
        );
        self.sender_account.sequence_number = self.sender_account.sequence_number + 1;
        Ok(txn)
    }

    /// The request to publish the node at `node_idx` with the dependencies
    /// that `found` lists, in that order. Nothing is signed yet.
    pub fn publish_request(&self, node_idx: usize, found: &Vec<usize>) -> (r: PublishRequest)
        requires
            self.wf(),
            node_idx < self@.nodes.len(),
            forall|t: int| 0 <= t < found@.len() ==> #[trigger] found@[t] < self@.nodes.len(),
        ensures
            r.sender == self@.nodes[node_idx as int].account_data.address,
            r.sequence_number == self@.nodes[node_idx as int].account_data.sequence_number,
            r.module == self@.nodes[node_idx as int].name,
            r.self_value == self@.nodes[node_idx as int].self_value,
            r.dependencies@ == names_of(self@.nodes, positions(found@)),
    {
        let node = match graph_node_weight(&self.graph, node_idx) {
            Some(node) => node,
            None => vstd::pervasive::unreached(),
        };
        let mut dependencies: Vec<ModuleId> = Vec::new();
        let mut t: usize = 0;
        while t < found.len()
            invariant
                t <= found@.len(),
                graph_nodes(self.graph).len() <= u32::MAX,
                forall|t: int| 0 <= t < found@.len() ==> #[trigger] found@[t] < graph_nodes(self.graph).len(),
                dependencies@.len() == t,
                forall|j: int|
                    0 <= j < t ==> dependencies@[j] == graph_nodes(self.graph)[found@[j] as int].name,
            decreases found@.len() - t,
        {
            let name = match graph_node_weight(&self.graph, found[t]) {
                Some(successor) => successor.name.duplicate(),
                None => vstd::pervasive::unreached(),
            };
            dependencies.push(name);
            t += 1;
        }
        assert(dependencies@ =~= names_of(self@.nodes, positions(found@)));
        PublishRequest {
            sender: node.account_data.address,
            sequence_number: node.account_data.sequence_number,
            module: node.name.duplicate(),
            dependencies,
            self_value: node.self_value,
        }
    }

    /// The request to publish the package of the node at `node_idx`: its
    /// own value and a call to each of its direct dependencies. The owner
    /// of the node signs it and its sequence number goes up by one.
    pub fn build_package_for_node(&mut self, node_idx: usize) -> (r: Result<
        LoaderTransaction,
        LoaderError,
    >)
        requires
            old(self).wf(),
            node_idx < old(self)@.nodes.len(),
        ensures
            final(self).wf(),
            final(self)@.nodes.len() == old(self)@.nodes.len(),
            match r {
                Ok(txn) => {
                    &&& old(self)@.nodes[node_idx as int].account_data.sequence_number < u64::MAX
                    &&& old(self)@.is_publish_of(txn, node_idx as int)
                    &&& final(self)@ == old(self)@.published(node_idx as int)
                },
                Err(e) => {
                    &&& old(self)@.nodes[node_idx as int].account_data.sequence_number == u64::MAX
                    &&& e == LoaderError::SequenceOverflow
                    &&& final(self)@ == old(self)@
                },
            },
    {
        let found = self.dependencies(node_idx);
        let request = self.publish_request(node_idx, &found);
        if request.sequence_number == u64::MAX {
            return Err(LoaderError::SequenceOverflow);
        }
        match graph_node_weight_mut(&mut self.graph, node_idx) {
            Some(node) => {
                node.account_data.sequence_number = node.account_data.sequence_number + 1;
            },
            None => {},
        }
        proof {
            assert(self@.nodes =~= old(self)@.published(node_idx as int).nodes);
            assert forall|i: int, j: int| 0 <= i < j < self@.nodes.len() implies !(
            #[trigger] self@.nodes[i]).name.same_module(&(#[trigger] self@.nodes[j]).name) by {
                assert(self@.nodes[i].name == old(self)@.nodes[i].name);
                assert(self@.nodes[j].name == old(self)@.nodes[j].name);
            }
            assert forall|i: int| 0 <= i < self@.nodes.len() implies (
            #[trigger] self@.nodes[i]).name.wf() && self@.nodes[i].name.address
                == self@.nodes[i].account_data.address by {
                assert(self@.nodes[i].name == old(self)@.nodes[i].name);
                assert(old(self)@.nodes[i].name.wf());
            }
            assert forall|i: int| 0 <= i < self@.nodes.len() implies (
            #[trigger] self@.nodes[i]).account_data.address.bytes@ != self@.sender.address.bytes@ by {
                assert(self@.nodes[i].account_data.address == old(
                    self,
                )@.nodes[i].account_data.address);
            }
        }
        Ok(LoaderTransaction::Publish(request))
    }

    /// Updates the dependency between two nodes: the pair is put in the
    /// order of creation, later node first; the first edge between them is
    /// taken out if there is one, and one is put in if there is none.
    /// Returns the dependent node, whose package has to be built anew, or
    /// none if the two positions are the same and nothing changed.
    pub fn update_edge(&mut self, lhs: usize, rhs: usize) -> (r: Result<Option<usize>, LoaderError>)
        requires
            old(self).wf(),
            lhs < old(self)@.nodes.len(),
            rhs < old(self)@.nodes.len(),
        ensures
            final(self).wf(),
            final(self)@.nodes.len() == old(self)@.nodes.len(),
            match r {
                Ok(None) => lhs == rhs && final(self)@ == old(self)@,
                Ok(Some(a)) => {
                    let b = if lhs > rhs {
                        rhs
                    } else {
                        lhs
                    };
                    &&& lhs != rhs
                    &&& a == if lhs > rhs {
                        lhs
                    } else {
                        rhs
                    }
                    &&& old(self)@.dependencies[a as int].contains(b as int) || total_edges(
                        old(self)@.dependencies,
                    ) < u32::MAX
                    &&& final(self)@ == old(self)@.toggled(a as int, b as int)
                },
                Err(e) => {
                    let a = if lhs > rhs {
                        lhs
                    } else {
                        rhs
                    };
                    let b = if lhs > rhs {
                        rhs
                    } else {
                        lhs
                    };
                    &&& e == LoaderError::CapacityExceeded
                    &&& lhs != rhs
                    &&& total_edges(old(self)@.dependencies) >= u32::MAX
                    &&& !old(self)@.dependencies[a as int].contains(b as int)
                    &&& final(self)@ == old(self)@
                },
            },
    {
        if lhs == rhs {
            return Ok(None);
        }
        let a = if lhs > rhs {
            lhs
        } else {
            rhs
        };
        let b = if lhs > rhs {
            rhs
        } else {
            lhs
        };
        if !self.take_edge(a, b) {
            if graph_edge_count(&self.graph) >= 0xffff_ffff {
                return Err(LoaderError::CapacityExceeded);
            }
            self.put_edge(a, b);
        }
        Ok(Some(a))
    }

    /// Applies an operation drawn at random. An invocation hands out the
    /// request to invoke the node it resolves to. An edge update changes
    /// the graph, derives every expected value anew and hands out the
    /// request to publish the dependent node again, and that node alone;
    /// where both indices resolve to one node, nothing happens. An
    /// operation that is refused leaves the graph as it was: an edge
    /// update is tried on a copy, which takes the place of the graph only
    /// once every value is known to fit.
    pub fn generate_txn(&mut self, gen: LoaderTransactionGen) -> (r: Result<
        Option<LoaderTransaction>,
        LoaderError,
    >)
        requires
            old(self).wf(),
            old(self)@.nodes.len() > 0,
        ensures
            final(self).wf(),
            final(self)@.nodes.len() == old(self)@.nodes.len(),
            final(self)@ == old(self)@.after(gen),
            old(self)@.consistent() ==> final(self)@.consistent(),
            match r {
                Ok(txn) => !(old(self)@.outcome(gen) is Fail) && old(self)@.hands_out(gen, txn),
                Err(e) => old(self)@.outcome(gen) == Outcome::Fail(e),
            },
    {
        proof {
            if self@.consistent() {
                law_operation_keeps_consistent(self@, gen);
            }
        }
        let n = graph_node_count(&self.graph);
        match gen {
            LoaderTransactionGen::Invoke(idx) => {
                match self.invoke_at(idx.index(n)) {
                    Ok(txn) => Ok(Some(txn)),
                    Err(e) => Err(e),
                }
            },
            LoaderTransactionGen::UpdateEdge(lhs, rhs) => {
                let mut trial = DependencyGraph {
                    graph: graph_clone(&self.graph),
                    sender_account: self.sender_account,
                };
                assert(trial@ == old(self)@);
                let a = match trial.update_edge(lhs.index(n), rhs.index(n)) {
                    Ok(Some(a)) => a,
                    Ok(None) => {
                        return Ok(None);
                    },
                    Err(e) => {
                        return Err(e);
                    },
                };
                let ghost b = old(self)@.dependency(lhs, rhs);
                if trial.node(a).account_data.sequence_number == u64::MAX {
                    return Err(LoaderError::SequenceOverflow);
                }
                let values = match trial.expected_values() {
                    Some(values) => values,
                    None => {
                        return Err(LoaderError::ValueOverflow);
                    },
                };
                trial.store_values(&values);
                *self = trial;
                proof {
                    assert(self@.nodes =~= old(self)@.toggled(a as int, b).recomputed().nodes);
                    assert(self@ == old(self)@.prepared(gen));
                    lemma_recomputed_wf(old(self)@.toggled(a as int, b));
                }
                match self.build_package_for_node(a) {
                    Ok(txn) => Ok(Some(txn)),
                    Err(e) => Err(e),
                }
            },
        }
    }

    /// The number of nodes.
    pub fn node_count(&self) -> (r: usize)
        ensures
            r == self@.nodes.len(),
    {
        graph_node_count(&self.graph)
    }

    /// The number of edges, parallel edges counted each.
    pub fn edge_count(&self) -> (r: usize)
        ensures
            r == total_edges(self@.dependencies),
    {
        graph_edge_count(&self.graph)
    }

    /// The node at position `node_idx`.
    pub fn node(&self, node_idx: usize) -> (r: &Node)
        requires
            self.wf(),
            node_idx < self@.nodes.len(),
        ensures
            *r == self@.nodes[node_idx as int],
    {
        match graph_node_weight(&self.graph, node_idx) {
            Some(node) => node,
            None => vstd::pervasive::unreached(),
        }
    }

    /// The value that the node at position `node_idx` holds at this moment.
    pub fn expected_value(&self, node_idx: usize) -> (r: u64)
        requires
            self.wf(),
            node_idx < self@.nodes.len(),
        ensures
            r == self@.nodes[node_idx as int].expected_value,
    {
        self.node(node_idx).expected_value
    }

    /// The account that sends the invocations.
    pub fn sender(&self) -> (r: AccountData)
        ensures
            r == self@.sender,
    {
        self.sender_account
    }

    /// The direct dependencies of the node at position `node_idx`, each
    /// once for every edge that leads to it, the edge added last first.
    pub fn dependencies(&self, node_idx: usize) -> (r: Vec<usize>)
        requires
            self.wf(),
            node_idx < self@.nodes.len(),
        ensures
            positions(r@) == self@.dependencies[node_idx as int],
            forall|t: int| 0 <= t < r@.len() ==> #[trigger] r@[t] < node_idx,
    {
        let found = graph_neighbors(&self.graph, node_idx);
        proof {
            assert forall|t: int| 0 <= t < found@.len() implies #[trigger] found@[t] < node_idx by {
                assert(positions(found@)[t] == self@.dependencies[node_idx as int][t]);
            }
        }
        found
    }

    /// An order of the nodes in which each comes before all of its
    /// dependencies.
    pub fn topological_order(&self) -> (r: Vec<usize>)
        requires
            self.wf(),
        ensures
            self@.is_topological(r@),
    {
        proof {
            lemma_descending_is_acyclic(graph_successors(self.graph));
        }
        match graph_toposort(&self.graph) {
            Ok(order) => order,
            Err(_) => vstd::pervasive::unreached(),
        }
    }

    /// The accounts that have to exist before any transaction runs: the
    /// owner of every node, in the order of the nodes, and then the sender.
    pub fn setup(&self) -> (r: Vec<AccountData>)
        requires
            self.wf(),
        ensures
            r@.len() == self@.nodes.len() + 1,
            forall|i: int| 0 <= i < self@.nodes.len() ==> r@[i] == self@.nodes[i].account_data,
            r@[self@.nodes.len() as int] == self@.sender,
    {
        let n = self.node_count();
        let mut accounts: Vec<AccountData> = Vec::new();
        let mut i: usize = 0;
        while i < n
            invariant
                self.wf(),
                i <= n == self@.nodes.len(),
                accounts@.len() == i,
                forall|j: int| 0 <= j < i ==> accounts@[j] == self@.nodes[j].account_data,
            decreases n - i,
        {
            accounts.push(self.node(i).account_data);
            i += 1;
        }
        accounts.push(self.sender_account);
        accounts
    }
}

/// A graph without edges is descending and holds no edge.
proof fn lemma_no_edges(n: nat)
    ensures
        descending(Seq::new(n, |i: int| Seq::<int>::empty())),
        total_edges(Seq::new(n, |i: int| Seq::<int>::empty())) == 0,
    decreases n,
{
    if n > 0 {
        lemma_no_edges((n - 1) as nat);
        assert(Seq::new(n, |i: int| Seq::<int>::empty()).drop_last() =~= Seq::new(
            (n - 1) as nat,
            |i: int| Seq::<int>::empty(),
        ));
    }
}

} // verus!
