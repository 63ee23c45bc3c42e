//! The graph container, and what is taken on trust about it.
//!
//! Nodes and edges live in a `petgraph::graph::Graph`. Verus does not read
//! that crate, so each call into it goes through a function of this module
//! whose contract is believed, not proved. The contracts speak of the node
//! weights by node index and, for each node, of the list of the nodes that
//! its edges lead to.

use crate::node::Node;
use petgraph::algo::toposort;
use petgraph::algo::Cycle;
use petgraph::graph::EdgeIndex;
use petgraph::graph::Graph;
use petgraph::graph::NodeIndex;
use petgraph::Directed;
use petgraph::Direction;
use vstd::prelude::*;

verus! {

/// `petgraph::graph::Graph`, whose inside Verus does not see.
#[verifier::external_type_specification]
#[verifier::external_body]
#[verifier::reject_recursive_types(N)]
#[verifier::reject_recursive_types(E)]
#[verifier::reject_recursive_types(Ty)]
#[verifier::reject_recursive_types(Ix)]
pub struct ExGraph<N, E, Ty, Ix>(Graph<N, E, Ty, Ix>);

/// `petgraph::Directed`, the marker of graphs with directed edges.
#[verifier::external_type_specification]
#[verifier::external_body]
pub struct ExDirected(Directed);

/// `petgraph::graph::NodeIndex`, which occurs in the error of `toposort`.
#[verifier::external_type_specification]
#[verifier::external_body]
#[verifier::reject_recursive_types(Ix)]
pub struct ExNodeIndex<Ix>(NodeIndex<Ix>);

/// `petgraph::algo::Cycle`, the error of `toposort`.
#[verifier::external_type_specification]
#[verifier::external_body]
#[verifier::reject_recursive_types(N)]
pub struct ExCycle<N>(Cycle<N>);

/// The node weights of a graph, by node index.
pub uninterp spec fn graph_nodes(g: Graph<Node, ()>) -> Seq<Node>;

/// For each node of a graph, by node index, the targets of the edges that
/// leave the node, one entry for each edge, in the order in which the
/// graph walks them: the edge that was added last comes first.
pub uninterp spec fn graph_successors(g: Graph<Node, ()>) -> Seq<Seq<int>>;

/// Where the edge with index `e` stands: the node that it leaves, and its
/// position in the list that `graph_successors` has for that node. It is
/// `(-1, -1)` where the graph has no edge with that index.
pub uninterp spec fn graph_edge_place(g: Graph<Node, ()>, e: int) -> (int, int);

/// The number of entries in all the lists together.
pub open spec fn total_edges(lists: Seq<Seq<int>>) -> nat
    decreases lists.len(),
{
    if lists.len() == 0 {
        0
    } else {
        total_edges(lists.drop_last()) + lists.last().len()
    }
}

/// Whether the lists hold an edge from `u` to `v`.
pub open spec fn has_edge(lists: Seq<Seq<int>>, u: int, v: int) -> bool {
    0 <= u < lists.len() && lists[u].contains(v)
}

/// Whether `place` is a node and a position in the list of that node.
pub open spec fn is_place(lists: Seq<Seq<int>>, place: (int, int)) -> bool {
    0 <= place.0 < lists.len() && 0 <= place.1 < lists[place.0].len()
}

/// Whether `place` is where the first edge from `a` to `b` stands.
pub open spec fn is_first_place(lists: Seq<Seq<int>>, place: (int, int), a: int, b: int) -> bool {
    &&& place.0 == a
    &&& is_place(lists, place)
    &&& lists[a][place.1] == b
    &&& forall|q: int| 0 <= q < place.1 ==> lists[a][q] != b
}

/// The lists without the entry at `place`.
pub open spec fn without_place(lists: Seq<Seq<int>>, place: (int, int)) -> Seq<Seq<int>> {
    lists.update(place.0, lists[place.0].remove(place.1))
}

/// The lists with `b` put in front of the list of `a`.
pub open spec fn with_edge(lists: Seq<Seq<int>>, a: int, b: int) -> Seq<Seq<int>> {
    lists.update(a, seq![b] + lists[a])
}

/// The positions that a list of indices names.
pub open spec fn positions(list: Seq<usize>) -> Seq<int> {
    list.map_values(|v: usize| v as int)
}

/// Whether `path` walks along edges from each of its nodes to the next.
pub open spec fn is_path(lists: Seq<Seq<int>>, path: Seq<int>) -> bool {
    forall|k: int| 0 <= k < path.len() - 1 ==> has_edge(lists, #[trigger] path[k], path[k + 1])
}

/// Whether some walk along one edge or more comes back to where it began.
pub open spec fn has_cycle(lists: Seq<Seq<int>>) -> bool {
    exists|path: Seq<int>| #[trigger]
        is_path(lists, path) && path.len() >= 2 && path.first() == path.last()
}

/// Whether `order` lists each of the `n` nodes once, every node before
/// all the nodes that its edges lead to.
pub open spec fn is_topological_order(order: Seq<usize>, n: nat, lists: Seq<Seq<int>>) -> bool {
    &&& order.len() == n
    &&& order.no_duplicates()
    &&& forall|p: int| 0 <= p < n ==> #[trigger] order[p] < n
    &&& forall|p: int, q: int|
        0 <= p < n && 0 <= q < n && has_edge(lists, #[trigger] order[p] as int, #[trigger] order[q] as int)
            ==> p < q
}

/// `Graph::new`. Trusted: the new graph has no node and no edge.
#[verifier::external_body]
pub(crate) fn graph_new() -> (g: Graph<Node, ()>)
    ensures
        graph_nodes(g) == Seq::<Node>::empty(),
        graph_successors(g) == Seq::<Seq<int>>::empty(),
{
    Graph::new()
}

/// `Graph::clone`. Trusted: the copy holds the same node weights and the
/// same edges at the same places.
#[verifier::external_body]
pub(crate) fn graph_clone(g: &Graph<Node, ()>) -> (r: Graph<Node, ()>)
    ensures
        graph_nodes(r) == graph_nodes(*g),
        graph_successors(r) == graph_successors(*g),
{
    g.clone()
}

/// `Graph::node_count`. Trusted: it is the number of node weights.
#[verifier::external_body]
pub(crate) fn graph_node_count(g: &Graph<Node, ()>) -> (r: usize)
    ensures
        r == graph_nodes(*g).len(),
{
    g.node_count()
}

/// `Graph::edge_count`. Trusted: it is the number of edges, each of which
/// stands in the list of the one node that it leaves.
#[verifier::external_body]
pub(crate) fn graph_edge_count(g: &Graph<Node, ()>) -> (r: usize)
    ensures
        r == total_edges(graph_successors(*g)),
{
    g.edge_count()
}

/// `Graph::add_node`. Trusted: the weight is appended and gets the next
/// node index, and the new node has no edge; the rest stays. The call
/// panics on a graph that already has `u32::MAX` nodes, which `requires`
/// leaves out.
#[verifier::external_body]
pub(crate) fn graph_add_node(g: &mut Graph<Node, ()>, weight: Node) -> (r: usize)
    requires
        graph_nodes(*old(g)).len() < u32::MAX,
    ensures
        r == graph_nodes(*old(g)).len(),
        graph_nodes(*final(g)) == graph_nodes(*old(g)).push(weight),
        graph_successors(*final(g)) == graph_successors(*old(g)).push(Seq::<int>::empty()),
{
    g.add_node(weight).index()
}

/// `Graph::add_edge`. Trusted: an edge from `a` to `b` is added, also
/// where there is one already, and comes first among the edges that leave
/// `a`; the rest stays. The call panics when an end point is no node or
/// when the graph already has `u32::MAX` edges, which `requires` leaves
/// out.
#[verifier::external_body]
pub(crate) fn graph_add_edge(g: &mut Graph<Node, ()>, a: usize, b: usize)
    requires
        a < graph_nodes(*old(g)).len(),
        b < graph_nodes(*old(g)).len(),
        graph_nodes(*old(g)).len() <= u32::MAX,
        total_edges(graph_successors(*old(g))) < u32::MAX,
    ensures
        graph_successors(*final(g)) == with_edge(graph_successors(*old(g)), a as int, b as int),
        graph_nodes(*final(g)) == graph_nodes(*old(g)),
{
    g.add_edge(NodeIndex::new(a), NodeIndex::new(b), ());
}

/// `Graph::find_edge`. Trusted: it returns the index of the first edge
/// from `a` to `b` in the list of `a`, and none if no edge leads from `a`
/// to `b`.
#[verifier::external_body]
pub(crate) fn graph_find_edge(g: &Graph<Node, ()>, a: usize, b: usize) -> (r: Option<u32>)
    requires
        a <= u32::MAX,
        b <= u32::MAX,
    ensures
        match r {
            Some(e) => is_first_place(
                graph_successors(*g),
                graph_edge_place(*g, e as int),
                a as int,
                b as int,
            ),
            None => !has_edge(graph_successors(*g), a as int, b as int),
        },
{
    g.find_edge(NodeIndex::new(a), NodeIndex::new(b)).map(|e| e.index() as u32)
}

/// `Graph::remove_edge`. Trusted: an edge that exists is taken out of the
/// list of the node that it leaves, and the rest stays in its order;
/// asked for an index that no edge has, the call changes nothing and
/// returns `None`.
#[verifier::external_body]
pub(crate) fn graph_remove_edge(g: &mut Graph<Node, ()>, e: u32) -> (r: Option<()>)
    ensures
        graph_nodes(*final(g)) == graph_nodes(*old(g)),
        r is Some <==> is_place(graph_successors(*old(g)), graph_edge_place(*old(g), e as int)),
        r is Some ==> graph_successors(*final(g)) == without_place(
            graph_successors(*old(g)),
            graph_edge_place(*old(g), e as int),
        ),
        r is None ==> graph_successors(*final(g)) == graph_successors(*old(g)),
{
    g.remove_edge(EdgeIndex::new(e as usize))
}

/// `Graph::neighbors_directed` with `Direction::Outgoing`. Trusted: it
/// yields the target of each edge that leaves `a`, the edge added last
/// first, and nothing for what is no node.
#[verifier::external_body]
pub(crate) fn graph_neighbors(g: &Graph<Node, ()>, a: usize) -> (r: Vec<usize>)
    requires
        a <= u32::MAX,
    ensures
        a < graph_successors(*g).len() ==> positions(r@) == graph_successors(*g)[a as int],
        a >= graph_successors(*g).len() ==> r@.len() == 0,
{
    g.neighbors_directed(NodeIndex::new(a), Direction::Outgoing).map(|n| n.index()).collect()
}

/// `Graph::node_weight`. Trusted: it returns the weight at index `a`, and
/// none if the graph has no such node.
#[verifier::external_body]
pub(crate) fn graph_node_weight(g: &Graph<Node, ()>, a: usize) -> (r: Option<&Node>)
    requires
        a <= u32::MAX,
    ensures
        match r {
            Some(w) => a < graph_nodes(*g).len() && *w == graph_nodes(*g)[a as int],
            None => a >= graph_nodes(*g).len(),
        },
{
    g.node_weight(NodeIndex::new(a))
}

/// `Graph::node_weight_mut`. Trusted: it lends the weight at index `a`, and
/// what is written through the loan becomes that weight; nothing else in
/// the graph changes. It returns none if the graph has no such node.
#[verifier::external_body]
pub(crate) fn graph_node_weight_mut(g: &mut Graph<Node, ()>, a: usize) -> (r: Option<&mut Node>)
    requires
        a <= u32::MAX,
    ensures
        match r {
            Some(w) => {
                &&& a < graph_nodes(*old(g)).len()
                &&& *w == graph_nodes(*old(g))[a as int]
                &&& graph_nodes(*final(g)) == graph_nodes(*old(g)).update(a as int, *final(w))
                &&& graph_successors(*final(g)) == graph_successors(*old(g))
            },
            None => a >= graph_nodes(*old(g)).len() && *final(g) == *old(g),
        },
{
    g.node_weight_mut(NodeIndex::new(a))
}

/// `petgraph::algo::toposort` without a workspace. Trusted: an order that
/// it returns lists every node once, each before its successors; it fails
/// only on a graph with a cycle.
#[verifier::external_body]
pub(crate) fn graph_toposort(g: &Graph<Node, ()>) -> (r: Result<Vec<usize>, Cycle<NodeIndex>>)
    ensures
        match r {
            Ok(order) => is_topological_order(
                order@,
                graph_nodes(*g).len(),
                graph_successors(*g),
            ),
            Err(_) => has_cycle(graph_successors(*g)),
        },
{
    match toposort(g, None) {
        Ok(order) => Ok(order.into_iter().map(|n| n.index()).collect()),
        Err(cycle) => Err(cycle),
    }
}

} // verus!
