//! The shortest-path index over the transit network.
//!
//! The index itself is an external collaborator (fast_paths' contraction
//! hierarchy); this module builds it from the model's edge list and wraps
//! its query.  What a query returns is a function of the graph and the two
//! endpoints alone, named `transit_path_weight`.

use vstd::prelude::*;

use vstd::math::max as int_max;

verus! {

#[verifier::external_type_specification]
#[verifier::external_body]
pub struct ExInputGraph(fast_paths::InputGraph);

#[verifier::external_type_specification]
#[verifier::external_body]
pub struct ExFastGraph(fast_paths::FastGraph);

#[verifier::external_type_specification]
#[verifier::external_body]
pub struct ExPathCalculator(fast_paths::PathCalculator);

/// Whether an input graph has been frozen (fast_paths' edge list is mutable
/// until `freeze` and queryable after).
pub uninterp spec fn input_graph_frozen(g: fast_paths::InputGraph) -> bool;

/// The node count an input graph has accumulated: one past the largest node
/// index among its edges.
pub uninterp spec fn input_graph_num_nodes(g: fast_paths::InputGraph) -> int;

/// Whether every edge weight an input graph has accumulated stays at or
/// below `MAX_EDGE_WEIGHT`.
pub uninterp spec fn input_graph_weights_bounded(g: fast_paths::InputGraph) -> bool;

/// The node count a prepared index was built with.
pub uninterp spec fn graph_num_nodes(g: fast_paths::FastGraph) -> int;

/// Whether a prepared index came from a bounded-weight input graph small
/// enough that no weight sum inside it can overflow `usize`: its shortcut
/// weights are witness-checked shortest-path weights over at most
/// `graph_num_nodes` edges of at most `MAX_EDGE_WEIGHT` each, and every
/// addition the preparation or a query performs combines at most two such
/// path weights.
pub uninterp spec fn graph_safe_weights(g: fast_paths::FastGraph) -> bool;

/// The node count a path calculator was sized for; it must match the graph
/// it is used on.
pub uninterp spec fn calculator_num_nodes(c: fast_paths::PathCalculator) -> int;

/// What a shortest-path query on a prepared index returns for a pair of
/// nodes: the minimum path weight, or `None` if no path exists.  The result
/// depends on the graph and the endpoints alone.
pub uninterp spec fn transit_path_weight(
    g: fast_paths::FastGraph,
    source: usize,
    target: usize,
) -> Option<usize>;

/// The ticks a shortest-path query yields, as one number: the path weight,
/// or minus one when the nodes are not connected.
pub open spec fn spec_path_ticks(
    g: fast_paths::FastGraph,
    source: usize,
    target: usize,
) -> int {
    match transit_path_weight(g, source, target) {
        Some(w) => w as int,
        None => -1,
    }
}

/// One directed, weighted edge of the transit network.
#[derive(PartialEq, Eq, Structural, Clone, Copy, Debug)]
pub struct TransitEdge {
    pub start_node: usize,
    pub end_node: usize,
    pub weight: usize,
}

impl TransitEdge {
    /// fast_paths skips loop edges and zero weights (with a warning); only
    /// the others shape the graph.
    pub open spec fn usable(self) -> bool {
        self.start_node != self.end_node && self.weight >= 1
    }
}

/// The node count the prefix of an edge list accumulates: one past the
/// largest node index among its usable edges.
pub open spec fn spec_input_nodes(edges: Seq<TransitEdge>) -> int
    decreases edges.len(),
{
    if edges.len() == 0 {
        0
    } else {
        let prev = spec_input_nodes(edges.drop_last());
        let e = edges.last();
        if e.usable() {
            int_max(prev, int_max(e.start_node as int, e.end_node as int) + 1)
        } else {
            prev
        }
    }
}

/// Relies on fast_paths' `InputGraph::new`: an empty, unfrozen graph.
#[verifier::external_body]
fn input_graph_new() -> (g: fast_paths::InputGraph)
    ensures
        !input_graph_frozen(g),
        input_graph_num_nodes(g) == 0,
        input_graph_weights_bounded(g),
{
    fast_paths::InputGraph::new()
}

/// Relies on fast_paths' `InputGraph::add_edge`: it grows the node count to
/// one past the larger endpoint.  Loop edges, zero weights and frozen graphs
/// are excluded by the contract (fast_paths would skip the former two and
/// panic on the latter).
#[verifier::external_body]
fn input_graph_add_edge(
    g: &mut fast_paths::InputGraph,
    from: usize,
    to: usize,
    weight: usize,
)
    requires
        !input_graph_frozen(*old(g)),
        input_graph_weights_bounded(*old(g)),
        from != to,
        weight >= 1,
        weight <= crate::shared::MAX_EDGE_WEIGHT,
        from < usize::MAX,
        to < usize::MAX,
    ensures
        !input_graph_frozen(*final(g)),
        input_graph_weights_bounded(*final(g)),
        input_graph_num_nodes(*final(g)) == int_max(
            input_graph_num_nodes(*old(g)),
            int_max(from as int, to as int) + 1,
        ),
{
    g.add_edge(from, to, weight);
}

/// Relies on fast_paths' `InputGraph::freeze`: it sorts and deduplicates the
/// edges and marks the graph queryable, keeping the node count.
#[verifier::external_body]
fn input_graph_freeze(g: &mut fast_paths::InputGraph)
    requires
        !input_graph_frozen(*old(g)),
        input_graph_weights_bounded(*old(g)),
    ensures
        input_graph_frozen(*final(g)),
        input_graph_weights_bounded(*final(g)),
        input_graph_num_nodes(*final(g)) == input_graph_num_nodes(*old(g)),
{
    g.freeze();
}

/// Relies on fast_paths' `prepare`: it builds the contraction hierarchy over
/// a frozen input graph, keeping the node count.  The contraction adds pairs
/// of edge weights with unchecked arithmetic; each summand is a
/// witness-checked shortest-path weight over at most `num_nodes` bounded
/// edges, so the size bound in the `requires` keeps every sum within
/// `usize` and excludes the panic a debug build would otherwise risk.
#[verifier::external_body]
fn prepare_fast_graph(g: &fast_paths::InputGraph) -> (r: fast_paths::FastGraph)
    requires
        input_graph_frozen(*g),
        input_graph_weights_bounded(*g),
        2 * (input_graph_num_nodes(*g) + 1) * crate::shared::MAX_EDGE_WEIGHT <= usize::MAX,
    ensures
        graph_num_nodes(r) == input_graph_num_nodes(*g),
        graph_safe_weights(r),
{
    fast_paths::prepare(g)
}

/// Relies on fast_paths' `FastGraph::get_num_nodes`: the node count the
/// index was built with.
#[verifier::external_body]
pub(crate) fn fast_graph_num_nodes(g: &fast_paths::FastGraph) -> (r: usize)
    ensures
        r == graph_num_nodes(*g),
{
    g.get_num_nodes()
}

/// Relies on fast_paths' `create_calculator`: a reusable query object sized
/// for the given index.
#[verifier::external_body]
pub(crate) fn create_calculator(g: &fast_paths::FastGraph) -> (r: fast_paths::PathCalculator)
    ensures
        calculator_num_nodes(r) == graph_num_nodes(*g),
{
    fast_paths::create_calculator(g)
}

/// Relies on fast_paths' `PathCalculator::calc_path`: the minimum-weight
/// path between the two nodes, or `None` if they are not connected.  The
/// calculator is scratch space; the weight depends only on the graph and the
/// endpoints.  Mismatched sizes or out-of-range nodes would make the call
/// panic, and the search adds path weights with unchecked arithmetic, so
/// the contract excludes both through its size and `graph_safe_weights`
/// clauses.
#[verifier::external_body]
pub(crate) fn calc_path_weight(
    calculator: &mut fast_paths::PathCalculator,
    graph: &fast_paths::FastGraph,
    source: usize,
    target: usize,
) -> (r: Option<usize>)
    requires
        calculator_num_nodes(*old(calculator)) == graph_num_nodes(*graph),
        graph_safe_weights(*graph),
        source < graph_num_nodes(*graph),
        target < graph_num_nodes(*graph),
    ensures
        r == transit_path_weight(*graph, source, target),
        calculator_num_nodes(*final(calculator)) == calculator_num_nodes(*old(calculator)),
{
    match calculator.calc_path(graph, source, target) {
        Some(path) => Some(path.get_weight()),
        None => None,
    }
}

/// Build the shortest-path index from the model's edge list.  Unusable
/// edges (loops, zero weights) are skipped, as the index itself would skip
/// them; the resulting index covers exactly the nodes the usable edges name.
pub fn preprocess_graph(edges: &Vec<TransitEdge>) -> (r: fast_paths::FastGraph)
    requires
        forall|i: int|
            0 <= i < edges@.len() ==> (#[trigger] edges@[i]).start_node < usize::MAX
                && edges@[i].end_node < usize::MAX && edges@[i].weight
                <= crate::shared::MAX_EDGE_WEIGHT,
        2 * (spec_input_nodes(edges@) + 1) * crate::shared::MAX_EDGE_WEIGHT <= usize::MAX,
    ensures
        graph_num_nodes(r) == spec_input_nodes(edges@),
        graph_safe_weights(r),
{
    let mut input_graph = input_graph_new();
    let n = edges.len();
    let mut i: usize = 0;
    while i < n
        invariant
            n == edges@.len(),
            i <= n,
            forall|k: int|
                0 <= k < edges@.len() ==> (#[trigger] edges@[k]).start_node < usize::MAX
                    && edges@[k].end_node < usize::MAX && edges@[k].weight
                    <= crate::shared::MAX_EDGE_WEIGHT,
            !input_graph_frozen(input_graph),
            input_graph_weights_bounded(input_graph),
            input_graph_num_nodes(input_graph) == spec_input_nodes(edges@.take(i as int)),
        decreases n - i,
    {
        let edge = edges[i];
        if edge.start_node != edge.end_node && edge.weight >= 1 {
            input_graph_add_edge(&mut input_graph, edge.start_node, edge.end_node, edge.weight);
        }
        proof {
            assert(edges@.take(i + 1).drop_last() =~= edges@.take(i as int));
            assert(edges@.take(i + 1).last() == edges@[i as int]);
        }
        i = i + 1;
    }
    proof {
        assert(edges@.take(n as int) =~= edges@);
    }
    input_graph_freeze(&mut input_graph);
    prepare_fast_graph(&input_graph)
}

} // verus!
