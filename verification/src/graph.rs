//! The graph model: a directed multigraph of code entities with string ids,
//! tolerant of self-loops, duplicate edges and non-finite edge weights.
//!
//! An edge is only created when both endpoints already exist; an edge naming
//! an unknown id is dropped at construction, so analytics never see one.
use vstd::prelude::*;

use crate::ast::NodeType;
use crate::ast::RelationshipType;
use crate::fixed::SCALE;
use crate::fixed::clamp_unit;
use crate::fixed::clamp_unit_spec;
use crate::fixed::lemma_clamp_unit_bounds;

verus! {

/// Largest node count the analytics modules accept; beyond it a module
/// degrades to its default result instead of risking arithmetic overflow.
pub const MAX_NODES: usize = 1_000_000;

/// Largest edge count the analytics modules accept.
pub const MAX_EDGES: usize = 1_000_000_000;

/// An edge weight as it arrives from outside: a fixed-point number, or one of
/// the non-finite values a caller may hand over. Consumers sanitize it; the
/// graph stores it untouched.
#[derive(Debug, Clone, Copy, PartialEq, Eq, Structural)]
pub enum EdgeWeight {
    /// An ordinary value, scaled by `SCALE`.
    Finite(i64),
    NotANumber,
    PositiveInfinity,
    NegativeInfinity,
}

impl EdgeWeight {
    /// The sanitized value of a weight: non-finite and negative weights
    /// count as one whole unit, everything else (zero included) keeps its
    /// value.
    pub open spec fn spec_sane(self) -> int {
        match self {
            EdgeWeight::Finite(v) => if v >= 0 {
                v as int
            } else {
                SCALE as int
            },
            _ => SCALE as int,
        }
    }

    /// Sanitize the weight for accumulation.
    pub fn sane(&self) -> (r: i64)
        ensures
            r == self.spec_sane(),
            0 <= r,
    {
        match self {
            EdgeWeight::Finite(v) => if *v >= 0 {
                *v
            } else {
                SCALE
            },
            _ => SCALE,
        }
    }

    /// Whether the weight is an ordinary (finite) value.
    pub fn is_finite(&self) -> (r: bool)
        ensures
            r == (self is Finite),
    {
        matches!(self, EdgeWeight::Finite(_))
    }
}

/// A node of the code graph.
#[derive(Debug, Clone)]
pub struct GraphNode {
    pub id: String,
    pub name: String,
    pub node_type: NodeType,
    /// Size weight of the entity (for a file: its line count).
    pub size: u64,
    pub file_path: Option<String>,
}

/// Payload of an edge as handed to `add_edge`.
#[derive(Debug, Clone)]
pub struct GraphEdge {
    pub edge_type: RelationshipType,
    pub weight: EdgeWeight,
}

/// A stored edge: endpoint indices into the node list plus the payload.
#[derive(Debug, Clone)]
pub struct Edge {
    pub source: usize,
    pub target: usize,
    pub edge_type: RelationshipType,
    pub weight: EdgeWeight,
}

/// Counts over the graph, for display.
#[derive(Debug, Clone, PartialEq, Eq, Structural)]
pub struct GraphStats {
    pub node_count: usize,
    pub link_count: usize,
    pub file_count: usize,
    pub function_count: usize,
    pub class_count: usize,
}

/// First index among the first `k` nodes whose id is `id`, if any.
pub open spec fn id_index_upto(nodes: Seq<GraphNode>, id: Seq<char>, k: int) -> Option<int>
    decreases k,
{
    if k <= 0 {
        None
    } else {
        match id_index_upto(nodes, id, k - 1) {
            Some(i) => Some(i),
            None => if nodes[k - 1].id@ == id {
                Some(k - 1)
            } else {
                None
            },
        }
    }
}

/// Once a prefix holds the id, every longer prefix gives the same index.
pub proof fn lemma_id_index_extend(nodes: Seq<GraphNode>, id: Seq<char>, k1: int, k2: int)
    requires
        0 <= k1 <= k2,
        id_index_upto(nodes, id, k1) is Some,
    ensures
        id_index_upto(nodes, id, k2) == id_index_upto(nodes, id, k1),
    decreases k2,
{
    if k2 > k1 {
        lemma_id_index_extend(nodes, id, k1, k2 - 1);
    }
}

/// A found index is in range and carries the id.
pub proof fn lemma_id_index_valid(nodes: Seq<GraphNode>, id: Seq<char>, k: int)
    requires
        id_index_upto(nodes, id, k) is Some,
    ensures
        0 <= id_index_upto(nodes, id, k)->Some_0 < k,
        nodes[id_index_upto(nodes, id, k)->Some_0].id@ == id,
    decreases k,
{
    if k > 0 && id_index_upto(nodes, id, k - 1) is Some {
        lemma_id_index_valid(nodes, id, k - 1);
    }
}

/// Number of edges among the first `k` that end at node `v`.
pub open spec fn in_deg_upto(edges: Seq<Edge>, v: int, k: int) -> int
    decreases k,
{
    if k <= 0 {
        0
    } else {
        in_deg_upto(edges, v, k - 1) + if edges[k - 1].target == v {
            1int
        } else {
            0int
        }
    }
}

/// Number of edges among the first `k` that start at node `v`.
pub open spec fn out_deg_upto(edges: Seq<Edge>, v: int, k: int) -> int
    decreases k,
{
    if k <= 0 {
        0
    } else {
        out_deg_upto(edges, v, k - 1) + if edges[k - 1].source == v {
            1int
        } else {
            0int
        }
    }
}

/// Number of self-loops among the first `k` edges.
pub open spec fn self_loops_upto(edges: Seq<Edge>, k: int) -> int
    decreases k,
{
    if k <= 0 {
        0
    } else {
        self_loops_upto(edges, k - 1) + if edges[k - 1].source == edges[k - 1].target {
            1int
        } else {
            0int
        }
    }
}

/// Prefix in-degree counts never shrink and never exceed the prefix length.
pub proof fn lemma_in_deg_bounds(edges: Seq<Edge>, v: int, k: int)
    requires
        0 <= k,
    ensures
        0 <= in_deg_upto(edges, v, k) <= k,
    decreases k,
{
    if k > 0 {
        lemma_in_deg_bounds(edges, v, k - 1);
    }
}

/// Prefix out-degree counts never shrink and never exceed the prefix length.
pub proof fn lemma_out_deg_bounds(edges: Seq<Edge>, v: int, k: int)
    requires
        0 <= k,
    ensures
        0 <= out_deg_upto(edges, v, k) <= k,
    decreases k,
{
    if k > 0 {
        lemma_out_deg_bounds(edges, v, k - 1);
    }
}

/// The code graph: nodes, edges between node indices, and id lookup.
#[derive(Debug, Clone)]
pub struct CodeGraph {
    pub nodes: Vec<GraphNode>,
    pub edges: Vec<Edge>,
}

impl CodeGraph {
    /// Number of nodes, as a mathematical integer.
    pub open spec fn n(self) -> int {
        self.nodes@.len() as int
    }

    /// Number of edges, as a mathematical integer.
    pub open spec fn m(self) -> int {
        self.edges@.len() as int
    }

    /// Well-formedness: every edge endpoint is a valid node index.
    pub open spec fn wf(self) -> bool {
        forall|k: int|
            0 <= k < self.edges@.len() ==> (#[trigger] self.edges@[k]).source < self.nodes@.len()
                && self.edges@[k].target < self.nodes@.len()
    }

    /// Whether the graph is small enough for the analytics modules'
    /// fixed-point arithmetic.
    pub open spec fn fits(self) -> bool {
        self.n() <= MAX_NODES as int && self.m() <= MAX_EDGES as int
    }

    /// First node index carrying `id`, if any.
    pub open spec fn id_index(self, id: Seq<char>) -> Option<int> {
        id_index_upto(self.nodes@, id, self.n())
    }

    /// In-degree of node `v`.
    pub open spec fn spec_in_degree(self, v: int) -> int {
        in_deg_upto(self.edges@, v, self.m())
    }

    /// Out-degree of node `v`.
    pub open spec fn spec_out_degree(self, v: int) -> int {
        out_deg_upto(self.edges@, v, self.m())
    }

    /// An empty graph.
    pub fn new() -> (g: CodeGraph)
        ensures
            g.wf(),
            g.n() == 0,
            g.m() == 0,
    {
        CodeGraph { nodes: Vec::new(), edges: Vec::new() }
    }

    pub fn node_count(&self) -> (r: usize)
        ensures
            r == self.n(),
    {
        self.nodes.len()
    }

    pub fn edge_count(&self) -> (r: usize)
        ensures
            r == self.m(),
    {
        self.edges.len()
    }

    /// Whether the graph is within the size limits of the analytics modules.
    pub fn check_fits(&self) -> (r: bool)
        ensures
            r == self.fits(),
    {
        self.nodes.len() <= MAX_NODES && self.edges.len() <= MAX_EDGES
    }

    /// Look a node up by id; returns the first index carrying it.
    pub fn index_of(&self, id: &String) -> (r: Option<usize>)
        ensures
            match r {
                Some(i) => self.id_index(id@) == Some(i as int),
                None => self.id_index(id@) is None,
            },
    {
        let n = self.nodes.len();
        let mut i: usize = 0;
        while i < n
            invariant
                i <= n,
                n == self.n(),
                id_index_upto(self.nodes@, id@, i as int) is None,
            decreases n - i,
        {
            if self.nodes[i].id.eq(id) {
                proof {
                    assert(id_index_upto(self.nodes@, id@, i + 1) == Some(i as int));
                    lemma_id_index_extend(self.nodes@, id@, i + 1, self.n());
                }
                return Some(i);
            }
            i = i + 1;
        }
        None
    }

    /// Add a node. A node under a fresh id is appended; re-inserting an id
    /// that already exists replaces that node in place, so iteration never
    /// sees an orphaned duplicate. Returns the node's index.
    pub fn add_node(&mut self, node: GraphNode) -> (idx: usize)
        requires
            old(self).wf(),
        ensures
            final(self).wf(),
            final(self).edges@ == old(self).edges@,
            match old(self).id_index(node.id@) {
                Some(i) => idx == i && final(self).nodes@ == old(self).nodes@.update(i, node),
                None => idx == old(self).n() && final(self).nodes@ == old(self).nodes@.push(node),
            },
    {
        let existing = self.index_of(&node.id);
        match existing {
            Some(i) => {
                proof {
                    lemma_id_index_valid(self.nodes@, node.id@, self.n());
                }
                self.nodes[i] = node;
                i
            },
            None => {
                let idx = self.nodes.len();
                self.nodes.push(node);
                idx
            },
        }
    }

    /// Add an edge between two ids. If either id is unknown the edge is
    /// dropped and the graph is unchanged.
    pub fn add_edge(&mut self, source_id: &String, target_id: &String, edge: GraphEdge)
        requires
            old(self).wf(),
        ensures
            final(self).wf(),
            final(self).nodes@ == old(self).nodes@,
            match (old(self).id_index(source_id@), old(self).id_index(target_id@)) {
                (Some(s), Some(t)) => final(self).edges@ == old(self).edges@.push(
                    Edge {
                        source: s as usize,
                        target: t as usize,
                        edge_type: edge.edge_type,
                        weight: edge.weight,
                    },
                ),
                _ => final(self).edges@ == old(self).edges@,
            },
    {
        let s = self.index_of(source_id);
        let t = self.index_of(target_id);
        match (s, t) {
            (Some(s), Some(t)) => {
                proof {
                    lemma_id_index_valid(self.nodes@, source_id@, self.n());
                    lemma_id_index_valid(self.nodes@, target_id@, self.n());
                }
                self.edges.push(
                    Edge { source: s, target: t, edge_type: edge.edge_type, weight: edge.weight },
                );
            },
            _ => {},
        }
    }

    /// In-degree of the node at index `v`.
    pub fn in_degree(&self, v: usize) -> (r: usize)
        ensures
            r == self.spec_in_degree(v as int),
    {
        let m = self.edges.len();
        let mut count: usize = 0;
        let mut k: usize = 0;
        while k < m
            invariant
                k <= m,
                m == self.m(),
                count == in_deg_upto(self.edges@, v as int, k as int),
                count <= k,
            decreases m - k,
        {
            proof {
                lemma_in_deg_bounds(self.edges@, v as int, k as int);
            }
            if self.edges[k].target == v {
                count = count + 1;
            }
            k = k + 1;
        }
        count
    }

    /// Out-degree of the node at index `v`.
    pub fn out_degree(&self, v: usize) -> (r: usize)
        ensures
            r == self.spec_out_degree(v as int),
    {
        let m = self.edges.len();
        let mut count: usize = 0;
        let mut k: usize = 0;
        while k < m
            invariant
                k <= m,
                m == self.m(),
                count == out_deg_upto(self.edges@, v as int, k as int),
                count <= k,
            decreases m - k,
        {
            proof {
                lemma_out_deg_bounds(self.edges@, v as int, k as int);
            }
            if self.edges[k].source == v {
                count = count + 1;
            }
            k = k + 1;
        }
        count
    }

    /// In-degrees of all nodes.
    pub fn in_degrees(&self) -> (r: Vec<usize>)
        ensures
            r@.len() == self.n(),
            forall|v: int| 0 <= v < self.n() ==> r@[v] == self.spec_in_degree(v),
    {
        let n = self.nodes.len();
        let mut r: Vec<usize> = Vec::new();
        let mut v: usize = 0;
        while v < n
            invariant
                v <= n,
                n == self.n(),
                r@.len() == v,
                forall|j: int| 0 <= j < v ==> r@[j] == self.spec_in_degree(j),
            decreases n - v,
        {
            let d = self.in_degree(v);
            r.push(d);
            v = v + 1;
        }
        r
    }

    /// Out-degrees of all nodes.
    pub fn out_degrees(&self) -> (r: Vec<usize>)
        ensures
            r@.len() == self.n(),
            forall|v: int| 0 <= v < self.n() ==> r@[v] == self.spec_out_degree(v),
    {
        let n = self.nodes.len();
        let mut r: Vec<usize> = Vec::new();
        let mut v: usize = 0;
        while v < n
            invariant
                v <= n,
                n == self.n(),
                r@.len() == v,
                forall|j: int| 0 <= j < v ==> r@[j] == self.spec_out_degree(j),
            decreases n - v,
        {
            let d = self.out_degree(v);
            r.push(d);
            v = v + 1;
        }
        r
    }

    /// Number of self-loops.
    pub fn self_loop_count(&self) -> (r: usize)
        ensures
            r == self_loops_upto(self.edges@, self.m()),
    {
        let m = self.edges.len();
        let mut count: usize = 0;
        let mut k: usize = 0;
        while k < m
            invariant
                k <= m,
                m == self.m(),
                count == self_loops_upto(self.edges@, k as int),
                count <= k,
            decreases m - k,
        {
            if self.edges[k].source == self.edges[k].target {
                count = count + 1;
            }
            k = k + 1;
        }
        count
    }

    /// Counts by node type, for display.
    pub fn stats(&self) -> (r: GraphStats)
        ensures
            r.node_count == self.n(),
            r.link_count == self.m(),
    {
        let n = self.nodes.len();
        let mut file_count: usize = 0;
        let mut function_count: usize = 0;
        let mut class_count: usize = 0;
        let mut v: usize = 0;
        while v < n
            invariant
                v <= n,
                n == self.n(),
                file_count <= v,
                function_count <= v,
                class_count <= v,
            decreases n - v,
        {
            match self.nodes[v].node_type {
                NodeType::File => {
                    file_count = file_count + 1;
                },
                NodeType::Function => {
                    function_count = function_count + 1;
                },
                NodeType::Class => {
                    class_count = class_count + 1;
                },
                _ => {},
            }
            v = v + 1;
        }
        GraphStats {
            node_count: n,
            link_count: self.edges.len(),
            file_count,
            function_count,
            class_count,
        }
    }
}


/// One incoming-edge contribution to a PageRank update: the damped previous
/// rank of the source, split over the source's out-degree. A source without
/// outgoing edges contributes nothing (dangling mass is not redistributed).
pub open spec fn pr_term_spec(d: int, prev: int, od: int) -> int {
    if od > 0 {
        ((d * prev) / (SCALE as int)) / od
    } else {
        0
    }
}

/// Sum of the PageRank contributions to node `v` from the first `k` edges,
/// reading the previous iteration's ranks.
pub open spec fn pr_contrib_upto(g: CodeGraph, prev: Seq<i64>, d: int, v: int, k: int) -> int
    decreases k,
{
    if k <= 0 {
        0
    } else {
        pr_contrib_upto(g, prev, d, v, k - 1) + {
            let e = g.edges@[k - 1];
            if e.target == v {
                pr_term_spec(d, prev[e.source as int] as int, g.spec_out_degree(e.source as int))
            } else {
                0
            }
        }
    }
}

/// The uniform starting rank, one `n`-th of a unit per node.
pub open spec fn pr_init(n: int) -> Seq<i64> {
    Seq::new(n as nat, |v: int| ((SCALE as int) / n) as i64)
}

/// One full PageRank update, reading the previous snapshot only.
pub open spec fn pr_next(g: CodeGraph, prev: Seq<i64>, d: int) -> Seq<i64> {
    Seq::new(
        g.n() as nat,
        |v: int| clamp_unit_spec(
            (SCALE - d) / g.n() + pr_contrib_upto(g, prev, d, v, g.m()),
        ) as i64,
    )
}

/// Ranks after `iters` PageRank iterations with damping `d`.
pub open spec fn pagerank_spec(g: CodeGraph, iters: nat, d: int) -> Seq<i64>
    decreases iters,
{
    if g.n() == 0 {
        Seq::empty()
    } else if iters == 0 {
        pr_init(g.n())
    } else {
        pr_next(g, pagerank_spec(g, (iters - 1) as nat, d), d)
    }
}

/// Every PageRank vector has one entry per node, each a normalized score.
pub proof fn lemma_pagerank_bounds(g: CodeGraph, iters: nat, d: int)
    requires
        g.n() > 0,
    ensures
        pagerank_spec(g, iters, d).len() == g.n(),
        forall|v: int|
            0 <= v < g.n() ==> 0 <= #[trigger] pagerank_spec(g, iters, d)[v] <= SCALE,
    decreases iters,
{
    if iters == 0 {
        vstd::arithmetic::div_mod::lemma_div_pos_is_pos(SCALE as int, g.n());
        vstd::arithmetic::div_mod::lemma_div_is_ordered_by_denominator(SCALE as int, 1, g.n());
    } else {
        lemma_pagerank_bounds(g, (iters - 1) as nat, d);
        assert forall|v: int| 0 <= v < g.n() implies 0 <= #[trigger] pagerank_spec(g, iters, d)[v]
            <= SCALE by {
            lemma_clamp_unit_bounds((SCALE - d) / g.n() + pr_contrib_upto(g, pagerank_spec(g, (iters - 1) as nat, d), d, v, g.m()));
        }
    }
}

impl CodeGraph {
    /// Calculate PageRank over all nodes: starting from a uniform rank, run
    /// a fixed number of Jacobi-style updates of
    /// `rank(v) = (1 - d)/n + d * sum of rank(u)/outdeg(u)` over the edges
    /// `u -> v`, every update reading the previous iteration's snapshot and
    /// clamping into the unit range. Nodes without outgoing edges contribute
    /// nothing. Returns one fixed-point rank per node, in node order.
    pub fn calculate_pagerank(&self, iterations: usize, damping: i64) -> (r: Vec<i64>)
        requires
            self.wf(),
            self.fits(),
            0 <= damping <= SCALE,
        ensures
            r@ == pagerank_spec(*self, iterations as nat, damping as int),
            r@.len() == self.n(),
            forall|v: int| 0 <= v < self.n() ==> 0 <= #[trigger] r@[v] <= SCALE,
    {
        let n = self.nodes.len();
        if n == 0 {
            let r: Vec<i64> = Vec::new();
            proof {
                assert(r@ =~= pagerank_spec(*self, iterations as nat, damping as int));
            }
            return r;
        }
        let outdegs = self.out_degrees();

        let mut ranks: Vec<i64> = Vec::new();
        let init = SCALE / (n as i64);
        proof {
            vstd::arithmetic::div_mod::lemma_div_pos_is_pos(SCALE as int, n as int);
            vstd::arithmetic::div_mod::lemma_div_is_ordered_by_denominator(SCALE as int, 1, n as int);
        }
        let mut v: usize = 0;
        while v < n
            invariant
                v <= n,
                n == self.n(),
                init == (SCALE as int) / (n as int),
                0 <= init <= SCALE,
                ranks@.len() == v,
                forall|j: int| 0 <= j < v ==> ranks@[j] == pr_init(n as int)[j],
            decreases n - v,
        {
            ranks.push(init);
            v = v + 1;
        }
        proof {
            assert(ranks@ =~= pr_init(n as int));
            assert(ranks@ == pagerank_spec(*self, 0nat, damping as int));
        }

        let mut it: usize = 0;
        while it < iterations
            invariant
                it <= iterations,
                n == self.n(),
                n >= 1,
                self.wf(),
                self.fits(),
                0 <= damping <= SCALE,
                outdegs@.len() == n,
                forall|j: int| 0 <= j < n ==> outdegs@[j] == self.spec_out_degree(j),
                ranks@ == pagerank_spec(*self, it as nat, damping as int),
                ranks@.len() == n,
                forall|j: int| 0 <= j < n ==> 0 <= #[trigger] ranks@[j] <= SCALE,
            decreases iterations - it,
        {
            let ghost prev = ranks@;
            let m = self.edges.len();
            let base = (SCALE - damping) / (n as i64);
            let mut new_ranks: Vec<i64> = Vec::new();
            let mut v: usize = 0;
            while v < n
                invariant
                    v <= n,
                    n == self.n(),
                    n >= 1,
                    m == self.m(),
                    self.wf(),
                    self.fits(),
                    0 <= damping <= SCALE,
                    base == (SCALE - damping) / (n as int),
                    outdegs@.len() == n,
                    forall|j: int| 0 <= j < n ==> outdegs@[j] == self.spec_out_degree(j),
                    ranks@ == prev,
                    ranks@.len() == n,
                    forall|j: int| 0 <= j < n ==> 0 <= #[trigger] ranks@[j] <= SCALE,
                    new_ranks@.len() == v,
                    forall|j: int|
                        0 <= j < v ==> new_ranks@[j] == pr_next(*self, prev, damping as int)[j],
                decreases n - v,
            {
                let mut sum: i64 = 0;
                let mut k: usize = 0;
                while k < m
                    invariant
                        k <= m,
                        v < n,
                        n == self.n(),
                        m == self.m(),
                        self.wf(),
                        self.fits(),
                        0 <= damping <= SCALE,
                        outdegs@.len() == n,
                        forall|j: int| 0 <= j < n ==> outdegs@[j] == self.spec_out_degree(j),
                        ranks@ == prev,
                        ranks@.len() == n,
                        forall|j: int| 0 <= j < n ==> 0 <= #[trigger] ranks@[j] <= SCALE,
                        sum == pr_contrib_upto(*self, prev, damping as int, v as int, k as int),
                        0 <= sum <= k * (SCALE as int),
                    decreases m - k,
                {
                    let e_src = self.edges[k].source;
                    let e_tgt = self.edges[k].target;
                    if e_tgt == v {
                        let od = outdegs[e_src];
                        proof {
                            lemma_out_deg_bounds(self.edges@, e_src as int, self.m());
                            assert(od == self.spec_out_degree(e_src as int));
                            assert(od <= self.m());
                            assert(od <= MAX_EDGES);
                        }
                        let term = pr_term(damping, ranks[e_src], od);
                        proof {
                            vstd::arithmetic::mul::lemma_mul_inequality(
                                k as int,
                                (k + 1) as int,
                                SCALE as int,
                            );
                        }
                        sum = sum + term;
                    } else {
                        proof {
                            vstd::arithmetic::mul::lemma_mul_inequality(
                                k as int,
                                (k + 1) as int,
                                SCALE as int,
                            );
                        }
                    }
                    k = k + 1;
                }
                proof {
                    vstd::arithmetic::mul::lemma_mul_inequality(
                        m as int,
                        MAX_EDGES as int,
                        SCALE as int,
                    );
                }
                let new_rank = clamp_unit(base + sum);
                new_ranks.push(new_rank);
                v = v + 1;
            }
            proof {
                assert(new_ranks@ =~= pr_next(*self, prev, damping as int));
                lemma_pagerank_bounds(*self, (it + 1) as nat, damping as int);
            }
            ranks = new_ranks;
            it = it + 1;
        }
        ranks
    }
}

/// One PageRank edge contribution, in executable form.
fn pr_term(d: i64, prev: i64, od: usize) -> (r: i64)
    requires
        0 <= d <= SCALE,
        0 <= prev <= SCALE,
        od <= MAX_EDGES,
    ensures
        r == pr_term_spec(d as int, prev as int, od as int),
        0 <= r <= SCALE,
{
    if od > 0 {
        proof {
            vstd::arithmetic::mul::lemma_mul_upper_bound(
                d as int,
                SCALE as int,
                prev as int,
                SCALE as int,
            );
            vstd::arithmetic::mul::lemma_mul_nonnegative(d as int, prev as int);
        }
        let p = (d * prev) / SCALE;
        proof {
            vstd::arithmetic::div_mod::lemma_div_pos_is_pos((d * prev) as int, SCALE as int);
            vstd::arithmetic::div_mod::lemma_div_is_ordered(
                (d * prev) as int,
                (SCALE as int) * (SCALE as int),
                SCALE as int,
            );
            vstd::arithmetic::div_mod::lemma_div_pos_is_pos(p as int, od as int);
            vstd::arithmetic::div_mod::lemma_div_is_ordered_by_denominator(p as int, 1, od as int);
        }
        p / (od as i64)
    } else {
        0
    }
}

} // verus!
