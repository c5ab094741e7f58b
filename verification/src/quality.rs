//! Quality metrics: coupling between module-like nodes, cohesion of
//! contained callables, complexity with a depth-in-hierarchy factor, a
//! maintainability index, and structural code smells.
use vstd::prelude::*;

use crate::ast::NodeType;
use crate::fixed::SCALE;
use crate::fixed::clamp_unit;
use crate::fixed::clamp_unit_spec;
use crate::graph::CodeGraph;
use crate::paths::INF_DIST;
use crate::paths::rdists_spec;

verus! {

/// Whether a directed edge from `u` to `v` exists among the first `k`.
pub open spec fn dir_edge_upto(g: CodeGraph, u: int, v: int, k: int) -> bool
    decreases k,
{
    k > 0 && ((g.edges@[k - 1].source == u && g.edges@[k - 1].target == v) || dir_edge_upto(
        g,
        u,
        v,
        k - 1,
    ))
}

/// Whether node `u` is a module-like dependency source of `v`.
pub open spec fn is_afferent(g: CodeGraph, v: int, u: int) -> bool {
    g.nodes@[u].node_type.spec_module_like() && dir_edge_upto(g, u, v, g.m())
}

/// Whether node `u` is a module-like dependency target of `v`.
pub open spec fn is_efferent(g: CodeGraph, v: int, u: int) -> bool {
    g.nodes@[u].node_type.spec_module_like() && dir_edge_upto(g, v, u, g.m())
}

/// Count of afferent module-like dependencies among the first `k` nodes.
pub open spec fn aff_cnt_upto(g: CodeGraph, v: int, k: int) -> int
    decreases k,
{
    if k <= 0 {
        0
    } else {
        aff_cnt_upto(g, v, k - 1) + if is_afferent(g, v, k - 1) {
            1int
        } else {
            0int
        }
    }
}

/// Count of efferent module-like dependencies among the first `k` nodes.
pub open spec fn eff_cnt_upto(g: CodeGraph, v: int, k: int) -> int
    decreases k,
{
    if k <= 0 {
        0
    } else {
        eff_cnt_upto(g, v, k - 1) + if is_efferent(g, v, k - 1) {
            1int
        } else {
            0int
        }
    }
}

/// Counts stay within the number of nodes scanned.
pub proof fn lemma_aff_eff_bounds(g: CodeGraph, v: int, k: int)
    requires
        0 <= k,
    ensures
        0 <= aff_cnt_upto(g, v, k) <= k,
        0 <= eff_cnt_upto(g, v, k) <= k,
    decreases k,
{
    if k > 0 {
        lemma_aff_eff_bounds(g, v, k - 1);
    }
}

/// Coupling of one module-like node: distinct module-like dependents,
/// distinct module-like dependencies, and instability. Nodes that are not
/// module-like carry zeroes.
#[derive(Debug, Clone, PartialEq, Eq, Structural)]
pub struct CouplingMetrics {
    pub afferent: i64,
    pub efferent: i64,
    /// Efferent share of all coupling, in fixed point.
    pub instability: i64,
}

/// The coupling metrics of node `v`.
pub open spec fn coupling_spec(g: CodeGraph, v: int) -> CouplingMetrics {
    if g.nodes@[v].node_type.spec_module_like() {
        let aff = aff_cnt_upto(g, v, g.n());
        let eff = eff_cnt_upto(g, v, g.n());
        let inst = if aff + eff > 0 {
            eff * SCALE / (aff + eff)
        } else {
            0
        };
        CouplingMetrics { afferent: aff as i64, efferent: eff as i64, instability: inst as i64 }
    } else {
        CouplingMetrics { afferent: 0, efferent: 0, instability: 0 }
    }
}

/// Whether `u` is a directly contained callable child of `v`.
pub open spec fn is_child(g: CodeGraph, v: int, u: int) -> bool {
    g.nodes@[u].node_type.spec_callable() && dir_edge_upto(g, v, u, g.m())
}

/// Count of contained callable children among the first `k` nodes.
pub open spec fn child_cnt_upto(g: CodeGraph, v: int, k: int) -> int
    decreases k,
{
    if k <= 0 {
        0
    } else {
        child_cnt_upto(g, v, k - 1) + if is_child(g, v, k - 1) {
            1int
        } else {
            0int
        }
    }
}

/// Count of connected ordered child pairs `(a, b)` with `b` below `k`, for
/// a fixed `a`.
pub open spec fn conn_row_upto(g: CodeGraph, v: int, a: int, k: int) -> int
    decreases k,
{
    if k <= 0 {
        0
    } else {
        conn_row_upto(g, v, a, k - 1) + if k - 1 != a && is_child(g, v, k - 1) && dir_edge_upto(
            g,
            a,
            k - 1,
            g.m(),
        ) {
            1int
        } else {
            0int
        }
    }
}

/// Count of connected ordered child pairs with the first member below `k`.
pub open spec fn conn_cnt_upto(g: CodeGraph, v: int, k: int) -> int
    decreases k,
{
    if k <= 0 {
        0
    } else {
        conn_cnt_upto(g, v, k - 1) + if is_child(g, v, k - 1) {
            conn_row_upto(g, v, k - 1, g.n())
        } else {
            0
        }
    }
}

/// Pair counts are bounded by the scanned area.
pub proof fn lemma_conn_bounds(g: CodeGraph, v: int, k: int)
    requires
        0 <= k,
    ensures
        0 <= conn_cnt_upto(g, v, k) <= k * g.n(),
    decreases k,
{
    if k > 0 {
        lemma_conn_bounds(g, v, k - 1);
        lemma_conn_row_bounds(g, v, k - 1, g.n());
        assert((k - 1) * g.n() + g.n() == k * g.n()) by (nonlinear_arith);
    }
}

proof fn lemma_conn_row_bounds(g: CodeGraph, v: int, a: int, k: int)
    requires
        0 <= k,
    ensures
        0 <= conn_row_upto(g, v, a, k) <= k,
    decreases k,
{
    if k > 0 {
        lemma_conn_row_bounds(g, v, a, k - 1);
    }
}

/// Cohesion of node `v`: for class and module nodes, the share of realized
/// ordered connections among its contained callable children, clamped to
/// the unit range; one whole unit with fewer than two children or for any
/// other node type.
pub open spec fn cohesion_spec(g: CodeGraph, v: int) -> int {
    let t = g.nodes@[v].node_type;
    if t is Class || t is Module {
        let c = child_cnt_upto(g, v, g.n());
        if c < 2 {
            SCALE as int
        } else {
            clamp_unit_spec(conn_cnt_upto(g, v, g.n()) * SCALE / (c * (c - 1)))
        }
    } else {
        SCALE as int
    }
}

/// Number of outgoing edges among the first `k` whose target is callable.
pub open spec fn callable_edge_cnt_upto(g: CodeGraph, v: int, k: int) -> int
    decreases k,
{
    if k <= 0 {
        0
    } else {
        callable_edge_cnt_upto(g, v, k - 1) + {
            let e = g.edges@[k - 1];
            if e.source == v && g.nodes@[e.target as int].node_type.spec_callable() {
                1int
            } else {
                0int
            }
        }
    }
}

/// Sum of per-child-type constants over the first `k` outgoing edges: five
/// per contained function, ten per contained class, one otherwise.
pub open spec fn contained_cost_upto(g: CodeGraph, v: int, k: int) -> int
    decreases k,
{
    if k <= 0 {
        0
    } else {
        contained_cost_upto(g, v, k - 1) + {
            let e = g.edges@[k - 1];
            if e.source == v {
                let t = g.nodes@[e.target as int].node_type;
                if t is Function {
                    5int
                } else if t is Class {
                    10int
                } else {
                    1int
                }
            } else {
                0int
            }
        }
    }
}

/// Per-edge counts stay within linear bounds.
pub proof fn lemma_complexity_counts(g: CodeGraph, v: int, k: int)
    requires
        0 <= k,
    ensures
        0 <= callable_edge_cnt_upto(g, v, k) <= k,
        0 <= contained_cost_upto(g, v, k) <= 10 * k,
    decreases k,
{
    if k > 0 {
        lemma_complexity_counts(g, v, k - 1);
    }
}

/// Largest finite entry of a distance vector prefix, zero if none.
pub open spec fn max_finite_upto(d: Seq<i64>, k: int) -> int
    decreases k,
{
    if k <= 0 {
        0
    } else {
        let rest = max_finite_upto(d, k - 1);
        if d[k - 1] < INF_DIST && d[k - 1] > rest {
            d[k - 1] as int
        } else {
            rest
        }
    }
}

/// Depth of `v` in the hierarchy: the longest shortest-path distance from
/// any node that can reach `v`.
pub open spec fn depth_spec(g: CodeGraph, v: int) -> int {
    max_finite_upto(rdists_spec(g, v, g.n() as nat), g.n())
}

/// Complexity of one node: a per-type base formula, and the base weighted
/// by one tenth per level of depth in the hierarchy.
#[derive(Debug, Clone, PartialEq, Eq, Structural)]
pub struct ComplexityMetrics {
    pub cyclomatic: i64,
    pub cognitive: i64,
    pub depth: i64,
}

/// The base complexity of node `v`: callables take their out-degree plus
/// one, classes twice their callable children plus their out-degree, files
/// and modules the summed per-child-type constants, all else one.
pub open spec fn base_complexity_spec(g: CodeGraph, v: int) -> int {
    let t = g.nodes@[v].node_type;
    if t is Function || t is Method {
        g.spec_out_degree(v) + 1
    } else if t is Class {
        2 * callable_edge_cnt_upto(g, v, g.m()) + g.spec_out_degree(v)
    } else if t is File || t is Module {
        contained_cost_upto(g, v, g.m())
    } else {
        1
    }
}

/// The complexity metrics of node `v`.
pub open spec fn complexity_spec(g: CodeGraph, v: int) -> ComplexityMetrics {
    let base = base_complexity_spec(g, v);
    let depth = depth_spec(g, v);
    ComplexityMetrics {
        cyclomatic: base as i64,
        cognitive: (base * (10 + depth) / 10) as i64,
        depth: depth as i64,
    }
}

/// Maintainability of node `v`, in the unit range: a weighted blend of
/// three decaying factors, for out-degree, size and in-degree.
pub open spec fn maintainability_spec(g: CodeGraph, v: int) -> int {
    let outd = g.spec_out_degree(v);
    let ind = g.spec_in_degree(v);
    let size = if g.nodes@[v].size > 1_000_000_000_000u64 {
        1_000_000_000_000int
    } else {
        g.nodes@[v].size as int
    };
    let f1 = 10 * SCALE / (10 + outd);
    let f2 = 500 * SCALE / (500 + size);
    let f3 = 10 * SCALE / (10 + ind);
    (4 * f1 + 3 * f2 + 3 * f3) / 10
}


/// One structural code smell.
#[derive(Debug, Clone)]
pub struct CodeSmell {
    pub smell_type: String,
    pub severity: String,
    pub description: String,
}

/// The smells found on one node.
#[derive(Debug, Clone)]
pub struct CodeSmells {
    pub smells: Vec<CodeSmell>,
}

/// The smell thresholds: a god object above thirty connections (severe
/// above fifty), a large file above the size threshold (severe above
/// twice), feature envy above fifteen dependencies, shotgun surgery above
/// twenty dependents.
pub open spec fn god_smell(g: CodeGraph, v: int) -> bool {
    g.spec_in_degree(v) + g.spec_out_degree(v) > 30
}

pub open spec fn large_smell(g: CodeGraph, v: int, size_threshold: int) -> bool {
    g.nodes@[v].size > size_threshold
}

pub open spec fn envy_smell(g: CodeGraph, v: int) -> bool {
    g.spec_out_degree(v) > 15
}

pub open spec fn shotgun_smell(g: CodeGraph, v: int) -> bool {
    g.spec_in_degree(v) > 20
}

/// How many of the four smells node `v` carries.
pub open spec fn smell_count_spec(g: CodeGraph, v: int, size_threshold: int) -> int {
    (if god_smell(g, v) { 1int } else { 0int })
        + (if large_smell(g, v, size_threshold) { 1int } else { 0int })
        + (if envy_smell(g, v) { 1int } else { 0int })
        + (if shotgun_smell(g, v) { 1int } else { 0int })
}

/// Position of the large-file smell in a node's smell list.
pub open spec fn large_pos(g: CodeGraph, v: int) -> int {
    if god_smell(g, v) {
        1int
    } else {
        0int
    }
}

/// Position of the feature-envy smell in a node's smell list.
pub open spec fn envy_pos(g: CodeGraph, v: int, size_threshold: int) -> int {
    large_pos(g, v) + if large_smell(g, v, size_threshold) {
        1int
    } else {
        0int
    }
}

/// Position of the shotgun-surgery smell in a node's smell list.
pub open spec fn shotgun_pos(g: CodeGraph, v: int, size_threshold: int) -> int {
    envy_pos(g, v, size_threshold) + if envy_smell(g, v) {
        1int
    } else {
        0int
    }
}

/// A slim quality configuration: one toggle for the cohesion pass.
#[derive(Debug, Clone, PartialEq, Eq, Structural)]
pub struct QualityMetrics {
    pub calculate_cohesion: bool,
}

impl QualityMetrics {
    /// The default configuration, cohesion included.
    pub fn new() -> (r: Self)
        ensures
            r.calculate_cohesion == true,
    {
        QualityMetrics { calculate_cohesion: true }
    }

    /// Run the quality module under this configuration: with cohesion
    /// disabled, the cohesion vector stays empty; everything else matches
    /// the analyzer's default run.
    pub fn calculate(&self, g: &CodeGraph) -> (r: QualityResults)
        requires
            g.wf(),
            g.fits(),
        ensures
            self.calculate_cohesion ==> r.cohesion@.len() == g.n() && (forall|v: int|
                0 <= v < g.n() ==> r.cohesion@[v] == cohesion_spec(*g, v)),
            !self.calculate_cohesion ==> r.cohesion@.len() == 0,
            r.complexity@.len() == g.n(),
            forall|v: int| 0 <= v < g.n() ==> r.complexity@[v] == complexity_spec(*g, v),
            r.maintainability@.len() == g.n(),
            forall|v: int| 0 <= v < g.n() ==> r.maintainability@[v] == maintainability_spec(*g, v),
            r.coupling@.len() == g.n(),
            forall|v: int| 0 <= v < g.n() ==> r.coupling@[v] == coupling_spec(*g, v),
    {
        let mut results = QualityAnalyzer::new().analyze_quality(g);
        if !self.calculate_cohesion {
            results.cohesion = Vec::new();
        }
        results
    }
}

/// Configuration of the quality analyzer.
#[derive(Debug, Clone, PartialEq, Eq, Structural)]
pub struct QualityAnalyzer {
    /// Size above which a node counts as a large file.
    pub size_threshold: u64,
}

/// All quality results, aligned with the node order.
#[derive(Debug, Clone)]
pub struct QualityResults {
    pub coupling: Vec<CouplingMetrics>,
    pub cohesion: Vec<i64>,
    pub complexity: Vec<ComplexityMetrics>,
    pub maintainability: Vec<i64>,
    pub code_smells: Vec<CodeSmells>,
    /// Mean cyclomatic complexity, in fixed point.
    pub avg_complexity: i64,
    /// Mean cohesion score, in fixed point.
    pub avg_cohesion: i64,
    pub total_code_smells: usize,
    /// Log entries of failed sub-metrics; in this build every sub-metric
    /// is total, so the log stays empty.
    pub errors: Vec<String>,
}

/// Sum of the cyclomatic complexities of the first `k` entries.
pub open spec fn cyclo_sum_upto(s: Seq<ComplexityMetrics>, k: int) -> int
    decreases k,
{
    if k <= 0 {
        0
    } else {
        cyclo_sum_upto(s, k - 1) + s[k - 1].cyclomatic
    }
}

/// Sum of the first `k` cohesion scores.
pub open spec fn cohesion_sum_upto(s: Seq<i64>, k: int) -> int
    decreases k,
{
    if k <= 0 {
        0
    } else {
        cohesion_sum_upto(s, k - 1) + s[k - 1]
    }
}

impl CodeGraph {
    /// Whether a directed edge from `u` to `v` exists.
    pub fn has_edge(&self, u: usize, v: usize) -> (r: bool)
        ensures
            r == dir_edge_upto(*self, u as int, v as int, self.m()),
    {
        let m = self.edges.len();
        let mut k: usize = 0;
        let mut found = false;
        while k < m
            invariant
                k <= m,
                m == self.m(),
                found == dir_edge_upto(*self, u as int, v as int, k as int),
            decreases m - k,
        {
            if self.edges[k].source == u && self.edges[k].target == v {
                found = true;
            }
            k = k + 1;
        }
        found
    }
}

impl QualityAnalyzer {
    /// The default configuration: five hundred lines make a large file.
    pub fn new() -> (r: Self)
        ensures
            r.size_threshold == 500,
    {
        QualityAnalyzer { size_threshold: 500 }
    }

    /// Coupling metrics of every node; see `coupling_spec`.
    #[verifier::loop_isolation(false)]
    pub fn calculate_coupling(&self, g: &CodeGraph) -> (r: Vec<CouplingMetrics>)
        requires
            g.wf(),
            g.fits(),
        ensures
            r@.len() == g.n(),
            forall|v: int| 0 <= v < g.n() ==> r@[v] == coupling_spec(*g, v),
    {
        let n = g.nodes.len();
        let mut r: Vec<CouplingMetrics> = Vec::new();
        let mut v: usize = 0;
        while v < n
            invariant
                v <= n,
                r@.len() == v,
                forall|j: int| 0 <= j < v ==> r@[j] == coupling_spec(*g, j),
            decreases n - v,
        {
            if g.nodes[v].node_type.is_module_like() {
                let mut aff: usize = 0;
                let mut eff: usize = 0;
                let mut u: usize = 0;
                while u < n
                    invariant
                        u <= n,
                        v < n,
                        aff == aff_cnt_upto(*g, v as int, u as int),
                        eff == eff_cnt_upto(*g, v as int, u as int),
                        aff <= u,
                        eff <= u,
                    decreases n - u,
                {
                    proof {
                        lemma_aff_eff_bounds(*g, v as int, u as int);
                    }
                    if g.nodes[u].node_type.is_module_like() {
                        if g.has_edge(u, v) {
                            aff = aff + 1;
                        }
                        if g.has_edge(v, u) {
                            eff = eff + 1;
                        }
                    }
                    u = u + 1;
                }
                let inst: i64 = if aff + eff > 0 {
                    proof {
                        vstd::arithmetic::mul::lemma_mul_nonnegative(eff as int, SCALE as int);
                        vstd::arithmetic::mul::lemma_mul_inequality(
                            eff as int,
                            (aff + eff) as int,
                            SCALE as int,
                        );
                        vstd::arithmetic::div_mod::lemma_div_pos_is_pos(
                            eff as int * SCALE as int,
                            (aff + eff) as int,
                        );
                        vstd::arithmetic::div_mod::lemma_div_is_ordered(
                            eff as int * SCALE as int,
                            (aff + eff) as int * SCALE as int,
                            (aff + eff) as int,
                        );
                        vstd::arithmetic::div_mod::lemma_div_multiples_vanish(
                            SCALE as int,
                            (aff + eff) as int,
                        );
                    }
                    (eff as i64) * SCALE / ((aff + eff) as i64)
                } else {
                    0
                };
                r.push(
                    CouplingMetrics {
                        afferent: aff as i64,
                        efferent: eff as i64,
                        instability: inst,
                    },
                );
            } else {
                r.push(CouplingMetrics { afferent: 0, efferent: 0, instability: 0 });
            }
            v = v + 1;
        }
        r
    }

    /// Cohesion of every node; see `cohesion_spec`.
    #[verifier::loop_isolation(false)]
    pub fn calculate_cohesion_metrics(&self, g: &CodeGraph) -> (r: Vec<i64>)
        requires
            g.wf(),
            g.fits(),
        ensures
            r@.len() == g.n(),
            forall|v: int| 0 <= v < g.n() ==> r@[v] == cohesion_spec(*g, v),
            forall|v: int| 0 <= v < g.n() ==> 0 <= #[trigger] r@[v] <= SCALE,
    {
        let n = g.nodes.len();
        let mut r: Vec<i64> = Vec::new();
        let mut v: usize = 0;
        while v < n
            invariant
                v <= n,
                r@.len() == v,
                forall|j: int| 0 <= j < v ==> r@[j] == cohesion_spec(*g, j),
                forall|j: int| 0 <= j < v ==> 0 <= #[trigger] r@[j] <= SCALE,
            decreases n - v,
        {
            let t = g.nodes[v].node_type;
            let applicable = matches!(t, NodeType::Class | NodeType::Module);
            if applicable {
                let mut kids: Vec<bool> = Vec::new();
                let mut c: usize = 0;
                let mut u: usize = 0;
                while u < n
                    invariant
                        u <= n,
                        v < n,
                        kids@.len() == u,
                        forall|j: int| 0 <= j < u ==> kids@[j] == is_child(*g, v as int, j),
                        c == child_cnt_upto(*g, v as int, u as int),
                        c <= u,
                    decreases n - u,
                {
                    proof {
                        lemma_child_cnt_bounds(*g, v as int, u as int);
                    }
                    let k = g.nodes[u].node_type.is_callable() && g.has_edge(v, u);
                    kids.push(k);
                    if k {
                        c = c + 1;
                    }
                    u = u + 1;
                }
                if c < 2 {
                    r.push(SCALE);
                } else {
                    let mut conn: i64 = 0;
                    let mut a: usize = 0;
                    while a < n
                        invariant
                            a <= n,
                            v < n,
                            kids@.len() == n,
                            forall|j: int| 0 <= j < n ==> kids@[j] == is_child(*g, v as int, j),
                            conn == conn_cnt_upto(*g, v as int, a as int),
                            conn <= a * n,
                        decreases n - a,
                    {
                        proof {
                            lemma_conn_bounds(*g, v as int, a as int);
                            assert(a as int * (n as int) + n as int == (a + 1) as int * (n as int))
                                by (nonlinear_arith);
                            assert((a + 1) as int * (n as int) <= 1000000000000int)
                                by (nonlinear_arith)
                                requires
                                    0 <= (a + 1) as int <= 1000000,
                                    0 <= n as int <= 1000000,
                            ;
                        }
                        if kids[a] {
                            let mut b: usize = 0;
                            let ghost conn0 = conn as int;
                            while b < n
                                invariant
                                    b <= n,
                                    a < n,
                                    kids@.len() == n,
                                    forall|j: int|
                                        0 <= j < n ==> kids@[j] == is_child(*g, v as int, j),
                                    conn == conn0 + conn_row_upto(*g, v as int, a as int, b as int),
                                    conn0 == conn_cnt_upto(*g, v as int, a as int),
                                    conn <= a * n + b,
                                decreases n - b,
                            {
                                proof {
                                    lemma_conn_row_bounds(*g, v as int, a as int, b as int);
                                }
                                if b != a && kids[b] && g.has_edge(a, b) {
                                    conn = conn + 1;
                                }
                                b = b + 1;
                            }
                        }
                        a = a + 1;
                    }
                    proof {
                        lemma_conn_bounds(*g, v as int, n as int);
                        assert((n as int) * (n as int) <= 1000000000000int) by (nonlinear_arith)
                            requires
                                0 <= n as int <= 1000000,
                        ;
                        assert(2 <= (c as int) * (c as int - 1) <= 1000000000000int)
                            by (nonlinear_arith)
                            requires
                                2 <= c as int <= 1000000,
                        ;
                        vstd::arithmetic::mul::lemma_mul_nonnegative(conn as int, SCALE as int);
                        vstd::arithmetic::div_mod::lemma_div_pos_is_pos(
                            conn as int * SCALE as int,
                            (c as int) * (c as int - 1),
                        );
                        assert(conn as int * SCALE as int <= 1000000000000000000int)
                            by (nonlinear_arith)
                            requires
                                0 <= conn as int <= 1000000000000int,
                        ;
                    }
                    let maxc = (c as i64) * ((c - 1) as i64);
                    let val = clamp_unit(conn * SCALE / maxc);
                    r.push(val);
                }
            } else {
                r.push(SCALE);
            }
            v = v + 1;
        }
        r
    }

    /// Complexity of every node; see `complexity_spec`.
    #[verifier::loop_isolation(false)]
    pub fn calculate_complexity_metrics(&self, g: &CodeGraph) -> (r: Vec<ComplexityMetrics>)
        requires
            g.wf(),
            g.fits(),
        ensures
            r@.len() == g.n(),
            forall|v: int| 0 <= v < g.n() ==> r@[v] == complexity_spec(*g, v),
            forall|v: int|
                0 <= v < g.n() ==> 0 <= (#[trigger] r@[v]).cyclomatic
                    <= 10 * (crate::graph::MAX_EDGES as int) + 1,
            forall|v: int| 0 <= v < g.n() ==> 0 <= (#[trigger] r@[v]).depth < INF_DIST,
    {
        let n = g.nodes.len();
        let m = g.edges.len();
        let mut r: Vec<ComplexityMetrics> = Vec::new();
        let mut v: usize = 0;
        while v < n
            invariant
                v <= n,
                r@.len() == v,
                forall|j: int| 0 <= j < v ==> r@[j] == complexity_spec(*g, j),
                forall|j: int|
                    0 <= j < v ==> 0 <= (#[trigger] r@[j]).cyclomatic
                        <= 10 * (crate::graph::MAX_EDGES as int) + 1,
                forall|j: int| 0 <= j < v ==> 0 <= (#[trigger] r@[j]).depth < INF_DIST,
            decreases n - v,
        {
            let t = g.nodes[v].node_type;
            let outd = g.out_degree(v);
            proof {
                crate::graph::lemma_out_deg_bounds(g.edges@, v as int, g.m());
            }
            let base: i64 = if matches!(t, NodeType::Function | NodeType::Method) {
                (outd as i64) + 1
            } else if matches!(t, NodeType::Class) {
                let mut cc: i64 = 0;
                let mut k: usize = 0;
                while k < m
                    invariant
                        k <= m,
                        v < n,
                        cc == callable_edge_cnt_upto(*g, v as int, k as int),
                        0 <= cc <= k,
                    decreases m - k,
                {
                    let e_src = g.edges[k].source;
                    if e_src == v && g.nodes[g.edges[k].target].node_type.is_callable() {
                        cc = cc + 1;
                    }
                    k = k + 1;
                }
                2 * cc + (outd as i64)
            } else if matches!(t, NodeType::File | NodeType::Module) {
                let mut cost: i64 = 0;
                let mut k: usize = 0;
                while k < m
                    invariant
                        k <= m,
                        v < n,
                        cost == contained_cost_upto(*g, v as int, k as int),
                        0 <= cost <= 10 * k,
                    decreases m - k,
                {
                    proof {
                        lemma_complexity_counts(*g, v as int, k as int);
                    }
                    let e_src = g.edges[k].source;
                    if e_src == v {
                        let tt = g.nodes[g.edges[k].target].node_type;
                        if matches!(tt, NodeType::Function) {
                            cost = cost + 5;
                        } else if matches!(tt, NodeType::Class) {
                            cost = cost + 10;
                        } else {
                            cost = cost + 1;
                        }
                    }
                    k = k + 1;
                }
                cost
            } else {
                1
            };
            proof {
                lemma_complexity_counts(*g, v as int, g.m());
            }

            let dists = g.unit_distances_rev(v);
            let mut depth: i64 = 0;
            let mut u: usize = 0;
            while u < n
                invariant
                    u <= n,
                    v < n,
                    dists@ == rdists_spec(*g, v as int, g.n() as nat),
                    dists@.len() == n,
                    forall|j: int| 0 <= j < n ==> 0 <= #[trigger] dists@[j] <= INF_DIST,
                    depth == max_finite_upto(dists@, u as int),
                    0 <= depth < INF_DIST,
                decreases n - u,
            {
                if dists[u] < INF_DIST && dists[u] > depth {
                    depth = dists[u];
                }
                u = u + 1;
            }

            proof {
                assert(0 <= base as int * (10 + depth as int) <= 20000000000000000000000int)
                    by (nonlinear_arith)
                    requires
                        0 <= base as int <= 10000000001int,
                        0 <= (depth as int) < 1000000000int,
                ;
            }
            let cog = (((base as i128) * ((10 + depth) as i128)) / 10) as i64;
            proof {
                vstd::arithmetic::div_mod::lemma_div_pos_is_pos(
                    base as int * (10 + depth as int),
                    10,
                );
                vstd::arithmetic::div_mod::lemma_div_is_ordered(
                    base as int * (10 + depth as int),
                    20000000000000000000000int,
                    10,
                );
            }
            r.push(ComplexityMetrics { cyclomatic: base, cognitive: cog, depth });
            v = v + 1;
        }
        r
    }

    /// Maintainability of every node; see `maintainability_spec`.
    #[verifier::loop_isolation(false)]
    pub fn calculate_maintainability_index(&self, g: &CodeGraph) -> (r: Vec<i64>)
        requires
            g.wf(),
            g.fits(),
        ensures
            r@.len() == g.n(),
            forall|v: int| 0 <= v < g.n() ==> r@[v] == maintainability_spec(*g, v),
            forall|v: int| 0 <= v < g.n() ==> 0 <= #[trigger] r@[v] <= SCALE,
    {
        let n = g.nodes.len();
        let mut r: Vec<i64> = Vec::new();
        let mut v: usize = 0;
        while v < n
            invariant
                v <= n,
                r@.len() == v,
                forall|j: int| 0 <= j < v ==> r@[j] == maintainability_spec(*g, j),
                forall|j: int| 0 <= j < v ==> 0 <= #[trigger] r@[j] <= SCALE,
            decreases n - v,
        {
            let outd = g.out_degree(v);
            let ind = g.in_degree(v);
            proof {
                crate::graph::lemma_out_deg_bounds(g.edges@, v as int, g.m());
                crate::graph::lemma_in_deg_bounds(g.edges@, v as int, g.m());
            }
            let size: i64 = if g.nodes[v].size > 1_000_000_000_000u64 {
                1_000_000_000_000
            } else {
                g.nodes[v].size as i64
            };
            proof {
                div_decay_facts(10, outd as int);
                div_decay_facts(500, size as int);
                div_decay_facts(10, ind as int);
            }
            let f1 = 10 * SCALE / (10 + (outd as i64));
            let f2 = 500 * SCALE / (500 + size);
            let f3 = 10 * SCALE / (10 + (ind as i64));
            let mi = (4 * f1 + 3 * f2 + 3 * f3) / 10;
            r.push(mi);
            v = v + 1;
        }
        r
    }
}

/// Counting children never exceeds the prefix length.
pub proof fn lemma_child_cnt_bounds(g: CodeGraph, v: int, k: int)
    requires
        0 <= k,
    ensures
        0 <= child_cnt_upto(g, v, k) <= k,
    decreases k,
{
    if k > 0 {
        lemma_child_cnt_bounds(g, v, k - 1);
    }
}

/// A decaying factor `c / (c + x)` scaled to fixed point stays in the unit
/// range.
proof fn div_decay_facts(c: int, x: int)
    requires
        c > 0,
        x >= 0,
    ensures
        0 <= c * SCALE / (c + x) <= SCALE,
{
    vstd::arithmetic::mul::lemma_mul_nonnegative(c, SCALE as int);
    vstd::arithmetic::div_mod::lemma_div_pos_is_pos(c * SCALE, c + x);
    vstd::arithmetic::mul::lemma_mul_inequality(c, c + x, SCALE as int);
    vstd::arithmetic::div_mod::lemma_div_is_ordered(c * SCALE, (c + x) * SCALE, c + x);
    vstd::arithmetic::div_mod::lemma_div_multiples_vanish(SCALE as int, c + x);
}


impl QualityAnalyzer {
    /// The code smells of every node: a god object above thirty
    /// connections, a large file above the size threshold, feature envy
    /// above fifteen dependencies, shotgun surgery above twenty dependents.
    #[verifier::loop_isolation(false)]
    pub fn analyze_code_smells(&self, g: &CodeGraph) -> (r: Vec<CodeSmells>)
        requires
            g.wf(),
            g.fits(),
        ensures
            r@.len() == g.n(),
            forall|v: int|
                0 <= v < g.n() ==> (#[trigger] r@[v]).smells@.len() == smell_count_spec(
                    *g,
                    v,
                    self.size_threshold as int,
                ),
            forall|v: int|
                0 <= v < g.n() && god_smell(*g, v) ==> (#[trigger] r@[v]).smells@[0].smell_type@
                    == "God Object"@,
            forall|v: int|
                0 <= v < g.n() && large_smell(*g, v, self.size_threshold as int)
                    ==> (#[trigger] r@[v]).smells@[large_pos(*g, v)].smell_type@ == "Large File"@,
            forall|v: int|
                0 <= v < g.n() && envy_smell(*g, v) ==> (#[trigger] r@[v]).smells@[envy_pos(
                    *g,
                    v,
                    self.size_threshold as int,
                )].smell_type@ == "Feature Envy"@,
            forall|v: int|
                0 <= v < g.n() && shotgun_smell(*g, v) ==> (#[trigger] r@[v]).smells@[shotgun_pos(
                    *g,
                    v,
                    self.size_threshold as int,
                )].smell_type@ == "Shotgun Surgery"@,
    {
        let n = g.nodes.len();
        let mut r: Vec<CodeSmells> = Vec::new();
        let mut v: usize = 0;
        while v < n
            invariant
                v <= n,
                r@.len() == v,
                forall|j: int|
                    0 <= j < v ==> (#[trigger] r@[j]).smells@.len() == smell_count_spec(
                        *g,
                        j,
                        self.size_threshold as int,
                    ),
                forall|jv: int|
                    0 <= jv < v && god_smell(*g, jv) ==> (#[trigger] r@[jv]).smells@[0].smell_type@
                        == "God Object"@,
                forall|jv: int|
                    0 <= jv < v && large_smell(*g, jv, self.size_threshold as int)
                        ==> (#[trigger] r@[jv]).smells@[large_pos(*g, jv)].smell_type@
                        == "Large File"@,
                forall|jv: int|
                    0 <= jv < v && envy_smell(*g, jv) ==> (#[trigger] r@[jv]).smells@[envy_pos(
                        *g,
                        jv,
                        self.size_threshold as int,
                    )].smell_type@ == "Feature Envy"@,
                forall|jv: int|
                    0 <= jv < v && shotgun_smell(*g, jv) ==> (#[trigger] r@[jv]).smells@[shotgun_pos(
                        *g,
                        jv,
                        self.size_threshold as int,
                    )].smell_type@ == "Shotgun Surgery"@,
            decreases n - v,
        {
            let ind = g.in_degree(v);
            let outd = g.out_degree(v);
            proof {
                crate::graph::lemma_in_deg_bounds(g.edges@, v as int, g.m());
                crate::graph::lemma_out_deg_bounds(g.edges@, v as int, g.m());
            }
            let mut smells: Vec<CodeSmell> = Vec::new();
            let is_god = ind + outd > 30;
            let is_large = g.nodes[v].size > self.size_threshold;
            let is_envy = outd > 15;
            let is_shotgun = ind > 20;
            if is_god {
                let sev = if ind + outd > 50 {
                    String::from_str("High")
                } else {
                    String::from_str("Medium")
                };
                smells.push(
                    CodeSmell {
                        smell_type: String::from_str("God Object"),
                        severity: sev,
                        description: String::from_str("high coupling in both directions"),
                    },
                );
            }
            if is_large {
                let sev = if self.size_threshold <= u64::MAX / 2
                    && g.nodes[v].size > 2 * self.size_threshold {
                    String::from_str("High")
                } else {
                    String::from_str("Medium")
                };
                smells.push(
                    CodeSmell {
                        smell_type: String::from_str("Large File"),
                        severity: sev,
                        description: String::from_str("entity above the size threshold"),
                    },
                );
            }
            if is_envy {
                smells.push(
                    CodeSmell {
                        smell_type: String::from_str("Feature Envy"),
                        severity: String::from_str("Medium"),
                        description: String::from_str("many external dependencies"),
                    },
                );
            }
            if is_shotgun {
                smells.push(
                    CodeSmell {
                        smell_type: String::from_str("Shotgun Surgery"),
                        severity: String::from_str("High"),
                        description: String::from_str("many dependents"),
                    },
                );
            }
            r.push(CodeSmells { smells });
            v = v + 1;
        }
        r
    }

    /// Run the whole quality module.
    #[verifier::loop_isolation(false)]
    pub fn analyze_quality(&self, g: &CodeGraph) -> (r: QualityResults)
        requires
            g.wf(),
            g.fits(),
        ensures
            r.coupling@.len() == g.n(),
            forall|v: int| 0 <= v < g.n() ==> r.coupling@[v] == coupling_spec(*g, v),
            r.cohesion@.len() == g.n(),
            forall|v: int| 0 <= v < g.n() ==> r.cohesion@[v] == cohesion_spec(*g, v),
            r.complexity@.len() == g.n(),
            forall|v: int| 0 <= v < g.n() ==> r.complexity@[v] == complexity_spec(*g, v),
            forall|v: int|
                0 <= v < g.n() ==> 0 <= (#[trigger] r.complexity@[v]).cyclomatic <= 10 * (
                crate::graph::MAX_EDGES as int) + 1,
            r.maintainability@.len() == g.n(),
            forall|v: int| 0 <= v < g.n() ==> r.maintainability@[v] == maintainability_spec(*g, v),
            r.code_smells@.len() == g.n(),
            forall|v: int|
                0 <= v < g.n() ==> (#[trigger] r.code_smells@[v]).smells@.len()
                    == smell_count_spec(*g, v, self.size_threshold as int),
            forall|v: int|
                0 <= v < g.n() && god_smell(*g, v)
                    ==> (#[trigger] r.code_smells@[v]).smells@[0].smell_type@ == "God Object"@,
            r.avg_complexity as int == if g.n() >= 1 {
                cyclo_sum_upto(r.complexity@, g.n()) * SCALE / g.n()
            } else {
                0int
            },
            r.avg_cohesion as int == if g.n() >= 1 {
                cohesion_sum_upto(r.cohesion@, g.n()) / g.n()
            } else {
                0int
            },
            0 <= r.avg_cohesion <= SCALE,
            r.total_code_smells as int == total_smells_upto(r.code_smells@, g.n()),
            r.errors@.len() == 0,
    {
        let coupling = self.calculate_coupling(g);
        let cohesion = self.calculate_cohesion_metrics(g);
        let complexity = self.calculate_complexity_metrics(g);
        let maintainability = self.calculate_maintainability_index(g);
        let code_smells = self.analyze_code_smells(g);

        let n = g.nodes.len();
        let mut total_smells: usize = 0;
        let mut v: usize = 0;
        while v < n
            invariant
                v <= n,
                code_smells@.len() == n,
                forall|j: int|
                    0 <= j < n ==> (#[trigger] code_smells@[j]).smells@.len() <= 4,
                total_smells as int == total_smells_upto(code_smells@, v as int),
                total_smells <= 4 * v,
            decreases n - v,
        {
            proof {
                lemma_total_smells_bounds(code_smells@, v as int);
            }
            total_smells = total_smells + code_smells[v].smells.len();
            v = v + 1;
        }

        let mut cosum: i64 = 0;
        let mut v: usize = 0;
        while v < n
            invariant
                v <= n,
                cohesion@.len() == n,
                forall|j: int| 0 <= j < n ==> 0 <= #[trigger] cohesion@[j] <= SCALE,
                cosum as int == cohesion_sum_upto(cohesion@, v as int),
                0 <= cosum <= v * (SCALE as int),
            decreases n - v,
        {
            proof {
                vstd::arithmetic::mul::lemma_mul_inequality(v as int, (v + 1) as int, SCALE as int);
            }
            cosum = cosum + cohesion[v];
            v = v + 1;
        }
        let avg_cohesion: i64 = if n > 0 {
            proof {
                vstd::arithmetic::mul::lemma_mul_inequality(n as int, 1000000, SCALE as int);
                vstd::arithmetic::div_mod::lemma_div_pos_is_pos(cosum as int, n as int);
                vstd::arithmetic::div_mod::lemma_div_is_ordered(
                    cosum as int,
                    n as int * SCALE as int,
                    n as int,
                );
                assert(n as int * SCALE as int == SCALE as int * n as int);
                vstd::arithmetic::div_mod::lemma_div_multiples_vanish(SCALE as int, n as int);
            }
            cosum / (n as i64)
        } else {
            0
        };

        let mut csum: i64 = 0;
        let mut v: usize = 0;
        while v < n
            invariant
                v <= n,
                complexity@.len() == n,
                forall|j: int|
                    0 <= j < n ==> 0 <= (#[trigger] complexity@[j]).cyclomatic <= 10 * (
                    crate::graph::MAX_EDGES as int) + 1,
                csum as int == cyclo_sum_upto(complexity@, v as int),
                0 <= csum <= v * (10 * (crate::graph::MAX_EDGES as int) + 1),
            decreases n - v,
        {
            proof {
                assert((v + 1) as int * (10 * (crate::graph::MAX_EDGES as int) + 1) == v as int * (
                10 * (crate::graph::MAX_EDGES as int) + 1) + (10 * (crate::graph::MAX_EDGES as int)
                    + 1)) by (nonlinear_arith);
                assert((v + 1) as int * (10 * (crate::graph::MAX_EDGES as int) + 1)
                    <= 10000000001000000int) by (nonlinear_arith)
                    requires
                        0 <= (v + 1) as int <= 1000000,
                ;
            }
            csum = csum + complexity[v].cyclomatic;
            v = v + 1;
        }
        proof {
            assert(n as int * (10 * (crate::graph::MAX_EDGES as int) + 1)
                <= 10000000001000000int) by (nonlinear_arith)
                requires
                    0 <= n as int <= 1000000,
            ;
        }
        let avg_complexity: i64 = if n > 0 {
            proof {
                vstd::arithmetic::mul::lemma_mul_nonnegative(csum as int, SCALE as int);
                assert(csum as int * SCALE as int <= 20000000000000000000000int)
                    by (nonlinear_arith)
                    requires
                        0 <= csum as int <= 10000000001000000int,
                ;
            }
            let wide = (csum as i128) * (SCALE as i128) / (n as i128);
            proof {
                vstd::arithmetic::div_mod::lemma_div_pos_is_pos(
                    csum as int * SCALE as int,
                    n as int,
                );
                vstd::arithmetic::mul::lemma_mul_inequality(
                    csum as int,
                    n as int * 10000000001int,
                    SCALE as int,
                );
                assert((n as int * 10000000001int) * SCALE as int == (10000000001int * SCALE as int)
                    * n as int) by (nonlinear_arith);
                vstd::arithmetic::div_mod::lemma_div_is_ordered(
                    csum as int * SCALE as int,
                    (10000000001int * SCALE as int) * n as int,
                    n as int,
                );
                vstd::arithmetic::div_mod::lemma_div_multiples_vanish(
                    10000000001int * SCALE as int,
                    n as int,
                );
            }
            wide as i64
        } else {
            0
        };
        QualityResults {
            coupling,
            cohesion,
            complexity,
            maintainability,
            code_smells,
            avg_complexity,
            avg_cohesion,
            total_code_smells: total_smells,
            errors: Vec::new(),
        }
    }
}

/// Sum of per-node smell counts over the first `k` nodes.
pub open spec fn total_smells_upto(s: Seq<CodeSmells>, k: int) -> int
    decreases k,
{
    if k <= 0 {
        0
    } else {
        total_smells_upto(s, k - 1) + s[k - 1].smells@.len()
    }
}

proof fn lemma_total_smells_bounds(s: Seq<CodeSmells>, k: int)
    requires
        0 <= k,
        forall|j: int| 0 <= j < s.len() ==> (#[trigger] s[j]).smells@.len() <= 4,
        k <= s.len(),
    ensures
        0 <= total_smells_upto(s, k) <= 4 * k,
    decreases k,
{
    if k > 0 {
        lemma_total_smells_bounds(s, k - 1);
    }
}

} // verus!
