//! Risk analysis: per-node risk blends, chokepoint scores, circular
//! dependencies via strongly connected components, technical debt, and
//! change propagation.
use vstd::prelude::*;

use crate::ast::NodeType;
use crate::fixed::SCALE;
use crate::fixed::clamp_unit;
use crate::fixed::clamp_unit_spec;
use crate::graph::CodeGraph;
use crate::paths::INF_DIST;
use crate::paths::MAX_CLOSURE_NODES;
use crate::paths::dists_spec;
use crate::paths::lemma_rowcol_index;
use crate::paths::reach_table_ok;
use crate::paths::reach_within;

verus! {

/// The floor of the square root, defined by counting up.
pub open spec fn isqrt_spec(x: int) -> int
    decreases x,
{
    if x < 1 {
        0
    } else {
        let r = isqrt_spec(x - 1);
        if (r + 1) * (r + 1) <= x {
            r + 1
        } else {
            r
        }
    }
}

/// The defining bounds of the square-root floor.
pub proof fn lemma_isqrt_bounds(x: int)
    requires
        x >= 0,
    ensures
        isqrt_spec(x) >= 0,
        isqrt_spec(x) * isqrt_spec(x) <= x,
        x < (isqrt_spec(x) + 1) * (isqrt_spec(x) + 1),
    decreases x,
{
    if x >= 1 {
        lemma_isqrt_bounds(x - 1);
        let r = isqrt_spec(x - 1);
        if (r + 1) * (r + 1) <= x {
            assert(x < (r + 2) * (r + 2)) by (nonlinear_arith)
                requires
                    x - 1 < (r + 1) * (r + 1),
                    r >= 0,
            ;
        }
    }
}

/// Any value within the defining bounds is the square-root floor.
pub proof fn lemma_isqrt_unique(x: int, r: int)
    requires
        x >= 0,
        r >= 0,
        r * r <= x,
        x < (r + 1) * (r + 1),
    ensures
        r == isqrt_spec(x),
{
    lemma_isqrt_bounds(x);
    let s = isqrt_spec(x);
    assert(r == s) by (nonlinear_arith)
        requires
            r >= 0,
            s >= 0,
            r * r <= x,
            x < (r + 1) * (r + 1),
            s * s <= x,
            x < (s + 1) * (s + 1),
    ;
}

/// The square-root floor of a small value, by counting up.
pub fn isqrt(x: i64) -> (r: i64)
    requires
        0 <= x <= 4_000_000_000_000,
    ensures
        r == isqrt_spec(x as int),
        0 <= r <= 2_000_000,
{
    let mut r: i64 = 0;
    while next_square_fits(r, x)
        invariant
            0 <= r <= 2_000_000,
            r * r <= x,
            x <= 4_000_000_000_000,
        decreases x - r * r,
    {
        proof {
            assert((r + 1) as int * (r + 1) as int <= x ==> r + 1 <= 2_000_000)
                by (nonlinear_arith)
                requires
                    0 <= (r as int),
                    x <= 4_000_000_000_000,
            ;
            assert((r + 1) as int * (r + 1) as int > r as int * r as int) by (nonlinear_arith)
                requires
                    r as int >= 0,
            ;
        }
        r = r + 1;
    }
    proof {
        lemma_isqrt_unique(x as int, r as int);
    }
    r
}

/// Whether the next candidate square still fits under `x`.
fn next_square_fits(r: i64, x: i64) -> (b: bool)
    requires
        0 <= r <= 2_000_000,
        0 <= x,
    ensures
        b == ((r + 1) * (r + 1) <= x),
{
    proof {
        assert(0 <= (r + 1) as int * (r + 1) as int <= 4000004000001int) by (nonlinear_arith)
            requires
                0 <= (r as int) <= 2000000,
        ;
    }
    (r + 1) * (r + 1) <= x
}

/// The risk factors of one node, each in the unit range.
#[derive(Debug, Clone, PartialEq, Eq, Structural)]
pub struct RiskScore {
    pub overall: i64,
    pub complexity: i64,
    pub centrality: i64,
    pub bottleneck: i64,
    pub coupling: i64,
}

/// Degree-based coupling counts of one node.
#[derive(Debug, Clone, PartialEq, Eq, Structural)]
pub struct CouplingMetrics {
    pub afferent_coupling: usize,
    pub efferent_coupling: usize,
    pub instability: i64,
    pub coupling_score: i64,
}

/// The complexity estimate of node `v`: callables take their out-degree
/// plus one (at most fifty), classes twice their out-degree (at most a
/// hundred), files and modules five times the square root of their
/// out-degree (at most fifty), all else one.
pub open spec fn complexity_estimate_spec(g: CodeGraph, v: int) -> int {
    let t = g.nodes@[v].node_type;
    let outd = g.spec_out_degree(v);
    if t is Function || t is Method {
        if outd + 1 <= 50 {
            outd + 1
        } else {
            50
        }
    } else if t is Class {
        if 2 * outd <= 100 {
            2 * outd
        } else {
            100
        }
    } else if t is File || t is Module {
        if isqrt_spec(outd) * 5 <= 50 {
            isqrt_spec(outd) * 5
        } else {
            50
        }
    } else {
        1
    }
}

/// The risk score of node `v`: a weighted blend of threshold-normalized
/// complexity risk, degree-normalized centrality risk, a fixed bottleneck
/// increment when both degrees exceed the bottleneck threshold, and a
/// coupling term above the coupling threshold; weights three, three, two
/// and two tenths.
pub open spec fn risk_score_spec(g: CodeGraph, v: int, ct: int, hct: int, bt: int) -> RiskScore {
    let ind = g.spec_in_degree(v);
    let outd = g.spec_out_degree(v);
    let total = ind + outd;
    let complexity = clamp_unit_spec(complexity_estimate_spec(g, v) * SCALE / ct);
    let centrality = clamp_unit_spec(total * SCALE / g.n());
    let bottleneck: int = if ind > bt && outd > bt {
        SCALE as int / 2
    } else {
        0
    };
    let coupling: int = if total > hct {
        clamp_unit_spec((total - hct) * SCALE / 10)
    } else {
        0
    };
    RiskScore {
        overall: clamp_unit_spec(
            (3 * complexity + 3 * centrality + 2 * bottleneck + 2 * coupling) / 10,
        ) as i64,
        complexity: complexity as i64,
        centrality: centrality as i64,
        bottleneck: bottleneck as i64,
        coupling: coupling as i64,
    }
}

/// The chokepoint score of node `v`: the geometric mean of its two
/// degree scores relative to twice the bottleneck threshold, reported only
/// when a degree exceeds the threshold and the score passes one tenth.
pub open spec fn chokepoint_spec(g: CodeGraph, v: int, bt: int) -> int {
    let ind = g.spec_in_degree(v);
    let outd = g.spec_out_degree(v);
    if ind > bt || outd > bt {
        let in_score = clamp_unit_spec(ind * SCALE / (2 * bt));
        let out_score = clamp_unit_spec(outd * SCALE / (2 * bt));
        let sc = isqrt_spec(in_score * out_score);
        if sc > SCALE as int / 10 {
            sc
        } else {
            0
        }
    } else {
        0
    }
}

/// The degree-based coupling metrics of node `v`.
pub open spec fn risk_coupling_spec(g: CodeGraph, v: int) -> CouplingMetrics {
    let aff = g.spec_in_degree(v);
    let eff = g.spec_out_degree(v);
    let inst = if aff + eff > 0 {
        clamp_unit_spec(eff * SCALE / (aff + eff))
    } else {
        0
    };
    CouplingMetrics {
        afferent_coupling: aff as usize,
        efferent_coupling: eff as usize,
        instability: inst as i64,
        coupling_score: clamp_unit_spec((aff + eff) * SCALE / 20) as i64,
    }
}

/// Whether `u` and `v` sit in one strongly connected component: each
/// reaches the other, or they are the same node.
pub open spec fn mutual_spec(g: CodeGraph, u: int, v: int) -> bool {
    u == v || (reach_within(g, u, v, g.n()) && reach_within(g, v, u, g.n()))
}

/// Whether any node below `v` shares `v`'s component.
pub open spec fn has_earlier_member(g: CodeGraph, v: int, k: int) -> bool
    decreases k,
{
    k > 0 && (mutual_spec(g, k - 1, v) || has_earlier_member(g, v, k - 1))
}

/// Members of `v`'s component among the first `k` nodes, ascending.
pub open spec fn members_upto(g: CodeGraph, v: int, k: int) -> Seq<usize>
    decreases k,
{
    if k <= 0 {
        Seq::empty()
    } else {
        let rest = members_upto(g, v, k - 1);
        if mutual_spec(g, k - 1, v) {
            rest.push((k - 1) as usize)
        } else {
            rest
        }
    }
}

/// Whether `v` is the reported representative of a cycle: the least member
/// of a component of at least two nodes.
pub open spec fn is_cycle_rep(g: CodeGraph, v: int) -> bool {
    !has_earlier_member(g, v, v) && members_upto(g, v, g.n()).len() >= 2
}

/// All cycle groups with representative below `k`, in ascending order of
/// representative.
pub open spec fn cycles_upto(g: CodeGraph, k: int) -> Seq<Seq<usize>>
    decreases k,
{
    if k <= 0 {
        Seq::empty()
    } else {
        let rest = cycles_upto(g, k - 1);
        if is_cycle_rep(g, k - 1) {
            rest.push(members_upto(g, k - 1, g.n()))
        } else {
            rest
        }
    }
}

/// There are at most as many cycle groups as candidate representatives.
pub proof fn lemma_cycles_upto_len(g: CodeGraph, k: int)
    requires
        0 <= k,
    ensures
        cycles_upto(g, k).len() <= k,
    decreases k,
{
    if k > 0 {
        lemma_cycles_upto_len(g, k - 1);
    }
}

/// The reported cycles: all of them, capped at a hundred groups.
pub open spec fn reported_cycles_spec(g: CodeGraph) -> Seq<Seq<usize>> {
    let all = cycles_upto(g, g.n());
    if all.len() > 100 {
        all.take(100)
    } else {
        all
    }
}

/// Number of nodes other than `v`, among the first `k`, that can reach `v`.
pub open spec fn dependents_upto(g: CodeGraph, v: int, k: int) -> int
    decreases k,
{
    if k <= 0 {
        0
    } else {
        dependents_upto(g, v, k - 1) + if k - 1 != v && reach_within(g, k - 1, v, g.n()) {
            1int
        } else {
            0int
        }
    }
}

/// Dependent counts stay within the prefix length.
pub proof fn lemma_dependents_bounds(g: CodeGraph, v: int, k: int)
    requires
        0 <= k,
    ensures
        0 <= dependents_upto(g, v, k) <= k,
    decreases k,
{
    if k > 0 {
        lemma_dependents_bounds(g, v, k - 1);
    }
}

/// Change propagation of node `v`: direct dependents plus half the
/// transitively reachable dependents, normalized by the node count and
/// clamped to the unit range.
pub open spec fn propagation_spec(g: CodeGraph, v: int) -> int {
    let direct = g.spec_in_degree(v);
    let trans = dependents_upto(g, v, g.n());
    clamp_unit_spec((direct + trans / 2) * SCALE / g.n())
}


/// Number of outgoing edges among the first `k` whose target is a method.
pub open spec fn method_edge_cnt_upto(g: CodeGraph, v: int, k: int) -> int
    decreases k,
{
    if k <= 0 {
        0
    } else {
        method_edge_cnt_upto(g, v, k - 1) + {
            let e = g.edges@[k - 1];
            if e.source == v && g.nodes@[e.target as int].node_type is Method {
                1int
            } else {
                0int
            }
        }
    }
}

/// Elementwise maximum of previous depths and the finite entries of a new
/// distance vector.
pub open spec fn depth_merge(n: int, prev: Seq<i64>, d: Seq<i64>) -> Seq<i64> {
    Seq::new(n as nat, |v: int| if d[v] < INF_DIST && d[v] > prev[v] {
        d[v]
    } else {
        prev[v]
    })
}

/// Depths after considering every root (a node without incoming edges)
/// below `k`: per node, the largest finite shortest distance from such a
/// root.
pub open spec fn root_depths_rec(g: CodeGraph, k: int) -> Seq<i64>
    decreases k,
{
    if k <= 0 {
        Seq::new(g.n() as nat, |v: int| 0i64)
    } else {
        let prev = root_depths_rec(g, k - 1);
        if g.spec_in_degree(k - 1) == 0 {
            depth_merge(g.n(), prev, dists_spec(g, k - 1, g.n() as nat))
        } else {
            prev
        }
    }
}

/// Root depths stay bounded below the infinity marker.
pub proof fn lemma_root_depths_bounds(g: CodeGraph, k: int)
    requires
        0 <= k,
        g.wf(),
    ensures
        root_depths_rec(g, k).len() == g.n(),
        forall|v: int| 0 <= v < g.n() ==> 0 <= #[trigger] root_depths_rec(g, k)[v] < INF_DIST,
    decreases k,
{
    if k > 0 {
        lemma_root_depths_bounds(g, k - 1);
        if g.spec_in_degree(k - 1) == 0 {
            crate::paths::lemma_dists_bounds(g, k - 1, g.n() as nat);
        }
    }
}

/// Technical debt of node `v`: the mean of three bounded factors, for
/// coupling (out-degree over ten), nesting depth (depth from roots over
/// ten) and size (contained elements normalized by node type).
pub open spec fn debt_spec(g: CodeGraph, v: int) -> int {
    let outd = g.spec_out_degree(v);
    let depth = root_depths_rec(g, g.n())[v];
    let t = g.nodes@[v].node_type;
    let f1 = clamp_unit_spec(outd * SCALE / 10);
    let f2 = clamp_unit_spec(depth * SCALE / 10);
    let f3: int = if t is File || t is Module {
        clamp_unit_spec(outd * SCALE / 20)
    } else if t is Class {
        clamp_unit_spec(method_edge_cnt_upto(g, v, g.m()) * SCALE / 15)
    } else {
        0
    };
    (f1 + f2 + f3) / 3
}

/// Risk analysis configuration.
#[derive(Debug, Clone, PartialEq, Eq, Structural)]
pub struct RiskAnalyzer {
    /// Complexity above which the complexity risk saturates.
    pub complexity_threshold: i64,
    /// Total degree above which coupling risk accrues.
    pub high_coupling_threshold: usize,
    /// Degree above which a node counts as a bottleneck.
    pub bottleneck_threshold: usize,
}

/// Sum of the overall scores of the first `k` entries.
pub open spec fn overall_sum_upto(s: Seq<RiskScore>, k: int) -> int
    decreases k,
{
    if k <= 0 {
        0
    } else {
        overall_sum_upto(s, k - 1) + s[k - 1].overall
    }
}

/// All risk results, aligned with the node order where applicable.
#[derive(Debug, Clone)]
pub struct RiskResults {
    pub risk_scores: Vec<RiskScore>,
    /// Chokepoint score per node; zero where no chokepoint is reported.
    pub chokepoints: Vec<i64>,
    /// Cycle groups as ascending node indices, capped at a hundred groups.
    pub circular_dependencies: Vec<Vec<usize>>,
    pub coupling_metrics: Vec<CouplingMetrics>,
    pub technical_debt: Vec<i64>,
    pub change_propagation: Vec<i64>,
    pub high_risk_count: usize,
    pub total_circular_deps: usize,
    /// Mean overall risk, in fixed point.
    pub avg_risk_score: i64,
    /// Whether the cycle list was cut at the reporting ceiling.
    pub cycles_truncated: bool,
    /// Log entries of failed sub-metrics; in this build every sub-metric
    /// is total, so the log stays empty.
    pub errors: Vec<String>,
}

impl RiskAnalyzer {
    /// The default thresholds: complexity fifteen, coupling ten,
    /// bottleneck five.
    pub fn new() -> (r: Self)
        ensures
            r.complexity_threshold == 15,
            r.high_coupling_threshold == 10,
            r.bottleneck_threshold == 5,
            r.valid(),
    {
        RiskAnalyzer {
            complexity_threshold: 15,
            high_coupling_threshold: 10,
            bottleneck_threshold: 5,
        }
    }

    /// Whether the thresholds are usable.
    pub open spec fn valid(self) -> bool {
        1 <= self.complexity_threshold <= 1000000 && self.high_coupling_threshold
            <= 1000000000 && 1 <= self.bottleneck_threshold <= 1000000
    }

    /// Risk scores of every node; see `risk_score_spec`.
    #[verifier::loop_isolation(false)]
    pub fn identify_high_risk_nodes(&self, g: &CodeGraph) -> (r: Vec<RiskScore>)
        requires
            g.wf(),
            g.fits(),
            g.n() >= 1,
            self.valid(),
        ensures
            r@.len() == g.n(),
            forall|v: int|
                0 <= v < g.n() ==> r@[v] == risk_score_spec(
                    *g,
                    v,
                    self.complexity_threshold as int,
                    self.high_coupling_threshold as int,
                    self.bottleneck_threshold as int,
                ),
            forall|v: int| 0 <= v < g.n() ==> 0 <= (#[trigger] r@[v]).overall <= SCALE,
    {
        let n = g.nodes.len();
        let m = g.edges.len();
        let mut r: Vec<RiskScore> = Vec::new();
        let mut v: usize = 0;
        while v < n
            invariant
                v <= n,
                r@.len() == v,
                forall|j: int|
                    0 <= j < v ==> r@[j] == risk_score_spec(
                        *g,
                        j,
                        self.complexity_threshold as int,
                        self.high_coupling_threshold as int,
                        self.bottleneck_threshold as int,
                    ),
                forall|j: int| 0 <= j < v ==> 0 <= (#[trigger] r@[j]).overall <= SCALE,
            decreases n - v,
        {
            let ind = g.in_degree(v);
            let outd = g.out_degree(v);
            proof {
                crate::graph::lemma_in_deg_bounds(g.edges@, v as int, g.m());
                crate::graph::lemma_out_deg_bounds(g.edges@, v as int, g.m());
            }
            let t = g.nodes[v].node_type;
            let est: i64 = if t.is_callable() {
                if outd + 1 <= 50 {
                    (outd + 1) as i64
                } else {
                    50
                }
            } else if matches!(t, NodeType::Class) {
                if 2 * outd <= 100 {
                    (2 * outd) as i64
                } else {
                    100
                }
            } else if t.is_file_like() {
                let s = isqrt(outd as i64);
                if s * 5 <= 50 {
                    s * 5
                } else {
                    50
                }
            } else {
                1
            };
            proof {
                mul_scale_facts(est as int, 100);
                mul_scale_facts((ind + outd) as int, 2 * (crate::graph::MAX_EDGES as int));
            }
            let complexity = clamp_unit(est * SCALE / self.complexity_threshold);
            let centrality = clamp_unit((ind as i64 + outd as i64) * SCALE / (n as i64));
            let bottleneck: i64 = if ind > self.bottleneck_threshold && outd
                > self.bottleneck_threshold {
                SCALE / 2
            } else {
                0
            };
            let total = ind + outd;
            let coupling: i64 = if total > self.high_coupling_threshold {
                proof {
                    mul_scale_facts(
                        (total - self.high_coupling_threshold) as int,
                        2 * (crate::graph::MAX_EDGES as int),
                    );
                }
                clamp_unit(((total - self.high_coupling_threshold) as i64) * SCALE / 10)
            } else {
                0
            };
            let overall = clamp_unit(
                (3 * complexity + 3 * centrality + 2 * bottleneck + 2 * coupling) / 10,
            );
            r.push(RiskScore { overall, complexity, centrality, bottleneck, coupling });
            v = v + 1;
        }
        r
    }

    /// Chokepoint scores of every node; see `chokepoint_spec`.
    #[verifier::loop_isolation(false)]
    pub fn find_chokepoints(&self, g: &CodeGraph) -> (r: Vec<i64>)
        requires
            g.wf(),
            g.fits(),
            self.valid(),
        ensures
            r@.len() == g.n(),
            forall|v: int|
                0 <= v < g.n() ==> r@[v] == chokepoint_spec(
                    *g,
                    v,
                    self.bottleneck_threshold as int,
                ),
            forall|v: int| 0 <= v < g.n() ==> 0 <= #[trigger] r@[v] <= 2_000_000,
    {
        let n = g.nodes.len();
        let mut r: Vec<i64> = Vec::new();
        let mut v: usize = 0;
        while v < n
            invariant
                v <= n,
                r@.len() == v,
                forall|j: int|
                    0 <= j < v ==> r@[j] == chokepoint_spec(
                        *g,
                        j,
                        self.bottleneck_threshold as int,
                    ),
                forall|j: int| 0 <= j < v ==> 0 <= #[trigger] r@[j] <= 2_000_000,
            decreases n - v,
        {
            let ind = g.in_degree(v);
            let outd = g.out_degree(v);
            proof {
                crate::graph::lemma_in_deg_bounds(g.edges@, v as int, g.m());
                crate::graph::lemma_out_deg_bounds(g.edges@, v as int, g.m());
            }
            let val: i64 = if ind > self.bottleneck_threshold || outd > self.bottleneck_threshold {
                proof {
                    mul_scale_facts(ind as int, crate::graph::MAX_EDGES as int);
                    mul_scale_facts(outd as int, crate::graph::MAX_EDGES as int);
                }
                let in_score = clamp_unit((ind as i64) * SCALE / (2 * self.bottleneck_threshold as i64));
                let out_score = clamp_unit(
                    (outd as i64) * SCALE / (2 * self.bottleneck_threshold as i64),
                );
                proof {
                    vstd::arithmetic::mul::lemma_mul_nonnegative(in_score as int, out_score as int);
                    vstd::arithmetic::mul::lemma_mul_upper_bound(
                        in_score as int,
                        SCALE as int,
                        out_score as int,
                        SCALE as int,
                    );
                }
                let sc = isqrt(in_score * out_score);
                if sc > SCALE / 10 {
                    sc
                } else {
                    0
                }
            } else {
                0
            };
            r.push(val);
            v = v + 1;
        }
        r
    }
}

/// A degree-sized numerator times the unit keeps within wide bounds.
proof fn mul_scale_facts(x: int, cap: int)
    requires
        0 <= x <= cap,
        cap <= 2_000_000_000,
    ensures
        0 <= x * SCALE <= 2_000_000_000_000_000,
{
    vstd::arithmetic::mul::lemma_mul_nonnegative(x, SCALE as int);
    vstd::arithmetic::mul::lemma_mul_inequality(x, 2_000_000_000, SCALE as int);
}


impl RiskAnalyzer {
    /// Detect circular dependencies: every strongly connected component of
    /// at least two nodes becomes one group of ascending node indices, in
    /// ascending order of least member, capped at a hundred groups.
    #[verifier::loop_isolation(false)]
    pub fn detect_circular_dependencies(&self, g: &CodeGraph) -> (r: (Vec<Vec<usize>>, bool))
        requires
            g.wf(),
            g.fits(),
            g.n() <= MAX_CLOSURE_NODES,
        ensures
            r.0@.len() == reported_cycles_spec(*g).len(),
            forall|i: int|
                0 <= i < r.0@.len() ==> (#[trigger] r.0@[i])@ == reported_cycles_spec(*g)[i],
            r.1 == (cycles_upto(*g, g.n()).len() > 100),
    {
        let n = g.nodes.len();
        let tab = g.reach_table();
        let mut cycles: Vec<Vec<usize>> = Vec::new();
        let mut total: usize = 0;
        let mut truncated = false;
        let mut v: usize = 0;
        while v < n
            invariant
                v <= n,
                reach_table_ok(*g, tab@, g.n() as nat),
                total as int == cycles_upto(*g, v as int).len(),
                total <= v,
                cycles@.len() == if total > 100 {
                    100int
                } else {
                    total as int
                },
                forall|i: int|
                    0 <= i < cycles@.len() ==> (#[trigger] cycles@[i])@ == cycles_upto(
                        *g,
                        v as int,
                    )[i],
                truncated == (total > 100),
            decreases n - v,
        {
            proof {
                lemma_cycles_upto_len(*g, v as int);
            }
            let mut earlier = false;
            let mut u: usize = 0;
            while u < v
                invariant
                    u <= v < n,
                    reach_table_ok(*g, tab@, g.n() as nat),
                    earlier == has_earlier_member(*g, v as int, u as int),
                decreases v - u,
            {
                if self.mutual(g, &tab, u, v) {
                    earlier = true;
                }
                u = u + 1;
            }
            if !earlier {
                let mut mem: Vec<usize> = Vec::new();
                let mut u: usize = 0;
                while u < n
                    invariant
                        u <= n,
                        v < n,
                        reach_table_ok(*g, tab@, g.n() as nat),
                        mem@ == members_upto(*g, v as int, u as int),
                    decreases n - u,
                {
                    if self.mutual(g, &tab, u, v) {
                        mem.push(u);
                    }
                    u = u + 1;
                }
                if mem.len() >= 2 {
                    if total < 100 {
                        cycles.push(mem);
                    } else {
                        truncated = true;
                    }
                    total = total + 1;
                    proof {
                        assert(cycles_upto(*g, v as int + 1) == cycles_upto(*g, v as int).push(
                            members_upto(*g, v as int, g.n()),
                        ));
                    }
                }
            }
            v = v + 1;
        }
        proof {
            if total > 100 {
                assert forall|i: int|
                    0 <= i < cycles@.len() implies (#[trigger] cycles@[i])@
                    == reported_cycles_spec(*g)[i] by {
                    assert(reported_cycles_spec(*g)[i] == cycles_upto(*g, n as int)[i]);
                }
            }
        }
        (cycles, truncated)
    }

    /// Whether two nodes share a strongly connected component.
    fn mutual(&self, g: &CodeGraph, tab: &Vec<bool>, u: usize, v: usize) -> (r: bool)
        requires
            g.wf(),
            g.fits(),
            g.n() <= MAX_CLOSURE_NODES,
            reach_table_ok(*g, tab@, g.n() as nat),
            u < g.n(),
            v < g.n(),
        ensures
            r == mutual_spec(*g, u as int, v as int),
    {
        if u == v {
            return true;
        }
        let n = g.nodes.len();
        proof {
            lemma_rowcol_index(n as int, u as int, v as int);
            lemma_rowcol_index(n as int, v as int, u as int);
        }
        tab[u * n + v] && tab[v * n + u]
    }

    /// Degree-based coupling metrics of every node; see
    /// `risk_coupling_spec`.
    #[verifier::loop_isolation(false)]
    pub fn calculate_coupling_metrics(&self, g: &CodeGraph) -> (r: Vec<CouplingMetrics>)
        requires
            g.wf(),
            g.fits(),
        ensures
            r@.len() == g.n(),
            forall|v: int| 0 <= v < g.n() ==> r@[v] == risk_coupling_spec(*g, v),
    {
        let n = g.nodes.len();
        let mut r: Vec<CouplingMetrics> = Vec::new();
        let mut v: usize = 0;
        while v < n
            invariant
                v <= n,
                r@.len() == v,
                forall|j: int| 0 <= j < v ==> r@[j] == risk_coupling_spec(*g, j),
            decreases n - v,
        {
            let aff = g.in_degree(v);
            let eff = g.out_degree(v);
            proof {
                crate::graph::lemma_in_deg_bounds(g.edges@, v as int, g.m());
                crate::graph::lemma_out_deg_bounds(g.edges@, v as int, g.m());
                mul_scale_facts(eff as int, crate::graph::MAX_EDGES as int);
                mul_scale_facts((aff + eff) as int, 2 * (crate::graph::MAX_EDGES as int));
            }
            let inst: i64 = if aff + eff > 0 {
                clamp_unit((eff as i64) * SCALE / ((aff + eff) as i64))
            } else {
                0
            };
            let score = clamp_unit(((aff + eff) as i64) * SCALE / 20);
            r.push(
                CouplingMetrics {
                    afferent_coupling: aff,
                    efferent_coupling: eff,
                    instability: inst,
                    coupling_score: score,
                },
            );
            v = v + 1;
        }
        r
    }

    /// Technical debt of every node; see `debt_spec`.
    #[verifier::loop_isolation(false)]
    pub fn calculate_technical_debt(&self, g: &CodeGraph) -> (r: Vec<i64>)
        requires
            g.wf(),
            g.fits(),
        ensures
            r@.len() == g.n(),
            forall|v: int| 0 <= v < g.n() ==> r@[v] == debt_spec(*g, v),
            forall|v: int| 0 <= v < g.n() ==> 0 <= #[trigger] r@[v] <= SCALE,
    {
        let n = g.nodes.len();
        let m = g.edges.len();

        // depths from the dependency roots
        let mut depth: Vec<i64> = Vec::new();
        let mut v: usize = 0;
        while v < n
            invariant
                v <= n,
                depth@.len() == v,
                forall|j: int| 0 <= j < v ==> depth@[j] == 0i64,
            decreases n - v,
        {
            depth.push(0);
            v = v + 1;
        }
        proof {
            assert(depth@ =~= root_depths_rec(*g, 0));
        }
        let mut rt: usize = 0;
        while rt < n
            invariant
                rt <= n,
                depth@.len() == n,
                depth@ == root_depths_rec(*g, rt as int),
                forall|j: int| 0 <= j < n ==> 0 <= #[trigger] depth@[j] < INF_DIST,
            decreases n - rt,
        {
            proof {
                lemma_root_depths_bounds(*g, rt as int + 1);
            }
            let ind = g.in_degree(rt);
            if ind == 0 {
                let ghost prev = depth@;
                let d = g.unit_distances(rt);
                let mut v: usize = 0;
                while v < n
                    invariant
                        v <= n,
                        depth@.len() == n,
                        d@ == dists_spec(*g, rt as int, g.n() as nat),
                        d@.len() == n,
                        forall|j: int|
                            0 <= j < v ==> depth@[j] == depth_merge(n as int, prev, d@)[j],
                        forall|j: int| v <= j < n ==> depth@[j] == prev[j],
                    decreases n - v,
                {
                    if d[v] < INF_DIST && d[v] > depth[v] {
                        depth[v] = d[v];
                    }
                    v = v + 1;
                }
                proof {
                    assert(depth@ =~= depth_merge(n as int, prev, d@));
                }
            }
            rt = rt + 1;
        }

        let mut r: Vec<i64> = Vec::new();
        let mut v: usize = 0;
        while v < n
            invariant
                v <= n,
                depth@ == root_depths_rec(*g, n as int),
                depth@.len() == n,
                forall|j: int| 0 <= j < n ==> 0 <= #[trigger] depth@[j] < INF_DIST,
                r@.len() == v,
                forall|j: int| 0 <= j < v ==> r@[j] == debt_spec(*g, j),
                forall|j: int| 0 <= j < v ==> 0 <= #[trigger] r@[j] <= SCALE,
            decreases n - v,
        {
            let outd = g.out_degree(v);
            proof {
                crate::graph::lemma_out_deg_bounds(g.edges@, v as int, g.m());
                mul_scale_facts(outd as int, crate::graph::MAX_EDGES as int);
                mul_scale_facts(depth@[v as int] as int, 2_000_000_000);
            }
            let f1 = clamp_unit((outd as i64) * SCALE / 10);
            let f2 = clamp_unit(depth[v] * SCALE / 10);
            let t = g.nodes[v].node_type;
            let f3: i64 = if t.is_file_like() {
                clamp_unit((outd as i64) * SCALE / 20)
            } else if matches!(t, NodeType::Class) {
                let mut me: i64 = 0;
                let mut k: usize = 0;
                while k < m
                    invariant
                        k <= m,
                        v < n,
                        me == method_edge_cnt_upto(*g, v as int, k as int),
                        0 <= me <= k,
                    decreases m - k,
                {
                    let e_src = g.edges[k].source;
                    if e_src == v && matches!(g.nodes[g.edges[k].target].node_type, NodeType::Method) {
                        me = me + 1;
                    }
                    k = k + 1;
                }
                proof {
                    mul_scale_facts(me as int, crate::graph::MAX_EDGES as int);
                }
                clamp_unit(me * SCALE / 15)
            } else {
                0
            };
            let debt = (f1 + f2 + f3) / 3;
            r.push(debt);
            v = v + 1;
        }
        r
    }

    /// Change propagation of every node; see `propagation_spec`.
    #[verifier::loop_isolation(false)]
    pub fn calculate_change_propagation(&self, g: &CodeGraph) -> (r: Vec<i64>)
        requires
            g.wf(),
            g.fits(),
            g.n() >= 1,
            g.n() <= MAX_CLOSURE_NODES,
        ensures
            r@.len() == g.n(),
            forall|v: int| 0 <= v < g.n() ==> r@[v] == propagation_spec(*g, v),
            forall|v: int| 0 <= v < g.n() ==> 0 <= #[trigger] r@[v] <= SCALE,
    {
        let n = g.nodes.len();
        let tab = g.reach_table();
        let mut r: Vec<i64> = Vec::new();
        let mut v: usize = 0;
        while v < n
            invariant
                v <= n,
                reach_table_ok(*g, tab@, g.n() as nat),
                r@.len() == v,
                forall|j: int| 0 <= j < v ==> r@[j] == propagation_spec(*g, j),
                forall|j: int| 0 <= j < v ==> 0 <= #[trigger] r@[j] <= SCALE,
            decreases n - v,
        {
            let direct = g.in_degree(v);
            proof {
                crate::graph::lemma_in_deg_bounds(g.edges@, v as int, g.m());
            }
            let mut trans: usize = 0;
            let mut u: usize = 0;
            while u < n
                invariant
                    u <= n,
                    v < n,
                    reach_table_ok(*g, tab@, g.n() as nat),
                    trans as int == dependents_upto(*g, v as int, u as int),
                    trans <= u,
                decreases n - u,
            {
                proof {
                    lemma_dependents_bounds(*g, v as int, u as int);
                    lemma_rowcol_index(n as int, u as int, v as int);
                }
                if u != v && tab[u * n + v] {
                    trans = trans + 1;
                }
                u = u + 1;
            }
            proof {
                mul_scale_facts((direct as int + trans as int / 2), 2_000_000_000);
            }
            let val = clamp_unit(((direct as i64) + (trans as i64) / 2) * SCALE / (n as i64));
            r.push(val);
            v = v + 1;
        }
        r
    }

    /// Run the whole risk module.
    #[verifier::loop_isolation(false)]
    pub fn analyze_risks(&self, g: &CodeGraph) -> (r: RiskResults)
        requires
            g.wf(),
            g.fits(),
            g.n() <= MAX_CLOSURE_NODES,
            self.valid(),
        ensures
            r.risk_scores@.len() == g.n(),
            forall|v: int|
                0 <= v < g.n() ==> r.risk_scores@[v] == risk_score_spec(
                    *g,
                    v,
                    self.complexity_threshold as int,
                    self.high_coupling_threshold as int,
                    self.bottleneck_threshold as int,
                ),
            r.chokepoints@.len() == g.n(),
            forall|v: int|
                0 <= v < g.n() ==> r.chokepoints@[v] == chokepoint_spec(
                    *g,
                    v,
                    self.bottleneck_threshold as int,
                ),
            forall|v: int| 0 <= v < g.n() ==> 0 <= #[trigger] r.chokepoints@[v] <= 2_000_000,
            forall|v: int| 0 <= v < g.n() ==> 0 <= (#[trigger] r.risk_scores@[v]).overall <= SCALE,
            r.circular_dependencies@.len() == reported_cycles_spec(*g).len(),
            forall|i: int|
                0 <= i < r.circular_dependencies@.len() ==> (#[trigger] r.circular_dependencies@[i])@
                    == reported_cycles_spec(*g)[i],
            r.total_circular_deps == r.circular_dependencies@.len(),
            r.coupling_metrics@.len() == g.n(),
            forall|v: int| 0 <= v < g.n() ==> r.coupling_metrics@[v] == risk_coupling_spec(*g, v),
            r.technical_debt@.len() == g.n(),
            forall|v: int| 0 <= v < g.n() ==> r.technical_debt@[v] == debt_spec(*g, v),
            r.change_propagation@.len() == g.n(),
            forall|v: int| 0 <= v < g.n() ==> r.change_propagation@[v] == propagation_spec(*g, v),
            r.high_risk_count as int == high_risk_upto(r.risk_scores@, g.n()),
            r.avg_risk_score as int == if g.n() >= 1 {
                overall_sum_upto(r.risk_scores@, g.n()) / g.n()
            } else {
                0int
            },
            0 <= r.avg_risk_score <= SCALE,
            r.errors@.len() == 0,
    {
        if g.nodes.len() == 0 {
            proof {
                assert(reported_cycles_spec(*g).len() == 0);
            }
            return RiskResults {
                risk_scores: Vec::new(),
                chokepoints: Vec::new(),
                circular_dependencies: Vec::new(),
                coupling_metrics: Vec::new(),
                technical_debt: Vec::new(),
                change_propagation: Vec::new(),
                high_risk_count: 0,
                total_circular_deps: 0,
                avg_risk_score: 0,
                cycles_truncated: false,
                errors: Vec::new(),
            };
        }
        let risk_scores = self.identify_high_risk_nodes(g);
        let chokepoints = self.find_chokepoints(g);
        let (circular_dependencies, cycles_truncated) = self.detect_circular_dependencies(g);
        let coupling_metrics = self.calculate_coupling_metrics(g);
        let technical_debt = self.calculate_technical_debt(g);
        let change_propagation = self.calculate_change_propagation(g);

        let n = g.nodes.len();
        let mut high: usize = 0;
        let mut sum: i64 = 0;
        let mut v: usize = 0;
        while v < n
            invariant
                v <= n,
                risk_scores@.len() == n,
                forall|j: int| 0 <= j < n ==> 0 <= (#[trigger] risk_scores@[j]).overall <= SCALE,
                high as int == high_risk_upto(risk_scores@, v as int),
                high <= v,
                sum as int == overall_sum_upto(risk_scores@, v as int),
                0 <= sum <= v * (SCALE as int),
            decreases n - v,
        {
            proof {
                lemma_high_risk_bounds(risk_scores@, v as int);
                vstd::arithmetic::mul::lemma_mul_inequality(
                    v as int,
                    (v + 1) as int,
                    SCALE as int,
                );
            }
            if risk_scores[v].overall > 7 * SCALE / 10 {
                high = high + 1;
            }
            sum = sum + risk_scores[v].overall;
            v = v + 1;
        }
        proof {
            vstd::arithmetic::mul::lemma_mul_inequality(n as int, 1000000, SCALE as int);
        }
        let avg_risk_score: i64 = if n > 0 {
            proof {
                vstd::arithmetic::div_mod::lemma_div_pos_is_pos(sum as int, n as int);
                vstd::arithmetic::div_mod::lemma_div_is_ordered(
                    sum as int,
                    n as int * SCALE as int,
                    n as int,
                );
                assert(n as int * SCALE as int == SCALE as int * n as int);
                vstd::arithmetic::div_mod::lemma_div_multiples_vanish(SCALE as int, n as int);
            }
            sum / (n as i64)
        } else {
            0
        };
        let total_circular_deps = circular_dependencies.len();
        RiskResults {
            risk_scores,
            chokepoints,
            circular_dependencies,
            coupling_metrics,
            technical_debt,
            change_propagation,
            high_risk_count: high,
            total_circular_deps,
            avg_risk_score,
            cycles_truncated,
            errors: Vec::new(),
        }
    }
}

/// How many of the first `k` risk scores exceed seven tenths.
pub open spec fn high_risk_upto(s: Seq<RiskScore>, k: int) -> int
    decreases k,
{
    if k <= 0 {
        0
    } else {
        high_risk_upto(s, k - 1) + if s[k - 1].overall > 7 * SCALE / 10 {
            1int
        } else {
            0int
        }
    }
}

proof fn lemma_high_risk_bounds(s: Seq<RiskScore>, k: int)
    requires
        0 <= k,
    ensures
        0 <= high_risk_upto(s, k) <= k,
    decreases k,
{
    if k > 0 {
        lemma_high_risk_bounds(s, k - 1);
    }
}

} // verus!
