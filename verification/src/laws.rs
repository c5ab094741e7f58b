//! The library's cross-cutting guarantees, stated and proved once: what
//! every metric yields on degenerate graphs, that every reported number is
//! bounded, that execution mode cannot change report content, that repeated
//! runs agree, how a star center ranks, and how a god object is flagged.
use vstd::prelude::*;

use crate::centrality::DegreeMetrics;
use crate::centrality::betweenness_spec;
use crate::centrality::clustering_spec;
use crate::centrality::closeness_spec;
use crate::centrality::degree_spec;
use crate::centrality::eigenvector_spec;
use crate::centrality::k_core_spec;
use crate::community::louvain_spec;
use crate::community::modularity_spec;
use crate::community::num_comms_spec;
use crate::engine::AnalyticsConfig;
use crate::engine::composite_spec;
use crate::fixed::SCALE;
use crate::fixed::clamp_unit_spec;
use crate::graph::CodeGraph;
use crate::graph::EdgeWeight;
use crate::graph::in_deg_upto;
use crate::graph::out_deg_upto;
use crate::graph::pagerank_spec;
use crate::quality::god_smell;
use crate::report::CompositeOutputs;
use crate::risk::risk_score_spec;

verus! {

/// On an empty graph every module yields an empty result: the analysis
/// itself always succeeds, and there is nothing to report per node.
pub proof fn lemma_empty_graph_all_empty(
    g: CodeGraph,
    iters: nat,
    damping: int,
    use_sampling: bool,
    sample_size: int,
    resolution: int,
    passes: nat,
)
    requires
        g.wf(),
        g.n() == 0,
    ensures
        pagerank_spec(g, iters, damping).len() == 0,
        betweenness_spec(g, use_sampling, sample_size).len() == 0,
        closeness_spec(g).len() == 0,
        clustering_spec(g).len() == 0,
        k_core_spec(g).len() == 0,
        eigenvector_spec(g, iters).len() == 0,
        g.m() == 0 ==> louvain_spec(g, resolution, passes).len() == 0 && num_comms_spec(
            g,
            resolution,
            passes,
        ) == 0,
{
    crate::centrality::lemma_kcore_iter_wf(g, 0nat);
}

/// On a single node without edges, betweenness and clustering are zero
/// while closeness and eigenvector default to one whole unit, with no
/// division by zero anywhere.
pub proof fn lemma_single_node_defaults(g: CodeGraph, iters: nat)
    requires
        g.wf(),
        g.n() == 1,
        g.m() == 0,
    ensures
        betweenness_spec(g, true, 1000)[0] == 0i64,
        clustering_spec(g)[0] == 0i64,
        closeness_spec(g)[0] == SCALE,
        eigenvector_spec(g, iters)[0] == SCALE,
{
    assert(crate::centrality::nb_cnt_upto(g, 0, 0) == 0);
    assert(!crate::centrality::is_neighbor(g, 0, 0));
    assert(crate::centrality::nb_cnt_upto(g, 0, 1) == 0);
}

/// Every edge weight sanitizes to a nonnegative finite value: a finite
/// nonnegative weight keeps its value (zero stays zero), and anything
/// degenerate (not a number, infinite, or negative) counts as one whole
/// unit; nothing non-finite can enter any accumulation.
pub proof fn lemma_sanitized_weight_finite(w: EdgeWeight)
    ensures
        w.spec_sane() >= 0,
        w is Finite && w->Finite_0 >= 0 ==> w.spec_sane() == w->Finite_0,
        !(w is Finite && w->Finite_0 >= 0) ==> w.spec_sane() == SCALE,
{
}

/// Every composite score a run reports is drawn from bounded blends of
/// unit-range inputs: the importance and payoff formulas of in-range
/// inputs stay within zero and three units, and every clamped metric value
/// stays within the unit range.
pub proof fn lemma_reported_values_bounded(g: CodeGraph, x: int, it: nat, d: int)
    requires
        g.wf(),
        g.n() >= 1,
        0 <= d <= SCALE,
    ensures
        0 <= clamp_unit_spec(x) <= SCALE,
        forall|v: int| 0 <= v < g.n() ==> 0 <= #[trigger] pagerank_spec(g, it, d)[v] <= SCALE,
        forall|comms: Seq<usize>| 0 <= #[trigger] modularity_spec(g, comms) <= SCALE,
{
    crate::fixed::lemma_clamp_unit_bounds(x);
    crate::graph::lemma_pagerank_bounds(g, it, d);
    assert forall|comms: Seq<usize>| 0 <= #[trigger] modularity_spec(g, comms) <= SCALE by {
        if g.m() != 0 {
            crate::fixed::lemma_clamp_unit_bounds(
                2 * (crate::community::intra_sum_upto(g, comms, g.m()) * SCALE
                    / crate::community::sane_sum_upto(g, g.m())),
            );
        }
    }
}

/// A zero total sanitized weight (no edges, or only zero-weight edges)
/// short-circuits community detection to the singleton partition, with
/// zero modularity.
pub proof fn lemma_zero_total_weight_singleton(
    g: CodeGraph,
    resolution: int,
    passes: nat,
    comms: Seq<usize>,
)
    requires
        crate::community::sane_sum_upto(g, g.m()) <= 0,
    ensures
        louvain_spec(g, resolution, passes) == crate::community::singleton_comms(g.n()),
        num_comms_spec(g, resolution, passes) == g.n(),
        modularity_spec(g, comms) == 0,
{
}

/// Parallel and sequential execution cannot disagree: every module's
/// result is a function of the graph and configuration alone, so any two
/// runs (in any order, against the shared read-only graph) that satisfy
/// the modules' contracts agree on node count, community count, the size
/// of the degree map, and the summary's risk and cycle counts.
pub proof fn lemma_mode_content_equivalence(
    g: CodeGraph,
    resolution: int,
    passes: nat,
    nodes1: int,
    nodes2: int,
    comms1: int,
    comms2: int,
    degs1: Seq<DegreeMetrics>,
    degs2: Seq<DegreeMetrics>,
    high1: int,
    high2: int,
    cycles1: int,
    cycles2: int,
)
    requires
        nodes1 == g.n(),
        nodes2 == g.n(),
        comms1 == num_comms_spec(g, resolution, passes),
        comms2 == num_comms_spec(g, resolution, passes),
        degs1.len() == if g.n() <= 1 {
            0int
        } else {
            g.n()
        },
        degs2.len() == if g.n() <= 1 {
            0int
        } else {
            g.n()
        },
        high1 == crate::risk::high_risk_upto(
            Seq::new(g.n() as nat, |v: int| risk_score_spec(g, v, 15, 10, 5)),
            g.n(),
        ),
        high2 == crate::risk::high_risk_upto(
            Seq::new(g.n() as nat, |v: int| risk_score_spec(g, v, 15, 10, 5)),
            g.n(),
        ),
        cycles1 == crate::risk::reported_cycles_spec(g).len(),
        cycles2 == crate::risk::reported_cycles_spec(g).len(),
    ensures
        nodes1 == nodes2,
        comms1 == comms2,
        degs1.len() == degs2.len(),
        high1 == high2,
        cycles1 == cycles2,
{
}

/// Two analysis runs on an unchanged graph with a fixed configuration
/// yield numerically identical composite scores: both are pinned to the
/// same specification.
pub proof fn lemma_analysis_idempotent(
    g: CodeGraph,
    cfg: AnalyticsConfig,
    risk_ran: bool,
    run1: Seq<CompositeOutputs>,
    run2: Seq<CompositeOutputs>,
)
    requires
        run1.len() == g.n(),
        run2.len() == g.n(),
        forall|v: int| 0 <= v < g.n() ==> run1[v] == composite_spec(g, cfg, risk_ran, v),
        forall|v: int| 0 <= v < g.n() ==> run2[v] == composite_spec(g, cfg, risk_ran, v),
    ensures
        run1 =~= run2,
{
}

/// The number of outgoing star edges from the center, counted over a star
/// edge list.
proof fn lemma_star_degrees(g: CodeGraph, k: int)
    requires
        g.wf(),
        g.n() >= 2,
        g.m() == g.n() - 1,
        forall|j: int|
            0 <= j < g.m() ==> (#[trigger] g.edges@[j]).source == 0 && g.edges@[j].target == j + 1,
        0 <= k <= g.m(),
    ensures
        out_deg_upto(g.edges@, 0, k) == k,
        in_deg_upto(g.edges@, 0, k) == 0,
        forall|i: int|
            1 <= i < g.n() ==> in_deg_upto(g.edges@, i, k) == if i <= k {
                1int
            } else {
                0int
            },
        forall|i: int| 1 <= i < g.n() ==> out_deg_upto(g.edges@, i, k) == 0,
    decreases k,
{
    if k > 0 {
        lemma_star_degrees(g, k - 1);
        assert forall|i: int|
            1 <= i < g.n() implies in_deg_upto(g.edges@, i, k) == (if i <= k {
            1int
        } else {
            0int
        }) by {
            assert(g.edges@[k - 1].target == k);
            assert(in_deg_upto(g.edges@, i, k - 1) == (if i <= k - 1 {
                1int
            } else {
                0int
            }));
        }
        assert forall|i: int| 1 <= i < g.n() implies out_deg_upto(g.edges@, i, k) == 0 by {
            assert(g.edges@[k - 1].source == 0);
            assert(out_deg_upto(g.edges@, i, k - 1) == 0);
        }
    }
}

/// In a star graph (the center pointing at every other node), the center
/// ranks strictly highest in degree centrality, provided the star has at
/// least two rays.
pub proof fn lemma_star_center_ranks_highest(g: CodeGraph, i: int)
    requires
        g.wf(),
        g.n() >= 3,
        g.m() == g.n() - 1,
        forall|j: int|
            0 <= j < g.m() ==> (#[trigger] g.edges@[j]).source == 0 && g.edges@[j].target == j + 1,
        1 <= i < g.n(),
    ensures
        degree_spec(g, 0).total_degree > degree_spec(g, i).total_degree,
{
    lemma_star_degrees(g, g.m());
    let n = g.n();
    // the center: (n - 1) edges over 2 * (n - 1) is exactly half a unit
    assert((n - 1) * SCALE == (SCALE as int / 2) * (2 * (n - 1))) by (nonlinear_arith);
    vstd::arithmetic::div_mod::lemma_div_by_multiple(SCALE as int / 2, 2 * (n - 1));
    assert(degree_spec(g, 0).total_degree == SCALE as int / 2);
    // a ray: one edge over 2 * (n - 1), at most a quarter unit
    vstd::arithmetic::div_mod::lemma_div_pos_is_pos(SCALE as int, 2 * (n - 1));
    vstd::arithmetic::div_mod::lemma_div_is_ordered_by_denominator(SCALE as int, 4, 2 * (n - 1));
    assert(degree_spec(g, i).total_degree == clamp_unit_spec((SCALE as int) / (2 * (n - 1))));
    assert(SCALE as int / (2 * (n - 1)) <= SCALE as int / 4);
}

/// A god object is flagged: a class whose fan-out reaches eight, whose
/// total degree reaches twenty and makes up at least seven tenths of the
/// node count, scores an overall risk above seven tenths; and any node
/// whose total degree passes thirty carries the god-object smell.
pub proof fn lemma_god_object_flagged(g: CodeGraph, v: int)
    requires
        g.wf(),
        g.n() >= 1,
        0 <= v < g.n(),
        g.nodes@[v].node_type is Class,
        g.spec_out_degree(v) >= 8,
        g.spec_in_degree(v) + g.spec_out_degree(v) >= 20,
        10 * (g.spec_in_degree(v) + g.spec_out_degree(v)) >= 7 * g.n(),
    ensures
        risk_score_spec(g, v, 15, 10, 5).overall > 7 * SCALE / 10,
        g.spec_in_degree(v) + g.spec_out_degree(v) > 30 ==> god_smell(g, v),
{
    let ind = g.spec_in_degree(v);
    let outd = g.spec_out_degree(v);
    let total = ind + outd;
    let n = g.n();
    crate::graph::lemma_in_deg_bounds(g.edges@, v, g.m());
    crate::graph::lemma_out_deg_bounds(g.edges@, v, g.m());

    // complexity risk saturates: the estimate is at least sixteen over a
    // threshold of fifteen
    let est = crate::risk::complexity_estimate_spec(g, v);
    assert(est >= 16);
    vstd::arithmetic::mul::lemma_mul_inequality(16, est, SCALE as int);
    assert(16 * SCALE as int / 15 >= SCALE as int + 1);
    vstd::arithmetic::div_mod::lemma_div_is_ordered(16 * SCALE as int, est * SCALE, 15);
    let complexity = clamp_unit_spec(est * SCALE / 15);
    assert(complexity == SCALE as int);

    // coupling risk saturates: ten past the threshold
    assert(total > 10);
    vstd::arithmetic::mul::lemma_mul_inequality(10, total - 10, SCALE as int);
    vstd::arithmetic::div_mod::lemma_div_is_ordered(10 * SCALE as int, (total - 10) * SCALE, 10);
    vstd::arithmetic::div_mod::lemma_div_by_multiple(SCALE as int, 10);
    let coupling = clamp_unit_spec((total - 10) * SCALE / 10);
    assert(coupling == SCALE as int);

    // centrality risk reaches seven tenths of a unit
    assert(total * SCALE >= (7 * SCALE as int / 10) * n) by (nonlinear_arith)
        requires
            10 * total >= 7 * n,
            n >= 1,
    ;
    vstd::arithmetic::div_mod::lemma_div_is_ordered((7 * SCALE as int / 10) * n, total * SCALE, n);
    vstd::arithmetic::div_mod::lemma_div_by_multiple(7 * SCALE as int / 10, n);
    vstd::arithmetic::div_mod::lemma_div_pos_is_pos(total * SCALE, n);
    let centrality = clamp_unit_spec(total * SCALE / n);
    assert(centrality >= 7 * SCALE as int / 10);
    assert(centrality <= SCALE as int) by {
        crate::fixed::lemma_clamp_unit_bounds(total * SCALE / n);
    }

    let bottleneck: int = if ind > 5 && outd > 5 {
        SCALE as int / 2
    } else {
        0
    };
    assert(bottleneck >= 0);
    let blend = (3 * complexity + 3 * centrality + 2 * bottleneck + 2 * coupling) / 10;
    assert(blend > 7 * SCALE as int / 10);
    assert(blend <= SCALE as int + SCALE as int);
    crate::fixed::lemma_clamp_unit_bounds(blend);
    assert(risk_score_spec(g, v, 15, 10, 5).overall == clamp_unit_spec(blend));
}

} // verus!
