//! Report building: empirical normalization ranges, composite scores, the
//! run summary, and the UI-facing per-node projection.
use vstd::prelude::*;

use crate::fixed::SCALE;
use crate::fixed::clamp_unit_spec;

verus! {

/// Composite scores of one node, each meant to lie in the unit range.
#[derive(Debug, Clone, Copy, PartialEq, Eq, Structural)]
pub struct CompositeOutputs {
    pub importance: i64,
    pub chokepoint: i64,
    pub risk: i64,
    pub payoff: i64,
}

/// An observed value range of one raw metric.
#[derive(Debug, Clone, PartialEq, Eq, Structural)]
pub struct NormalizationRanges {
    pub pagerank_lo: i64,
    pub pagerank_hi: i64,
    pub indegree_lo: i64,
    pub indegree_hi: i64,
    pub clustering_lo: i64,
    pub clustering_hi: i64,
    pub betweenness_lo: i64,
    pub betweenness_hi: i64,
    pub complexity_lo: i64,
    pub complexity_hi: i64,
}

/// Summary statistics of one analysis run.
#[derive(Debug, Clone, PartialEq, Eq, Structural)]
pub struct AnalysisSummary {
    pub total_nodes: usize,
    pub total_edges: usize,
    pub num_communities: usize,
    pub modularity: i64,
    pub avg_complexity: i64,
    pub high_risk_count: usize,
    pub circular_dependencies: usize,
}

/// Weights of the composite scores, in fixed point.
#[derive(Debug, Clone, PartialEq, Eq, Structural)]
pub struct MetricWeights {
    pub importance_pagerank: i64,
    pub importance_degree: i64,
    pub importance_betweenness: i64,
    pub risk_complexity: i64,
    pub risk_coupling: i64,
    pub risk_churn: i64,
    pub chokepoint_betweenness: i64,
    pub chokepoint_clustering: i64,
    pub chokepoint_degree: i64,
    pub payoff_risk: i64,
    pub payoff_importance: i64,
    pub payoff_coverage: i64,
}

impl Default for MetricWeights {
    /// The default weighting: importance five-three-two tenths over
    /// PageRank, degree and betweenness; risk four-four-two tenths;
    /// chokepoint six-two-two tenths; payoff four-three-three tenths.
    fn default() -> (r: Self)
        ensures
            r == MetricWeights::spec_default(),
    {
        MetricWeights {
            importance_pagerank: 500_000,
            importance_degree: 300_000,
            importance_betweenness: 200_000,
            risk_complexity: 400_000,
            risk_coupling: 400_000,
            risk_churn: 200_000,
            chokepoint_betweenness: 600_000,
            chokepoint_clustering: 200_000,
            chokepoint_degree: 200_000,
            payoff_risk: 400_000,
            payoff_importance: 300_000,
            payoff_coverage: 300_000,
        }
    }
}

impl MetricWeights {
    /// The default weighting.
    pub open spec fn spec_default() -> MetricWeights {
        MetricWeights {
            importance_pagerank: 500_000,
            importance_degree: 300_000,
            importance_betweenness: 200_000,
            risk_complexity: 400_000,
            risk_coupling: 400_000,
            risk_churn: 200_000,
            chokepoint_betweenness: 600_000,
            chokepoint_clustering: 200_000,
            chokepoint_degree: 200_000,
            payoff_risk: 400_000,
            payoff_importance: 300_000,
            payoff_coverage: 300_000,
        }
    }

    /// Whether each weight is a valid unit-range value.
    pub open spec fn valid(self) -> bool {
        &&& 0 <= self.importance_pagerank <= SCALE
        &&& 0 <= self.importance_degree <= SCALE
        &&& 0 <= self.importance_betweenness <= SCALE
        &&& 0 <= self.risk_complexity <= SCALE
        &&& 0 <= self.risk_coupling <= SCALE
        &&& 0 <= self.risk_churn <= SCALE
        &&& 0 <= self.chokepoint_betweenness <= SCALE
        &&& 0 <= self.chokepoint_clustering <= SCALE
        &&& 0 <= self.chokepoint_degree <= SCALE
        &&& 0 <= self.payoff_risk <= SCALE
        &&& 0 <= self.payoff_importance <= SCALE
        &&& 0 <= self.payoff_coverage <= SCALE
    }
}

/// Smallest value among the first `k` entries, defaulting to the first.
pub open spec fn min_upto(s: Seq<i64>, k: int) -> int
    decreases k,
{
    if k <= 1 {
        if s.len() > 0 {
            s[0] as int
        } else {
            0
        }
    } else {
        let rest = min_upto(s, k - 1);
        if s[k - 1] < rest {
            s[k - 1] as int
        } else {
            rest
        }
    }
}

/// Normalize a raw value into a range, mapping a below-degenerate range
/// to zero.
pub open spec fn normalize_spec(x: int, lo: int, hi: int) -> int {
    if hi <= lo {
        0
    } else {
        clamp_unit_spec((x - lo) * SCALE / (hi - lo))
    }
}

/// Normalize a raw value into an observed range for the report pipeline:
/// a below-degenerate range maps everything to one half instead.
pub open spec fn range_normalize_spec(x: int, lo: int, hi: int) -> int {
    if hi <= lo {
        SCALE as int / 2
    } else {
        clamp_unit_spec((x - lo) * SCALE / (hi - lo))
    }
}

/// The clamped scaled ratio both normalizers share.
fn scaled_ratio(x: i64, lo: i64, hi: i64) -> (r: i64)
    requires
        -1_000_000_000_000_000 <= x <= 1_000_000_000_000_000,
        -1_000_000_000_000_000 <= lo <= 1_000_000_000_000_000,
        -1_000_000_000_000_000 <= hi <= 1_000_000_000_000_000,
        lo < hi,
    ensures
        r == clamp_unit_spec((x - lo) as int * SCALE / (hi - lo) as int),
        0 <= r <= SCALE,
{
    if x < lo {
        proof {
            assert((x - lo) as int * (SCALE as int) / ((hi - lo) as int) < 0) by (nonlinear_arith)
                requires
                    (x - lo) as int <= -1,
                    (hi - lo) as int >= 1,
                    -3000000000000000000000int <= (x - lo) as int * (SCALE as int) <= 0,
            ;
            assert(-3000000000000000000000int <= (x - lo) as int * (SCALE as int) <= 0)
                by (nonlinear_arith)
                requires
                    -3000000000000000int <= (x - lo) as int <= 0,
            ;
        }
        return 0;
    }
    proof {
        assert(0 <= (x - lo) as int * (SCALE as int) <= 2000000000000000000000int)
            by (nonlinear_arith)
            requires
                0 <= (x - lo) as int <= 2000000000000000int,
        ;
        crate::fixed::lemma_clamp_unit_bounds(
            (x - lo) as int * (SCALE as int) / (hi as int - lo as int),
        );
        vstd::arithmetic::div_mod::lemma_div_pos_is_pos(
            (x - lo) as int * (SCALE as int),
            hi as int - lo as int,
        );
    }
    let wide = ((x - lo) as i128) * (SCALE as i128) / ((hi - lo) as i128);
    if wide > SCALE as i128 {
        SCALE
    } else {
        wide as i64
    }
}

/// Normalize in executable form; a below-degenerate range yields zero.
pub fn normalize(value: i64, min: i64, max: i64) -> (r: i64)
    requires
        -1_000_000_000_000_000 <= value <= 1_000_000_000_000_000,
        -1_000_000_000_000_000 <= min <= 1_000_000_000_000_000,
        -1_000_000_000_000_000 <= max <= 1_000_000_000_000_000,
    ensures
        r == normalize_spec(value as int, min as int, max as int),
        0 <= r <= SCALE,
{
    if max <= min {
        0
    } else {
        scaled_ratio(value, min, max)
    }
}

/// Normalize into an observed report range; a below-degenerate range
/// yields one half.
pub fn range_normalize(x: i64, lo: i64, hi: i64) -> (r: i64)
    requires
        -1_000_000_000_000_000 <= x <= 1_000_000_000_000_000,
        -1_000_000_000_000_000 <= lo <= 1_000_000_000_000_000,
        -1_000_000_000_000_000 <= hi <= 1_000_000_000_000_000,
    ensures
        r == range_normalize_spec(x as int, lo as int, hi as int),
        0 <= r <= SCALE,
{
    if hi <= lo {
        SCALE / 2
    } else {
        scaled_ratio(x, lo, hi)
    }
}

/// The importance of one node: the weighted blend of its normalized
/// PageRank, total degree, and range-normalized betweenness.
pub open spec fn importance_spec(
    w: MetricWeights,
    pr: int,
    deg: int,
    betw: int,
    betw_lo: int,
    betw_hi: int,
) -> int {
    let npr = clamp_unit_spec(pr);
    let nb = range_normalize_spec(betw, betw_lo, betw_hi);
    (w.importance_pagerank * npr + w.importance_degree * deg + w.importance_betweenness * nb) / (
    SCALE as int)
}

/// The payoff of one node: the weighted blend of risk, importance, and the
/// half-unit inverse-coverage placeholder.
pub open spec fn payoff_spec(w: MetricWeights, risk: int, importance: int) -> int {
    (w.payoff_risk * risk + w.payoff_importance * importance + w.payoff_coverage * (SCALE as int
        / 2)) / (SCALE as int)
}

/// One blended term of unit-range factors stays in wide bounds.
pub proof fn lemma_blend3_bounds(w1: int, a: int, w2: int, b: int, w3: int, c: int)
    requires
        0 <= w1 <= SCALE,
        0 <= w2 <= SCALE,
        0 <= w3 <= SCALE,
        0 <= a <= SCALE,
        0 <= b <= SCALE,
        0 <= c <= SCALE,
    ensures
        0 <= w1 * a + w2 * b + w3 * c <= 3_000_000_000_000,
        0 <= (w1 * a + w2 * b + w3 * c) / (SCALE as int) <= 3_000_000,
{
    vstd::arithmetic::mul::lemma_mul_nonnegative(w1, a);
    vstd::arithmetic::mul::lemma_mul_nonnegative(w2, b);
    vstd::arithmetic::mul::lemma_mul_nonnegative(w3, c);
    vstd::arithmetic::mul::lemma_mul_upper_bound(w1, SCALE as int, a, SCALE as int);
    vstd::arithmetic::mul::lemma_mul_upper_bound(w2, SCALE as int, b, SCALE as int);
    vstd::arithmetic::mul::lemma_mul_upper_bound(w3, SCALE as int, c, SCALE as int);
    vstd::arithmetic::div_mod::lemma_div_pos_is_pos(w1 * a + w2 * b + w3 * c, SCALE as int);
    vstd::arithmetic::div_mod::lemma_div_is_ordered(
        w1 * a + w2 * b + w3 * c,
        3_000_000_000_000,
        SCALE as int,
    );
}

} // verus!
