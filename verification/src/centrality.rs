//! Centrality metrics: degree, closeness, betweenness (approximate, with
//! optional source sampling), clustering coefficient, k-core decomposition
//! and eigenvector centrality. Every score is a fixed-point value; every
//! result vector is aligned with the graph's node order.
use vstd::prelude::*;

use crate::fixed::SCALE;
use crate::fixed::clamp_unit;
use crate::fixed::clamp_unit_spec;
use crate::graph::CodeGraph;
use crate::graph::MAX_EDGES;
use crate::graph::lemma_in_deg_bounds;
use crate::graph::lemma_out_deg_bounds;
use crate::paths::INF_DIST;
use crate::paths::dists_spec;
use crate::paths::min_int;

verus! {

/// Normalized degree scores of one node.
#[derive(Debug, Clone, PartialEq, Eq, Structural)]
pub struct DegreeMetrics {
    /// In-degree over `n - 1`, clamped to the unit range.
    pub in_degree: i64,
    /// Out-degree over `n - 1`, clamped to the unit range.
    pub out_degree: i64,
    /// Total degree over `2 * (n - 1)`, clamped to the unit range.
    pub total_degree: i64,
}

/// The degree metrics of node `v`: each degree count scaled into the unit
/// range by the number of other nodes.
pub open spec fn degree_spec(g: CodeGraph, v: int) -> DegreeMetrics {
    let ind = g.spec_in_degree(v);
    let outd = g.spec_out_degree(v);
    DegreeMetrics {
        in_degree: clamp_unit_spec(ind * SCALE / (g.n() - 1)) as i64,
        out_degree: clamp_unit_spec(outd * SCALE / (g.n() - 1)) as i64,
        total_degree: clamp_unit_spec((ind + outd) * SCALE / (2 * (g.n() - 1))) as i64,
    }
}

/// Count, among the first `k` nodes, those other than `src` that `d` marks
/// reachable.
pub open spec fn reach_cnt_upto(d: Seq<i64>, src: int, k: int) -> int
    decreases k,
{
    if k <= 0 {
        0
    } else {
        reach_cnt_upto(d, src, k - 1) + if k - 1 != src && d[k - 1] < INF_DIST {
            1int
        } else {
            0int
        }
    }
}

/// Sum of the distances counted by `reach_cnt_upto`.
pub open spec fn dist_sum_upto(d: Seq<i64>, src: int, k: int) -> int
    decreases k,
{
    if k <= 0 {
        0
    } else {
        dist_sum_upto(d, src, k - 1) + if k - 1 != src && d[k - 1] < INF_DIST {
            d[k - 1] as int
        } else {
            0int
        }
    }
}

/// Both prefix aggregates stay within linear bounds.
pub proof fn lemma_reach_sum_bounds(d: Seq<i64>, src: int, k: int)
    requires
        0 <= k <= d.len(),
        forall|j: int| 0 <= j < d.len() ==> 0 <= #[trigger] d[j] <= INF_DIST,
    ensures
        0 <= reach_cnt_upto(d, src, k) <= k,
        0 <= dist_sum_upto(d, src, k) <= k * (INF_DIST as int),
    decreases k,
{
    if k > 0 {
        lemma_reach_sum_bounds(d, src, k - 1);
        vstd::arithmetic::mul::lemma_mul_inequality(k - 1, k, INF_DIST as int);
    }
}

/// Every node other than the source is at distance at least one, in every
/// round.
pub proof fn lemma_dists_nonsrc_pos(g: CodeGraph, src: int, rounds: nat)
    requires
        g.wf(),
    ensures
        forall|t: int|
            0 <= t < g.n() && t != src ==> #[trigger] dists_spec(g, src, rounds)[t] >= 1,
    decreases rounds,
{
    crate::paths::lemma_dists_bounds(g, src, rounds);
    if rounds != 0 {
        let prev = dists_spec(g, src, (rounds - 1) as nat);
        lemma_dists_nonsrc_pos(g, src, (rounds - 1) as nat);
        crate::paths::lemma_dists_bounds(g, src, (rounds - 1) as nat);
        assert forall|t: int|
            0 <= t < g.n() && t != src implies #[trigger] dists_spec(g, src, rounds)[t] >= 1 by {
            lemma_relax_pos(g, prev, t, g.m());
        }
    }
}

/// The relaxation minimum is at least one when the previous distances are
/// all nonnegative.
proof fn lemma_relax_pos(g: CodeGraph, prev: Seq<i64>, v: int, k: int)
    requires
        g.wf(),
        0 <= k <= g.m(),
        prev.len() == g.n(),
        forall|j: int| 0 <= j < g.n() ==> 0 <= #[trigger] prev[j],
    ensures
        crate::paths::dist_relax_upto(g, prev, v, k) >= 1,
    decreases k,
{
    if k > 0 {
        lemma_relax_pos(g, prev, v, k - 1);
    }
}

/// When every counted distance is at least one, the count never exceeds the
/// sum.
pub proof fn lemma_cnt_le_sum(d: Seq<i64>, src: int, k: int)
    requires
        0 <= k <= d.len(),
        forall|j: int| 0 <= j < d.len() && j != src ==> #[trigger] d[j] >= 1,
    ensures
        reach_cnt_upto(d, src, k) <= dist_sum_upto(d, src, k),
    decreases k,
{
    if k > 0 {
        lemma_cnt_le_sum(d, src, k - 1);
    }
}

/// Raw closeness of node `v`: reachable count over total distance, in the
/// unit range, or zero for an isolated node.
pub open spec fn closeness_raw_spec(g: CodeGraph, v: int) -> int {
    let d = dists_spec(g, v, g.n() as nat);
    let rc = reach_cnt_upto(d, v, g.n());
    let ts = dist_sum_upto(d, v, g.n());
    if rc > 0 && ts > 0 {
        rc * SCALE / ts
    } else {
        0
    }
}

/// Largest value among the first `k` entries, at least 0.
pub open spec fn max_upto(s: Seq<i64>, k: int) -> int
    decreases k,
{
    if k <= 0 {
        0
    } else {
        let rest = max_upto(s, k - 1);
        if s[k - 1] > rest {
            s[k - 1] as int
        } else {
            rest
        }
    }
}

/// The prefix maximum is never negative.
pub proof fn lemma_max_upto_nonneg(s: Seq<i64>, k: int)
    ensures
        max_upto(s, k) >= 0,
    decreases k,
{
    if k > 0 {
        lemma_max_upto_nonneg(s, k - 1);
    }
}

/// The prefix maximum dominates every counted entry.
pub proof fn lemma_max_upto_ge(s: Seq<i64>, k: int, j: int)
    requires
        0 <= j < k,
    ensures
        max_upto(s, k) >= s[j],
        max_upto(s, k) >= 0,
    decreases k,
{
    lemma_max_upto_nonneg(s, k);
    if j < k - 1 {
        lemma_max_upto_ge(s, k - 1, j);
    }
}

/// The prefix maximum never exceeds a bound that every entry obeys.
pub proof fn lemma_max_upto_le(s: Seq<i64>, k: int, bound: int)
    requires
        0 <= k <= s.len(),
        bound >= 0,
        forall|j: int| 0 <= j < s.len() ==> #[trigger] s[j] <= bound,
    ensures
        max_upto(s, k) <= bound,
    decreases k,
{
    if k > 0 {
        lemma_max_upto_le(s, k - 1, bound);
    }
}

/// The raw closeness scores of all nodes.
pub open spec fn closeness_raw_all(g: CodeGraph) -> Seq<i64> {
    Seq::new(g.n() as nat, |v: int| closeness_raw_spec(g, v) as i64)
}

/// Closeness centrality of all nodes: raw scores scaled so that the best
/// connected node scores one whole unit; for a graph of at most one node,
/// every node scores one whole unit.
pub open spec fn closeness_spec(g: CodeGraph) -> Seq<i64> {
    if g.n() <= 1 {
        Seq::new(g.n() as nat, |v: int| SCALE)
    } else {
        let raw = closeness_raw_all(g);
        let mx = max_upto(raw, g.n());
        if mx > 0 {
            Seq::new(g.n() as nat, |v: int| (raw[v] * SCALE / mx) as i64)
        } else {
            raw
        }
    }
}

impl CodeGraph {
    /// Degree centrality of every node, normalized by the count of other
    /// nodes and clamped to the unit range. A graph of at most one node has
    /// no degree entries.
    pub fn calculate_degree_centrality(&self) -> (r: Vec<DegreeMetrics>)
        requires
            self.wf(),
            self.fits(),
        ensures
            self.n() <= 1 ==> r@.len() == 0,
            self.n() > 1 ==> r@.len() == self.n(),
            forall|v: int| 0 <= v < r@.len() ==> r@[v] == degree_spec(*self, v),
            forall|v: int|
                0 <= v < r@.len() ==> 0 <= (#[trigger] r@[v]).in_degree <= SCALE && 0
                    <= r@[v].out_degree <= SCALE && 0 <= r@[v].total_degree <= SCALE,
    {
        let n = self.nodes.len();
        let mut r: Vec<DegreeMetrics> = Vec::new();
        if n <= 1 {
            return r;
        }
        let mut v: usize = 0;
        while v < n
            invariant
                v <= n,
                2 <= n,
                n == self.n(),
                self.wf(),
                self.fits(),
                r@.len() == v,
                forall|j: int| 0 <= j < v ==> r@[j] == degree_spec(*self, j),
                forall|j: int|
                    0 <= j < v ==> 0 <= (#[trigger] r@[j]).in_degree <= SCALE && 0
                        <= r@[j].out_degree <= SCALE && 0 <= r@[j].total_degree <= SCALE,
            decreases n - v,
        {
            let ind = self.in_degree(v);
            let outd = self.out_degree(v);
            proof {
                lemma_in_deg_bounds(self.edges@, v as int, self.m());
                lemma_out_deg_bounds(self.edges@, v as int, self.m());
                vstd::arithmetic::mul::lemma_mul_upper_bound(
                    ind as int,
                    MAX_EDGES as int,
                    SCALE as int,
                    SCALE as int,
                );
                vstd::arithmetic::mul::lemma_mul_upper_bound(
                    outd as int,
                    MAX_EDGES as int,
                    SCALE as int,
                    SCALE as int,
                );
                vstd::arithmetic::mul::lemma_mul_upper_bound(
                    (ind + outd) as int,
                    2 * MAX_EDGES as int,
                    SCALE as int,
                    SCALE as int,
                );
                vstd::arithmetic::mul::lemma_mul_nonnegative(ind as int, SCALE as int);
                vstd::arithmetic::mul::lemma_mul_nonnegative(outd as int, SCALE as int);
                vstd::arithmetic::mul::lemma_mul_nonnegative((ind + outd) as int, SCALE as int);
            }
            let denom = (n - 1) as i64;
            let din = clamp_unit((ind as i64) * SCALE / denom);
            let dout = clamp_unit((outd as i64) * SCALE / denom);
            let dtot = clamp_unit(((ind + outd) as i64) * SCALE / (2 * denom));
            r.push(DegreeMetrics { in_degree: din, out_degree: dout, total_degree: dtot });
            v = v + 1;
        }
        r
    }

    /// Closeness centrality of every node: per node, the count of reachable
    /// other nodes over the summed unit-cost distances to them, then scaled
    /// so the best score is one whole unit. Isolated nodes score zero; a
    /// graph of at most one node scores one whole unit everywhere.
    pub fn calculate_closeness(&self) -> (r: Vec<i64>)
        requires
            self.wf(),
            self.fits(),
        ensures
            r@ == closeness_spec(*self),
            r@.len() == self.n(),
            forall|v: int| 0 <= v < r@.len() ==> 0 <= #[trigger] r@[v] <= SCALE,
    {
        let n = self.nodes.len();
        let mut raw: Vec<i64> = Vec::new();
        if n <= 1 {
            let mut r: Vec<i64> = Vec::new();
            let mut v: usize = 0;
            while v < n
                invariant
                    v <= n,
                    n == self.n(),
                    r@.len() == v,
                    forall|j: int| 0 <= j < v ==> r@[j] == SCALE,
                decreases n - v,
            {
                r.push(SCALE);
                v = v + 1;
            }
            proof {
                assert(r@ =~= closeness_spec(*self));
            }
            return r;
        }

        let mut v: usize = 0;
        while v < n
            invariant
                v <= n,
                2 <= n,
                n == self.n(),
                self.wf(),
                self.fits(),
                raw@.len() == v,
                forall|j: int| 0 <= j < v ==> raw@[j] == closeness_raw_all(*self)[j],
                forall|j: int| 0 <= j < v ==> 0 <= #[trigger] raw@[j] <= SCALE,
            decreases n - v,
        {
            let d = self.unit_distances(v);
            let mut rc: usize = 0;
            let mut ts: i64 = 0;
            let mut t: usize = 0;
            while t < n
                invariant
                    t <= n,
                    v < n,
                    n == self.n(),
                    self.wf(),
                    self.fits(),
                    d@ == dists_spec(*self, v as int, self.n() as nat),
                    d@.len() == n,
                    forall|j: int| 0 <= j < n ==> 0 <= #[trigger] d@[j] <= INF_DIST,
                    rc == reach_cnt_upto(d@, v as int, t as int),
                    ts == dist_sum_upto(d@, v as int, t as int),
                    rc <= t,
                    0 <= ts <= t * (INF_DIST as int),
                decreases n - t,
            {
                proof {
                    lemma_reach_sum_bounds(d@, v as int, t as int);
                    vstd::arithmetic::mul::lemma_mul_inequality(
                        t as int,
                        (t + 1) as int,
                        INF_DIST as int,
                    );
                }
                if t != v && d[t] < INF_DIST {
                    rc = rc + 1;
                    ts = ts + d[t];
                }
                t = t + 1;
            }
            let raw_v: i64 = if rc > 0 && ts > 0 {
                proof {
                    lemma_dists_nonsrc_pos(*self, v as int, self.n() as nat);
                    lemma_cnt_le_sum(d@, v as int, n as int);
                    vstd::arithmetic::mul::lemma_mul_nonnegative(rc as int, SCALE as int);
                    vstd::arithmetic::mul::lemma_mul_upper_bound(
                        rc as int,
                        ts as int,
                        SCALE as int,
                        SCALE as int,
                    );
                    vstd::arithmetic::div_mod::lemma_div_pos_is_pos(
                        rc as int * SCALE as int,
                        ts as int,
                    );
                    vstd::arithmetic::div_mod::lemma_div_is_ordered(
                        rc as int * SCALE as int,
                        ts as int * SCALE as int,
                        ts as int,
                    );
                    vstd::arithmetic::div_mod::lemma_div_multiples_vanish(
                        SCALE as int,
                        ts as int,
                    );
                }
                // each counted distance is at least one, so rc <= ts and the
                // ratio is at most one unit
                ((rc as i64) * SCALE) / ts
            } else {
                0
            };
            raw.push(raw_v);
            v = v + 1;
        }
        proof {
            assert(raw@ =~= closeness_raw_all(*self));
        }

        let mut mx: i64 = 0;
        let mut v: usize = 0;
        while v < n
            invariant
                v <= n,
                n == self.n(),
                raw@ == closeness_raw_all(*self),
                raw@.len() == n,
                forall|j: int| 0 <= j < n ==> 0 <= #[trigger] raw@[j] <= SCALE,
                mx == max_upto(raw@, v as int),
                0 <= mx <= SCALE,
            decreases n - v,
        {
            proof {
                lemma_max_upto_le(raw@, (v + 1) as int, SCALE as int);
            }
            if raw[v] > mx {
                mx = raw[v];
            }
            v = v + 1;
        }

        if mx > 0 {
            let mut r: Vec<i64> = Vec::new();
            let mut v: usize = 0;
            while v < n
                invariant
                    v <= n,
                    n == self.n(),
                    raw@ == closeness_raw_all(*self),
                    raw@.len() == n,
                    forall|j: int| 0 <= j < n ==> 0 <= #[trigger] raw@[j] <= SCALE,
                    0 < mx <= SCALE,
                    mx == max_upto(raw@, n as int),
                    r@.len() == v,
                    forall|j: int| 0 <= j < v ==> r@[j] == (raw@[j] * SCALE / mx as int) as i64,
                    forall|j: int| 0 <= j < v ==> 0 <= #[trigger] r@[j] <= SCALE,
                decreases n - v,
            {
                proof {
                    lemma_max_upto_ge(raw@, n as int, v as int);
                    vstd::arithmetic::mul::lemma_mul_nonnegative(raw@[v as int] as int, SCALE as int);
                    vstd::arithmetic::mul::lemma_mul_upper_bound(
                        raw@[v as int] as int,
                        mx as int,
                        SCALE as int,
                        SCALE as int,
                    );
                    vstd::arithmetic::div_mod::lemma_div_pos_is_pos(
                        raw@[v as int] as int * SCALE as int,
                        mx as int,
                    );
                    vstd::arithmetic::div_mod::lemma_div_is_ordered(
                        raw@[v as int] as int * SCALE as int,
                        mx as int * SCALE as int,
                        mx as int,
                    );
                    vstd::arithmetic::div_mod::lemma_div_multiples_vanish(SCALE as int, mx as int);
                }
                let val = (raw[v] * SCALE) / mx;
                r.push(val);
                v = v + 1;
            }
            proof {
                assert(r@ =~= closeness_spec(*self));
            }
            r
        } else {
            proof {
                assert(raw@ =~= closeness_spec(*self));
            }
            raw
        }
    }
}


/// Whether, from source `s` with distances `d`, node `mid` sits between `s`
/// and target `t`: the target is reachable at positive distance and `mid`
/// is a distinct node strictly closer to the source than the target.
pub open spec fn betw_cond(d: Seq<i64>, s: int, mid: int, t: int) -> bool {
    t != s && 0 < d[t] < INF_DIST && mid != s && mid != t && d[mid] < d[t] && d[mid] < INF_DIST
}

/// Betweenness credit of `mid` from source `s`, counting targets below `k`.
pub open spec fn credit_upto(d: Seq<i64>, s: int, mid: int, k: int) -> int
    decreases k,
{
    if k <= 0 {
        0
    } else {
        credit_upto(d, s, mid, k - 1) + if betw_cond(d, s, mid, k - 1) {
            1int
        } else {
            0int
        }
    }
}

/// Credit counts are bounded by the number of targets scanned.
pub proof fn lemma_credit_bounds(d: Seq<i64>, s: int, mid: int, k: int)
    requires
        0 <= k,
    ensures
        0 <= credit_upto(d, s, mid, k) <= k,
    decreases k,
{
    if k > 0 {
        lemma_credit_bounds(d, s, mid, k - 1);
    }
}

/// All credits from one source added onto an accumulator.
pub open spec fn betw_add_source(g: CodeGraph, acc: Seq<i64>, s: int) -> Seq<i64> {
    Seq::new(
        g.n() as nat,
        |mid: int| (acc[mid] + credit_upto(dists_spec(g, s, g.n() as nat), s, mid, g.n())) as i64,
    )
}

/// Raw betweenness credits after the first `i` sampled sources, the sources
/// being every `step`-th node.
pub open spec fn betw_rec(g: CodeGraph, i: nat, step: int) -> Seq<i64>
    decreases i,
{
    if i == 0 {
        Seq::new(g.n() as nat, |v: int| 0i64)
    } else {
        betw_add_source(g, betw_rec(g, (i - 1) as nat, step), (i - 1) * step)
    }
}

/// Raw credits stay between zero and sources-times-nodes.
pub proof fn lemma_betw_rec_bounds(g: CodeGraph, i: nat, step: int)
    requires
        i <= g.n(),
        g.n() <= 1000000,
    ensures
        betw_rec(g, i, step).len() == g.n(),
        forall|v: int|
            0 <= v < g.n() ==> 0 <= #[trigger] betw_rec(g, i, step)[v] <= i * g.n(),
    decreases i,
{
    if i != 0 {
        lemma_betw_rec_bounds(g, (i - 1) as nat, step);
        assert forall|v: int|
            0 <= v < g.n() implies 0 <= #[trigger] betw_rec(g, i, step)[v] <= i * g.n() by {
            lemma_credit_bounds(
                dists_spec(g, (i - 1) * step, g.n() as nat),
                (i - 1) * step,
                v,
                g.n(),
            );
            assert(0 <= betw_rec(g, (i - 1) as nat, step)[v] <= (i - 1) * g.n());
            assert((i as int - 1) * g.n() + g.n() == i as int * g.n()) by (nonlinear_arith);
            assert(i as int * g.n() <= 1000000000000int) by (nonlinear_arith)
                requires
                    0 <= i as int <= 1000000,
                    0 <= g.n() <= 1000000,
            ;
        }
    }
}

/// How many sources the stride sampling takes: indices `i * step` counted
/// up, stopping at the node count or at the sample limit.
pub open spec fn nsrc_rec(n: int, step: int, limit: int, i: int) -> int
    decreases limit - i,
{
    if i >= limit || i * step >= n {
        i
    } else {
        nsrc_rec(n, step, limit, i + 1)
    }
}

/// The betweenness sampling parameters: whether to sample, the stride, and
/// the cap on sources.
pub open spec fn betw_params(g: CodeGraph, use_sampling: bool, sample_size: int) -> (bool, int, int) {
    let should = use_sampling && g.n() > sample_size;
    let step = if should {
        g.n() / sample_size
    } else {
        1
    };
    let limit = if should {
        sample_size
    } else {
        g.n()
    };
    (should, step, limit)
}

/// Largest value among the first `k` entries of an integer sequence.
pub open spec fn max_int_upto(s: Seq<int>, k: int) -> int
    decreases k,
{
    if k <= 0 {
        0
    } else {
        let rest = max_int_upto(s, k - 1);
        if s[k - 1] > rest {
            s[k - 1]
        } else {
            rest
        }
    }
}

/// Betweenness centrality of all nodes: per sampled source, each node takes
/// one credit for every reachable target it sits strictly between; sampled
/// credits are scaled back by the sampled share, and the result is scaled so
/// the most-between node scores one whole unit. Graphs of at most two nodes
/// score zero everywhere.
pub open spec fn betweenness_spec(g: CodeGraph, use_sampling: bool, sample_size: int) -> Seq<i64> {
    if g.n() <= 2 {
        Seq::new(g.n() as nat, |v: int| 0i64)
    } else {
        let (should, step, limit) = betw_params(g, use_sampling, sample_size);
        let raw = betw_rec(g, nsrc_rec(g.n(), step, limit, 0) as nat, step);
        let scaled = Seq::new(
            g.n() as nat,
            |v: int| if should {
                raw[v] * g.n() / sample_size
            } else {
                raw[v] as int
            },
        );
        let mx = max_int_upto(scaled, g.n());
        if mx > 0 {
            Seq::new(g.n() as nat, |v: int| (scaled[v] * SCALE / mx) as i64)
        } else {
            Seq::new(g.n() as nat, |v: int| 0i64)
        }
    }
}

/// The integer prefix maximum dominates every counted entry.
pub proof fn lemma_max_int_upto_ge(s: Seq<int>, k: int, j: int)
    requires
        0 <= j < k,
    ensures
        max_int_upto(s, k) >= s[j],
        max_int_upto(s, k) >= 0,
    decreases k,
{
    if k > 0 {
        lemma_max_int_upto_ge_nonneg(s, k);
    }
    if j < k - 1 {
        lemma_max_int_upto_ge(s, k - 1, j);
    }
}

proof fn lemma_max_int_upto_ge_nonneg(s: Seq<int>, k: int)
    ensures
        max_int_upto(s, k) >= 0,
    decreases k,
{
    if k > 0 {
        lemma_max_int_upto_ge_nonneg(s, k - 1);
    }
}

impl CodeGraph {
    /// Betweenness centrality, sampling a stride-selected subset of sources
    /// when the graph exceeds `sample_size` and sampling is enabled; see
    /// `betweenness_spec` for the exact statement.
    #[verifier::loop_isolation(false)]
    pub fn calculate_betweenness_safe(&self, use_sampling: bool, sample_size: usize) -> (r: Vec<
        i64,
    >)
        requires
            self.wf(),
            self.fits(),
            sample_size >= 1,
        ensures
            r@ == betweenness_spec(*self, use_sampling, sample_size as int),
            r@.len() == self.n(),
            forall|v: int| 0 <= v < r@.len() ==> 0 <= #[trigger] r@[v] <= SCALE,
    {
        let n = self.nodes.len();
        if n <= 2 {
            let mut r: Vec<i64> = Vec::new();
            let mut v: usize = 0;
            while v < n
                invariant
                    v <= n,
                    n == self.n(),
                    r@.len() == v,
                    forall|j: int| 0 <= j < v ==> r@[j] == 0i64,
                decreases n - v,
            {
                r.push(0);
                v = v + 1;
            }
            proof {
                assert(r@ =~= betweenness_spec(*self, use_sampling, sample_size as int));
            }
            return r;
        }

        let should = use_sampling && n > sample_size;
        let step: usize = if should {
            n / sample_size
        } else {
            1
        };
        proof {
            if should {
                vstd::arithmetic::div_mod::lemma_div_non_zero(n as int, sample_size as int);
                vstd::arithmetic::div_mod::lemma_div_is_ordered_by_denominator(
                    n as int,
                    1,
                    sample_size as int,
                );
            }
        }
        let limit: usize = if should {
            sample_size
        } else {
            n
        };

        let mut acc: Vec<i64> = Vec::new();
        let mut v: usize = 0;
        while v < n
            invariant
                v <= n,
                n == self.n(),
                acc@.len() == v,
                forall|j: int| 0 <= j < v ==> acc@[j] == 0i64,
            decreases n - v,
        {
            acc.push(0);
            v = v + 1;
        }
        proof {
            assert(acc@ =~= betw_rec(*self, 0nat, step as int));
        }

        let mut cnt: usize = 0;
        let mut src: usize = 0;
        while cnt < limit && src < n
            invariant
                n == self.n(),
                3 <= n,
                self.wf(),
                self.fits(),
                step >= 1,
                step <= n,
                should ==> 1 <= sample_size < n,
                limit <= n,
                cnt <= limit,
                src == cnt * step,
                acc@ == betw_rec(*self, cnt as nat, step as int),
                acc@.len() == n,
                forall|j: int| 0 <= j < n ==> 0 <= #[trigger] acc@[j] <= cnt * n,
                nsrc_rec(n as int, step as int, limit as int, cnt as int) == nsrc_rec(
                    n as int,
                    step as int,
                    limit as int,
                    0,
                ),
            decreases limit - cnt,
        {
            let ghost base = acc@;
            let d = self.unit_distances(src);
            let mut t: usize = 0;
            while t < n
                invariant
                    t <= n,
                    n == self.n(),
                    n <= 1000000,
                    self.wf(),
                    self.fits(),
                    cnt < limit <= n,
                    src == cnt * step,
                    src < n,
                    d@ == dists_spec(*self, src as int, self.n() as nat),
                    d@.len() == n,
                    forall|j: int| 0 <= j < n ==> 0 <= #[trigger] d@[j] <= INF_DIST,
                    acc@.len() == n,
                    forall|mid: int|
                        0 <= mid < n ==> acc@[mid] == base[mid] + credit_upto(
                            d@,
                            src as int,
                            mid,
                            t as int,
                        ),
                    forall|j: int| 0 <= j < n ==> 0 <= #[trigger] base[j] <= cnt * n,
                decreases n - t,
            {
                if t != src && d[t] > 0 && d[t] < INF_DIST {
                    let dt = d[t];
                    let mut mid: usize = 0;
                    while mid < n
                        invariant
                            mid <= n,
                            t < n,
                            n == self.n(),
                            n <= 1000000,
                            cnt < limit <= n,
                            src < n,
                            t != src,
                            0 < dt < INF_DIST,
                            dt == d@[t as int],
                            d@.len() == n,
                            forall|j: int| 0 <= j < n ==> 0 <= #[trigger] d@[j] <= INF_DIST,
                            acc@.len() == n,
                            forall|j: int|
                                0 <= j < mid ==> acc@[j] == base[j] + credit_upto(
                                    d@,
                                    src as int,
                                    j,
                                    t as int,
                                ) + if betw_cond(d@, src as int, j, t as int) {
                                    1int
                                } else {
                                    0int
                                },
                            forall|j: int|
                                mid <= j < n ==> acc@[j] == base[j] + credit_upto(
                                    d@,
                                    src as int,
                                    j,
                                    t as int,
                                ),
                            forall|j: int| 0 <= j < n ==> 0 <= #[trigger] base[j] <= cnt * n,
                        decreases n - mid,
                    {
                        proof {
                            lemma_credit_bounds(d@, src as int, mid as int, t as int);
                            vstd::arithmetic::mul::lemma_mul_upper_bound(
                                cnt as int,
                                n as int,
                                n as int,
                                n as int,
                            );
                            assert((n as int) * (n as int) <= 1000000000000int) by (nonlinear_arith)
                                requires
                                    0 <= n as int <= 1000000,
                            ;
                        }
                        if mid != src && mid != t && d[mid] < dt && d[mid] < INF_DIST {
                            acc[mid] = acc[mid] + 1;
                        }
                        mid = mid + 1;
                    }
                } else {
                    proof {
                        assert forall|j: int|
                            0 <= j < n implies acc@[j] == base[j] + credit_upto(
                            d@,
                            src as int,
                            j,
                            (t + 1) as int,
                        ) by {
                            assert(!betw_cond(d@, src as int, j, t as int));
                        }
                    }
                }
                t = t + 1;
            }
            proof {
                assert(acc@ =~= betw_add_source(*self, base, src as int)) by {
                    assert forall|mid: int|
                        0 <= mid < n implies acc@[mid] == betw_add_source(
                        *self,
                        base,
                        src as int,
                    )[mid] by {
                        lemma_credit_bounds(d@, src as int, mid, n as int);
                    }
                }
                assert(acc@ == betw_rec(*self, (cnt + 1) as nat, step as int));
                assert forall|j: int|
                    0 <= j < n implies 0 <= #[trigger] acc@[j] <= (cnt + 1) * n by {
                    lemma_betw_rec_bounds(*self, (cnt + 1) as nat, step as int);
                }
            }
            cnt = cnt + 1;
            proof {
                assert(cnt * step == (cnt - 1) * step + step) by (nonlinear_arith);
            }
            src = src + step;
        }
        proof {
            assert(nsrc_rec(n as int, step as int, limit as int, cnt as int) == cnt as int);
        }

        // scale sampled credits back, find the maximum, and normalize
        let ghost scaled_spec = Seq::new(
            self.n() as nat,
            |v: int| if should {
                betw_rec(*self, cnt as nat, step as int)[v] * self.n() / sample_size as int
            } else {
                betw_rec(*self, cnt as nat, step as int)[v] as int
            },
        );
        let mut scaled: Vec<i64> = Vec::new();
        let mut v: usize = 0;
        while v < n
            invariant
                v <= n,
                n == self.n(),
                n <= 1000000,
                should ==> 1 <= sample_size < n,
                acc@ == betw_rec(*self, cnt as nat, step as int),
                acc@.len() == n,
                cnt <= n,
                forall|j: int| 0 <= j < n ==> 0 <= #[trigger] acc@[j] <= cnt * n,
                scaled@.len() == v,
                forall|j: int| 0 <= j < v ==> scaled@[j] == scaled_spec[j],
                forall|j: int| 0 <= j < v ==> 0 <= #[trigger] scaled@[j] <= 1000000000000000000i64,
            decreases n - v,
        {
            let a = acc[v];
            proof {
                vstd::arithmetic::mul::lemma_mul_upper_bound(
                    cnt as int,
                    n as int,
                    n as int,
                    n as int,
                );
                assert((n as int) * (n as int) <= 1000000000000int) by (nonlinear_arith)
                    requires
                        0 <= n as int <= 1000000,
                ;
                vstd::arithmetic::mul::lemma_mul_upper_bound(
                    a as int,
                    1000000000000int,
                    n as int,
                    1000000int,
                );
                vstd::arithmetic::mul::lemma_mul_nonnegative(a as int, n as int);
            }
            let sv: i64 = if should {
                let prod = a * (n as i64);
                let q = prod / (sample_size as i64);
                proof {
                    vstd::arithmetic::div_mod::lemma_div_pos_is_pos(
                        prod as int,
                        sample_size as int,
                    );
                    vstd::arithmetic::div_mod::lemma_div_is_ordered_by_denominator(
                        prod as int,
                        1,
                        sample_size as int,
                    );
                }
                q
            } else {
                a
            };
            proof {
                assert(sv == scaled_spec[v as int]);
            }
            scaled.push(sv);
            v = v + 1;
        }
        let mut mx: i64 = 0;
        let mut v: usize = 0;
        while v < n
            invariant
                v <= n,
                n == self.n(),
                scaled@.len() == n,
                forall|j: int| 0 <= j < n ==> scaled@[j] == scaled_spec[j],
                forall|j: int| 0 <= j < n ==> 0 <= #[trigger] scaled@[j] <= 1000000000000000000i64,
                mx == max_int_upto(scaled_spec, v as int),
                0 <= mx <= 1000000000000000000i64,
            decreases n - v,
        {
            if scaled[v] > mx {
                mx = scaled[v];
            }
            v = v + 1;
        }

        let mut r: Vec<i64> = Vec::new();
        let mut v: usize = 0;
        while v < n
            invariant
                v <= n,
                n == self.n(),
                scaled@.len() == n,
                forall|j: int| 0 <= j < n ==> scaled@[j] == scaled_spec[j],
                forall|j: int| 0 <= j < n ==> 0 <= #[trigger] scaled@[j] <= 1000000000000000000i64,
                mx == max_int_upto(scaled_spec, n as int),
                0 <= mx <= 1000000000000000000i64,
                r@.len() == v,
                forall|j: int|
                    0 <= j < v ==> r@[j] == if mx > 0 {
                        (scaled_spec[j] * SCALE / mx as int) as i64
                    } else {
                        0i64
                    },
                forall|j: int| 0 <= j < v ==> 0 <= #[trigger] r@[j] <= SCALE,
            decreases n - v,
        {
            if mx > 0 {
                proof {
                    lemma_max_int_upto_ge(scaled_spec, n as int, v as int);
                    vstd::arithmetic::mul::lemma_mul_nonnegative(
                        scaled@[v as int] as int,
                        SCALE as int,
                    );
                    vstd::arithmetic::mul::lemma_mul_upper_bound(
                        scaled@[v as int] as int,
                        mx as int,
                        SCALE as int,
                        SCALE as int,
                    );
                    vstd::arithmetic::div_mod::lemma_div_pos_is_pos(
                        scaled@[v as int] as int * SCALE as int,
                        mx as int,
                    );
                    vstd::arithmetic::div_mod::lemma_div_is_ordered(
                        scaled@[v as int] as int * SCALE as int,
                        mx as int * SCALE as int,
                        mx as int,
                    );
                    vstd::arithmetic::div_mod::lemma_div_multiples_vanish(SCALE as int, mx as int);
                }
                let num = (scaled[v] as i128) * (SCALE as i128);
                let val = (num / (mx as i128)) as i64;
                r.push(val);
            } else {
                r.push(0);
            }
            v = v + 1;
        }
        proof {
            assert(r@ =~= betweenness_spec(*self, use_sampling, sample_size as int));
        }
        r
    }
}


/// Whether one of the first `k` edges joins `a` and `b`, in either
/// direction.
pub open spec fn und_adj_upto(g: CodeGraph, a: int, b: int, k: int) -> bool
    decreases k,
{
    k > 0 && ({
        let e = g.edges@[k - 1];
        (e.source == a && e.target == b) || (e.source == b && e.target == a)
    } || und_adj_upto(g, a, b, k - 1))
}

/// Whether `a` and `b` are joined by an edge in either direction.
pub open spec fn spec_adjacent(g: CodeGraph, a: int, b: int) -> bool {
    und_adj_upto(g, a, b, g.m())
}

/// Whether `u` is an undirected neighbor of `v` (self-loops make no node
/// its own neighbor).
pub open spec fn is_neighbor(g: CodeGraph, v: int, u: int) -> bool {
    u != v && spec_adjacent(g, v, u)
}

/// Number of neighbors of `v` among the first `k` nodes.
pub open spec fn nb_cnt_upto(g: CodeGraph, v: int, k: int) -> int
    decreases k,
{
    if k <= 0 {
        0
    } else {
        nb_cnt_upto(g, v, k - 1) + if is_neighbor(g, v, k - 1) {
            1int
        } else {
            0int
        }
    }
}

/// Number of neighbors `j` of `v` above `i` and below `k` that are adjacent
/// to `i`.
pub open spec fn tri_row_upto(g: CodeGraph, v: int, i: int, k: int) -> int
    decreases k,
{
    if k <= 0 {
        0
    } else {
        tri_row_upto(g, v, i, k - 1) + if k - 1 > i && is_neighbor(g, v, k - 1) && spec_adjacent(
            g,
            i,
            k - 1,
        ) {
            1int
        } else {
            0int
        }
    }
}

/// Number of adjacent unordered neighbor pairs of `v` with smaller member
/// below `k`.
pub open spec fn tri_cnt_upto(g: CodeGraph, v: int, k: int) -> int
    decreases k,
{
    if k <= 0 {
        0
    } else {
        tri_cnt_upto(g, v, k - 1) + if is_neighbor(g, v, k - 1) {
            tri_row_upto(g, v, k - 1, g.n())
        } else {
            0
        }
    }
}

/// Prefix neighbor counts are bounded by the prefix length.
pub proof fn lemma_nb_cnt_bounds(g: CodeGraph, v: int, k: int)
    requires
        0 <= k,
    ensures
        0 <= nb_cnt_upto(g, v, k) <= k,
    decreases k,
{
    if k > 0 {
        lemma_nb_cnt_bounds(g, v, k - 1);
    }
}

/// Prefix pair counts are bounded by the scanned area.
pub proof fn lemma_tri_bounds(g: CodeGraph, v: int, k: int)
    requires
        0 <= k,
    ensures
        0 <= tri_cnt_upto(g, v, k) <= k * g.n(),
    decreases k,
{
    if k > 0 {
        lemma_tri_bounds(g, v, k - 1);
        lemma_tri_row_bounds(g, v, k - 1, g.n());
        assert((k - 1) * g.n() + g.n() == k * g.n()) by (nonlinear_arith);
    }
}

proof fn lemma_tri_row_bounds(g: CodeGraph, v: int, i: int, k: int)
    requires
        0 <= k,
    ensures
        0 <= tri_row_upto(g, v, i, k) <= k,
    decreases k,
{
    if k > 0 {
        lemma_tri_row_bounds(g, v, i, k - 1);
    }
}

/// Clustering coefficient of `v`: the share of its unordered neighbor pairs
/// that are themselves adjacent, clamped to the unit range; zero with fewer
/// than two neighbors.
pub open spec fn clustering_node_spec(g: CodeGraph, v: int) -> int {
    let nc = nb_cnt_upto(g, v, g.n());
    if nc < 2 {
        0
    } else {
        let tri = tri_cnt_upto(g, v, g.n());
        let poss = nc * (nc - 1) / 2;
        clamp_unit_spec(tri * SCALE / poss)
    }
}

/// Clustering coefficients of all nodes.
pub open spec fn clustering_spec(g: CodeGraph) -> Seq<i64> {
    Seq::new(g.n() as nat, |v: int| clustering_node_spec(g, v) as i64)
}

impl CodeGraph {
    /// Whether an edge joins `a` and `b` in either direction.
    pub fn adjacent(&self, a: usize, b: usize) -> (r: bool)
        ensures
            r == spec_adjacent(*self, a as int, b as int),
    {
        let m = self.edges.len();
        let mut k: usize = 0;
        let mut found = false;
        while k < m
            invariant
                k <= m,
                m == self.m(),
                found == und_adj_upto(*self, a as int, b as int, k as int),
            decreases m - k,
        {
            let e_src = self.edges[k].source;
            let e_tgt = self.edges[k].target;
            if (e_src == a && e_tgt == b) || (e_src == b && e_tgt == a) {
                found = true;
            }
            k = k + 1;
        }
        found
    }

    /// Clustering coefficient of every node; see `clustering_node_spec`.
    #[verifier::loop_isolation(false)]
    pub fn calculate_clustering(&self) -> (r: Vec<i64>)
        requires
            self.wf(),
            self.fits(),
        ensures
            r@ == clustering_spec(*self),
            r@.len() == self.n(),
            forall|v: int| 0 <= v < r@.len() ==> 0 <= #[trigger] r@[v] <= SCALE,
    {
        let n = self.nodes.len();
        let mut r: Vec<i64> = Vec::new();
        let mut v: usize = 0;
        while v < n
            invariant
                v <= n,
                r@.len() == v,
                forall|j: int| 0 <= j < v ==> r@[j] == clustering_spec(*self)[j],
                forall|j: int| 0 <= j < v ==> 0 <= #[trigger] r@[j] <= SCALE,
            decreases n - v,
        {
            // collect the neighbor flags of v
            let mut nb: Vec<bool> = Vec::new();
            let mut nc: usize = 0;
            let mut u: usize = 0;
            while u < n
                invariant
                    u <= n,
                    v < n,
                    nb@.len() == u,
                    forall|j: int| 0 <= j < u ==> nb@[j] == is_neighbor(*self, v as int, j),
                    nc == nb_cnt_upto(*self, v as int, u as int),
                    nc <= u,
                decreases n - u,
            {
                proof {
                    lemma_nb_cnt_bounds(*self, v as int, u as int);
                }
                let adj = if u != v {
                    self.adjacent(v, u)
                } else {
                    false
                };
                nb.push(adj);
                if adj {
                    nc = nc + 1;
                }
                u = u + 1;
            }

            if nc < 2 {
                r.push(0);
            } else {
                let mut tri: i64 = 0;
                let mut i: usize = 0;
                while i < n
                    invariant
                        i <= n,
                        v < n,
                        nb@.len() == n,
                        forall|j: int| 0 <= j < n ==> nb@[j] == is_neighbor(*self, v as int, j),
                        tri == tri_cnt_upto(*self, v as int, i as int),
                        tri <= i * n,
                    decreases n - i,
                {
                    proof {
                        lemma_tri_bounds(*self, v as int, i as int);
                        assert(i as int * (n as int) + n as int == (i + 1) as int * (n as int))
                            by (nonlinear_arith);
                        assert((i + 1) as int * (n as int) <= 1000000000000int) by (nonlinear_arith)
                            requires
                                0 <= (i + 1) as int <= 1000000,
                                0 <= n as int <= 1000000,
                        ;
                    }
                    if nb[i] {
                        let mut j: usize = i + 1;
                        let ghost tri0 = tri as int;
                        proof {
                            lemma_tri_row_prefix_empty(*self, v as int, i as int, i as int + 1);
                        }
                        while j < n
                            invariant
                                i < j <= n,
                                nb@.len() == n,
                                forall|q: int|
                                    0 <= q < n ==> nb@[q] == is_neighbor(*self, v as int, q),
                                tri == tri0 + tri_row_upto(*self, v as int, i as int, j as int),
                                tri0 == tri_cnt_upto(*self, v as int, i as int),
                                tri <= i * n + j,
                            decreases n - j,
                        {
                            proof {
                                lemma_tri_row_bounds(*self, v as int, i as int, j as int);
                            }
                            if nb[j] && self.adjacent(i, j) {
                                tri = tri + 1;
                            }
                            j = j + 1;
                        }
                    } else {
                        proof {
                            lemma_tri_row_bounds(*self, v as int, i as int, n as int);
                        }
                    }
                    i = i + 1;
                }
                proof {
                    lemma_nb_cnt_bounds(*self, v as int, n as int);
                    lemma_tri_bounds(*self, v as int, n as int);
                    assert((n as int) * (n as int) <= 1000000000000int) by (nonlinear_arith)
                        requires
                            0 <= n as int <= 1000000,
                    ;
                    assert(tri as int <= 1000000000000int);
                    vstd::arithmetic::mul::lemma_mul_nonnegative(tri as int, SCALE as int);
                    vstd::arithmetic::mul::lemma_mul_nonnegative(nc as int, nc as int - 1);
                    assert(2 <= nc as int * (nc as int - 1) <= 1000000000000int)
                        by (nonlinear_arith)
                        requires
                            2 <= nc as int <= 1000000,
                    ;
                    vstd::arithmetic::div_mod::lemma_div_pos_is_pos(
                        nc as int * (nc as int - 1),
                        2,
                    );
                    assert(tri as int * SCALE as int <= 1000000000000000000int) by (nonlinear_arith)
                        requires
                            0 <= tri as int <= 1000000000000int,
                    ;
                }
                let poss = (nc as i64) * ((nc - 1) as i64) / 2;
                let val = clamp_unit((tri * SCALE) / poss);
                r.push(val);
            }
            v = v + 1;
        }
        proof {
            assert(r@ =~= clustering_spec(*self));
        }
        r
    }
}

/// A row scan that starts at or before its own diagonal counts nothing.
proof fn lemma_tri_row_prefix_empty(g: CodeGraph, v: int, i: int, k: int)
    requires
        0 <= k,
        k <= i + 1,
    ensures
        tri_row_upto(g, v, i, k) == 0,
    decreases k,
{
    if k > 0 {
        lemma_tri_row_prefix_empty(g, v, i, k - 1);
    }
}


/// Degree of `v` counted among the first `k` edges whose other endpoint is
/// still alive; a surviving self-loop counts once in each direction.
pub open spec fn alive_deg_upto(g: CodeGraph, alive: Seq<bool>, v: int, k: int) -> int
    decreases k,
{
    if k <= 0 {
        0
    } else {
        alive_deg_upto(g, alive, v, k - 1) + {
            let e = g.edges@[k - 1];
            (if e.source == v && alive[e.target as int] {
                1int
            } else {
                0int
            }) + (if e.target == v && alive[e.source as int] {
                1int
            } else {
                0int
            })
        }
    }
}

/// Whether any of the first `k` flags is set.
pub open spec fn any_upto(s: Seq<bool>, k: int) -> bool
    decreases k,
{
    k > 0 && (s[k - 1] || any_upto(s, k - 1))
}

/// Scanning any prefix sees only the entries below it.
pub proof fn lemma_any_upto_congruence(s1: Seq<bool>, s2: Seq<bool>, k: int)
    requires
        forall|j: int| 0 <= j < k ==> s1[j] == s2[j],
    ensures
        any_upto(s1, k) == any_upto(s2, k),
    decreases k,
{
    if k > 0 {
        lemma_any_upto_congruence(s1, s2, k - 1);
    }
}

/// The peeling state: which nodes are still in the working graph, the
/// current shell index, the recorded coreness values, and whether peeling
/// has finished.
pub open spec fn kcore_init(n: int) -> (Seq<bool>, int, Seq<i64>, bool) {
    (Seq::new(n as nat, |v: int| true), 0int, Seq::new(n as nat, |v: int| 0i64), false)
}

/// One peeling pass: strip every alive node whose remaining degree is at
/// most the current shell index, recording the index as its coreness; when
/// a pass strips nothing, raise the index, or finish if nothing is left.
pub open spec fn kcore_step(g: CodeGraph, st: (Seq<bool>, int, Seq<i64>, bool)) -> (
    Seq<bool>,
    int,
    Seq<i64>,
    bool,
) {
    let (alive, k, core, done) = st;
    if done {
        st
    } else {
        let marks = Seq::new(g.n() as nat, |v: int| alive[v] && alive_deg_upto(g, alive, v, g.m()) <= k);
        if any_upto(marks, g.n()) {
            (
                Seq::new(g.n() as nat, |v: int| alive[v] && !marks[v]),
                k,
                Seq::new(g.n() as nat, |v: int| if marks[v] {
                    k as i64
                } else {
                    core[v]
                }),
                false,
            )
        } else {
            if any_upto(alive, g.n()) {
                (alive, k + 1, core, false)
            } else {
                (alive, k, core, true)
            }
        }
    }
}

/// The peeling state after `it` passes.
pub open spec fn kcore_iter(g: CodeGraph, it: nat) -> (Seq<bool>, int, Seq<i64>, bool)
    decreases it,
{
    if it == 0 {
        kcore_init(g.n())
    } else {
        kcore_step(g, kcore_iter(g, (it - 1) as nat))
    }
}

/// Coreness of every node: the node count's worth of peeling passes, with
/// the survivors taking the final shell index.
pub open spec fn k_core_spec(g: CodeGraph) -> Seq<i64> {
    let (alive, k, core, done) = kcore_iter(g, g.n() as nat);
    Seq::new(g.n() as nat, |v: int| if alive[v] {
        k as i64
    } else {
        core[v]
    })
}

/// The peeling state is well-formed and its numbers bounded by the pass
/// count.
pub proof fn lemma_kcore_iter_wf(g: CodeGraph, it: nat)
    requires
        it <= 1000000,
    ensures
        kcore_iter(g, it).0.len() == g.n(),
        kcore_iter(g, it).2.len() == g.n(),
        0 <= kcore_iter(g, it).1 <= it,
        forall|v: int| 0 <= v < g.n() ==> 0 <= #[trigger] kcore_iter(g, it).2[v] <= it,
    decreases it,
{
    if it != 0 {
        lemma_kcore_iter_wf(g, (it - 1) as nat);
    }
}

impl CodeGraph {
    /// K-core decomposition by iterative peeling; see `k_core_spec`. Every
    /// coreness is between zero and the node count.
    #[verifier::loop_isolation(false)]
    pub fn calculate_k_core(&self) -> (r: Vec<i64>)
        requires
            self.wf(),
            self.fits(),
        ensures
            r@ == k_core_spec(*self),
            r@.len() == self.n(),
            forall|v: int| 0 <= v < r@.len() ==> 0 <= #[trigger] r@[v] <= self.n(),
    {
        let n = self.nodes.len();
        let m = self.edges.len();
        let mut alive: Vec<bool> = Vec::new();
        let mut core: Vec<i64> = Vec::new();
        let mut k: i64 = 0;
        let mut done = false;
        let mut v: usize = 0;
        while v < n
            invariant
                v <= n,
                alive@.len() == v,
                core@.len() == v,
                forall|j: int| 0 <= j < v ==> alive@[j],
                forall|j: int| 0 <= j < v ==> core@[j] == 0i64,
            decreases n - v,
        {
            alive.push(true);
            core.push(0);
            v = v + 1;
        }
        proof {
            assert(alive@ =~= kcore_init(n as int).0);
            assert(core@ =~= kcore_init(n as int).2);
        }

        let mut it: usize = 0;
        while it < n
            invariant
                it <= n,
                (alive@, k as int, core@, done) == kcore_iter(*self, it as nat),
                alive@.len() == n,
                core@.len() == n,
                0 <= k <= it,
                forall|j: int| 0 <= j < n ==> 0 <= #[trigger] core@[j] <= it,
            decreases n - it,
        {
            let ghost st = (alive@, k as int, core@, done);
            if !done {
                // find the alive nodes whose remaining degree is at most k
                let mut marks: Vec<bool> = Vec::new();
                let mut any_mark = false;
                let mut v: usize = 0;
                while v < n
                    invariant
                        v <= n,
                        alive@ == st.0,
                        marks@.len() == v,
                        forall|j: int|
                            0 <= j < v ==> marks@[j] == (st.0[j] && alive_deg_upto(
                                *self,
                                st.0,
                                j,
                                self.m(),
                            ) <= st.1),
                        any_mark == any_upto(marks@, v as int),
                    decreases n - v,
                {
                    let mut deg: i64 = 0;
                    let mut e: usize = 0;
                    while e < m
                        invariant
                            e <= m,
                            v < n,
                            alive@ == st.0,
                            deg == alive_deg_upto(*self, st.0, v as int, e as int),
                            0 <= deg <= 2 * e,
                        decreases m - e,
                    {
                        let src = self.edges[e].source;
                        let tgt = self.edges[e].target;
                        if src == v && alive[tgt] {
                            deg = deg + 1;
                        }
                        if tgt == v && alive[src] {
                            deg = deg + 1;
                        }
                        e = e + 1;
                    }
                    let mk = alive[v] && deg <= k;
                    proof {
                        lemma_any_upto_congruence(marks@.push(mk), marks@, v as int);
                    }
                    marks.push(mk);
                    if mk {
                        any_mark = true;
                    }
                    v = v + 1;
                }
                let ghost marks_spec = Seq::new(
                    self.n() as nat,
                    |j: int| st.0[j] && alive_deg_upto(*self, st.0, j, self.m()) <= st.1,
                );
                proof {
                    assert(marks@ =~= marks_spec);
                }

                if any_mark {
                    let mut new_alive: Vec<bool> = Vec::new();
                    let mut new_core: Vec<i64> = Vec::new();
                    let mut v: usize = 0;
                    while v < n
                        invariant
                            v <= n,
                            alive@ == st.0,
                            core@ == st.2,
                            marks@.len() == n,
                            forall|j: int|
                                0 <= j < n ==> marks@[j] == (st.0[j] && alive_deg_upto(
                                    *self,
                                    st.0,
                                    j,
                                    self.m(),
                                ) <= st.1),
                            new_alive@.len() == v,
                            new_core@.len() == v,
                            forall|j: int|
                                0 <= j < v ==> new_alive@[j] == (st.0[j] && !marks@[j]),
                            forall|j: int|
                                0 <= j < v ==> new_core@[j] == if marks@[j] {
                                    k
                                } else {
                                    st.2[j]
                                },
                        decreases n - v,
                    {
                        new_alive.push(alive[v] && !marks[v]);
                        if marks[v] {
                            new_core.push(k);
                        } else {
                            new_core.push(core[v]);
                        }
                        v = v + 1;
                    }
                    alive = new_alive;
                    core = new_core;
                    proof {
                        assert(alive@ =~= kcore_step(*self, st).0);
                        assert(core@ =~= kcore_step(*self, st).2);
                    }
                } else {
                    // nothing was stripped: raise the shell index, or stop
                    // when the working graph is empty
                    let mut any_alive = false;
                    let mut v: usize = 0;
                    while v < n
                        invariant
                            v <= n,
                            alive@ == st.0,
                            any_alive == any_upto(st.0, v as int),
                        decreases n - v,
                    {
                        if alive[v] {
                            any_alive = true;
                        }
                        v = v + 1;
                    }
                    if any_alive {
                        k = k + 1;
                    } else {
                        done = true;
                    }
                }
            }
            it = it + 1;
        }

        let mut r: Vec<i64> = Vec::new();
        let mut v: usize = 0;
        while v < n
            invariant
                v <= n,
                r@.len() == v,
                forall|j: int| 0 <= j < v ==> r@[j] == k_core_spec(*self)[j],
                forall|j: int| 0 <= j < v ==> 0 <= #[trigger] r@[j] <= n,
            decreases n - v,
        {
            if alive[v] {
                r.push(k);
            } else {
                r.push(core[v]);
            }
            v = v + 1;
        }
        proof {
            assert(r@ =~= k_core_spec(*self));
        }
        r
    }
}


/// Cap on a sanitized weight entering the adjacency accumulation.
pub const EIG_W_CAP: i64 = 1_000_000_000;

/// Saturation bound for one adjacency-times-vector entry.
pub const EIG_Y_CAP: i64 = 1_000_000_000_000_000;

/// The sanitized, capped weight of an edge for the eigenvector iteration.
pub open spec fn eig_w(e: crate::graph::Edge) -> int {
    min_int(e.weight.spec_sane(), EIG_W_CAP as int)
}

/// One row of the adjacency-times-vector product for node `v`, over the
/// first `k` edges, saturated at `EIG_Y_CAP`; self-loops are excluded.
pub open spec fn eig_row_upto(g: CodeGraph, x: Seq<i64>, v: int, k: int) -> int
    decreases k,
{
    if k <= 0 {
        0
    } else {
        let rest = eig_row_upto(g, x, v, k - 1);
        let e = g.edges@[k - 1];
        if e.source == v && e.target != v {
            let t = rest + eig_w(e) * x[e.target as int] / (SCALE as int);
            if t > EIG_Y_CAP {
                EIG_Y_CAP as int
            } else {
                t
            }
        } else {
            rest
        }
    }
}

/// Row sums are bounded by the saturation cap when the vector is a unit
/// vector.
pub proof fn lemma_eig_row_bounds(g: CodeGraph, x: Seq<i64>, v: int, k: int)
    requires
        0 <= k <= g.m(),
        g.wf(),
        x.len() == g.n(),
        forall|j: int| 0 <= j < g.n() ==> 0 <= #[trigger] x[j] <= SCALE,
    ensures
        0 <= eig_row_upto(g, x, v, k) <= EIG_Y_CAP,
    decreases k,
{
    if k > 0 {
        lemma_eig_row_bounds(g, x, v, k - 1);
        let e = g.edges@[k - 1];
        if e.source == v && e.target != v {
            assert(0 <= eig_w(e) * x[e.target as int] <= 1000000000000000int) by (nonlinear_arith)
                requires
                    0 <= eig_w(e) <= 1000000000int,
                    0 <= x[e.target as int] <= 1000000int,
            ;
            vstd::arithmetic::div_mod::lemma_div_pos_is_pos(
                eig_w(e) * x[e.target as int],
                SCALE as int,
            );
        }
    }
}

/// State of the power iteration: the current vector, the previous
/// eigenvalue estimate, and a mode (0 running, 1 converged, 2 fallback).
pub open spec fn eig_step(g: CodeGraph, s: (Seq<i64>, int, int)) -> (Seq<i64>, int, int) {
    if s.2 != 0 {
        s
    } else {
        let y = Seq::new(g.n() as nat, |v: int| eig_row_upto(g, s.0, v, g.m()) as i64);
        let ev = max_upto(y, g.n());
        if ev > 0 {
            let x2 = Seq::new(g.n() as nat, |v: int| (y[v] * SCALE / ev) as i64);
            if ev == s.1 {
                (x2, ev, 1)
            } else {
                (x2, ev, 0)
            }
        } else {
            (s.0, s.1, 2)
        }
    }
}

/// The power-iteration state after `it` steps, from the uniform vector.
pub open spec fn eig_iter(g: CodeGraph, it: nat) -> (Seq<i64>, int, int)
    decreases it,
{
    if it == 0 {
        (Seq::new(g.n() as nat, |v: int| ((SCALE as int) / g.n()) as i64), 0int, 0int)
    } else {
        eig_step(g, eig_iter(g, (it - 1) as nat))
    }
}

/// Whether any of the first `k` edges joins two distinct nodes.
pub open spec fn has_proper_edge_upto(g: CodeGraph, k: int) -> bool
    decreases k,
{
    k > 0 && (g.edges@[k - 1].source != g.edges@[k - 1].target || has_proper_edge_upto(g, k - 1))
}

/// Eigenvector centrality of all nodes: power iteration on the sanitized
/// weighted adjacency (self-loops excluded), each round normalized by its
/// largest entry, stopping when the eigenvalue estimate repeats. A graph of
/// at most one node scores one whole unit; a graph without proper edges
/// scores one `n`-th everywhere; if the eigenvalue estimate vanishes the
/// result falls back to total degree centrality.
pub open spec fn eigenvector_spec(g: CodeGraph, max_iters: nat) -> Seq<i64> {
    if g.n() <= 1 {
        Seq::new(g.n() as nat, |v: int| SCALE)
    } else if !has_proper_edge_upto(g, g.m()) {
        Seq::new(g.n() as nat, |v: int| ((SCALE as int) / g.n()) as i64)
    } else {
        let s = eig_iter(g, max_iters);
        if s.2 == 2 {
            Seq::new(g.n() as nat, |v: int| degree_spec(g, v).total_degree)
        } else {
            s.0
        }
    }
}
impl CodeGraph {
    /// Eigenvector centrality; see `eigenvector_spec` for the exact
    /// statement.
    #[verifier::loop_isolation(false)]
    pub fn calculate_eigenvector(&self, max_iters: usize) -> (r: Vec<i64>)
        requires
            self.wf(),
            self.fits(),
            max_iters <= 1000000,
        ensures
            r@ == eigenvector_spec(*self, max_iters as nat),
            r@.len() == self.n(),
            forall|v: int| 0 <= v < r@.len() ==> 0 <= #[trigger] r@[v] <= SCALE,
    {
        let n = self.nodes.len();
        let m = self.edges.len();
        if n <= 1 {
            let mut r: Vec<i64> = Vec::new();
            let mut v: usize = 0;
            while v < n
                invariant
                    v <= n,
                    r@.len() == v,
                    forall|j: int| 0 <= j < v ==> r@[j] == SCALE,
                decreases n - v,
            {
                r.push(SCALE);
                v = v + 1;
            }
            proof {
                assert(r@ =~= eigenvector_spec(*self, max_iters as nat));
            }
            return r;
        }

        let mut has_edges = false;
        let mut k: usize = 0;
        while k < m
            invariant
                k <= m,
                has_edges == has_proper_edge_upto(*self, k as int),
            decreases m - k,
        {
            if self.edges[k].source != self.edges[k].target {
                has_edges = true;
            }
            k = k + 1;
        }
        proof {
            vstd::arithmetic::div_mod::lemma_div_pos_is_pos(SCALE as int, n as int);
            vstd::arithmetic::div_mod::lemma_div_is_ordered_by_denominator(
                SCALE as int,
                1,
                n as int,
            );
        }
        if !has_edges {
            let mut r: Vec<i64> = Vec::new();
            let uniform = SCALE / (n as i64);
            let mut v: usize = 0;
            while v < n
                invariant
                    v <= n,
                    uniform == (SCALE as int) / (n as int),
                    r@.len() == v,
                    forall|j: int| 0 <= j < v ==> r@[j] == (((SCALE as int) / (n as int)) as i64),
                decreases n - v,
            {
                r.push(uniform);
                v = v + 1;
            }
            proof {
                assert(r@ =~= eigenvector_spec(*self, max_iters as nat));
            }
            return r;
        }

        let mut x: Vec<i64> = Vec::new();
        let uniform = SCALE / (n as i64);
        let mut v: usize = 0;
        while v < n
            invariant
                v <= n,
                uniform == (SCALE as int) / (n as int),
                x@.len() == v,
                forall|j: int| 0 <= j < v ==> x@[j] == (((SCALE as int) / (n as int)) as i64),
            decreases n - v,
        {
            x.push(uniform);
            v = v + 1;
        }
        let mut prev_ev: i64 = 0;
        let mut mode: u8 = 0;
        proof {
            assert(x@ =~= eig_iter(*self, 0nat).0);
        }

        let mut it: usize = 0;
        while it < max_iters
            invariant
                it <= max_iters,
                (x@, prev_ev as int, mode as int) == eig_iter(*self, it as nat),
                x@.len() == n,
                forall|j: int| 0 <= j < n ==> 0 <= #[trigger] x@[j] <= SCALE,
                prev_ev >= 0,
            decreases max_iters - it,
        {
            let ghost st = (x@, prev_ev as int, mode as int);
            if mode == 0 {
                let mut y: Vec<i64> = Vec::new();
                let mut v: usize = 0;
                while v < n
                    invariant
                        v <= n,
                        x@ == st.0,
                        y@.len() == v,
                        forall|j: int|
                            0 <= j < v ==> y@[j] == (eig_row_upto(*self, st.0, j, self.m()) as i64),
                        forall|j: int| 0 <= j < v ==> 0 <= #[trigger] y@[j] <= EIG_Y_CAP,
                    decreases n - v,
                {
                    let mut acc: i64 = 0;
                    let mut k: usize = 0;
                    while k < m
                        invariant
                            k <= m,
                            v < n,
                            x@ == st.0,
                            acc == eig_row_upto(*self, st.0, v as int, k as int),
                            0 <= acc <= EIG_Y_CAP,
                        decreases m - k,
                    {
                        let e_src = self.edges[k].source;
                        let e_tgt = self.edges[k].target;
                        if e_src == v && e_tgt != v {
                            let w = self.edges[k].weight.sane();
                            let wc = if w > EIG_W_CAP {
                                EIG_W_CAP
                            } else {
                                w
                            };
                            proof {
                                assert(0 <= wc as int * x@[e_tgt as int] <= 1000000000000000int)
                                    by (nonlinear_arith)
                                    requires
                                        0 <= wc as int <= 1000000000int,
                                        0 <= x@[e_tgt as int] <= 1000000int,
                                ;
                                vstd::arithmetic::div_mod::lemma_div_pos_is_pos(
                                    wc as int * x@[e_tgt as int],
                                    SCALE as int,
                                );
                            }
                            let term = wc * x[e_tgt] / SCALE;
                            let t = acc + term;
                            if t > EIG_Y_CAP {
                                acc = EIG_Y_CAP;
                            } else {
                                acc = t;
                            }
                        }
                        k = k + 1;
                    }
                    y.push(acc);
                    v = v + 1;
                }
                let ghost yspec = Seq::new(
                    self.n() as nat,
                    |j: int| eig_row_upto(*self, st.0, j, self.m()) as i64,
                );
                proof {
                    assert(y@ =~= yspec);
                }

                let mut ev: i64 = 0;
                let mut v: usize = 0;
                while v < n
                    invariant
                        v <= n,
                        y@ == yspec,
                        ev == max_upto(yspec, v as int),
                        0 <= ev <= EIG_Y_CAP,
                    decreases n - v,
                {
                    if y[v] > ev {
                        ev = y[v];
                    }
                    v = v + 1;
                }

                if ev > 0 {
                    let mut x2: Vec<i64> = Vec::new();
                    let mut v: usize = 0;
                    while v < n
                        invariant
                            v <= n,
                            y@ == yspec,
                            0 < ev <= EIG_Y_CAP,
                            ev == max_upto(yspec, n as int),
                            x2@.len() == v,
                            forall|j: int|
                                0 <= j < v ==> x2@[j] == ((yspec[j] * SCALE / ev as int) as i64),
                            forall|j: int| 0 <= j < v ==> 0 <= #[trigger] x2@[j] <= SCALE,
                        decreases n - v,
                    {
                        proof {
                            lemma_max_upto_ge(yspec, n as int, v as int);
                            vstd::arithmetic::mul::lemma_mul_nonnegative(
                                y@[v as int] as int,
                                SCALE as int,
                            );
                            vstd::arithmetic::mul::lemma_mul_upper_bound(
                                y@[v as int] as int,
                                ev as int,
                                SCALE as int,
                                SCALE as int,
                            );
                            vstd::arithmetic::div_mod::lemma_div_pos_is_pos(
                                y@[v as int] as int * SCALE as int,
                                ev as int,
                            );
                            vstd::arithmetic::div_mod::lemma_div_is_ordered(
                                y@[v as int] as int * SCALE as int,
                                ev as int * SCALE as int,
                                ev as int,
                            );
                            vstd::arithmetic::div_mod::lemma_div_multiples_vanish(
                                SCALE as int,
                                ev as int,
                            );
                        }
                        let num = (y[v] as i128) * (SCALE as i128);
                        let val = (num / (ev as i128)) as i64;
                        x2.push(val);
                        v = v + 1;
                    }
                    x = x2;
                    if ev == prev_ev {
                        mode = 1;
                    }
                    prev_ev = ev;
                    proof {
                        assert(x@ =~= eig_step(*self, st).0);
                    }
                } else {
                    mode = 2;
                }
            }
            it = it + 1;
        }

        let ghost fin = eig_iter(*self, max_iters as nat);
        if mode == 2 {
            let degs = self.calculate_degree_centrality();
            let mut r: Vec<i64> = Vec::new();
            let mut v: usize = 0;
            while v < n
                invariant
                    v <= n,
                    degs@.len() == n,
                    forall|j: int| 0 <= j < n ==> degs@[j] == degree_spec(*self, j),
                    r@.len() == v,
                    forall|j: int| 0 <= j < v ==> r@[j] == degree_spec(*self, j).total_degree,
                    forall|j: int| 0 <= j < v ==> 0 <= #[trigger] r@[j] <= SCALE,
                decreases n - v,
            {
                proof {
                    crate::fixed::lemma_clamp_unit_bounds(
                        (self.spec_in_degree(v as int) + self.spec_out_degree(v as int)) * SCALE
                            / (2 * (self.n() - 1)),
                    );
                }
                r.push(degs[v].total_degree);
                v = v + 1;
            }
            proof {
                assert(r@ =~= eigenvector_spec(*self, max_iters as nat));
            }
            r
        } else {
            proof {
                assert(x@ =~= eigenvector_spec(*self, max_iters as nat));
            }
            x
        }
    }
}


/// Configuration of the centrality module.
#[derive(Debug, Clone, PartialEq, Eq, Structural)]
pub struct CentralityMetrics {
    /// Iteration budget for PageRank and the power iteration.
    pub max_iterations: usize,
    /// PageRank damping factor, in fixed point.
    pub damping: i64,
    /// Whether betweenness samples sources on large graphs.
    pub use_sampling: bool,
    /// Betweenness source budget when sampling.
    pub sample_size: usize,
}

/// All centrality results, each vector aligned with the node order (the
/// degree vector is empty for graphs of at most one node).
#[derive(Debug, Clone)]
pub struct CentralityResults {
    pub degree: Vec<DegreeMetrics>,
    pub pagerank: Vec<i64>,
    pub betweenness: Vec<i64>,
    pub closeness: Vec<i64>,
    pub eigenvector: Vec<i64>,
    pub k_core: Vec<i64>,
    pub clustering: Vec<i64>,
    /// Log entries of failed sub-metrics; in this build every sub-metric
    /// is total, so the log stays empty.
    pub errors: Vec<String>,
}

/// The default PageRank damping factor, 0.85 in fixed point.
pub const PAGERANK_DAMPING: i64 = 850_000;

impl CentralityMetrics {
    /// The default configuration: a hundred iterations at 0.85 damping,
    /// sampling enabled with a thousand sources.
    pub fn new() -> (r: Self)
        ensures
            r.max_iterations == 100,
            r.damping == PAGERANK_DAMPING,
            r.use_sampling == true,
            r.sample_size == 1000,
            r.valid(),
    {
        CentralityMetrics {
            max_iterations: 100,
            damping: PAGERANK_DAMPING,
            use_sampling: true,
            sample_size: 1000,
        }
    }

    /// Whether this configuration is usable: a positive sample budget, a
    /// bounded iteration budget, and a unit-range damping factor.
    pub open spec fn valid(self) -> bool {
        self.sample_size >= 1 && self.max_iterations <= 1000000 && 0 <= self.damping <= SCALE
    }

    /// Calculate every centrality metric of the graph.
    pub fn calculate_all(&self, g: &CodeGraph) -> (r: CentralityResults)
        requires
            g.wf(),
            g.fits(),
            self.valid(),
        ensures
            r.degree@.len() == if g.n() <= 1 { 0int } else { g.n() },
            forall|v: int| 0 <= v < r.degree@.len() ==> r.degree@[v] == degree_spec(*g, v),
            r.pagerank@ == crate::graph::pagerank_spec(
                *g,
                self.max_iterations as nat,
                self.damping as int,
            ),
            r.betweenness@ == betweenness_spec(*g, self.use_sampling, self.sample_size as int),
            r.closeness@ == closeness_spec(*g),
            r.eigenvector@ == eigenvector_spec(*g, self.max_iterations as nat),
            r.k_core@ == k_core_spec(*g),
            r.clustering@ == clustering_spec(*g),
            forall|v: int| 0 <= v < r.pagerank@.len() ==> 0 <= #[trigger] r.pagerank@[v] <= SCALE,
            forall|v: int|
                0 <= v < r.betweenness@.len() ==> 0 <= #[trigger] r.betweenness@[v] <= SCALE,
            forall|v: int| 0 <= v < r.closeness@.len() ==> 0 <= #[trigger] r.closeness@[v] <= SCALE,
            forall|v: int|
                0 <= v < r.clustering@.len() ==> 0 <= #[trigger] r.clustering@[v] <= SCALE,
            forall|v: int|
                0 <= v < r.eigenvector@.len() ==> 0 <= #[trigger] r.eigenvector@[v] <= SCALE,
            forall|v: int|
                0 <= v < r.degree@.len() ==> 0 <= (#[trigger] r.degree@[v]).in_degree <= SCALE && 0
                    <= r.degree@[v].out_degree <= SCALE && 0 <= r.degree@[v].total_degree <= SCALE,
            r.errors@.len() == 0,
    {
        CentralityResults {
            degree: g.calculate_degree_centrality(),
            pagerank: g.calculate_pagerank(self.max_iterations, self.damping),
            betweenness: g.calculate_betweenness_safe(self.use_sampling, self.sample_size),
            closeness: g.calculate_closeness(),
            eigenvector: g.calculate_eigenvector(self.max_iterations),
            k_core: g.calculate_k_core(),
            clustering: g.calculate_clustering(),
            errors: Vec::new(),
        }
    }
}

} // verus!
