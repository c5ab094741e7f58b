//! Community detection: a Louvain-style local-move pass loop over sanitized
//! edge weights, contiguous renumbering, an independent modularity score,
//! cluster sizes sorted by descending size, and per-node refactoring
//! boundary scores.
use vstd::prelude::*;

use crate::fixed::SCALE;
use crate::fixed::clamp_unit;
use crate::fixed::clamp_unit_spec;
use crate::graph::CodeGraph;

verus! {

/// Sum of the sanitized weights of the first `k` edges.
pub open spec fn sane_sum_upto(g: CodeGraph, k: int) -> int
    decreases k,
{
    if k <= 0 {
        0
    } else {
        sane_sum_upto(g, k - 1) + g.edges@[k - 1].weight.spec_sane()
    }
}

/// The prefix weight sum is nonnegative and linearly bounded.
pub proof fn lemma_sane_sum_bounds(g: CodeGraph, k: int)
    requires
        0 <= k,
    ensures
        sane_sum_upto(g, k) >= 0,
        sane_sum_upto(g, k) <= k * 0x7fff_ffff_ffff_ffff,
    decreases k,
{
    if k > 0 {
        lemma_sane_sum_bounds(g, k - 1);
        vstd::arithmetic::mul::lemma_mul_inequality(k - 1, k, 0x7fff_ffff_ffff_ffff);
    }
}

/// Sanitized weight of node `v` toward community `cand`, over the first `k`
/// edges: outgoing edges whose target sits in `cand` plus incoming edges
/// whose source sits in `cand`.
pub open spec fn ki_in_upto(g: CodeGraph, comms: Seq<usize>, v: int, cand: int, k: int) -> int
    decreases k,
{
    if k <= 0 {
        0
    } else {
        ki_in_upto(g, comms, v, cand, k - 1) + {
            let e = g.edges@[k - 1];
            (if e.source == v && comms[e.target as int] == cand {
                e.weight.spec_sane()
            } else {
                0
            }) + (if e.target == v && comms[e.source as int] == cand {
                e.weight.spec_sane()
            } else {
                0
            })
        }
    }
}

/// Total sanitized incident weight of node `v` over the first `k` edges.
pub open spec fn ki_upto(g: CodeGraph, v: int, k: int) -> int
    decreases k,
{
    if k <= 0 {
        0
    } else {
        ki_upto(g, v, k - 1) + {
            let e = g.edges@[k - 1];
            (if e.source == v {
                e.weight.spec_sane()
            } else {
                0
            }) + (if e.target == v {
                e.weight.spec_sane()
            } else {
                0
            })
        }
    }
}

/// Sanitized weight incident to community `cand` over the first `k` edges
/// (each edge counted once when either endpoint sits in the community).
pub open spec fn sigma_upto(g: CodeGraph, comms: Seq<usize>, cand: int, k: int) -> int
    decreases k,
{
    if k <= 0 {
        0
    } else {
        sigma_upto(g, comms, cand, k - 1) + {
            let e = g.edges@[k - 1];
            if comms[e.source as int] == cand || comms[e.target as int] == cand {
                e.weight.spec_sane()
            } else {
                0
            }
        }
    }
}

/// The directed prefix sums stay within twice resp. once the prefix weight.
pub proof fn lemma_comm_sums_bounded(g: CodeGraph, comms: Seq<usize>, v: int, cand: int, k: int)
    requires
        0 <= k,
    ensures
        0 <= ki_in_upto(g, comms, v, cand, k) <= 2 * sane_sum_upto(g, k),
        0 <= ki_upto(g, v, k) <= 2 * sane_sum_upto(g, k),
        0 <= sigma_upto(g, comms, cand, k) <= sane_sum_upto(g, k),
    decreases k,
{
    if k > 0 {
        lemma_comm_sums_bounded(g, comms, v, cand, k - 1);
    }
}

/// The modularity gain of moving `v` into `cand`: the weight share toward
/// the candidate, minus the resolution-scaled product of the candidate's
/// incident-weight share and the node's own incident-weight share.
pub open spec fn gain_spec(g: CodeGraph, comms: Seq<usize>, v: int, cand: int, res: int) -> int {
    let total = sane_sum_upto(g, g.m());
    let ki_in_ratio = ki_in_upto(g, comms, v, cand, g.m()) * SCALE / total;
    let sigma_ratio = sigma_upto(g, comms, cand, g.m()) * SCALE / total;
    let ki_ratio = ki_upto(g, v, g.m()) * SCALE / total;
    ki_in_ratio - res * (sigma_ratio * ki_ratio / (SCALE as int)) / (SCALE as int)
}

/// Best strictly-improving move for `v`, scanning candidate communities in
/// edge order over the first `k` edges: the pair of the best community and
/// its gain, starting from the node's own community at gain zero.
pub open spec fn best_move_upto(
    g: CodeGraph,
    comms: Seq<usize>,
    v: int,
    res: int,
    k: int,
) -> (usize, int)
    decreases k,
{
    if k <= 0 {
        (comms[v], 0)
    } else {
        let prev = best_move_upto(g, comms, v, res, k - 1);
        let e = g.edges@[k - 1];
        let cand: usize = if e.source == v {
            comms[e.target as int]
        } else if e.target == v {
            comms[e.source as int]
        } else {
            comms[v]
        };
        if cand != comms[v] {
            let gain = gain_spec(g, comms, v, cand as int, res);
            if gain > prev.1 {
                (cand, gain)
            } else {
                prev
            }
        } else {
            prev
        }
    }
}

/// One Louvain pass over the first `i` nodes, moving each to its best
/// strictly-positive-gain neighboring community in turn; the flag records
/// whether any node moved.
pub open spec fn pass_upto(g: CodeGraph, comms: Seq<usize>, res: int, i: int) -> (Seq<usize>, bool)
    decreases i,
{
    if i <= 0 {
        (comms, false)
    } else {
        let (c1, imp) = pass_upto(g, comms, res, i - 1);
        let mv = best_move_upto(g, c1, i - 1, res, g.m());
        if mv.0 != c1[i - 1] && mv.1 > 0 {
            (c1.update(i - 1, mv.0), true)
        } else {
            (c1, imp)
        }
    }
}

/// The pass loop: run passes while one still moves a node, at most
/// `iters_left` more times.
pub open spec fn louvain_loop(g: CodeGraph, comms: Seq<usize>, res: int, iters_left: nat) -> Seq<
    usize,
>
    decreases iters_left,
{
    if iters_left == 0 {
        comms
    } else {
        let (c1, imp) = pass_upto(g, comms, res, g.n());
        if imp {
            louvain_loop(g, c1, res, (iters_left - 1) as nat)
        } else {
            c1
        }
    }
}

/// Each node starts in its own singleton community.
pub open spec fn singleton_comms(n: int) -> Seq<usize> {
    Seq::new(n as nat, |v: int| v as usize)
}

/// Contiguous renumbering state over the first `k` nodes: the renumbered
/// prefix, the assignment of old ids seen so far, and the next fresh id.
pub open spec fn renum_upto(comms: Seq<usize>, k: int) -> (Seq<usize>, Map<int, usize>, int)
    decreases k,
{
    if k <= 0 {
        (Seq::empty(), Map::empty(), 0)
    } else {
        let (r, asg, next) = renum_upto(comms, k - 1);
        let c = comms[k - 1] as int;
        if asg.dom().contains(c) {
            (r.push(asg[c]), asg, next)
        } else {
            (r.push(next as usize), asg.insert(c, next as usize), next + 1)
        }
    }
}

/// Renumbering yields one id per node, each id below the count of distinct
/// communities, which never exceeds the number of nodes.
pub proof fn lemma_renum_wf(comms: Seq<usize>, k: int)
    requires
        0 <= k,
    ensures
        renum_upto(comms, k).0.len() == k,
        0 <= renum_upto(comms, k).2 <= k,
        forall|j: int|
            0 <= j < k ==> 0 <= #[trigger] renum_upto(comms, k).0[j] < renum_upto(comms, k).2,
        forall|c: int|
            renum_upto(comms, k).1.dom().contains(c) ==> 0 <= #[trigger] renum_upto(
                comms,
                k,
            ).1[c] < renum_upto(comms, k).2,
    decreases k,
{
    if k > 0 {
        lemma_renum_wf(comms, k - 1);
    }
}

/// The final community assignment: a zero total sanitized weight (no
/// edges, or only zero-weight edges) short-circuits to the singleton
/// partition; otherwise the pass loop's fixpoint (or its state after
/// `max_iters` passes), renumbered contiguously by first occurrence.
pub open spec fn louvain_spec(g: CodeGraph, res: int, max_iters: nat) -> Seq<usize> {
    if sane_sum_upto(g, g.m()) <= 0 {
        singleton_comms(g.n())
    } else {
        renum_upto(louvain_loop(g, singleton_comms(g.n()), res, max_iters), g.n()).0
    }
}

/// The number of communities the assignment uses.
pub open spec fn num_comms_spec(g: CodeGraph, res: int, max_iters: nat) -> int {
    if sane_sum_upto(g, g.m()) <= 0 {
        g.n()
    } else {
        renum_upto(louvain_loop(g, singleton_comms(g.n()), res, max_iters), g.n()).2
    }
}

/// Sanitized weight of the first `k` edges that stay inside one community.
pub open spec fn intra_sum_upto(g: CodeGraph, comms: Seq<usize>, k: int) -> int
    decreases k,
{
    if k <= 0 {
        0
    } else {
        intra_sum_upto(g, comms, k - 1) + {
            let e = g.edges@[k - 1];
            if comms[e.source as int] == comms[e.target as int] {
                e.weight.spec_sane()
            } else {
                0
            }
        }
    }
}

/// The intra-community weight is part of the total weight.
pub proof fn lemma_intra_sum_bounds(g: CodeGraph, comms: Seq<usize>, k: int)
    requires
        0 <= k,
    ensures
        0 <= intra_sum_upto(g, comms, k) <= sane_sum_upto(g, k),
    decreases k,
{
    if k > 0 {
        lemma_intra_sum_bounds(g, comms, k - 1);
    }
}

/// Modularity of a partition: twice the intra-community share of the total
/// sanitized weight, clamped to the unit range; zero when that total is
/// zero.
pub open spec fn modularity_spec(g: CodeGraph, comms: Seq<usize>) -> int {
    if sane_sum_upto(g, g.m()) <= 0 {
        0
    } else {
        let total = sane_sum_upto(g, g.m());
        let share = intra_sum_upto(g, comms, g.m()) * SCALE / total;
        clamp_unit_spec(2 * share)
    }
}

/// Number of incident edge endpoints of `v` (among the first `k` edges)
/// that cross into another community.
pub open spec fn cross_cnt_upto(g: CodeGraph, comms: Seq<usize>, v: int, k: int) -> int
    decreases k,
{
    if k <= 0 {
        0
    } else {
        cross_cnt_upto(g, comms, v, k - 1) + {
            let e = g.edges@[k - 1];
            (if e.source == v && comms[e.target as int] != comms[v] {
                1int
            } else {
                0int
            }) + (if e.target == v && comms[e.source as int] != comms[v] {
                1int
            } else {
                0int
            })
        }
    }
}

/// Number of incident edge endpoints of `v` among the first `k` edges.
pub open spec fn incident_cnt_upto(g: CodeGraph, v: int, k: int) -> int
    decreases k,
{
    if k <= 0 {
        0
    } else {
        incident_cnt_upto(g, v, k - 1) + {
            let e = g.edges@[k - 1];
            (if e.source == v {
                1int
            } else {
                0int
            }) + (if e.target == v {
                1int
            } else {
                0int
            })
        }
    }
}

/// Crossing endpoints are a subset of the incident endpoints.
pub proof fn lemma_cross_le_incident(g: CodeGraph, comms: Seq<usize>, v: int, k: int)
    requires
        0 <= k,
    ensures
        0 <= cross_cnt_upto(g, comms, v, k) <= incident_cnt_upto(g, v, k),
        incident_cnt_upto(g, v, k) <= 2 * k,
    decreases k,
{
    if k > 0 {
        lemma_cross_le_incident(g, comms, v, k - 1);
    }
}

/// Refactoring boundary score of `v`: the share of its incident edge
/// endpoints that cross into another community; zero for an isolated node.
pub open spec fn boundary_spec(g: CodeGraph, comms: Seq<usize>, v: int) -> int {
    let inc = incident_cnt_upto(g, v, g.m());
    if inc > 0 {
        cross_cnt_upto(g, comms, v, g.m()) * SCALE / inc
    } else {
        0
    }
}

/// Number of nodes the assignment places in community `c`, among the first
/// `k` nodes.
pub open spec fn comm_size_upto(comms: Seq<usize>, c: int, k: int) -> int
    decreases k,
{
    if k <= 0 {
        0
    } else {
        comm_size_upto(comms, c, k - 1) + if comms[k - 1] == c {
            1int
        } else {
            0int
        }
    }
}

/// Ascending member indices of community `c` among the first `k` nodes.
pub open spec fn comm_members_upto(comms: Seq<usize>, c: int, k: int) -> Seq<usize>
    decreases k,
{
    if k <= 0 {
        Seq::empty()
    } else {
        let rest = comm_members_upto(comms, c, k - 1);
        if comms[k - 1] == c {
            rest.push((k - 1) as usize)
        } else {
            rest
        }
    }
}

/// Pushing an element extends containment by exactly that element.
proof fn lemma_push_contains(s: Seq<usize>, e: usize, y: usize)
    ensures
        s.push(e).contains(y) <==> (s.contains(y) || y == e),
{
    if s.contains(y) {
        let i = choose|i: int| 0 <= i < s.len() && s[i] == y;
        assert(s.push(e)[i] == y);
    }
    if y == e {
        assert(s.push(e)[s.len() as int] == y);
    }
    if s.push(e).contains(y) {
        let i = choose|i: int| 0 <= i < s.push(e).len() && s.push(e)[i] == y;
        if i < s.len() {
            assert(s[i] == y);
        }
    }
}

/// The member lists partition the nodes: a node below `k` appears in
/// community `c`'s member list exactly when the assignment places it
/// there.
pub proof fn lemma_member_iff(comms: Seq<usize>, c: int, k: int, v: usize)
    requires
        0 <= v < k <= usize::MAX,
    ensures
        comm_members_upto(comms, c, k).contains(v) <==> comms[v as int] == c,
    decreases k,
{
    let rest = comm_members_upto(comms, c, k - 1);
    if (v as int) < k - 1 {
        lemma_member_iff(comms, c, k - 1, v);
        assert(v != (k - 1) as usize);
    } else {
        lemma_members_below(comms, c, k - 1, v);
        assert(v == (k - 1) as usize);
    }
    if comms[k - 1] == c {
        lemma_push_contains(rest, (k - 1) as usize, v);
    }
}

/// A member list over the first `k` nodes holds no index at or past `k`.
proof fn lemma_members_below(comms: Seq<usize>, c: int, k: int, v: usize)
    requires
        k <= v as int,
    ensures
        !comm_members_upto(comms, c, k).contains(v),
    decreases k,
{
    if k > 0 {
        lemma_members_below(comms, c, k - 1, v);
        if comms[k - 1] == c {
            lemma_push_contains(comm_members_upto(comms, c, k - 1), (k - 1) as usize, v);
        }
    }
}

/// Community sizes are at most the number of nodes counted.
pub proof fn lemma_comm_size_bounds(comms: Seq<usize>, c: int, k: int)
    requires
        0 <= k,
    ensures
        0 <= comm_size_upto(comms, c, k) <= k,
    decreases k,
{
    if k > 0 {
        lemma_comm_size_bounds(comms, c, k - 1);
    }
}

/// Community detection configuration.
#[derive(Debug, Clone, PartialEq, Eq, Structural)]
pub struct CommunityDetection {
    /// Louvain resolution, in fixed point, within `[0.1, 10]`.
    pub resolution: i64,
    /// Pass budget.
    pub max_iterations: usize,
}

/// All community results: the per-node assignment (contiguous ids), the
/// community count, the modularity, per-community sizes, and per-node
/// boundary scores.
#[derive(Debug, Clone)]
pub struct CommunityResults {
    pub communities: Vec<usize>,
    pub num_communities: usize,
    pub modularity: i64,
    pub cluster_sizes: Vec<usize>,
    /// Ascending member indices of each community, indexed by community id.
    pub cluster_members: Vec<Vec<usize>>,
    pub boundary_scores: Vec<i64>,
    /// Log entries of failed sub-metrics; in this build every sub-metric
    /// is total, so the log stays empty.
    pub errors: Vec<String>,
}

impl CommunityDetection {
    /// The default configuration: resolution one, a hundred passes.
    pub fn new() -> (r: Self)
        ensures
            r.resolution == SCALE,
            r.max_iterations == 100,
            r.valid(),
    {
        CommunityDetection { resolution: SCALE, max_iterations: 100 }
    }

    /// A configuration with the given resolution, clamped into `[0.1, 10]`
    /// units.
    pub fn with_resolution(resolution: i64) -> (r: Self)
        ensures
            r.resolution == if resolution < SCALE / 10 {
                (SCALE / 10) as int
            } else if resolution > 10 * SCALE {
                10 * (SCALE as int)
            } else {
                resolution as int
            },
            r.max_iterations == 100,
            r.valid(),
    {
        let res = if resolution < SCALE / 10 {
            SCALE / 10
        } else if resolution > 10 * SCALE {
            10 * SCALE
        } else {
            resolution
        };
        CommunityDetection { resolution: res, max_iterations: 100 }
    }

    /// Whether the configuration is usable.
    pub open spec fn valid(self) -> bool {
        0 <= self.resolution <= 10 * SCALE && self.max_iterations <= 1000000
    }
}


/// A pass that reports no improvement leaves the assignment unchanged.
pub proof fn lemma_pass_no_improvement(g: CodeGraph, comms: Seq<usize>, res: int, i: int)
    requires
        0 <= i,
        !pass_upto(g, comms, res, i).1,
    ensures
        pass_upto(g, comms, res, i).0 == comms,
    decreases i,
{
    if i > 0 {
        lemma_pass_no_improvement(g, comms, res, i - 1);
    }
}

/// The best move lands on a community id some node already carries.
pub proof fn lemma_best_move_range(g: CodeGraph, comms: Seq<usize>, v: int, res: int, k: int, n: int)
    requires
        0 <= k <= g.m(),
        g.wf(),
        comms.len() == n,
        n == g.n(),
        0 <= v < n,
        forall|j: int| 0 <= j < n ==> (#[trigger] comms[j]) < n,
    ensures
        (best_move_upto(g, comms, v, res, k).0 as int) < n,
    decreases k,
{
    if k > 0 {
        lemma_best_move_range(g, comms, v, res, k - 1, n);
    }
}

/// A pass keeps every community id in range.
pub proof fn lemma_pass_range(g: CodeGraph, comms: Seq<usize>, res: int, i: int, n: int)
    requires
        0 <= i <= n,
        g.wf(),
        comms.len() == n,
        n == g.n(),
        forall|j: int| 0 <= j < n ==> (#[trigger] comms[j]) < n,
    ensures
        pass_upto(g, comms, res, i).0.len() == n,
        forall|j: int| 0 <= j < n ==> (#[trigger] pass_upto(g, comms, res, i).0[j]) < n,
    decreases i,
{
    if i > 0 {
        lemma_pass_range(g, comms, res, i - 1, n);
        lemma_best_move_range(g, pass_upto(g, comms, res, i - 1).0, i - 1, res, g.m(), n);
    }
}
impl CodeGraph {
    /// Total sanitized edge weight.
    pub fn total_sane_weight(&self) -> (r: i128)
        requires
            self.fits(),
        ensures
            r == sane_sum_upto(*self, self.m()),
            r >= 0,
    {
        let m = self.edges.len();
        let mut total: i128 = 0;
        let mut k: usize = 0;
        while k < m
            invariant
                k <= m,
                m == self.m(),
                self.fits(),
                total == sane_sum_upto(*self, k as int),
                0 <= total <= k * 0x7fff_ffff_ffff_ffffi128,
            decreases m - k,
        {
            proof {
                lemma_sane_sum_bounds(*self, k as int);
                vstd::arithmetic::mul::lemma_mul_inequality(
                    k as int,
                    (k + 1) as int,
                    0x7fff_ffff_ffff_ffff,
                );
                vstd::arithmetic::mul::lemma_mul_inequality(
                    (k + 1) as int,
                    (crate::graph::MAX_EDGES as int),
                    0x7fff_ffff_ffff_ffff,
                );
            }
            let w = self.edges[k].weight.sane();
            total = total + (w as i128);
            k = k + 1;
        }
        total
    }
}

impl CommunityDetection {
    /// The modularity gain of moving `v` into community `cand`; see
    /// `gain_spec`.
    #[verifier::loop_isolation(false)]
    fn gain(&self, g: &CodeGraph, comms: &Vec<usize>, v: usize, cand: usize, total: i128) -> (r:
        i64)
        requires
            g.wf(),
            g.fits(),
            self.valid(),
            v < g.n(),
            comms@.len() == g.n(),
            forall|j: int| 0 <= j < g.n() ==> (#[trigger] comms@[j]) < g.n(),
            total == sane_sum_upto(*g, g.m()),
            total > 0,
        ensures
            r == gain_spec(*g, comms@, v as int, cand as int, self.resolution as int),
    {
        let m = g.edges.len();
        let mut ki_in: i128 = 0;
        let mut ki: i128 = 0;
        let mut sigma: i128 = 0;
        let mut k: usize = 0;
        while k < m
            invariant
                k <= m,
                ki_in == ki_in_upto(*g, comms@, v as int, cand as int, k as int),
                ki == ki_upto(*g, v as int, k as int),
                sigma == sigma_upto(*g, comms@, cand as int, k as int),
                0 <= ki_in <= 2 * sane_sum_upto(*g, k as int),
                0 <= ki <= 2 * sane_sum_upto(*g, k as int),
                0 <= sigma <= sane_sum_upto(*g, k as int),
            decreases m - k,
        {
            proof {
                lemma_comm_sums_bounded(*g, comms@, v as int, cand as int, k as int);
                lemma_sane_sum_bounds(*g, (k + 1) as int);
                vstd::arithmetic::mul::lemma_mul_inequality(
                    (k + 1) as int,
                    (crate::graph::MAX_EDGES as int),
                    0x7fff_ffff_ffff_ffff,
                );
            }
            let e_src = g.edges[k].source;
            let e_tgt = g.edges[k].target;
            let w = g.edges[k].weight.sane() as i128;
            if e_src == v && comms[e_tgt] == cand {
                ki_in = ki_in + w;
            }
            if e_tgt == v && comms[e_src] == cand {
                ki_in = ki_in + w;
            }
            if e_src == v {
                ki = ki + w;
            }
            if e_tgt == v {
                ki = ki + w;
            }
            if comms[e_src] == cand || comms[e_tgt] == cand {
                sigma = sigma + w;
            }
            k = k + 1;
        }
        proof {
            lemma_sane_sum_bounds(*g, m as int);
            vstd::arithmetic::mul::lemma_mul_inequality(
                m as int,
                (crate::graph::MAX_EDGES as int),
                0x7fff_ffff_ffff_ffff,
            );
            ratio_bound_facts(ki_in as int, 2 * total as int, total as int);
            ratio_bound_facts(ki as int, 2 * total as int, total as int);
            ratio_bound_facts(sigma as int, total as int, total as int);
        }
        let ki_in_ratio = (ki_in * (SCALE as i128) / total) as i64;
        let sigma_ratio = (sigma * (SCALE as i128) / total) as i64;
        let ki_ratio = (ki * (SCALE as i128) / total) as i64;
        proof {
            assert(0 <= sigma_ratio as int * ki_ratio as int <= 2000000000000int)
                by (nonlinear_arith)
                requires
                    0 <= sigma_ratio as int <= 1000000,
                    0 <= ki_ratio as int <= 2000000,
            ;
            vstd::arithmetic::div_mod::lemma_div_pos_is_pos(
                sigma_ratio as int * ki_ratio as int,
                SCALE as int,
            );
            vstd::arithmetic::div_mod::lemma_div_is_ordered(
                sigma_ratio as int * ki_ratio as int,
                2000000000000int,
                SCALE as int,
            );
        }
        let shares = sigma_ratio * ki_ratio / SCALE;
        proof {
            assert(0 <= self.resolution as int * shares as int <= 20000000000000int)
                by (nonlinear_arith)
                requires
                    0 <= self.resolution as int <= 10000000,
                    0 <= shares as int <= 2000000,
            ;
            vstd::arithmetic::div_mod::lemma_div_pos_is_pos(
                self.resolution as int * shares as int,
                SCALE as int,
            );
            vstd::arithmetic::div_mod::lemma_div_is_ordered(
                self.resolution as int * shares as int,
                20000000000000int,
                SCALE as int,
            );
        }
        let penalty = self.resolution * shares / SCALE;
        ki_in_ratio - penalty
    }
}

/// A nonnegative numerator at most `cap` yields a scaled ratio at most
/// `cap`-over-`total` units.
proof fn ratio_bound_facts(x: int, cap: int, total: int)
    requires
        0 <= x <= cap,
        0 < total,
        cap == total || cap == 2 * total,
    ensures
        0 <= x * SCALE / total <= if cap == total {
            SCALE as int
        } else {
            2 * SCALE
        },
{
    vstd::arithmetic::mul::lemma_mul_nonnegative(x, SCALE as int);
    vstd::arithmetic::mul::lemma_mul_inequality(x, cap, SCALE as int);
    vstd::arithmetic::div_mod::lemma_div_pos_is_pos(x * SCALE, total);
    vstd::arithmetic::div_mod::lemma_div_is_ordered(x * SCALE, cap * SCALE, total);
    if cap == total {
        vstd::arithmetic::div_mod::lemma_div_multiples_vanish(SCALE as int, total);
        assert(cap * SCALE == SCALE * total) by (nonlinear_arith)
            requires
                cap == total,
        ;
    } else {
        vstd::arithmetic::div_mod::lemma_div_multiples_vanish(2 * SCALE, total);
        assert(cap * SCALE == (2 * SCALE) * total) by (nonlinear_arith)
            requires
                cap == 2 * total,
        ;
    }
}


impl CommunityDetection {
    /// The best strictly-improving move for `v`; see `best_move_upto`.
    #[verifier::loop_isolation(false)]
    fn best_move(&self, g: &CodeGraph, comms: &Vec<usize>, v: usize, total: i128) -> (r: (
        usize,
        i64,
    ))
        requires
            g.wf(),
            g.fits(),
            self.valid(),
            v < g.n(),
            comms@.len() == g.n(),
            forall|j: int| 0 <= j < g.n() ==> (#[trigger] comms@[j]) < g.n(),
            total == sane_sum_upto(*g, g.m()),
            total > 0,
        ensures
            (r.0, r.1 as int) == best_move_upto(
                *g,
                comms@,
                v as int,
                self.resolution as int,
                g.m(),
            ),
    {
        let m = g.edges.len();
        let cur = comms[v];
        let mut bc: usize = cur;
        let mut bg: i64 = 0;
        let mut k: usize = 0;
        while k < m
            invariant
                k <= m,
                cur == comms@[v as int],
                (bc, bg as int) == best_move_upto(
                    *g,
                    comms@,
                    v as int,
                    self.resolution as int,
                    k as int,
                ),
            decreases m - k,
        {
            let e_src = g.edges[k].source;
            let e_tgt = g.edges[k].target;
            let cand: usize = if e_src == v {
                comms[e_tgt]
            } else if e_tgt == v {
                comms[e_src]
            } else {
                cur
            };
            if cand != cur {
                let gain = self.gain(g, comms, v, cand, total);
                if gain > bg {
                    bc = cand;
                    bg = gain;
                }
            }
            k = k + 1;
        }
        (bc, bg)
    }

    /// One full Louvain pass; returns whether any node moved.
    #[verifier::loop_isolation(false)]
    fn louvain_pass(&self, g: &CodeGraph, comms: &mut Vec<usize>, total: i128) -> (imp: bool)
        requires
            g.wf(),
            g.fits(),
            self.valid(),
            old(comms)@.len() == g.n(),
            forall|j: int| 0 <= j < g.n() ==> (#[trigger] old(comms)@[j]) < g.n(),
            total == sane_sum_upto(*g, g.m()),
            total > 0,
        ensures
            (final(comms)@, imp) == pass_upto(
                *g,
                old(comms)@,
                self.resolution as int,
                g.n(),
            ),
            final(comms)@.len() == g.n(),
            forall|j: int| 0 <= j < g.n() ==> (#[trigger] final(comms)@[j]) < g.n(),
    {
        let n = g.nodes.len();
        let ghost start = comms@;
        let mut imp = false;
        let mut v: usize = 0;
        while v < n
            invariant
                v <= n,
                comms@.len() == n,
                forall|j: int| 0 <= j < g.n() ==> (#[trigger] comms@[j]) < g.n(),
                (comms@, imp) == pass_upto(*g, start, self.resolution as int, v as int),
            decreases n - v,
        {
            let mv = self.best_move(g, comms, v, total);
            if mv.0 != comms[v] && mv.1 > 0 {
                proof {
                    lemma_best_move_range(
                        *g,
                        comms@,
                        v as int,
                        self.resolution as int,
                        g.m(),
                        g.n(),
                    );
                }
                comms[v] = mv.0;
                imp = true;
                proof {
                    assert(comms@ =~= pass_upto(*g, start, self.resolution as int, v as int + 1).0);
                }
            }
            v = v + 1;
        }
        imp
    }

    /// Run the Louvain passes and renumber the assignment contiguously;
    /// returns the assignment and the number of communities. See
    /// `louvain_spec` and `num_comms_spec` for the exact statement.
    #[verifier::loop_isolation(false)]
    pub fn louvain_safe(&self, g: &CodeGraph) -> (r: (Vec<usize>, usize))
        requires
            g.wf(),
            g.fits(),
            self.valid(),
        ensures
            r.0@ == louvain_spec(*g, self.resolution as int, self.max_iterations as nat),
            r.1 as int == num_comms_spec(*g, self.resolution as int, self.max_iterations as nat),
            r.0@.len() == g.n(),
            r.1 <= g.n(),
            forall|j: int| 0 <= j < g.n() ==> (#[trigger] r.0@[j]) < g.n(),
    {
        let n = g.nodes.len();
        let m = g.edges.len();
        let mut comms: Vec<usize> = Vec::new();
        let mut v: usize = 0;
        while v < n
            invariant
                v <= n,
                comms@.len() == v,
                forall|j: int| 0 <= j < v ==> comms@[j] == j as usize,
            decreases n - v,
        {
            comms.push(v);
            v = v + 1;
        }
        proof {
            assert(comms@ =~= singleton_comms(n as int));
        }
        let total = g.total_sane_weight();
        if total <= 0 {
            proof {
                assert(comms@ =~= louvain_spec(
                    *g,
                    self.resolution as int,
                    self.max_iterations as nat,
                ));
            }
            return (comms, n);
        }
        proof {
            lemma_sane_sum_bounds(*g, g.m());
        }
        let _ = m;
        let ghost target = louvain_loop(
            *g,
            singleton_comms(n as int),
            self.resolution as int,
            self.max_iterations as nat,
        );
        let mut improved = true;
        let mut it: usize = 0;
        while improved && it < self.max_iterations
            invariant
                it <= self.max_iterations,
                comms@.len() == n,
                forall|j: int| 0 <= j < g.n() ==> (#[trigger] comms@[j]) < g.n(),
                improved ==> target == louvain_loop(
                    *g,
                    comms@,
                    self.resolution as int,
                    (self.max_iterations - it) as nat,
                ),
                !improved ==> target == comms@,
            decreases self.max_iterations - it,
        {
            let ghost before = comms@;
            let imp = self.louvain_pass(g, &mut comms, total);
            proof {
                if !imp {
                    lemma_pass_no_improvement(*g, before, self.resolution as int, g.n());
                }
            }
            improved = imp;
            it = it + 1;
        }

        // renumber community ids contiguously, by first occurrence
        let mut assigned: Vec<Option<usize>> = Vec::new();
        let mut v: usize = 0;
        while v < n
            invariant
                v <= n,
                assigned@.len() == v,
                forall|j: int| 0 <= j < v ==> assigned@[j] is None,
            decreases n - v,
        {
            assigned.push(None);
            v = v + 1;
        }
        let mut result: Vec<usize> = Vec::new();
        let mut next: usize = 0;
        let mut v: usize = 0;
        while v < n
            invariant
                v <= n,
                comms@.len() == n,
                forall|j: int| 0 <= j < g.n() ==> (#[trigger] comms@[j]) < g.n(),
                assigned@.len() == n,
                result@ == renum_upto(comms@, v as int).0,
                next as int == renum_upto(comms@, v as int).2,
                next <= v,
                forall|c: int|
                    0 <= c < n ==> #[trigger] assigned@[c] == if renum_upto(
                        comms@,
                        v as int,
                    ).1.dom().contains(c) {
                        Some(renum_upto(comms@, v as int).1[c])
                    } else {
                        None::<usize>
                    },
            decreases n - v,
        {
            let c = comms[v];
            match assigned[c] {
                Some(x) => {
                    result.push(x);
                },
                None => {
                    result.push(next);
                    assigned[c] = Some(next);
                    next = next + 1;
                    proof {
                        assert forall|cc: int|
                            0 <= cc < n implies #[trigger] assigned@[cc] == (if renum_upto(
                            comms@,
                            v as int + 1,
                        ).1.dom().contains(cc) {
                            Some(renum_upto(comms@, v as int + 1).1[cc])
                        } else {
                            None::<usize>
                        }) by {}
                    }
                },
            }
            v = v + 1;
        }
        proof {
            assert(result@ == louvain_spec(*g, self.resolution as int, self.max_iterations as nat));
            lemma_renum_wf(comms@, n as int);
        }
        (result, next)
    }
}


/// The sizes of value `s` among the first `k` entries, as a run of `s`.
pub open spec fn filt_upto(sizes: Seq<usize>, s: int, k: int) -> Seq<usize>
    decreases k,
{
    if k <= 0 {
        Seq::empty()
    } else {
        let rest = filt_upto(sizes, s, k - 1);
        if sizes[k - 1] == s {
            rest.push(s as usize)
        } else {
            rest
        }
    }
}

/// All entries grouped by value, largest value first.
pub open spec fn csort_rec(sizes: Seq<usize>, s: int) -> Seq<usize>
    decreases s + 1,
{
    if s < 0 {
        Seq::empty()
    } else {
        filt_upto(sizes, s, sizes.len() as int) + csort_rec(sizes, s - 1)
    }
}

/// Every entry the grouped form holds is at most the group bound.
pub proof fn lemma_csort_entries_le(sizes: Seq<usize>, s: int)
    requires
        -1 <= s <= usize::MAX,
    ensures
        forall|j: int| 0 <= j < csort_rec(sizes, s).len() ==> (#[trigger] csort_rec(sizes, s)[j]) <= s,
    decreases s + 1,
{
    if s >= 0 {
        lemma_csort_entries_le(sizes, s - 1);
        lemma_filt_entries(sizes, s, sizes.len() as int);
        let f = filt_upto(sizes, s, sizes.len() as int);
        let rest = csort_rec(sizes, s - 1);
        assert forall|j: int|
            0 <= j < csort_rec(sizes, s).len() implies (#[trigger] csort_rec(sizes, s)[j])
            <= s by {
            if j < f.len() {
                assert(csort_rec(sizes, s)[j] == f[j]);
            } else {
                assert(csort_rec(sizes, s)[j] == rest[j - f.len()]);
            }
        }
    }
}

proof fn lemma_filt_entries(sizes: Seq<usize>, s: int, k: int)
    requires
        0 <= k,
        0 <= s <= usize::MAX,
    ensures
        forall|j: int| 0 <= j < filt_upto(sizes, s, k).len() ==> (#[trigger] filt_upto(sizes, s, k)[j]) == s,
    decreases k,
{
    if k > 0 {
        lemma_filt_entries(sizes, s, k - 1);
        let rest = filt_upto(sizes, s, k - 1);
        if sizes[k - 1] == s {
            assert forall|j: int|
                0 <= j < filt_upto(sizes, s, k).len() implies (#[trigger] filt_upto(
                sizes,
                s,
                k,
            )[j]) == s by {
                if j < rest.len() {
                    assert(filt_upto(sizes, s, k)[j] == rest[j]);
                } else {
                    assert(filt_upto(sizes, s, k)[j] == s as usize);
                }
            }
        }
    }
}

/// The grouped form is sorted in descending order.
pub proof fn lemma_csort_sorted(sizes: Seq<usize>, s: int)
    requires
        -1 <= s <= usize::MAX,
    ensures
        forall|i: int, j: int|
            0 <= i <= j < csort_rec(sizes, s).len() ==> (#[trigger] csort_rec(sizes, s)[i])
                >= (#[trigger] csort_rec(sizes, s)[j]),
    decreases s + 1,
{
    if s >= 0 {
        lemma_csort_sorted(sizes, s - 1);
        lemma_csort_entries_le(sizes, s - 1);
        lemma_filt_entries(sizes, s, sizes.len() as int);
        let f = filt_upto(sizes, s, sizes.len() as int);
        let rest = csort_rec(sizes, s - 1);
        assert forall|i: int, j: int|
            0 <= i <= j < csort_rec(sizes, s).len() implies (#[trigger] csort_rec(sizes, s)[i])
            >= (#[trigger] csort_rec(sizes, s)[j]) by {
            if i < f.len() {
                assert(csort_rec(sizes, s)[i] == f[i]);
            } else {
                assert(csort_rec(sizes, s)[i] == rest[i - f.len()]);
            }
            if j < f.len() {
                assert(csort_rec(sizes, s)[j] == f[j]);
            } else {
                assert(csort_rec(sizes, s)[j] == rest[j - f.len()]);
            }
        }
    }
}

impl CommunityDetection {
    /// Modularity of a partition; see `modularity_spec`.
    #[verifier::loop_isolation(false)]
    pub fn calculate_modularity(&self, g: &CodeGraph, comms: &Vec<usize>) -> (r: i64)
        requires
            g.wf(),
            g.fits(),
            comms@.len() == g.n(),
        ensures
            r == modularity_spec(*g, comms@),
            0 <= r <= SCALE,
    {
        let m = g.edges.len();
        let total = g.total_sane_weight();
        if total <= 0 {
            return 0;
        }
        proof {
            lemma_sane_sum_bounds(*g, g.m());
        }
        let mut intra: i128 = 0;
        let mut k: usize = 0;
        while k < m
            invariant
                k <= m,
                intra == intra_sum_upto(*g, comms@, k as int),
                0 <= intra <= sane_sum_upto(*g, k as int),
            decreases m - k,
        {
            proof {
                lemma_intra_sum_bounds(*g, comms@, k as int);
                lemma_sane_sum_bounds(*g, (k + 1) as int);
                vstd::arithmetic::mul::lemma_mul_inequality(
                    (k + 1) as int,
                    (crate::graph::MAX_EDGES as int),
                    0x7fff_ffff_ffff_ffff,
                );
            }
            let e_src = g.edges[k].source;
            let e_tgt = g.edges[k].target;
            if comms[e_src] == comms[e_tgt] {
                intra = intra + (g.edges[k].weight.sane() as i128);
            }
            k = k + 1;
        }
        proof {
            lemma_intra_sum_bounds(*g, comms@, g.m());
            ratio_bound_facts(intra as int, total as int, total as int);
        }
        let share = (intra * (SCALE as i128) / total) as i64;
        clamp_unit(2 * share)
    }

    /// Refactoring boundary scores of all nodes; see `boundary_spec`.
    #[verifier::loop_isolation(false)]
    pub fn find_refactoring_boundaries(&self, g: &CodeGraph, comms: &Vec<usize>) -> (r: Vec<i64>)
        requires
            g.wf(),
            g.fits(),
            comms@.len() == g.n(),
        ensures
            r@.len() == g.n(),
            forall|v: int| 0 <= v < g.n() ==> r@[v] == boundary_spec(*g, comms@, v),
            forall|v: int| 0 <= v < g.n() ==> 0 <= #[trigger] r@[v] <= SCALE,
    {
        let n = g.nodes.len();
        let m = g.edges.len();
        let mut r: Vec<i64> = Vec::new();
        let mut v: usize = 0;
        while v < n
            invariant
                v <= n,
                r@.len() == v,
                forall|j: int| 0 <= j < v ==> r@[j] == boundary_spec(*g, comms@, j),
                forall|j: int| 0 <= j < v ==> 0 <= #[trigger] r@[j] <= SCALE,
            decreases n - v,
        {
            let mut cross: i64 = 0;
            let mut inc: i64 = 0;
            let mut k: usize = 0;
            while k < m
                invariant
                    k <= m,
                    v < n,
                    cross == cross_cnt_upto(*g, comms@, v as int, k as int),
                    inc == incident_cnt_upto(*g, v as int, k as int),
                    0 <= cross <= inc <= 2 * (k as int),
                decreases m - k,
            {
                proof {
                    lemma_cross_le_incident(*g, comms@, v as int, k as int);
                }
                let e_src = g.edges[k].source;
                let e_tgt = g.edges[k].target;
                if e_src == v {
                    inc = inc + 1;
                    if comms[e_tgt] != comms[v] {
                        cross = cross + 1;
                    }
                }
                if e_tgt == v {
                    inc = inc + 1;
                    if comms[e_src] != comms[v] {
                        cross = cross + 1;
                    }
                }
                k = k + 1;
            }
            let val: i64 = if inc > 0 {
                proof {
                    vstd::arithmetic::mul::lemma_mul_nonnegative(cross as int, SCALE as int);
                    vstd::arithmetic::mul::lemma_mul_inequality(
                        cross as int,
                        inc as int,
                        SCALE as int,
                    );
                    vstd::arithmetic::div_mod::lemma_div_pos_is_pos(
                        cross as int * SCALE as int,
                        inc as int,
                    );
                    vstd::arithmetic::div_mod::lemma_div_is_ordered(
                        cross as int * SCALE as int,
                        inc as int * SCALE as int,
                        inc as int,
                    );
                    vstd::arithmetic::div_mod::lemma_div_multiples_vanish(SCALE as int, inc as int);
                }
                cross * SCALE / inc
            } else {
                0
            };
            r.push(val);
            v = v + 1;
        }
        r
    }

    /// The size of every community, indexed by community id, and the sizes
    /// listed again in descending order.
    #[verifier::loop_isolation(false)]
    pub fn identify_clusters(&self, g: &CodeGraph, comms: &Vec<usize>, num: usize) -> (r: Vec<
        usize,
    >)
        requires
            g.fits(),
            comms@.len() == g.n(),
            num <= g.n(),
        ensures
            r@ == csort_rec(
                Seq::new(num as nat, |c: int| comm_size_upto(comms@, c, g.n()) as usize),
                g.n(),
            ),
            forall|i: int, j: int| 0 <= i <= j < r@.len() ==> (#[trigger] r@[i]) >= (#[trigger] r@[j]),
    {
        let n = g.nodes.len();
        let mut sizes: Vec<usize> = Vec::new();
        let mut c: usize = 0;
        while c < num
            invariant
                c <= num,
                sizes@.len() == c,
                forall|j: int| 0 <= j < c ==> sizes@[j] == comm_size_upto(comms@, j, g.n()) as usize,
                forall|j: int| 0 <= j < c ==> (#[trigger] sizes@[j]) <= n,
            decreases num - c,
        {
            let mut cnt: usize = 0;
            let mut v: usize = 0;
            while v < n
                invariant
                    v <= n,
                    c < num,
                    cnt == comm_size_upto(comms@, c as int, v as int),
                    cnt <= v,
                decreases n - v,
            {
                proof {
                    lemma_comm_size_bounds(comms@, c as int, v as int);
                }
                if comms[v] == c {
                    cnt = cnt + 1;
                }
                v = v + 1;
            }
            sizes.push(cnt);
            c = c + 1;
        }
        let ghost sizes_spec = Seq::new(
            num as nat,
            |c: int| comm_size_upto(comms@, c, g.n()) as usize,
        );
        proof {
            assert(sizes@ =~= sizes_spec);
        }

        let mut sorted: Vec<usize> = Vec::new();
        let mut si: usize = 0;
        while si <= n
            invariant
                si <= n + 1,
                sizes@ == sizes_spec,
                sorted@ + csort_rec(sizes_spec, n as int - si as int) =~= csort_rec(
                    sizes_spec,
                    n as int,
                ),
            decreases n + 1 - si,
        {
            let s = n - si;
            let ghost base = sorted@;
            let mut c: usize = 0;
            while c < num
                invariant
                    c <= num,
                    sizes@ == sizes_spec,
                    s == n - si,
                    sorted@ == base + filt_upto(sizes_spec, s as int, c as int),
                decreases num - c,
            {
                if sizes[c] == s {
                    proof {
                        assert(sorted@.push(s as usize) =~= base + filt_upto(
                            sizes_spec,
                            s as int,
                            c as int + 1,
                        ));
                    }
                    sorted.push(s);
                }
                c = c + 1;
            }
            proof {
                assert(sorted@ + csort_rec(sizes_spec, s as int - 1) =~= csort_rec(
                    sizes_spec,
                    n as int,
                ));
            }
            si = si + 1;
        }
        proof {
            assert(sorted@ =~= csort_rec(sizes_spec, n as int));
            lemma_csort_sorted(sizes_spec, n as int);
        }
        sorted
    }

    /// Run the whole community module: detect communities, compute the
    /// modularity of the detected partition, the community count, sorted
    /// cluster sizes and boundary scores.
    pub fn detect_communities(&self, g: &CodeGraph) -> (r: CommunityResults)
        requires
            g.wf(),
            g.fits(),
            self.valid(),
        ensures
            r.communities@ == louvain_spec(*g, self.resolution as int, self.max_iterations as nat),
            r.num_communities as int == num_comms_spec(
                *g,
                self.resolution as int,
                self.max_iterations as nat,
            ),
            r.modularity == modularity_spec(*g, r.communities@),
            0 <= r.modularity <= SCALE,
            r.num_communities <= g.n(),
            r.communities@.len() == g.n(),
            r.boundary_scores@.len() == g.n(),
            forall|v: int|
                0 <= v < g.n() ==> r.boundary_scores@[v] == boundary_spec(*g, r.communities@, v),
            r.cluster_sizes@ == csort_rec(
                Seq::new(
                    r.num_communities as nat,
                    |c: int| comm_size_upto(r.communities@, c, g.n()) as usize,
                ),
                g.n(),
            ),
            forall|i: int, j: int|
                0 <= i <= j < r.cluster_sizes@.len() ==> (#[trigger] r.cluster_sizes@[i])
                    >= (#[trigger] r.cluster_sizes@[j]),
            r.cluster_members@.len() == r.num_communities,
            forall|c: int|
                0 <= c < r.num_communities ==> (#[trigger] r.cluster_members@[c])@
                    == comm_members_upto(r.communities@, c, g.n()),
            r.errors@.len() == 0,
    {
        let (communities, num) = self.louvain_safe(g);
        let modularity = self.calculate_modularity(g, &communities);
        let boundary_scores = self.find_refactoring_boundaries(g, &communities);
        let cluster_sizes = self.identify_clusters(g, &communities, num);

        let n = g.nodes.len();
        let mut cluster_members: Vec<Vec<usize>> = Vec::new();
        let mut c: usize = 0;
        while c < num
            invariant
                c <= num,
                communities@.len() == n,
                cluster_members@.len() == c,
                forall|j: int|
                    0 <= j < c ==> (#[trigger] cluster_members@[j])@ == comm_members_upto(
                        communities@,
                        j,
                        n as int,
                    ),
            decreases num - c,
        {
            let mut mem: Vec<usize> = Vec::new();
            let mut v: usize = 0;
            while v < n
                invariant
                    v <= n,
                    c < num,
                    communities@.len() == n,
                    mem@ == comm_members_upto(communities@, c as int, v as int),
                decreases n - v,
            {
                if communities[v] == c {
                    mem.push(v);
                }
                v = v + 1;
            }
            cluster_members.push(mem);
            c = c + 1;
        }
        CommunityResults {
            communities,
            num_communities: num,
            modularity,
            cluster_sizes,
            cluster_members,
            boundary_scores,
            errors: Vec::new(),
        }
    }
}

} // verus!
