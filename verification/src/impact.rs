//! Change-impact analysis: blast radius with a piecewise severity score,
//! hop-decayed propagation probability, and dependency depth from the
//! dependency roots.
use vstd::prelude::*;

use crate::fixed::SCALE;
use crate::fixed::clamp_unit;
use crate::fixed::clamp_unit_spec;
use crate::graph::CodeGraph;
use crate::paths::INF_DIST;
use crate::paths::dists_spec;
use crate::paths::rdists_spec;
use crate::quality::dir_edge_upto;

verus! {

/// The blast radius of one node: its direct dependents, the dependents
/// within three hops beyond them, and a severity score.
#[derive(Debug, Clone)]
pub struct BlastRadius {
    /// Nodes one hop upstream, ascending.
    pub direct_impact: Vec<usize>,
    /// Nodes two or three hops upstream, ascending.
    pub indirect_impact: Vec<usize>,
    pub total_affected: usize,
    pub severity: i64,
}

/// Immediate dependents of `v` among the first `k` nodes: the distinct
/// sources of its incoming edges, ascending (a self-loop makes a node its
/// own dependent).
pub open spec fn direct_list_upto(g: CodeGraph, v: int, k: int) -> Seq<usize>
    decreases k,
{
    if k <= 0 {
        Seq::empty()
    } else {
        let rest = direct_list_upto(g, v, k - 1);
        if dir_edge_upto(g, k - 1, v, g.m()) {
            rest.push((k - 1) as usize)
        } else {
            rest
        }
    }
}

/// Transitive dependents of `v` within three hops among the first `k`
/// nodes, excluding the already-visited immediate dependents, ascending.
pub open spec fn indirect_list_upto(g: CodeGraph, v: int, rd: Seq<i64>, k: int) -> Seq<usize>
    decreases k,
{
    if k <= 0 {
        Seq::empty()
    } else {
        let rest = indirect_list_upto(g, v, rd, k - 1);
        if 2 <= rd[k - 1] <= 3 && !dir_edge_upto(g, k - 1, v, g.m()) {
            rest.push((k - 1) as usize)
        } else {
            rest
        }
    }
}

/// Both lists stay within the prefix length.
pub proof fn lemma_impact_lists_bounds(g: CodeGraph, v: int, rd: Seq<i64>, k: int)
    requires
        0 <= k,
    ensures
        direct_list_upto(g, v, k).len() <= k,
        indirect_list_upto(g, v, rd, k).len() <= k,
    decreases k,
{
    if k > 0 {
        lemma_impact_lists_bounds(g, v, rd, k - 1);
    }
}

/// The severity of an impact: the weighted affected share (direct counted
/// whole, indirect counted half) pushed through three increasingly steep
/// linear regimes and clamped to the unit range.
pub open spec fn severity_spec(direct: int, indirect: int, n: int) -> int {
    if n == 0 {
        0
    } else {
        let nw = (2 * direct + indirect) * SCALE / (2 * n);
        let sev = if nw < SCALE / 10 {
            2 * nw
        } else if nw < 3 * SCALE / 10 {
            SCALE / 5 + 3 * (nw - SCALE / 10)
        } else {
            4 * SCALE / 5 + (nw - 3 * SCALE / 10) / 2
        };
        clamp_unit_spec(sev)
    }
}

/// The decayed probability mass of a dependent at the given hop distance:
/// seven tenths per hop, nothing past four hops.
pub open spec fn hop_mass(d: int) -> int {
    if d == 0 {
        SCALE as int
    } else if d == 1 {
        700_000
    } else if d == 2 {
        490_000
    } else if d == 3 {
        343_000
    } else if d == 4 {
        240_100
    } else {
        0
    }
}

/// Total decayed probability mass over the first `k` nodes.
pub open spec fn mass_upto(rd: Seq<i64>, k: int) -> int
    decreases k,
{
    if k <= 0 {
        0
    } else {
        mass_upto(rd, k - 1) + hop_mass(rd[k - 1] as int)
    }
}

/// Mass grows by at most one unit per node.
pub proof fn lemma_mass_bounds(rd: Seq<i64>, k: int)
    requires
        0 <= k,
    ensures
        0 <= mass_upto(rd, k) <= k * (SCALE as int),
    decreases k,
{
    if k > 0 {
        lemma_mass_bounds(rd, k - 1);
        vstd::arithmetic::mul::lemma_mul_inequality(k - 1, k, SCALE as int);
    }
}

/// Propagation probability of node `v`: the summed hop-decayed mass of its
/// dependents within four hops, normalized by the node count and clamped.
pub open spec fn probability_spec(g: CodeGraph, v: int) -> int {
    if g.n() == 0 {
        0
    } else {
        clamp_unit_spec(mass_upto(rdists_spec(g, v, g.n() as nat), g.n()) / g.n())
    }
}

/// Largest finite forward distance from `v` to any dependency root (a node
/// without outgoing edges), zero if no root is reached.
pub open spec fn depth_to_roots_upto(g: CodeGraph, fd: Seq<i64>, k: int) -> int
    decreases k,
{
    if k <= 0 {
        0
    } else {
        let rest = depth_to_roots_upto(g, fd, k - 1);
        if g.spec_out_degree(k - 1) == 0 && fd[k - 1] < INF_DIST && fd[k - 1] > rest {
            fd[k - 1] as int
        } else {
            rest
        }
    }
}

/// Dependency depth of node `v`.
pub open spec fn dependency_depth_spec(g: CodeGraph, v: int) -> int {
    depth_to_roots_upto(g, dists_spec(g, v, g.n() as nat), g.n())
}

/// The change-impact analysis of a whole graph.
#[derive(Debug, Clone)]
pub struct ImpactAnalysis {
    pub propagation_probability: Vec<i64>,
    pub blast_radius: Vec<BlastRadius>,
    pub dependency_depth: Vec<i64>,
}

impl ImpactAnalysis {
    /// Perform the impact analysis: per node, the blast radius (direct and
    /// up-to-three-hop dependents with a piecewise severity), the decayed
    /// propagation probability, and the depth to the dependency roots.
    #[verifier::loop_isolation(false)]
    pub fn analyze(g: &CodeGraph) -> (r: ImpactAnalysis)
        requires
            g.wf(),
            g.fits(),
        ensures
            r.blast_radius@.len() == g.n(),
            forall|v: int|
                0 <= v < g.n() ==> {
                    let rd = rdists_spec(*g, v, g.n() as nat);
                    (#[trigger] r.blast_radius@[v]).direct_impact@ == direct_list_upto(*g, v, g.n())
                        && r.blast_radius@[v].indirect_impact@ == indirect_list_upto(
                        *g,
                        v,
                        rd,
                        g.n(),
                    ) && r.blast_radius@[v].total_affected == direct_list_upto(*g, v, g.n()).len()
                        + indirect_list_upto(*g, v, rd, g.n()).len() && r.blast_radius@[v].severity
                        == severity_spec(
                        direct_list_upto(*g, v, g.n()).len() as int,
                        indirect_list_upto(*g, v, rd, g.n()).len() as int,
                        g.n(),
                    )
                },
            r.propagation_probability@.len() == g.n(),
            forall|v: int|
                0 <= v < g.n() ==> r.propagation_probability@[v] == probability_spec(*g, v),
            r.dependency_depth@.len() == g.n(),
            forall|v: int|
                0 <= v < g.n() ==> r.dependency_depth@[v] == dependency_depth_spec(*g, v),
    {
        let n = g.nodes.len();
        let mut blast: Vec<BlastRadius> = Vec::new();
        let mut prob: Vec<i64> = Vec::new();
        let mut depth: Vec<i64> = Vec::new();
        let mut v: usize = 0;
        while v < n
            invariant
                v <= n,
                blast@.len() == v,
                prob@.len() == v,
                depth@.len() == v,
                forall|j: int|
                    0 <= j < v ==> {
                        let rd = rdists_spec(*g, j, g.n() as nat);
                        (#[trigger] blast@[j]).direct_impact@ == direct_list_upto(*g, j, g.n())
                            && blast@[j].indirect_impact@ == indirect_list_upto(*g, j, rd, g.n())
                            && blast@[j].total_affected == direct_list_upto(*g, j, g.n()).len()
                            + indirect_list_upto(*g, j, rd, g.n()).len() && blast@[j].severity
                            == severity_spec(
                            direct_list_upto(*g, j, g.n()).len() as int,
                            indirect_list_upto(*g, j, rd, g.n()).len() as int,
                            g.n(),
                        )
                    },
                forall|j: int| 0 <= j < v ==> prob@[j] == probability_spec(*g, j),
                forall|j: int| 0 <= j < v ==> depth@[j] == dependency_depth_spec(*g, j),
            decreases n - v,
        {
            let rd = g.unit_distances_rev(v);
            let mut direct: Vec<usize> = Vec::new();
            let mut indirect: Vec<usize> = Vec::new();
            let mut mass: i64 = 0;
            let mut u: usize = 0;
            while u < n
                invariant
                    u <= n,
                    v < n,
                    rd@ == rdists_spec(*g, v as int, g.n() as nat),
                    rd@.len() == n,
                    direct@ == direct_list_upto(*g, v as int, u as int),
                    indirect@ == indirect_list_upto(*g, v as int, rd@, u as int),
                    direct@.len() <= u,
                    indirect@.len() <= u,
                    mass == mass_upto(rd@, u as int),
                    0 <= mass <= u * (SCALE as int),
                decreases n - u,
            {
                proof {
                    lemma_impact_lists_bounds(*g, v as int, rd@, u as int);
                    lemma_mass_bounds(rd@, u as int);
                    vstd::arithmetic::mul::lemma_mul_inequality(
                        u as int,
                        (u + 1) as int,
                        SCALE as int,
                    );
                }
                let d = rd[u];
                if g.has_edge(u, v) {
                    direct.push(u);
                } else if 2 <= d && d <= 3 {
                    indirect.push(u);
                }
                if d == 0 {
                    mass = mass + SCALE;
                } else if d == 1 {
                    mass = mass + 700_000;
                } else if d == 2 {
                    mass = mass + 490_000;
                } else if d == 3 {
                    mass = mass + 343_000;
                } else if d == 4 {
                    mass = mass + 240_100;
                }
                u = u + 1;
            }

            let dlen = direct.len();
            let ilen = indirect.len();
            proof {
                vstd::arithmetic::mul::lemma_mul_inequality(n as int, 1000000, SCALE as int);
                mul_sev_facts(dlen as int, ilen as int, n as int);
            }
            let nw = ((2 * (dlen as i64) + (ilen as i64)) * SCALE) / (2 * (n as i64));
            let sev_raw: i64 = if nw < SCALE / 10 {
                2 * nw
            } else if nw < 3 * SCALE / 10 {
                SCALE / 5 + 3 * (nw - SCALE / 10)
            } else {
                4 * SCALE / 5 + (nw - 3 * SCALE / 10) / 2
            };
            let severity = clamp_unit(sev_raw);
            blast.push(
                BlastRadius {
                    direct_impact: direct,
                    indirect_impact: indirect,
                    total_affected: dlen + ilen,
                    severity,
                },
            );

            proof {
                vstd::arithmetic::div_mod::lemma_div_pos_is_pos(mass as int, n as int);
            }
            prob.push(clamp_unit(mass / (n as i64)));

            let fd = g.unit_distances(v);
            let mut dep: i64 = 0;
            let mut u: usize = 0;
            while u < n
                invariant
                    u <= n,
                    v < n,
                    fd@ == dists_spec(*g, v as int, g.n() as nat),
                    fd@.len() == n,
                    dep == depth_to_roots_upto(*g, fd@, u as int),
                    0 <= dep < INF_DIST,
                decreases n - u,
            {
                if g.out_degree(u) == 0 && fd[u] < INF_DIST && fd[u] > dep {
                    dep = fd[u];
                }
                u = u + 1;
            }
            depth.push(dep);
            v = v + 1;
        }
        ImpactAnalysis {
            propagation_probability: prob,
            blast_radius: blast,
            dependency_depth: depth,
        }
    }

    /// The nodes whose dependency depth reaches `min_depth`, ascending,
    /// with their depths.
    #[verifier::loop_isolation(false)]
    pub fn get_deep_dependencies(&self, min_depth: i64) -> (r: Vec<(usize, i64)>)
        ensures
            forall|i: int|
                0 <= i < r@.len() ==> {
                    let (v, d) = #[trigger] r@[i];
                    v < self.dependency_depth@.len() && self.dependency_depth@[v as int] == d && d
                        >= min_depth
                },
    {
        let n = self.dependency_depth.len();
        let mut r: Vec<(usize, i64)> = Vec::new();
        let mut v: usize = 0;
        while v < n
            invariant
                v <= n,
                n == self.dependency_depth@.len(),
                forall|i: int|
                    0 <= i < r@.len() ==> {
                        let (u, d) = #[trigger] r@[i];
                        u < self.dependency_depth@.len() && self.dependency_depth@[u as int] == d
                            && d >= min_depth
                    },
            decreases n - v,
        {
            if self.dependency_depth[v] >= min_depth {
                r.push((v, self.dependency_depth[v]));
            }
            v = v + 1;
        }
        r
    }
}

/// The weighted impact numerator stays in wide bounds.
proof fn mul_sev_facts(d: int, i: int, n: int)
    requires
        0 <= d <= n,
        0 <= i <= n,
        1 <= n <= 1000000,
    ensures
        0 <= (2 * d + i) * SCALE <= 3_000_000_000_000,
        (2 * d + i) * SCALE / (2 * n) >= 0,
{
    vstd::arithmetic::mul::lemma_mul_nonnegative(2 * d + i, SCALE as int);
    vstd::arithmetic::mul::lemma_mul_inequality(2 * d + i, 3 * n, SCALE as int);
    vstd::arithmetic::mul::lemma_mul_inequality(3 * n, 3000000, SCALE as int);
    vstd::arithmetic::div_mod::lemma_div_pos_is_pos((2 * d + i) * SCALE, 2 * n);
}

} // verus!
