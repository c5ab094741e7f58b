//! The UI-facing projection: one stable record per node with its raw and
//! normalized metric snapshots and composite scores.
use vstd::prelude::*;

use crate::ast::NodeType;
use crate::engine::ModularAnalysisReport;
use crate::graph::CodeGraph;

verus! {

/// The schema version the projection carries by default.
pub fn default_version() -> (r: u8)
    ensures
        r == 1,
{
    1
}

/// Raw metric snapshot of one node; score-valued fields are fixed-point.
#[derive(Debug, Clone, PartialEq, Eq, Structural)]
pub struct RawMetrics {
    pub pagerank: i64,
    pub indegree: i64,
    pub outdegree: i64,
    pub k_core: i64,
    pub clustering: i64,
    pub betweenness: i64,
    pub complexity: i64,
}

/// Normalized metric snapshot of one node, each value in the unit range.
#[derive(Debug, Clone, PartialEq, Eq, Structural)]
pub struct NormalizedMetrics {
    pub pagerank: i64,
    pub indegree: i64,
    pub k_core: i64,
    pub clustering: i64,
    pub betweenness: i64,
    pub complexity: i64,
}

/// The stable UI contract for one node's metrics.
#[derive(Debug, Clone)]
pub struct UINodeMetricsV1 {
    pub path: String,
    pub name: String,
    pub node_type: NodeType,
    pub community: i64,
    pub importance: i64,
    pub risk: i64,
    pub chokepoint: i64,
    pub payoff: i64,
    pub raw: RawMetrics,
    pub normalized: NormalizedMetrics,
    pub version: u8,
}

/// Project a report onto one record per node: the node's identity fields,
/// its community, its composite scores where they were computed, and its
/// raw metric snapshot.
#[verifier::loop_isolation(false)]
pub fn to_ui_metrics(report: &ModularAnalysisReport, g: &CodeGraph) -> (r: Vec<UINodeMetricsV1>)
    requires
        g.wf(),
        g.fits(),
        report.composite_scores@.len() == g.n() || report.composite_scores@.len() == 0,
        report.community.communities@.len() == g.n() || report.community.communities@.len() == 0,
    ensures
        r@.len() == g.n(),
        forall|v: int|
            0 <= v < g.n() ==> (#[trigger] r@[v]).name@ == g.nodes@[v].name@ && r@[v].node_type
                == g.nodes@[v].node_type && r@[v].version == 1 && r@[v].path@ == (
            match g.nodes@[v].file_path {
                Some(p) => p@,
                None => g.nodes@[v].id@,
            }),
        report.composite_scores@.len() == g.n() ==> forall|v: int|
            0 <= v < g.n() ==> (#[trigger] r@[v]).importance == report.composite_scores@[
                v].importance && r@[v].risk == report.composite_scores@[v].risk && r@[v].chokepoint
                == report.composite_scores@[v].chokepoint && r@[v].payoff
                == report.composite_scores@[v].payoff,
        report.community.communities@.len() == g.n() ==> forall|v: int|
            0 <= v < g.n() ==> (#[trigger] r@[v]).community == (if report.community.communities@[v]
                > 1_000_000_000 {
                1_000_000_000i64
            } else {
                report.community.communities@[v] as i64
            }),
{
    let n = g.nodes.len();
    let have_composites = report.composite_scores.len() == n;
    let have_comms = report.community.communities.len() == n;
    let have_centrality = report.centrality.pagerank.len() == n && report.centrality.k_core.len()
        == n && report.centrality.clustering.len() == n && report.centrality.betweenness.len()
        == n;
    let have_quality = report.quality.complexity.len() == n;
    let mut r: Vec<UINodeMetricsV1> = Vec::new();
    let mut v: usize = 0;
    while v < n
        invariant
            v <= n,
            r@.len() == v,
            forall|j: int|
                0 <= j < v ==> (#[trigger] r@[j]).name@ == g.nodes@[j].name@ && r@[j].node_type
                    == g.nodes@[j].node_type && r@[j].version == 1 && r@[j].path@ == (
                match g.nodes@[j].file_path {
                    Some(p) => p@,
                    None => g.nodes@[j].id@,
                }),
            have_composites ==> forall|j: int|
                0 <= j < v ==> (#[trigger] r@[j]).importance == report.composite_scores@[
                    j].importance && r@[j].risk == report.composite_scores@[j].risk && r@[
                    j].chokepoint == report.composite_scores@[j].chokepoint && r@[j].payoff
                    == report.composite_scores@[j].payoff,
            have_comms ==> forall|j: int|
                0 <= j < v ==> (#[trigger] r@[j]).community == (if report.community.communities@[j]
                    > 1_000_000_000 {
                    1_000_000_000i64
                } else {
                    report.community.communities@[j] as i64
                }),
        decreases n - v,
    {
        let path: String = match &g.nodes[v].file_path {
            Some(p) => p.clone(),
            None => g.nodes[v].id.clone(),
        };
        let composite = if have_composites {
            report.composite_scores[v].clone()
        } else {
            crate::report::CompositeOutputs { importance: 0, chokepoint: 0, risk: 0, payoff: 0 }
        };
        let community: i64 = if have_comms {
            let c = report.community.communities[v];
            if c > 1_000_000_000 {
                1_000_000_000
            } else {
                c as i64
            }
        } else {
            0
        };
        let ind = g.in_degree(v);
        let outd = g.out_degree(v);
        proof {
            crate::graph::lemma_in_deg_bounds(g.edges@, v as int, g.m());
            crate::graph::lemma_out_deg_bounds(g.edges@, v as int, g.m());
        }
        let raw = RawMetrics {
            pagerank: if have_centrality {
                report.centrality.pagerank[v]
            } else {
                0
            },
            indegree: ind as i64,
            outdegree: outd as i64,
            k_core: if have_centrality {
                report.centrality.k_core[v]
            } else {
                0
            },
            clustering: if have_centrality {
                report.centrality.clustering[v]
            } else {
                0
            },
            betweenness: if have_centrality {
                report.centrality.betweenness[v]
            } else {
                0
            },
            complexity: if have_quality {
                report.quality.complexity[v].cyclomatic
            } else {
                0
            },
        };
        let normalized = NormalizedMetrics {
            pagerank: crate::fixed::clamp_unit(raw.pagerank),
            indegree: crate::report::range_normalize(
                raw.indegree,
                0,
                if report.normalization_ranges.indegree_hi > 1_000_000_000_000_000 {
                    1_000_000_000_000_000
                } else if report.normalization_ranges.indegree_hi < -1_000_000_000_000_000 {
                    -1_000_000_000_000_000
                } else {
                    report.normalization_ranges.indegree_hi
                },
            ),
            k_core: crate::fixed::clamp_unit(raw.k_core),
            clustering: crate::fixed::clamp_unit(raw.clustering),
            betweenness: crate::fixed::clamp_unit(raw.betweenness),
            complexity: crate::report::range_normalize(
                if raw.complexity < 0 {
                    0
                } else if raw.complexity > 1_000_000_000_000_000 {
                    1_000_000_000_000_000
                } else {
                    raw.complexity
                },
                0,
                if report.normalization_ranges.complexity_hi > 1_000_000_000_000_000 {
                    1_000_000_000_000_000
                } else if report.normalization_ranges.complexity_hi < -1_000_000_000_000_000 {
                    -1_000_000_000_000_000
                } else {
                    report.normalization_ranges.complexity_hi
                },
            ),
        };
        r.push(
            UINodeMetricsV1 {
                path,
                name: g.nodes[v].name.clone(),
                node_type: g.nodes[v].node_type,
                community,
                importance: composite.importance,
                risk: composite.risk,
                chokepoint: composite.chokepoint,
                payoff: composite.payoff,
                raw,
                normalized,
                version: 1,
            },
        );
        v = v + 1;
    }
    r
}

} // verus!
