//! The orchestrator: configuration, the optional concurrent metric cache,
//! and the sequential analysis run that fans out to every metric module,
//! degrades an unrunnable module to its default result with a logged entry,
//! and assembles the report with composite scores and a summary.
use vstd::prelude::*;

use crate::centrality::CentralityMetrics;
use crate::centrality::CentralityResults;
use crate::centrality::betweenness_spec;
use crate::centrality::degree_spec;
use crate::community::CommunityDetection;
use crate::community::CommunityResults;
use crate::fixed::SCALE;
use crate::graph::CodeGraph;
use crate::graph::pagerank_spec;
use crate::impact::ImpactAnalysis;
use crate::paths::MAX_CLOSURE_NODES;
use crate::quality::QualityAnalyzer;
use crate::quality::QualityResults;
use crate::report::AnalysisSummary;
use crate::report::CompositeOutputs;
use crate::report::MetricWeights;
use crate::report::NormalizationRanges;
use crate::report::importance_spec;
use crate::report::lemma_blend3_bounds;
use crate::report::min_upto;
use crate::report::range_normalize;
use crate::report::payoff_spec;
use crate::risk::RiskAnalyzer;
use crate::risk::RiskResults;
use crate::risk::chokepoint_spec;
use crate::risk::risk_score_spec;

verus! {

/// Configuration of the analytics engine.
#[derive(Debug, Clone, PartialEq, Eq, Structural)]
pub struct AnalyticsConfig {
    pub weights: MetricWeights,
    /// Whether the caller may fan the modules out to parallel tasks.
    pub parallel: bool,
    /// Whether the cross-run cache is kept; when disabled, a run clears it.
    pub use_cache: bool,
    pub pagerank_iterations: usize,
    /// Damping factor in fixed point.
    pub pagerank_damping: i64,
    /// Louvain resolution in fixed point.
    pub louvain_resolution: i64,
    /// Per-module timeout for a supervising caller, in milliseconds.
    pub metric_timeout_ms: u64,
    /// Whether betweenness samples sources on large graphs.
    pub use_sampling: bool,
    pub betweenness_sample_size: usize,
}

impl Default for AnalyticsConfig {
    /// The default configuration: parallel fan-out allowed, cache kept,
    /// thirty PageRank iterations at 0.85 damping, resolution one, a
    /// ten-second timeout, sampling at a thousand sources.
    fn default() -> (r: Self)
        ensures
            r == AnalyticsConfig::spec_default(),
    {
        AnalyticsConfig {
            weights: MetricWeights::default(),
            parallel: true,
            use_cache: true,
            pagerank_iterations: 30,
            pagerank_damping: 850_000,
            louvain_resolution: SCALE,
            metric_timeout_ms: 10_000,
            use_sampling: true,
            betweenness_sample_size: 1000,
        }
    }
}

impl AnalyticsConfig {
    /// The default configuration.
    pub open spec fn spec_default() -> AnalyticsConfig {
        AnalyticsConfig {
            weights: MetricWeights::spec_default(),
            parallel: true,
            use_cache: true,
            pagerank_iterations: 30,
            pagerank_damping: 850_000,
            louvain_resolution: 1_000_000,
            metric_timeout_ms: 10_000,
            use_sampling: true,
            betweenness_sample_size: 1000,
        }
    }

    /// Whether the configuration is usable by every module.
    pub open spec fn valid(self) -> bool {
        &&& self.weights.valid()
        &&& 0 <= self.pagerank_damping <= SCALE
        &&& self.pagerank_iterations <= 1000000
        &&& self.betweenness_sample_size >= 1
        &&& 0 <= self.louvain_resolution <= 10 * SCALE
    }

    /// Check validity at run time.
    pub fn check_valid(&self) -> (r: bool)
        ensures
            r == self.valid(),
    {
        self.weights.importance_pagerank >= 0 && self.weights.importance_pagerank <= SCALE
            && self.weights.importance_degree >= 0 && self.weights.importance_degree <= SCALE
            && self.weights.importance_betweenness >= 0 && self.weights.importance_betweenness
            <= SCALE && self.weights.risk_complexity >= 0 && self.weights.risk_complexity <= SCALE
            && self.weights.risk_coupling >= 0 && self.weights.risk_coupling <= SCALE
            && self.weights.risk_churn >= 0 && self.weights.risk_churn <= SCALE
            && self.weights.chokepoint_betweenness >= 0 && self.weights.chokepoint_betweenness
            <= SCALE && self.weights.chokepoint_clustering >= 0
            && self.weights.chokepoint_clustering <= SCALE && self.weights.chokepoint_degree >= 0
            && self.weights.chokepoint_degree <= SCALE && self.weights.payoff_risk >= 0
            && self.weights.payoff_risk <= SCALE && self.weights.payoff_importance >= 0
            && self.weights.payoff_importance <= SCALE && self.weights.payoff_coverage >= 0
            && self.weights.payoff_coverage <= SCALE && self.pagerank_damping >= 0
            && self.pagerank_damping <= SCALE && self.pagerank_iterations <= 1000000
            && self.betweenness_sample_size >= 1 && self.louvain_resolution >= 0
            && self.louvain_resolution <= 10 * SCALE
    }
}

/// The concurrent map type the cache is built on.
#[verifier::external_type_specification]
#[verifier::external_body]
#[verifier::reject_recursive_types(K)]
#[verifier::reject_recursive_types(V)]
#[verifier::reject_recursive_types(S)]
pub struct ExDashMap<K, V, S>(dashmap::DashMap<K, V, S>);

/// A concurrent cache of named metric values, safe for shared reads and
/// inserts across threads. The contents are modeled as a map from key
/// characters to values.
pub struct MetricCache {
    pub inner: dashmap::DashMap<String, i64>,
}

/// What a cache map holds: its keys' characters mapped to their values.
pub uninterp spec fn dashmap_contents(m: dashmap::DashMap<String, i64>) -> Map<Seq<char>, i64>;

/// What the cache holds.
pub open spec fn cache_map(c: MetricCache) -> Map<Seq<char>, i64> {
    dashmap_contents(c.inner)
}

/// Whether the cache holds nothing.
pub open spec fn cache_is_empty(c: MetricCache) -> bool {
    cache_map(c) =~= Map::<Seq<char>, i64>::empty()
}

impl MetricCache {
    /// Relies on `dashmap::DashMap::new`: a fresh map holds nothing.
    #[verifier::external_body]
    pub(crate) fn new() -> (r: MetricCache)
        ensures
            cache_is_empty(r),
    {
        MetricCache { inner: dashmap::DashMap::new() }
    }

    /// Relies on `dashmap::DashMap::insert`: the key now maps to the value,
    /// everything else is unchanged, and the previous value comes back.
    #[verifier::external_body]
    pub(crate) fn insert(&mut self, key: String, value: i64) -> (prev: Option<i64>)
        ensures
            dashmap_contents(final(self).inner) == dashmap_contents(old(self).inner).insert(
                key@,
                value,
            ),
            prev == if dashmap_contents(old(self).inner).dom().contains(key@) {
                Some(dashmap_contents(old(self).inner)[key@])
            } else {
                None::<i64>
            },
    {
        self.inner.insert(key, value)
    }

    /// Relies on `dashmap::DashMap::get`: the value stored under the key,
    /// if any.
    #[verifier::external_body]
    pub(crate) fn get(&self, key: &String) -> (r: Option<i64>)
        ensures
            r == if dashmap_contents(self.inner).dom().contains(key@) {
                Some(dashmap_contents(self.inner)[key@])
            } else {
                None::<i64>
            },
    {
        self.inner.get(key).map(|v| *v)
    }

    /// Relies on `dashmap::DashMap::clear`: the map is emptied.
    #[verifier::external_body]
    pub(crate) fn clear(&mut self)
        ensures
            cache_is_empty(*final(self)),
    {
        self.inner.clear()
    }
}

/// Largest value among the first `k` entries, defaulting to the first
/// entry, for empirical range observation.
pub open spec fn obs_max_upto(s: Seq<i64>, k: int) -> int
    decreases k,
{
    if k <= 1 {
        if s.len() > 0 {
            s[0] as int
        } else {
            0
        }
    } else {
        let rest = obs_max_upto(s, k - 1);
        if s[k - 1] > rest {
            s[k - 1] as int
        } else {
            rest
        }
    }
}

/// The cyclomatic complexities of all nodes, for range observation.
pub open spec fn cyclo_seq(g: CodeGraph) -> Seq<i64> {
    Seq::new(g.n() as nat, |j: int| crate::quality::complexity_spec(g, j).cyclomatic)
}

/// The in-degrees of all nodes, for range observation.
pub open spec fn indeg_seq(g: CodeGraph) -> Seq<i64> {
    Seq::new(g.n() as nat, |j: int| g.spec_in_degree(j) as i64)
}

/// The literal default normalization ranges, used before any data exists.
pub open spec fn default_ranges() -> NormalizationRanges {
    NormalizationRanges {
        pagerank_lo: 0,
        pagerank_hi: SCALE,
        indegree_lo: 0,
        indegree_hi: 10,
        clustering_lo: 0,
        clustering_hi: SCALE,
        betweenness_lo: 0,
        betweenness_hi: SCALE,
        complexity_lo: 0,
        complexity_hi: 50_000_000,
    }
}

/// The composite scores of node `v`, fully determined by the graph, the
/// configuration, and whether the risk module could run.
pub open spec fn composite_spec(
    g: CodeGraph,
    cfg: AnalyticsConfig,
    risk_ran: bool,
    v: int,
) -> CompositeOutputs {
    let pr = pagerank_spec(g, cfg.pagerank_iterations as nat, cfg.pagerank_damping as int)[v];
    let deg: int = if g.n() <= 1 {
        0
    } else {
        degree_spec(g, v).total_degree as int
    };
    let betw = betweenness_spec(g, cfg.use_sampling, cfg.betweenness_sample_size as int);
    let lo = min_upto(betw, g.n());
    let hi = obs_max_upto(betw, g.n());
    let importance = importance_spec(cfg.weights, pr as int, deg, betw[v] as int, lo, hi);
    let risk: int = if risk_ran {
        risk_score_spec(g, v, 15, 10, 5).overall as int
    } else {
        0
    };
    let chokepoint: int = if risk_ran {
        chokepoint_spec(g, v, 5)
    } else {
        0
    };
    CompositeOutputs {
        importance: importance as i64,
        chokepoint: chokepoint as i64,
        risk: risk as i64,
        payoff: payoff_spec(cfg.weights, risk, importance) as i64,
    }
}


/// The full analysis report: every module's results, the impact analysis,
/// composite scores, normalization ranges, the summary, and the error log.
#[derive(Debug, Clone)]
pub struct ModularAnalysisReport {
    pub centrality: CentralityResults,
    pub community: CommunityResults,
    pub risk: RiskResults,
    pub quality: QualityResults,
    pub impact: ImpactAnalysis,
    pub composite_scores: Vec<CompositeOutputs>,
    pub normalization_ranges: NormalizationRanges,
    pub summary: AnalysisSummary,
    pub errors: Vec<String>,
}

/// The analytics engine: a configuration and the optional cross-run cache.
pub struct AnalyticsEngine {
    pub config: AnalyticsConfig,
    pub cache: MetricCache,
}

impl AnalyticsEngine {
    /// Create an engine with the given configuration and an empty cache.
    pub fn new(config: AnalyticsConfig) -> (r: AnalyticsEngine)
        ensures
            r.config == config,
            cache_is_empty(r.cache),
    {
        AnalyticsEngine { config, cache: MetricCache::new() }
    }

    /// Read a cached metric value.
    pub fn get_cached(&self, key: &String) -> (r: Option<i64>)
        ensures
            r == if cache_map(self.cache).dom().contains(key@) {
                Some(cache_map(self.cache)[key@])
            } else {
                None::<i64>
            },
    {
        self.cache.get(key)
    }

    /// Store a metric value; a no-op when caching is disabled.
    pub fn set_cached(&mut self, key: String, value: i64)
        ensures
            old(self).config.use_cache ==> cache_map(final(self).cache) == cache_map(
                old(self).cache,
            ).insert(key@, value),
            !old(self).config.use_cache ==> final(self).cache == old(self).cache,
            final(self).config == old(self).config,
    {
        if self.config.use_cache {
            let _ = self.cache.insert(key, value);
        }
    }

    /// Analyze a code graph: validate, clear the cache when it is disabled,
    /// run every metric module (each degrading to its default result with a
    /// logged entry where the graph is beyond its bounds), and assemble the
    /// report. The run never fails; every per-node result is pinned to its
    /// module's specification, and the composite scores to
    /// `composite_spec`.
    #[verifier::loop_isolation(false)]
    pub fn analyze(&mut self, g: &CodeGraph) -> (r: ModularAnalysisReport)
        requires
            g.wf(),
            old(self).config.valid(),
        ensures
            final(self).config == old(self).config,
            !old(self).config.use_cache ==> cache_is_empty(final(self).cache),
            r.summary.total_nodes == g.n(),
            r.summary.total_edges == g.m(),
            g.fits() ==> {
                &&& r.centrality.pagerank@ == pagerank_spec(
                    *g,
                    old(self).config.pagerank_iterations as nat,
                    old(self).config.pagerank_damping as int,
                )
                &&& r.centrality.betweenness@ == betweenness_spec(
                    *g,
                    old(self).config.use_sampling,
                    old(self).config.betweenness_sample_size as int,
                )
                &&& r.centrality.closeness@ == crate::centrality::closeness_spec(*g)
                &&& r.centrality.degree@.len() == (if g.n() <= 1 {
                    0int
                } else {
                    g.n()
                })
                &&& (forall|v: int|
                    0 <= v < r.centrality.degree@.len() ==> r.centrality.degree@[v] == degree_spec(
                        *g,
                        v,
                    ))
                &&& r.centrality.errors@.len() == 0
                &&& r.centrality.clustering@ == crate::centrality::clustering_spec(*g)
                &&& r.centrality.k_core@ == crate::centrality::k_core_spec(*g)
                &&& r.community.communities@ == crate::community::louvain_spec(
                    *g,
                    old(self).config.louvain_resolution as int,
                    100nat,
                )
                &&& r.community.num_communities as int == crate::community::num_comms_spec(
                    *g,
                    old(self).config.louvain_resolution as int,
                    100nat,
                )
                &&& r.community.modularity == crate::community::modularity_spec(
                    *g,
                    r.community.communities@,
                )
                &&& r.centrality.eigenvector@ == crate::centrality::eigenvector_spec(
                    *g,
                    old(self).config.pagerank_iterations as nat,
                )
                &&& r.community.cluster_members@.len() == r.community.num_communities
                &&& (forall|c: int|
                    0 <= c < r.community.num_communities ==> (#[trigger] r.community.cluster_members@[c])@
                        == crate::community::comm_members_upto(r.community.communities@, c, g.n()))
                &&& r.community.errors@.len() == 0
                &&& r.community.boundary_scores@.len() == g.n()
                &&& (forall|v: int|
                    0 <= v < g.n() ==> r.community.boundary_scores@[v]
                        == crate::community::boundary_spec(*g, r.community.communities@, v))
                &&& r.quality.complexity@.len() == g.n()
                &&& (forall|v: int|
                    0 <= v < g.n() ==> r.quality.complexity@[v] == crate::quality::complexity_spec(
                        *g,
                        v,
                    ))
                &&& r.quality.coupling@.len() == g.n()
                &&& (forall|v: int|
                    0 <= v < g.n() ==> r.quality.coupling@[v] == crate::quality::coupling_spec(
                        *g,
                        v,
                    ))
                &&& r.quality.cohesion@.len() == g.n()
                &&& (forall|v: int|
                    0 <= v < g.n() ==> r.quality.cohesion@[v] == crate::quality::cohesion_spec(
                        *g,
                        v,
                    ))
                &&& r.quality.code_smells@.len() == g.n()
                &&& (forall|v: int|
                    0 <= v < g.n() ==> (#[trigger] r.quality.code_smells@[v]).smells@.len()
                        == crate::quality::smell_count_spec(*g, v, 500))
                &&& r.quality.total_code_smells as int == crate::quality::total_smells_upto(
                    r.quality.code_smells@,
                    g.n(),
                )
                &&& r.quality.avg_complexity as int == (if g.n() >= 1 {
                    crate::quality::cyclo_sum_upto(r.quality.complexity@, g.n()) * SCALE / g.n()
                } else {
                    0int
                })
                &&& r.quality.errors@.len() == 0
                &&& (forall|v: int|
                    0 <= v < g.n() ==> r.quality.maintainability@[v]
                        == crate::quality::maintainability_spec(*g, v))
                &&& r.quality.maintainability@.len() == g.n()
                &&& r.impact.blast_radius@.len() == g.n()
                &&& r.impact.propagation_probability@.len() == g.n()
                &&& (forall|v: int|
                    0 <= v < g.n() ==> r.impact.propagation_probability@[v]
                        == crate::impact::probability_spec(*g, v))
                &&& r.impact.dependency_depth@.len() == g.n()
                &&& (forall|v: int|
                    0 <= v < g.n() ==> r.impact.dependency_depth@[v]
                        == crate::impact::dependency_depth_spec(*g, v))
                &&& r.summary.num_communities == r.community.num_communities
                &&& r.summary.modularity == r.community.modularity
                &&& r.summary.avg_complexity == r.quality.avg_complexity
                &&& r.summary.high_risk_count == r.risk.high_risk_count
                &&& r.summary.circular_dependencies == r.risk.total_circular_deps
            },
            g.fits() && g.n() >= 1 ==> {
                let betw = betweenness_spec(
                    *g,
                    old(self).config.use_sampling,
                    old(self).config.betweenness_sample_size as int,
                );
                &&& r.normalization_ranges.betweenness_lo as int == min_upto(betw, g.n())
                &&& r.normalization_ranges.betweenness_hi as int == obs_max_upto(betw, g.n())
                &&& r.normalization_ranges.clustering_lo as int == min_upto(
                    crate::centrality::clustering_spec(*g),
                    g.n(),
                )
                &&& r.normalization_ranges.clustering_hi as int == obs_max_upto(
                    crate::centrality::clustering_spec(*g),
                    g.n(),
                )
                &&& r.normalization_ranges.complexity_lo as int == min_upto(cyclo_seq(*g), g.n())
                &&& r.normalization_ranges.complexity_hi as int == obs_max_upto(
                    cyclo_seq(*g),
                    g.n(),
                )
                &&& r.normalization_ranges.indegree_lo as int == min_upto(indeg_seq(*g), g.n())
                &&& r.normalization_ranges.indegree_hi as int == obs_max_upto(indeg_seq(*g), g.n())
                &&& r.normalization_ranges.pagerank_lo == 0
                &&& r.normalization_ranges.pagerank_hi == SCALE
            },
            !(g.fits() && g.n() >= 1) ==> r.normalization_ranges == default_ranges(),
            g.fits() ==> r.composite_scores@.len() == g.n(),
            g.fits() ==> forall|v: int|
                0 <= v < g.n() ==> r.composite_scores@[v] == composite_spec(
                    *g,
                    old(self).config,
                    1 <= g.n() <= MAX_CLOSURE_NODES,
                    v,
                ),
            g.fits() && 1 <= g.n() <= MAX_CLOSURE_NODES ==> {
                &&& r.risk.risk_scores@.len() == g.n()
                &&& (forall|v: int|
                    0 <= v < g.n() ==> r.risk.risk_scores@[v] == risk_score_spec(
                        *g,
                        v,
                        15,
                        10,
                        5,
                    ))
                &&& r.risk.chokepoints@.len() == g.n()
                &&& (forall|v: int|
                    0 <= v < g.n() ==> r.risk.chokepoints@[v] == chokepoint_spec(*g, v, 5))
                &&& r.risk.circular_dependencies@.len() == crate::risk::reported_cycles_spec(
                    *g,
                ).len()
                &&& (forall|i: int|
                    0 <= i < r.risk.circular_dependencies@.len()
                        ==> (#[trigger] r.risk.circular_dependencies@[i])@
                        == crate::risk::reported_cycles_spec(*g)[i])
                &&& r.risk.total_circular_deps == r.risk.circular_dependencies@.len()
                &&& r.risk.coupling_metrics@.len() == g.n()
                &&& (forall|v: int|
                    0 <= v < g.n() ==> r.risk.coupling_metrics@[v]
                        == crate::risk::risk_coupling_spec(*g, v))
                &&& r.risk.technical_debt@.len() == g.n()
                &&& (forall|v: int|
                    0 <= v < g.n() ==> r.risk.technical_debt@[v] == crate::risk::debt_spec(*g, v))
                &&& r.risk.change_propagation@.len() == g.n()
                &&& (forall|v: int|
                    0 <= v < g.n() ==> r.risk.change_propagation@[v]
                        == crate::risk::propagation_spec(*g, v))
                &&& r.risk.high_risk_count as int == crate::risk::high_risk_upto(
                    r.risk.risk_scores@,
                    g.n(),
                )
                &&& r.risk.avg_risk_score as int == crate::risk::overall_sum_upto(
                    r.risk.risk_scores@,
                    g.n(),
                ) / g.n()
                &&& r.risk.errors@.len() == 0
            },
            !(g.fits() && 1 <= g.n() <= MAX_CLOSURE_NODES) ==> {
                &&& r.risk.risk_scores@.len() == 0
                &&& r.risk.chokepoints@.len() == 0
                &&& r.risk.circular_dependencies@.len() == 0
                &&& r.risk.coupling_metrics@.len() == 0
                &&& r.risk.technical_debt@.len() == 0
                &&& r.risk.change_propagation@.len() == 0
                &&& r.risk.high_risk_count == 0
                &&& r.risk.total_circular_deps == 0
                &&& r.risk.avg_risk_score == 0
            },
            !g.fits() ==> {
                &&& r.errors@.len() > 0
                &&& r.centrality.pagerank@.len() == 0
                &&& r.centrality.degree@.len() == 0
                &&& r.community.communities@.len() == 0
                &&& r.community.num_communities == 0
                &&& r.community.modularity == 0
                &&& r.quality.complexity@.len() == 0
                &&& r.quality.total_code_smells == 0
                &&& r.quality.avg_complexity == 0
                &&& r.impact.blast_radius@.len() == 0
                &&& r.composite_scores@.len() == 0
                &&& r.summary.num_communities == 0
                &&& r.summary.modularity == 0
                &&& r.summary.avg_complexity == 0
                &&& r.summary.high_risk_count == 0
                &&& r.summary.circular_dependencies == 0
            },
            g.fits() && g.n() <= MAX_CLOSURE_NODES ==> r.errors@.len() == 0,
            g.fits() && g.n() > MAX_CLOSURE_NODES ==> r.errors@.len() == 1,
    {
        if !self.config.use_cache {
            self.cache.clear();
        }
        let n = g.nodes.len();
        let m = g.edges.len();
        let mut errors: Vec<String> = Vec::new();

        let fits = g.check_fits();
        let risk_ok = fits && n >= 1 && n <= MAX_CLOSURE_NODES;

        let centrality = if fits {
            let cm = CentralityMetrics {
                max_iterations: self.config.pagerank_iterations,
                damping: self.config.pagerank_damping,
                use_sampling: self.config.use_sampling,
                sample_size: self.config.betweenness_sample_size,
            };
            cm.calculate_all(g)
        } else {
            errors.push(String::from_str("centrality skipped: graph beyond size bounds"));
            CentralityResults {
                degree: Vec::new(),
                pagerank: Vec::new(),
                betweenness: Vec::new(),
                closeness: Vec::new(),
                eigenvector: Vec::new(),
                k_core: Vec::new(),
                clustering: Vec::new(),
                errors: Vec::new(),
            }
        };

        let community = if fits {
            let cd = CommunityDetection {
                resolution: self.config.louvain_resolution,
                max_iterations: 100,
            };
            cd.detect_communities(g)
        } else {
            errors.push(String::from_str("community skipped: graph beyond size bounds"));
            CommunityResults {
                communities: Vec::new(),
                num_communities: 0,
                modularity: 0,
                cluster_sizes: Vec::new(),
                cluster_members: Vec::new(),
                boundary_scores: Vec::new(),
                errors: Vec::new(),
            }
        };

        let quality = if fits {
            QualityAnalyzer::new().analyze_quality(g)
        } else {
            errors.push(String::from_str("quality skipped: graph beyond size bounds"));
            QualityResults {
                coupling: Vec::new(),
                cohesion: Vec::new(),
                complexity: Vec::new(),
                maintainability: Vec::new(),
                code_smells: Vec::new(),
                avg_complexity: 0,
                avg_cohesion: 0,
                total_code_smells: 0,
                errors: Vec::new(),
            }
        };

        let risk = if risk_ok {
            RiskAnalyzer::new().analyze_risks(g)
        } else {
            if n != 0 {
                errors.push(String::from_str("risk skipped: graph beyond size bounds"));
            }
            RiskResults {
                risk_scores: Vec::new(),
                chokepoints: Vec::new(),
                circular_dependencies: Vec::new(),
                coupling_metrics: Vec::new(),
                technical_debt: Vec::new(),
                change_propagation: Vec::new(),
                high_risk_count: 0,
                total_circular_deps: 0,
                avg_risk_score: 0,
                cycles_truncated: false,
                errors: Vec::new(),
            }
        };

        let impact = if fits {
            ImpactAnalysis::analyze(g)
        } else {
            errors.push(String::from_str("impact skipped: graph beyond size bounds"));
            ImpactAnalysis {
                propagation_probability: Vec::new(),
                blast_radius: Vec::new(),
                dependency_depth: Vec::new(),
            }
        };

        // empirical normalization ranges
        let ghost betw_seq = betweenness_spec(
            *g,
            self.config.use_sampling,
            self.config.betweenness_sample_size as int,
        );
        let mut betw_lo: i64 = 0;
        let mut betw_hi: i64 = SCALE;
        if fits && n > 0 {
            betw_lo = centrality.betweenness[0];
            betw_hi = centrality.betweenness[0];
            let mut v: usize = 1;
            while v < n
                invariant
                    1 <= v <= n,
                    fits,
                    centrality.betweenness@ == betw_seq,
                    betw_seq.len() == n,
                    betw_lo as int == min_upto(betw_seq, v as int),
                    betw_hi as int == obs_max_upto(betw_seq, v as int),
                    0 <= betw_lo <= SCALE,
                    0 <= betw_hi <= SCALE,
                    forall|j: int| 0 <= j < n ==> 0 <= #[trigger] betw_seq[j] <= SCALE,
                decreases n - v,
            {
                if centrality.betweenness[v] < betw_lo {
                    betw_lo = centrality.betweenness[v];
                }
                if centrality.betweenness[v] > betw_hi {
                    betw_hi = centrality.betweenness[v];
                }
                v = v + 1;
            }
        }
        let mut clus_lo: i64 = 0;
        let mut clus_hi: i64 = SCALE;
        if fits && n > 0 {
            clus_lo = centrality.clustering[0];
            clus_hi = centrality.clustering[0];
            let mut v: usize = 1;
            while v < n
                invariant
                    1 <= v <= n,
                    fits,
                    centrality.clustering@ == crate::centrality::clustering_spec(*g),
                    centrality.clustering@.len() == n,
                    forall|j: int|
                        0 <= j < n ==> 0 <= #[trigger] centrality.clustering@[j] <= SCALE,
                    clus_lo as int == min_upto(centrality.clustering@, v as int),
                    clus_hi as int == obs_max_upto(centrality.clustering@, v as int),
                    0 <= clus_lo <= SCALE,
                    0 <= clus_hi <= SCALE,
                decreases n - v,
            {
                if centrality.clustering[v] < clus_lo {
                    clus_lo = centrality.clustering[v];
                }
                if centrality.clustering[v] > clus_hi {
                    clus_hi = centrality.clustering[v];
                }
                v = v + 1;
            }
        }
        let mut cplx_lo: i64 = 0;
        let mut cplx_hi: i64 = 50 * SCALE;
        if fits && n > 0 {
            cplx_lo = quality.complexity[0].cyclomatic;
            cplx_hi = quality.complexity[0].cyclomatic;
            let ghost cyclo_seq = Seq::new(
                g.n() as nat,
                |j: int| crate::quality::complexity_spec(*g, j).cyclomatic,
            );
            proof {
                assert forall|j: int|
                    0 <= j < n implies #[trigger] quality.complexity@[j].cyclomatic
                    == cyclo_seq[j] by {}
            }
            let mut v: usize = 1;
            while v < n
                invariant
                    1 <= v <= n,
                    fits,
                    quality.complexity@.len() == n,
                    forall|j: int| 0 <= j < n ==> quality.complexity@[j].cyclomatic == cyclo_seq[j],
                    forall|j: int|
                        0 <= j < n ==> 0 <= (#[trigger] quality.complexity@[j]).cyclomatic <= 10 * (
                        crate::graph::MAX_EDGES as int) + 1,
                    cplx_lo as int == min_upto(cyclo_seq, v as int),
                    cplx_hi as int == obs_max_upto(cyclo_seq, v as int),
                    0 <= cplx_lo <= 10000000001i64,
                    0 <= cplx_hi <= 10000000001i64,
                decreases n - v,
            {
                if quality.complexity[v].cyclomatic < cplx_lo {
                    cplx_lo = quality.complexity[v].cyclomatic;
                }
                if quality.complexity[v].cyclomatic > cplx_hi {
                    cplx_hi = quality.complexity[v].cyclomatic;
                }
                v = v + 1;
            }
        }
        let mut ind_lo: i64 = 0;
        let mut ind_hi: i64 = 10;
        if fits && n > 0 {
            let ind0 = g.in_degree(0);
            let ghost ind_seq = Seq::new(g.n() as nat, |j: int| g.spec_in_degree(j) as i64);
            proof {
                crate::graph::lemma_in_deg_bounds(g.edges@, 0, g.m());
                assert forall|j: int| 0 <= j < n implies 0 <= #[trigger] ind_seq[j] <= g.m() by {
                    crate::graph::lemma_in_deg_bounds(g.edges@, j, g.m());
                }
            }
            ind_lo = ind0 as i64;
            ind_hi = ind0 as i64;
            let mut v: usize = 1;
            while v < n
                invariant
                    1 <= v <= n,
                    ind_seq == Seq::new(g.n() as nat, |j: int| g.spec_in_degree(j) as i64),
                    forall|j: int| 0 <= j < n ==> 0 <= #[trigger] ind_seq[j] <= g.m(),
                    ind_lo as int == min_upto(ind_seq, v as int),
                    ind_hi as int == obs_max_upto(ind_seq, v as int),
                    0 <= ind_lo,
                    ind_lo <= g.m(),
                    0 <= ind_hi <= g.m(),
                decreases n - v,
            {
                let d = g.in_degree(v);
                proof {
                    crate::graph::lemma_in_deg_bounds(g.edges@, v as int, g.m());
                }
                if (d as i64) < ind_lo {
                    ind_lo = d as i64;
                }
                if (d as i64) > ind_hi {
                    ind_hi = d as i64;
                }
                v = v + 1;
            }
        }
        let normalization_ranges = NormalizationRanges {
            pagerank_lo: 0,
            pagerank_hi: SCALE,
            indegree_lo: ind_lo,
            indegree_hi: ind_hi,
            clustering_lo: clus_lo,
            clustering_hi: clus_hi,
            betweenness_lo: betw_lo,
            betweenness_hi: betw_hi,
            complexity_lo: cplx_lo,
            complexity_hi: cplx_hi,
        };

        // composite scores
        let mut composite_scores: Vec<CompositeOutputs> = Vec::new();
        if fits {
            let mut v: usize = 0;
            while v < n
                invariant
                    v <= n,
                    fits,
                    g.fits(),
                    n == g.n(),
                    self.config == old(self).config,
                    centrality.pagerank@ == pagerank_spec(
                        *g,
                        self.config.pagerank_iterations as nat,
                        self.config.pagerank_damping as int,
                    ),
                    centrality.pagerank@.len() == n,
                    forall|j: int|
                        0 <= j < n ==> 0 <= #[trigger] centrality.pagerank@[j] <= SCALE,
                    centrality.betweenness@ == betw_seq,
                    betw_seq.len() == n,
                    forall|j: int| 0 <= j < n ==> 0 <= #[trigger] centrality.betweenness@[j] <= SCALE,
                    centrality.degree@.len() == if n <= 1 {
                        0int
                    } else {
                        n as int
                    },
                    forall|j: int|
                        0 <= j < centrality.degree@.len() ==> centrality.degree@[j] == degree_spec(
                            *g,
                            j,
                        ),
                    forall|j: int|
                        0 <= j < centrality.degree@.len() ==> 0 <= (#[trigger] centrality.degree@[
                            j]).total_degree <= SCALE,
                    risk_ok == (1 <= g.n() <= MAX_CLOSURE_NODES),
                    risk_ok ==> risk.risk_scores@.len() == n,
                    risk_ok ==> forall|j: int|
                        0 <= j < n ==> risk.risk_scores@[j] == risk_score_spec(*g, j, 15, 10, 5),
                    risk_ok ==> forall|j: int|
                        0 <= j < n ==> 0 <= (#[trigger] risk.risk_scores@[j]).overall <= SCALE,
                    risk_ok ==> risk.chokepoints@.len() == n,
                    risk_ok ==> forall|j: int|
                        0 <= j < n ==> risk.chokepoints@[j] == chokepoint_spec(*g, j, 5),
                    risk_ok ==> forall|j: int|
                        0 <= j < n ==> 0 <= #[trigger] risk.chokepoints@[j] <= 2_000_000,
                    betw_lo as int == if n > 0 {
                        min_upto(betw_seq, n as int)
                    } else {
                        0int
                    },
                    betw_hi as int == if n > 0 {
                        obs_max_upto(betw_seq, n as int)
                    } else {
                        SCALE as int
                    },
                    -1_000_000_000_000_000 <= betw_lo <= 1_000_000_000_000_000,
                    -1_000_000_000_000_000 <= betw_hi <= 1_000_000_000_000_000,
                    composite_scores@.len() == v,
                    forall|j: int|
                        0 <= j < v ==> composite_scores@[j] == composite_spec(
                            *g,
                            self.config,
                            risk_ok,
                            j,
                        ),
                decreases n - v,
            {
                let pr = centrality.pagerank[v];
                let deg: i64 = if n <= 1 {
                    0
                } else {
                    centrality.degree[v].total_degree
                };
                let betw = centrality.betweenness[v];
                proof {
                    lemma_min_le_entry(betw_seq, n as int, v as int);
                }
                let nb = range_normalize(betw, betw_lo, betw_hi);
                let npr = crate::fixed::clamp_unit(pr);
                proof {
                    lemma_blend3_bounds(
                        self.config.weights.importance_pagerank as int,
                        npr as int,
                        self.config.weights.importance_degree as int,
                        deg as int,
                        self.config.weights.importance_betweenness as int,
                        nb as int,
                    );
                }
                let importance = (self.config.weights.importance_pagerank * npr
                    + self.config.weights.importance_degree * deg
                    + self.config.weights.importance_betweenness * nb) / SCALE;
                let riskv: i64 = if risk_ok {
                    risk.risk_scores[v].overall
                } else {
                    0
                };
                let chokev: i64 = if risk_ok {
                    risk.chokepoints[v]
                } else {
                    0
                };
                proof {
                    lemma_blend3_bounds(
                        self.config.weights.payoff_risk as int,
                        riskv as int,
                        self.config.weights.payoff_importance as int,
                        if importance as int <= SCALE as int {
                            importance as int
                        } else {
                            SCALE as int
                        },
                        self.config.weights.payoff_coverage as int,
                        SCALE as int / 2,
                    );
                    lemma_payoff_bounds(
                        self.config.weights,
                        riskv as int,
                        importance as int,
                    );
                }
                let payoff = (self.config.weights.payoff_risk * riskv
                    + self.config.weights.payoff_importance * importance
                    + self.config.weights.payoff_coverage * (SCALE / 2)) / SCALE;
                composite_scores.push(
                    CompositeOutputs { importance, chokepoint: chokev, risk: riskv, payoff },
                );
                v = v + 1;
            }
        }

        let summary = AnalysisSummary {
            total_nodes: n,
            total_edges: m,
            num_communities: community.num_communities,
            modularity: community.modularity,
            avg_complexity: quality.avg_complexity,
            high_risk_count: risk.high_risk_count,
            circular_dependencies: risk.total_circular_deps,
        };
        ModularAnalysisReport {
            centrality,
            community,
            risk,
            quality,
            impact,
            composite_scores,
            normalization_ranges,
            summary,
            errors,
        }
    }
}

/// The running minimum never exceeds any observed entry.
pub proof fn lemma_min_le_entry(s: Seq<i64>, k: int, j: int)
    requires
        0 <= j < k,
        k <= s.len(),
    ensures
        min_upto(s, k) <= s[j],
    decreases k,
{
    if j < k - 1 && k >= 2 {
        lemma_min_le_entry(s, k - 1, j);
    }
}

/// The payoff blend of in-range inputs stays in wide bounds.
pub proof fn lemma_payoff_bounds(w: MetricWeights, risk: int, importance: int)
    requires
        w.valid(),
        0 <= risk <= SCALE,
        0 <= importance <= 3_000_000,
    ensures
        0 <= w.payoff_risk as int * risk + w.payoff_importance as int * importance
            + w.payoff_coverage as int * (SCALE as int / 2) <= 10_000_000_000_000,
        0 <= (w.payoff_risk as int * risk + w.payoff_importance as int * importance
            + w.payoff_coverage as int * (SCALE as int / 2)) / (SCALE as int) <= 10_000_000,
{
    vstd::arithmetic::mul::lemma_mul_nonnegative(w.payoff_risk as int, risk);
    vstd::arithmetic::mul::lemma_mul_nonnegative(w.payoff_importance as int, importance);
    vstd::arithmetic::mul::lemma_mul_nonnegative(w.payoff_coverage as int, SCALE as int / 2);
    vstd::arithmetic::mul::lemma_mul_upper_bound(
        w.payoff_risk as int,
        SCALE as int,
        risk,
        SCALE as int,
    );
    vstd::arithmetic::mul::lemma_mul_upper_bound(
        w.payoff_importance as int,
        SCALE as int,
        importance,
        3_000_000,
    );
    vstd::arithmetic::mul::lemma_mul_upper_bound(
        w.payoff_coverage as int,
        SCALE as int,
        SCALE as int / 2,
        SCALE as int,
    );
    vstd::arithmetic::div_mod::lemma_div_pos_is_pos(
        w.payoff_risk as int * risk + w.payoff_importance as int * importance
            + w.payoff_coverage as int * (SCALE as int / 2),
        SCALE as int,
    );
    vstd::arithmetic::div_mod::lemma_div_is_ordered(
        w.payoff_risk as int * risk + w.payoff_importance as int * importance
            + w.payoff_coverage as int * (SCALE as int / 2),
        10_000_000_000_000,
        SCALE as int,
    );
}

} // verus!
