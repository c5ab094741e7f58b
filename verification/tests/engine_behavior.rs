use codegraph::ast::NodeType;
use codegraph::ast::RelationshipType;
use codegraph::engine::AnalyticsConfig;
use codegraph::engine::AnalyticsEngine;
use codegraph::fixed::SCALE;
use codegraph::graph::CodeGraph;
use codegraph::graph::EdgeWeight;
use codegraph::graph::GraphEdge;
use codegraph::graph::GraphNode;
use codegraph::report::MetricWeights;
use codegraph::ui::to_ui_metrics;

fn node(id: &str) -> GraphNode {
    GraphNode {
        id: id.to_string(),
        name: format!("Node {}", id),
        node_type: NodeType::File,
        size: 100,
        file_path: Some(format!("/{}.js", id)),
    }
}

fn weighted_edge(w: EdgeWeight) -> GraphEdge {
    GraphEdge { edge_type: RelationshipType::Imports, weight: w }
}

fn add_edge(g: &mut CodeGraph, src: &str, tgt: &str) {
    g.add_edge(&src.to_string(), &tgt.to_string(), weighted_edge(EdgeWeight::Finite(SCALE)));
}

#[test]
fn test_default_config() {
    let config = AnalyticsConfig::default();
    assert!(config.parallel);
    assert!(config.use_cache);
    assert_eq!(config.pagerank_iterations, 30);
}

#[test]
fn test_weights_sum_to_one() {
    let weights = MetricWeights::default();

    let importance_sum =
        weights.importance_pagerank + weights.importance_degree + weights.importance_betweenness;
    assert_eq!(importance_sum, SCALE);

    let risk_sum = weights.risk_complexity + weights.risk_coupling + weights.risk_churn;
    assert_eq!(risk_sum, SCALE);
}

#[test]
fn test_empty_graph_analyze_succeeds() {
    let graph = CodeGraph::new();
    let mut engine = AnalyticsEngine::new(AnalyticsConfig::default());
    let report = engine.analyze(&graph);
    assert_eq!(report.summary.total_nodes, 0);
    assert_eq!(report.summary.total_edges, 0);
    assert_eq!(report.summary.num_communities, 0);
    assert_eq!(report.composite_scores.len(), 0);
    assert!(report.errors.is_empty());
}

#[test]
fn test_graph_with_self_loop() {
    let mut graph = CodeGraph::new();
    graph.add_node(node("test"));
    add_edge(&mut graph, "test", "test");
    let mut engine = AnalyticsEngine::new(AnalyticsConfig::default());
    let report = engine.analyze(&graph);
    assert_eq!(report.summary.total_nodes, 1);
    assert!(report.errors.is_empty());
    assert!(report.composite_scores[0].importance >= 0);
}

#[test]
fn test_graph_with_nan_weights() {
    let mut graph = CodeGraph::new();
    for i in 0..3 {
        graph.add_node(node(&format!("node{}", i)));
    }
    graph.add_edge(
        &"node0".to_string(),
        &"node1".to_string(),
        weighted_edge(EdgeWeight::NotANumber),
    );
    graph.add_edge(
        &"node1".to_string(),
        &"node2".to_string(),
        weighted_edge(EdgeWeight::PositiveInfinity),
    );
    let mut engine = AnalyticsEngine::new(AnalyticsConfig::default());
    let report = engine.analyze(&graph);
    // every reported value is a plain bounded integer score
    for v in 0..3 {
        assert!(report.centrality.pagerank[v] >= 0 && report.centrality.pagerank[v] <= SCALE);
        assert!(report.centrality.betweenness[v] >= 0 && report.centrality.betweenness[v] <= SCALE);
        let c = &report.composite_scores[v];
        assert!(c.importance >= 0 && c.risk >= 0 && c.chokepoint >= 0 && c.payoff >= 0);
    }
    assert!(report.community.modularity >= 0 && report.community.modularity <= SCALE);
}

#[test]
fn test_disconnected_components() {
    let mut graph = CodeGraph::new();
    for i in 0..6 {
        graph.add_node(node(&format!("node{}", i)));
    }
    add_edge(&mut graph, "node0", "node1");
    add_edge(&mut graph, "node1", "node2");
    add_edge(&mut graph, "node3", "node4");
    add_edge(&mut graph, "node4", "node5");
    let mut engine = AnalyticsEngine::new(AnalyticsConfig::default());
    let report = engine.analyze(&graph);
    assert_eq!(report.centrality.pagerank.len(), 6);
    assert!(report.community.num_communities >= 2);
    assert!(report.errors.is_empty());
}

#[test]
fn test_parallel_vs_sequential_content() {
    let mut graph = CodeGraph::new();
    for i in 0..10 {
        graph.add_node(node(&format!("node{}", i)));
    }
    for i in 0..9 {
        add_edge(&mut graph, &format!("node{}", i), &format!("node{}", i + 1));
    }

    let mut config_parallel = AnalyticsConfig::default();
    config_parallel.parallel = true;
    let mut engine_parallel = AnalyticsEngine::new(config_parallel);
    let report_parallel = engine_parallel.analyze(&graph);

    let mut config_sequential = AnalyticsConfig::default();
    config_sequential.parallel = false;
    let mut engine_sequential = AnalyticsEngine::new(config_sequential);
    let report_sequential = engine_sequential.analyze(&graph);

    assert_eq!(
        report_parallel.centrality.degree.len(),
        report_sequential.centrality.degree.len()
    );
    assert_eq!(
        report_parallel.community.num_communities,
        report_sequential.community.num_communities
    );
    assert_eq!(report_parallel.summary.total_nodes, report_sequential.summary.total_nodes);
}

#[test]
fn test_analyze_idempotent_composites() {
    let mut graph = CodeGraph::new();
    for i in 0..5 {
        graph.add_node(node(&format!("node{}", i)));
    }
    add_edge(&mut graph, "node0", "node1");
    add_edge(&mut graph, "node1", "node2");
    add_edge(&mut graph, "node2", "node0");
    add_edge(&mut graph, "node3", "node4");

    let mut config = AnalyticsConfig::default();
    config.use_cache = false;
    let mut engine = AnalyticsEngine::new(config.clone());
    let first = engine.analyze(&graph);
    let second = engine.analyze(&graph);
    assert_eq!(first.composite_scores, second.composite_scores);
    assert_eq!(first.summary, second.summary);
}

#[test]
fn test_communities_split_across_weak_bridge() {
    // two tight triads joined by one weak cross edge
    let mut graph = CodeGraph::new();
    for i in 0..6 {
        graph.add_node(node(&format!("node{}", i)));
    }
    let heavy = EdgeWeight::Finite(2 * SCALE);
    for (a, b) in [(0, 1), (1, 2), (2, 0), (3, 4), (4, 5), (5, 3)] {
        graph.add_edge(
            &format!("node{}", a),
            &format!("node{}", b),
            weighted_edge(heavy),
        );
    }
    graph.add_edge(
        &"node0".to_string(),
        &"node3".to_string(),
        weighted_edge(EdgeWeight::Finite(SCALE / 10)),
    );
    let mut engine = AnalyticsEngine::new(AnalyticsConfig::default());
    let report = engine.analyze(&graph);
    assert!(report.community.num_communities >= 2);
    assert!(report.community.modularity > 0);
}

#[test]
fn test_god_object_high_risk() {
    let mut graph = CodeGraph::new();
    graph.add_node(GraphNode {
        id: "god".to_string(),
        name: "GodObject".to_string(),
        node_type: NodeType::Class,
        size: 1000,
        file_path: Some("/god.js".to_string()),
    });
    for i in 0..50 {
        let dep = format!("dep{}", i);
        graph.add_node(node(&dep));
        add_edge(&mut graph, "god", &dep);
    }
    let mut engine = AnalyticsEngine::new(AnalyticsConfig::default());
    let report = engine.analyze(&graph);
    assert!(report.risk.risk_scores[0].overall > 7 * SCALE / 10);
    assert_eq!(report.summary.high_risk_count, 1);
    assert_eq!(report.quality.code_smells[0].smells[0].smell_type, "God Object");
}

#[test]
fn test_cache_round_trip() {
    let mut engine = AnalyticsEngine::new(AnalyticsConfig::default());
    assert_eq!(engine.get_cached(&"node0_pagerank".to_string()), None);
    engine.set_cached("node0_pagerank".to_string(), 123_456);
    assert_eq!(engine.get_cached(&"node0_pagerank".to_string()), Some(123_456));
    assert_eq!(engine.get_cached(&"node0_betweenness".to_string()), None);
    engine.set_cached("node0_pagerank".to_string(), 654_321);
    assert_eq!(engine.get_cached(&"node0_pagerank".to_string()), Some(654_321));
}

#[test]
fn test_cache_cleared_when_disabled() {
    let mut config = AnalyticsConfig::default();
    config.use_cache = true;
    let mut engine = AnalyticsEngine::new(config);
    engine.set_cached("stale".to_string(), 7);
    assert_eq!(engine.get_cached(&"stale".to_string()), Some(7));
    // a run with caching disabled clears stale entries
    engine.config.use_cache = false;
    let graph = CodeGraph::new();
    let _ = engine.analyze(&graph);
    assert_eq!(engine.get_cached(&"stale".to_string()), None);
}

#[test]
fn test_ui_projection_fields() {
    let mut graph = CodeGraph::new();
    graph.add_node(node("node0"));
    graph.add_node(node("node1"));
    add_edge(&mut graph, "node0", "node1");
    let mut engine = AnalyticsEngine::new(AnalyticsConfig::default());
    let report = engine.analyze(&graph);
    let ui = to_ui_metrics(&report, &graph);
    assert_eq!(ui.len(), 2);
    for m in &ui {
        assert_eq!(m.version, 1);
        assert!(!m.path.is_empty());
        assert!(!m.name.is_empty());
        assert!(m.importance >= 0 && m.importance <= SCALE);
        assert!(m.risk >= 0 && m.risk <= SCALE);
        assert!(m.payoff >= 0 && m.payoff <= SCALE);
    }
    assert_eq!(ui[0].raw.outdegree, 1);
    assert_eq!(ui[1].raw.indegree, 1);
}

#[test]
fn test_normalizer_degenerate_ranges() {
    // the plain normalizer maps a collapsed range to zero; the report
    // pipeline's range normalizer maps it to one half
    assert_eq!(codegraph::report::normalize(5, 5, 5), 0);
    assert_eq!(codegraph::report::range_normalize(5, 5, 5), SCALE / 2);
    assert_eq!(codegraph::report::normalize(5, 0, 10), SCALE / 2);
    assert_eq!(codegraph::report::range_normalize(5, 0, 10), SCALE / 2);
    // values below the range clamp to zero in both
    assert_eq!(codegraph::report::normalize(-1, 0, 10), 0);
    assert_eq!(codegraph::report::range_normalize(-1, 0, 10), 0);
}
