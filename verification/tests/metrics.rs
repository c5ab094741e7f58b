use codegraph::ast::NodeType;
use codegraph::ast::RelationshipType;
use codegraph::centrality::CentralityMetrics;
use codegraph::community::CommunityDetection;
use codegraph::fixed::SCALE;
use codegraph::graph::CodeGraph;
use codegraph::graph::EdgeWeight;
use codegraph::graph::GraphEdge;
use codegraph::graph::GraphNode;
use codegraph::impact::ImpactAnalysis;
use codegraph::quality::QualityAnalyzer;
use codegraph::risk::RiskAnalyzer;

fn node(id: &str, node_type: NodeType) -> GraphNode {
    GraphNode {
        id: id.to_string(),
        name: format!("Node {}", id),
        node_type,
        size: 100,
        file_path: Some(format!("/{}.js", id)),
    }
}

fn edge() -> GraphEdge {
    GraphEdge { edge_type: RelationshipType::Imports, weight: EdgeWeight::Finite(SCALE) }
}

fn add_edge(g: &mut CodeGraph, src: &str, tgt: &str) {
    g.add_edge(&src.to_string(), &tgt.to_string(), edge());
}

fn file_nodes(g: &mut CodeGraph, count: usize) {
    for i in 0..count {
        g.add_node(node(&format!("node{}", i), NodeType::File));
    }
}

#[test]
fn lib_test_empty_graph() {
    let graph = CodeGraph::new();

    let metrics = CentralityMetrics::new();
    let results = metrics.calculate_all(&graph);
    assert!(results.degree.is_empty());
    assert!(results.pagerank.is_empty());

    let detector = CommunityDetection::new();
    let communities = detector.detect_communities(&graph);
    assert_eq!(communities.num_communities, 0);
    assert_eq!(communities.modularity, 0);

    let analyzer = RiskAnalyzer::new();
    let risks = analyzer.analyze_risks(&graph);
    assert_eq!(risks.high_risk_count, 0);
    assert_eq!(risks.total_circular_deps, 0);

    let quality = QualityAnalyzer::new().analyze_quality(&graph);
    assert_eq!(quality.total_code_smells, 0);
    assert_eq!(quality.avg_complexity, 0);
    assert_eq!(quality.avg_cohesion, 0);
}

#[test]
fn test_single_node() {
    let mut graph = CodeGraph::new();
    graph.add_node(GraphNode {
        id: "node1".to_string(),
        name: "Node 1".to_string(),
        node_type: NodeType::File,
        size: 100,
        file_path: Some("/test.js".to_string()),
    });

    let metrics = CentralityMetrics::new();
    let results = metrics.calculate_all(&graph);
    // a one-node graph has no degree entries, but every other metric
    // reports the node
    assert_eq!(results.degree.len(), 0);
    assert_eq!(results.pagerank.len(), 1);
    assert_eq!(results.closeness, vec![SCALE]);
    assert_eq!(results.eigenvector, vec![SCALE]);
    assert_eq!(results.betweenness, vec![0]);
    assert_eq!(results.clustering, vec![0]);
}

#[test]
fn test_single_community() {
    let mut graph = CodeGraph::new();
    file_nodes(&mut graph, 3);
    add_edge(&mut graph, "node0", "node1");
    add_edge(&mut graph, "node1", "node2");

    let detector = CommunityDetection::new();
    let results = detector.detect_communities(&graph);
    assert!(results.num_communities >= 1);
    assert!(results.modularity >= 0);
}

#[test]
fn lib_test_circular_dependency() {
    let mut graph = CodeGraph::new();
    file_nodes(&mut graph, 3);
    add_edge(&mut graph, "node0", "node1");
    add_edge(&mut graph, "node1", "node2");
    add_edge(&mut graph, "node2", "node0");

    let analyzer = RiskAnalyzer::new();
    let results = analyzer.analyze_risks(&graph);
    assert_eq!(results.total_circular_deps, 1);
    assert_eq!(results.circular_dependencies[0].len(), 3);
}

#[test]
fn test_god_object_detection() {
    let mut graph = CodeGraph::new();
    graph.add_node(GraphNode {
        id: "god".to_string(),
        name: "GodObject".to_string(),
        node_type: NodeType::Class,
        size: 1000,
        file_path: Some("/god.js".to_string()),
    });
    for i in 0..35 {
        let dep = format!("dep{}", i);
        graph.add_node(GraphNode {
            id: dep.clone(),
            name: format!("Dep{}", i),
            node_type: NodeType::File,
            size: 100,
            file_path: Some(format!("/dep{}.js", i)),
        });
        add_edge(&mut graph, "god", &dep);
    }

    let analyzer = QualityAnalyzer::new();
    let results = analyzer.analyze_quality(&graph);
    assert!(!results.code_smells[0].smells.is_empty());
    assert_eq!(results.code_smells[0].smells[0].smell_type, "God Object");
}

#[test]
fn test_degree_star_exact_values() {
    // a star with four rays: the center's out-degree fills the whole
    // range, its total degree is exactly half a unit, and every ray ranks
    // strictly below it
    let mut graph = CodeGraph::new();
    file_nodes(&mut graph, 5);
    for i in 1..5 {
        add_edge(&mut graph, "node0", &format!("node{}", i));
    }
    let results = CentralityMetrics::new().calculate_all(&graph);
    assert_eq!(results.degree[0].out_degree, SCALE);
    assert_eq!(results.degree[0].in_degree, 0);
    assert_eq!(results.degree[0].total_degree, SCALE / 2);
    for i in 1..5 {
        assert_eq!(results.degree[i].total_degree, SCALE / 8);
        assert!(results.degree[0].total_degree > results.degree[i].total_degree);
    }
    // the rays carry no mass back, so the power iteration degenerates and
    // falls back to degree centrality
    for i in 0..5 {
        assert_eq!(results.eigenvector[i], results.degree[i].total_degree);
    }
}

#[test]
fn test_closeness_chain_exact_values() {
    let mut graph = CodeGraph::new();
    file_nodes(&mut graph, 2);
    add_edge(&mut graph, "node0", "node1");
    let results = CentralityMetrics::new().calculate_all(&graph);
    // node0 reaches one node at distance one; node1 reaches nothing
    assert_eq!(results.closeness, vec![SCALE, 0]);
}

#[test]
fn test_clustering_triangle_full() {
    let mut graph = CodeGraph::new();
    file_nodes(&mut graph, 3);
    add_edge(&mut graph, "node0", "node1");
    add_edge(&mut graph, "node1", "node2");
    add_edge(&mut graph, "node2", "node0");
    let results = CentralityMetrics::new().calculate_all(&graph);
    // every node's two neighbors are themselves adjacent
    assert_eq!(results.clustering, vec![SCALE, SCALE, SCALE]);
    // and the triangle peels as one two-shell
    assert_eq!(results.k_core, vec![2, 2, 2]);
}

#[test]
fn test_pagerank_isolated_node_exact() {
    let mut graph = CodeGraph::new();
    file_nodes(&mut graph, 1);
    let results = CentralityMetrics::new().calculate_all(&graph);
    // with no incoming edges the rank settles at the teleport share,
    // fifteen hundredths of a unit under 0.85 damping
    assert_eq!(results.pagerank, vec![150_000]);
}

#[test]
fn test_betweenness_middle_of_chain() {
    let mut graph = CodeGraph::new();
    file_nodes(&mut graph, 3);
    add_edge(&mut graph, "node0", "node1");
    add_edge(&mut graph, "node1", "node2");
    let results = CentralityMetrics::new().calculate_all(&graph);
    // only the middle node lies strictly between a source and a target
    assert_eq!(results.betweenness[0], 0);
    assert_eq!(results.betweenness[1], SCALE);
    assert_eq!(results.betweenness[2], 0);
}

#[test]
fn test_impact_chain() {
    let mut graph = CodeGraph::new();
    file_nodes(&mut graph, 3);
    add_edge(&mut graph, "node0", "node1");
    add_edge(&mut graph, "node1", "node2");
    let impact = ImpactAnalysis::analyze(&graph);
    // changing node2 directly hits node1 and indirectly node0
    assert_eq!(impact.blast_radius[2].direct_impact, vec![1]);
    assert_eq!(impact.blast_radius[2].indirect_impact, vec![0]);
    assert_eq!(impact.blast_radius[2].total_affected, 2);
    // node0 reaches the dependency root node2 in two hops
    assert_eq!(impact.dependency_depth[0], 2);
    assert_eq!(impact.dependency_depth[2], 0);
    let deep = impact.get_deep_dependencies(2);
    assert_eq!(deep, vec![(0, 2)]);
}

#[test]
fn test_risk_bottleneck_term() {
    let mut graph = CodeGraph::new();
    file_nodes(&mut graph, 13);
    for i in 1..7 {
        add_edge(&mut graph, &format!("node{}", i), "node0");
        add_edge(&mut graph, "node0", &format!("node{}", i + 6));
    }
    let results = RiskAnalyzer::new().analyze_risks(&graph);
    // six in and six out: past the bottleneck threshold of five
    assert_eq!(results.risk_scores[0].bottleneck, SCALE / 2);
    // both degree scores are six tenths, and so is their geometric mean
    assert_eq!(results.chokepoints[0], 600_000);
    assert_eq!(results.risk_scores[1].bottleneck, 0);
}

#[test]
fn test_quality_cohesion_and_coupling() {
    let mut graph = CodeGraph::new();
    graph.add_node(node("cls", NodeType::Class));
    graph.add_node(node("f1", NodeType::Method));
    graph.add_node(node("f2", NodeType::Method));
    add_edge(&mut graph, "cls", "f1");
    add_edge(&mut graph, "cls", "f2");
    add_edge(&mut graph, "f1", "f2");
    let results = QualityAnalyzer::new().analyze_quality(&graph);
    // one of two possible ordered connections between the two children
    assert_eq!(results.cohesion[0], SCALE / 2);
    // class-to-class coupling only counts module-like neighbors
    assert_eq!(results.coupling[0].afferent, 0);
    assert_eq!(results.coupling[0].efferent, 0);
}

#[test]
fn test_boundary_scores_cross_community() {
    let mut graph = CodeGraph::new();
    file_nodes(&mut graph, 4);
    add_edge(&mut graph, "node0", "node1");
    add_edge(&mut graph, "node1", "node0");
    add_edge(&mut graph, "node2", "node3");
    add_edge(&mut graph, "node3", "node2");
    let detector = CommunityDetection::new();
    let results = detector.detect_communities(&graph);
    // two mutually-linked pairs with no cross edges: no node sits on a
    // community boundary
    for v in 0..4 {
        assert_eq!(results.boundary_scores[v], 0);
    }
    assert_eq!(results.num_communities, 2);
    assert_eq!(results.cluster_sizes, vec![2, 2]);
}

#[test]
fn test_maintainability_isolated_node_exact() {
    let mut graph = CodeGraph::new();
    file_nodes(&mut graph, 1);
    let results = QualityAnalyzer::new().analyze_quality(&graph);
    // no edges: the degree factors are whole units and the size factor is
    // five sixths for a node of size one hundred
    let f2 = 500 * SCALE / 600;
    assert_eq!(results.maintainability[0], (4 * SCALE + 3 * f2 + 3 * SCALE) / 10);
}

#[test]
fn test_technical_debt_chain_exact() {
    let mut graph = CodeGraph::new();
    file_nodes(&mut graph, 2);
    add_edge(&mut graph, "node0", "node1");
    let results = RiskAnalyzer::new().analyze_risks(&graph);
    // the head: one dependency and no depth; files add a size factor
    assert_eq!(results.technical_debt[0], (SCALE / 10 + 0 + SCALE / 20) / 3);
    // the tail: no dependencies, one hop below the root
    assert_eq!(results.technical_debt[1], (0 + SCALE / 10 + 0) / 3);
}

#[test]
fn test_change_propagation_chain_exact() {
    let mut graph = CodeGraph::new();
    file_nodes(&mut graph, 2);
    add_edge(&mut graph, "node0", "node1");
    let results = RiskAnalyzer::new().analyze_risks(&graph);
    // one direct dependent over two nodes; half a transitive dependent
    // rounds away
    assert_eq!(results.change_propagation[1], SCALE / 2);
    assert_eq!(results.change_propagation[0], 0);
}

#[test]
fn test_severity_piecewise_exact() {
    let mut graph = CodeGraph::new();
    file_nodes(&mut graph, 3);
    add_edge(&mut graph, "node0", "node1");
    add_edge(&mut graph, "node1", "node2");
    let impact = ImpactAnalysis::analyze(&graph);
    // one direct and one indirect dependent of node2 weigh half the
    // graph, which lands in the steep upper severity regime
    assert_eq!(impact.blast_radius[2].severity, 900_000);
    // the decayed masses: the node itself, its direct and its indirect
    // dependent, normalized over three nodes
    assert_eq!(
        impact.propagation_probability[2],
        (SCALE + 700_000 + 490_000) / 3
    );
}

#[test]
fn test_eigenvector_uniform_without_proper_edges() {
    let mut graph = CodeGraph::new();
    file_nodes(&mut graph, 4);
    add_edge(&mut graph, "node0", "node0");
    let results = CentralityMetrics::new().calculate_all(&graph);
    // self-loops are excluded, so the graph has no proper edges and every
    // node takes one quarter of a unit
    assert_eq!(results.eigenvector, vec![SCALE / 4; 4]);
}

#[test]
fn test_betweenness_sampling_large_chain() {
    let mut graph = CodeGraph::new();
    file_nodes(&mut graph, 30);
    for i in 0..29 {
        add_edge(&mut graph, &format!("node{}", i), &format!("node{}", i + 1));
    }
    let metrics = CentralityMetrics {
        max_iterations: 50,
        damping: 850_000,
        use_sampling: true,
        sample_size: 10,
    };
    let results = metrics.calculate_all(&graph);
    assert_eq!(results.betweenness.len(), 30);
    let max = results.betweenness.iter().max().copied().unwrap();
    assert_eq!(max, SCALE);
    for v in results.betweenness {
        assert!(v >= 0 && v <= SCALE);
    }
}

#[test]
fn test_zero_total_weight_singleton_partition() {
    // edges exist, but they all weigh exactly zero: community detection
    // short-circuits to the singleton partition
    let mut graph = CodeGraph::new();
    file_nodes(&mut graph, 3);
    let zero = GraphEdge { edge_type: RelationshipType::Imports, weight: EdgeWeight::Finite(0) };
    graph.add_edge(&"node0".to_string(), &"node1".to_string(), zero.clone());
    graph.add_edge(&"node1".to_string(), &"node2".to_string(), zero);
    let results = CommunityDetection::new().detect_communities(&graph);
    assert_eq!(results.communities, vec![0, 1, 2]);
    assert_eq!(results.num_communities, 3);
    assert_eq!(results.modularity, 0);
}

#[test]
fn test_blast_radius_self_loop() {
    // a node with a self-loop is an immediate dependent of itself
    let mut graph = CodeGraph::new();
    file_nodes(&mut graph, 2);
    add_edge(&mut graph, "node0", "node0");
    add_edge(&mut graph, "node1", "node0");
    let impact = ImpactAnalysis::analyze(&graph);
    assert_eq!(impact.blast_radius[0].direct_impact, vec![0, 1]);
    assert_eq!(impact.blast_radius[0].total_affected, 2);
}

#[test]
fn test_cluster_member_lists() {
    let mut graph = CodeGraph::new();
    file_nodes(&mut graph, 4);
    add_edge(&mut graph, "node0", "node1");
    add_edge(&mut graph, "node1", "node0");
    add_edge(&mut graph, "node2", "node3");
    add_edge(&mut graph, "node3", "node2");
    let results = CommunityDetection::new().detect_communities(&graph);
    // every node sits in exactly the member list of its community
    assert_eq!(results.cluster_members.len(), results.num_communities);
    for (c, members) in results.cluster_members.iter().enumerate() {
        for &v in members {
            assert_eq!(results.communities[v], c);
        }
    }
    let total: usize = results.cluster_members.iter().map(|m| m.len()).sum();
    assert_eq!(total, 4);
}
