use codegraph::ast::AstNode;
use codegraph::ast::FileMetrics;
use codegraph::ast::Language;
use codegraph::ast::ParsedFile;
use codegraph::ast::Relationship;
use codegraph::builder::GraphBuilder;
use codegraph::ast::NodeType;
use codegraph::ast::ParseError;
use codegraph::ast::RelationshipType;
use codegraph::graph::CodeGraph;
use codegraph::graph::EdgeWeight;
use codegraph::graph::GraphEdge;
use codegraph::graph::GraphNode;
use codegraph::lod::FileNode;
use codegraph::lod::GraphSnapshot;
use codegraph::lod::LodLevel;
use codegraph::lod::PackageNode;
use codegraph::resolver::ImportResolver;
use codegraph::store::GraphStore;
use codegraph::files::find_common_base_path;
use codegraph::ui::default_version;

fn node(id: &str, node_type: NodeType) -> GraphNode {
    GraphNode {
        id: id.to_string(),
        name: id.to_string(),
        node_type,
        size: 10,
        file_path: None,
    }
}

fn edge() -> GraphEdge {
    GraphEdge { edge_type: RelationshipType::Calls, weight: EdgeWeight::Finite(1_000_000) }
}

#[test]
fn test_add_edge_drops_unknown_ids() {
    let mut g = CodeGraph::new();
    g.add_node(node("a", NodeType::File));
    g.add_node(node("b", NodeType::File));
    g.add_edge(&"a".to_string(), &"b".to_string(), edge());
    g.add_edge(&"a".to_string(), &"missing".to_string(), edge());
    g.add_edge(&"missing".to_string(), &"b".to_string(), edge());
    assert_eq!(g.node_count(), 2);
    assert_eq!(g.edge_count(), 1);
}

#[test]
fn test_add_node_duplicate_id_updates_in_place() {
    let mut g = CodeGraph::new();
    let first = g.add_node(node("a", NodeType::File));
    let second = g.add_node(node("a", NodeType::Class));
    assert_eq!(first, second);
    assert_eq!(g.node_count(), 1);
    assert_eq!(g.stats().class_count, 1);
    assert_eq!(g.stats().file_count, 0);
}

#[test]
fn test_graph_stats_counts() {
    let mut g = CodeGraph::new();
    g.add_node(node("f", NodeType::File));
    g.add_node(node("c", NodeType::Class));
    g.add_node(node("fun", NodeType::Function));
    g.add_edge(&"f".to_string(), &"c".to_string(), edge());
    let stats = g.stats();
    assert_eq!(stats.node_count, 3);
    assert_eq!(stats.link_count, 1);
    assert_eq!(stats.file_count, 1);
    assert_eq!(stats.function_count, 1);
    assert_eq!(stats.class_count, 1);
}

#[test]
fn test_type_tags() {
    assert_eq!(NodeType::File.as_str(), "file");
    assert_eq!(NodeType::TypeAlias.as_str(), "type");
    assert_eq!(RelationshipType::Imports.as_str(), "IMPORTS");
    assert_eq!(Language::TypeScript.as_str(), "typescript");
    assert!(Language::Python.extensions().contains(&".py"));
    assert_eq!(LodLevel::L4Functions.to_number(), 4);
    assert_eq!(default_version(), 1);
}

#[test]
fn test_parse_error_message() {
    let e = ParseError::ParseFailed("bad token".to_string());
    assert_eq!(e.message(), "Failed to parse: bad token");
    assert_eq!(ParseError::Utf8Error.message(), "UTF-8 conversion error");
}

#[test]
fn test_skip_external_imports() {
    let resolver = ImportResolver::new(String::new());
    let source_file = "src/main.ts".to_string();
    let files: Vec<String> = Vec::new();

    assert_eq!(resolver.resolve_import(&"react".to_string(), &source_file, &files), None);
    assert_eq!(resolver.resolve_import(&"@types/node".to_string(), &source_file, &files), None);
    assert_eq!(
        resolver.resolve_import(&"lodash/debounce".to_string(), &source_file, &files),
        None
    );
}

#[test]
fn test_resolve_relative_import_listing() {
    let resolver = ImportResolver::new(String::new());
    let source_file = "src/main.ts".to_string();
    let files = vec!["src/utils/helper.ts".to_string()];
    let resolved = resolver.resolve_import(&"./utils/helper".to_string(), &source_file, &files);
    assert_eq!(resolved, Some("file:src/utils/helper.ts".to_string()));
}

#[test]
fn test_resolve_index_file_listing() {
    let resolver = ImportResolver::new(String::new());
    let source_file = "src/main.ts".to_string();
    let files = vec!["src/utils/index.ts".to_string()];
    let resolved = resolver.resolve_import(&"./utils".to_string(), &source_file, &files);
    assert_eq!(resolved, Some("file:src/utils/index.ts".to_string()));
}

#[test]
fn test_derive_package_from_path() {
    assert_eq!(
        GraphSnapshot::derive_package_from_path(&Some("src/foo.ts".to_string())),
        "pkg.src"
    );
    assert_eq!(GraphSnapshot::derive_package_from_path(&Some("foo.ts".to_string())), "pkg.root");
    assert_eq!(GraphSnapshot::derive_package_from_path(&None), "pkg.root");
    assert_eq!(GraphSnapshot::extract_package_name(&"pkg.src".to_string()), "src");
    assert_eq!(GraphSnapshot::extract_package_name(&"other".to_string()), "other");
}

#[test]
fn test_store_load_snapshot_bundles_edges() {
    let snapshot = GraphSnapshot {
        packages: vec![
            PackageNode {
                id: "pkg.a".to_string(),
                label: "a".to_string(),
                file_ids: vec!["fa".to_string()],
            },
            PackageNode {
                id: "pkg.b".to_string(),
                label: "b".to_string(),
                file_ids: vec!["fb".to_string()],
            },
        ],
        files: vec![
            FileNode {
                id: "fa".to_string(),
                label: "a.ts".to_string(),
                package_id: Some("pkg.a".to_string()),
                function_ids: vec![],
                imports: vec!["fb".to_string(), "fb".to_string()],
                file_path: "a/a.ts".to_string(),
            },
            FileNode {
                id: "fb".to_string(),
                label: "b.ts".to_string(),
                package_id: Some("pkg.b".to_string()),
                function_ids: vec![],
                imports: vec![],
                file_path: "b/b.ts".to_string(),
            },
        ],
        functions: vec![],
    };
    let mut store = GraphStore::new();
    store.load_snapshot(snapshot);
    // the duplicate import bundles into one distinct file edge carrying
    // its exact multiplicity
    assert_eq!(store.file_edges.len(), 1);
    assert_eq!(store.file_edges[0].source, "fa");
    assert_eq!(store.file_edges[0].target, "fb");
    assert_eq!(store.file_edges[0].weight, 2);
    // and one cross-package edge
    assert_eq!(store.pkg_edges.len(), 1);
    assert_eq!(store.pkg_edges[0].source, "pkg.a");
    assert_eq!(store.pkg_edges[0].target, "pkg.b");
}

#[test]
fn test_sanitized_weights() {
    assert_eq!(EdgeWeight::NotANumber.sane(), 1_000_000);
    assert_eq!(EdgeWeight::PositiveInfinity.sane(), 1_000_000);
    assert_eq!(EdgeWeight::NegativeInfinity.sane(), 1_000_000);
    assert_eq!(EdgeWeight::Finite(-5).sane(), 1_000_000);
    assert_eq!(EdgeWeight::Finite(250_000).sane(), 250_000);
    // a weight of exactly zero stays zero
    assert_eq!(EdgeWeight::Finite(0).sane(), 0);
}

#[test]
fn test_pagerank_convenience_on_graph() {
    let mut g = CodeGraph::new();
    g.add_node(node("a", NodeType::File));
    g.add_node(node("b", NodeType::File));
    g.add_edge(&"a".to_string(), &"b".to_string(), edge());
    let ranks = g.calculate_pagerank(30, 850_000);
    assert_eq!(ranks.len(), 2);
    // the pointed-at node accumulates strictly more rank
    assert!(ranks[1] > ranks[0]);
    assert!(ranks[0] > 0);
}

#[test]
fn test_find_common_base_path() {
    let paths = vec![
        "proj/src/a.ts".to_string(),
        "proj/src/util/b.ts".to_string(),
        "proj/lib/c.ts".to_string(),
    ];
    assert_eq!(find_common_base_path(&paths), Some("proj".to_string()));
    assert_eq!(find_common_base_path(&Vec::new()), None);
    let single = vec!["proj/src/a.ts".to_string()];
    assert_eq!(find_common_base_path(&single), Some("proj/src".to_string()));
}

#[test]
fn test_build_from_parsed_files() {
    let ast = |id: &str, t: NodeType, lines: usize| AstNode {
        id: id.to_string(),
        node_type: t,
        name: id.to_string(),
        start_line: 1,
        end_line: lines,
        children: vec![],
    };
    let file = ParsedFile {
        path: "src/a.ts".to_string(),
        language: Language::TypeScript,
        nodes: vec![ast("file_a", NodeType::File, 100), ast("fn_a", NodeType::Function, 9)],
        relationships: vec![
            Relationship {
                source: "file_a".to_string(),
                target: "fn_a".to_string(),
                relationship_type: RelationshipType::Contains,
            },
            Relationship {
                source: "fn_a".to_string(),
                target: "missing".to_string(),
                relationship_type: RelationshipType::Calls,
            },
        ],
        metrics: FileMetrics::default(),
    };
    let g = GraphBuilder::new().build_from_files(&vec![file]);
    assert_eq!(g.node_count(), 2);
    // the relationship to an unknown id is dropped
    assert_eq!(g.edge_count(), 1);
    // a hundred lines cap the extent at ten; nine lines give none
    assert_eq!(g.nodes[0].size, 30);
    assert_eq!(g.nodes[1].size, 10);
    assert_eq!(g.nodes[0].file_path.as_deref(), Some("src/a.ts"));
}
