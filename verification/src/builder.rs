//! Building a code graph out of parsed files: first every file's nodes,
//! then every file's relationships, so that cross-file edges always find
//! their endpoints.
use vstd::prelude::*;

use crate::ast::AstNode;
use crate::ast::NodeType;
use crate::ast::ParsedFile;
use crate::ast::RelationshipType;
use crate::graph::CodeGraph;
use crate::graph::Edge;
use crate::graph::EdgeWeight;
use crate::graph::GraphEdge;
use crate::graph::GraphNode;
use crate::graph::id_index_upto;

verus! {

/// The display size of an entity: a base per node type, plus one tenth of
/// its line extent, capped at ten.
pub open spec fn node_size_spec(n: AstNode) -> int {
    let base: int = if n.node_type is File || n.node_type is Module {
        20
    } else if n.node_type is Class || n.node_type is Interface {
        15
    } else if n.node_type is Function || n.node_type is Method {
        10
    } else {
        5
    };
    let lines: int = if n.end_line >= n.start_line {
        n.end_line - n.start_line + 1
    } else {
        1
    };
    base + if lines / 10 <= 10 {
        lines / 10
    } else {
        10
    }
}

/// The weight of a relationship, in fixed point: containment and plain
/// references weigh one unit, imports and exports two, inheritance three,
/// calls one and a half.
pub open spec fn edge_weight_spec(t: RelationshipType) -> int {
    match t {
        RelationshipType::Contains => 1_000_000,
        RelationshipType::Imports => 2_000_000,
        RelationshipType::Exports => 2_000_000,
        RelationshipType::Extends => 3_000_000,
        RelationshipType::Implements => 3_000_000,
        RelationshipType::Calls => 1_500_000,
        RelationshipType::References => 1_000_000,
    }
}

/// The graph node an AST node maps to, under its file's path.
pub open spec fn ast_to_graph_node(n: AstNode, path: String) -> GraphNode {
    GraphNode {
        id: n.id,
        name: n.name,
        node_type: n.node_type,
        size: node_size_spec(n) as u64,
        file_path: Some(path),
    }
}

/// The node list after adding one node, as `add_node` leaves it.
pub open spec fn add_node_view(nodes: Seq<GraphNode>, node: GraphNode) -> Seq<GraphNode> {
    match id_index_upto(nodes, node.id@, nodes.len() as int) {
        Some(i) => nodes.update(i, node),
        None => nodes.push(node),
    }
}

/// The node list after adding the first `k` nodes of one file.
pub open spec fn add_file_nodes(nodes: Seq<GraphNode>, f: ParsedFile, k: int) -> Seq<GraphNode>
    decreases k,
{
    if k <= 0 {
        nodes
    } else {
        add_node_view(add_file_nodes(nodes, f, k - 1), ast_to_graph_node(f.nodes@[k - 1], f.path))
    }
}

/// The node list after the node pass over the first `i` files.
pub open spec fn nodes_pass(files: Seq<ParsedFile>, i: int) -> Seq<GraphNode>
    decreases i,
{
    if i <= 0 {
        Seq::empty()
    } else {
        add_file_nodes(nodes_pass(files, i - 1), files[i - 1], files[i - 1].nodes@.len() as int)
    }
}

/// The edge list after adding one relationship, as `add_edge` leaves it:
/// a relationship naming an unknown id is dropped.
pub open spec fn add_edge_view(
    nodes: Seq<GraphNode>,
    edges: Seq<Edge>,
    source_id: Seq<char>,
    target_id: Seq<char>,
    edge_type: RelationshipType,
) -> Seq<Edge> {
    match (
        id_index_upto(nodes, source_id, nodes.len() as int),
        id_index_upto(nodes, target_id, nodes.len() as int),
    ) {
        (Some(s), Some(t)) => edges.push(
            Edge {
                source: s as usize,
                target: t as usize,
                edge_type,
                weight: EdgeWeight::Finite(edge_weight_spec(edge_type) as i64),
            },
        ),
        _ => edges,
    }
}

/// The edge list after adding the first `k` relationships of one file.
pub open spec fn add_file_edges(nodes: Seq<GraphNode>, edges: Seq<Edge>, f: ParsedFile, k: int) -> Seq<
    Edge,
>
    decreases k,
{
    if k <= 0 {
        edges
    } else {
        let r = f.relationships@[k - 1];
        add_edge_view(
            nodes,
            add_file_edges(nodes, edges, f, k - 1),
            r.source@,
            r.target@,
            r.relationship_type,
        )
    }
}

/// The edge list after the relationship pass over the first `i` files.
pub open spec fn edges_pass(nodes: Seq<GraphNode>, files: Seq<ParsedFile>, i: int) -> Seq<Edge>
    decreases i,
{
    if i <= 0 {
        Seq::empty()
    } else {
        add_file_edges(
            nodes,
            edges_pass(nodes, files, i - 1),
            files[i - 1],
            files[i - 1].relationships@.len() as int,
        )
    }
}

/// Graph builder that converts parsed files into a code graph.
pub struct GraphBuilder {
    pub graph: CodeGraph,
}

impl GraphBuilder {
    /// A builder around an empty graph.
    pub fn new() -> (r: GraphBuilder)
        ensures
            r.graph.wf(),
            r.graph.n() == 0,
            r.graph.m() == 0,
    {
        GraphBuilder { graph: CodeGraph::new() }
    }

    /// Build a graph from parsed files: a node pass over every file, then
    /// a relationship pass, each pinned to its fold.
    #[verifier::loop_isolation(false)]
    pub fn build_from_files(self, files: &Vec<ParsedFile>) -> (g: CodeGraph)
        requires
            self.graph.n() == 0,
            self.graph.m() == 0,
            self.graph.wf(),
        ensures
            g.wf(),
            g.nodes@ == nodes_pass(files@, files@.len() as int),
            g.edges@ == edges_pass(g.nodes@, files@, files@.len() as int),
    {
        let mut g = self.graph;
        let fl = files.len();
        let mut i: usize = 0;
        while i < fl
            invariant
                i <= fl,
                g.wf(),
                g.nodes@ == nodes_pass(files@, i as int),
                g.edges@.len() == 0,
            decreases fl - i,
        {
            let nl = files[i].nodes.len();
            let mut j: usize = 0;
            while j < nl
                invariant
                    j <= nl,
                    i < fl,
                    nl == files@[i as int].nodes@.len(),
                    g.wf(),
                    g.nodes@ == add_file_nodes(
                        nodes_pass(files@, i as int),
                        files@[i as int],
                        j as int,
                    ),
                    g.edges@.len() == 0,
                decreases nl - j,
            {
                let ast = &files[i].nodes[j];
                let base: u64 = if ast.node_type.is_file_like() {
                    20
                } else if matches!(ast.node_type, NodeType::Class | NodeType::Interface) {
                    15
                } else if ast.node_type.is_callable() {
                    10
                } else {
                    5
                };
                let lines: usize = if ast.end_line >= ast.start_line {
                    if ast.end_line - ast.start_line < usize::MAX {
                        ast.end_line - ast.start_line + 1
                    } else {
                        usize::MAX
                    }
                } else {
                    1
                };
                let extent: u64 = if lines / 10 <= 10 {
                    (lines / 10) as u64
                } else {
                    10
                };
                let node = GraphNode {
                    id: ast.id.clone(),
                    name: ast.name.clone(),
                    node_type: ast.node_type,
                    size: base + extent,
                    file_path: Some(files[i].path.clone()),
                };
                proof {
                    assert(node == ast_to_graph_node(
                        files@[i as int].nodes@[j as int],
                        files@[i as int].path,
                    ));
                }
                let _ = g.add_node(node);
                j = j + 1;
            }
            i = i + 1;
        }

        let ghost all_nodes = g.nodes@;
        let mut i: usize = 0;
        while i < fl
            invariant
                i <= fl,
                g.wf(),
                g.nodes@ == all_nodes,
                all_nodes == nodes_pass(files@, fl as int),
                g.edges@ == edges_pass(all_nodes, files@, i as int),
            decreases fl - i,
        {
            let rl = files[i].relationships.len();
            let mut j: usize = 0;
            while j < rl
                invariant
                    j <= rl,
                    i < fl,
                    rl == files@[i as int].relationships@.len(),
                    g.wf(),
                    g.nodes@ == all_nodes,
                    g.edges@ == add_file_edges(
                        all_nodes,
                        edges_pass(all_nodes, files@, i as int),
                        files@[i as int],
                        j as int,
                    ),
                decreases rl - j,
            {
                let rel = &files[i].relationships[j];
                let w: i64 = match rel.relationship_type {
                    RelationshipType::Contains => 1_000_000,
                    RelationshipType::Imports => 2_000_000,
                    RelationshipType::Exports => 2_000_000,
                    RelationshipType::Extends => 3_000_000,
                    RelationshipType::Implements => 3_000_000,
                    RelationshipType::Calls => 1_500_000,
                    RelationshipType::References => 1_000_000,
                };
                g.add_edge(
                    &rel.source,
                    &rel.target,
                    GraphEdge {
                        edge_type: rel.relationship_type,
                        weight: EdgeWeight::Finite(w),
                    },
                );
                j = j + 1;
            }
            i = i + 1;
        }
        g
    }
}

} // verus!
