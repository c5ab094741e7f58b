//! Code-entity vocabulary: the kinds of nodes, relationships and languages
//! that a parsed codebase is described with, plus the per-file containers
//! an external parser hands over.
use vstd::prelude::*;

verus! {

/// Node types in the AST.
#[derive(Debug, Clone, Copy, PartialEq, Eq, Structural)]
pub enum NodeType {
    File,
    Module,
    Class,
    Interface,
    Function,
    Method,
    Variable,
    Property,
    Import,
    Export,
    TypeAlias,
    Enum,
}

impl NodeType {
    /// The lowercase tag used for this node type in exchanged data.
    pub fn as_str(&self) -> (r: &'static str)
        ensures
            r@ == self.tag(),
    {
        match self {
            NodeType::File => "file",
            NodeType::Module => "module",
            NodeType::Class => "class",
            NodeType::Interface => "interface",
            NodeType::Function => "function",
            NodeType::Method => "method",
            NodeType::Variable => "variable",
            NodeType::Property => "property",
            NodeType::Import => "import",
            NodeType::Export => "export",
            NodeType::TypeAlias => "type",
            NodeType::Enum => "enum",
        }
    }

    /// The tag of each node type, as a character sequence.
    pub open spec fn tag(self) -> Seq<char> {
        match self {
            NodeType::File => "file"@,
            NodeType::Module => "module"@,
            NodeType::Class => "class"@,
            NodeType::Interface => "interface"@,
            NodeType::Function => "function"@,
            NodeType::Method => "method"@,
            NodeType::Variable => "variable"@,
            NodeType::Property => "property"@,
            NodeType::Import => "import"@,
            NodeType::Export => "export"@,
            NodeType::TypeAlias => "type"@,
            NodeType::Enum => "enum"@,
        }
    }

    /// Whether this type stands for a module-like container (file, module or
    /// class), the granularity at which coupling is measured.
    pub fn is_module_like(&self) -> (r: bool)
        ensures
            r == self.spec_module_like(),
    {
        matches!(self, NodeType::File | NodeType::Module | NodeType::Class)
    }

    pub open spec fn spec_module_like(self) -> bool {
        self is File || self is Module || self is Class
    }

    /// Whether this type stands for a callable unit (function or method).
    pub fn is_callable(&self) -> (r: bool)
        ensures
            r == self.spec_callable(),
    {
        matches!(self, NodeType::Function | NodeType::Method)
    }

    pub open spec fn spec_callable(self) -> bool {
        self is Function || self is Method
    }

    /// Whether this type stands for a file-like container (file or module).
    pub fn is_file_like(&self) -> (r: bool)
        ensures
            r == self.spec_file_like(),
    {
        matches!(self, NodeType::File | NodeType::Module)
    }

    pub open spec fn spec_file_like(self) -> bool {
        self is File || self is Module
    }
}

/// Types of relationships between nodes.
#[derive(Debug, Clone, Copy, PartialEq, Eq, Structural)]
pub enum RelationshipType {
    Contains,
    Calls,
    Imports,
    Exports,
    Extends,
    Implements,
    References,
}

impl RelationshipType {
    /// The uppercase tag used for this relationship in exchanged data.
    pub fn as_str(&self) -> (r: &'static str)
        ensures
            r@ == self.tag(),
    {
        match self {
            RelationshipType::Contains => "CONTAINS",
            RelationshipType::Calls => "CALLS",
            RelationshipType::Imports => "IMPORTS",
            RelationshipType::Exports => "EXPORTS",
            RelationshipType::Extends => "EXTENDS",
            RelationshipType::Implements => "IMPLEMENTS",
            RelationshipType::References => "REFERENCES",
        }
    }

    pub open spec fn tag(self) -> Seq<char> {
        match self {
            RelationshipType::Contains => "CONTAINS"@,
            RelationshipType::Calls => "CALLS"@,
            RelationshipType::Imports => "IMPORTS"@,
            RelationshipType::Exports => "EXPORTS"@,
            RelationshipType::Extends => "EXTENDS"@,
            RelationshipType::Implements => "IMPLEMENTS"@,
            RelationshipType::References => "REFERENCES"@,
        }
    }
}

/// Supported programming languages.
#[derive(Debug, Clone, Copy, PartialEq, Eq, Structural)]
pub enum Language {
    JavaScript,
    TypeScript,
    Python,
    Rust,
    C,
}

impl Language {
    /// The lowercase name of the language.
    pub fn as_str(&self) -> (r: &'static str)
        ensures
            r@ == self.tag(),
    {
        match self {
            Language::JavaScript => "javascript",
            Language::TypeScript => "typescript",
            Language::Python => "python",
            Language::Rust => "rust",
            Language::C => "c",
        }
    }

    pub open spec fn tag(self) -> Seq<char> {
        match self {
            Language::JavaScript => "javascript"@,
            Language::TypeScript => "typescript"@,
            Language::Python => "python"@,
            Language::Rust => "rust"@,
            Language::C => "c"@,
        }
    }

    /// The file extensions that belong to the language, dot included.
    pub fn extensions(&self) -> (r: Vec<&'static str>)
        ensures
            self is JavaScript ==> r@.len() == 4 && r@[0]@ == ".js"@ && r@[1]@ == ".mjs"@ && r@[2]@
                == ".cjs"@ && r@[3]@ == ".jsx"@,
            self is TypeScript ==> r@.len() == 4 && r@[0]@ == ".ts"@ && r@[1]@ == ".tsx"@ && r@[2]@
                == ".mts"@ && r@[3]@ == ".cts"@,
            self is Python ==> r@.len() == 2 && r@[0]@ == ".py"@ && r@[1]@ == ".pyi"@,
            self is Rust ==> r@.len() == 1 && r@[0]@ == ".rs"@,
            self is C ==> r@.len() == 2 && r@[0]@ == ".c"@ && r@[1]@ == ".h"@,
            r@.len() > 0,
    {
        match self {
            Language::JavaScript => vec![".js", ".mjs", ".cjs", ".jsx"],
            Language::TypeScript => vec![".ts", ".tsx", ".mts", ".cts"],
            Language::Python => vec![".py", ".pyi"],
            Language::Rust => vec![".rs"],
            Language::C => vec![".c", ".h"],
        }
    }
}

/// AST node representation.
#[derive(Debug, Clone)]
pub struct AstNode {
    pub id: String,
    pub node_type: NodeType,
    pub name: String,
    pub start_line: usize,
    pub end_line: usize,
    pub children: Vec<String>,
}

/// Relationship between AST nodes.
#[derive(Debug, Clone)]
pub struct Relationship {
    pub source: String,
    pub target: String,
    pub relationship_type: RelationshipType,
}

/// File-level metrics.
#[derive(Debug, Clone)]
pub struct FileMetrics {
    pub lines_of_code: usize,
    pub complexity: usize,
    pub functions: usize,
    pub classes: usize,
    pub imports: usize,
    pub exports: usize,
}

impl Default for FileMetrics {
    /// All counters start at zero.
    fn default() -> (r: Self)
        ensures
            r.lines_of_code == 0,
            r.complexity == 0,
            r.functions == 0,
            r.classes == 0,
            r.imports == 0,
            r.exports == 0,
    {
        FileMetrics {
            lines_of_code: 0,
            complexity: 0,
            functions: 0,
            classes: 0,
            imports: 0,
            exports: 0,
        }
    }
}

/// Parsed file representation, as handed over by an external parser.
#[derive(Debug, Clone)]
pub struct ParsedFile {
    pub path: String,
    pub language: Language,
    pub nodes: Vec<AstNode>,
    pub relationships: Vec<Relationship>,
    pub metrics: FileMetrics,
}

/// Parse error type.
#[derive(Debug, Clone)]
pub enum ParseError {
    /// The parser rejected the file, with a human-readable reason.
    ParseFailed(String),
    /// The file contents were not valid UTF-8.
    Utf8Error,
}

impl ParseError {
    /// A human-readable description of the error.
    pub fn message(&self) -> (r: String)
        ensures
            self is Utf8Error ==> r@ == "UTF-8 conversion error"@,
            self is ParseFailed ==> r@ == "Failed to parse: "@ + self->ParseFailed_0@,
    {
        match self {
            ParseError::ParseFailed(reason) => {
                let mut s = String::from_str("Failed to parse: ");
                s.append(reason.as_str());
                s
            },
            ParseError::Utf8Error => String::from_str("UTF-8 conversion error"),
        }
    }
}

/// Graph metadata.
#[derive(Debug, Clone)]
pub struct GraphMetadata {
    pub total_nodes: usize,
    pub total_relationships: usize,
    pub languages: Vec<String>,
    pub generated_at: u64,
}

} // verus!
