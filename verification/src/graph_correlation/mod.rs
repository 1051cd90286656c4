//! Correlation graphs between code entities (functions, modules, classes),
//! their builders, export helpers and caching utilities.

pub mod builders;
pub mod correlation_graph;
pub mod extractor;
pub mod graph_export;
pub mod manager;
pub mod performance;
pub mod queries;

pub use extractor::{VectorizerExtractorConfig, VectorizerGraphExtractor, VectorizerRecord};
pub use manager::{GraphBuilder, GraphCorrelationManager, ManagedBuilder};
pub use queries::{CollectionQueryEnum, HybridQuery, MetadataQuery, QueryBuilder, QueryResult, SemanticQuery};
use crate::error::Error;
use vstd::prelude::*;

verus! {

/// Graph types supported by the correlation analysis
#[derive(Debug, Clone, Copy, PartialEq, Eq, Hash, Structural)]
pub enum GraphType {
    /// Function call relationships and execution flow
    Call,
    /// Module/library dependencies and imports
    Dependency,
    /// Data transformation and variable usage
    DataFlow,
    /// High-level architectural components
    Component,
}

/// Node types in the correlation graph
#[derive(Debug, Clone, Copy, PartialEq, Eq, Structural)]
pub enum NodeType {
    /// Function or method
    Function,
    /// Module or file
    Module,
    /// Class or struct
    Class,
    /// Variable or parameter
    Variable,
    /// API endpoint or service
    API,
}

/// Edge types representing relationships
#[derive(Debug, Clone, Copy, PartialEq, Eq, Structural)]
pub enum EdgeType {
    /// Function calls another function
    Calls,
    /// Module imports another module
    Imports,
    /// Class inherits from another class
    Inherits,
    /// Component composes another component
    Composes,
    /// Data transforms from one format to another
    Transforms,
    /// Uses or references another entity
    Uses,
    /// Depends on another entity
    Depends,
}

/// Sort order for metadata queries
#[derive(Debug, Clone, Copy, PartialEq, Eq, Structural)]
pub enum SortOrder {
    /// Ascending order
    Asc,
    /// Descending order
    Desc,
}

/// Types of queries that can be built
#[derive(Debug, Clone, Copy, PartialEq, Eq, Structural)]
pub enum QueryType {
    /// Semantic search only
    Semantic,
    /// Metadata filtering only
    Metadata,
    /// Hybrid search
    Hybrid,
}

/// Graph builder capabilities
#[derive(Debug, Clone, Default, PartialEq, Eq, Structural)]
pub struct GraphBuilderCapabilities {
    /// Whether the builder supports call graphs
    pub supports_call_graphs: bool,
    /// Whether the builder supports dependency graphs
    pub supports_dependency_graphs: bool,
    /// Whether the builder supports data flow graphs
    pub supports_data_flow_graphs: bool,
    /// Whether the builder supports component graphs
    pub supports_component_graphs: bool,
    /// Whether the builder supports async operations
    pub supports_async: bool,
    /// Whether the builder supports parallel processing
    pub supports_parallel: bool,
    /// Whether the builder supports caching
    pub supports_caching: bool,
    /// Whether the builder supports validation
    pub supports_validation: bool,
}

/// Vectorizer collections configuration
#[derive(Debug, Clone)]
pub struct VectorizerCollections {
    /// Collection for function definitions
    pub functions: String,
    /// Collection for import/export relationships
    pub imports: String,
    /// Collection for function calls
    pub calls: String,
    /// Collection for type definitions
    pub types: String,
    /// Collection for general codebase data
    pub codebase: String,
}

impl Default for VectorizerCollections {
    fn default() -> (c: Self)
        ensures
            c.functions@ == "functions"@,
            c.imports@ == "imports"@,
            c.calls@ == "calls"@,
            c.types@ == "types"@,
            c.codebase@ == "codebase"@,
    {
        VectorizerCollections {
            functions: String::from_str("functions"),
            imports: String::from_str("imports"),
            calls: String::from_str("calls"),
            types: String::from_str("types"),
            codebase: String::from_str("codebase"),
        }
    }
}

impl NodeType {
    /// What kind of code entity the node stands for.
    pub fn description(&self) -> (s: &'static str)
        ensures
            s@ == match *self {
                NodeType::Function => "A function or method"@,
                NodeType::Module => "A module or file"@,
                NodeType::Class => "A class or struct"@,
                NodeType::Variable => "A variable or parameter"@,
                NodeType::API => "An API endpoint or service"@,
            },
    {
        match self {
            NodeType::Function => "A function or method",
            NodeType::Module => "A module or file",
            NodeType::Class => "A class or struct",
            NodeType::Variable => "A variable or parameter",
            NodeType::API => "An API endpoint or service",
        }
    }
}

impl EdgeType {
    /// What relationship the edge stands for.
    pub fn description(&self) -> (s: &'static str)
        ensures
            s@ == match *self {
                EdgeType::Calls => "Function calls another function"@,
                EdgeType::Imports => "Module imports another module"@,
                EdgeType::Inherits => "Class inherits from another class"@,
                EdgeType::Composes => "Component composes another component"@,
                EdgeType::Transforms => "Data transforms from one format to another"@,
                EdgeType::Uses => "Uses or references another entity"@,
                EdgeType::Depends => "Depends on another entity"@,
            },
    {
        match self {
            EdgeType::Calls => "Function calls another function",
            EdgeType::Imports => "Module imports another module",
            EdgeType::Inherits => "Class inherits from another class",
            EdgeType::Composes => "Component composes another component",
            EdgeType::Transforms => "Data transforms from one format to another",
            EdgeType::Uses => "Uses or references another entity",
            EdgeType::Depends => "Depends on another entity",
        }
    }
}

} // verus!
