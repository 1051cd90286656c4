//! Queries against vectorizer collections (semantic, metadata and hybrid),
//! their results, and the builder that assembles a query from its parts.
//! Similarity thresholds and semantic weights are carried as the bit
//! patterns of 32-bit floats.

use crate::error::Error;
use crate::graph_correlation::{QueryType, SortOrder};
use crate::str_map::StrMap;
use serde_json::Value;
use vstd::prelude::*;

verus! {

/// Bit pattern of the default semantic weight of hybrid queries, 0.7
/// (70% semantic, 30% metadata).
pub const DEFAULT_SEMANTIC_WEIGHT_BITS: u32 = 0x3f33_3333u32;

/// Semantic query for vector similarity search
#[derive(Debug)]
pub struct SemanticQuery {
    /// Collection to search
    pub collection: String,
    /// Query text
    pub query: String,
    /// Maximum number of results
    pub limit: Option<usize>,
    /// Similarity threshold, as the bits of an `f32`
    pub threshold_bits: Option<u32>,
    /// Additional filters
    pub filters: Option<StrMap<Value>>,
}

/// Metadata query filtering by fields
#[derive(Debug)]
pub struct MetadataQuery {
    /// Collection to search
    pub collection: String,
    /// Field filters
    pub filters: StrMap<Value>,
    /// Maximum number of results
    pub limit: Option<usize>,
    /// Field to sort by
    pub sort_by: Option<String>,
    /// Sort order
    pub sort_order: Option<SortOrder>,
}

/// Hybrid query combining semantic and metadata search
#[derive(Debug)]
pub struct HybridQuery {
    /// Collection to search
    pub collection: String,
    /// Semantic search query
    pub semantic_query: String,
    /// Metadata filters
    pub metadata_filters: StrMap<Value>,
    /// Maximum number of results
    pub limit: Option<usize>,
    /// Similarity threshold for semantic search, as the bits of an `f32`
    pub threshold_bits: Option<u32>,
    /// Weight of semantic against metadata results, as the bits of an `f32`
    pub semantic_weight_bits: u32,
}

/// A built query of one of the three kinds
#[derive(Debug)]
pub enum CollectionQueryEnum {
    Semantic(SemanticQuery),
    Metadata(MetadataQuery),
    Hybrid(HybridQuery),
}

/// The filters of an optional filter map, none when there is no map.
pub open spec fn filters_of(f: Option<StrMap<Value>>) -> Map<Seq<char>, Value> {
    match f {
        Some(m) => m.map(),
        None => Map::empty(),
    }
}

impl SemanticQuery {
    /// Create a new semantic query
    pub fn new(collection: String, query: String) -> (q: Self)
        ensures
            q.collection == collection,
            q.query == query,
            q.limit is None,
            q.threshold_bits is None,
            q.filters is None,
    {
        SemanticQuery { collection, query, limit: None, threshold_bits: None, filters: None }
    }

    /// Set the maximum number of results
    pub fn with_limit(self, limit: usize) -> (q: Self)
        ensures
            q == (SemanticQuery { limit: Some(limit), ..self }),
    {
        SemanticQuery { limit: Some(limit), ..self }
    }

    /// Set the similarity threshold
    pub fn with_threshold(self, threshold_bits: u32) -> (q: Self)
        ensures
            q == (SemanticQuery { threshold_bits: Some(threshold_bits), ..self }),
    {
        SemanticQuery { threshold_bits: Some(threshold_bits), ..self }
    }

    /// Add a filter; the first one creates the filter map
    pub fn with_filter(self, key: String, value: Value) -> (q: Self)
        ensures
            q.collection == self.collection,
            q.query == self.query,
            q.limit == self.limit,
            q.threshold_bits == self.threshold_bits,
            q.filters is Some,
            filters_of(q.filters) == filters_of(self.filters).insert(key@, value),
    {
        let mut filters = match self.filters {
            Some(m) => m,
            None => StrMap::new(),
        };
        filters.insert(key, value);
        SemanticQuery {
            collection: self.collection,
            query: self.query,
            limit: self.limit,
            threshold_bits: self.threshold_bits,
            filters: Some(filters),
        }
    }

    /// The collection searched
    pub fn collection(&self) -> (s: &str)
        ensures
            s@ == self.collection@,
    {
        self.collection.as_str()
    }
}

impl MetadataQuery {
    /// Create a new metadata query
    pub fn new(collection: String) -> (q: Self)
        ensures
            q.collection == collection,
            q.filters.map() == Map::<Seq<char>, Value>::empty(),
            q.limit is None,
            q.sort_by is None,
            q.sort_order is None,
    {
        MetadataQuery { collection, filters: StrMap::new(), limit: None, sort_by: None, sort_order: None }
    }

    /// Add a field filter
    pub fn with_filter(self, field: String, value: Value) -> (q: Self)
        ensures
            q.collection == self.collection,
            q.filters.map() == self.filters.map().insert(field@, value),
            q.limit == self.limit,
            q.sort_by == self.sort_by,
            q.sort_order == self.sort_order,
    {
        let mut q = self;
        q.filters.insert(field, value);
        q
    }

    /// Set the maximum number of results
    pub fn with_limit(self, limit: usize) -> (q: Self)
        ensures
            q == (MetadataQuery { limit: Some(limit), ..self }),
    {
        MetadataQuery { limit: Some(limit), ..self }
    }

    /// Set sorting
    pub fn with_sort(self, field: String, order: SortOrder) -> (q: Self)
        ensures
            q == (MetadataQuery { sort_by: Some(field), sort_order: Some(order), ..self }),
    {
        MetadataQuery { sort_by: Some(field), sort_order: Some(order), ..self }
    }

    /// The collection searched
    pub fn collection(&self) -> (s: &str)
        ensures
            s@ == self.collection@,
    {
        self.collection.as_str()
    }
}

impl HybridQuery {
    /// Create a new hybrid query, weighted 70% semantic
    pub fn new(collection: String, semantic_query: String) -> (q: Self)
        ensures
            q.collection == collection,
            q.semantic_query == semantic_query,
            q.metadata_filters.map() == Map::<Seq<char>, Value>::empty(),
            q.limit is None,
            q.threshold_bits is None,
            q.semantic_weight_bits == DEFAULT_SEMANTIC_WEIGHT_BITS,
    {
        HybridQuery {
            collection,
            semantic_query,
            metadata_filters: StrMap::new(),
            limit: None,
            threshold_bits: None,
            semantic_weight_bits: DEFAULT_SEMANTIC_WEIGHT_BITS,
        }
    }

    /// Add a metadata filter
    pub fn with_metadata_filter(self, field: String, value: Value) -> (q: Self)
        ensures
            q.collection == self.collection,
            q.semantic_query == self.semantic_query,
            q.metadata_filters.map() == self.metadata_filters.map().insert(field@, value),
            q.limit == self.limit,
            q.threshold_bits == self.threshold_bits,
            q.semantic_weight_bits == self.semantic_weight_bits,
    {
        let mut q = self;
        q.metadata_filters.insert(field, value);
        q
    }

    /// Set the maximum number of results
    pub fn with_limit(self, limit: usize) -> (q: Self)
        ensures
            q == (HybridQuery { limit: Some(limit), ..self }),
    {
        HybridQuery { limit: Some(limit), ..self }
    }

    /// Set the similarity threshold
    pub fn with_threshold(self, threshold_bits: u32) -> (q: Self)
        ensures
            q == (HybridQuery { threshold_bits: Some(threshold_bits), ..self }),
    {
        HybridQuery { threshold_bits: Some(threshold_bits), ..self }
    }

    /// Set the semantic weight. Bringing the weight into [0, 1] is float
    /// arithmetic and happens before its bits reach this method.
    pub fn with_semantic_weight(self, weight_bits: u32) -> (q: Self)
        ensures
            q == (HybridQuery { semantic_weight_bits: weight_bits, ..self }),
    {
        HybridQuery { semantic_weight_bits: weight_bits, ..self }
    }

    /// The collection searched
    pub fn collection(&self) -> (s: &str)
        ensures
            s@ == self.collection@,
    {
        self.collection.as_str()
    }
}

/// Query result containing search results and metadata
#[derive(Debug)]
pub struct QueryResult {
    /// Search results
    pub results: Vec<Value>,
    /// Total number of results found
    pub total: usize,
    /// Query execution time in milliseconds
    pub execution_time_ms: u64,
    /// Query metadata
    pub metadata: StrMap<Value>,
}

impl QueryResult {
    /// Create a new query result
    pub fn new(results: Vec<Value>, total: usize, execution_time_ms: u64) -> (r: Self)
        ensures
            r.results@ == results@,
            r.total == total,
            r.execution_time_ms == execution_time_ms,
            r.metadata.map() == Map::<Seq<char>, Value>::empty(),
    {
        QueryResult { results, total, execution_time_ms, metadata: StrMap::new() }
    }

    /// Add metadata to the result
    pub fn with_metadata(self, key: String, value: Value) -> (r: Self)
        ensures
            r.results@ == self.results@,
            r.total == self.total,
            r.execution_time_ms == self.execution_time_ms,
            r.metadata.map() == self.metadata.map().insert(key@, value),
    {
        let mut r = self;
        r.metadata.insert(key, value);
        r
    }

    /// Whether there are no results
    pub fn is_empty(&self) -> (b: bool)
        ensures
            b == (self.results@.len() == 0),
    {
        self.results.len() == 0
    }

    /// Number of results
    pub fn len(&self) -> (n: usize)
        ensures
            n == self.results@.len(),
    {
        self.results.len()
    }
}

/// Query builder for constructing complex queries
#[derive(Debug)]
pub struct QueryBuilder {
    collection: String,
    query_type: QueryType,
    semantic_query: Option<String>,
    metadata_filters: StrMap<Value>,
    limit: Option<usize>,
    threshold_bits: Option<u32>,
    sort_by: Option<String>,
    sort_order: Option<SortOrder>,
    semantic_weight_bits: u32,
}

/// What a query builder holds.
pub struct BuilderView {
    pub collection: Seq<char>,
    pub query_type: QueryType,
    pub semantic_query: Option<Seq<char>>,
    pub filters: Map<Seq<char>, Value>,
    pub limit: Option<usize>,
    pub threshold_bits: Option<u32>,
    pub sort_by: Option<Seq<char>>,
    pub sort_order: Option<SortOrder>,
    pub semantic_weight_bits: u32,
}

/// The text of an optional string.
pub open spec fn opt_text(s: Option<String>) -> Option<Seq<char>> {
    match s {
        Some(t) => Some(t@),
        None => None,
    }
}

impl View for QueryBuilder {
    type V = BuilderView;

    closed spec fn view(&self) -> BuilderView {
        BuilderView {
            collection: self.collection@,
            query_type: self.query_type,
            semantic_query: opt_text(self.semantic_query),
            filters: self.metadata_filters.map(),
            limit: self.limit,
            threshold_bits: self.threshold_bits,
            sort_by: opt_text(self.sort_by),
            sort_order: self.sort_order,
            semantic_weight_bits: self.semantic_weight_bits,
        }
    }
}

/// The error of a builder that lacks the semantic query text its kind needs.
pub open spec fn missing_query(e: Error, search: Seq<char>) -> bool {
    e matches Error::GraphCorrelation(m) && m@ == "Semantic query is required for "@ + search
}

/// Whether `q` is the query that builder `b` describes: one of the kind the
/// builder names, carrying its collection, texts, filters, limit, threshold,
/// sorting (metadata queries, both parts set) and weight (hybrid queries).
pub open spec fn built_from(b: BuilderView, q: CollectionQueryEnum) -> bool {
    match q {
        CollectionQueryEnum::Semantic(s) => {
            &&& b.query_type == QueryType::Semantic
            &&& b.semantic_query == Some(s.query@)
            &&& s.collection@ == b.collection
            &&& s.limit == b.limit
            &&& s.threshold_bits == b.threshold_bits
            &&& filters_of(s.filters) == b.filters
            &&& (s.filters is None <==> b.filters.dom().len() == 0)
        },
        CollectionQueryEnum::Metadata(m) => {
            &&& b.query_type == QueryType::Metadata
            &&& m.collection@ == b.collection
            &&& m.filters.map() == b.filters
            &&& m.limit == b.limit
            &&& if b.sort_by is Some && b.sort_order is Some {
                opt_text(m.sort_by) == b.sort_by && m.sort_order == b.sort_order
            } else {
                m.sort_by is None && m.sort_order is None
            }
        },
        CollectionQueryEnum::Hybrid(h) => {
            &&& b.query_type == QueryType::Hybrid
            &&& b.semantic_query == Some(h.semantic_query@)
            &&& h.collection@ == b.collection
            &&& h.metadata_filters.map() == b.filters
            &&& h.limit == b.limit
            &&& h.threshold_bits == b.threshold_bits
            &&& h.semantic_weight_bits == b.semantic_weight_bits
        },
    }
}

impl QueryBuilder {
    /// Create a new query builder: a semantic query weighted 70% semantic
    pub fn new(collection: String) -> (b: Self)
        ensures
            b@ == (BuilderView {
                collection: collection@,
                query_type: QueryType::Semantic,
                semantic_query: None,
                filters: Map::empty(),
                limit: None,
                threshold_bits: None,
                sort_by: None,
                sort_order: None,
                semantic_weight_bits: DEFAULT_SEMANTIC_WEIGHT_BITS,
            }),
    {
        QueryBuilder {
            collection,
            query_type: QueryType::Semantic,
            semantic_query: None,
            metadata_filters: StrMap::new(),
            limit: None,
            threshold_bits: None,
            sort_by: None,
            sort_order: None,
            semantic_weight_bits: DEFAULT_SEMANTIC_WEIGHT_BITS,
        }
    }

    /// Set the query type
    pub fn query_type(self, query_type: QueryType) -> (b: Self)
        ensures
            b@ == (BuilderView { query_type, ..self@ }),
    {
        QueryBuilder { query_type, ..self }
    }

    /// Set the semantic query
    pub fn semantic_query(self, query: String) -> (b: Self)
        ensures
            b@ == (BuilderView { semantic_query: Some(query@), ..self@ }),
    {
        QueryBuilder { semantic_query: Some(query), ..self }
    }

    /// Add a metadata filter
    pub fn metadata_filter(self, field: String, value: Value) -> (b: Self)
        ensures
            b@ == (BuilderView { filters: self@.filters.insert(field@, value), ..self@ }),
    {
        let mut b = self;
        b.metadata_filters.insert(field, value);
        b
    }

    /// Set the maximum number of results
    pub fn limit(self, limit: usize) -> (b: Self)
        ensures
            b@ == (BuilderView { limit: Some(limit), ..self@ }),
    {
        QueryBuilder { limit: Some(limit), ..self }
    }

    /// Set the similarity threshold
    pub fn threshold(self, threshold_bits: u32) -> (b: Self)
        ensures
            b@ == (BuilderView { threshold_bits: Some(threshold_bits), ..self@ }),
    {
        QueryBuilder { threshold_bits: Some(threshold_bits), ..self }
    }

    /// Set sorting
    pub fn sort(self, field: String, order: SortOrder) -> (b: Self)
        ensures
            b@ == (BuilderView { sort_by: Some(field@), sort_order: Some(order), ..self@ }),
    {
        QueryBuilder { sort_by: Some(field), sort_order: Some(order), ..self }
    }

    /// Set the semantic weight for hybrid queries. Bringing the weight into
    /// [0, 1] is float arithmetic and happens before its bits reach here.
    pub fn semantic_weight(self, weight_bits: u32) -> (b: Self)
        ensures
            b@ == (BuilderView { semantic_weight_bits: weight_bits, ..self@ }),
    {
        QueryBuilder { semantic_weight_bits: weight_bits, ..self }
    }

    /// Build the query. Semantic and hybrid queries need the semantic query
    /// text; without it the build fails, naming the kind of search.
    pub fn build(self) -> (r: Result<CollectionQueryEnum, Error>)
        ensures
            match r {
                Ok(q) => built_from(self@, q),
                Err(e) => self@.semantic_query is None && match self@.query_type {
                    QueryType::Semantic => missing_query(e, "semantic search"@),
                    QueryType::Hybrid => missing_query(e, "hybrid search"@),
                    QueryType::Metadata => false,
                },
            },
    {
        let ghost b = self@;
        match self.query_type {
            QueryType::Semantic => {
                let query = match self.semantic_query {
                    Some(q) => q,
                    None => {
                        proof {
                            reveal_strlit("Semantic query is required for semantic search");
                            reveal_strlit("Semantic query is required for ");
                            reveal_strlit("semantic search");
                            assert("Semantic query is required for semantic search"@ =~= "Semantic query is required for "@ + "semantic search"@);
                        }
                        return Err(Error::GraphCorrelation(String::from_str("Semantic query is required for semantic search")));
                    },
                };
                let filters = if self.metadata_filters.len() == 0 {
                    None
                } else {
                    Some(self.metadata_filters)
                };
                let q = SemanticQuery {
                    collection: self.collection,
                    query,
                    limit: self.limit,
                    threshold_bits: self.threshold_bits,
                    filters,
                };
                proof {
                    if b.filters.dom().len() == 0 {
                        assert(b.filters =~= Map::<Seq<char>, Value>::empty());
                    }
                }
                Ok(CollectionQueryEnum::Semantic(q))
            },
            QueryType::Metadata => {
                let (sort_by, sort_order) = match (self.sort_by, self.sort_order) {
                    (Some(f), Some(o)) => (Some(f), Some(o)),
                    _ => (None, None),
                };
                let q = MetadataQuery {
                    collection: self.collection,
                    filters: self.metadata_filters,
                    limit: self.limit,
                    sort_by,
                    sort_order,
                };
                Ok(CollectionQueryEnum::Metadata(q))
            },
            QueryType::Hybrid => {
                let query = match self.semantic_query {
                    Some(q) => q,
                    None => {
                        proof {
                            reveal_strlit("Semantic query is required for hybrid search");
                            reveal_strlit("Semantic query is required for ");
                            reveal_strlit("hybrid search");
                            assert("Semantic query is required for hybrid search"@ =~= "Semantic query is required for "@ + "hybrid search"@);
                        }
                        return Err(Error::GraphCorrelation(String::from_str("Semantic query is required for hybrid search")));
                    },
                };
                let q = HybridQuery {
                    collection: self.collection,
                    semantic_query: query,
                    metadata_filters: self.metadata_filters,
                    limit: self.limit,
                    threshold_bits: self.threshold_bits,
                    semantic_weight_bits: self.semantic_weight_bits,
                };
                Ok(CollectionQueryEnum::Hybrid(q))
            },
        }
    }
}

} // verus!
