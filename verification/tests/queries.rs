use nexus_core::graph_correlation::queries::DEFAULT_SEMANTIC_WEIGHT_BITS;
use nexus_core::graph_correlation::{
    CollectionQueryEnum, HybridQuery, MetadataQuery, QueryBuilder, QueryResult, QueryType, SemanticQuery, SortOrder,
};
use serde_json::Value;

#[test]
fn default_weight_is_seventy_percent() {
    assert_eq!(f32::from_bits(DEFAULT_SEMANTIC_WEIGHT_BITS), 0.7f32);
    let q = HybridQuery::new("code".to_string(), "parse".to_string());
    assert_eq!(q.semantic_weight_bits, 0.7f32.to_bits());
}

#[test]
fn semantic_build_needs_query_text() {
    let err = QueryBuilder::new("code".to_string()).build().unwrap_err();
    assert_eq!(
        err.to_string(),
        "Graph correlation error: Semantic query is required for semantic search"
    );
}

#[test]
fn hybrid_build_needs_query_text() {
    let err = QueryBuilder::new("code".to_string()).query_type(QueryType::Hybrid).build().unwrap_err();
    assert_eq!(
        err.to_string(),
        "Graph correlation error: Semantic query is required for hybrid search"
    );
}

#[test]
fn semantic_build_carries_parts() {
    let q = QueryBuilder::new("code".to_string())
        .semantic_query("parse json".to_string())
        .limit(5)
        .threshold(0.5f32.to_bits())
        .metadata_filter("lang".to_string(), Value::String("rust".to_string()))
        .build()
        .unwrap();
    match q {
        CollectionQueryEnum::Semantic(s) => {
            assert_eq!(s.collection(), "code");
            assert_eq!(s.query, "parse json");
            assert_eq!(s.limit, Some(5));
            assert_eq!(s.threshold_bits, Some(0.5f32.to_bits()));
            let filters = s.filters.expect("filters");
            assert_eq!(filters.len(), 1);
            assert_eq!(filters.get("lang"), Some(&Value::String("rust".to_string())));
        }
        _ => panic!("expected a semantic query"),
    }
}

#[test]
fn semantic_build_without_filters_has_none() {
    let q = QueryBuilder::new("code".to_string()).semantic_query("x".to_string()).build().unwrap();
    match q {
        CollectionQueryEnum::Semantic(s) => assert!(s.filters.is_none()),
        _ => panic!("expected a semantic query"),
    }
}

#[test]
fn metadata_build_needs_both_sort_parts() {
    let q = QueryBuilder::new("docs".to_string()).query_type(QueryType::Metadata).limit(3).build().unwrap();
    match q {
        CollectionQueryEnum::Metadata(m) => {
            assert_eq!(m.collection(), "docs");
            assert_eq!(m.limit, Some(3));
            assert!(m.sort_by.is_none());
            assert!(m.sort_order.is_none());
            assert_eq!(m.filters.len(), 0);
        }
        _ => panic!("expected a metadata query"),
    }
    let q = QueryBuilder::new("docs".to_string())
        .query_type(QueryType::Metadata)
        .sort("name".to_string(), SortOrder::Desc)
        .build()
        .unwrap();
    match q {
        CollectionQueryEnum::Metadata(m) => {
            assert_eq!(m.sort_by.as_deref(), Some("name"));
            assert_eq!(m.sort_order, Some(SortOrder::Desc));
        }
        _ => panic!("expected a metadata query"),
    }
}

#[test]
fn hybrid_build_carries_weight() {
    let q = QueryBuilder::new("code".to_string())
        .query_type(QueryType::Hybrid)
        .semantic_query("q".to_string())
        .semantic_weight(0.25f32.to_bits())
        .metadata_filter("a".to_string(), Value::Bool(true))
        .build()
        .unwrap();
    match q {
        CollectionQueryEnum::Hybrid(h) => {
            assert_eq!(h.collection(), "code");
            assert_eq!(h.semantic_query, "q");
            assert_eq!(f32::from_bits(h.semantic_weight_bits), 0.25);
            assert_eq!(h.metadata_filters.get("a"), Some(&Value::Bool(true)));
            assert!(h.threshold_bits.is_none());
        }
        _ => panic!("expected a hybrid query"),
    }
}

#[test]
fn query_setters() {
    let s = SemanticQuery::new("c".to_string(), "q".to_string())
        .with_limit(2)
        .with_threshold(7)
        .with_filter("k".to_string(), Value::Null)
        .with_filter("k".to_string(), Value::Bool(false));
    assert_eq!(s.limit, Some(2));
    assert_eq!(s.threshold_bits, Some(7));
    let f = s.filters.as_ref().unwrap();
    assert_eq!(f.len(), 1);
    assert_eq!(f.get("k"), Some(&Value::Bool(false)));

    let m = MetadataQuery::new("c".to_string())
        .with_filter("x".to_string(), Value::Null)
        .with_limit(4)
        .with_sort("x".to_string(), SortOrder::Asc);
    assert_eq!(m.filters.len(), 1);
    assert_eq!(m.limit, Some(4));
    assert_eq!(m.sort_order, Some(SortOrder::Asc));

    let h = HybridQuery::new("c".to_string(), "q".to_string())
        .with_metadata_filter("y".to_string(), Value::Null)
        .with_limit(9)
        .with_threshold(3)
        .with_semantic_weight(1);
    assert_eq!(h.metadata_filters.len(), 1);
    assert_eq!(h.limit, Some(9));
    assert_eq!(h.threshold_bits, Some(3));
    assert_eq!(h.semantic_weight_bits, 1);
}

#[test]
fn query_result_metadata() {
    let r = QueryResult::new(vec![Value::Null, Value::Bool(true)], 2, 15)
        .with_metadata("query_type".to_string(), Value::String("semantic".to_string()));
    assert_eq!(r.len(), 2);
    assert!(!r.is_empty());
    assert_eq!(r.total, 2);
    assert_eq!(r.execution_time_ms, 15);
    assert_eq!(r.metadata.get("query_type"), Some(&Value::String("semantic".to_string())));
    assert!(QueryResult::new(Vec::new(), 0, 0).is_empty());
}
