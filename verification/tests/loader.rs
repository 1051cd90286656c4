use nexus_core::loader::{
    next_load_step, nodes_from_csv, relationships_from_csv, BulkLoadConfig, LoadStep, LoadingPhase,
};

#[test]
fn test_bulk_load_config_default() {
    let config = BulkLoadConfig::default();
    assert_eq!(config.batch_size, 10000);
    assert_eq!(config.worker_count, 4);
    assert!(config.enable_progress);
    assert_eq!(config.progress_interval, 10000);
    assert!(config.enable_index_updates);
    assert!(config.enable_transaction_batching);
    assert_eq!(config.transaction_batch_size, 1000);
}

#[test]
fn test_loading_phases() {
    assert_eq!(LoadingPhase::Initializing, LoadingPhase::Initializing);
    assert_ne!(LoadingPhase::LoadingNodes, LoadingPhase::LoadingRelationships);
}

#[test]
fn test_loading_phase_variants() {
    let phases = [
        LoadingPhase::Initializing,
        LoadingPhase::LoadingNodes,
        LoadingPhase::LoadingRelationships,
        LoadingPhase::UpdatingIndexes,
        LoadingPhase::Finalizing,
        LoadingPhase::Completed,
    ];
    for (i, phase1) in phases.iter().enumerate() {
        for (j, phase2) in phases.iter().enumerate() {
            if i == j {
                assert_eq!(phase1, phase2);
            } else {
                assert_ne!(phase1, phase2);
            }
        }
    }
}

fn step(phase: LoadingPhase, nodes: u64, rels: u64) -> LoadStep {
    LoadStep { phase, nodes_processed: nodes, relationships_processed: rels }
}

#[test]
fn load_steps_run_through_every_phase() {
    let mut s = step(LoadingPhase::Initializing, 0, 0);
    let mut seen = Vec::new();
    for _ in 0..9 {
        s = next_load_step(s, 2, 5, 3);
        seen.push(s);
    }
    assert_eq!(
        seen,
        vec![
            step(LoadingPhase::LoadingNodes, 0, 0),
            step(LoadingPhase::LoadingNodes, 2, 0),
            step(LoadingPhase::LoadingNodes, 4, 0),
            step(LoadingPhase::LoadingNodes, 5, 0),
            step(LoadingPhase::LoadingRelationships, 5, 0),
            step(LoadingPhase::LoadingRelationships, 5, 2),
            step(LoadingPhase::LoadingRelationships, 5, 3),
            step(LoadingPhase::UpdatingIndexes, 5, 3),
            step(LoadingPhase::Finalizing, 5, 3),
        ]
    );
    assert_eq!(next_load_step(seen[8], 2, 5, 3), step(LoadingPhase::Completed, 5, 3));
    let done = step(LoadingPhase::Completed, 5, 3);
    assert_eq!(next_load_step(done, 2, 5, 3), done);
}

#[test]
fn load_steps_skip_empty_kinds() {
    let start = step(LoadingPhase::Initializing, 0, 0);
    assert_eq!(next_load_step(start, 10, 0, 4), step(LoadingPhase::LoadingRelationships, 0, 0));
    assert_eq!(next_load_step(start, 10, 0, 0), step(LoadingPhase::UpdatingIndexes, 0, 0));
    let nodes_done = step(LoadingPhase::LoadingNodes, 7, 0);
    assert_eq!(next_load_step(nodes_done, 10, 7, 0), step(LoadingPhase::UpdatingIndexes, 7, 0));
}

#[test]
fn csv_nodes_take_columns_from_header() {
    let text = "name,age\r\nAlice,30\n\n  \nBob,25,extra\nCarol,41\n";
    let nodes = nodes_from_csv(text);
    assert_eq!(nodes.len(), 2);
    assert_eq!(nodes[0].id, None);
    assert_eq!(nodes[0].labels, vec!["Node".to_string()]);
    assert_eq!(nodes[0].properties.len(), 2);
    assert_eq!(nodes[0].properties.get("name"), Some(&"Alice".to_string()));
    assert_eq!(nodes[0].properties.get("age"), Some(&"30".to_string()));
    assert_eq!(nodes[1].properties.get("name"), Some(&"Carol".to_string()));
    assert_eq!(nodes[1].properties.get("age"), Some(&"41".to_string()));
}

#[test]
fn csv_nodes_of_empty_or_header_only_text() {
    assert!(nodes_from_csv("").is_empty());
    assert!(nodes_from_csv("name,age").is_empty());
    assert!(nodes_from_csv("name,age\n").is_empty());
}

#[test]
fn csv_nodes_repeated_column_keeps_later_field() {
    let nodes = nodes_from_csv("k,k\na,b\n");
    assert_eq!(nodes.len(), 1);
    assert_eq!(nodes[0].properties.len(), 1);
    assert_eq!(nodes[0].properties.get("k"), Some(&"b".to_string()));
}

#[test]
fn csv_relationships_read_ids_type_and_properties() {
    let text = "src,dst,type,since,weight\n1,2,KNOWS,2020\nx,+7,LIKES,1,2,3\n5,6\n\t\n18446744073709551616,3,R\n";
    let rels = relationships_from_csv(text);
    assert_eq!(rels.len(), 3);
    assert_eq!((rels[0].source_id, rels[0].target_id), (1, 2));
    assert_eq!(rels[0].rel_type, "KNOWS");
    assert_eq!(rels[0].id, None);
    assert_eq!(rels[0].properties.len(), 1);
    assert_eq!(rels[0].properties.get("since"), Some(&"2020".to_string()));
    assert_eq!((rels[1].source_id, rels[1].target_id), (0, 7));
    assert_eq!(rels[1].rel_type, "LIKES");
    assert_eq!(rels[1].properties.len(), 2);
    assert_eq!(rels[1].properties.get("weight"), Some(&"2".to_string()));
    assert_eq!((rels[2].source_id, rels[2].target_id), (0, 3));
    assert_eq!(rels[2].properties.len(), 0);
}
