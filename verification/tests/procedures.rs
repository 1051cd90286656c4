use nexus_core::procedures::{Procedure, ProcedureRegistry};
use nexus_core::Error;

fn registry_with_builtins() -> ProcedureRegistry<u32> {
    ProcedureRegistry::new()
}

#[test]
fn test_procedure_registry() {
    let registry = registry_with_builtins();
    assert!(registry.get("gds.shortestPath.dijkstra").is_some());
    assert!(registry.get("gds.centrality.pagerank").is_some());
    assert!(registry.get("gds.community.louvain").is_some());
    assert!(registry.get("nonexistent").is_none());
}

#[test]
fn test_cannot_unregister_builtin() {
    let mut registry = registry_with_builtins();
    let result = registry.unregister("gds.shortestPath.dijkstra");
    assert!(result.is_err());
    assert!(result.unwrap_err().to_string().contains("Cannot unregister built-in"));
}

#[test]
fn test_procedure_unregister_nonexistent() {
    let mut registry = registry_with_builtins();
    let result = registry.unregister("nonexistent");
    assert!(result.is_err());
    assert!(result.unwrap_err().to_string().contains("not found"));
}

#[test]
fn test_procedure_get_nonexistent() {
    let registry = registry_with_builtins();
    assert!(registry.get("nonexistent").is_none());
}

#[test]
fn test_procedure_list() {
    let registry = registry_with_builtins();
    let procedures = registry.list();
    assert!(procedures.len() >= 13);
    assert!(procedures.contains(&"gds.shortestPath.dijkstra".to_string()));
}

#[test]
fn custom_procedure_registers_once_and_unregisters() {
    let mut registry = registry_with_builtins();
    assert!(registry.register_custom("custom.test".to_string(), 99).is_ok());
    assert!(registry.contains("custom.test"));
    assert_eq!(registry.list().len(), 14);
    assert_eq!(registry.list()[13], "custom.test");
    assert!(matches!(registry.get("custom.test"), Some(Procedure::Custom(99))));
    assert!(matches!(registry.get("gds.similarity.cosine"), Some(Procedure::Builtin)));

    let again = registry.register_custom("custom.test".to_string(), 7);
    match again {
        Err(Error::CypherSyntax(m)) => assert_eq!(m, "Procedure 'custom.test' already registered"),
        other => panic!("unexpected {:?}", other),
    }
    assert!(matches!(registry.get("custom.test"), Some(Procedure::Custom(99))));

    assert!(registry.unregister("custom.test").is_ok());
    assert!(!registry.contains("custom.test"));
    assert_eq!(registry.list().len(), 13);
}

#[test]
fn unregister_messages_name_the_procedure() {
    let mut registry: ProcedureRegistry<u32> = ProcedureRegistry::new();
    assert_eq!(registry.list().len(), 13);
    match registry.unregister("gds.x") {
        Err(Error::CypherSyntax(m)) => assert_eq!(m, "Cannot unregister built-in procedure 'gds.x'"),
        other => panic!("unexpected {:?}", other),
    }
    match registry.unregister("gds") {
        Err(Error::CypherSyntax(m)) => assert_eq!(m, "Procedure 'gds' not found"),
        other => panic!("unexpected {:?}", other),
    }
}
