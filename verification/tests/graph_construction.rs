use nexus_core::graph_construction::ConnectedComponents;

fn ids(names: &[&str]) -> Vec<String> {
    names.iter().map(|s| s.to_string()).collect()
}

fn pairs(list: &[(&str, &str)]) -> Vec<(String, String)> {
    list.iter().map(|(a, b)| (a.to_string(), b.to_string())).collect()
}

#[test]
fn graph_construction_test_connected_components() {
    let nodes = ids(&["A", "B", "C", "D"]);
    let edges = pairs(&[("A", "B"), ("B", "C"), ("C", "D"), ("D", "A")]);
    let cc = ConnectedComponents::new();
    let components = cc.find_components(&nodes, &edges).unwrap();
    assert_eq!(components.len(), nodes.len());
    assert!(components.iter().all(|&c| c == components[0]));
}

#[test]
fn components_split_and_direction() {
    let nodes = ids(&["A", "B", "C"]);
    let edges = pairs(&[("B", "A")]);
    let undirected = ConnectedComponents::new();
    assert_eq!(undirected.find_components(&nodes, &edges).unwrap(), vec![0, 0, 1]);
    let directed = ConnectedComponents::new().with_directed(true);
    assert_eq!(directed.find_components(&nodes, &edges).unwrap(), vec![0, 1, 2]);
}

#[test]
fn directed_components_are_strongly_connected() {
    let nodes = ids(&["A", "B", "C", "D"]);
    let edges = pairs(&[("A", "B"), ("B", "A"), ("B", "C"), ("C", "D")]);
    let directed = ConnectedComponents::new().with_directed(true);
    assert_eq!(directed.find_components(&nodes, &edges).unwrap(), vec![0, 0, 1, 2]);
    let one_way = pairs(&[("A", "B")]);
    assert_eq!(directed.find_components(&ids(&["A", "B"]), &one_way).unwrap(), vec![0, 1]);
    let undirected = ConnectedComponents::new();
    assert_eq!(undirected.find_components(&nodes, &edges).unwrap(), vec![0, 0, 0, 0]);
}
