use tplot::sankey::{assign_layers, sankey_structure, SankeyGraphError};

fn flows(rows: &[(&str, &str)]) -> Vec<(String, String)> {
    rows.iter().map(|(s, t)| (s.to_string(), t.to_string())).collect()
}

#[test]
fn two_layer_funnel_has_two_layers() {
    let g = sankey_structure(&flows(&[("landing", "signup"), ("landing", "bounce")])).unwrap();
    assert_eq!(g.layers.len(), 2);
    assert_eq!(g.layers[0].len(), 1);
    assert_eq!(g.layers[1].len(), 2);
}

#[test]
fn three_stage_funnel_has_three_layers() {
    let g = sankey_structure(&flows(&[("landing", "signup"), ("signup", "active")])).unwrap();
    assert_eq!(g.layers.len(), 3);
}

#[test]
fn detects_cycles() {
    let result = sankey_structure(&flows(&[("a", "b"), ("b", "a")]));
    assert!(matches!(result, Err(SankeyGraphError::Cycle)));
}

#[test]
fn node_layer_is_max_of_predecessor_layers_plus_one() {
    let g = sankey_structure(&flows(&[("a", "b"), ("a", "c"), ("b", "c")])).unwrap();
    let c = g.names.iter().position(|n| n == "c").unwrap();
    assert_eq!(g.layer[c], 2);
}

#[test]
fn no_flows_is_an_error() {
    assert!(matches!(sankey_structure(&Vec::new()), Err(SankeyGraphError::Empty)));
}

#[test]
fn duplicate_flows_merge_into_one_edge() {
    let g = sankey_structure(&flows(&[("a", "b"), ("a", "b"), ("b", "c")])).unwrap();
    assert_eq!(g.names, vec!["a".to_string(), "b".to_string(), "c".to_string()]);
    assert_eq!(g.edges, vec![(0, 1), (1, 2)]);
    assert_eq!(g.flow_edge, vec![0, 0, 1]);
    assert_eq!(g.layer, vec![0, 1, 2]);
    assert_eq!(g.layers, vec![vec![0], vec![1], vec![2]]);
}

#[test]
fn names_are_in_first_seen_order_across_sources_and_targets() {
    let g = sankey_structure(&flows(&[("x", "y"), ("z", "y"), ("y", "w")])).unwrap();
    assert_eq!(g.names, vec!["x".to_string(), "y".to_string(), "z".to_string(), "w".to_string()]);
    assert_eq!(g.layers, vec![vec![0, 2], vec![1], vec![3]]);
}

#[test]
fn self_loop_is_a_cycle() {
    assert!(matches!(sankey_structure(&flows(&[("a", "a")])), Err(SankeyGraphError::Cycle)));
}

#[test]
fn assign_layers_follows_longest_path() {
    // 0 -> 1 -> 2 -> 3 and a shortcut 0 -> 3: node 3 sits below 2.
    let layer = assign_layers(4, &vec![(0, 1), (1, 2), (2, 3), (0, 3)]).unwrap();
    assert_eq!(layer, vec![0, 1, 2, 3]);
    assert!(matches!(assign_layers(3, &vec![(0, 1), (1, 2), (2, 0)]), Err(SankeyGraphError::Cycle)));
}

#[test]
fn sankey_error_messages() {
    assert_eq!(SankeyGraphError::Cycle.message(), "graph has a cycle (sankey requires a DAG)");
    assert_eq!(SankeyGraphError::Empty.message(), "no edges supplied");
}
