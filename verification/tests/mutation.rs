use loader_graph::account::AccountAddress;
use loader_graph::account::AccountData;
use loader_graph::graph::DependencyGraph;
use loader_graph::index::Index;
use loader_graph::transaction::LoaderError;
use loader_graph::transaction::LoaderTransaction;
use loader_graph::transaction::LoaderTransactionGen;

fn at(tag: u8) -> AccountAddress {
    let mut bytes = [0u8; 32];
    bytes[7] = tag;
    AccountAddress { bytes }
}

fn graph_of(values: &[u16], edges: &[(usize, usize)]) -> DependencyGraph {
    let accounts = values
        .iter()
        .enumerate()
        .map(|(i, value)| (AccountData::new(at(i as u8), 1_000_000_001, 0), *value, format!("mod_{}", i)))
        .collect();
    let edges = edges.iter().map(|(a, b)| (Index::new(*a), Index::new(*b))).collect();
    DependencyGraph::create(accounts, edges, at(250)).unwrap()
}

fn update(a: usize, b: usize) -> LoaderTransactionGen {
    LoaderTransactionGen::UpdateEdge(Index::new(a), Index::new(b))
}

fn values_held(graph: &DependencyGraph) -> Vec<u64> {
    (0..graph.node_count()).map(|node| graph.expected_value(node)).collect()
}

fn sequence_numbers(graph: &DependencyGraph) -> Vec<u64> {
    (0..graph.node_count()).map(|node| graph.node(node).account_data.sequence_number).collect()
}

fn sorted_dependencies(graph: &DependencyGraph, node: usize) -> Vec<usize> {
    let mut found = graph.dependencies(node);
    found.sort();
    found
}

#[test]
fn update_of_one_node_changes_nothing() {
    let mut graph = graph_of(&[1, 2, 3], &[(2, 0)]);
    for (a, b) in [(1, 1), (0, 3), (5, 2), (7, 7)] {
        assert!(matches!(graph.generate_txn(update(a, b)), Ok(None)));
    }
    assert_eq!(graph.edge_count(), 1);
    assert_eq!(values_held(&graph), vec![1, 2, 4]);
    assert_eq!(sequence_numbers(&graph), vec![0, 0, 0]);
    assert_eq!(graph.sender().sequence_number, 0);
}

#[test]
fn update_puts_in_a_missing_edge_and_republishes_the_dependent() {
    let mut graph = graph_of(&[1, 2, 3], &[(2, 0)]);
    let txn = graph.generate_txn(update(1, 2)).unwrap().unwrap();
    assert_eq!(graph.edge_count(), 2);
    assert_eq!(sorted_dependencies(&graph, 2), vec![0, 1]);
    assert_eq!(values_held(&graph), vec![1, 2, 6]);
    match txn {
        LoaderTransaction::Publish(package) => {
            assert_eq!(package.module.name, "mod_2");
            assert_eq!(package.sender.bytes, at(2).bytes);
            assert_eq!(package.sequence_number, 0);
            assert_eq!(package.self_value, 3);
            let mut names: Vec<String> =
                package.dependencies.iter().map(|id| id.name.clone()).collect();
            names.sort();
            assert_eq!(names, vec!["mod_0".to_string(), "mod_1".to_string()]);
        },
        LoaderTransaction::Invoke(_) => panic!("a package was asked for"),
    }
    assert_eq!(sequence_numbers(&graph), vec![0, 0, 1]);
}

#[test]
fn update_takes_out_an_edge_that_is_there() {
    let mut graph = graph_of(&[1, 2, 3], &[(2, 0), (2, 1), (1, 0)]);
    assert_eq!(values_held(&graph), vec![1, 3, 7]);
    let txn = graph.generate_txn(update(0, 2)).unwrap().unwrap();
    assert_eq!(graph.edge_count(), 2);
    assert_eq!(graph.dependencies(2), vec![1]);
    assert_eq!(values_held(&graph), vec![1, 3, 6]);
    match txn {
        LoaderTransaction::Publish(package) => {
            assert_eq!(package.module.name, "mod_2");
            assert_eq!(package.dependencies.len(), 1);
            assert_eq!(package.dependencies[0].name, "mod_1");
            assert_eq!(package.dependencies[0].address.bytes, at(1).bytes);
        },
        LoaderTransaction::Invoke(_) => panic!("a package was asked for"),
    }
}

#[test]
fn update_recomputes_the_nodes_above_but_republishes_one() {
    // 3 -> 2 -> 1; adding 1 -> 0 changes what 1, 2 and 3 report.
    let mut graph = graph_of(&[10, 1, 1, 1], &[(3, 2), (2, 1)]);
    assert_eq!(values_held(&graph), vec![10, 1, 2, 3]);
    let txn = graph.generate_txn(update(0, 1)).unwrap().unwrap();
    assert_eq!(values_held(&graph), vec![10, 11, 12, 13]);
    assert!(matches!(txn, LoaderTransaction::Publish(ref package) if package.module.name == "mod_1"));
    assert_eq!(sequence_numbers(&graph), vec![0, 1, 0, 0]);
}

#[test]
fn same_update_twice_restores_edges_and_values() {
    for edges in [vec![(2, 0)], vec![(2, 0), (2, 1)]] {
        let mut graph = graph_of(&[1, 2, 3], &edges);
        let before = values_held(&graph);
        let found = sorted_dependencies(&graph, 2);
        assert!(graph.generate_txn(update(2, 1)).unwrap().is_some());
        assert_ne!(values_held(&graph), before);
        assert!(graph.generate_txn(update(2, 1)).unwrap().is_some());
        assert_eq!(values_held(&graph), before);
        assert_eq!(sorted_dependencies(&graph, 2), found);
        assert_eq!(graph.edge_count(), edges.len());
        assert_eq!(sequence_numbers(&graph), vec![0, 0, 2]);
    }
}

#[test]
fn same_update_twice_on_parallel_edges_takes_out_two() {
    let mut graph = graph_of(&[5, 1], &[(1, 0), (1, 0)]);
    assert_eq!(values_held(&graph), vec![5, 11]);
    assert!(graph.generate_txn(update(1, 0)).unwrap().is_some());
    assert_eq!(values_held(&graph), vec![5, 6]);
    assert!(graph.generate_txn(update(1, 0)).unwrap().is_some());
    assert_eq!(values_held(&graph), vec![5, 1]);
    assert_eq!(graph.edge_count(), 0);
}

#[test]
fn invocation_asserts_the_value_held_and_changes_no_node() {
    let mut graph = graph_of(&[4, 6], &[(1, 0)]);
    let txn = graph.generate_txn(LoaderTransactionGen::Invoke(Index::new(5))).unwrap().unwrap();
    match txn {
        LoaderTransaction::Invoke(call) => {
            assert_eq!(call.module.name, "mod_1");
            assert_eq!(call.module.address.bytes, at(1).bytes);
            assert_eq!(call.expected_value, 10);
            assert_eq!(call.sequence_number, 0);
            assert_eq!(call.sender.bytes, at(250).bytes);
        },
        LoaderTransaction::Publish(_) => panic!("an invocation was asked for"),
    }
    assert_eq!(graph.sender().sequence_number, 1);
    assert_eq!(sequence_numbers(&graph), vec![0, 0]);
    assert_eq!(values_held(&graph), vec![4, 10]);
}

#[test]
fn values_stay_right_through_a_run_of_updates() {
    let mut graph = graph_of(&[3, 1, 4, 1, 5], &[(4, 0), (3, 1)]);
    let updates = [(4, 3), (1, 0), (2, 4), (3, 3), (0, 4), (9, 6), (3, 2), (4, 3), (2, 1)];
    for (a, b) in updates {
        graph.generate_txn(update(a, b)).unwrap();
        for node in 0..graph.node_count() {
            let mut sum = graph.node(node).self_value;
            for dependency in graph.dependencies(node) {
                sum += graph.expected_value(dependency);
            }
            assert_eq!(graph.expected_value(node), sum);
        }
        assert_eq!(graph.expected_values(), Some(values_held(&graph)));
    }
}

#[test]
fn update_edge_reports_the_dependent() {
    let mut graph = graph_of(&[1, 1, 1], &[]);
    assert_eq!(graph.update_edge(0, 2), Ok(Some(2)));
    assert_eq!(graph.dependencies(2), vec![0]);
    assert_eq!(graph.update_edge(2, 0), Ok(Some(2)));
    assert_eq!(graph.edge_count(), 0);
    assert_eq!(graph.update_edge(1, 1), Ok(None));
    assert_eq!(graph.edge_count(), 0);
    // Nothing is recomputed by the edge update alone.
    assert_eq!(values_held(&graph), vec![1, 1, 1]);
}

#[test]
fn value_that_does_not_fit_is_refused_and_the_graph_kept() {
    // Node i depends twice on node i - 1, up to node 63, which reports the
    // largest value there is; node 64 stands alone until an edge is put in
    // without deriving the values anew.
    let count = 65usize;
    let mut edges = Vec::new();
    for i in 1..count - 1 {
        edges.push((i, i - 1));
        edges.push((i, i - 1));
    }
    let values: Vec<u16> = (0..count).map(|_| 1u16).collect();
    let mut graph = graph_of(&values, &edges);
    let before = values_held(&graph);
    assert_eq!(before[63], u64::MAX);
    assert_eq!(before[64], 1);
    assert_eq!(graph.update_edge(64, 63), Ok(Some(64)));
    assert_eq!(graph.expected_values(), None);
    assert_eq!(graph.caculate_expected_values(), Err(LoaderError::ValueOverflow));
    assert_eq!(values_held(&graph), before);
    assert_eq!(graph.edge_count(), edges.len() + 1);
    assert_eq!(graph.dependencies(64), vec![63]);
    assert_eq!(graph.update_edge(63, 64), Ok(Some(64)));
    assert_eq!(graph.caculate_expected_values(), Ok(()));
    assert_eq!(values_held(&graph), before);
}

#[test]
fn update_that_overflows_is_refused_and_undone() {
    let count = 65usize;
    let mut edges = Vec::new();
    for i in 1..count - 1 {
        edges.push((i, i - 1));
        edges.push((i, i - 1));
    }
    let values: Vec<u16> = (0..count).map(|_| 1u16).collect();
    let mut graph = graph_of(&values, &edges);
    let before = values_held(&graph);
    assert_eq!(before[63], u64::MAX);
    assert_eq!(before[64], 1);
    let refused = graph.generate_txn(update(64, 63));
    assert_eq!(refused.err(), Some(LoaderError::ValueOverflow));
    assert_eq!(graph.edge_count(), edges.len());
    assert_eq!(graph.dependencies(64), Vec::<usize>::new());
    assert_eq!(values_held(&graph), before);
    assert_eq!(sequence_numbers(&graph)[64], 0);
    // Taking an edge out further down makes room again.
    assert!(graph.generate_txn(update(1, 0)).unwrap().is_some());
    assert!(graph.generate_txn(update(64, 63)).unwrap().is_some());
    assert_eq!(graph.expected_value(64), graph.expected_value(63) + 1);
}

#[test]
fn owner_that_cannot_sign_again_is_refused() {
    let accounts = vec![
        (AccountData::new(at(1), 1_000_000_001, 0), 1u16, "low".to_string()),
        (AccountData::new(at(2), 1_000_000_001, u64::MAX), 1u16, "high".to_string()),
    ];
    let mut graph = DependencyGraph::create(accounts, vec![], at(250)).unwrap();
    assert_eq!(graph.build_package_for_node(1).err(), Some(LoaderError::SequenceOverflow));
    assert_eq!(graph.generate_txn(update(0, 1)).err(), Some(LoaderError::SequenceOverflow));
    assert_eq!(graph.edge_count(), 0);
    assert_eq!(sequence_numbers(&graph), vec![0, u64::MAX]);
    assert!(!graph.can_launch());
    assert_eq!(graph.execute(vec![]).err(), Some(LoaderError::SequenceOverflow));
    assert_eq!(sequence_numbers(&graph), vec![0, u64::MAX]);
    assert_eq!(graph.sender().sequence_number, 0);
    assert!(graph.build_package_for_node(0).is_ok());
}

#[test]
fn update_puts_the_new_edge_in_front() {
    let mut graph = graph_of(&[1, 1, 1, 1], &[(3, 0), (3, 1)]);
    assert_eq!(graph.dependencies(3), vec![1, 0]);
    let txn = graph.generate_txn(update(2, 3)).unwrap().unwrap();
    assert_eq!(graph.dependencies(3), vec![2, 1, 0]);
    match txn {
        LoaderTransaction::Publish(package) => {
            let names: Vec<String> = package.dependencies.iter().map(|id| id.name.clone()).collect();
            assert_eq!(names, vec!["mod_2", "mod_1", "mod_0"]);
        },
        LoaderTransaction::Invoke(_) => panic!("a package was asked for"),
    }
}

#[test]
fn update_takes_out_the_newest_of_parallel_edges() {
    let mut graph = graph_of(&[1, 1, 1, 1], &[(3, 1), (3, 0), (3, 1), (3, 2)]);
    assert_eq!(graph.dependencies(3), vec![2, 1, 0, 1]);
    assert!(graph.generate_txn(update(3, 1)).unwrap().is_some());
    assert_eq!(graph.dependencies(3), vec![2, 0, 1]);
    assert!(graph.generate_txn(update(1, 3)).unwrap().is_some());
    assert_eq!(graph.dependencies(3), vec![2, 0]);
    assert!(graph.generate_txn(update(3, 1)).unwrap().is_some());
    assert_eq!(graph.dependencies(3), vec![1, 2, 0]);
}

#[test]
fn refused_update_leaves_every_edge_where_it_was() {
    // Node 63 reports the largest value there is; node 65 depends on 0 and 1.
    let count = 66usize;
    let mut edges = Vec::new();
    for i in 1..64 {
        edges.push((i, i - 1));
        edges.push((i, i - 1));
    }
    edges.push((65, 0));
    edges.push((65, 1));
    edges.push((65, 0));
    let values: Vec<u16> = (0..count).map(|_| 1u16).collect();
    let mut graph = graph_of(&values, &edges);
    assert_eq!(graph.dependencies(65), vec![0, 1, 0]);
    assert_eq!(graph.generate_txn(update(65, 63)).err(), Some(LoaderError::ValueOverflow));
    assert_eq!(graph.dependencies(65), vec![0, 1, 0]);
    assert_eq!(graph.dependencies(63), vec![62, 62]);
    assert_eq!(graph.edge_count(), edges.len());
}
