use loader_graph::account::AccountAddress;
use loader_graph::account::AccountData;
use loader_graph::graph::DependencyGraph;
use loader_graph::index::Index;
use loader_graph::transaction::LoaderTransaction;

fn address(tag: u8) -> AccountAddress {
    let mut bytes = [0u8; 32];
    bytes[31] = tag;
    AccountAddress { bytes }
}

fn account(tag: u8) -> AccountData {
    AccountData::new(address(tag), 1_500_000_000, 0)
}

fn pairs(edges: &[(usize, usize)]) -> Vec<(Index, Index)> {
    edges.iter().map(|(a, b)| (Index::new(*a), Index::new(*b))).collect()
}

fn build(values: &[(u16, &str)], edges: &[(usize, usize)]) -> DependencyGraph {
    let accounts = values
        .iter()
        .enumerate()
        .map(|(i, (value, name))| (account(i as u8 + 1), *value, name.to_string()))
        .collect();
    DependencyGraph::create(accounts, pairs(edges), address(200)).unwrap()
}

#[test]
fn isolated_nodes_report_their_own_value() {
    let mut graph = build(&[(40, "alpha"), (2, "beta")], &[]);
    assert_eq!(graph.edge_count(), 0);
    assert_eq!(graph.caculate_expected_values(), Ok(()));
    assert_eq!(graph.expected_value(0), 40);
    assert_eq!(graph.expected_value(1), 2);
}

#[test]
fn values_are_held_from_construction_on() {
    let graph = build(&[(40, "alpha"), (2, "beta")], &[(1, 0)]);
    assert_eq!(graph.expected_value(0), 40);
    assert_eq!(graph.expected_value(1), 42);
    assert_eq!(graph.expected_values(), Some(vec![40, 42]));
    let single = build(&[(5, "only")], &[]);
    assert_eq!(single.expected_value(0), 5);
}

#[test]
fn chain_adds_up_along_its_edges() {
    // M1 -> M2 -> M3, created in the order M3, M2, M1.
    let mut graph = build(&[(11, "m_three"), (7, "m_two"), (5, "m_one")], &[(2, 1), (1, 0)]);
    assert_eq!(graph.caculate_expected_values(), Ok(()));
    assert_eq!(graph.expected_value(0), 11);
    assert_eq!(graph.expected_value(1), 18);
    assert_eq!(graph.expected_value(2), 23);
}

#[test]
fn chain_invocations_carry_the_expected_values() {
    let mut graph = build(&[(11, "m_three"), (7, "m_two"), (5, "m_one")], &[(2, 1), (1, 0)]);
    graph.caculate_expected_values().unwrap();
    let mut seen = Vec::new();
    for node in 0..3 {
        match graph.invoke_at(node).unwrap() {
            LoaderTransaction::Invoke(call) => {
                assert_eq!(call.function, "foo_entry");
                assert_eq!(call.arguments, vec![call.expected_value.to_le_bytes().to_vec()]);
                assert_eq!(call.sequence_number, node as u64);
                assert_eq!(call.sender.bytes, address(200).bytes);
                seen.push((call.module.name.clone(), call.expected_value));
            },
            LoaderTransaction::Publish(_) => panic!("an invocation was asked for"),
        }
    }
    assert_eq!(
        seen,
        vec![
            ("m_three".to_string(), 11),
            ("m_two".to_string(), 18),
            ("m_one".to_string(), 23)
        ]
    );
    assert_eq!(graph.sender().sequence_number, 3);
}

#[test]
fn expected_value_is_serialized_least_significant_byte_first() {
    let mut graph = build(&[(0x1234, "alpha")], &[]);
    graph.caculate_expected_values().unwrap();
    match graph.invoke_at(0).unwrap() {
        LoaderTransaction::Invoke(call) => {
            assert_eq!(call.expected_value, 0x1234);
            assert_eq!(call.arguments, vec![vec![0x34, 0x12, 0, 0, 0, 0, 0, 0]]);
        },
        LoaderTransaction::Publish(_) => panic!("an invocation was asked for"),
    }
}

#[test]
fn diamond_counts_the_shared_dependency_twice() {
    // M1 -> M2, M1 -> M3, M2 -> M4, M3 -> M4, created in the order M4, M3, M2, M1.
    let mut graph = build(
        &[(1, "m_four"), (1, "m_three"), (1, "m_two"), (1, "m_one")],
        &[(3, 2), (3, 1), (2, 0), (1, 0)],
    );
    assert_eq!(graph.caculate_expected_values(), Ok(()));
    assert_eq!(graph.expected_value(0), 1);
    assert_eq!(graph.expected_value(2), 2);
    assert_eq!(graph.expected_value(1), 2);
    assert_eq!(graph.expected_value(3), 5);
}

#[test]
fn parallel_edges_count_once_each() {
    let mut graph = build(&[(3, "leaf"), (10, "root")], &[(1, 0), (1, 0), (0, 1)]);
    assert_eq!(graph.edge_count(), 3);
    assert_eq!(graph.dependencies(1), vec![0, 0, 0]);
    assert_eq!(graph.caculate_expected_values(), Ok(()));
    assert_eq!(graph.expected_value(0), 3);
    assert_eq!(graph.expected_value(1), 19);
}

#[test]
fn every_node_holds_its_own_value_plus_its_dependencies() {
    let mut graph = build(
        &[(9, "a"), (8, "b"), (7, "c"), (6, "d"), (5, "e"), (4, "f")],
        &[(5, 0), (1, 4), (3, 2), (11, 7), (2, 2), (4, 3), (5, 3), (0, 3), (1, 0), (9, 9)],
    );
    assert_eq!(graph.caculate_expected_values(), Ok(()));
    for node in 0..graph.node_count() {
        let mut sum = graph.node(node).self_value;
        for dependency in graph.dependencies(node) {
            assert!(dependency < node);
            sum += graph.expected_value(dependency);
        }
        assert_eq!(graph.expected_value(node), sum);
    }
    assert_eq!(graph.expected_values(), Some(vec![9, 17, 7, 22, 44, 52]));
}

#[test]
fn largest_value_that_fits_is_accepted() {
    // Node i depends twice on node i - 1: it reports 2^(i + 1) - 1.
    let names: Vec<String> = (0..64).map(|i| format!("n{}", i)).collect();
    let values: Vec<(u16, &str)> = names.iter().map(|name| (1u16, name.as_str())).collect();
    let mut edges = Vec::new();
    for i in 1..64 {
        edges.push((i, i - 1));
        edges.push((i - 1, i));
    }
    let mut graph = build(&values, &edges);
    assert_eq!(graph.caculate_expected_values(), Ok(()));
    assert_eq!(graph.expected_value(0), 1);
    assert_eq!(graph.expected_value(10), 2047);
    assert_eq!(graph.expected_value(63), u64::MAX);
}
