use loader_graph::account::AccountAddress;
use loader_graph::account::AccountData;
use loader_graph::graph::DependencyGraph;
use loader_graph::index::Index;
use loader_graph::transaction::check_statuses;
use loader_graph::transaction::encode_arguments;
use loader_graph::transaction::entry_function_name;
use loader_graph::transaction::LoaderError;
use loader_graph::transaction::LoaderTransaction;
use loader_graph::transaction::LoaderTransactionGen;
use loader_graph::transaction::TransactionStatus;

fn place(tag: u8) -> AccountAddress {
    let mut bytes = [0u8; 32];
    bytes[15] = tag;
    AccountAddress { bytes }
}

fn universe(values: &[u16], edges: &[(usize, usize)]) -> DependencyGraph {
    let accounts = values
        .iter()
        .enumerate()
        .map(|(i, value)| (AccountData::new(place(i as u8), 1_999_999_999, 3), *value, format!("unit_{}", i)))
        .collect();
    let edges = edges.iter().map(|(a, b)| (Index::new(*a), Index::new(*b))).collect();
    DependencyGraph::create(accounts, edges, place(99)).unwrap()
}

fn name_of(txn: &LoaderTransaction) -> String {
    match txn {
        LoaderTransaction::Publish(package) => package.module.name.clone(),
        LoaderTransaction::Invoke(call) => call.module.name.clone(),
    }
}

#[test]
fn setup_lists_the_owners_and_then_the_sender() {
    let graph = universe(&[1, 2, 3], &[(2, 1)]);
    let accounts = graph.setup();
    assert_eq!(accounts.len(), 4);
    for (i, account) in accounts.iter().take(3).enumerate() {
        assert_eq!(account.address.bytes, place(i as u8).bytes);
        assert_eq!(account.balance, 1_999_999_999);
        assert_eq!(account.sequence_number, 3);
    }
    assert_eq!(accounts[3].address.bytes, place(99).bytes);
    assert_eq!(accounts[3].balance, 1_000_000_000);
    assert_eq!(accounts[3].sequence_number, 0);
}

#[test]
fn batch_publishes_dependencies_first_and_then_invokes() {
    let mut graph = universe(&[11, 7, 5], &[(2, 1), (1, 0)]);
    let txns = graph.execute(vec![]).unwrap();
    assert_eq!(txns.len(), 6);
    let published: Vec<String> = txns[..3].iter().map(name_of).collect();
    assert_eq!(published, vec!["unit_0", "unit_1", "unit_2"]);
    for txn in &txns[..3] {
        match txn {
            LoaderTransaction::Publish(package) => assert_eq!(package.sequence_number, 3),
            LoaderTransaction::Invoke(_) => panic!("packages come first"),
        }
    }
    let expected = [("unit_2", 23u64), ("unit_1", 18), ("unit_0", 11)];
    for (k, txn) in txns[3..].iter().enumerate() {
        match txn {
            LoaderTransaction::Invoke(call) => {
                assert_eq!(call.module.name, expected[k].0);
                assert_eq!(call.expected_value, expected[k].1);
                assert_eq!(call.arguments, vec![expected[k].1.to_le_bytes().to_vec()]);
                assert_eq!(call.sequence_number, k as u64);
                assert_eq!(call.sender.bytes, place(99).bytes);
            },
            LoaderTransaction::Publish(_) => panic!("invocations come last"),
        }
    }
    assert_eq!(graph.sender().sequence_number, 3);
    for node in 0..3 {
        assert_eq!(graph.node(node).account_data.sequence_number, 4);
    }
}

#[test]
fn batch_never_publishes_a_module_before_what_it_calls() {
    let mut graph = universe(
        &[1, 1, 1, 1, 1, 1],
        &[(5, 0), (2, 4), (3, 1), (5, 2), (1, 0), (4, 3), (5, 2)],
    );
    let txns = graph.execute(vec![]).unwrap();
    assert_eq!(txns.len(), 12);
    let mut seen: Vec<String> = Vec::new();
    for txn in &txns[..6] {
        match txn {
            LoaderTransaction::Publish(package) => {
                for dependency in &package.dependencies {
                    assert!(seen.contains(&dependency.name));
                }
                seen.push(package.module.name.clone());
            },
            LoaderTransaction::Invoke(_) => panic!("packages come first"),
        }
    }
    seen.sort();
    assert_eq!(seen, vec!["unit_0", "unit_1", "unit_2", "unit_3", "unit_4", "unit_5"]);
    let mut invoked: Vec<String> = txns[6..].iter().map(name_of).collect();
    invoked.sort();
    assert_eq!(invoked, seen);
}

#[test]
fn batch_follows_the_order_it_is_given() {
    let mut graph = universe(&[2, 3, 4], &[]);
    let txns = graph.batch_in_order(&vec![1, 2, 0]).unwrap();
    let names: Vec<String> = txns.iter().map(name_of).collect();
    assert_eq!(names, vec!["unit_0", "unit_2", "unit_1", "unit_1", "unit_2", "unit_0"]);
    match &txns[5] {
        LoaderTransaction::Invoke(call) => {
            assert_eq!(call.sequence_number, 2);
            assert_eq!(call.expected_value, 2);
        },
        LoaderTransaction::Publish(_) => panic!("invocations come last"),
    }
}

#[test]
fn package_names_the_dependencies_in_the_order_found() {
    let graph = universe(&[2, 3, 4, 5], &[(3, 0), (3, 2)]);
    let package = graph.publish_request(3, &vec![2, 0, 2]);
    let names: Vec<String> = package.dependencies.iter().map(|id| id.name.clone()).collect();
    assert_eq!(names, vec!["unit_2", "unit_0", "unit_2"]);
    assert_eq!(package.module.name, "unit_3");
    assert_eq!(package.self_value, 5);
    assert_eq!(package.sequence_number, 3);
    assert_eq!(package.sender.bytes, place(3).bytes);
}

#[test]
fn run_appends_what_the_drawn_operations_hand_out() {
    let mut graph = universe(&[1, 2, 3], &[(2, 0)]);
    let operations = vec![
        LoaderTransactionGen::Invoke(Index::new(2)),
        LoaderTransactionGen::UpdateEdge(Index::new(4), Index::new(1)),
        LoaderTransactionGen::UpdateEdge(Index::new(1), Index::new(2)),
        LoaderTransactionGen::Invoke(Index::new(8)),
    ];
    let txns = graph.execute(operations).unwrap();
    assert_eq!(txns.len(), 9);
    match &txns[6] {
        LoaderTransaction::Invoke(call) => {
            assert_eq!(call.module.name, "unit_2");
            assert_eq!(call.expected_value, 4);
            assert_eq!(call.sequence_number, 3);
        },
        LoaderTransaction::Publish(_) => panic!("an invocation was drawn"),
    }
    match &txns[7] {
        LoaderTransaction::Publish(package) => {
            assert_eq!(package.module.name, "unit_2");
            assert_eq!(package.sequence_number, 4);
            assert_eq!(package.dependencies.len(), 2);
        },
        LoaderTransaction::Invoke(_) => panic!("an edge update was drawn"),
    }
    match &txns[8] {
        LoaderTransaction::Invoke(call) => {
            assert_eq!(call.module.name, "unit_2");
            assert_eq!(call.expected_value, 6);
            assert_eq!(call.sequence_number, 4);
        },
        LoaderTransaction::Publish(_) => panic!("an invocation was drawn"),
    }
    assert_eq!(graph.node(2).account_data.sequence_number, 5);
    assert_eq!(graph.sender().sequence_number, 5);
}

#[test]
fn run_stops_at_the_first_operation_that_is_refused() {
    let accounts = vec![
        (AccountData::new(place(1), 1_000_000_001, 0), 1u16, "low".to_string()),
        (AccountData::new(place(2), 1_000_000_001, u64::MAX - 1), 1u16, "high".to_string()),
    ];
    let mut graph = DependencyGraph::create(accounts, vec![], place(99)).unwrap();
    let operations = vec![
        LoaderTransactionGen::Invoke(Index::new(0)),
        LoaderTransactionGen::UpdateEdge(Index::new(0), Index::new(1)),
        LoaderTransactionGen::Invoke(Index::new(1)),
    ];
    assert_eq!(graph.execute(operations).err(), Some(LoaderError::SequenceOverflow));
    assert_eq!(graph.sender().sequence_number, 3);
    assert_eq!(graph.node(1).account_data.sequence_number, u64::MAX);
    assert_eq!(graph.edge_count(), 0);
}

#[test]
fn operations_alone_hand_out_one_request_each_at_most() {
    let mut graph = universe(&[1, 2, 3], &[]);
    let operations = vec![
        LoaderTransactionGen::UpdateEdge(Index::new(1), Index::new(1)),
        LoaderTransactionGen::UpdateEdge(Index::new(0), Index::new(1)),
        LoaderTransactionGen::UpdateEdge(Index::new(3), Index::new(6)),
        LoaderTransactionGen::Invoke(Index::new(1)),
    ];
    let txns = graph.generate_txns(&operations).unwrap();
    let names: Vec<String> = txns.iter().map(name_of).collect();
    assert_eq!(names, vec!["unit_1", "unit_1"]);
    assert!(matches!(txns[0], LoaderTransaction::Publish(_)));
    assert!(matches!(txns[1], LoaderTransaction::Invoke(ref call) if call.expected_value == 3));
}

#[test]
fn entry_function_and_its_argument() {
    assert_eq!(entry_function_name(), "foo_entry");
    assert_eq!(encode_arguments(0), vec![vec![0u8; 8]]);
    assert_eq!(encode_arguments(258), vec![vec![2, 1, 0, 0, 0, 0, 0, 0]]);
    assert_eq!(encode_arguments(u64::MAX), vec![vec![255u8; 8]]);
}

#[test]
fn statuses_pass_only_if_every_one_is_a_success() {
    let good = vec![TransactionStatus::Success; 4];
    assert_eq!(check_statuses(&good), Ok(()));
    assert_eq!(check_statuses(&vec![]), Ok(()));
    let aborted = vec![
        TransactionStatus::Success,
        TransactionStatus::Success,
        TransactionStatus::Failure(42),
        TransactionStatus::Discarded,
    ];
    assert_eq!(check_statuses(&aborted), Err(LoaderError::StatusMismatch(2)));
    let discarded = vec![TransactionStatus::Discarded, TransactionStatus::Success];
    assert_eq!(check_statuses(&discarded), Err(LoaderError::StatusMismatch(0)));
}

#[test]
fn packages_list_the_dependencies_edge_by_edge() {
    let mut graph = universe(&[1, 1, 1, 1], &[(3, 0), (3, 2), (2, 0), (3, 0), (1, 0)]);
    let found: Vec<Vec<usize>> = (0..4).map(|node| graph.dependencies(node)).collect();
    assert_eq!(found, vec![vec![], vec![0], vec![0], vec![0, 2, 0]]);
    let txns = graph.build_initial_batch().unwrap();
    for txn in &txns[..4] {
        match txn {
            LoaderTransaction::Publish(package) => {
                let node: usize = package.module.name["unit_".len()..].parse().unwrap();
                let names: Vec<String> =
                    package.dependencies.iter().map(|id| id.name.clone()).collect();
                let expected: Vec<String> =
                    found[node].iter().map(|d| format!("unit_{}", d)).collect();
                assert_eq!(names, expected);
            },
            LoaderTransaction::Invoke(_) => panic!("packages come first"),
        }
    }
}

#[test]
fn batch_holds_two_requests_for_each_node_and_one_for_each_operation_that_hands_one_out() {
    let mut graph = universe(&[1, 2, 3, 4], &[(3, 1)]);
    let operations = vec![
        LoaderTransactionGen::UpdateEdge(Index::new(2), Index::new(6)),
        LoaderTransactionGen::Invoke(Index::new(0)),
        LoaderTransactionGen::UpdateEdge(Index::new(2), Index::new(0)),
        LoaderTransactionGen::UpdateEdge(Index::new(5), Index::new(1)),
        LoaderTransactionGen::Invoke(Index::new(7)),
    ];
    let txns = graph.execute(operations).unwrap();
    assert_eq!(txns.len(), 2 * 4 + 3);
    let kinds: Vec<bool> = txns.iter().map(|txn| matches!(txn, LoaderTransaction::Publish(_))).collect();
    assert_eq!(
        kinds,
        vec![true, true, true, true, false, false, false, false, false, true, false]
    );
    let mut sender_numbers = Vec::new();
    for txn in &txns {
        if let LoaderTransaction::Invoke(call) = txn {
            sender_numbers.push(call.sequence_number);
        }
    }
    assert_eq!(sender_numbers, vec![0, 1, 2, 3, 4, 5]);
}
