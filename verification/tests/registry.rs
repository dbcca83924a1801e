use jdw_sc::node_lookup::NodeIDRegistry;

#[test]
fn assign_handles_strictly_increase() {
    let mut reg = NodeIDRegistry::new();
    let a = reg.create_node_id("alpha").unwrap();
    let b = reg.create_node_id("beta").unwrap();
    let c = reg.create_node_id("gamma").unwrap();
    assert_eq!(a, 101);
    assert_eq!(b, 102);
    assert_eq!(c, 103);
    assert!(a < b && b < c);
}

#[test]
fn duplicate_name_fails_without_mutating() {
    let mut reg = NodeIDRegistry::new();
    reg.create_node_id("exact").unwrap();
    let second = reg.create_node_id("exact");
    assert!(second.is_err());
    // the registry still holds exactly one matching entry, and the next
    // assignment continues from the same counter
    assert_eq!(reg.regex_search_node_ids("^exact$"), vec![101]);
    let next = reg.create_node_id("other").unwrap();
    assert_eq!(next, 102);
}

#[test]
fn search_exact_finds_one_handle() {
    let mut reg = NodeIDRegistry::new();
    reg.create_node_id("exact").unwrap();
    let found = reg.regex_search_node_ids("^exact$");
    assert_eq!(found, vec![101]);
}

#[test]
fn search_uses_real_pattern_matching() {
    let mut reg = NodeIDRegistry::new();
    reg.create_node_id("apple").unwrap();
    reg.create_node_id("banana").unwrap();
    // the pattern is no entry's literal name, so an echo of the input
    // instead of a real match would find nothing
    assert_eq!(reg.regex_search_node_ids("^ap.*e$"), vec![101]);
    assert_eq!(reg.regex_search_node_ids("an"), vec![102]);
}

#[test]
fn malformed_pattern_finds_nothing() {
    let mut reg = NodeIDRegistry::new();
    reg.create_node_id("apple").unwrap();
    assert_eq!(reg.regex_search_node_ids("["), Vec::<i32>::new());
}

#[test]
fn clear_matching_removes_all_and_only_matches() {
    let mut reg = NodeIDRegistry::new();
    reg.create_node_id("drum_1").unwrap();
    reg.create_node_id("drum_2").unwrap();
    reg.create_node_id("bell_1").unwrap();
    reg.regex_clear_node_ids("^drum");
    assert_eq!(reg.regex_search_node_ids("^drum"), Vec::<i32>::new());
    assert_eq!(reg.regex_search_node_ids("^bell"), vec![103]);
}

#[test]
fn clear_removes_single_exact_entry() {
    let mut reg = NodeIDRegistry::new();
    reg.create_node_id("keep").unwrap();
    reg.create_node_id("drop").unwrap();
    reg.clear("drop".to_string());
    assert_eq!(reg.regex_search_node_ids("^drop$"), Vec::<i32>::new());
    assert_eq!(reg.regex_search_node_ids("^keep$"), vec![101]);
}

#[test]
fn placeholder_takes_the_assigned_handle() {
    let mut reg = NodeIDRegistry::new();
    reg.create_node_id("note_{nodeId}").unwrap();
    assert_eq!(reg.regex_search_node_ids("^note_101$"), vec![101]);
}
