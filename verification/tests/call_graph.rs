//! Traversal of a call graph in a database.
use code_graph::db::Session;
use code_graph::domain::REL_CALLS;
use code_graph::graph::{
    call_graph, call_graph_result, direction_result, direction_sql, get_call_graph, merge_results,
    query_direction, CallGraphError, CallGraphNode, CallGraphRow, Direction, CALL_GRAPH_MAX_DEPTH,
    CALL_GRAPH_ROW_LIMIT,
};
use code_graph::order::stable_order;
use rusqlite::Connection;

fn test_db() -> Connection {
    let conn = Connection::open_in_memory().unwrap();
    conn.execute_batch(
        "CREATE TABLE files (id INTEGER PRIMARY KEY, path TEXT NOT NULL, blake3_hash TEXT, \
         last_modified INTEGER, language TEXT);
         CREATE TABLE nodes (id INTEGER PRIMARY KEY, file_id INTEGER NOT NULL, type TEXT NOT NULL, \
         name TEXT NOT NULL);
         CREATE TABLE edges (source_id INTEGER NOT NULL, target_id INTEGER NOT NULL, \
         relation TEXT NOT NULL);",
    )
    .unwrap();
    conn
}

fn add_file(conn: &Connection, path: &str) -> i64 {
    conn.execute(
        "INSERT INTO files(path, blake3_hash, last_modified, language) VALUES (?1, 'h1', 1, ?2)",
        (path, "typescript"),
    )
    .unwrap();
    conn.last_insert_rowid()
}

fn add_node(conn: &Connection, name: &str, file: i64) -> i64 {
    conn.execute(
        "INSERT INTO nodes(file_id, type, name) VALUES (?1, 'function', ?2)",
        (file, name),
    )
    .unwrap();
    conn.last_insert_rowid()
}

fn add_edge(conn: &Connection, source: i64, target: i64, relation: &str) {
    conn.execute(
        "INSERT INTO edges(source_id, target_id, relation) VALUES (?1, ?2, ?3)",
        (source, target, relation),
    )
    .unwrap();
}

/// A calls B, B calls C, D calls B.
fn chain(conn: &Connection) -> (i64, i64, i64, i64) {
    let fid = add_file(conn, "test.ts");
    let a = add_node(conn, "A", fid);
    let b = add_node(conn, "B", fid);
    let c = add_node(conn, "C", fid);
    let d = add_node(conn, "D", fid);
    add_edge(conn, a, b, REL_CALLS);
    add_edge(conn, b, c, REL_CALLS);
    add_edge(conn, d, b, REL_CALLS);
    (a, b, c, d)
}

fn ok<T>(result: Result<T, CallGraphError>) -> T {
    match result {
        Ok(value) => value,
        Err(_) => panic!("the traversal failed"),
    }
}

fn node(node_id: i64, depth: i32, direction: Direction, parent_id: Option<i64>) -> CallGraphNode {
    CallGraphNode {
        node_id,
        name: format!("n{}", node_id),
        node_type: "function".to_string(),
        file_path: "a.rs".to_string(),
        depth,
        direction,
        parent_id,
    }
}

fn key(n: &CallGraphNode) -> (i64, i32, Direction, Option<i64>) {
    (n.node_id, n.depth, n.direction, n.parent_id)
}

#[test]
fn test_get_callees() {
    let conn = test_db();
    chain(&conn);
    let result = ok(get_call_graph(&conn, "A", "callees", 2, None));

    let names: Vec<&str> = result.nodes.iter().map(|n| n.name.as_str()).collect();
    assert!(names.contains(&"A"), "should contain root node A");
    assert!(names.contains(&"B"), "should contain callee B");
    assert!(names.contains(&"C"), "should contain callee C");
    assert!(!names.contains(&"D"), "should NOT contain D (not a callee of A)");

    let a_node = result.nodes.iter().find(|n| n.name == "A").unwrap();
    assert_eq!(a_node.depth, 0);
    let b_node = result.nodes.iter().find(|n| n.name == "B").unwrap();
    assert_eq!(b_node.depth, 1);
    let c_node = result.nodes.iter().find(|n| n.name == "C").unwrap();
    assert_eq!(c_node.depth, 2);
}

#[test]
fn test_get_callers() {
    let conn = test_db();
    chain(&conn);
    let result = ok(get_call_graph(&conn, "B", "callers", 2, None));

    let names: Vec<&str> = result.nodes.iter().map(|n| n.name.as_str()).collect();
    assert!(names.contains(&"B"), "should contain root node B");
    assert!(names.contains(&"A"), "should contain caller A");
    assert!(names.contains(&"D"), "should contain caller D");
    assert!(!names.contains(&"C"), "should NOT contain C (C is a callee, not caller)");

    let b_node = result.nodes.iter().find(|n| n.name == "B").unwrap();
    assert_eq!(b_node.depth, 0);
    let a_node = result.nodes.iter().find(|n| n.name == "A").unwrap();
    assert_eq!(a_node.depth, 1);
    let d_node = result.nodes.iter().find(|n| n.name == "D").unwrap();
    assert_eq!(d_node.depth, 1);
}

#[test]
fn test_cycle_detection() {
    let conn = test_db();
    let fid = add_file(&conn, "test.ts");
    let a = add_node(&conn, "A", fid);
    let b = add_node(&conn, "B", fid);
    add_edge(&conn, a, b, REL_CALLS);
    add_edge(&conn, b, a, REL_CALLS);

    let result = ok(get_call_graph(&conn, "A", "callees", 10, None));
    assert!(
        result.nodes.len() <= 2,
        "cycle detection should limit results to <=2, got {}",
        result.nodes.len()
    );

    let names: Vec<&str> = result.nodes.iter().map(|n| n.name.as_str()).collect();
    assert!(names.contains(&"A"));
    assert!(names.contains(&"B"));
}

#[test]
fn test_both_direction() {
    let conn = test_db();
    chain(&conn);
    let result = ok(get_call_graph(&conn, "B", "both", 2, None));

    let names: Vec<&str> = result.nodes.iter().map(|n| n.name.as_str()).collect();
    assert!(names.contains(&"B"), "should contain root node B");
    assert!(names.contains(&"A"), "should contain caller A");
    assert!(names.contains(&"D"), "should contain caller D");
    assert!(names.contains(&"C"), "should contain callee C");

    let b_node = result.nodes.iter().find(|n| n.name == "B").unwrap();
    assert_eq!(b_node.depth, 0);
}

#[test]
fn test_parent_id_populated() {
    let conn = test_db();
    let (_, b, c, _) = chain(&conn);
    let result = ok(get_call_graph(&conn, "C", "callers", 2, None));

    let c_node = result.nodes.iter().find(|n| n.name == "C").unwrap();
    assert_eq!(c_node.parent_id, None, "root must have no parent");

    let b_node = result.nodes.iter().find(|n| n.name == "B").unwrap();
    assert_eq!(b_node.parent_id, Some(c), "depth-1 caller B's parent is the root C");

    let a_node = result.nodes.iter().find(|n| n.name == "A").unwrap();
    assert_eq!(a_node.parent_id, Some(b), "depth-2 caller A's parent is depth-1 B (NOT C)");
    let d_node = result.nodes.iter().find(|n| n.name == "D").unwrap();
    assert_eq!(d_node.parent_id, Some(b), "depth-2 caller D's parent is depth-1 B (NOT C)");
}

#[test]
fn test_callees_ordered_by_caller_count() {
    let conn = test_db();
    let fid = add_file(&conn, "test.ts");
    let r = add_node(&conn, "R", fid);
    let a1 = add_node(&conn, "A1", fid);
    let a2 = add_node(&conn, "A2", fid);
    let a3 = add_node(&conn, "A3", fid);
    add_edge(&conn, r, a1, REL_CALLS);
    add_edge(&conn, r, a2, REL_CALLS);
    add_edge(&conn, r, a3, REL_CALLS);
    for i in 0..5 {
        let ext = add_node(&conn, &format!("ext_a1_{}", i), fid);
        add_edge(&conn, ext, a1, REL_CALLS);
    }
    let ext_a2 = add_node(&conn, "ext_a2", fid);
    add_edge(&conn, ext_a2, a2, REL_CALLS);

    let result = ok(get_call_graph(&conn, "R", "callees", 1, None));
    let depth_1: Vec<&str> =
        result.nodes.iter().filter(|n| n.depth == 1).map(|n| n.name.as_str()).collect();
    assert_eq!(
        depth_1,
        vec!["A1", "A2", "A3"],
        "depth-1 callees must be ordered by caller_count DESC: A1(6) > A2(2) > A3(1)"
    );
}

#[test]
fn test_depth_capped_signal() {
    let conn = test_db();
    let fid = add_file(&conn, "test.ts");
    let a = add_node(&conn, "A", fid);
    let b = add_node(&conn, "B", fid);
    add_edge(&conn, a, b, REL_CALLS);

    let result = ok(get_call_graph(&conn, "A", "callees", 99, None));
    assert!(result.depth_capped, "depth=99 must trip the cap");
    assert_eq!(result.requested_max_depth, 99);
    assert_eq!(result.effective_max_depth, CALL_GRAPH_MAX_DEPTH);
    assert!(!result.limit_hit, "this fixture has only 2 nodes, must not trigger row limit");

    let small = ok(get_call_graph(&conn, "A", "callees", 5, None));
    assert!(!small.depth_capped, "depth=5 must not trip the cap");
    assert_eq!(small.requested_max_depth, 5);
    assert_eq!(small.effective_max_depth, 5);
}

#[test]
fn an_unknown_direction_is_named_in_the_error() {
    let conn = test_db();
    match get_call_graph(&conn, "A", "sideways", 2, None) {
        Err(CallGraphError::InvalidDirection(message)) => assert_eq!(
            message,
            "invalid direction 'sideways': must be callers, callees, or both"
        ),
        _ => panic!("a direction that is none of the three must be refused"),
    }
}

#[test]
fn an_error_of_the_database_comes_back() {
    let conn = Connection::open_in_memory().unwrap();
    assert!(matches!(
        get_call_graph(&conn, "A", "both", 2, None),
        Err(CallGraphError::Database(_))
    ));
    let mut s = Session::new(&conn);
    assert!(query_direction(&mut s, "A", 2, None, Direction::Callers).is_err());
    assert!(call_graph(&mut s, "A", "callers", 2, None).is_err());
}

#[test]
fn a_file_path_tells_functions_apart() {
    let conn = test_db();
    let one = add_file(&conn, "one.ts");
    let two = add_file(&conn, "two.ts");
    let a1 = add_node(&conn, "A", one);
    let a2 = add_node(&conn, "A", two);
    let b = add_node(&conn, "B", one);
    add_edge(&conn, a1, b, REL_CALLS);

    let both = ok(get_call_graph(&conn, "A", "callees", 2, None));
    assert_eq!(both.nodes.len(), 3);
    let second = ok(get_call_graph(&conn, "A", "callees", 2, Some("two.ts")));
    assert_eq!(second.nodes.len(), 1);
    assert_eq!(second.nodes[0].node_id, a2);
    assert_eq!(second.nodes[0].file_path, "two.ts");
}

#[test]
fn only_calls_are_followed() {
    let conn = test_db();
    let fid = add_file(&conn, "test.ts");
    let a = add_node(&conn, "A", fid);
    let b = add_node(&conn, "B", fid);
    add_edge(&conn, a, b, "imports");
    let result = ok(get_call_graph(&conn, "A", "callees", 2, None));
    assert_eq!(result.nodes.len(), 1);
}

#[test]
fn a_full_result_says_so() {
    let conn = test_db();
    let fid = add_file(&conn, "test.ts");
    let root = add_node(&conn, "R", fid);
    for i in 0..250 {
        let n = add_node(&conn, &format!("c{}", i), fid);
        add_edge(&conn, root, n, REL_CALLS);
    }
    let result = ok(get_call_graph(&conn, "R", "callees", 1, None));
    assert!(result.limit_hit);
    assert_eq!(result.nodes.len(), CALL_GRAPH_ROW_LIMIT);
    let callers = ok(get_call_graph(&conn, "R", "callers", 1, None));
    assert!(!callers.limit_hit);
    let both = ok(get_call_graph(&conn, "R", "both", 1, None));
    assert!(both.limit_hit);
}

#[test]
fn rows_become_nodes_of_a_direction() {
    let row: CallGraphRow =
        (7, "f".to_string(), "function".to_string(), "a.rs".to_string(), 1, Some(3));
    let (nodes, limit_hit) = direction_result(vec![row], Direction::Callers);
    assert!(!limit_hit);
    assert_eq!(key(&nodes[0]), (7, 1, Direction::Callers, Some(3)));
    assert_eq!(nodes[0].name, "f");
    assert_eq!(nodes[0].node_type, "function");
    assert_eq!(nodes[0].file_path, "a.rs");
}

#[test]
fn merging_keeps_the_shallowest_of_each_key() {
    let callees = vec![
        node(1, 0, Direction::Callees, None),
        node(2, 3, Direction::Callees, Some(9)),
        node(2, 1, Direction::Callees, Some(1)),
        node(2, 1, Direction::Callees, Some(8)),
    ];
    let callers = vec![node(1, 0, Direction::Callers, None), node(2, 2, Direction::Callers, None)];
    let merged = merge_results(callees, callers);
    let keys: Vec<_> = merged.iter().map(key).collect();
    assert_eq!(
        keys,
        vec![
            (1, 0, Direction::Callees, None),
            (1, 0, Direction::Callers, None),
            (2, 1, Direction::Callees, Some(1)),
            (2, 2, Direction::Callers, None),
        ]
    );
}

#[test]
fn merging_again_gives_the_same() {
    let callees = vec![node(4, 2, Direction::Callees, None), node(5, 1, Direction::Callees, None)];
    let callers = vec![node(4, 1, Direction::Callers, None)];
    let once = merge_results(callees, callers);
    let keys: Vec<_> = once.iter().map(key).collect();
    let twice = merge_results(once, Vec::new());
    assert_eq!(twice.iter().map(key).collect::<Vec<_>>(), keys);
    assert!(merge_results(Vec::new(), Vec::new()).is_empty());
}

#[test]
fn a_result_tells_both_depths() {
    let at_cap = call_graph_result(10, Vec::new(), false);
    assert!(!at_cap.depth_capped);
    assert_eq!(at_cap.effective_max_depth, 10);
    let above = call_graph_result(11, Vec::new(), true);
    assert!(above.depth_capped && above.limit_hit);
    assert_eq!((above.effective_max_depth, above.requested_max_depth), (10, 11));
    let negative = call_graph_result(-1, Vec::new(), false);
    assert_eq!(negative.effective_max_depth, -1);
}

#[test]
fn the_query_follows_its_direction() {
    let callees = direction_sql(Direction::Callees);
    let callers = direction_sql(Direction::Callers);
    assert!(callees.contains("e.source_id = cg.node_id"));
    assert!(callers.contains("e.target_id = cg.node_id"));
    assert!(callees.ends_with("LIMIT 200"));
    assert!(callers.ends_with("LIMIT 200"));
    assert_eq!(Direction::Callees.as_str(), "callees");
    assert_eq!(Direction::Callers.as_str(), "callers");
}

#[test]
fn sorting_is_stable() {
    assert_eq!(stable_order(&vec![3, 1, 2, 1, 3]), vec![1, 3, 2, 0, 4]);
    assert_eq!(stable_order(&Vec::new()), Vec::<usize>::new());
}

#[test]
fn a_depth_above_the_cap_finds_what_the_cap_finds() {
    let conn = test_db();
    let fid = add_file(&conn, "test.ts");
    let ids: Vec<i64> = (0..14).map(|i| add_node(&conn, &format!("f{}", i), fid)).collect();
    for pair in ids.windows(2) {
        add_edge(&conn, pair[0], pair[1], REL_CALLS);
    }
    let capped = ok(get_call_graph(&conn, "f0", "callees", 13, None));
    let at_cap = ok(get_call_graph(&conn, "f0", "callees", 10, None));
    assert_eq!(capped.nodes.len(), 11);
    assert_eq!(
        capped.nodes.iter().map(key).collect::<Vec<_>>(),
        at_cap.nodes.iter().map(key).collect::<Vec<_>>()
    );
    assert!(capped.depth_capped && !at_cap.depth_capped);
}

#[test]
fn both_directions_hold_what_each_holds() {
    let conn = test_db();
    chain(&conn);
    let both = ok(get_call_graph(&conn, "B", "both", 2, None));
    let callees = ok(get_call_graph(&conn, "B", "callees", 2, None));
    let callers = ok(get_call_graph(&conn, "B", "callers", 2, None));
    assert_eq!(both.nodes.len(), callees.nodes.len() + callers.nodes.len());
    for part in [&callees, &callers] {
        for n in &part.nodes {
            assert_eq!(both.nodes.iter().filter(|m| key(m) == key(n)).count(), 1);
        }
    }
    assert!(both.nodes.windows(2).all(|pair| pair[0].depth <= pair[1].depth));
}
