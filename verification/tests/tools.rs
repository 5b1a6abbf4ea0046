//! The tools, step by step.
use code_graph::tools::ast_search::{
    parse_ast_search, passes_filters, rank_nodes, select_nodes, AstSearch, AstSearchAction,
    AstSearchEvent, AstSearchReply, AstSearchStage, NodeWithFile,
};
use code_graph::tools::project_map::{
    compact_map, full_map, DependencyRow, EntryPoint, HotFunctionRow, KeptMap, ModuleRow,
    ProjectMap, ProjectMapAction, ProjectMapEvent, ProjectMapSearch, ProjectMapStage, ProjectRows,
};
use code_graph::tools::refs::{
    count_relations, definitions_in, filter_of, is_type_kind, parse_find_references, uses_to_show,
    FileNode, FoundNode, FuzzyResolution, NamedNode, Reference, ReferencesAction, ReferencesEvent,
    ReferencesReply, ReferencesSearch, ReferencesStage, Suggestions, TYPE_DEFINITION_NOTE,
};
use serde_json::Value;

fn args(text: &str) -> Value {
    serde_json::from_str(text).unwrap()
}

fn text(s: &str) -> Option<String> {
    Some(s.to_string())
}

fn node(id: i64, returning: Option<&str>, params: Option<&str>) -> NodeWithFile {
    NodeWithFile {
        id,
        name: format!("n{}", id),
        qualified_name: None,
        node_type: "function".to_string(),
        start_line: id,
        end_line: id + 1,
        signature: None,
        return_type: returning.map(|s| s.to_string()),
        param_types: params.map(|s| s.to_string()),
        file_path: "a.rs".to_string(),
    }
}

fn begin(arguments: &str, types: Option<Vec<String>>, inner: Option<&str>) -> (
    AstSearch,
    AstSearchAction,
) {
    let request = parse_ast_search(&args(arguments));
    AstSearch::start(request, types, inner.map(|s| s.to_string()), true)
}

fn ids(reply: &AstSearchReply) -> Vec<i64> {
    reply.results.iter().map(|item| item.node_id).collect()
}

fn reply_of(action: AstSearchAction) -> AstSearchReply {
    match action {
        AstSearchAction::Reply(reply) => reply,
        _ => panic!("the search must reply"),
    }
}

#[test]
fn search_arguments_are_read() {
    let r = parse_ast_search(&args(
        r#"{"query": "  words ", "type": "fn", "returns": "Vec", "params": "i64", "limit": 7}"#,
    ));
    assert_eq!(r.query, text("words"));
    assert_eq!(r.type_filter, text("fn"));
    assert_eq!(r.returns_filter, text("Vec"));
    assert_eq!(r.params_filter, text("i64"));
    assert_eq!(r.limit, 7);

    let r = parse_ast_search(&args(r#"{"query": " \t ", "type": 3, "returns": null}"#));
    assert_eq!(r.query, None);
    assert_eq!(r.type_filter, None);
    assert_eq!(r.returns_filter, None);
    assert_eq!(r.limit, 20);

    let limit = |value: &str| parse_ast_search(&args(&format!("{{\"limit\": {value}}}"))).limit;
    assert_eq!(limit("0"), 1);
    assert_eq!(limit("1"), 1);
    assert_eq!(limit("100"), 100);
    assert_eq!(limit("101"), 100);
    assert_eq!(limit("18446744073709551615"), 100);
    assert_eq!(limit("-3"), 20);
    assert_eq!(limit("2.0"), 20);
    assert_eq!(limit("\"5\""), 20);
    assert_eq!(parse_ast_search(&args("[1]")).limit, 20);
}

#[test]
fn a_search_needs_a_query_or_a_filter() {
    let (search, action) = begin("{}", None, None);
    assert!(matches!(search.stage, AstSearchStage::Done));
    assert!(matches!(
        action,
        AstSearchAction::Fail(m)
            if m == "Either query or at least one filter (type, returns, params) is required."
    ));
}

#[test]
fn the_index_comes_before_the_arguments() {
    let request = parse_ast_search(&args("{}"));
    let (search, action) = AstSearch::start(request, None, None, false);
    assert!(matches!(action, AstSearchAction::EnsureIndexed));
    let (search, action) = search.step(AstSearchEvent::Indexed);
    assert!(matches!(search.stage, AstSearchStage::Done));
    assert!(matches!(action, AstSearchAction::Fail(_)));
}

#[test]
fn a_query_is_ranked_filtered_and_cut() {
    let (search, action) = begin(
        r#"{"query": "q", "type": "fn", "returns": "vec<", "limit": 2}"#,
        Some(vec!["function".to_string(), "method".to_string()]),
        None,
    );
    assert!(matches!(
        action,
        AstSearchAction::Rank { query, wanted } if query == "q" && wanted == 8
    ));
    let (search, action) = search.step(AstSearchEvent::Ranked(vec![5, 3, 4, 2, 1]));
    assert!(matches!(action, AstSearchAction::Load { ids } if ids == vec![5, 3, 4, 2, 1]));
    let mut other = node(3, Some("Vec<i64>"), None);
    other.node_type = "struct".to_string();
    let (search, action) = search.step(AstSearchEvent::Nodes(vec![
        node(1, Some("Vec<u8>"), None),
        node(2, Some("VEC<u8>"), None),
        other,
        node(4, None, None),
        node(5, Some("Option<Vec<u8>>"), None),
    ]));
    assert!(matches!(search.stage, AstSearchStage::Done));
    let reply = reply_of(action);
    assert_eq!(ids(&reply), vec![5, 2]);
    assert_eq!(reply.count, Some(2));
    assert_eq!(reply.message, None);
    assert_eq!(reply.hint, None);
    assert!(reply.suggested_query.is_none());
}

#[test]
fn a_query_that_finds_nothing_says_so() {
    let (search, _) = begin(r#"{"query": "q"}"#, None, None);
    let (_, action) = search.step(AstSearchEvent::Ranked(Vec::new()));
    let reply = reply_of(action);
    assert!(reply.results.is_empty());
    assert_eq!(reply.message, text("No results found."));
    assert_eq!(reply.count, None);
}

#[test]
fn filters_alone_are_listed() {
    let (search, action) = begin(r#"{"params": "Node", "limit": 5}"#, None, None);
    assert!(matches!(
        action,
        AstSearchAction::List { types: None, returning: None, params, limit: 5 }
            if params == text("Node")
    ));
    let mut named = node(9, None, Some("Node"));
    named.qualified_name = text("module::n9");
    let (_, action) = search.step(AstSearchEvent::Nodes(vec![named, node(8, None, None)]));
    let reply = reply_of(action);
    assert_eq!(ids(&reply), vec![9, 8]);
    assert_eq!(reply.results[0].name, "module::n9");
    assert_eq!(reply.results[1].name, "n8");
    assert_eq!(reply.results[0].param_types, text("Node"));
}

#[test]
fn an_inner_type_is_suggested() {
    let arguments = r#"{"returns": "Vec<Relation>", "type": "fn", "query": "q"}"#;
    let types = Some(vec!["function".to_string()]);
    let (search, _) = begin(arguments, types.clone(), Some("Relation"));
    let (search, _) = search.step(AstSearchEvent::Ranked(vec![1]));
    let (search, action) = search.step(AstSearchEvent::Nodes(vec![node(1, None, None)]));
    assert!(matches!(
        action,
        AstSearchAction::List { types: t, returning, params: None, limit: 100 }
            if t == types && returning == text("Relation")
    ));
    let found = vec![node(1, None, None), node(2, None, None)];
    let (_, action) = search.step(AstSearchEvent::Nodes(found));
    let reply = reply_of(action);
    assert!(reply.results.is_empty());
    assert_eq!(reply.count, Some(0));
    assert_eq!(
        reply.hint,
        text(
            "No match for returns='Vec<Relation>'. Substring 'Relation' has 2 matches — try that."
        )
    );
    let suggested = reply.suggested_query.unwrap();
    assert_eq!(suggested.returns_filter, "Relation");
    assert_eq!(suggested.type_filter, text("fn"));
    assert_eq!(suggested.params_filter, None);
    assert_eq!(suggested.query, text("q"));
}

#[test]
fn one_match_is_no_plural_and_none_is_no_hint() {
    for count in [0usize, 1] {
        let (search, _) = begin(r#"{"returns": "Vec<T>"}"#, None, Some("T"));
        let (search, _) = search.step(AstSearchEvent::Nodes(Vec::new()));
        let found: Vec<NodeWithFile> = (0..count).map(|_| node(1, None, None)).collect();
        let (_, action) = search.step(AstSearchEvent::Nodes(found));
        let reply = reply_of(action);
        assert_eq!(reply.count, Some(0));
        if count == 0 {
            assert_eq!(reply.hint, None);
            assert!(reply.suggested_query.is_none());
        } else {
            assert_eq!(
                reply.hint,
                text("No match for returns='Vec<T>'. Substring 'T' has 1 match — try that.")
            );
        }
    }
}

#[test]
fn a_query_that_finds_nothing_leads_to_the_hint() {
    let arguments = r#"{"query": "zzz", "returns": "Vec<Relation>"}"#;
    let (search, action) = begin(arguments, None, Some("Relation"));
    assert!(matches!(
        action,
        AstSearchAction::Rank { query, wanted } if query == "zzz" && wanted == 80
    ));
    let (search, action) = search.step(AstSearchEvent::Ranked(Vec::new()));
    assert!(matches!(
        action,
        AstSearchAction::List { types: None, returning, params: None, limit: 100 }
            if returning == text("Relation")
    ));
    let (_, action) = search.step(AstSearchEvent::Nodes(vec![node(1, Some("Relation"), None)]));
    let reply = reply_of(action);
    assert!(reply.results.is_empty());
    assert_eq!(
        reply.hint,
        text("No match for returns='Vec<Relation>'. Substring 'Relation' has 1 match — try that.")
    );
    assert_eq!(reply.suggested_query.unwrap().query, text("zzz"));

    let (search, _) = begin(arguments, None, Some("Relation"));
    let (search, _) = search.step(AstSearchEvent::Ranked(Vec::new()));
    let (_, action) = search.step(AstSearchEvent::Nodes(Vec::new()));
    let reply = reply_of(action);
    assert_eq!(reply.message, text("No results found."));
    assert_eq!(reply.hint, None);
    assert_eq!(reply.count, None);
}

#[test]
fn no_inner_type_is_tried_without_one() {
    let (search, _) = begin(r#"{"returns": "T"}"#, None, None);
    let (search, action) = search.step(AstSearchEvent::Nodes(Vec::new()));
    assert!(matches!(search.stage, AstSearchStage::Done));
    assert_eq!(reply_of(action).count, Some(0));
}

#[test]
fn an_event_out_of_turn_is_ignored() {
    let (search, _) = begin(r#"{"query": "q"}"#, None, None);
    let (search, action) = search.step(AstSearchEvent::Indexed);
    assert!(matches!(action, AstSearchAction::Ignore));
    assert!(matches!(search.stage, AstSearchStage::Ranking));
}

#[test]
fn ranking_is_stable_and_puts_unknown_nodes_last() {
    let nodes = vec![
        node(7, None, None),
        node(1, Some("a"), None),
        node(2, None, None),
        node(1, Some("b"), None),
    ];
    let ranked = rank_nodes(nodes, &vec![2, 1, 2]);
    let got: Vec<i64> = ranked.iter().map(|n| n.id).collect();
    assert_eq!(got, vec![1, 1, 2, 7]);
    assert_eq!(ranked[0].return_type, text("a"));
}

#[test]
fn filters_do_not_heed_case() {
    let n = node(1, Some("Result<ÄPFEL>"), Some("&str"));
    assert!(passes_filters(&n, &None, &text("äpfel"), &None));
    assert!(passes_filters(&n, &None, &None, &text("&STR")));
    assert!(!passes_filters(&n, &None, &text("x"), &None));
    assert!(!passes_filters(&node(1, None, None), &None, &text(""), &None));
    assert!(!passes_filters(&n, &Some(Vec::new()), &None, &None));
    let chosen = select_nodes(
        vec![node(1, Some("a"), None), node(2, Some("b"), None), node(3, Some("A"), None)],
        &None,
        &text("a"),
        &None,
        5,
    );
    assert_eq!(chosen.iter().map(|n| n.id).collect::<Vec<_>>(), vec![1, 3]);
}

fn reference(name: &str, relation: &str, node_id: i64, is_test: bool) -> Reference {
    Reference {
        name: name.to_string(),
        node_type: "function".to_string(),
        file_path: "a.rs".to_string(),
        start_line: 3,
        relation: relation.to_string(),
        node_id,
        is_test,
    }
}

fn find_references(arguments: &str) -> (ReferencesSearch, ReferencesAction) {
    ReferencesSearch::start(parse_find_references(&args(arguments)), true)
}

fn fail_of(action: ReferencesAction) -> String {
    match action {
        ReferencesAction::Fail(message) => message,
        _ => panic!("the search must fail"),
    }
}

#[test]
fn reference_arguments_are_read() {
    let r = parse_find_references(&args("{}"));
    assert_eq!(r.node_id, None);
    assert_eq!(r.relation, "all");
    assert!(!r.compact && r.include_tests);
    let r = parse_find_references(&args(
        r#"{"node_id": -4, "symbol_name": "f", "file_path": "a.rs", "relation": "calls",
            "compact": true, "include_tests": false}"#,
    ));
    assert_eq!(r.node_id, Some(-4));
    assert_eq!(r.symbol_name, text("f"));
    assert_eq!(r.file_path, text("a.rs"));
    assert_eq!(r.relation, "calls");
    assert!(r.compact && !r.include_tests);
    let r = parse_find_references(&args(
        r#"{"node_id": 9223372036854775808, "compact": "yes", "include_tests": 0}"#,
    ));
    assert_eq!(r.node_id, None);
    assert!(!r.compact && r.include_tests);
}

#[test]
fn a_symbol_or_a_node_is_required() {
    let (search, action) = find_references(r#"{"file_path": "a.rs"}"#);
    assert!(matches!(search.stage, ReferencesStage::Done));
    assert_eq!(fail_of(action), "symbol_name or node_id is required");
    let request = parse_find_references(&args("{}"));
    let (_, action) = ReferencesSearch::start(request, false);
    assert_eq!(fail_of(action), "symbol_name or node_id is required");
}

#[test]
fn the_index_and_the_file_are_made_fresh() {
    let request = parse_find_references(&args(r#"{"symbol_name": "f", "file_path": "a.rs"}"#));
    let (search, action) = ReferencesSearch::start(request, false);
    assert!(matches!(
        action,
        ReferencesAction::EnsureFresh { file } if file == text("a.rs")
    ));
    let (_, action) = search.step(ReferencesEvent::Fresh);
    assert!(matches!(
        action,
        ReferencesAction::GetFileNodes { file_path } if file_path == "a.rs"
    ));
}

#[test]
fn a_node_id_goes_before_a_name() {
    let (search, action) =
        find_references(r#"{"node_id": 7, "symbol_name": "f", "file_path": "a.rs"}"#);
    assert!(matches!(action, ReferencesAction::GetNode { id: 7 }));
    let (search, action) = search.step(ReferencesEvent::Node(Some(FoundNode {
        name: "real".to_string(),
        node_type: "function".to_string(),
    })));
    assert!(matches!(action, ReferencesAction::GetUses { target: 7, relation: None }));
    assert!(matches!(
        search.stage,
        ReferencesStage::Collecting { symbol, .. } if symbol == "real"
    ));
    let (search, _) = find_references(r#"{"node_id": -7}"#);
    let (_, action) = search.step(ReferencesEvent::Node(None));
    assert_eq!(fail_of(action), "node_id -7 not found in index");
}

fn file_node(id: i64, name: &str) -> FileNode {
    FileNode { id, name: name.to_string(), node_type: "function".to_string(), start_line: id * 10 }
}

#[test]
fn a_symbol_is_looked_up_in_its_file() {
    let arguments = r#"{"symbol_name": "new", "file_path": "a.rs", "relation": "imports"}"#;
    let (search, _) = find_references(arguments);
    let nodes = vec![file_node(1, "old"), file_node(2, "new")];
    let (_, action) = search.step(ReferencesEvent::FileNodes(nodes));
    assert!(matches!(
        action,
        ReferencesAction::GetUses { target: 2, relation } if relation == text("imports")
    ));

    let (search, _) = find_references(arguments);
    let (_, action) = search.step(ReferencesEvent::FileNodes(vec![file_node(1, "old")]));
    assert_eq!(fail_of(action), "Symbol 'new' not found in file 'a.rs'.");

    let (search, _) = find_references(arguments);
    let nodes = vec![file_node(2, "new"), file_node(3, "old"), file_node(4, "new")];
    let (_, action) = search.step(ReferencesEvent::FileNodes(nodes));
    match action {
        ReferencesAction::Reply(ReferencesReply::Ambiguous { symbol, error, suggestions }) => {
            assert_eq!(symbol, "new");
            assert_eq!(
                error,
                "Ambiguous symbol 'new' in 'a.rs': 2 definitions in the same file. \
                 Pass node_id to select one."
            );
            match suggestions {
                Suggestions::Definitions(list) => {
                    let got: Vec<_> = list.iter().map(|d| (d.node_id, d.start_line)).collect();
                    assert_eq!(got, vec![(2, 20), (4, 40)]);
                    assert_eq!(list[0].file_path, "a.rs");
                    assert_eq!(list[0].name, "new");
                },
                _ => panic!("the definitions must be suggested"),
            }
        },
        _ => panic!("two definitions are ambiguous"),
    }
}

#[test]
fn a_name_is_resolved() {
    let (search, action) = find_references(r#"{"symbol_name": "f"}"#);
    assert!(matches!(action, ReferencesAction::Resolve { name } if name == "f"));
    let (_, action) = search.step(ReferencesEvent::Resolved(FuzzyResolution::NotFound));
    assert_eq!(
        fail_of(action),
        "Symbol 'f' not found in index. Use semantic_code_search to find the correct symbol name."
    );

    let (search, _) = find_references(r#"{"symbol_name": "f"}"#);
    let candidates = vec![args(r#"{"name": "f1"}"#), args(r#"{"name": "f2"}"#)];
    let (_, action) =
        search.step(ReferencesEvent::Resolved(FuzzyResolution::Ambiguous(candidates.clone())));
    match action {
        ReferencesAction::Reply(ReferencesReply::Ambiguous { error, suggestions, .. }) => {
            assert_eq!(
                error,
                "Ambiguous symbol 'f': 2 matches. Specify file_path or node_id to disambiguate."
            );
            assert!(matches!(suggestions, Suggestions::Candidates(list) if list == candidates));
        },
        _ => panic!("two candidates are ambiguous"),
    }

    let (search, _) = find_references(r#"{"symbol_name": "f"}"#);
    let (search, action) =
        search.step(ReferencesEvent::Resolved(FuzzyResolution::Unique("full".to_string())));
    assert!(matches!(action, ReferencesAction::GetNamedNodes { name } if name == "full"));
    let tests_alone = vec![NamedNode { id: 1, is_test: true }];
    let (_, action) = search.step(ReferencesEvent::NamedNodes(tests_alone));
    assert_eq!(fail_of(action), "Symbol 'f' not found in index.");
}

#[test]
fn the_uses_of_all_targets_are_told() {
    let (search, _) = find_references(r#"{"symbol_name": "f", "include_tests": false}"#);
    let (search, _) =
        search.step(ReferencesEvent::Resolved(FuzzyResolution::Unique("full".to_string())));
    let nodes = vec![
        NamedNode { id: 1, is_test: false },
        NamedNode { id: 2, is_test: true },
        NamedNode { id: 3, is_test: false },
    ];
    let (search, action) = search.step(ReferencesEvent::NamedNodes(nodes));
    assert!(matches!(action, ReferencesAction::GetUses { target: 1, relation: None }));
    let (search, action) = search.step(ReferencesEvent::Uses(vec![
        reference("a", "calls", 10, false),
        reference("a", "imports", 10, false),
        reference("t", "calls", 11, true),
    ]));
    assert!(matches!(action, ReferencesAction::GetUses { target: 3, relation: None }));
    let (search, action) = search.step(ReferencesEvent::Uses(vec![
        reference("a", "calls", 12, false),
        reference("b", "calls", 13, false),
    ]));
    assert!(matches!(action, ReferencesAction::GetNodeType { id: 1 }));
    let (search, action) = search.step(ReferencesEvent::NodeType(text("struct")));
    assert!(matches!(action, ReferencesAction::GetNodeType { id: 3 }));
    let (search, action) = search.step(ReferencesEvent::NodeType(None));
    assert!(matches!(search.stage, ReferencesStage::Done));
    match action {
        ReferencesAction::Reply(ReferencesReply::Found {
            symbol,
            total_references,
            by_relation,
            references,
            test_references_filtered,
            type_definition_note,
        }) => {
            assert_eq!(symbol, "full");
            assert_eq!(total_references, 3);
            let counts: Vec<_> =
                by_relation.iter().map(|c| (c.relation.as_str(), c.count)).collect();
            assert_eq!(counts, vec![("calls", 2), ("imports", 1)]);
            let shown: Vec<_> = references.iter().map(|r| r.node_id).collect();
            assert_eq!(shown, vec![10, 10, 13]);
            assert_eq!(references[0].node_type, text("function"));
            assert_eq!(test_references_filtered, Some(1));
            assert_eq!(type_definition_note, text(TYPE_DEFINITION_NOTE));
        },
        _ => panic!("the uses must be told"),
    }
}

#[test]
fn a_compact_reply_leaves_out_types_and_empty_notes() {
    let (search, _) = find_references(r#"{"node_id": 1, "compact": true}"#);
    let found = FoundNode { name: "f".to_string(), node_type: "function".to_string() };
    let (search, _) = search.step(ReferencesEvent::Node(Some(found)));
    let (search, _) =
        search.step(ReferencesEvent::Uses(vec![reference("t", "calls", 2, true)]));
    let (_, action) = search.step(ReferencesEvent::NodeType(text("function")));
    match action {
        ReferencesAction::Reply(ReferencesReply::Found {
            references,
            test_references_filtered,
            type_definition_note,
            ..
        }) => {
            assert_eq!(references.len(), 1);
            assert_eq!(references[0].node_type, None);
            assert_eq!(test_references_filtered, None);
            assert_eq!(type_definition_note, None);
        },
        _ => panic!("the uses must be told"),
    }
}

#[test]
fn counts_add_up_and_uses_are_distinct() {
    let uses = vec![
        reference("a", "calls", 1, false),
        reference("b", "calls", 2, true),
        reference("a", "calls", 3, false),
        reference("a", "imports", 4, false),
    ];
    let (shown, hidden) = uses_to_show(uses, true);
    assert_eq!(shown.iter().map(|u| u.node_id).collect::<Vec<_>>(), vec![1, 2, 4]);
    assert_eq!(hidden, 0);
    let counts = count_relations(&shown);
    assert_eq!(counts.iter().map(|c| c.count).sum::<usize>(), shown.len());
}

#[test]
fn relations_and_types_are_known_by_name() {
    for relation in ["calls", "imports", "inherits", "implements"] {
        assert_eq!(filter_of(relation), text(relation));
    }
    assert_eq!(filter_of("all"), None);
    assert_eq!(filter_of("Calls"), None);
    for kind in ["struct", "enum", "trait", "type", "interface", "class"] {
        assert!(is_type_kind(kind));
    }
    assert!(!is_type_kind("function") && !is_type_kind("Struct"));
    let none = definitions_in(vec![file_node(1, "f")], "g", &"a.rs".to_string());
    assert!(none.is_empty());
}

#[test]
fn a_reference_event_out_of_turn_is_ignored() {
    let (search, _) = find_references(r#"{"node_id": 1}"#);
    let (search, action) = search.step(ReferencesEvent::Uses(Vec::new()));
    assert!(matches!(action, ReferencesAction::Ignore));
    assert!(matches!(search.stage, ReferencesStage::ById(1)));
}

fn rows(hot: usize) -> ProjectRows {
    ProjectRows {
        modules: vec![
            ModuleRow {
                path: "src".to_string(),
                files: 3,
                functions: 9,
                classes: 2,
                interfaces_traits: 1,
                languages: vec!["rust".to_string()],
                key_symbols: vec!["main".to_string(), "run".to_string()],
            },
            ModuleRow {
                path: "docs".to_string(),
                files: 1,
                functions: 0,
                classes: 0,
                interfaces_traits: 0,
                languages: Vec::new(),
                key_symbols: Vec::new(),
            },
        ],
        dependencies: vec![DependencyRow {
            from: "src".to_string(),
            to: "docs".to_string(),
            import_count: 4,
        }],
        entry_points: vec![EntryPoint {
            route: "/users".to_string(),
            handler: "users".to_string(),
            file: "src/users.rs".to_string(),
            kind: "http".to_string(),
        }],
        hot_functions: (0..hot)
            .map(|i| HotFunctionRow {
                name: format!("f{}", i),
                node_type: "function".to_string(),
                file: "src/f.rs".to_string(),
                caller_count: 50 - i as i64,
                test_caller_count: i as i64,
            })
            .collect(),
    }
}

fn map_of(action: ProjectMapAction) -> (ProjectMap, bool, bool) {
    match action {
        ProjectMapAction::Reply { map, compact, keep } => (map, compact.is_some(), keep),
        _ => panic!("the request must be answered"),
    }
}

#[test]
fn a_map_shows_what_there_is() {
    let map = full_map(rows(2));
    assert_eq!(map.modules[0].interfaces_traits, Some(1));
    assert_eq!(map.modules[0].languages, Some(vec!["rust".to_string()]));
    assert_eq!(map.modules[0].classes, 2);
    assert_eq!(map.modules[1].interfaces_traits, None);
    assert_eq!(map.modules[1].languages, None);
    assert_eq!(map.modules[1].key_symbols, None);
    assert_eq!(map.module_dependencies[0].imports, 4);
    assert_eq!(map.entry_points[0].route, "/users");
    assert_eq!(map.hot_functions[0].test_caller_count, None);
    assert_eq!(map.hot_functions[1].test_caller_count, Some(1));
}

#[test]
fn a_compact_map_keeps_the_modules() {
    let mut map = full_map(rows(12));
    map.modules[1].key_symbols = Some(Vec::new());
    map.hot_functions[3].test_caller_count = Some(0);
    let small = compact_map(&map);
    assert_eq!(small.modules.len(), 2);
    assert_eq!(
        small.modules[0].key_symbols,
        Some(vec!["main".to_string(), "run".to_string()])
    );
    assert_eq!((small.modules[0].files, small.modules[0].functions), (3, 9));
    assert_eq!(small.modules[1].key_symbols, None);
    assert_eq!(small.module_dependencies[0].to, "docs");
    assert_eq!(small.entry_points[0].handler, "users");
    assert_eq!(small.entry_points[0].kind, "http");
    assert_eq!(small.hot_functions.len(), 10);
    assert_eq!(small.hot_functions[9].name, "f9");
    assert_eq!(small.hot_functions[9].node_type, "function");
    assert_eq!(small.hot_functions[2].test_caller_count, Some(2));
    assert_eq!(small.hot_functions[3].test_caller_count, None);
}

#[test]
fn a_map_is_kept_for_a_minute() {
    let recall = |age: u64| {
        let (search, action) = ProjectMapSearch::start(&args("{}"), true);
        assert!(matches!(action, ProjectMapAction::Recall));
        let kept = KeptMap { age_seconds: age, map: full_map(rows(1)) };
        search.step(ProjectMapEvent::Recalled(Some(kept)))
    };
    let (search, action) = recall(59);
    assert!(matches!(search.stage, ProjectMapStage::Done));
    let (map, compact, keep) = map_of(action);
    assert_eq!(map.modules.len(), 2);
    assert!(!compact && !keep);

    let (search, action) = recall(60);
    assert!(matches!(action, ProjectMapAction::Query));
    let (_, action) = search.step(ProjectMapEvent::Rows(rows(3)));
    let (map, compact, keep) = map_of(action);
    assert_eq!(map.hot_functions.len(), 3);
    assert!(!compact && keep);
}

#[test]
fn a_compact_reply_is_made_of_the_kept_map() {
    let (search, action) = ProjectMapSearch::start(&args(r#"{"compact": true}"#), false);
    assert!(matches!(action, ProjectMapAction::EnsureIndexed));
    let (search, action) = search.step(ProjectMapEvent::Indexed);
    assert!(matches!(action, ProjectMapAction::Recall));
    let (search, action) = search.step(ProjectMapEvent::Recalled(None));
    assert!(matches!(action, ProjectMapAction::Query));
    let (search, action) = search.step(ProjectMapEvent::Rows(rows(11)));
    match action {
        ProjectMapAction::Reply { map, compact: Some(small), keep: true } => {
            assert_eq!(map.hot_functions.len(), 11);
            assert_eq!(small.hot_functions.len(), 10);
        },
        _ => panic!("a compact map must be answered and the full one kept"),
    }
    let (_, action) = search.step(ProjectMapEvent::Indexed);
    assert!(matches!(action, ProjectMapAction::Ignore));
}
