//! Routing: which questions are asked, and how the picks score.
use code_graph::routing::{
    active_oracle, build_backends, build_oracle, build_system_prompt, build_tools,
    compute_fp_rate, compute_overall, compute_recall, decoy_tools, detect_domain_for,
    detect_mode_for, majority_vote, matches_expected, parse_models_env, Backend, BenchDomain,
    BenchMode, Fraction, Picks, ToolSpec, INDEX_LINE, SYSTEM_PROMPT,
};

/// Questions about a backend, each with the tool that should answer it.
const ORACLE: &[(&str, &str)] = &[
    ("Show me the project architecture", "project_map"),
    ("Give me a high-level overview of this codebase", "project_map"),
    ("Which modules depend on which at the top level?", "project_map"),
    ("What's in the src/indexer/ directory?", "module_overview"),
    ("Show me what's exported from src/storage/", "module_overview"),
    ("Give me an overview of the parser module", "module_overview"),
    ("Find the code that does reciprocal rank fusion", "semantic_code_search"),
    ("Where is the embedding model loaded from disk?", "semantic_code_search"),
    ("Show me code related to change detection via Merkle hashing", "semantic_code_search"),
    ("Who calls the function ensure_indexed?", "get_call_graph|find_references"),
    ("What does run_full_index call during execution?", "get_call_graph"),
    ("Trace the call chain around extract_relations", "get_call_graph"),
    ("Find all references to the constant REL_CALLS", "find_references"),
    ("Is it safe to remove compute_diff? Show all usage sites.", "find_references"),
    ("Find all functions that return Vec<Relation>", "ast_search"),
    ("List all structs in the storage module", "ast_search"),
    ("Which functions take a tree_sitter::Node as a parameter?", "ast_search"),
    ("Show me the EmbeddingModel struct definition", "get_ast_node"),
    ("What's the signature of weighted_rrf_fusion?", "get_ast_node"),
    ("Display the implementation of format_call_graph_response", "get_ast_node"),
    ("How does the embedding pipeline work in src/embedding/?", "module_overview"),
    ("I need to rename parse_tree to parse_ast — find every place I'd update.", "find_references"),
];

/// Questions about a frontend, each with the tool that should answer it.
const FRONTEND_ORACLE: &[(&str, &str)] = &[
    ("Show me the architecture of this React app", "project_map"),
    ("Give me a high-level map of this Vue project", "project_map"),
    ("Which top-level features depend on which?", "project_map"),
    ("What's in the src/components/ directory?", "module_overview"),
    ("Show me what's exported from src/hooks/", "module_overview"),
    ("Give me an overview of the auth feature module", "module_overview"),
    ("Find the code that handles user login state", "semantic_code_search"),
    ("Where is the Redux store wired up?", "semantic_code_search"),
    ("Show me code that debounces search input", "semantic_code_search"),
    ("Who calls the function fetchUserProfile?", "get_call_graph|find_references"),
    ("What does handleSubmit invoke during execution?", "get_call_graph"),
    ("Trace the call chain around dispatch in the reducer", "get_call_graph"),
    ("Find every place that imports the Button component", "find_references"),
    ("Is it safe to delete useDebounce? Show all usage sites.", "find_references"),
    ("Find all functions that return Promise<User>", "ast_search"),
    ("List all React components in src/components/", "ast_search"),
    ("Which functions take a useEffect dependency array as a parameter?", "ast_search"),
    ("Show me the LoginForm component definition", "get_ast_node"),
    ("What's the signature of the useAuth hook?", "get_ast_node"),
    ("Display the implementation of getAuthHeaders", "get_ast_node"),
];

/// Questions that a text search or a file reader should answer.
const FP_ORACLE: &[(&str, &str)] = &[
    ("Find every TODO comment in source files.", "Grep"),
    ("Search for the literal string `FIXME` across the codebase.", "Grep"),
    ("Show me lines 50 through 80 of src/main.rs.", "Read"),
    ("What does the .gitignore file contain?", "Read"),
    ("Print the first 100 lines of CHANGELOG.md.", "Read"),
    ("Search for all occurrences of the regex `error\\d+` in log files.", "Grep"),
    ("Read the contents of Cargo.toml.", "Read"),
    ("Find every line that mentions `deprecated` in comments.", "Grep"),
    ("Show me the contents of build.rs.", "Read"),
    ("Grep for the regex pattern `^test_` in test files.", "Grep"),
];

fn active(domain: BenchDomain) -> Vec<(&'static str, &'static str)> {
    active_oracle(domain, ORACLE, FRONTEND_ORACLE)
}

fn oracle(mode: BenchMode, domain: BenchDomain) -> Vec<(&'static str, &'static str)> {
    build_oracle(mode, domain, ORACLE, FRONTEND_ORACLE, FP_ORACLE)
}

fn value(fraction: Fraction) -> f64 {
    if fraction.whole == 0 {
        0.0
    } else {
        fraction.part as f64 / fraction.whole as f64
    }
}

fn picks(pairs: &[(&str, &str)]) -> Picks {
    let mut picks = Picks::new();
    for (question, tool) in pairs {
        picks.insert(question.to_string(), tool.to_string());
    }
    picks
}

fn first_expected(oracle: &[(&str, &str)]) -> Picks {
    let mut picks = Picks::new();
    for (question, tools) in oracle {
        picks.insert(question.to_string(), tools.split('|').next().unwrap().to_string());
    }
    picks
}

fn all_picked(oracle: &[(&str, &str)], tool: &str) -> Picks {
    let mut picks = Picks::new();
    for (question, _) in oracle {
        picks.insert(question.to_string(), tool.to_string());
    }
    picks
}

fn label_of(b: &Backend) -> String {
    b.label()
}

fn tool(name: &str, description: &str) -> ToolSpec {
    ToolSpec {
        name: name.to_string(),
        description: description.to_string(),
        parameters: Vec::new(),
        required: Vec::new(),
    }
}

/// Everything that a tool holds.
fn whole(tool: &ToolSpec) -> (
    String,
    String,
    Vec<(String, String, Option<String>)>,
    Vec<String>,
) {
    (
        tool.name.clone(),
        tool.description.clone(),
        tool.parameters
            .iter()
            .map(|p| (p.name.clone(), p.value_type.clone(), p.description.clone()))
            .collect(),
        tool.required.clone(),
    )
}

fn fake_registry_tools() -> Vec<ToolSpec> {
    vec![tool("tool_a", "A"), tool("tool_b", "B")]
}

#[test]
fn frontend_oracle_distinct_from_backend() {
    let be: std::collections::HashSet<&str> = ORACLE.iter().map(|(q, _)| *q).collect();
    for &(query, _) in FRONTEND_ORACLE {
        assert!(
            !be.contains(query),
            "FRONTEND_ORACLE shares query with backend ORACLE: {:?}",
            query,
        );
    }
}

#[test]
fn detect_mode_defaults_to_tool_only_when_unset() {
    let m = detect_mode_for(None);
    assert!(matches!(m, BenchMode::ToolOnly));
}

#[test]
fn detect_mode_explicit_tool_only() {
    let m = detect_mode_for(Some("tool-only"));
    assert!(matches!(m, BenchMode::ToolOnly));
}

#[test]
fn detect_mode_context_rich() {
    let m = detect_mode_for(Some("context-rich"));
    assert!(matches!(m, BenchMode::ContextRich));
}

#[test]
fn detect_mode_unknown_value_falls_back_to_tool_only() {
    let m = detect_mode_for(Some("invalid"));
    assert!(matches!(m, BenchMode::ToolOnly));
}

#[test]
fn detect_domain_defaults_to_backend_when_unset() {
    assert!(matches!(detect_domain_for(None), BenchDomain::Backend));
}

#[test]
fn detect_domain_explicit_backend() {
    assert!(matches!(detect_domain_for(Some("backend")), BenchDomain::Backend));
}

#[test]
fn detect_domain_explicit_frontend() {
    assert!(matches!(detect_domain_for(Some("frontend")), BenchDomain::Frontend));
}

#[test]
fn detect_domain_explicit_all() {
    assert!(matches!(detect_domain_for(Some("all")), BenchDomain::All));
}

#[test]
fn detect_domain_unknown_value_falls_back_to_backend() {
    assert!(matches!(detect_domain_for(Some("nonsense")), BenchDomain::Backend));
}

#[test]
fn active_oracle_backend_returns_only_backend() {
    let o = active(BenchDomain::Backend);
    assert_eq!(o.len(), ORACLE.len());
}

#[test]
fn active_oracle_frontend_returns_only_frontend() {
    let o = active(BenchDomain::Frontend);
    assert_eq!(o.len(), FRONTEND_ORACLE.len());
}

#[test]
fn active_oracle_all_concatenates() {
    let o = active(BenchDomain::All);
    assert_eq!(o.len(), ORACLE.len() + FRONTEND_ORACLE.len());
}

#[test]
fn decoy_tools_has_grep_and_read() {
    let tools = decoy_tools();
    assert_eq!(tools.len(), 2);
    let names: Vec<&str> = tools.iter().map(|t| t.name.as_str()).collect();
    assert!(names.contains(&"Grep"));
    assert!(names.contains(&"Read"));
}

#[test]
fn decoy_tools_have_required_fields() {
    for tool in decoy_tools() {
        assert!(!tool.name.is_empty());
        assert!(!tool.description.is_empty());
        assert!(!tool.parameters.is_empty());
        assert!(!tool.required.is_empty());
        for name in &tool.required {
            assert!(tool.parameters.iter().any(|p| p.name == *name));
        }
    }
}

#[test]
fn decoy_descriptions_reference_prefer_over_code_graph() {
    for tool in decoy_tools() {
        let desc = tool.description.as_str();
        assert!(
            desc.contains("Prefer over code-graph"),
            "decoy description must signal 'prefer over code-graph' to be measurement-fair"
        );
    }
}

#[test]
fn fp_oracle_has_ten_entries() {
    assert_eq!(FP_ORACLE.len(), 10);
}

#[test]
fn fp_oracle_entries_target_grep_or_read() {
    for &(query, expected) in FP_ORACLE {
        assert!(
            expected == "Grep" || expected == "Read",
            "FP_ORACLE entry expects {} but must be Grep or Read: query={:?}",
            expected,
            query
        );
    }
}

#[test]
fn fp_oracle_queries_are_distinct() {
    let mut seen = std::collections::HashSet::new();
    for &(query, _) in FP_ORACLE {
        assert!(seen.insert(query), "duplicate FP_ORACLE query: {:?}", query);
    }
}

#[test]
fn build_tools_tool_only_returns_registry_unchanged() {
    let tools = build_tools(BenchMode::ToolOnly, fake_registry_tools());
    let got: Vec<_> = tools.iter().map(whole).collect();
    let expected: Vec<_> = fake_registry_tools().iter().map(whole).collect();
    assert_eq!(got, expected);
    let mut registry = decoy_tools();
    registry.push(tool("tool_c", "C"));
    let expected: Vec<_> = registry.iter().map(whole).collect();
    let tools = build_tools(BenchMode::ToolOnly, registry);
    assert_eq!(tools.iter().map(whole).collect::<Vec<_>>(), expected);
}

#[test]
fn build_tools_context_rich_appends_decoys() {
    let tools = build_tools(BenchMode::ContextRich, fake_registry_tools());
    assert_eq!(tools.len(), 4);
    assert!(tools.iter().any(|t| t.name == "Grep"));
    assert!(tools.iter().any(|t| t.name == "Read"));
    assert_eq!(tools[0].name, "tool_a");
    assert_eq!(tools[1].name, "tool_b");
}

#[test]
fn build_system_prompt_tool_only_unchanged() {
    let p = build_system_prompt(BenchMode::ToolOnly);
    assert_eq!(p, SYSTEM_PROMPT);
}

#[test]
fn build_system_prompt_context_rich_appends_memory_line() {
    let p = build_system_prompt(BenchMode::ContextRich);
    assert!(p.starts_with(SYSTEM_PROMPT));
    assert!(p.contains("MEMORY.md"));
    assert!(p.contains(INDEX_LINE));
}

#[test]
fn build_oracle_tool_only_returns_only_oracle() {
    let o = oracle(BenchMode::ToolOnly, BenchDomain::Backend);
    assert_eq!(o.len(), ORACLE.len());
}

#[test]
fn build_oracle_context_rich_concatenates() {
    let o = oracle(BenchMode::ContextRich, BenchDomain::Backend);
    assert_eq!(o.len(), ORACLE.len() + FP_ORACLE.len());
}

#[test]
fn build_oracle_frontend_returns_frontend_pool() {
    let o = oracle(BenchMode::ToolOnly, BenchDomain::Frontend);
    assert_eq!(o.len(), FRONTEND_ORACLE.len());
    assert!(!o.iter().any(|(q, _)| *q == ORACLE[0].0));
}

#[test]
fn build_oracle_all_concatenates_both_pools() {
    let o = oracle(BenchMode::ToolOnly, BenchDomain::All);
    assert_eq!(o.len(), ORACLE.len() + FRONTEND_ORACLE.len());
}

#[test]
fn build_oracle_all_context_rich_includes_fp() {
    let o = oracle(BenchMode::ContextRich, BenchDomain::All);
    assert_eq!(o.len(), ORACLE.len() + FRONTEND_ORACLE.len() + FP_ORACLE.len());
}

#[test]
fn compute_recall_full_hit() {
    let p = first_expected(ORACLE);
    assert_eq!(value(compute_recall(&p, ORACLE)), 1.0);
}

#[test]
fn compute_recall_full_hit_frontend() {
    let p = first_expected(FRONTEND_ORACLE);
    assert_eq!(value(compute_recall(&p, FRONTEND_ORACLE)), 1.0);
}

#[test]
fn compute_recall_alternates_first_alt_hits() {
    let oracle: &[(&'static str, &'static str)] = &[("q1", "get_call_graph|find_references")];
    let p1 = picks(&[("q1", "get_call_graph")]);
    assert_eq!(value(compute_recall(&p1, oracle)), 1.0, "first alt should match");
    let p2 = picks(&[("q1", "find_references")]);
    assert_eq!(value(compute_recall(&p2, oracle)), 1.0, "second alt should match");
    let p3 = picks(&[("q1", "module_overview")]);
    assert_eq!(value(compute_recall(&p3, oracle)), 0.0, "non-alt should miss");
}

#[test]
fn compute_recall_zero_picks() {
    let p = Picks::new();
    assert_eq!(value(compute_recall(&p, ORACLE)), 0.0);
}

#[test]
fn compute_recall_empty_oracle_returns_zero() {
    let p = Picks::new();
    assert_eq!(value(compute_recall(&p, &[])), 0.0);
}

#[test]
fn compute_fp_rate_zero_when_all_picks_grep_or_read() {
    let p = picks(&[
        ("Find every TODO comment in source files.", "Grep"),
        ("Show me lines 50 through 80 of src/main.rs.", "Read"),
        ("What does the .gitignore file contain?", "Read"),
        ("Print the first 100 lines of CHANGELOG.md.", "Read"),
        ("Search for the literal string `FIXME` across the codebase.", "Grep"),
        ("Search for all occurrences of the regex `error\\d+` in log files.", "Grep"),
        ("Read the contents of Cargo.toml.", "Read"),
        ("Find every line that mentions `deprecated` in comments.", "Grep"),
        ("Show me the contents of build.rs.", "Read"),
        ("Grep for the regex pattern `^test_` in test files.", "Grep"),
    ]);
    assert_eq!(value(compute_fp_rate(&p, FP_ORACLE)), 0.0);
}

#[test]
fn compute_fp_rate_full_violation() {
    let p = all_picked(FP_ORACLE, "get_call_graph");
    assert_eq!(value(compute_fp_rate(&p, FP_ORACLE)), 1.0);
}

#[test]
fn compute_fp_rate_wrong_decoy_does_not_count_as_violation() {
    let p = all_picked(FP_ORACLE, "Read");
    assert_eq!(value(compute_fp_rate(&p, FP_ORACLE)), 0.0);
}

#[test]
fn majority_vote_unanimous() {
    let v = majority_vote(&["a", "a", "a"]);
    assert_eq!(v, Some("a".to_string()));
}

#[test]
fn majority_vote_two_to_one() {
    let v = majority_vote(&["a", "b", "a"]);
    assert_eq!(v, Some("a".to_string()));
}

#[test]
fn majority_vote_three_distinct_uses_first() {
    let v = majority_vote(&["a", "b", "c"]);
    assert_eq!(v, Some("a".to_string()));
}

#[test]
fn majority_vote_empty_returns_none() {
    let v: Option<String> = majority_vote(&[] as &[&str]);
    assert_eq!(v, None);
}

#[test]
fn parse_models_env_basic() {
    let v = parse_models_env("a,b,c");
    assert_eq!(v, vec!["a".to_string(), "b".to_string(), "c".to_string()]);
}

#[test]
fn parse_models_env_trims_whitespace() {
    let v = parse_models_env(" model-sonnet-4-6 , model-opus-4-7 ,model-haiku-4-5 ");
    assert_eq!(v, vec!["model-sonnet-4-6", "model-opus-4-7", "model-haiku-4-5"]);
}

#[test]
fn parse_models_env_drops_empty_entries() {
    let v = parse_models_env(",,a,, ,b,");
    assert_eq!(v, vec!["a", "b"]);
}

#[test]
fn parse_models_env_empty_returns_empty() {
    assert_eq!(parse_models_env(""), Vec::<String>::new());
    assert_eq!(parse_models_env("   "), Vec::<String>::new());
    assert_eq!(parse_models_env(",,,"), Vec::<String>::new());
}

#[test]
fn build_backends_anthropic_preferred_over_openrouter() {
    let backends = build_backends(
        vec!["model-opus-4-7".into(), "model-haiku-4-5".into()],
        Some("ant-key"),
        Some("or-key"),
    );
    assert_eq!(backends.len(), 2);
    for b in &backends {
        assert!(matches!(b, Backend::Anthropic { .. }), "expected Anthropic, got {:?}", label_of(b));
    }
    assert_eq!(label_of(&backends[0]), "anthropic/model-opus-4-7");
    assert_eq!(label_of(&backends[1]), "anthropic/model-haiku-4-5");
}

#[test]
fn build_backends_openrouter_fallback_when_no_anthropic() {
    let backends =
        build_backends(vec!["anthropic/model-sonnet-4.5".into()], None, Some("or-key"));
    assert_eq!(backends.len(), 1);
    assert!(matches!(backends[0], Backend::OpenRouter { .. }));
    assert_eq!(label_of(&backends[0]), "openrouter/anthropic/model-sonnet-4.5");
}

#[test]
fn build_backends_no_keys_returns_empty() {
    let backends = build_backends(vec!["model-sonnet-4-6".into()], None, None);
    assert!(backends.is_empty(), "no keys → empty backends, got {} entries", backends.len());
}

#[test]
fn build_backends_empty_keys_treated_as_missing() {
    let backends = build_backends(vec!["model-sonnet-4-6".into()], Some(""), Some(""));
    assert!(backends.is_empty());
}

#[test]
fn build_backends_empty_models_returns_empty() {
    let backends = build_backends(vec![], Some("k"), Some("k2"));
    assert!(backends.is_empty());
}

#[test]
fn build_backends_preserves_model_order() {
    let backends = build_backends(vec!["m1".into(), "m2".into(), "m3".into()], Some("k"), None);
    assert_eq!(backends.len(), 3);
    assert_eq!(label_of(&backends[0]), "anthropic/m1");
    assert_eq!(label_of(&backends[1]), "anthropic/m2");
    assert_eq!(label_of(&backends[2]), "anthropic/m3");
}

#[test]
fn active_oracle_keeps_the_order_of_the_pools() {
    let all = active(BenchDomain::All);
    assert_eq!(all[0], ORACLE[0]);
    assert_eq!(all[ORACLE.len()], FRONTEND_ORACLE[0]);
    let rich = oracle(BenchMode::ContextRich, BenchDomain::Frontend);
    assert_eq!(rich[FRONTEND_ORACLE.len()], FP_ORACLE[0]);
}

#[test]
fn context_rich_prompt_is_exact() {
    let p = build_system_prompt(BenchMode::ContextRich);
    let expected = format!(
        "{}\n\nUser has the following entry in their project MEMORY.md (auto-loaded):\n{}",
        SYSTEM_PROMPT, INDEX_LINE
    );
    assert_eq!(p, expected);
}

#[test]
fn a_single_expected_tool_matches_itself_alone() {
    assert!(matches_expected("ast_search", "ast_search"));
    assert!(!matches_expected("ast", "ast_search"));
    assert!(!matches_expected("ast_search|", "ast_search|x"));
    assert!(matches_expected("", "ast_search|"));
}

#[test]
fn a_later_pick_replaces_an_earlier_one() {
    let p = picks(&[("q", "Grep"), ("q", "Read")]);
    assert_eq!(p.get("q").map(|s| s.as_str()), Some("Read"));
    assert_eq!(p.get("other"), None);
}

#[test]
fn recall_of_two_pools_adds_up() {
    let p = first_expected(ORACLE);
    let both = active(BenchDomain::All);
    let together = compute_recall(&p, &both);
    let one = compute_recall(&p, ORACLE);
    let other = compute_recall(&p, FRONTEND_ORACLE);
    assert_eq!(together.part, one.part + other.part);
    assert_eq!(together.whole, one.whole + other.whole);
    assert_eq!((one.part, one.whole), (22, 22));
    assert_eq!((other.part, other.whole), (0, 20));
}

#[test]
fn overall_counts_hits_and_kept_boundaries() {
    let mut p = first_expected(ORACLE);
    for (question, _) in &FP_ORACLE[..4] {
        p.insert(question.to_string(), "Read".to_string());
    }
    let overall = compute_overall(&p, ORACLE, FP_ORACLE);
    assert_eq!((overall.part, overall.whole), (26, 32));
    let nothing = compute_overall(&Picks::new(), &[], &[]);
    assert_eq!(value(nothing), 0.0);
}

#[test]
fn a_majority_wins_wherever_it_stands() {
    assert_eq!(majority_vote(&["b", "a", "c", "a", "a"]), Some("a".to_string()));
    assert_eq!(majority_vote(&["b", "a", "a", "b"]), Some("b".to_string()));
}
