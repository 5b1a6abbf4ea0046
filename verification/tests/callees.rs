//! Callees and string literals of parsed source.
use code_graph::callee::{
    callee_of_segments, collect_scoped_path_segments, extract_callee, extract_callee_name,
    extract_rust_scoped, extract_string_from_subtree, CalleeQualifier, MAX_SUBTREE_DEPTH,
};
use code_graph::syntax::{node_text, SyntaxNode};
use tree_sitter::{Node, Parser, Tree};

fn parse_rust(source: &str) -> Tree {
    let mut parser = Parser::new();
    parser.set_language(&tree_sitter_rust::LANGUAGE.into()).unwrap();
    parser.parse(source, None).unwrap()
}

fn parse_python(source: &str) -> Tree {
    let mut parser = Parser::new();
    parser.set_language(&tree_sitter_python::LANGUAGE.into()).unwrap();
    parser.parse(source, None).unwrap()
}

fn find<'t>(node: Node<'t>, kind: &str) -> Option<Node<'t>> {
    if node.kind() == kind {
        return Some(node);
    }
    (0..node.child_count()).filter_map(|i| node.child(i)).find_map(|child| find(child, kind))
}

fn rust_callee(call: &str) -> Option<(String, CalleeQualifier)> {
    rust_callee_in(call, None)
}

/// What the outermost call of an expression calls, in the impl block of a type.
fn rust_callee_in(call: &str, owner: Option<&str>) -> Option<(String, CalleeQualifier)> {
    let source = format!("fn f() {{ {}; }}", call);
    let tree = parse_rust(&source);
    let node = find(tree.root_node(), "call_expression").unwrap();
    extract_callee(node, &source, "rust", owner)
}

fn path(segments: &[&str]) -> CalleeQualifier {
    CalleeQualifier::Path(segments.iter().map(|s| s.to_string()).collect())
}

fn leaf(kind: &str, start: usize, end: usize, field: Option<&str>) -> SyntaxNode {
    SyntaxNode {
        kind: kind.to_string(),
        start_byte: start,
        end_byte: end,
        named: true,
        field: field.map(|s| s.to_string()),
        children: Vec::new(),
    }
}

fn parent(kind: &str, start: usize, end: usize, children: Vec<SyntaxNode>) -> SyntaxNode {
    SyntaxNode { children, ..leaf(kind, start, end, None) }
}

#[test]
fn a_bare_rust_call_has_no_qualifier() {
    assert_eq!(rust_callee("foo(1)"), Some(("foo".to_string(), CalleeQualifier::Bare)));
}

#[test]
fn a_rust_path_is_the_qualifier() {
    assert_eq!(
        rust_callee("std::fs::File::create(x)"),
        Some(("create".to_string(), path(&["std", "fs", "File"])))
    );
    assert_eq!(rust_callee("File::create(x)"), Some(("create".to_string(), path(&["File"]))));
}

#[test]
fn reserved_segments_in_front_are_left_out() {
    assert_eq!(
        rust_callee("a::b::crate_thing()"),
        Some(("crate_thing".to_string(), path(&["a", "b"])))
    );
    let texts = |list: &[&str]| list.iter().map(|s| s.to_string()).collect::<Vec<String>>();
    assert_eq!(
        callee_of_segments(texts(&["crate", "snapshot", "create"])),
        Some(("create".to_string(), path(&["snapshot"])))
    );
    assert_eq!(
        callee_of_segments(texts(&["super", "self", "create"])),
        Some(("create".to_string(), CalleeQualifier::Bare))
    );
    assert_eq!(
        callee_of_segments(texts(&["a", "crate", "f"])),
        Some(("f".to_string(), path(&["a", "crate"])))
    );
    assert_eq!(callee_of_segments(Vec::new()), None);
}

#[test]
fn a_rust_path_is_never_reserved_at_its_front() {
    for call in ["crate::snapshot::create()", "super::super::f()", "self::f()", "crate::f()"] {
        match rust_callee(call) {
            Some((_, CalleeQualifier::Path(segments))) => {
                assert!(!["crate", "super", "self"].contains(&segments[0].as_str()));
            },
            Some((_, qualifier)) => assert_eq!(qualifier, CalleeQualifier::Bare),
            None => panic!("{call} calls something"),
        }
    }
}

#[test]
fn a_method_call_tells_its_receiver() {
    assert_eq!(
        rust_callee("obj.method(1)"),
        Some(("method".to_string(), CalleeQualifier::Receiver("obj".to_string())))
    );
    assert_eq!(
        rust_callee("OpenOptions::new().create(true)"),
        Some(("create".to_string(), CalleeQualifier::Chain))
    );
    assert_eq!(
        rust_callee("OpenOptions::new().create(true).open(p)"),
        Some(("open".to_string(), CalleeQualifier::Chain))
    );
    assert_eq!(
        rust_callee("a.b.method()"),
        Some(("method".to_string(), CalleeQualifier::Bare))
    );
}

#[test]
fn a_call_inside_an_impl_block_tells_its_type() {
    assert_eq!(
        rust_callee_in("Self::method()", Some("Foo")),
        Some(("method".to_string(), CalleeQualifier::SelfType("Foo".to_string())))
    );
    assert_eq!(
        rust_callee_in("self.method()", Some("Foo")),
        Some(("method".to_string(), CalleeQualifier::SelfRecv("Foo".to_string())))
    );
    assert_eq!(
        rust_callee_in("other.method()", Some("Foo")),
        Some(("method".to_string(), CalleeQualifier::Receiver("other".to_string())))
    );
    assert_eq!(
        rust_callee_in("Bar::method()", Some("Foo")),
        Some(("method".to_string(), path(&["Bar"])))
    );
}

#[test]
fn without_an_impl_block_there_is_no_type_to_tell() {
    assert_eq!(rust_callee("Self::new()"), Some(("new".to_string(), path(&["Self"]))));
    assert_eq!(rust_callee("self.f()"), Some(("f".to_string(), CalleeQualifier::Bare)));
}

#[test]
fn both_extractions_agree_on_the_name() {
    for call in ["foo(1)", "a::b::c()", "obj.method()", "crate::x()"] {
        let source = format!("fn f() {{ {}; }}", call);
        let tree = parse_rust(&source);
        let node = find(tree.root_node(), "call_expression").unwrap();
        let name = extract_callee_name(node, &source);
        let callee = extract_callee(node, &source, "rust", Some("Type"));
        assert_eq!(name, callee.map(|(name, _)| name), "{call}");
    }
}

#[test]
fn another_language_is_always_bare() {
    let source = "fn f() { a::b::c(); }";
    let tree = parse_rust(source);
    let node = find(tree.root_node(), "call_expression").unwrap();
    assert_eq!(
        extract_callee(node, source, "go", None),
        Some(("c".to_string(), CalleeQualifier::Bare))
    );
    let source = "f(x)\n";
    let tree = parse_python(source);
    let node = find(tree.root_node(), "call").unwrap();
    assert_eq!(
        extract_callee(node, source, "python", None),
        Some(("f".to_string(), CalleeQualifier::Bare))
    );
}

#[test]
fn an_unknown_shape_has_no_name() {
    let source = "obj.f(x)\n";
    let tree = parse_python(source);
    let node = find(tree.root_node(), "call").unwrap();
    assert_eq!(extract_callee_name(node, source), None);
}

#[test]
fn path_segments_come_in_order() {
    let source = "fn f() { a::b::c(); }";
    let tree = parse_rust(source);
    let node = find(tree.root_node(), "scoped_identifier").unwrap();
    let mut segments = vec!["start".to_string()];
    collect_scoped_path_segments(node, source, &mut segments);
    assert_eq!(segments, vec!["start", "a", "b", "c"]);
    assert_eq!(
        extract_rust_scoped(node, source),
        Some(("c".to_string(), path(&["a", "b"])))
    );
    let call = find(tree.root_node(), "call_expression").unwrap();
    assert_eq!(extract_rust_scoped(call, source), None);
}

#[test]
fn reserved_words_are_segments_too() {
    for (source, expected) in [
        ("fn f() { crate::a::b::foo(); }", vec!["crate", "a", "b", "foo"]),
        ("fn f() { super::super::foo(); }", vec!["super", "super", "foo"]),
        ("fn f() { self::foo(); }", vec!["self", "foo"]),
    ] {
        let tree = parse_rust(source);
        let node = find(tree.root_node(), "scoped_identifier").unwrap();
        let mut segments = Vec::new();
        collect_scoped_path_segments(node, source, &mut segments);
        assert_eq!(segments, expected);
    }
    assert_eq!(
        rust_callee("crate::a::b::foo()"),
        Some(("foo".to_string(), path(&["a", "b"])))
    );
    assert_eq!(
        rust_callee("crate::foo()"),
        Some(("foo".to_string(), CalleeQualifier::Bare))
    );
}

#[test]
fn the_text_of_a_node_is_its_range_of_the_source() {
    let source = "fn é() { grün(); }";
    let tree = parse_rust(source);
    let node = find(tree.root_node(), "call_expression").unwrap();
    assert_eq!(node_text(node, source), "grün()");
    assert_eq!(
        extract_callee(node, source, "rust", None),
        Some(("grün".to_string(), CalleeQualifier::Bare))
    );
    assert_eq!(node_text(node, "fn"), "");
}

#[test]
fn the_first_string_literal_is_found_without_its_quotes() {
    let source = "app.route('/users', f\"other\")\n";
    let tree = parse_python(source);
    assert_eq!(extract_string_from_subtree(tree.root_node(), source), Some("/users".to_string()));
    let source = "x = rb\"bytes\"\n";
    let tree = parse_python(source);
    assert_eq!(extract_string_from_subtree(tree.root_node(), source), Some("bytes".to_string()));
    let source = "x = 1\n";
    let tree = parse_python(source);
    assert_eq!(extract_string_from_subtree(tree.root_node(), source), None);
}

#[test]
fn prefix_letters_inside_the_quotes_stay() {
    let source = "f'fruit'";
    let string = leaf("string", 0, 8, None);
    assert_eq!(extract_string_from_subtree(&string, source), Some("fruit".to_string()));
    let source = "fur";
    let string = leaf("string", 0, 3, None);
    assert_eq!(extract_string_from_subtree(&string, source), Some("".to_string()));
}

#[test]
fn a_string_literal_is_looked_for_to_a_depth() {
    let source = "'x'";
    let nested = |levels: usize| {
        let mut node = leaf("string", 0, 3, None);
        for _ in 0..levels {
            node = parent("block", 0, 3, vec![node]);
        }
        node
    };
    assert_eq!(
        extract_string_from_subtree(&nested(MAX_SUBTREE_DEPTH), source),
        Some("x".to_string())
    );
    assert_eq!(extract_string_from_subtree(&nested(MAX_SUBTREE_DEPTH + 1), source), None);
}

#[test]
fn every_known_shape_gives_a_name() {
    let source = "obj.method";
    let selector = |kind: &str, field: &str| {
        let function = SyntaxNode {
            field: Some("function".to_string()),
            ..parent(
                kind,
                0,
                10,
                vec![leaf("identifier", 0, 3, None), leaf("identifier", 4, 10, Some(field))],
            )
        };
        parent("call", 0, 10, vec![function])
    };
    for (kind, field) in [
        ("member_expression", "property"),
        ("member_expression", "field"),
        ("field_expression", "field"),
        ("scoped_identifier", "name"),
        ("selector_expression", "field"),
        ("navigation_expression", "anything"),
    ] {
        let call = selector(kind, field);
        assert_eq!(extract_callee_name(&call, source), Some("method".to_string()), "{kind}");
    }
    let no_member = selector("member_expression", "other");
    assert_eq!(extract_callee_name(&no_member, source), Some("obj.method".to_string()));
    assert_eq!(extract_callee_name(&selector("selector_expression", "other"), source), None);
    assert_eq!(extract_callee_name(&selector("scoped_identifier", "other"), source), None);
    assert_eq!(extract_callee_name(&selector("lambda", "field"), source), None);
}

#[test]
fn a_navigation_suffix_is_looked_into() {
    let source = "obj.method";
    let suffix = parent("navigation_suffix", 3, 10, vec![leaf("simple_identifier", 4, 10, None)]);
    let function =
        parent("navigation_expression", 0, 10, vec![leaf("identifier", 0, 3, None), suffix]);
    let call = parent("call", 0, 10, vec![function]);
    assert_eq!(extract_callee_name(&call, source), Some("method".to_string()));
    let empty = parent("call", 0, 10, vec![parent("navigation_expression", 0, 10, Vec::new())]);
    assert_eq!(extract_callee_name(&empty, source), None);
}

#[test]
fn a_call_without_a_function_field_takes_its_first_named_child() {
    let source = "f(x)";
    let mut anonymous = leaf("(", 1, 2, None);
    anonymous.named = false;
    let call = parent("call", 0, 4, vec![anonymous, leaf("simple_identifier", 0, 1, None)]);
    assert_eq!(extract_callee_name(&call, source), Some("f".to_string()));
    let bare = parent("call", 0, 4, Vec::new());
    assert_eq!(extract_callee_name(&bare, source), None);
    assert_eq!(extract_callee(&bare, source, "rust", None), None);
}
