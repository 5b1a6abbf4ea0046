//! What a call expression calls: the callee's name, the shape of its
//! qualifier, and the first string literal in a subtree.
use crate::syntax::{node_text, Field, SyntaxCursor, SyntaxTree};
use crate::text::{
    classes_hold_their_characters, opt_str, opt_text, same_text, strip, strip_back, strip_front,
    strip_of, strip_start_of, stripping_takes_off_a_run_at_each_end,
    stripping_the_front_takes_off_a_run, texts, CharClass,
};
use vstd::prelude::*;

verus! {

/// How deep below its start the search for a string literal goes.
pub const MAX_SUBTREE_DEPTH: usize = 32;

/// The text of a node, if there is one.
pub open spec fn text_of(node: Option<SyntaxTree>, source: Seq<char>) -> Option<Seq<char>> {
    match node {
        Some(n) => Some(n.text(source)),
        None => None,
    }
}

/// `first`, or `second` where there is no `first`.
pub open spec fn either(first: Option<SyntaxTree>, second: Option<SyntaxTree>) -> Option<
    SyntaxTree,
> {
    match first {
        Some(n) => Some(n),
        None => second,
    }
}

/// The node that a call expression calls: its function, or else its first
/// named child.
pub open spec fn called(call: SyntaxTree) -> Option<SyntaxTree> {
    either(call.field("function"@), call.named_child(0))
}

/// The name by which `function` is called.
pub open spec fn function_name(function: SyntaxTree, source: Seq<char>) -> Option<Seq<char>> {
    let kind = function.kind;
    if kind == "identifier"@ || kind == "simple_identifier"@ {
        Some(function.text(source))
    } else if kind == "member_expression"@ || kind == "field_expression"@ {
        let member = either(function.field("property"@), function.field("field"@));
        text_of(either(member, Some(function)), source)
    } else if kind == "scoped_identifier"@ {
        text_of(function.field("name"@), source)
    } else if kind == "selector_expression"@ {
        text_of(function.field("field"@), source)
    } else if kind == "navigation_expression"@ {
        match function.last_named() {
            Some(last) => if last.kind == "navigation_suffix"@ {
                text_of(last.named_child(0), source)
            } else {
                Some(last.text(source))
            },
            None => None,
        }
    } else {
        None
    }
}

/// The name that a call expression calls.
pub open spec fn callee_name(call: SyntaxTree, source: Seq<char>) -> Option<Seq<char>> {
    match called(call) {
        Some(function) => function_name(function, source),
        None => None,
    }
}

/// The text of a node, if there is one.
fn text_at<C: SyntaxCursor>(node: Option<C>, source: &str) -> (r: Option<String>)
    ensures
        match (node, r) {
            (Some(n), Some(text)) => text@ == n.tree().text(source@),
            (None, None) => true,
            _ => false,
        },
{
    match node {
        Some(n) => Some(node_text(n, source)),
        None => None,
    }
}

/// The node that a call expression calls.
fn called_node<C: SyntaxCursor>(call: C) -> (r: Option<C>)
    ensures
        r is Some <==> called(call.tree()) is Some,
        r matches Some(f) ==> called(call.tree()) == Some(f.tree()),
{
    match call.field(Field::Function) {
        Some(f) => Some(f),
        None => call.first_named(),
    }
}

/// Extracts the name that a call expression calls, over the shapes that the
/// supported grammars give to a callee. `None` for a shape that is not known.
pub fn extract_callee_name<C: SyntaxCursor>(node: C, source: &str) -> (r: Option<String>)
    ensures
        opt_text(r) == callee_name(node.tree(), source@),
{
    let function = match called_node(node) {
        Some(f) => f,
        None => {
            return None;
        },
    };
    let kind_string = function.kind();
    let kind: &str = kind_string.as_str();
    if same_text(kind, "identifier") || same_text(kind, "simple_identifier") {
        Some(node_text(function, source))
    } else if same_text(kind, "member_expression") || same_text(kind, "field_expression") {
        let member = match function.field(Field::Property) {
            Some(p) => Some(p),
            None => function.field(Field::Member),
        };
        match member {
            Some(m) => Some(node_text(m, source)),
            None => Some(node_text(function, source)),
        }
    } else if same_text(kind, "scoped_identifier") {
        text_at(function.field(Field::Name), source)
    } else if same_text(kind, "selector_expression") {
        text_at(function.field(Field::Member), source)
    } else if same_text(kind, "navigation_expression") {
        match function.last_named() {
            Some(last) => {
                let last_kind = last.kind();
                if same_text(last_kind.as_str(), "navigation_suffix") {
                    text_at(last.first_named(), source)
                } else {
                    Some(node_text(last, source))
                }
            },
            None => None,
        }
    } else {
        None
    }
}

/// The shape of a callee's qualifier.
#[derive(Debug, Clone, PartialEq, Eq)]
pub enum CalleeQualifier {
    /// `foo()`: no qualifier. Also any call in a language other than Rust.
    Bare,
    /// `crate::snapshot::create()`, `Module::foo()`, `Type::method()`: the
    /// path before the name, without leading `crate`, `super` and `self`.
    Path(Vec<String>),
    /// `Self::method()`, with the name of the type of the enclosing impl block.
    SelfType(String),
    /// `self.method()`, with the name of the type of the enclosing impl block.
    SelfRecv(String),
    /// `obj.method()`, where the receiver is an identifier of unknown type.
    Receiver(String),
    /// `OpenOptions::new().create(true)`: the receiver is itself a call.
    Chain,
}

/// What a qualifier says, as values.
pub enum Qualifier {
    Bare,
    Path(Seq<Seq<char>>),
    SelfType(Seq<char>),
    SelfRecv(Seq<char>),
    Receiver(Seq<char>),
    Chain,
}

impl View for CalleeQualifier {
    type V = Qualifier;

    open spec fn view(&self) -> Qualifier {
        match self {
            CalleeQualifier::Bare => Qualifier::Bare,
            CalleeQualifier::Path(path) => Qualifier::Path(texts(path@)),
            CalleeQualifier::SelfType(name) => Qualifier::SelfType(name@),
            CalleeQualifier::SelfRecv(name) => Qualifier::SelfRecv(name@),
            CalleeQualifier::Receiver(name) => Qualifier::Receiver(name@),
            CalleeQualifier::Chain => Qualifier::Chain,
        }
    }
}

/// Whether a node of this kind is one segment of a path.
pub open spec fn is_segment_kind(kind: Seq<char>) -> bool {
    ||| kind == "identifier"@
    ||| kind == "type_identifier"@
    ||| kind == "crate"@
    ||| kind == "self"@
    ||| kind == "super"@
}

/// The segments of a path, its last name included: `crate::a::foo` has the
/// segments `crate`, `a` and `foo`.
pub open spec fn path_segments(node: SyntaxTree, source: Seq<char>) -> Seq<Seq<char>>
    decreases node,
{
    if node.kind == "scoped_identifier"@ {
        let before = if node.fields.contains_key("path"@) {
            path_segments(node.fields["path"@], source)
        } else {
            Seq::empty()
        };
        match node.field("name"@) {
            Some(name) => before.push(name.text(source)),
            None => before,
        }
    } else if is_segment_kind(node.kind) {
        seq![node.text(source)]
    } else {
        Seq::empty()
    }
}

/// Whether a path segment only says where a path starts.
pub open spec fn reserved(segment: Seq<char>) -> bool {
    segment == "crate"@ || segment == "super"@ || segment == "self"@
}

/// `path` without its leading reserved segments.
pub open spec fn without_reserved(path: Seq<Seq<char>>) -> Seq<Seq<char>>
    decreases path.len(),
{
    if path.len() > 0 && reserved(path[0]) {
        without_reserved(path.drop_first())
    } else {
        path
    }
}

/// The qualifier for the path before a name.
pub open spec fn path_qualifier(path: Seq<Seq<char>>) -> Qualifier {
    if without_reserved(path).len() == 0 {
        Qualifier::Bare
    } else {
        Qualifier::Path(without_reserved(path))
    }
}

/// Name and qualifier of the callee that a path with these segments names.
pub open spec fn scoped_callee(segments: Seq<Seq<char>>) -> Option<(Seq<char>, Qualifier)> {
    if segments.len() == 0 {
        None
    } else {
        Some((segments.last(), path_qualifier(segments.drop_last())))
    }
}

/// The qualifier of a callee that is a Rust path, inside the impl block of a
/// type: a path that starts with `Self` names a member of that type.
pub open spec fn within_impl(qualifier: Qualifier, rust_impl: Option<Seq<char>>) -> Qualifier {
    match (qualifier, rust_impl) {
        (Qualifier::Path(path), Some(owner)) => if path[0] == "Self"@ {
            Qualifier::SelfType(owner)
        } else {
            qualifier
        },
        _ => qualifier,
    }
}

/// The qualifier of a Rust method that is called on a receiver, inside the impl
/// block of a type.
pub open spec fn receiver_qualifier(
    receiver: Option<SyntaxTree>,
    source: Seq<char>,
    rust_impl: Option<Seq<char>>,
) -> Qualifier {
    match receiver {
        Some(r) => if r.kind == "self"@ {
            match rust_impl {
                Some(owner) => Qualifier::SelfRecv(owner),
                None => Qualifier::Bare,
            }
        } else if r.kind == "identifier"@ {
            Qualifier::Receiver(r.text(source))
        } else if r.kind == "call_expression"@ {
            Qualifier::Chain
        } else {
            Qualifier::Bare
        },
        None => Qualifier::Bare,
    }
}

/// Name and qualifier of what a call expression calls, `rust_impl` being the
/// type of the enclosing impl block. Only a Rust callee has a qualifier.
pub open spec fn callee(
    call: SyntaxTree,
    source: Seq<char>,
    language: Seq<char>,
    rust_impl: Option<Seq<char>>,
) -> Option<(Seq<char>, Qualifier)> {
    match called(call) {
        Some(function) => if language == "rust"@ && function.kind == "scoped_identifier"@ {
            match scoped_callee(path_segments(function, source)) {
                Some((name, qualifier)) => Some((name, within_impl(qualifier, rust_impl))),
                None => None,
            }
        } else {
            match function_name(function, source) {
                Some(name) => Some(
                    (
                        name,
                        if language == "rust"@ && function.kind == "field_expression"@ {
                            receiver_qualifier(function.field("value"@), source, rust_impl)
                        } else {
                            Qualifier::Bare
                        },
                    ),
                ),
                None => None,
            }
        },
        None => None,
    }
}

/// A callee as values.
pub open spec fn callee_view(callee: Option<(String, CalleeQualifier)>) -> Option<
    (Seq<char>, Qualifier),
> {
    match callee {
        Some((name, qualifier)) => Some((name@, qualifier@)),
        None => None,
    }
}

/// Appends the segments of a path to `out`.
pub fn collect_scoped_path_segments<C: SyntaxCursor>(node: C, source: &str, out: &mut Vec<String>)
    ensures
        texts(final(out)@) == texts(old(out)@) + path_segments(node.tree(), source@),
    decreases node.tree(),
{
    let ghost start = texts(out@);
    let kind_string = node.kind();
    let kind: &str = kind_string.as_str();
    if same_text(kind, "scoped_identifier") {
        if let Some(path) = node.field(Field::Path) {
            collect_scoped_path_segments(path, source, out);
        }
        let ghost middle = texts(out@);
        if let Some(name) = node.field(Field::Name) {
            let text = node_text(name, source);
            let ghost added = text@;
            out.push(text);
            assert(texts(out@) =~= middle.push(added));
        }
        assert(texts(out@) =~= start + path_segments(node.tree(), source@));
    } else if same_text(kind, "identifier") || same_text(kind, "type_identifier") || same_text(
        kind,
        "crate",
    ) || same_text(kind, "self") || same_text(kind, "super") {
        let text = node_text(node, source);
        let ghost added = text@;
        out.push(text);
        assert(texts(out@) =~= start + seq![added]);
    } else {
        assert(texts(out@) =~= start + Seq::<Seq<char>>::empty());
    }
}

proof fn lemma_without_reserved(path: Seq<Seq<char>>, n: int)
    requires
        0 <= n <= path.len(),
        forall|i: int| 0 <= i < n ==> reserved(#[trigger] path[i]),
        n < path.len() ==> !reserved(path[n]),
    ensures
        without_reserved(path) == path.skip(n),
    decreases n,
{
    if n == 0 {
        assert(path.skip(0) =~= path);
    } else {
        let rest = path.drop_first();
        assert forall|i: int| 0 <= i < n - 1 implies reserved(#[trigger] rest[i]) by {
            assert(rest[i] == path[i + 1]);
        }
        assert(reserved(path[0]));
        lemma_without_reserved(rest, n - 1);
        assert(rest.skip(n - 1) =~= path.skip(n));
    }
}

fn is_reserved(segment: &str) -> (r: bool)
    ensures
        r == reserved(segment@),
{
    same_text(segment, "crate") || same_text(segment, "super") || same_text(segment, "self")
}

/// Name and qualifier of the callee that a path with these segments names.
pub fn callee_of_segments(segments: Vec<String>) -> (r: Option<(String, CalleeQualifier)>)
    ensures
        callee_view(r) == scoped_callee(texts(segments@)),
{
    let mut path = segments;
    let name = match path.pop() {
        Some(name) => name,
        None => {
            return None;
        },
    };
    let ghost before = texts(path@);
    assert(before =~= texts(segments@).drop_last());
    let mut skip: usize = 0;
    while skip < path.len() && is_reserved(path[skip].as_str())
        invariant
            skip <= path@.len(),
            before == texts(path@),
            forall|i: int| 0 <= i < skip ==> reserved(#[trigger] before[i]),
        decreases path@.len() - skip,
    {
        assert(before[skip as int] == path@[skip as int]@);
        skip = skip + 1;
    }
    proof {
        if skip < path@.len() {
            assert(before[skip as int] == path@[skip as int]@);
        }
        lemma_without_reserved(before, skip as int);
    }
    let kept: Vec<String> = path.split_off(skip);
    assert(texts(kept@) =~= before.skip(skip as int));
    if kept.len() == 0 {
        Some((name, CalleeQualifier::Bare))
    } else {
        Some((name, CalleeQualifier::Path(kept)))
    }
}

/// Name and qualifier of a callee that is a Rust path.
pub fn extract_rust_scoped<C: SyntaxCursor>(function: C, source: &str) -> (r: Option<
    (String, CalleeQualifier),
>)
    ensures
        callee_view(r) == scoped_callee(path_segments(function.tree(), source@)),
{
    let mut all: Vec<String> = Vec::new();
    collect_scoped_path_segments(function, source, &mut all);
    assert(texts(all@) =~= path_segments(function.tree(), source@));
    callee_of_segments(all)
}

/// The qualifier of a callee that is a Rust path, inside an impl block.
fn qualify_within_impl(qualifier: CalleeQualifier, rust_impl: Option<&str>) -> (r: CalleeQualifier)
    requires
        qualifier matches CalleeQualifier::Path(path) ==> path@.len() > 0,
    ensures
        r@ == within_impl(qualifier@, opt_str(rust_impl)),
{
    if let Some(owner) = rust_impl {
        if let CalleeQualifier::Path(path) = &qualifier {
            assert(texts(path@)[0] == path@[0]@);
            if same_text(path[0].as_str(), "Self") {
                return CalleeQualifier::SelfType(owner.to_owned());
            }
        }
    }
    qualifier
}

/// The qualifier of a Rust method that is called on a receiver.
fn qualify_receiver<C: SyntaxCursor>(
    function: C,
    source: &str,
    rust_impl: Option<&str>,
) -> (r: CalleeQualifier)
    ensures
        r@ == receiver_qualifier(function.tree().field("value"@), source@, opt_str(rust_impl)),
{
    let receiver = match function.field(Field::Receiver) {
        Some(receiver) => receiver,
        None => {
            return CalleeQualifier::Bare;
        },
    };
    let kind = receiver.kind();
    if same_text(kind.as_str(), "self") {
        match rust_impl {
            Some(owner) => CalleeQualifier::SelfRecv(owner.to_owned()),
            None => CalleeQualifier::Bare,
        }
    } else if same_text(kind.as_str(), "identifier") {
        CalleeQualifier::Receiver(node_text(receiver, source))
    } else if same_text(kind.as_str(), "call_expression") {
        CalleeQualifier::Chain
    } else {
        CalleeQualifier::Bare
    }
}

/// Like `extract_callee_name`, with the shape of the qualifier. A language
/// other than Rust always has a bare callee. `current_rust_impl` is the type of
/// the enclosing impl block.
pub fn extract_callee<C: SyntaxCursor>(
    node: C,
    source: &str,
    language: &str,
    current_rust_impl: Option<&str>,
) -> (r: Option<(String, CalleeQualifier)>)
    ensures
        callee_view(r) == callee(node.tree(), source@, language@, opt_str(current_rust_impl)),
{
    let mut qualifier = CalleeQualifier::Bare;
    if same_text(language, "rust") {
        let function = match called_node(node) {
            Some(f) => f,
            None => {
                return None;
            },
        };
        let kind = function.kind();
        if same_text(kind.as_str(), "scoped_identifier") {
            return match extract_rust_scoped(function, source) {
                Some((name, path)) => Some((name, qualify_within_impl(path, current_rust_impl))),
                None => None,
            };
        }
        if same_text(kind.as_str(), "field_expression") {
            qualifier = qualify_receiver(function, source, current_rust_impl);
        }
    }
    match extract_callee_name(node, source) {
        Some(name) => Some((name, qualifier)),
        None => None,
    }
}

/// The text of a string literal without its prefix letters and its quotes.
pub open spec fn literal_text(text: Seq<char>) -> Seq<char> {
    strip(strip_front(text, CharClass::LiteralPrefix.pred()), CharClass::Quote.pred())
}

/// The first string literal in a node at a depth below the start of the
/// search.
pub open spec fn string_in(node: SyntaxTree, source: Seq<char>, depth: nat) -> Option<Seq<char>>
    decreases MAX_SUBTREE_DEPTH + 2 - depth, 0nat,
{
    if depth > MAX_SUBTREE_DEPTH {
        None
    } else if node.kind == "string"@ {
        Some(literal_text(node.text(source)))
    } else {
        string_among(node.children, source, depth + 1)
    }
}

/// The first string literal in `nodes`, which stand at a depth below the start
/// of the search.
pub open spec fn string_among(nodes: Seq<SyntaxTree>, source: Seq<char>, depth: nat) -> Option<
    Seq<char>,
>
    decreases MAX_SUBTREE_DEPTH + 2 - depth, nodes.len(),
{
    if nodes.len() == 0 {
        None
    } else {
        match string_in(nodes[0], source, depth) {
            Some(text) => Some(text),
            None => string_among(nodes.drop_first(), source, depth),
        }
    }
}

/// Extracts the first string literal in a subtree, no deeper than
/// `MAX_SUBTREE_DEPTH` below its root.
pub fn extract_string_from_subtree<C: SyntaxCursor>(node: C, source: &str) -> (r: Option<String>)
    ensures
        opt_text(r) == string_in(node.tree(), source@, 0),
{
    extract_string_from_subtree_inner(node, source, 0)
}

/// How many more levels the search for a string literal goes down.
spec fn levels_left(depth: usize) -> int {
    if depth > MAX_SUBTREE_DEPTH {
        0
    } else {
        MAX_SUBTREE_DEPTH + 1 - depth
    }
}

fn extract_string_from_subtree_inner<C: SyntaxCursor>(
    node: C,
    source: &str,
    depth: usize,
) -> (r: Option<String>)
    ensures
        opt_text(r) == string_in(node.tree(), source@, depth as nat),
    decreases levels_left(depth),
{
    if depth > MAX_SUBTREE_DEPTH {
        return None;
    }
    let kind = node.kind();
    if same_text(kind.as_str(), "string") {
        let text = node_text(node, source);
        let bare = strip_start_of(text.as_str(), CharClass::LiteralPrefix);
        return Some(strip_of(bare.as_str(), CharClass::Quote));
    }
    let ghost children = node.tree().children;
    let count: usize = node.child_count();
    let mut i: usize = 0;
    assert(children.skip(0) =~= children);
    while i < count
        invariant
            i <= count,
            count == children.len(),
            children == node.tree().children,
            depth <= MAX_SUBTREE_DEPTH,
            string_in(node.tree(), source@, depth as nat) == string_among(
                children.skip(i as int),
                source@,
                (depth + 1) as nat,
            ),
        decreases count - i,
    {
        let ghost rest = children.skip(i as int);
        assert(rest[0] == children[i as int]);
        assert(rest.drop_first() =~= children.skip(i + 1));
        if let Some(child) = node.child(i) {
            if let Some(s) = extract_string_from_subtree_inner(child, source, depth + 1) {
                return Some(s);
            }
        }
        i = i + 1;
    }
    assert(children.skip(i as int).len() == 0);
    None
}

/// The two extractions agree on the name of a callee, save for a Rust path
/// that lacks its last name.
pub proof fn callee_agrees_with_callee_name(
    call: SyntaxTree,
    source: Seq<char>,
    language: Seq<char>,
    rust_impl: Option<Seq<char>>,
)
    requires
        called(call) matches Some(function) ==> (language == "rust"@ && function.kind
            == "scoped_identifier"@ ==> function.field("name"@) is Some),
    ensures
        match callee(call, source, language, rust_impl) {
            Some((name, _)) => callee_name(call, source) == Some(name),
            None => callee_name(call, source) is None,
        },
{
    assert("scoped_identifier"@ != "identifier"@ && "scoped_identifier"@ != "simple_identifier"@
        && "scoped_identifier"@ != "member_expression"@ && "scoped_identifier"@
        != "field_expression"@) by {
        reveal_strlit("scoped_identifier");
        reveal_strlit("identifier");
        reveal_strlit("simple_identifier");
        reveal_strlit("member_expression");
        reveal_strlit("field_expression");
        assert("scoped_identifier"@[1] != "simple_identifier"@[1]);
        assert("scoped_identifier"@[0] != "member_expression"@[0]);
    }
}

proof fn lemma_first_not_reserved(path: Seq<Seq<char>>)
    ensures
        without_reserved(path).len() > 0 ==> !reserved(without_reserved(path)[0]),
    decreases path.len(),
{
    if path.len() > 0 && reserved(path[0]) {
        lemma_first_not_reserved(path.drop_first());
    }
}

/// What each qualifier tells: only a Rust callee has one other than the bare
/// one; a path is never empty and never starts with a reserved segment, nor with
/// `Self` inside an impl block; and what names the type of the impl block names
/// the one that encloses the call.
pub proof fn a_qualifier_tells_its_shape(
    call: SyntaxTree,
    source: Seq<char>,
    language: Seq<char>,
    rust_impl: Option<Seq<char>>,
)
    ensures
        callee(call, source, language, rust_impl) matches Some((_, qualifier)) ==> match qualifier {
            Qualifier::Bare => true,
            Qualifier::Path(path) => language == "rust"@ && path.len() > 0 && !reserved(path[0])
                && (path[0] == "Self"@ ==> rust_impl is None),
            Qualifier::SelfType(owner) => language == "rust"@ && rust_impl == Some(owner),
            Qualifier::SelfRecv(owner) => language == "rust"@ && rust_impl == Some(owner),
            Qualifier::Receiver(_) => language == "rust"@,
            Qualifier::Chain => language == "rust"@,
        },
{
    if let Some(function) = called(call) {
        let segments = path_segments(function, source);
        if segments.len() > 0 {
            lemma_first_not_reserved(segments.drop_last());
        }
    }
}

proof fn lemma_stripped_front(s: Seq<char>, drop: spec_fn(char) -> bool)
    ensures
        strip_front(s, drop).len() > 0 ==> !drop(strip_front(s, drop)[0]),
    decreases s.len(),
{
    if s.len() > 0 && drop(s[0]) {
        lemma_stripped_front(s.drop_first(), drop);
    }
}

proof fn lemma_stripped_back(s: Seq<char>, drop: spec_fn(char) -> bool)
    requires
        s.len() > 0 ==> !drop(s[0]),
    ensures
        strip_back(s, drop).len() > 0 ==> !drop(strip_back(s, drop)[0]) && !drop(
            strip_back(s, drop).last(),
        ),
    decreases s.len(),
{
    if s.len() > 0 && drop(s.last()) {
        lemma_stripped_back(s.drop_last(), drop);
    }
}

/// Whether a text begins or ends with a quote.
pub open spec fn has_outer_quote(text: Seq<char>) -> bool {
    text.len() > 0 && (CharClass::Quote.holds(text[0]) || CharClass::Quote.holds(text.last()))
}

/// A string literal that is found has no quote around it.
pub proof fn a_found_literal_has_no_outer_quote(node: SyntaxTree, source: Seq<char>, depth: nat)
    ensures
        string_in(node, source, depth) matches Some(text) ==> !has_outer_quote(text),
    decreases MAX_SUBTREE_DEPTH + 2 - depth, 0nat,
{
    if depth <= MAX_SUBTREE_DEPTH {
        if node.kind == "string"@ {
            let quote = CharClass::Quote.pred();
            let bare = strip_front(node.text(source), CharClass::LiteralPrefix.pred());
            lemma_stripped_front(bare, quote);
            lemma_stripped_back(strip_front(bare, quote), quote);
        } else {
            lemma_found_among(node.children, source, depth + 1);
        }
    }
}

proof fn lemma_found_among(nodes: Seq<SyntaxTree>, source: Seq<char>, depth: nat)
    ensures
        string_among(nodes, source, depth) matches Some(text) ==> !has_outer_quote(text),
    decreases MAX_SUBTREE_DEPTH + 2 - depth, nodes.len(),
{
    if nodes.len() > 0 {
        if depth <= MAX_SUBTREE_DEPTH {
            a_found_literal_has_no_outer_quote(nodes[0], source, depth);
        }
        lemma_found_among(nodes.drop_first(), source, depth);
    }
}

/// Whether a string literal stands in a subtree, its root included, no more than
/// `levels` below the root.
pub open spec fn holds_string(node: SyntaxTree, levels: nat) -> bool
    decreases levels, 0nat,
{
    node.kind == "string"@ || (levels > 0 && one_holds_string(node.children, (levels - 1) as nat))
}

/// Whether a string literal stands in one of these subtrees, no more than
/// `levels` below its root.
pub open spec fn one_holds_string(nodes: Seq<SyntaxTree>, levels: nat) -> bool
    decreases levels, nodes.len() + 1,
{
    nodes.len() > 0 && (holds_string(nodes[0], levels) || one_holds_string(
        nodes.drop_first(),
        levels,
    ))
}

/// A string literal is found exactly where one stands no deeper than the search
/// goes; from a greater depth nothing is found.
pub proof fn a_literal_is_found_where_one_stands(node: SyntaxTree, source: Seq<char>, depth: nat)
    ensures
        string_in(node, source, depth) is Some <==> depth <= MAX_SUBTREE_DEPTH && holds_string(
            node,
            (MAX_SUBTREE_DEPTH - depth) as nat,
        ),
    decreases MAX_SUBTREE_DEPTH + 2 - depth, 0nat,
{
    if depth <= MAX_SUBTREE_DEPTH {
        lemma_found_where_one_stands(node.children, source, depth + 1);
    }
}

proof fn lemma_found_where_one_stands(nodes: Seq<SyntaxTree>, source: Seq<char>, depth: nat)
    ensures
        string_among(nodes, source, depth) is Some <==> depth <= MAX_SUBTREE_DEPTH
            && one_holds_string(nodes, (MAX_SUBTREE_DEPTH - depth) as nat),
    decreases MAX_SUBTREE_DEPTH + 2 - depth, nodes.len(),
{
    if nodes.len() > 0 {
        if depth <= MAX_SUBTREE_DEPTH {
            a_literal_is_found_where_one_stands(nodes[0], source, depth);
        }
        lemma_found_where_one_stands(nodes.drop_first(), source, depth);
    }
}

/// Whether `function` is what a call expression calls: the child under its field
/// `function`, or its first named child where it has no such field.
pub open spec fn calls(call: SyntaxTree, function: SyntaxTree) -> bool {
    if call.fields.contains_key("function"@) {
        function == call.fields["function"@]
    } else {
        call.named.contains_key(0) && function == call.named[0]
    }
}

/// The kinds of node that a callee may have are different.
proof fn lemma_callee_kinds_differ()
    ensures
        "identifier"@.len() == 10,
        "simple_identifier"@.len() == 17,
        "simple_identifier"@[1] == 'i',
        "member_expression"@.len() == 17,
        "member_expression"@[1] == 'e',
        "field_expression"@.len() == 16,
        "scoped_identifier"@.len() == 17,
        "scoped_identifier"@[1] == 'c',
        "selector_expression"@.len() == 19,
        "navigation_expression"@.len() == 21,
{
    reveal_strlit("identifier");
    reveal_strlit("simple_identifier");
    reveal_strlit("member_expression");
    reveal_strlit("field_expression");
    reveal_strlit("scoped_identifier");
    reveal_strlit("selector_expression");
    reveal_strlit("navigation_expression");
}

/// A call on a member is named by the member, whatever kind of node that is: the
/// child under `property`, or else the one under `field`. One without either is
/// named by the whole expression.
pub proof fn a_member_call_is_named_by_its_member(
    call: SyntaxTree,
    function: SyntaxTree,
    source: Seq<char>,
)
    requires
        calls(call, function),
        function.kind == "member_expression"@ || function.kind == "field_expression"@,
    ensures
        function.fields.contains_key("property"@) ==> callee_name(call, source) == Some(
            function.fields["property"@].text(source),
        ),
        !function.fields.contains_key("property"@) && function.fields.contains_key("field"@)
            ==> callee_name(call, source) == Some(function.fields["field"@].text(source)),
        !function.fields.contains_key("property"@) && !function.fields.contains_key("field"@)
            ==> callee_name(call, source) == Some(function.text(source)),
{
    lemma_callee_kinds_differ();
}

/// Every other call is named by its shape: an identifier by its text; a path by
/// the child under `name`, and a selector by the one under `field`, where there
/// is such a child; a navigation by its last named child, or by the first named
/// child of that where it is a suffix. Anything else has no name.
pub proof fn a_call_is_named_by_its_shape(
    call: SyntaxTree,
    function: SyntaxTree,
    source: Seq<char>,
)
    requires
        calls(call, function),
    ensures
        function.kind == "identifier"@ || function.kind == "simple_identifier"@ ==> callee_name(
            call,
            source,
        ) == Some(function.text(source)),
        function.kind == "scoped_identifier"@ ==> if function.fields.contains_key("name"@) {
            callee_name(call, source) == Some(function.fields["name"@].text(source))
        } else {
            callee_name(call, source) is None
        },
        function.kind == "selector_expression"@ ==> if function.fields.contains_key("field"@) {
            callee_name(call, source) == Some(function.fields["field"@].text(source))
        } else {
            callee_name(call, source) is None
        },
        function.kind == "navigation_expression"@ && function.named_count == 0 ==> callee_name(
            call,
            source,
        ) is None,
        forall|n: nat|
            function.kind == "navigation_expression"@ && function.named_count == n + 1
                && #[trigger] function.named.contains_key(n) ==> if function.named[n].kind
                != "navigation_suffix"@ {
                callee_name(call, source) == Some(function.named[n].text(source))
            } else if function.named[n].named.contains_key(0) {
                callee_name(call, source) == Some(function.named[n].named[0].text(source))
            } else {
                callee_name(call, source) is None
            },
        callee_name(call, source) is Some ==> {
            ||| function.kind == "identifier"@
            ||| function.kind == "simple_identifier"@
            ||| function.kind == "member_expression"@
            ||| function.kind == "field_expression"@
            ||| function.kind == "scoped_identifier"@
            ||| function.kind == "selector_expression"@
            ||| function.kind == "navigation_expression"@
        },
{
    lemma_callee_kinds_differ();
}

/// A call expression that has neither a function nor a named child calls
/// nothing.
pub proof fn an_empty_call_calls_nothing(
    call: SyntaxTree,
    source: Seq<char>,
    language: Seq<char>,
    rust_impl: Option<Seq<char>>,
)
    requires
        !call.fields.contains_key("function"@),
        !call.named.contains_key(0),
    ensures
        callee_name(call, source) is None,
        callee(call, source, language, rust_impl) is None,
{
}

/// In a language other than Rust a callee has the name that the call has, and no
/// qualifier.
pub proof fn only_rust_has_qualifiers(
    call: SyntaxTree,
    source: Seq<char>,
    language: Seq<char>,
    rust_impl: Option<Seq<char>>,
)
    requires
        language != "rust"@,
    ensures
        callee(call, source, language, rust_impl) == (match callee_name(call, source) {
            Some(name) => Some((name, Qualifier::Bare)),
            None => None,
        }),
{
}

/// In Rust a method that is called on a receiver is qualified by it: by the type
/// of the impl block where the receiver is `self`, by its text where it is an
/// identifier, as a chain where it is a call; without a receiver, on any other
/// one, and on `self` outside an impl block, it has no qualifier. Any other
/// callee that is no path has none either.
pub proof fn a_receiver_qualifies_a_rust_method(
    call: SyntaxTree,
    function: SyntaxTree,
    source: Seq<char>,
    rust_impl: Option<Seq<char>>,
)
    requires
        calls(call, function),
        function.kind != "scoped_identifier"@,
    ensures
        callee(call, source, "rust"@, rust_impl) is Some <==> callee_name(call, source) is Some,
        callee(call, source, "rust"@, rust_impl) matches Some((name, qualifier)) ==> {
            &&& callee_name(call, source) == Some(name)
            &&& function.kind != "field_expression"@ || !function.fields.contains_key("value"@)
                ==> qualifier == Qualifier::Bare
            &&& function.kind == "field_expression"@ && function.fields.contains_key("value"@) ==> {
                let receiver = function.fields["value"@];
                &&& receiver.kind == "self"@ ==> qualifier == (match rust_impl {
                    Some(owner) => Qualifier::SelfRecv(owner),
                    None => Qualifier::Bare,
                })
                &&& receiver.kind == "identifier"@ ==> qualifier == Qualifier::Receiver(
                    receiver.text(source),
                )
                &&& receiver.kind == "call_expression"@ ==> qualifier == Qualifier::Chain
                &&& receiver.kind != "self"@ && receiver.kind != "identifier"@ && receiver.kind
                    != "call_expression"@ ==> qualifier == Qualifier::Bare
            }
        },
{
    reveal_strlit("self");
    reveal_strlit("identifier");
    reveal_strlit("call_expression");
    assert("self"@.len() == 4 && "identifier"@.len() == 10 && "call_expression"@.len() == 15);
}

/// The segments of a path are those of what stands under `path`, where anything
/// does, and then the text of what stands under `name`. A single segment is an
/// identifier, the identifier of a type, `crate`, `self` or `super`; any other
/// node has none.
pub proof fn segments_come_from_the_path_and_the_name(node: SyntaxTree, source: Seq<char>)
    ensures
        node.kind == "scoped_identifier"@ && node.fields.contains_key("name"@) ==> {
            &&& path_segments(node, source).len() > 0
            &&& path_segments(node, source).last() == node.fields["name"@].text(source)
            &&& node.fields.contains_key("path"@) ==> path_segments(node, source).drop_last()
                == path_segments(node.fields["path"@], source)
            &&& !node.fields.contains_key("path"@) ==> path_segments(node, source).len() == 1
        },
        node.kind == "scoped_identifier"@ && !node.fields.contains_key("name"@)
            && node.fields.contains_key("path"@) ==> path_segments(node, source) == path_segments(
            node.fields["path"@],
            source,
        ),
        node.kind == "identifier"@ || node.kind == "type_identifier"@ || node.kind == "crate"@
            || node.kind == "self"@ || node.kind == "super"@ ==> path_segments(node, source)
            == seq![node.text(source)],
        path_segments(node, source).len() > 0 ==> node.kind == "scoped_identifier"@ || node.kind
            == "identifier"@ || node.kind == "type_identifier"@ || node.kind == "crate"@
            || node.kind == "self"@ || node.kind == "super"@,
        node.kind == "scoped_identifier"@ && !node.fields.contains_key("name"@)
            && !node.fields.contains_key("path"@) ==> path_segments(node, source).len() == 0,
{
    reveal_strlit("scoped_identifier");
    reveal_strlit("identifier");
    reveal_strlit("type_identifier");
    reveal_strlit("crate");
    reveal_strlit("self");
    reveal_strlit("super");
    assert("scoped_identifier"@.len() == 17 && "identifier"@.len() == 10
        && "type_identifier"@.len() == 15 && "crate"@.len() == 5 && "self"@.len() == 4
        && "super"@.len() == 5);
    if node.kind == "scoped_identifier"@ && node.fields.contains_key("name"@) {
        if node.fields.contains_key("path"@) {
            assert(path_segments(node, source).drop_last() =~= path_segments(
                node.fields["path"@],
                source,
            ));
        }
    }
}

proof fn lemma_reserved_run(path: Seq<Seq<char>>) -> (n: int)
    ensures
        0 <= n <= path.len(),
        without_reserved(path) == path.skip(n),
        forall|i: int| 0 <= i < n ==> reserved(#[trigger] path[i]),
        n < path.len() ==> !reserved(path[n]),
    decreases path.len(),
{
    if path.len() > 0 && reserved(path[0]) {
        let rest = path.drop_first();
        let n = lemma_reserved_run(rest);
        assert(path.skip(n + 1) =~= rest.skip(n));
        assert forall|i: int| 0 <= i < n + 1 implies reserved(#[trigger] path[i]) by {
            if i > 0 {
                assert(reserved(rest[i - 1]));
            }
        }
        n + 1
    } else {
        assert(path.skip(0) =~= path);
        0
    }
}

/// In Rust a path is called by its last segment. The segments before it are its
/// qualifier, but for a run of `crate`, `super` and `self` at their front, which
/// is left out; there is none where nothing is left; and inside an impl block
/// what starts with `Self` is qualified by the type of that block. Gives the
/// length of the run.
pub proof fn a_path_is_called_by_its_last_segment(
    call: SyntaxTree,
    function: SyntaxTree,
    source: Seq<char>,
    rust_impl: Option<Seq<char>>,
) -> (n: int)
    requires
        calls(call, function),
        function.kind == "scoped_identifier"@,
    ensures
        callee(call, source, "rust"@, rust_impl) is None <==> path_segments(function, source).len()
            == 0,
        callee(call, source, "rust"@, rust_impl) matches Some((name, qualifier)) ==> {
            let segments = path_segments(function, source);
            &&& name == segments.last()
            &&& 0 <= n < segments.len()
            &&& forall|i: int|
                0 <= i < n ==> #[trigger] segments[i] == "crate"@ || segments[i] == "super"@
                    || segments[i] == "self"@
            &&& n < segments.len() - 1 ==> segments[n] != "crate"@ && segments[n] != "super"@
                && segments[n] != "self"@
            &&& n == segments.len() - 1 ==> qualifier == Qualifier::Bare
            &&& n < segments.len() - 1 && segments[n] == "Self"@ && rust_impl is Some ==> qualifier
                == Qualifier::SelfType(rust_impl->0)
            &&& n < segments.len() - 1 && !(segments[n] == "Self"@ && rust_impl is Some)
                ==> qualifier == Qualifier::Path(segments.subrange(n, segments.len() - 1))
        },
{
    let segments = path_segments(function, source);
    if segments.len() == 0 {
        0
    } else {
        let path = segments.drop_last();
        let n = lemma_reserved_run(path);
        assert(path.skip(n) =~= segments.subrange(n, segments.len() - 1));
        assert forall|i: int| 0 <= i < n implies #[trigger] segments[i] == "crate"@ || segments[i]
            == "super"@ || segments[i] == "self"@ by {
            assert(reserved(path[i]));
        }
        n
    }
}

/// A view tells all of a qualifier.
pub proof fn a_qualifier_is_told_as_it_is(callee: Option<(String, CalleeQualifier)>)
    ensures
        callee_view(callee) is None <==> callee is None,
        callee matches Some((name, qualifier)) ==> (callee_view(callee) matches Some((n, q)) && n
            == name@ && match qualifier {
            CalleeQualifier::Bare => q == Qualifier::Bare,
            CalleeQualifier::Path(path) => q matches Qualifier::Path(p) && p.len() == path@.len()
                && forall|i: int| 0 <= i < p.len() ==> #[trigger] p[i] == path@[i]@,
            CalleeQualifier::SelfType(t) => q == Qualifier::SelfType(t@),
            CalleeQualifier::SelfRecv(t) => q == Qualifier::SelfRecv(t@),
            CalleeQualifier::Receiver(t) => q == Qualifier::Receiver(t@),
            CalleeQualifier::Chain => q == Qualifier::Chain,
        }),
{
}

/// What is found in a string literal is its text without the letters that
/// prefix it and the quotes around it, and without anything else: these letters,
/// the quotes before it, what is found, and the quotes behind it make up the
/// text. Gives the letters and the quotes.
pub proof fn a_literal_is_found_without_prefix_and_quotes(
    node: SyntaxTree,
    source: Seq<char>,
    depth: nat,
) -> (around: (Seq<char>, Seq<char>, Seq<char>))
    requires
        node.kind == "string"@,
        depth <= 32,
    ensures
        string_in(node, source, depth) matches Some(found) && node.text(source) == around.0
            + around.1 + found + around.2 && (found.len() > 0 ==> found[0] != '"' && found[0]
            != '\'' && found.last() != '"' && found.last() != '\''),
        forall|i: int| 0 <= i < around.0.len() ==> "frbuFRBU"@.contains(#[trigger] around.0[i]),
        forall|i: int|
            0 <= i < around.1.len() ==> #[trigger] around.1[i] == '"' || around.1[i] == '\'',
        forall|i: int|
            0 <= i < around.2.len() ==> #[trigger] around.2[i] == '"' || around.2[i] == '\'',
        around.1 + string_in(node, source, depth)->0 + around.2 == Seq::<char>::empty()
            || !"frbuFRBU"@.contains(
            (around.1 + string_in(node, source, depth)->0 + around.2)[0],
        ),
{
    let text = node.text(source);
    let prefix = CharClass::LiteralPrefix.pred();
    let quote = CharClass::Quote.pred();
    let letters = stripping_the_front_takes_off_a_run(text, prefix);
    let bare = strip_front(text, prefix);
    let quotes = stripping_takes_off_a_run_at_each_end(bare, quote);
    let found = strip(bare, quote);
    assert forall|i: int| 0 <= i < letters.len() implies "frbuFRBU"@.contains(
        #[trigger] letters[i],
    ) by {
        assert(prefix(letters[i]));
        classes_hold_their_characters(letters[i]);
    }
    assert forall|i: int| 0 <= i < quotes.0.len() implies #[trigger] quotes.0[i] == '"'
        || quotes.0[i] == '\'' by {
        assert(quote(quotes.0[i]));
    }
    assert forall|i: int| 0 <= i < quotes.1.len() implies #[trigger] quotes.1[i] == '"'
        || quotes.1[i] == '\'' by {
        assert(quote(quotes.1[i]));
    }
    assert(text =~= letters + quotes.0 + found + quotes.1);
    if bare.len() > 0 {
        classes_hold_their_characters(bare[0]);
        assert(!prefix(bare[0]));
    } else {
        assert(bare =~= Seq::<char>::empty());
    }
    if found.len() > 0 {
        assert(!quote(found[0]) && !quote(found.last()));
    }
    (letters, quotes.0, quotes.1)
}

/// The search for a string literal goes down through the children of a node, one
/// level at a time and no more than thirty-two, and takes what the first child
/// gives that gives anything; nothing where no child gives anything. Gives the
/// place of that child, or the number of children.
pub proof fn the_first_child_with_a_literal_gives_it(
    node: SyntaxTree,
    source: Seq<char>,
    depth: nat,
) -> (at: int)
    requires
        node.kind != "string"@,
    ensures
        depth > 32 ==> string_in(node, source, depth) is None,
        0 <= at <= node.children.len(),
        depth <= 32 ==> {
            &&& forall|i: int|
                0 <= i < at ==> string_in(#[trigger] node.children[i], source, depth + 1) is None
            &&& at < node.children.len() ==> string_in(node.children[at], source, depth + 1) is Some
                && string_in(node, source, depth) == string_in(
                node.children[at],
                source,
                depth + 1,
            )
            &&& at == node.children.len() ==> string_in(node, source, depth) is None
        },
{
    lemma_first_among(node.children, source, depth + 1)
}

proof fn lemma_first_among(nodes: Seq<SyntaxTree>, source: Seq<char>, depth: nat) -> (at: int)
    ensures
        0 <= at <= nodes.len(),
        forall|i: int| 0 <= i < at ==> string_in(#[trigger] nodes[i], source, depth) is None,
        at < nodes.len() ==> string_in(nodes[at], source, depth) is Some && string_among(
            nodes,
            source,
            depth,
        ) == string_in(nodes[at], source, depth),
        at == nodes.len() ==> string_among(nodes, source, depth) is None,
    decreases nodes.len(),
{
    if nodes.len() == 0 || string_in(nodes[0], source, depth) is Some {
        0
    } else {
        let rest = nodes.drop_first();
        let at = lemma_first_among(rest, source, depth);
        assert forall|i: int| 0 <= i < at + 1 implies string_in(
            #[trigger] nodes[i],
            source,
            depth,
        ) is None by {
            if i > 0 {
                assert(nodes[i] == rest[i - 1]);
            }
        }
        at + 1
    }
}

} // verus!
