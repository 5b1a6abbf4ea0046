//! Syntax trees: what the callee rules read of a node, over a tree-sitter node
//! or over a tree that the library holds itself.
use crate::sequence::ascending;
use crate::text::{
    a_slice_holds_the_bytes_of_its_range, a_slice_is_the_text_that_stands_there, byte_slice,
    encoding_goes_part_by_part, same_text, slice_bytes,
};
use vstd::prelude::*;
use vstd::string::*;
use vstd::utf8::*;

verus! {

/// The contents of a syntax node: everything that can be read from it.
pub struct SyntaxTree {
    /// The grammar's name for this kind of node.
    pub kind: Seq<char>,
    /// Where the node's text begins in the source, in bytes.
    pub start: nat,
    /// Where the node's text ends in the source, in bytes.
    pub end: nat,
    /// The children, anonymous ones among them.
    pub children: Seq<SyntaxTree>,
    /// The number of named children.
    pub named_count: nat,
    /// The named children by their index.
    pub named: Map<nat, SyntaxTree>,
    /// The first child for each field name.
    pub fields: Map<Seq<char>, SyntaxTree>,
}

impl SyntaxTree {
    /// The child for a field name.
    pub open spec fn field(self, name: Seq<char>) -> Option<SyntaxTree> {
        if self.fields.contains_key(name) {
            Some(self.fields[name])
        } else {
            None
        }
    }

    /// The named child at an index.
    pub open spec fn named_child(self, i: nat) -> Option<SyntaxTree> {
        if self.named.contains_key(i) {
            Some(self.named[i])
        } else {
            None
        }
    }

    /// The last named child.
    pub open spec fn last_named(self) -> Option<SyntaxTree> {
        if self.named_count > 0 {
            self.named_child((self.named_count - 1) as nat)
        } else {
            None
        }
    }

    /// The text of the node in its source; empty where the source is not the
    /// text that the tree was made from and has no such range.
    pub open spec fn text(self, source: Seq<char>) -> Seq<char> {
        match byte_slice(source, self.start, self.end) {
            Some(text) => text,
            None => Seq::empty(),
        }
    }
}

/// A field by which a grammar names a child.
#[derive(Clone, Copy)]
pub enum Field {
    /// What a call expression calls.
    Function,
    /// The member that a member expression selects.
    Property,
    /// The member that a field or selector expression selects.
    Member,
    /// The last component of a path.
    Name,
    /// What stands before the last component of a path.
    Path,
    /// What a member is selected from.
    Receiver,
}

impl Field {
    /// The name of the field in the grammars.
    pub open spec fn name(self) -> Seq<char> {
        match self {
            Field::Function => "function"@,
            Field::Property => "property"@,
            Field::Member => "field"@,
            Field::Name => "name"@,
            Field::Path => "path"@,
            Field::Receiver => "value"@,
        }
    }

    /// The name of the field in the grammars.
    pub fn label(self) -> (r: &'static str)
        ensures
            r@ == self.name(),
            r@.len() <= 8,
            r.is_ascii(),
            !r@.contains('\0'),
    {
        proof {
            reveal_strlit("function");
            reveal_strlit("property");
            reveal_strlit("field");
            reveal_strlit("name");
            reveal_strlit("path");
            reveal_strlit("value");
        }
        match self {
            Field::Function => "function",
            Field::Property => "property",
            Field::Member => "field",
            Field::Name => "name",
            Field::Path => "path",
            Field::Receiver => "value",
        }
    }
}

/// A node of a syntax tree, as a value that is cheap to copy.
pub trait SyntaxCursor: Copy {
    /// What the node holds.
    spec fn tree(self) -> SyntaxTree;

    /// The grammar's name for this kind of node.
    fn kind(self) -> (r: String)
        ensures
            r@ == self.tree().kind,
    ;

    /// Where the node's text begins, in bytes.
    fn start_byte(self) -> (r: usize)
        ensures
            r == self.tree().start,
    ;

    /// Where the node's text ends, in bytes.
    fn end_byte(self) -> (r: usize)
        ensures
            r == self.tree().end,
    ;

    /// The number of children.
    fn child_count(self) -> (r: usize)
        ensures
            r == self.tree().children.len(),
    ;

    /// The child at an index.
    fn child(self, i: usize) -> (r: Option<Self>)
        ensures
            r is Some <==> i < self.tree().children.len(),
            r matches Some(c) ==> c.tree() == self.tree().children[i as int],
    ;

    /// The first named child.
    fn first_named(self) -> (r: Option<Self>)
        ensures
            r is Some <==> self.tree().named_child(0) is Some,
            r matches Some(c) ==> self.tree().named_child(0) == Some(c.tree()),
    ;

    /// The last named child.
    fn last_named(self) -> (r: Option<Self>)
        ensures
            r is Some <==> self.tree().last_named() is Some,
            r matches Some(c) ==> self.tree().last_named() == Some(c.tree()),
    ;

    /// The first child for a field.
    fn field(self, field: Field) -> (r: Option<Self>)
        ensures
            r is Some <==> self.tree().field(field.name()) is Some,
            r matches Some(c) ==> self.tree().field(field.name()) == Some(c.tree()),
    ;
}

/// The text of a node in its source.
pub fn node_text<C: SyntaxCursor>(node: C, source: &str) -> (r: String)
    ensures
        r@ == node.tree().text(source@),
{
    match slice_bytes(source, node.start_byte(), node.end_byte()) {
        Some(text) => text,
        None => String::new(),
    }
}

/// A syntax node held by the library, with its children.
pub struct SyntaxNode {
    /// The grammar's name for this kind of node.
    pub kind: String,
    /// Where the node's text begins in the source, in bytes.
    pub start_byte: usize,
    /// Where the node's text ends in the source, in bytes.
    pub end_byte: usize,
    /// Whether the grammar names this kind of node.
    pub named: bool,
    /// The field name by which the parent knows the node.
    pub field: Option<String>,
    /// The children in source order.
    pub children: Vec<SyntaxNode>,
}

impl SyntaxNode {
    /// Whether the node stands under a field name.
    pub open spec fn has_label(self, name: Seq<char>) -> bool {
        match self.field {
            Some(f) => f@ == name,
            None => false,
        }
    }

    /// The index of the first of `nodes` that stands under a field name;
    /// the number of nodes where none does.
    pub open spec fn first_labelled(nodes: Seq<SyntaxNode>, name: Seq<char>) -> int
        decreases nodes.len(),
    {
        if nodes.len() == 0 {
            0
        } else if nodes[0].has_label(name) {
            0
        } else {
            1 + SyntaxNode::first_labelled(nodes.drop_first(), name)
        }
    }

    /// The indices of the named ones among the first `n` of `nodes`.
    pub open spec fn named_indices(nodes: Seq<SyntaxNode>, n: nat) -> Seq<int>
        decreases n,
    {
        if n == 0 {
            Seq::empty()
        } else {
            let before = SyntaxNode::named_indices(nodes, (n - 1) as nat);
            if nodes[n - 1].named {
                before.push(n - 1)
            } else {
                before
            }
        }
    }

    /// What the node holds.
    pub open spec fn contents(self) -> SyntaxTree
        decreases self,
    {
        let nodes = self.children@;
        let named = SyntaxNode::named_indices(nodes, nodes.len());
        SyntaxTree {
            kind: self.kind@,
            start: self.start_byte as nat,
            end: self.end_byte as nat,
            children: Seq::new(
                nodes.len(),
                |i: int|
                    if 0 <= i < nodes.len() {
                        nodes[i].contents()
                    } else {
                        arbitrary()
                    },
            ),
            named_count: named.len(),
            named: Map::new(
                |i: nat| i < named.len(),
                |i: nat|
                    if 0 <= named[i as int] < nodes.len() {
                        nodes[named[i as int]].contents()
                    } else {
                        arbitrary()
                    },
            ),
            fields: Map::new(
                |name: Seq<char>| SyntaxNode::first_labelled(nodes, name) < nodes.len(),
                |name: Seq<char>|
                    if 0 <= SyntaxNode::first_labelled(nodes, name) < nodes.len() {
                        nodes[SyntaxNode::first_labelled(nodes, name)].contents()
                    } else {
                        arbitrary()
                    },
            ),
        }
    }
}

proof fn lemma_named_indices(nodes: Seq<SyntaxNode>, n: nat, i: int)
    requires
        n <= nodes.len(),
        0 <= i < SyntaxNode::named_indices(nodes, n).len(),
    ensures
        0 <= SyntaxNode::named_indices(nodes, n)[i] < n,
    decreases n,
{
    if n > 0 && i < SyntaxNode::named_indices(nodes, (n - 1) as nat).len() {
        lemma_named_indices(nodes, (n - 1) as nat, i);
    }
}

proof fn lemma_first_named(nodes: Seq<SyntaxNode>, n: nat, at: int)
    requires
        at < n <= nodes.len(),
        0 <= at,
        nodes[at].named,
        forall|k: int| 0 <= k < at ==> !(#[trigger] nodes[k]).named,
    ensures
        SyntaxNode::named_indices(nodes, n).len() > 0,
        SyntaxNode::named_indices(nodes, n)[0] == at,
    decreases n,
{
    if n == at + 1 {
        lemma_none_named(nodes, at as nat);
    } else {
        lemma_first_named(nodes, (n - 1) as nat, at);
    }
}

proof fn lemma_none_named(nodes: Seq<SyntaxNode>, n: nat)
    requires
        n <= nodes.len(),
        forall|k: int| 0 <= k < n ==> !(#[trigger] nodes[k]).named,
    ensures
        SyntaxNode::named_indices(nodes, n).len() == 0,
    decreases n,
{
    if n > 0 {
        lemma_none_named(nodes, (n - 1) as nat);
    }
}

proof fn lemma_last_named(nodes: Seq<SyntaxNode>, n: nat, at: int)
    requires
        at < n <= nodes.len(),
        0 <= at,
        nodes[at].named,
        forall|k: int| at < k < n ==> !(#[trigger] nodes[k]).named,
    ensures
        SyntaxNode::named_indices(nodes, n).len() > 0,
        SyntaxNode::named_indices(nodes, n).last() == at,
    decreases n,
{
    if n > at + 1 {
        assert(!nodes[n - 1].named);
        lemma_last_named(nodes, (n - 1) as nat, at);
    }
}

proof fn lemma_first_labelled(nodes: Seq<SyntaxNode>, name: Seq<char>, at: int)
    requires
        0 <= at <= nodes.len(),
        at < nodes.len() ==> nodes[at].has_label(name),
        forall|k: int| 0 <= k < at ==> !(#[trigger] nodes[k]).has_label(name),
    ensures
        SyntaxNode::first_labelled(nodes, name) == at,
    decreases nodes.len(),
{
    if at > 0 {
        let rest = nodes.drop_first();
        assert(!nodes[0].has_label(name));
        assert forall|k: int| 0 <= k < at - 1 implies !(#[trigger] rest[k]).has_label(name) by {
            assert(rest[k] == nodes[k + 1]);
        }
        lemma_first_labelled(rest, name, at - 1);
    }
}

impl<'a> SyntaxCursor for &'a SyntaxNode {
    open spec fn tree(self) -> SyntaxTree {
        self.contents()
    }

    fn kind(self) -> (r: String) {
        self.kind.clone()
    }

    fn start_byte(self) -> (r: usize) {
        self.start_byte
    }

    fn end_byte(self) -> (r: usize) {
        self.end_byte
    }

    fn child_count(self) -> (r: usize) {
        self.children.len()
    }

    fn child(self, i: usize) -> (r: Option<Self>) {
        if i < self.children.len() {
            Some(&self.children[i])
        } else {
            None
        }
    }

    fn first_named(self) -> (r: Option<Self>) {
        let ghost nodes = self.children@;
        let mut i: usize = 0;
        while i < self.children.len()
            invariant
                i <= nodes.len(),
                nodes == self.children@,
                forall|k: int| 0 <= k < i ==> !(#[trigger] nodes[k]).named,
            decreases nodes.len() - i,
        {
            if self.children[i].named {
                proof {
                    lemma_first_named(nodes, nodes.len(), i as int);
                }
                return Some(&self.children[i]);
            }
            i = i + 1;
        }
        proof {
            lemma_none_named(nodes, nodes.len());
        }
        None
    }

    fn last_named(self) -> (r: Option<Self>) {
        let ghost nodes = self.children@;
        let mut i: usize = self.children.len();
        while i > 0
            invariant
                i <= nodes.len(),
                nodes == self.children@,
                forall|k: int| i <= k < nodes.len() ==> !(#[trigger] nodes[k]).named,
            decreases i,
        {
            i = i - 1;
            if self.children[i].named {
                proof {
                    lemma_last_named(nodes, nodes.len(), i as int);
                }
                return Some(&self.children[i]);
            }
        }
        proof {
            lemma_none_named(nodes, nodes.len());
        }
        None
    }

    fn field(self, field: Field) -> (r: Option<Self>) {
        let name: &'static str = field.label();
        let ghost nodes = self.children@;
        let mut i: usize = 0;
        while i < self.children.len()
            invariant
                i <= nodes.len(),
                nodes == self.children@,
                name@ == field.name(),
                forall|k: int| 0 <= k < i ==> !(#[trigger] nodes[k]).has_label(name@),
            decreases nodes.len() - i,
        {
            let labelled: bool = match &self.children[i].field {
                Some(f) => same_text(f.as_str(), name),
                None => false,
            };
            if labelled {
                proof {
                    lemma_first_labelled(nodes, name@, i as int);
                }
                return Some(&self.children[i]);
            }
            i = i + 1;
        }
        proof {
            lemma_first_labelled(nodes, name@, nodes.len() as int);
        }
        None
    }
}

/// A node of a tree-sitter tree.
#[verifier::external_type_specification]
#[verifier::external_body]
pub struct ExNode<'tree>(tree_sitter::Node<'tree>);

/// What a tree-sitter node holds: its kind, its byte range, its children, and
/// its named children and field children as the node hands them out.
pub uninterp spec fn node_tree(node: tree_sitter::Node<'_>) -> SyntaxTree;

/// `tree_sitter::Node::kind`: the grammar's name for this kind of node, which
/// a grammar writes in UTF-8.
#[verifier::external_body]
fn ts_kind(node: &tree_sitter::Node<'_>) -> (r: String)
    ensures
        r@ == node_tree(*node).kind,
{
    node.kind().to_string()
}

/// `tree_sitter::Node::start_byte`: where the node begins.
#[verifier::external_body]
fn ts_start_byte(node: &tree_sitter::Node<'_>) -> (r: usize)
    ensures
        r == node_tree(*node).start,
{
    node.start_byte()
}

/// `tree_sitter::Node::end_byte`: where the node ends.
#[verifier::external_body]
fn ts_end_byte(node: &tree_sitter::Node<'_>) -> (r: usize)
    ensures
        r == node_tree(*node).end,
{
    node.end_byte()
}

/// `tree_sitter::Node::child_count`: the number of children, which the node
/// keeps in 32 bits.
#[verifier::external_body]
fn ts_child_count(node: &tree_sitter::Node<'_>) -> (r: usize)
    ensures
        r == node_tree(*node).children.len(),
        r <= u32::MAX,
{
    node.child_count()
}

/// `tree_sitter::Node::child`: the child at an index, which the call cuts to
/// 32 bits.
#[verifier::external_body]
fn ts_child<'t>(node: &tree_sitter::Node<'t>, i: usize) -> (r: Option<tree_sitter::Node<'t>>)
    requires
        i <= u32::MAX,
    ensures
        r is Some <==> i < node_tree(*node).children.len(),
        r matches Some(c) ==> node_tree(c) == node_tree(*node).children[i as int],
{
    node.child(i)
}

/// `tree_sitter::Node::named_child_count`: the number of named children, which
/// the node keeps in 32 bits.
#[verifier::external_body]
fn ts_named_child_count(node: &tree_sitter::Node<'_>) -> (r: usize)
    ensures
        r == node_tree(*node).named_count,
        r <= u32::MAX,
{
    node.named_child_count()
}

/// `tree_sitter::Node::named_child`: the named child at an index, which the
/// call cuts to 32 bits.
#[verifier::external_body]
fn ts_named_child<'t>(node: &tree_sitter::Node<'t>, i: usize) -> (r: Option<
    tree_sitter::Node<'t>,
>)
    requires
        i <= u32::MAX,
    ensures
        r is Some <==> node_tree(*node).named_child(i as nat) is Some,
        r matches Some(c) ==> node_tree(*node).named_child(i as nat) == Some(node_tree(c)),
{
    node.named_child(i)
}

/// `tree_sitter::Node::child_by_field_name`: the first child with a field
/// name, whose length in bytes the call cuts to 32 bits and which the grammar's
/// tables end with a NUL.
#[verifier::external_body]
fn ts_field<'t>(node: &tree_sitter::Node<'t>, name: &str) -> (r: Option<tree_sitter::Node<'t>>)
    requires
        name.spec_bytes().len() <= u32::MAX,
        !name@.contains('\0'),
    ensures
        r is Some <==> node_tree(*node).field(name@) is Some,
        r matches Some(c) ==> node_tree(*node).field(name@) == Some(node_tree(c)),
{
    node.child_by_field_name(name)
}

impl<'t> SyntaxCursor for tree_sitter::Node<'t> {
    open spec fn tree(self) -> SyntaxTree {
        node_tree(self)
    }

    fn kind(self) -> (r: String) {
        ts_kind(&self)
    }

    fn start_byte(self) -> (r: usize) {
        ts_start_byte(&self)
    }

    fn end_byte(self) -> (r: usize) {
        ts_end_byte(&self)
    }

    fn child_count(self) -> (r: usize) {
        ts_child_count(&self)
    }

    fn child(self, i: usize) -> (r: Option<Self>) {
        if i < ts_child_count(&self) {
            ts_child(&self, i)
        } else {
            None
        }
    }

    fn first_named(self) -> (r: Option<Self>) {
        ts_named_child(&self, 0)
    }

    fn last_named(self) -> (r: Option<Self>) {
        let count: usize = ts_named_child_count(&self);
        if count > 0 {
            ts_named_child(&self, count - 1)
        } else {
            None
        }
    }

    fn field(self, field: Field) -> (r: Option<Self>) {
        let name: &'static str = field.label();
        proof {
            is_ascii_spec_bytes(name);
        }
        ts_field(&self, name)
    }
}

/// The text of a node is what stands in the source at its bytes: the text
/// between two others is the text of the node with its range. There is none
/// where the source has no such range.
pub proof fn a_node_has_the_text_of_its_range(
    node: SyntaxTree,
    before: Seq<char>,
    part: Seq<char>,
    behind: Seq<char>,
)
    ensures
        node.start == encode_utf8(before).len() && node.end == encode_utf8(before + part).len()
            ==> node.text(before + part + behind) == part,
        node.start > node.end || node.end > encode_utf8(before + part + behind).len()
            ==> node.text(before + part + behind) == Seq::<char>::empty(),
{
    encoding_goes_part_by_part(before, part);
    a_slice_is_the_text_that_stands_there(before, part, behind);
    a_slice_holds_the_bytes_of_its_range(before + part + behind, node.start, node.end);
}

/// A child is found by its field or by its place among the named children
/// exactly where there is one; the last named child stands at the last place.
pub proof fn a_child_is_found_where_there_is_one(node: SyntaxTree, name: Seq<char>, i: nat)
    ensures
        node.field(name) is Some <==> node.fields.contains_key(name),
        node.field(name) matches Some(child) ==> child == node.fields[name],
        node.named_child(i) is Some <==> node.named.contains_key(i),
        node.named_child(i) matches Some(child) ==> child == node.named[i],
        node.named_count == i + 1 ==> node.last_named() == node.named_child(i),
        node.named_count == 0 ==> node.last_named() is None,
{
}

/// Each field has its name in the grammars.
pub proof fn fields_have_their_names()
    ensures
        Field::Function.name() == "function"@,
        Field::Property.name() == "property"@,
        Field::Member.name() == "field"@,
        Field::Name.name() == "name"@,
        Field::Path.name() == "path"@,
        Field::Receiver.name() == "value"@,
{
}

proof fn lemma_labelled_place(nodes: Seq<SyntaxNode>, name: Seq<char>)
    ensures
        0 <= SyntaxNode::first_labelled(nodes, name) <= nodes.len(),
        forall|i: int|
            0 <= i < SyntaxNode::first_labelled(nodes, name) ==> !(#[trigger] nodes[i]).has_label(
                name,
            ),
        SyntaxNode::first_labelled(nodes, name) < nodes.len()
            ==> nodes[SyntaxNode::first_labelled(nodes, name)].has_label(name),
    decreases nodes.len(),
{
    if nodes.len() > 0 && !nodes[0].has_label(name) {
        let rest = nodes.drop_first();
        lemma_labelled_place(rest, name);
        let n = SyntaxNode::first_labelled(nodes, name);
        assert forall|i: int| 0 <= i < n implies !(#[trigger] nodes[i]).has_label(name) by {
            if i > 0 {
                assert(!rest[i - 1].has_label(name));
            }
        }
    }
}

/// Under a field name stands the first child that has it as its label, and
/// nothing where no child has it. Gives the place of that child, or the number
/// of children.
pub proof fn a_field_is_the_first_child_with_its_label(node: SyntaxNode, name: Seq<char>) -> (at:
    int)
    ensures
        0 <= at <= node.children@.len(),
        forall|i: int|
            0 <= i < at ==> !((#[trigger] node.children@[i]).field matches Some(label) && label@
                == name),
        at < node.children@.len() ==> (node.children@[at].field matches Some(label) && label@
            == name),
        node.contents().fields.contains_key(name) <==> at < node.children@.len(),
        at < node.children@.len() ==> node.contents().fields[name] == node.children@[at].contents(),
{
    lemma_labelled_place(node.children@, name);
    let at = SyntaxNode::first_labelled(node.children@, name);
    assert forall|i: int| 0 <= i < at implies !((#[trigger] node.children@[i]).field
        matches Some(label) && label@ == name) by {
        assert(!node.children@[i].has_label(name));
    }
    at
}

proof fn lemma_named_indices_ascend(nodes: Seq<SyntaxNode>, n: nat)
    requires
        n <= nodes.len(),
    ensures
        ascending(SyntaxNode::named_indices(nodes, n), n as int),
        forall|k: int|
            0 <= k < SyntaxNode::named_indices(nodes, n).len() ==> nodes[#[trigger] SyntaxNode::named_indices(
                nodes,
                n,
            )[k]].named,
        forall|i: int|
            0 <= i < n && (#[trigger] nodes[i]).named ==> SyntaxNode::named_indices(
                nodes,
                n,
            ).contains(i),
    decreases n,
{
    if n > 0 {
        let before = SyntaxNode::named_indices(nodes, (n - 1) as nat);
        let at = SyntaxNode::named_indices(nodes, n);
        lemma_named_indices_ascend(nodes, (n - 1) as nat);
        assert forall|i: int| 0 <= i < n && (#[trigger] nodes[i]).named implies at.contains(i) by {
            if i < n - 1 {
                let k = choose|k: int| 0 <= k < before.len() && before[k] == i;
                assert(at[k] == i);
            } else {
                assert(at[before.len() as int] == i);
            }
        }
        assert forall|k: int| 0 <= k < at.len() implies nodes[#[trigger] at[k]].named by {
            if k < before.len() {
                assert(nodes[before[k]].named);
            }
        }
    }
}

/// A tree that the library holds is read as it stands: its kind, its range, its
/// children in order, and its named children in order, these and no others.
/// Gives the places of the named children.
pub proof fn a_held_tree_is_read_as_it_stands(node: SyntaxNode) -> (at: Seq<int>)
    ensures
        node.contents().kind == node.kind@,
        node.contents().start == node.start_byte,
        node.contents().end == node.end_byte,
        node.contents().children.len() == node.children@.len(),
        forall|i: int|
            0 <= i < node.children@.len() ==> #[trigger] node.contents().children[i]
                == node.children@[i].contents(),
        node.contents().named_count == at.len(),
        ascending(at, node.children@.len() as int),
        forall|k: int| 0 <= k < at.len() ==> node.children@[#[trigger] at[k]].named,
        forall|i: int|
            0 <= i < node.children@.len() && (#[trigger] node.children@[i]).named ==> at.contains(i),
        forall|k: nat|
            k < at.len() <==> #[trigger] node.contents().named.contains_key(k),
        forall|k: int|
            0 <= k < at.len() ==> node.contents().named[k as nat]
                == node.children@[#[trigger] at[k]].contents(),
{
    let nodes = node.children@;
    lemma_named_indices_ascend(nodes, nodes.len());
    SyntaxNode::named_indices(nodes, nodes.len())
}

} // verus!
