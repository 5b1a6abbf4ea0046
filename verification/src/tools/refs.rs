//! `find_references`: the places that use a symbol, by the kind of use.
use crate::decimal::{decimal, i64_text, numeral, usize_text};
use crate::domain::{REL_CALLS, REL_IMPLEMENTS, REL_IMPORTS, REL_INHERITS};
use crate::sequence::{a_filter_keeps_what_passes, ascending};
use crate::text::{copy_opt, opt_text, same_text};
use crate::tools::args::{
    flag_arg_or, flag_or, i64_arg, json_fields, text_arg, text_field, whole_field, Scalar,
};
use vstd::prelude::*;

verus! {

/// What was asked for.
pub struct ReferencesRequest {
    /// The node whose references are wanted; goes before a name.
    pub node_id: Option<i64>,
    /// The name of the symbol whose references are wanted.
    pub symbol_name: Option<String>,
    /// The file that holds the symbol.
    pub file_path: Option<String>,
    /// The kind of use.
    pub relation: String,
    /// Whether the references leave out the types of their nodes.
    pub compact: bool,
    /// Whether uses in tests are wanted.
    pub include_tests: bool,
}

/// Whether a request says what the arguments ask for.
pub open spec fn asks(request: ReferencesRequest, fields: Map<Seq<char>, Scalar>) -> bool {
    &&& match request.node_id {
        Some(n) => whole_field(fields, "node_id"@, i64::MIN as int, i64::MAX as int) == Some(
            n as int,
        ),
        None => whole_field(fields, "node_id"@, i64::MIN as int, i64::MAX as int) is None,
    }
    &&& opt_text(request.symbol_name) == text_field(fields, "symbol_name"@)
    &&& opt_text(request.file_path) == text_field(fields, "file_path"@)
    &&& request.relation@ == (match text_field(fields, "relation"@) {
        Some(relation) => relation,
        None => "all"@,
    })
    &&& request.compact == flag_or(fields, "compact"@, false)
    &&& request.include_tests == flag_or(fields, "include_tests"@, true)
}

/// Reads the arguments.
pub fn parse_find_references(args: &serde_json::Value) -> (r: ReferencesRequest)
    ensures
        asks(r, json_fields(*args)),
{
    let relation = match text_arg(args, "relation") {
        Some(relation) => relation,
        None => "all".to_owned(),
    };
    ReferencesRequest {
        node_id: i64_arg(args, "node_id"),
        symbol_name: text_arg(args, "symbol_name"),
        file_path: text_arg(args, "file_path"),
        relation,
        compact: flag_arg_or(args, "compact", false),
        include_tests: flag_arg_or(args, "include_tests", true),
    }
}

/// The relation that a kind of use stands for; `None` stands for all.
pub open spec fn relation_filter(relation: Seq<char>) -> Option<Seq<char>> {
    if relation == "calls"@ {
        Some(REL_CALLS@)
    } else if relation == "imports"@ {
        Some(REL_IMPORTS@)
    } else if relation == "inherits"@ {
        Some(REL_INHERITS@)
    } else if relation == "implements"@ {
        Some(REL_IMPLEMENTS@)
    } else {
        None
    }
}

/// The relation that a kind of use stands for; `None` stands for all.
pub fn filter_of(relation: &str) -> (r: Option<String>)
    ensures
        opt_text(r) == relation_filter(relation@),
{
    if same_text(relation, "calls") {
        Some(REL_CALLS.to_owned())
    } else if same_text(relation, "imports") {
        Some(REL_IMPORTS.to_owned())
    } else if same_text(relation, "inherits") {
        Some(REL_INHERITS.to_owned())
    } else if same_text(relation, "implements") {
        Some(REL_IMPLEMENTS.to_owned())
    } else {
        None
    }
}

/// A use of a symbol: the node that uses it, and how.
pub struct Reference {
    pub name: String,
    pub node_type: String,
    pub file_path: String,
    pub start_line: i64,
    pub relation: String,
    pub node_id: i64,
    /// Whether the node that uses the symbol is a test.
    pub is_test: bool,
}

/// A use of a symbol, as a reply shows it.
pub struct ReferenceItem {
    pub name: String,
    /// Left out of a compact reply.
    pub node_type: Option<String>,
    pub file_path: String,
    pub start_line: i64,
    pub relation: String,
    pub node_id: i64,
}

/// Whether two uses are shown as one: the same name in the same file by the
/// same relation.
pub open spec fn same_use(a: Reference, b: Reference) -> bool {
    a.name@ == b.name@ && a.file_path@ == b.file_path@ && a.relation@ == b.relation@
}

/// Whether a use is among `uses`.
pub open spec fn among(uses: Seq<Reference>, use_site: Reference) -> bool {
    exists|k: int| 0 <= k < uses.len() && same_use(#[trigger] uses[k], use_site)
}

/// The uses without those that repeat an earlier one, in order.
pub open spec fn distinct(uses: Seq<Reference>) -> Seq<Reference>
    decreases uses.len(),
{
    if uses.len() == 0 {
        Seq::empty()
    } else {
        let before = distinct(uses.drop_last());
        if among(before, uses.last()) {
            before
        } else {
            before.push(uses.last())
        }
    }
}

/// The uses that a reply may show: all of them, or those that are no tests.
pub open spec fn visible(uses: Seq<Reference>, include_tests: bool) -> Seq<Reference> {
    uses.filter(|r: Reference| include_tests || !r.is_test)
}

fn is_among(uses: &Vec<Reference>, use_site: &Reference) -> (r: bool)
    ensures
        r == among(uses@, *use_site),
{
    let mut k: usize = 0;
    while k < uses.len()
        invariant
            k <= uses@.len(),
            forall|j: int| 0 <= j < k ==> !same_use(#[trigger] uses@[j], *use_site),
        decreases uses@.len() - k,
    {
        if same_text(uses[k].name.as_str(), use_site.name.as_str()) && same_text(
            uses[k].file_path.as_str(),
            use_site.file_path.as_str(),
        ) && same_text(uses[k].relation.as_str(), use_site.relation.as_str()) {
            assert(same_use(uses@[k as int], *use_site));
            return true;
        }
        k = k + 1;
    }
    false
}

/// The uses to show, and the number of tests that are not shown.
pub fn uses_to_show(uses: Vec<Reference>, include_tests: bool) -> (r: (Vec<Reference>, usize))
    ensures
        r.0@ == distinct(visible(uses@, include_tests)),
        r.1 == uses@.len() - visible(uses@, include_tests).len(),
{
    let ghost all = uses@;
    let total: usize = uses.len();
    let mut shown: Vec<Reference> = Vec::new();
    let mut hidden: usize = 0;
    proof {
        reveal(Seq::filter);
        assert(all.take(0) =~= Seq::empty());
    }
    for use_site in it: uses
        invariant
            it.seq() == all,
            all.len() == total,
            shown@ == distinct(visible(all.take(it.index() as int), include_tests)),
            hidden == it.index() - visible(all.take(it.index() as int), include_tests).len(),
            hidden <= it.index(),
    {
        proof {
            reveal(Seq::filter);
            let seen = all.take(it.index() as int);
            let more = all.take(it.index() + 1);
            assert(more.drop_last() =~= seen);
            assert(more.last() == use_site);
            let v = visible(seen, include_tests);
            if include_tests || !use_site.is_test {
                assert(visible(more, include_tests) =~= v.push(use_site));
                assert(v.push(use_site).drop_last() =~= v);
            } else {
                assert(visible(more, include_tests) =~= v);
            }
        }
        if !include_tests && use_site.is_test {
            hidden = hidden + 1;
        } else if !is_among(&shown, &use_site) {
            shown.push(use_site);
        }
    }
    assert(all.take(all.len() as int) =~= all);
    (shown, hidden)
}

/// A use, as a reply shows it.
pub open spec fn item_of(use_site: Reference, compact: bool) -> ReferenceItem {
    ReferenceItem {
        name: use_site.name,
        node_type: if compact {
            None
        } else {
            Some(use_site.node_type)
        },
        file_path: use_site.file_path,
        start_line: use_site.start_line,
        relation: use_site.relation,
        node_id: use_site.node_id,
    }
}

/// Uses, as a reply shows them.
pub open spec fn items_of(uses: Seq<Reference>, compact: bool) -> Seq<ReferenceItem> {
    uses.map_values(|r: Reference| item_of(r, compact))
}

/// Uses, as a reply shows them.
pub fn reference_items(uses: Vec<Reference>, compact: bool) -> (r: Vec<ReferenceItem>)
    ensures
        r@ == items_of(uses@, compact),
{
    let ghost all = uses@;
    let mut items: Vec<ReferenceItem> = Vec::new();
    for use_site in it: uses
        invariant
            it.seq() == all,
            items@ == items_of(all.take(it.index() as int), compact),
    {
        proof {
            let seen = all.take(it.index() as int);
            assert(all.take(it.index() + 1) =~= seen.push(use_site));
            assert(items_of(seen.push(use_site), compact) =~= items_of(seen, compact).push(
                item_of(use_site, compact),
            ));
        }
        let node_type = if compact {
            None
        } else {
            Some(use_site.node_type)
        };
        items.push(
            ReferenceItem {
                name: use_site.name,
                node_type,
                file_path: use_site.file_path,
                start_line: use_site.start_line,
                relation: use_site.relation,
                node_id: use_site.node_id,
            },
        );
    }
    assert(all.take(all.len() as int) =~= all);
    items
}

/// The number of uses by one relation.
pub struct RelationCount {
    pub relation: String,
    pub count: usize,
}

/// The number of `uses` by a relation.
pub open spec fn uses_by(uses: Seq<Reference>, relation: Seq<char>) -> nat
    decreases uses.len(),
{
    if uses.len() == 0 {
        0
    } else {
        uses_by(uses.drop_last(), relation) + (if uses.last().relation@ == relation {
            1nat
        } else {
            0nat
        })
    }
}

/// Whether `counts` gives, once for each relation that occurs among `uses` and
/// for no other, the number of its uses.
pub open spec fn counts_uses(counts: Seq<RelationCount>, uses: Seq<Reference>) -> bool {
    &&& forall|a: int, b: int|
        0 <= a < b < counts.len() ==> (#[trigger] counts[a]).relation@ != (
        #[trigger] counts[b]).relation@
    &&& forall|k: int|
        0 <= k < counts.len() ==> (#[trigger] counts[k]).count == uses_by(
            uses,
            counts[k].relation@,
        ) && counts[k].count > 0
    &&& forall|i: int|
        0 <= i < uses.len() ==> exists|k: int|
            0 <= k < counts.len() && (#[trigger] counts[k]).relation@ == (
            #[trigger] uses[i]).relation@
}

proof fn lemma_uses_by(uses: Seq<Reference>, relation: Seq<char>)
    ensures
        uses_by(uses, relation) <= uses.len(),
        (forall|i: int| 0 <= i < uses.len() ==> (#[trigger] uses[i]).relation@ != relation)
            ==> uses_by(uses, relation) == 0,
    decreases uses.len(),
{
    if uses.len() > 0 {
        let rest = uses.drop_last();
        lemma_uses_by(rest, relation);
        if forall|i: int| 0 <= i < uses.len() ==> (#[trigger] uses[i]).relation@ != relation {
            assert forall|i: int| 0 <= i < rest.len() implies (#[trigger] rest[i]).relation@
                != relation by {
                assert(rest[i] == uses[i]);
            }
        }
    }
}

/// The number of uses by each relation.
pub fn count_relations(uses: &Vec<Reference>) -> (r: Vec<RelationCount>)
    ensures
        counts_uses(r@, uses@),
{
    let mut counts: Vec<RelationCount> = Vec::new();
    let mut i: usize = 0;
    while i < uses.len()
        invariant
            i <= uses@.len(),
            counts_uses(counts@, uses@.take(i as int)),
        decreases uses@.len() - i,
    {
        let ghost seen = uses@.take(i as int);
        let ghost more = uses@.take(i + 1);
        let ghost before = counts@;
        let ghost relation = uses@[i as int].relation@;
        proof {
            assert(more.drop_last() =~= seen);
            assert(more.last() == uses@[i as int]);
            lemma_uses_by(seen, relation);
        }
        let mut k: usize = 0;
        while k < counts.len() && !same_text(
            counts[k].relation.as_str(),
            uses[i].relation.as_str(),
        )
            invariant
                i < uses@.len(),
                k <= counts@.len(),
                counts@ == before,
                relation == uses@[i as int].relation@,
                forall|j: int| 0 <= j < k ==> (#[trigger] counts@[j]).relation@ != relation,
            decreases counts@.len() - k,
        {
            k = k + 1;
        }
        if k < counts.len() {
            let count: usize = counts[k].count;
            let name = counts[k].relation.clone();
            assert(count == uses_by(seen, relation));
            counts.set(k, RelationCount { relation: name, count: count + 1 });
            assert forall|j: int| 0 <= j < counts@.len() implies (#[trigger] counts@[j]).count
                == uses_by(more, counts@[j].relation@) && counts@[j].count > 0 by {
                if j != k {
                    assert(counts@[j] == before[j]);
                    assert(before[j].relation@ != before[k as int].relation@);
                }
            }
            assert forall|a: int, b: int| 0 <= a < b < counts@.len() implies (
            #[trigger] counts@[a]).relation@ != (#[trigger] counts@[b]).relation@ by {
                assert(before[a].relation@ != before[b].relation@);
            }
            assert forall|p: int| 0 <= p < more.len() implies exists|j: int|
                0 <= j < counts@.len() && (#[trigger] counts@[j]).relation@ == (
                #[trigger] more[p]).relation@ by {
                if p < i {
                    assert(more[p] == seen[p]);
                    let j = choose|j: int|
                        0 <= j < before.len() && (#[trigger] before[j]).relation@
                            == seen[p].relation@;
                    assert(counts@[j].relation@ == more[p].relation@);
                } else {
                    assert(counts@[k as int].relation@ == more[p].relation@);
                }
            }
        } else {
            proof {
                assert forall|p: int| 0 <= p < seen.len() implies (#[trigger] seen[p]).relation@
                    != relation by {
                    let j = choose|j: int|
                        0 <= j < before.len() && (#[trigger] before[j]).relation@
                            == seen[p].relation@;
                    assert(before[j].relation@ != relation);
                }
            }
            counts.push(RelationCount { relation: uses[i].relation.clone(), count: 1 });
            assert forall|j: int| 0 <= j < counts@.len() implies (#[trigger] counts@[j]).count
                == uses_by(more, counts@[j].relation@) && counts@[j].count > 0 by {
                if j < before.len() {
                    assert(counts@[j] == before[j]);
                }
            }
            assert forall|p: int| 0 <= p < more.len() implies exists|j: int|
                0 <= j < counts@.len() && (#[trigger] counts@[j]).relation@ == (
                #[trigger] more[p]).relation@ by {
                if p < i {
                    assert(more[p] == seen[p]);
                    let j = choose|j: int|
                        0 <= j < before.len() && (#[trigger] before[j]).relation@
                            == seen[p].relation@;
                    assert(counts@[j].relation@ == more[p].relation@);
                } else {
                    assert(counts@[before.len() as int].relation@ == more[p].relation@);
                }
            }
        }
        i = i + 1;
    }
    assert(uses@.take(uses@.len() as int) =~= uses@);
    counts
}

/// The answer where a request names neither a symbol nor a node.
pub const SYMBOL_REQUIRED: &'static str = "symbol_name or node_id is required";

/// What a reply says of a symbol that is a type.
pub const TYPE_DEFINITION_NOTE: &'static str = "Symbol is a type definition (struct/enum/trait/class). References list captures explicit imports/inherits/implements and struct-literal instantiation, but NOT method-qualified calls (e.g. `Type::method()`), field access, or type annotations. For a rename audit, also query find_references on each method of this type (see module_overview for method list) and grep for the bare name.";

/// Whether nodes of a type are type definitions.
pub open spec fn type_kind(node_type: Seq<char>) -> bool {
    ||| node_type == "struct"@
    ||| node_type == "enum"@
    ||| node_type == "trait"@
    ||| node_type == "type"@
    ||| node_type == "interface"@
    ||| node_type == "class"@
}

/// Whether nodes of a type are type definitions.
pub fn is_type_kind(node_type: &str) -> (r: bool)
    ensures
        r == type_kind(node_type@),
{
    same_text(node_type, "struct") || same_text(node_type, "enum") || same_text(node_type, "trait")
        || same_text(node_type, "type") || same_text(node_type, "interface") || same_text(
        node_type,
        "class",
    )
}

/// The answer where no node has an id.
pub open spec fn node_missing(id: int) -> Seq<char> {
    "node_id "@ + decimal(id) + " not found in index"@
}

/// The answer where a file does not hold a symbol.
pub open spec fn not_in_file(symbol: Seq<char>, file_path: Seq<char>) -> Seq<char> {
    "Symbol '"@ + symbol + "' not found in file '"@ + file_path + "'."@
}

/// The answer where a symbol has no definition outside tests.
pub open spec fn not_in_index(symbol: Seq<char>) -> Seq<char> {
    "Symbol '"@ + symbol + "' not found in index."@
}

/// The answer where a name resolves to nothing.
pub open spec fn not_resolved(symbol: Seq<char>) -> Seq<char> {
    "Symbol '"@ + symbol
        + "' not found in index. Use semantic_code_search to find the correct symbol name."@
}

/// The answer where a file holds several definitions of a symbol.
pub open spec fn ambiguous_in_file(
    symbol: Seq<char>,
    file_path: Seq<char>,
    definitions: nat,
) -> Seq<char> {
    "Ambiguous symbol '"@ + symbol + "' in '"@ + file_path + "': "@ + numeral(definitions)
        + " definitions in the same file. Pass node_id to select one."@
}

/// The answer where a name resolves to several symbols.
pub open spec fn ambiguous_name(symbol: Seq<char>, matching: nat) -> Seq<char> {
    "Ambiguous symbol '"@ + symbol + "': "@ + numeral(matching)
        + " matches. Specify file_path or node_id to disambiguate."@
}

fn node_missing_text(id: i64) -> (r: String)
    ensures
        r@ == node_missing(id as int),
{
    let mut text = "node_id ".to_owned();
    let number = i64_text(id);
    text.append(number.as_str());
    text.append(" not found in index");
    text
}

fn not_in_file_text(symbol: &str, file_path: &str) -> (r: String)
    ensures
        r@ == not_in_file(symbol@, file_path@),
{
    let mut text = "Symbol '".to_owned();
    text.append(symbol);
    text.append("' not found in file '");
    text.append(file_path);
    text.append("'.");
    text
}

fn not_in_index_text(symbol: &str) -> (r: String)
    ensures
        r@ == not_in_index(symbol@),
{
    let mut text = "Symbol '".to_owned();
    text.append(symbol);
    text.append("' not found in index.");
    text
}

fn not_resolved_text(symbol: &str) -> (r: String)
    ensures
        r@ == not_resolved(symbol@),
{
    let mut text = "Symbol '".to_owned();
    text.append(symbol);
    text.append(
        "' not found in index. Use semantic_code_search to find the correct symbol name.",
    );
    text
}

fn ambiguous_in_file_text(symbol: &str, file_path: &str, definitions: usize) -> (r: String)
    ensures
        r@ == ambiguous_in_file(symbol@, file_path@, definitions as nat),
{
    let mut text = "Ambiguous symbol '".to_owned();
    text.append(symbol);
    text.append("' in '");
    text.append(file_path);
    text.append("': ");
    let count = usize_text(definitions);
    text.append(count.as_str());
    text.append(" definitions in the same file. Pass node_id to select one.");
    text
}

fn ambiguous_name_text(symbol: &str, matching: usize) -> (r: String)
    ensures
        r@ == ambiguous_name(symbol@, matching as nat),
{
    let mut text = "Ambiguous symbol '".to_owned();
    text.append(symbol);
    text.append("': ");
    let count = usize_text(matching);
    text.append(count.as_str());
    text.append(" matches. Specify file_path or node_id to disambiguate.");
    text
}

/// A node, as far as a search by id reads it.
pub struct FoundNode {
    pub name: String,
    pub node_type: String,
}

/// A node of a file.
pub struct FileNode {
    pub id: i64,
    pub name: String,
    pub node_type: String,
    pub start_line: i64,
}

/// A node with a name that was looked for.
pub struct NamedNode {
    pub id: i64,
    /// Whether the node is a test.
    pub is_test: bool,
}

/// A definition to choose from.
pub struct Definition {
    pub name: String,
    pub file_path: String,
    pub node_type: String,
    pub node_id: i64,
    pub start_line: i64,
}

/// What a name resolves to.
pub enum FuzzyResolution {
    /// One name of the index.
    Unique(String),
    /// Several symbols, each described by a value.
    Ambiguous(Vec<serde_json::Value>),
    /// Nothing.
    NotFound,
}

/// What to choose from where a symbol is ambiguous.
pub enum Suggestions {
    Definitions(Vec<Definition>),
    Candidates(Vec<serde_json::Value>),
}

/// The reply to a search for references; what is `None` is left out of it.
pub enum ReferencesReply {
    Ambiguous { symbol: String, error: String, suggestions: Suggestions },
    Found {
        symbol: String,
        total_references: usize,
        by_relation: Vec<RelationCount>,
        references: Vec<ReferenceItem>,
        test_references_filtered: Option<usize>,
        type_definition_note: Option<String>,
    },
}

/// What a search for references waits for.
pub enum ReferencesStage {
    /// That the index is up to date.
    Freshening,
    /// The node with an id.
    ById(i64),
    /// The nodes of the file that holds a symbol.
    InFile { symbol: String, file_path: String },
    /// What a name resolves to.
    Resolving { symbol: String },
    /// The nodes with the name to which a name resolved.
    Named { symbol: String, resolved: String },
    /// The uses of the target at `done`, those of the earlier ones being
    /// `uses`.
    Collecting { targets: Vec<i64>, symbol: String, done: usize, uses: Vec<Reference> },
    /// The type of the target at `done`; `type_definition` tells whether an
    /// earlier one is a type definition.
    Typing {
        targets: Vec<i64>,
        symbol: String,
        done: usize,
        uses: Vec<Reference>,
        type_definition: bool,
    },
    /// Nothing more.
    Done,
}

/// A search for references under way.
pub struct ReferencesSearch {
    pub request: ReferencesRequest,
    pub stage: ReferencesStage,
}

/// What a search for references asks its caller to do next.
pub enum ReferencesAction {
    /// Bring the index up to date, with a file in particular.
    EnsureFresh { file: Option<String> },
    /// Look up the node with an id.
    GetNode { id: i64 },
    /// Look up the nodes of a file.
    GetFileNodes { file_path: String },
    /// Resolve a name.
    Resolve { name: String },
    /// Look up the nodes with a name.
    GetNamedNodes { name: String },
    /// Look up the uses of a node, by one relation or by all.
    GetUses { target: i64, relation: Option<String> },
    /// Look up the type of a node.
    GetNodeType { id: i64 },
    /// Answer with this reply.
    Reply(ReferencesReply),
    /// Answer with this error.
    Fail(String),
    /// Nothing: the event was not waited for.
    Ignore,
}

/// What the caller of a search for references reports.
pub enum ReferencesEvent {
    Fresh,
    Node(Option<FoundNode>),
    FileNodes(Vec<FileNode>),
    Resolved(FuzzyResolution),
    NamedNodes(Vec<NamedNode>),
    Uses(Vec<Reference>),
    NodeType(Option<String>),
}

/// Whether a search at a stage waits for an event.
pub open spec fn awaits(stage: ReferencesStage, event: ReferencesEvent) -> bool {
    match stage {
        ReferencesStage::Freshening => event is Fresh,
        ReferencesStage::ById(_) => event is Node,
        ReferencesStage::InFile { .. } => event is FileNodes,
        ReferencesStage::Resolving { .. } => event is Resolved,
        ReferencesStage::Named { .. } => event is NamedNodes,
        ReferencesStage::Collecting { .. } => event is Uses,
        ReferencesStage::Typing { .. } => event is NodeType,
        ReferencesStage::Done => false,
    }
}

impl ReferencesSearch {
    /// Whether the request names a symbol or a node, and a search through
    /// targets stands at one of them.
    pub open spec fn wf(self) -> bool {
        &&& self.request.node_id is Some || self.request.symbol_name is Some
        &&& match self.stage {
            ReferencesStage::Collecting { targets, done, .. } => done < targets@.len(),
            ReferencesStage::Typing { targets, done, .. } => done < targets@.len(),
            _ => true,
        }
    }
}

/// Whether a search ends with an error.
pub open spec fn fails(
    stage: ReferencesStage,
    action: ReferencesAction,
    message: Seq<char>,
) -> bool {
    stage is Done && (action matches ReferencesAction::Fail(text) && text@ == message)
}

/// The first step on an index that is up to date: by node id, or else by name
/// in a file, or else by name.
pub open spec fn resolves(
    request: ReferencesRequest,
    stage: ReferencesStage,
    action: ReferencesAction,
) -> bool {
    match (request.node_id, request.symbol_name, request.file_path) {
        (Some(wanted), _, _) => stage == ReferencesStage::ById(wanted) && action
            == (ReferencesAction::GetNode { id: wanted }),
        (None, Some(name), Some(path)) => stage == (ReferencesStage::InFile {
            symbol: name,
            file_path: path,
        }) && action == (ReferencesAction::GetFileNodes { file_path: path }),
        (None, Some(name), None) => stage == (ReferencesStage::Resolving { symbol: name })
            && action == (ReferencesAction::Resolve { name }),
        (None, None, _) => false,
    }
}

/// Whether a search starts like this: with an error where the request names
/// neither a symbol nor a node, else with the index, or with its first step where
/// the index is to be taken as it is.
pub open spec fn started(
    request: ReferencesRequest,
    skip_indexing: bool,
    stage: ReferencesStage,
    action: ReferencesAction,
) -> bool {
    if request.node_id is None && request.symbol_name is None {
        fails(stage, action, SYMBOL_REQUIRED@)
    } else if skip_indexing {
        resolves(request, stage, action)
    } else {
        stage is Freshening && action == (ReferencesAction::EnsureFresh {
            file: request.file_path,
        })
    }
}

/// Whether a search asks for the uses of the target at `done`.
pub open spec fn collects(
    request: ReferencesRequest,
    stage: ReferencesStage,
    action: ReferencesAction,
    targets: Seq<i64>,
    symbol: String,
    done: int,
    uses: Seq<Reference>,
) -> bool {
    &&& match stage {
        ReferencesStage::Collecting { targets: t, symbol: s, done: d, uses: u } => t@ == targets
            && s == symbol && d == done && u@ == uses,
        _ => false,
    }
    &&& match action {
        ReferencesAction::GetUses { target, relation } => target == targets[done] && opt_text(
            relation,
        ) == relation_filter(request.relation@),
        _ => false,
    }
}

/// Whether a search asks for the type of the target at `done`.
pub open spec fn inspects(
    stage: ReferencesStage,
    action: ReferencesAction,
    targets: Seq<i64>,
    symbol: String,
    done: int,
    uses: Seq<Reference>,
    type_definition: bool,
) -> bool {
    &&& match stage {
        ReferencesStage::Typing {
            targets: t,
            symbol: s,
            done: d,
            uses: u,
            type_definition: is_type,
        } => t@ == targets && s == symbol && d == done && u@ == uses && is_type == type_definition,
        _ => false,
    }
    &&& action == (ReferencesAction::GetNodeType { id: targets[done] })
}

/// Whether a reply tells the uses of a symbol: each use once, without tests
/// where these are not wanted, with their number in all and by relation, the
/// number of tests left out where there are any, and a note for a type.
pub open spec fn tells(
    reply: ReferencesReply,
    request: ReferencesRequest,
    symbol: String,
    uses: Seq<Reference>,
    type_definition: bool,
) -> bool {
    let seen = visible(uses, request.include_tests);
    let hidden = uses.len() - seen.len();
    let shown = distinct(seen);
    match reply {
        ReferencesReply::Found {
            symbol: s,
            total_references,
            by_relation,
            references,
            test_references_filtered,
            type_definition_note,
        } => {
            &&& s == symbol
            &&& total_references == shown.len()
            &&& counts_uses(by_relation@, shown)
            &&& references@ == items_of(shown, request.compact)
            &&& test_references_filtered == (if hidden > 0 {
                Some(hidden as usize)
            } else {
                None
            })
            &&& opt_text(type_definition_note) == (if type_definition {
                Some(TYPE_DEFINITION_NOTE@)
            } else {
                None
            })
        },
        _ => false,
    }
}

/// The reply on the uses of a symbol.
pub fn references_reply(
    request: &ReferencesRequest,
    symbol: String,
    uses: Vec<Reference>,
    type_definition: bool,
) -> (r: ReferencesReply)
    ensures
        tells(r, *request, symbol, uses@, type_definition),
{
    let (shown, hidden) = uses_to_show(uses, request.include_tests);
    let by_relation = count_relations(&shown);
    let total_references: usize = shown.len();
    let references = reference_items(shown, request.compact);
    let test_references_filtered = if hidden > 0 {
        Some(hidden)
    } else {
        None
    };
    let type_definition_note = if type_definition {
        Some(TYPE_DEFINITION_NOTE.to_owned())
    } else {
        None
    };
    ReferencesReply::Found {
        symbol,
        total_references,
        by_relation,
        references,
        test_references_filtered,
        type_definition_note,
    }
}

/// The definition that a node of a file is.
pub open spec fn definition_of(node: FileNode, file_path: String) -> Definition {
    Definition {
        name: node.name,
        file_path,
        node_type: node.node_type,
        node_id: node.id,
        start_line: node.start_line,
    }
}

/// Whether a node of a file has a name.
pub open spec fn is_named(symbol: Seq<char>) -> spec_fn(FileNode) -> bool {
    |n: FileNode| n.name@ == symbol
}

/// The definitions that nodes of a file are.
pub open spec fn defined_in(file_path: String) -> spec_fn(FileNode) -> Definition {
    |n: FileNode| definition_of(n, file_path)
}

/// The definitions of a symbol among the nodes of a file.
pub open spec fn definitions_of(
    nodes: Seq<FileNode>,
    symbol: Seq<char>,
    file_path: String,
) -> Seq<Definition> {
    nodes.filter(is_named(symbol)).map_values(defined_in(file_path))
}

/// The definitions of a symbol among the nodes of a file.
pub fn definitions_in(nodes: Vec<FileNode>, symbol: &str, file_path: &String) -> (r: Vec<
    Definition,
>)
    ensures
        r@ == definitions_of(nodes@, symbol@, *file_path),
{
    let ghost all = nodes@;
    let ghost named = is_named(symbol@);
    let ghost make = defined_in(*file_path);
    let mut out: Vec<Definition> = Vec::new();
    proof {
        reveal(Seq::filter);
        assert(all.take(0) =~= Seq::empty());
        assert(Seq::<FileNode>::empty().filter(named).map_values(make) =~= Seq::empty());
    }
    for node in it: nodes
        invariant
            it.seq() == all,
            named == is_named(symbol@),
            make == defined_in(*file_path),
            out@ == all.take(it.index() as int).filter(named).map_values(make),
    {
        proof {
            reveal(Seq::filter);
            let seen = all.take(it.index() as int);
            let more = all.take(it.index() + 1);
            assert(more.drop_last() =~= seen);
            assert(more.last() == node);
            if named(node) {
                assert(more.filter(named).map_values(make) =~= seen.filter(named).map_values(
                    make,
                ).push(make(node)));
            }
        }
        if same_text(node.name.as_str(), symbol) {
            out.push(
                Definition {
                    name: node.name,
                    file_path: file_path.clone(),
                    node_type: node.node_type,
                    node_id: node.id,
                    start_line: node.start_line,
                },
            );
        }
    }
    assert(all.take(all.len() as int) =~= all);
    out
}

/// The ids of the nodes that are no tests.
pub open spec fn production_ids(nodes: Seq<NamedNode>) -> Seq<i64> {
    nodes.filter(|n: NamedNode| !n.is_test).map_values(|n: NamedNode| n.id)
}

/// The ids of the nodes that are no tests.
pub fn ids_outside_tests(nodes: &Vec<NamedNode>) -> (r: Vec<i64>)
    ensures
        r@ == production_ids(nodes@),
{
    let ghost outside = |n: NamedNode| !n.is_test;
    let ghost id = |n: NamedNode| n.id;
    let mut out: Vec<i64> = Vec::new();
    let mut i: usize = 0;
    proof {
        reveal(Seq::filter);
        assert(nodes@.take(0) =~= Seq::empty());
        assert(Seq::<NamedNode>::empty().filter(outside).map_values(id) =~= Seq::empty());
    }
    while i < nodes.len()
        invariant
            i <= nodes@.len(),
            outside == (|n: NamedNode| !n.is_test),
            id == (|n: NamedNode| n.id),
            out@ == nodes@.take(i as int).filter(outside).map_values(id),
        decreases nodes@.len() - i,
    {
        proof {
            reveal(Seq::filter);
            let seen = nodes@.take(i as int);
            let more = nodes@.take(i + 1);
            assert(more.drop_last() =~= seen);
            assert(more.last() == nodes@[i as int]);
            if !nodes@[i as int].is_test {
                assert(more.filter(outside).map_values(id) =~= seen.filter(outside).map_values(
                    id,
                ).push(nodes@[i as int].id));
            }
        }
        if !nodes[i].is_test {
            out.push(nodes[i].id);
        }
        i = i + 1;
    }
    assert(nodes@.take(nodes@.len() as int) =~= nodes@);
    out
}

/// Whether a step leads from `before` by `event` to `after` and `action`.
pub open spec fn stepped(
    before: ReferencesSearch,
    event: ReferencesEvent,
    after: ReferencesSearch,
    action: ReferencesAction,
) -> bool {
    let request = before.request;
    &&& after.request == request
    &&& match (before.stage, event) {
        (ReferencesStage::Freshening, ReferencesEvent::Fresh) => resolves(
            request,
            after.stage,
            action,
        ),
        (ReferencesStage::ById(id), ReferencesEvent::Node(found)) => match found {
            None => fails(after.stage, action, node_missing(id as int)),
            Some(node) => collects(
                request,
                after.stage,
                action,
                seq![id],
                node.name,
                0,
                Seq::empty(),
            ),
        },
        (
            ReferencesStage::InFile { symbol, file_path },
            ReferencesEvent::FileNodes(nodes),
        ) => {
            let definitions = definitions_of(nodes@, symbol@, file_path);
            if definitions.len() == 0 {
                fails(after.stage, action, not_in_file(symbol@, file_path@))
            } else if definitions.len() == 1 {
                collects(
                    request,
                    after.stage,
                    action,
                    seq![definitions[0].node_id],
                    symbol,
                    0,
                    Seq::empty(),
                )
            } else {
                &&& after.stage is Done
                &&& action matches ReferencesAction::Reply(
                    ReferencesReply::Ambiguous { symbol: s, error, suggestions },
                ) && s == symbol && error@ == ambiguous_in_file(
                    symbol@,
                    file_path@,
                    definitions.len(),
                ) && (suggestions matches Suggestions::Definitions(list) && list@ == definitions)
            }
        },
        (ReferencesStage::Resolving { symbol }, ReferencesEvent::Resolved(resolution)) => {
            match resolution {
                FuzzyResolution::Unique(name) => after.stage == (ReferencesStage::Named {
                    symbol,
                    resolved: name,
                }) && action == (ReferencesAction::GetNamedNodes { name }),
                FuzzyResolution::Ambiguous(candidates) => {
                    &&& after.stage is Done
                    &&& action matches ReferencesAction::Reply(
                        ReferencesReply::Ambiguous { symbol: s, error, suggestions },
                    ) && s == symbol && error@ == ambiguous_name(symbol@, candidates@.len())
                        && suggestions == Suggestions::Candidates(candidates)
                },
                FuzzyResolution::NotFound => fails(after.stage, action, not_resolved(symbol@)),
            }
        },
        (
            ReferencesStage::Named { symbol, resolved },
            ReferencesEvent::NamedNodes(nodes),
        ) => if production_ids(nodes@).len() == 0 {
            fails(after.stage, action, not_in_index(symbol@))
        } else {
            collects(
                request,
                after.stage,
                action,
                production_ids(nodes@),
                resolved,
                0,
                Seq::empty(),
            )
        },
        (
            ReferencesStage::Collecting { targets, symbol, done, uses },
            ReferencesEvent::Uses(more),
        ) => if done + 1 < targets@.len() {
            collects(
                request,
                after.stage,
                action,
                targets@,
                symbol,
                done + 1,
                uses@ + more@,
            )
        } else {
            inspects(after.stage, action, targets@, symbol, 0, uses@ + more@, false)
        },
        (
            ReferencesStage::Typing { targets, symbol, done, uses, type_definition },
            ReferencesEvent::NodeType(node_type),
        ) => {
            let is_type = type_definition || (node_type matches Some(t) && type_kind(t@));
            if done + 1 < targets@.len() {
                inspects(after.stage, action, targets@, symbol, done + 1, uses@, is_type)
            } else {
                &&& after.stage is Done
                &&& action matches ReferencesAction::Reply(reply) && tells(
                    reply,
                    request,
                    symbol,
                    uses@,
                    is_type,
                )
            }
        },
        _ => false,
    }
}

/// Whether an event leads from `before` to `after` and `action`: a step where it
/// is waited for, and nothing where it is not.
pub open spec fn goes_on(before: ReferencesSearch, event: ReferencesEvent, after: ReferencesSearch, action: ReferencesAction) -> bool {
    if awaits(before.stage, event) {
        stepped(before, event, after, action)
    } else {
        after == before && action is Ignore
    }
}

impl ReferencesSearch {
    fn resolve(request: ReferencesRequest) -> (r: (ReferencesSearch, ReferencesAction))
        requires
            request.node_id is Some || request.symbol_name is Some,
        ensures
            r.0.request == request,
            resolves(request, r.0.stage, r.1),
    {
        let stage;
        let action;
        match request.node_id {
            Some(id) => {
                stage = ReferencesStage::ById(id);
                action = ReferencesAction::GetNode { id };
            },
            None => {
                let symbol = match &request.symbol_name {
                    Some(name) => name.clone(),
                    None => String::new(),
                };
                match &request.file_path {
                    Some(path) => {
                        stage = ReferencesStage::InFile { symbol, file_path: path.clone() };
                        action = ReferencesAction::GetFileNodes { file_path: path.clone() };
                    },
                    None => {
                        let name = symbol.clone();
                        stage = ReferencesStage::Resolving { symbol };
                        action = ReferencesAction::Resolve { name };
                    },
                }
            },
        }
        (ReferencesSearch { request, stage }, action)
    }

    fn collect(
        request: ReferencesRequest,
        targets: Vec<i64>,
        symbol: String,
        done: usize,
        uses: Vec<Reference>,
    ) -> (r: (ReferencesSearch, ReferencesAction))
        requires
            done < targets@.len(),
        ensures
            r.0.request == request,
            collects(request, r.0.stage, r.1, targets@, symbol, done as int, uses@),
    {
        let action = ReferencesAction::GetUses {
            target: targets[done],
            relation: filter_of(request.relation.as_str()),
        };
        let stage = ReferencesStage::Collecting { targets, symbol, done, uses };
        (ReferencesSearch { request, stage }, action)
    }

    fn inspect(
        request: ReferencesRequest,
        targets: Vec<i64>,
        symbol: String,
        done: usize,
        uses: Vec<Reference>,
        type_definition: bool,
    ) -> (r: (ReferencesSearch, ReferencesAction))
        requires
            done < targets@.len(),
        ensures
            r.0.request == request,
            inspects(r.0.stage, r.1, targets@, symbol, done as int, uses@, type_definition),
    {
        let action = ReferencesAction::GetNodeType { id: targets[done] };
        let stage = ReferencesStage::Typing { targets, symbol, done, uses, type_definition };
        (ReferencesSearch { request, stage }, action)
    }

    fn fail(request: ReferencesRequest, message: String) -> (r: (
        ReferencesSearch,
        ReferencesAction,
    ))
        ensures
            r.0.request == request,
            fails(r.0.stage, r.1, message@),
    {
        (
            ReferencesSearch { request, stage: ReferencesStage::Done },
            ReferencesAction::Fail(message),
        )
    }

    fn reply(request: ReferencesRequest, reply: ReferencesReply) -> (r: (
        ReferencesSearch,
        ReferencesAction,
    ))
        ensures
            r.0.request == request,
            r.0.stage is Done,
            r.1 == ReferencesAction::Reply(reply),
    {
        (
            ReferencesSearch { request, stage: ReferencesStage::Done },
            ReferencesAction::Reply(reply),
        )
    }

    /// Starts a search for references. A request that names neither a symbol
    /// nor a node fails at once.
    pub fn start(request: ReferencesRequest, skip_indexing: bool) -> (r: (
        ReferencesSearch,
        ReferencesAction,
    ))
        ensures
            r.0.request == request,
            request.node_id is Some || request.symbol_name is Some ==> r.0.wf(),
            started(request, skip_indexing, r.0.stage, r.1),
    {
        if request.node_id.is_none() && request.symbol_name.is_none() {
            return ReferencesSearch::fail(request, SYMBOL_REQUIRED.to_owned());
        }
        if skip_indexing {
            ReferencesSearch::resolve(request)
        } else {
            let file = copy_opt(&request.file_path);
            (
                ReferencesSearch { request, stage: ReferencesStage::Freshening },
                ReferencesAction::EnsureFresh { file },
            )
        }
    }

    /// The next step of the search on what its caller reports. An event that
    /// the search does not wait for changes nothing.
    pub fn step(self, event: ReferencesEvent) -> (r: (ReferencesSearch, ReferencesAction))
        requires
            self.wf(),
        ensures
            r.0.wf(),
            goes_on(self, event, r.0, r.1),
    {
        let ReferencesSearch { request, stage } = self;
        match (stage, event) {
            (ReferencesStage::Freshening, ReferencesEvent::Fresh) => ReferencesSearch::resolve(
                request,
            ),
            (ReferencesStage::ById(id), ReferencesEvent::Node(found)) => match found {
                None => ReferencesSearch::fail(request, node_missing_text(id)),
                Some(node) => {
                    let targets = vec![id];
                    assert(targets@ =~= seq![id]);
                    ReferencesSearch::collect(request, targets, node.name, 0, Vec::new())
                },
            },
            (ReferencesStage::InFile { symbol, file_path }, ReferencesEvent::FileNodes(nodes)) => {
                let definitions = definitions_in(nodes, symbol.as_str(), &file_path);
                if definitions.len() == 0 {
                    let message = not_in_file_text(symbol.as_str(), file_path.as_str());
                    ReferencesSearch::fail(request, message)
                } else if definitions.len() == 1 {
                    let targets = vec![definitions[0].node_id];
                    assert(targets@ =~= seq![definitions@[0].node_id]);
                    ReferencesSearch::collect(request, targets, symbol, 0, Vec::new())
                } else {
                    let error = ambiguous_in_file_text(
                        symbol.as_str(),
                        file_path.as_str(),
                        definitions.len(),
                    );
                    let suggestions = Suggestions::Definitions(definitions);
                    ReferencesSearch::reply(
                        request,
                        ReferencesReply::Ambiguous { symbol, error, suggestions },
                    )
                }
            },
            (
                ReferencesStage::Resolving { symbol },
                ReferencesEvent::Resolved(resolution),
            ) => match resolution {
                FuzzyResolution::Unique(name) => {
                    let resolved = name.clone();
                    (
                        ReferencesSearch {
                            request,
                            stage: ReferencesStage::Named { symbol, resolved },
                        },
                        ReferencesAction::GetNamedNodes { name },
                    )
                },
                FuzzyResolution::Ambiguous(candidates) => {
                    let error = ambiguous_name_text(symbol.as_str(), candidates.len());
                    let suggestions = Suggestions::Candidates(candidates);
                    ReferencesSearch::reply(
                        request,
                        ReferencesReply::Ambiguous { symbol, error, suggestions },
                    )
                },
                FuzzyResolution::NotFound => ReferencesSearch::fail(
                    request,
                    not_resolved_text(symbol.as_str()),
                ),
            },
            (
                ReferencesStage::Named { symbol, resolved },
                ReferencesEvent::NamedNodes(nodes),
            ) => {
                let targets = ids_outside_tests(&nodes);
                if targets.len() == 0 {
                    ReferencesSearch::fail(request, not_in_index_text(symbol.as_str()))
                } else {
                    ReferencesSearch::collect(request, targets, resolved, 0, Vec::new())
                }
            },
            (
                ReferencesStage::Collecting { targets, symbol, done, uses },
                ReferencesEvent::Uses(more),
            ) => {
                let mut uses = uses;
                let mut more = more;
                uses.append(&mut more);
                if targets.len() - done > 1 {
                    ReferencesSearch::collect(request, targets, symbol, done + 1, uses)
                } else {
                    ReferencesSearch::inspect(request, targets, symbol, 0, uses, false)
                }
            },
            (
                ReferencesStage::Typing { targets, symbol, done, uses, type_definition },
                ReferencesEvent::NodeType(node_type),
            ) => {
                let is_type: bool = type_definition || match &node_type {
                    Some(t) => is_type_kind(t.as_str()),
                    None => false,
                };
                if targets.len() - done > 1 {
                    ReferencesSearch::inspect(
                        request,
                        targets,
                        symbol,
                        done + 1,
                        uses,
                        is_type,
                    )
                } else {
                    let reply = references_reply(&request, symbol, uses, is_type);
                    ReferencesSearch::reply(request, reply)
                }
            },
            (stage, _) => (ReferencesSearch { request, stage }, ReferencesAction::Ignore),
        }
    }
}

/// How far a stage is from the end of a search.
pub open spec fn phase(stage: ReferencesStage) -> nat {
    match stage {
        ReferencesStage::Freshening => 5,
        ReferencesStage::ById(_) => 4,
        ReferencesStage::InFile { .. } => 4,
        ReferencesStage::Resolving { .. } => 4,
        ReferencesStage::Named { .. } => 3,
        ReferencesStage::Collecting { .. } => 2,
        ReferencesStage::Typing { .. } => 1,
        ReferencesStage::Done => 0,
    }
}

/// How many targets a stage has not gone through.
pub open spec fn targets_left(stage: ReferencesStage) -> int {
    match stage {
        ReferencesStage::Collecting { targets, done, .. } => targets@.len() - done,
        ReferencesStage::Typing { targets, done, .. } => targets@.len() - done,
        _ => 0,
    }
}

/// A search for references ends: each step leads to a later stage, or to the
/// next target at the same stage; and the last one, and no other, answers.
pub proof fn every_step_advances(
    before: ReferencesSearch,
    event: ReferencesEvent,
    after: ReferencesSearch,
    action: ReferencesAction,
)
    requires
        before.wf(),
        stepped(before, event, after, action),
    ensures
        phase(after.stage) < phase(before.stage) || (phase(after.stage) == phase(before.stage)
            && 0 <= targets_left(after.stage) < targets_left(before.stage)),
        after.stage is Done <==> action is Reply || action is Fail,
{
}

/// What is shown holds each use once: no two shown uses are the same, each use
/// is among them, and each of them is one of the uses.
pub proof fn distinct_keeps_each_use_once(uses: Seq<Reference>)
    ensures
        forall|a: int, b: int|
            0 <= a < b < distinct(uses).len() ==> !same_use(
                #[trigger] distinct(uses)[a],
                #[trigger] distinct(uses)[b],
            ),
        forall|i: int| 0 <= i < uses.len() ==> among(distinct(uses), #[trigger] uses[i]),
        forall|k: int| 0 <= k < distinct(uses).len() ==> uses.contains(#[trigger] distinct(uses)[k]),
    decreases uses.len(),
{
    if uses.len() > 0 {
        let rest = uses.drop_last();
        let before = distinct(rest);
        let shown = distinct(uses);
        distinct_keeps_each_use_once(rest);
        assert forall|a: int, b: int| 0 <= a < b < shown.len() implies !same_use(
            #[trigger] shown[a],
            #[trigger] shown[b],
        ) by {
            if b == before.len() {
                assert(!same_use(before[a], uses.last()));
            } else {
                assert(!same_use(before[a], before[b]));
            }
        }
        assert forall|i: int| 0 <= i < uses.len() implies among(shown, #[trigger] uses[i]) by {
            if i < rest.len() {
                assert(rest[i] == uses[i]);
                assert(among(before, rest[i]));
                let k = choose|k: int|
                    0 <= k < before.len() && same_use(#[trigger] before[k], rest[i]);
                assert(same_use(shown[k], uses[i]));
            } else if !among(before, uses.last()) {
                assert(same_use(shown[before.len() as int], uses[i]));
            }
        }
        assert forall|k: int| 0 <= k < shown.len() implies uses.contains(#[trigger] shown[k]) by {
            if k < before.len() {
                assert(rest.contains(before[k]));
                let i = choose|i: int| 0 <= i < rest.len() && rest[i] == before[k];
                assert(uses[i] == shown[k]);
            } else {
                assert(uses[uses.len() - 1] == shown[k]);
            }
        }
    }
}

/// Where tests are wanted, nothing is left out.
pub proof fn nothing_is_hidden_with_tests(uses: Seq<Reference>)
    ensures
        visible(uses, true) == uses,
    decreases uses.len(),
{
    reveal(Seq::filter);
    if uses.len() > 0 {
        nothing_is_hidden_with_tests(uses.drop_last());
        assert(uses.drop_last().push(uses.last()) =~= uses);
    }
}

/// The sum of the counts.
pub open spec fn sum(counts: Seq<RelationCount>) -> nat
    decreases counts.len(),
{
    if counts.len() == 0 {
        0
    } else {
        sum(counts.drop_last()) + counts.last().count as nat
    }
}

/// The number of `uses` by the relations of `counts`, these taken one by one.
spec fn uses_by_all(uses: Seq<Reference>, counts: Seq<RelationCount>) -> nat
    decreases counts.len(),
{
    if counts.len() == 0 {
        0
    } else {
        uses_by_all(uses, counts.drop_last()) + uses_by(uses, counts.last().relation@)
    }
}

/// Whether a relation is among those that are counted.
pub open spec fn lists_relation(counts: Seq<RelationCount>, relation: Seq<char>) -> bool {
    exists|k: int| 0 <= k < counts.len() && (#[trigger] counts[k]).relation@ == relation
}

proof fn lemma_one_more_use(uses: Seq<Reference>, counts: Seq<RelationCount>)
    requires
        uses.len() > 0,
        forall|a: int, b: int|
            0 <= a < b < counts.len() ==> (#[trigger] counts[a]).relation@ != (
            #[trigger] counts[b]).relation@,
    ensures
        uses_by_all(uses, counts) == uses_by_all(uses.drop_last(), counts) + (if lists_relation(
            counts,
            uses.last().relation@,
        ) {
            1nat
        } else {
            0nat
        }),
    decreases counts.len(),
{
    let relation = uses.last().relation@;
    if counts.len() > 0 {
        let rest = counts.drop_last();
        assert forall|a: int, b: int| 0 <= a < b < rest.len() implies (#[trigger] rest[a]).relation@
            != (#[trigger] rest[b]).relation@ by {
            assert(rest[a] == counts[a] && rest[b] == counts[b]);
        }
        lemma_one_more_use(uses, rest);
        let last = counts.len() - 1;
        if counts[last].relation@ == relation {
            assert(lists_relation(counts, relation));
            if lists_relation(rest, relation) {
                let k = choose|k: int|
                    0 <= k < rest.len() && (#[trigger] rest[k]).relation@ == relation;
                assert(counts[k].relation@ != counts[last].relation@);
            }
        } else if lists_relation(counts, relation) {
            let k = choose|k: int|
                0 <= k < counts.len() && (#[trigger] counts[k]).relation@ == relation;
            assert(rest[k].relation@ == relation);
        } else if lists_relation(rest, relation) {
            let k = choose|k: int|
                0 <= k < rest.len() && (#[trigger] rest[k]).relation@ == relation;
            assert(counts[k].relation@ == relation);
        }
    }
}

proof fn lemma_uses_by_all(uses: Seq<Reference>, counts: Seq<RelationCount>)
    requires
        forall|a: int, b: int|
            0 <= a < b < counts.len() ==> (#[trigger] counts[a]).relation@ != (
            #[trigger] counts[b]).relation@,
        forall|i: int|
            0 <= i < uses.len() ==> lists_relation(counts, (#[trigger] uses[i]).relation@),
    ensures
        uses_by_all(uses, counts) == uses.len(),
    decreases uses.len(),
{
    if uses.len() == 0 {
        lemma_no_uses(uses, counts);
    } else {
        let rest = uses.drop_last();
        assert forall|i: int| 0 <= i < rest.len() implies lists_relation(
            counts,
            (#[trigger] rest[i]).relation@,
        ) by {
            assert(rest[i] == uses[i]);
        }
        lemma_uses_by_all(rest, counts);
        lemma_one_more_use(uses, counts);
        assert(lists_relation(counts, uses[uses.len() - 1].relation@));
    }
}

proof fn lemma_no_uses(uses: Seq<Reference>, counts: Seq<RelationCount>)
    requires
        uses.len() == 0,
    ensures
        uses_by_all(uses, counts) == 0,
    decreases counts.len(),
{
    if counts.len() > 0 {
        lemma_no_uses(uses, counts.drop_last());
    }
}

proof fn lemma_sum(uses: Seq<Reference>, counts: Seq<RelationCount>)
    requires
        forall|k: int|
            0 <= k < counts.len() ==> (#[trigger] counts[k]).count == uses_by(
                uses,
                counts[k].relation@,
            ),
    ensures
        sum(counts) == uses_by_all(uses, counts),
    decreases counts.len(),
{
    if counts.len() > 0 {
        let rest = counts.drop_last();
        assert forall|k: int| 0 <= k < rest.len() implies (#[trigger] rest[k]).count == uses_by(
            uses,
            rest[k].relation@,
        ) by {
            assert(rest[k] == counts[k]);
        }
        lemma_sum(uses, rest);
        assert(counts[counts.len() - 1].count == uses_by(uses, counts.last().relation@));
    }
}

/// The numbers of uses by relation add up to the number of uses.
pub proof fn relation_counts_add_up(counts: Seq<RelationCount>, uses: Seq<Reference>)
    requires
        counts_uses(counts, uses),
    ensures
        sum(counts) == uses.len(),
{
    assert forall|i: int| 0 <= i < uses.len() implies lists_relation(
        counts,
        (#[trigger] uses[i]).relation@,
    ) by {
        let k = choose|k: int|
            0 <= k < counts.len() && (#[trigger] counts[k]).relation@ == uses[i].relation@;
        assert(counts[k].relation@ == uses[i].relation@);
    }
    lemma_sum(uses, counts);
    lemma_uses_by_all(uses, counts);
}

/// The numbers in a reply agree: as many references are shown as are counted in
/// all and by relation; tests are said to be left out only where they are not
/// wanted.
pub proof fn a_reply_adds_up(
    reply: ReferencesReply,
    request: ReferencesRequest,
    symbol: String,
    uses: Seq<Reference>,
    type_definition: bool,
)
    requires
        tells(reply, request, symbol, uses, type_definition),
    ensures
        reply matches ReferencesReply::Found {
            total_references,
            by_relation,
            references,
            test_references_filtered,
            ..
        } && total_references == references@.len() && sum(by_relation@) == total_references && (
        request.include_tests ==> test_references_filtered is None),
{
    let shown = distinct(visible(uses, request.include_tests));
    if let ReferencesReply::Found { by_relation, .. } = reply {
        relation_counts_add_up(by_relation@, shown);
    }
    if request.include_tests {
        nothing_is_hidden_with_tests(uses);
    }
}

/// Whether a use is among the references: its name, file and relation.
pub open spec fn shows(references: Seq<ReferenceItem>, use_site: Reference) -> bool {
    exists|k: int|
        0 <= k < references.len() && (#[trigger] references[k]).name@ == use_site.name@
            && references[k].file_path@ == use_site.file_path@ && references[k].relation@
            == use_site.relation@
}

proof fn lemma_every_use_is_shown(uses: Seq<Reference>, compact: bool)
    ensures
        forall|i: int|
            0 <= i < uses.len() ==> shows(items_of(distinct(uses), compact), #[trigger] uses[i]),
{
    distinct_keeps_each_use_once(uses);
    let shown = distinct(uses);
    let references = items_of(shown, compact);
    assert forall|i: int| 0 <= i < uses.len() implies shows(references, #[trigger] uses[i]) by {
        assert(among(shown, uses[i]));
        let k = choose|k: int| 0 <= k < shown.len() && same_use(#[trigger] shown[k], uses[i]);
        assert(references[k] == item_of(shown[k], compact));
    }
}

/// Where tests are wanted, every use that was found is shown.
pub proof fn every_use_is_shown_with_tests(
    reply: ReferencesReply,
    request: ReferencesRequest,
    symbol: String,
    uses: Seq<Reference>,
    type_definition: bool,
)
    requires
        tells(reply, request, symbol, uses, type_definition),
        request.include_tests,
    ensures
        reply matches ReferencesReply::Found { references, .. } && (forall|i: int|
            0 <= i < uses.len() ==> shows(references@, #[trigger] uses[i])),
{
    nothing_is_hidden_with_tests(uses);
    lemma_every_use_is_shown(uses, request.compact);
}

proof fn lemma_visible(uses: Seq<Reference>)
    ensures
        forall|i: int|
            0 <= i < visible(uses, false).len() ==> !(#[trigger] visible(uses, false)[i]).is_test,
    decreases uses.len(),
{
    reveal(Seq::filter);
    if uses.len() > 0 {
        lemma_visible(uses.drop_last());
    }
}

/// Where tests are not wanted, no use in a test is shown.
pub proof fn no_test_is_shown_without_tests(uses: Seq<Reference>)
    ensures
        forall|k: int|
            0 <= k < distinct(visible(uses, false)).len() ==> !(#[trigger] distinct(
                visible(uses, false),
            )[k]).is_test,
{
    let seen = visible(uses, false);
    lemma_visible(uses);
    distinct_keeps_each_use_once(seen);
    assert forall|k: int| 0 <= k < distinct(seen).len() implies !(#[trigger] distinct(
        seen,
    )[k]).is_test by {
        assert(seen.contains(distinct(seen)[k]));
        let i = choose|i: int| 0 <= i < seen.len() && seen[i] == distinct(seen)[k];
        assert(!seen[i].is_test);
    }
}

/// A request is read from the arguments `node_id`, `symbol_name`, `file_path`,
/// `relation`, `compact` and `include_tests`, each as it is given; without
/// `relation` it is for `all`, without `compact` it is not compact, and without
/// `include_tests` it is for tests as well.
pub proof fn a_request_is_read_from_its_arguments(
    request: ReferencesRequest,
    fields: Map<Seq<char>, Scalar>,
)
    requires
        asks(request, fields),
    ensures
        request.node_id matches Some(n) ==> fields.contains_key("node_id"@) && fields["node_id"@]
            == Scalar::Whole(n as int),
        fields.contains_key("node_id"@) ==> (fields["node_id"@] matches Scalar::Whole(n) ==> (
        i64::MIN <= n <= i64::MAX ==> request.node_id is Some)),
        request.symbol_name matches Some(s) ==> fields.contains_key("symbol_name"@)
            && fields["symbol_name"@] == Scalar::Text(s@),
        fields.contains_key("symbol_name"@) && fields["symbol_name"@] is Text
            ==> request.symbol_name is Some,
        request.file_path matches Some(s) ==> fields.contains_key("file_path"@)
            && fields["file_path"@] == Scalar::Text(s@),
        fields.contains_key("file_path"@) && fields["file_path"@] is Text ==> request.file_path
            is Some,
        fields.contains_key("relation"@) && fields["relation"@] is Text ==> fields["relation"@]
            == Scalar::Text(request.relation@),
        !(fields.contains_key("relation"@) && fields["relation"@] is Text) ==> request.relation@
            == "all"@,
        fields.contains_key("compact"@) && fields["compact"@] is Flag ==> fields["compact"@]
            == Scalar::Flag(request.compact),
        !(fields.contains_key("compact"@) && fields["compact"@] is Flag) ==> !request.compact,
        fields.contains_key("include_tests"@) && fields["include_tests"@] is Flag
            ==> fields["include_tests"@] == Scalar::Flag(request.include_tests),
        !(fields.contains_key("include_tests"@) && fields["include_tests"@] is Flag)
            ==> request.include_tests,
{
}

/// Four kinds of use stand for the relation of their own name; any other stands
/// for all relations.
pub proof fn four_kinds_of_use_are_relations(relation: Seq<char>)
    ensures
        relation_filter(relation) matches Some(r) ==> r == relation,
        relation_filter(relation) is Some <==> relation == "calls"@ || relation == "imports"@
            || relation == "inherits"@ || relation == "implements"@,
{
}

/// The types of node that are type definitions.
pub proof fn six_types_are_type_definitions(node_type: Seq<char>)
    ensures
        type_kind(node_type) <==> seq![
            "struct"@,
            "enum"@,
            "trait"@,
            "type"@,
            "interface"@,
            "class"@,
        ].contains(node_type),
{
    let kinds = seq!["struct"@, "enum"@, "trait"@, "type"@, "interface"@, "class"@];
    assert(kinds[0] == "struct"@ && kinds[1] == "enum"@ && kinds[2] == "trait"@);
    assert(kinds[3] == "type"@ && kinds[4] == "interface"@ && kinds[5] == "class"@);
    if kinds.contains(node_type) {
        let k = choose|k: int| 0 <= k < kinds.len() && kinds[k] == node_type;
        assert(k == 0 || k == 1 || k == 2 || k == 3 || k == 4 || k == 5);
    }
}

proof fn lemma_first_shown(uses: Seq<Reference>) -> (at: Seq<int>)
    ensures
        at.len() == distinct(uses).len(),
        ascending(at, uses.len() as int),
        forall|k: int| 0 <= k < at.len() ==> distinct(uses)[k] == uses[#[trigger] at[k]],
        forall|k: int, j: int|
            0 <= k < at.len() && 0 <= j < #[trigger] at[k] ==> !same_use(
                #[trigger] uses[j],
                uses[at[k]],
            ),
    decreases uses.len(),
{
    if uses.len() == 0 {
        Seq::empty()
    } else {
        let rest = uses.drop_last();
        let before = distinct(rest);
        let found = lemma_first_shown(rest);
        let last = uses.len() - 1;
        if among(before, uses.last()) {
            assert forall|k: int, j: int|
                0 <= k < found.len() && 0 <= j < #[trigger] found[k] implies !same_use(
                #[trigger] uses[j],
                uses[found[k]],
            ) by {
                assert(!same_use(rest[j], rest[found[k]]));
            }
            found
        } else {
            let at = found.push(last);
            distinct_keeps_each_use_once(rest);
            assert forall|k: int| 0 <= k < at.len() implies distinct(uses)[k]
                == uses[#[trigger] at[k]] by {
                if k < found.len() {
                    assert(before[k] == rest[found[k]]);
                }
            }
            assert forall|k: int, j: int|
                0 <= k < at.len() && 0 <= j < #[trigger] at[k] implies !same_use(
                #[trigger] uses[j],
                uses[at[k]],
            ) by {
                assert(rest[j] == uses[j]);
                if k < found.len() {
                    assert(at[k] == found[k]);
                    assert(!same_use(rest[j], rest[found[k]]));
                } else {
                    assert(among(before, rest[j]));
                    let m = choose|m: int|
                        0 <= m < before.len() && same_use(#[trigger] before[m], rest[j]);
                    assert(!same_use(before[m], uses.last()));
                }
            }
            at
        }
    }
}

/// What is shown of uses holds the first of those with one name, file and
/// relation, and no later one, in order. Gives their places.
pub proof fn the_first_of_equal_uses_is_shown(uses: Seq<Reference>) -> (at: Seq<int>)
    ensures
        at.len() == distinct(uses).len(),
        ascending(at, uses.len() as int),
        forall|k: int| 0 <= k < at.len() ==> distinct(uses)[k] == uses[#[trigger] at[k]],
        forall|k: int, j: int|
            0 <= k < at.len() && 0 <= j < #[trigger] at[k] ==> (#[trigger] uses[j]).name@
                != uses[at[k]].name@ || uses[j].file_path@ != uses[at[k]].file_path@
                || uses[j].relation@ != uses[at[k]].relation@,
        forall|i: int|
            0 <= i < uses.len() ==> exists|k: int|
                0 <= k < distinct(uses).len() && (#[trigger] distinct(uses)[k]).name@ == (
                #[trigger] uses[i]).name@ && distinct(uses)[k].file_path@ == uses[i].file_path@
                    && distinct(uses)[k].relation@ == uses[i].relation@,
{
    let at = lemma_first_shown(uses);
    distinct_keeps_each_use_once(uses);
    let shown = distinct(uses);
    assert forall|k: int, j: int|
        0 <= k < at.len() && 0 <= j < #[trigger] at[k] implies (#[trigger] uses[j]).name@
        != uses[at[k]].name@ || uses[j].file_path@ != uses[at[k]].file_path@ || uses[j].relation@
        != uses[at[k]].relation@ by {
        assert(!same_use(uses[j], uses[at[k]]));
    }
    assert forall|i: int| 0 <= i < uses.len() implies exists|k: int|
        0 <= k < shown.len() && (#[trigger] shown[k]).name@ == (#[trigger] uses[i]).name@
            && shown[k].file_path@ == uses[i].file_path@ && shown[k].relation@
            == uses[i].relation@ by {
        assert(among(shown, uses[i]));
        let k = choose|k: int| 0 <= k < shown.len() && same_use(#[trigger] shown[k], uses[i]);
        assert(shown[k].name@ == uses[i].name@);
    }
    at
}

/// Whether a use is shown: tests are only where they are wanted.
pub open spec fn wanted(use_site: Reference, include_tests: bool) -> bool {
    use_site.is_test ==> include_tests
}

/// Each reference of a reply is one of the uses that were found, field by field:
/// its name, file, line, relation and node id are those of the use, and so is
/// its type, which a compact reply leaves out. The references come in the order
/// of the uses; a test is among them only where tests are wanted; and each use
/// that is wanted is among them by its name, file and relation. Gives the places
/// of the uses that are shown.
pub proof fn each_reference_is_one_of_the_uses(
    reply: ReferencesReply,
    request: ReferencesRequest,
    symbol: String,
    uses: Seq<Reference>,
    type_definition: bool,
) -> (at: Seq<int>)
    requires
        tells(reply, request, symbol, uses, type_definition),
    ensures
        ascending(at, uses.len() as int),
        reply matches ReferencesReply::Found { references, .. } && {
            &&& references@.len() == at.len()
            &&& forall|k: int|
                0 <= k < references@.len() ==> {
                    let shown = #[trigger] references@[k];
                    let found = uses[at[k]];
                    &&& shown.name == found.name
                    &&& shown.file_path == found.file_path
                    &&& shown.start_line == found.start_line
                    &&& shown.relation == found.relation
                    &&& shown.node_id == found.node_id
                    &&& request.compact ==> shown.node_type is None
                    &&& !request.compact ==> shown.node_type == Some(found.node_type)
                    &&& found.is_test ==> request.include_tests
                }
            &&& forall|i: int|
                0 <= i < uses.len() && wanted(#[trigger] uses[i], request.include_tests) ==> shows(
                    references@,
                    uses[i],
                )
        },
        forall|k: int, j: int|
            #![trigger at[k], uses[j]]
            0 <= k < at.len() && 0 <= j < at[k] && wanted(uses[j], request.include_tests)
                ==> uses[j].name@ != uses[at[k]].name@ || uses[j].file_path@
                != uses[at[k]].file_path@ || uses[j].relation@ != uses[at[k]].relation@,
{
    let pass = |r: Reference| request.include_tests || !r.is_test;
    let seen = visible(uses, request.include_tests);
    let shown = distinct(seen);
    let places = a_filter_keeps_what_passes(uses, pass);
    let firsts = the_first_of_equal_uses_is_shown(seen);
    let at = Seq::new(firsts.len(), |k: int| places[firsts[k]]);
    assert forall|k: int| 0 <= k < at.len() implies 0 <= #[trigger] at[k] < uses.len()
        && uses[at[k]] == seen[firsts[k]] && shown[k] == uses[at[k]] by {
        assert(0 <= firsts[k] < seen.len());
        assert(seen[firsts[k]] == uses[places[firsts[k]]]);
    }
    assert forall|a: int, b: int| 0 <= a < b < at.len() implies #[trigger] at[a]
        < #[trigger] at[b] by {
        assert(firsts[a] < firsts[b]);
        assert(places[firsts[a]] < places[firsts[b]]);
    }
    assert forall|k: int, j: int|
        #![trigger at[k], uses[j]]
        0 <= k < at.len() && 0 <= j < at[k] && wanted(uses[j], request.include_tests) implies uses[j].name@
        != uses[at[k]].name@ || uses[j].file_path@ != uses[at[k]].file_path@ || uses[j].relation@
        != uses[at[k]].relation@ by {
        assert(pass(uses[j]));
        let p = choose|p: int| 0 <= p < places.len() && places[p] == j;
        assert(seen[p] == uses[j]);
        if p >= firsts[k] {
            assert(firsts[k] < p ==> places[firsts[k]] < places[p]);
        }
        assert(0 <= p < firsts[k]);
    }
    lemma_every_use_is_shown(seen, request.compact);
    if let ReferencesReply::Found { references, .. } = reply {
        assert forall|k: int| 0 <= k < references@.len() implies #[trigger] references@[k]
            == item_of(shown[k], request.compact) && (uses[at[k]].is_test
            ==> request.include_tests) by {
            assert(places[firsts[k]] == at[k]);
            assert(pass(uses[at[k]]));
        }
        assert forall|i: int|
            0 <= i < uses.len() && wanted(#[trigger] uses[i], request.include_tests) implies shows(
            references@,
            uses[i],
        ) by {
            assert(pass(uses[i]));
            let p = choose|p: int| 0 <= p < places.len() && places[p] == i;
            assert(seen[p] == uses[i]);
            assert(shows(items_of(distinct(seen), request.compact), seen[p]));
        }
    }
    at
}

proof fn lemma_split_by_test(uses: Seq<Reference>)
    ensures
        visible(uses, false).len() + uses.filter(|r: Reference| r.is_test).len() == uses.len(),
    decreases uses.len(),
{
    reveal(Seq::filter);
    if uses.len() > 0 {
        lemma_split_by_test(uses.drop_last());
    }
}

/// The number of references by a relation.
pub open spec fn references_by(references: Seq<ReferenceItem>, relation: Seq<char>) -> nat {
    references.filter(|r: ReferenceItem| r.relation@ == relation).len()
}

proof fn lemma_counted_references(uses: Seq<Reference>, compact: bool, relation: Seq<char>)
    ensures
        uses_by(uses, relation) == references_by(items_of(uses, compact), relation),
    decreases uses.len(),
{
    reveal(Seq::filter);
    if uses.len() > 0 {
        lemma_counted_references(uses.drop_last(), compact, relation);
        assert(items_of(uses, compact).drop_last() =~= items_of(uses.drop_last(), compact));
        assert(items_of(uses, compact).last() == item_of(uses.last(), compact));
    }
}

/// A reply names the symbol and counts what it shows: all references, and those
/// by each relation that occurs among them, each relation once. It tells how
/// many tests were left out, exactly where tests are not wanted and there are
/// some, and has the note exactly for a type definition.
pub proof fn a_reply_counts_what_it_shows(
    reply: ReferencesReply,
    request: ReferencesRequest,
    symbol: String,
    uses: Seq<Reference>,
    type_definition: bool,
)
    requires
        tells(reply, request, symbol, uses, type_definition),
        uses.len() <= usize::MAX,
    ensures
        reply matches ReferencesReply::Found {
            symbol: named,
            total_references,
            by_relation,
            references,
            test_references_filtered,
            type_definition_note,
        } && {
            &&& named == symbol
            &&& total_references == references@.len()
            &&& forall|k: int|
                0 <= k < by_relation@.len() ==> {
                    let told = #[trigger] by_relation@[k];
                    told.count > 0 && told.count == references_by(references@, told.relation@)
                }
            &&& forall|a: int, b: int|
                0 <= a < b < by_relation@.len() ==> (#[trigger] by_relation@[a]).relation@ != (
                #[trigger] by_relation@[b]).relation@
            &&& forall|i: int|
                0 <= i < references@.len() ==> lists_relation(
                    by_relation@,
                    (#[trigger] references@[i]).relation@,
                )
            &&& request.include_tests ==> test_references_filtered is None
            &&& !request.include_tests ==> match test_references_filtered {
                Some(n) => n > 0 && n == uses.filter(|r: Reference| r.is_test).len(),
                None => uses.filter(|r: Reference| r.is_test).len() == 0,
            }
            &&& type_definition_note is Some <==> type_definition
            &&& type_definition_note matches Some(note) ==> note@
                == "Symbol is a type definition (struct/enum/trait/class). References list captures explicit imports/inherits/implements and struct-literal instantiation, but NOT method-qualified calls (e.g. `Type::method()`), field access, or type annotations. For a rename audit, also query find_references on each method of this type (see module_overview for method list) and grep for the bare name."@
        },
{
    let seen = visible(uses, request.include_tests);
    let shown = distinct(seen);
    if request.include_tests {
        nothing_is_hidden_with_tests(uses);
    } else {
        lemma_split_by_test(uses);
        assert(uses.len() - seen.len() == uses.filter(|r: Reference| r.is_test).len());
    }
    if let ReferencesReply::Found { by_relation, references, .. } = reply {
        lemma_counts_by_relation(by_relation@, shown, request.compact);
    }
}

proof fn lemma_counts_by_relation(
    counts: Seq<RelationCount>,
    shown: Seq<Reference>,
    compact: bool,
)
    requires
        counts_uses(counts, shown),
    ensures
        forall|k: int|
            0 <= k < counts.len() ==> {
                let told = #[trigger] counts[k];
                told.count > 0 && told.count == references_by(
                    items_of(shown, compact),
                    told.relation@,
                )
            },
        forall|i: int|
            0 <= i < shown.len() ==> lists_relation(
                counts,
                (#[trigger] items_of(shown, compact)[i]).relation@,
            ),
{
    assert forall|k: int| 0 <= k < counts.len() implies {
        let told = #[trigger] counts[k];
        told.count > 0 && told.count == references_by(items_of(shown, compact), told.relation@)
    } by {
        lemma_counted_references(shown, compact, counts[k].relation@);
    }
    assert forall|i: int| 0 <= i < shown.len() implies lists_relation(
        counts,
        (#[trigger] items_of(shown, compact)[i]).relation@,
    ) by {
        let k = choose|k: int|
            0 <= k < counts.len() && (#[trigger] counts[k]).relation@ == shown[i].relation@;
        assert(counts[k].relation@ == items_of(shown, compact)[i].relation@);
    }
}

/// The definitions of a symbol in a file are the nodes of the file with its
/// name, all of them and in order, each with its name, type, id and line, and
/// the path of the file. Gives their places.
pub proof fn definitions_are_the_nodes_with_the_name(
    nodes: Seq<FileNode>,
    symbol: Seq<char>,
    file_path: String,
) -> (at: Seq<int>)
    ensures
        at.len() == definitions_of(nodes, symbol, file_path).len(),
        ascending(at, nodes.len() as int),
        forall|k: int|
            0 <= k < at.len() ==> {
                let told = #[trigger] definitions_of(nodes, symbol, file_path)[k];
                let node = nodes[at[k]];
                &&& node.name@ == symbol
                &&& told.name == node.name
                &&& told.file_path == file_path
                &&& told.node_type == node.node_type
                &&& told.node_id == node.id
                &&& told.start_line == node.start_line
            },
        forall|i: int|
            0 <= i < nodes.len() && (#[trigger] nodes[i]).name@ == symbol ==> at.contains(i),
{
    let named = is_named(symbol);
    let at = a_filter_keeps_what_passes(nodes, named);
    assert forall|k: int| 0 <= k < at.len() implies {
        let told = #[trigger] definitions_of(nodes, symbol, file_path)[k];
        told == definition_of(nodes[at[k]], file_path) && nodes[at[k]].name@ == symbol
    } by {
        assert(nodes.filter(named)[k] == nodes[at[k]]);
        assert(named(nodes[at[k]]));
    }
    assert forall|i: int| 0 <= i < nodes.len() && (#[trigger] nodes[i]).name@
        == symbol implies at.contains(i) by {
        assert(named(nodes[i]));
    }
    at
}

/// The targets of a name are the ids of the nodes with it that are no tests, all
/// of them and in order. Gives their places.
pub proof fn targets_are_the_nodes_outside_tests(nodes: Seq<NamedNode>) -> (at: Seq<int>)
    ensures
        at.len() == production_ids(nodes).len(),
        ascending(at, nodes.len() as int),
        forall|k: int|
            0 <= k < at.len() ==> #[trigger] production_ids(nodes)[k] == nodes[at[k]].id
                && !nodes[at[k]].is_test,
        forall|i: int| 0 <= i < nodes.len() && !(#[trigger] nodes[i]).is_test ==> at.contains(i),
{
    let outside = |n: NamedNode| !n.is_test;
    let at = a_filter_keeps_what_passes(nodes, outside);
    assert forall|k: int| 0 <= k < at.len() implies #[trigger] production_ids(nodes)[k]
        == nodes[at[k]].id && !nodes[at[k]].is_test by {
        assert(nodes.filter(outside)[k] == nodes[at[k]]);
        assert(outside(nodes[at[k]]));
    }
    assert forall|i: int| 0 <= i < nodes.len() && !(#[trigger] nodes[i]).is_test implies at.contains(
        i,
    ) by {
        assert(outside(nodes[i]));
    }
    at
}

/// A search goes by the node id where one is given, else by the name in the file
/// where a file is given, and else by the name alone; each is handed over as it
/// is.
pub proof fn an_id_goes_before_a_name(
    request: ReferencesRequest,
    stage: ReferencesStage,
    action: ReferencesAction,
)
    requires
        resolves(request, stage, action),
    ensures
        request.node_id matches Some(wanted_id) ==> (stage matches ReferencesStage::ById(n) && n
            == wanted_id) && (action matches ReferencesAction::GetNode { id } && id == wanted_id),
        request.node_id is None ==> (request.symbol_name matches Some(name) && {
            &&& request.file_path matches Some(path) ==> (stage matches ReferencesStage::InFile {
                symbol,
                file_path,
            } && symbol == name && file_path == path) && (
            action matches ReferencesAction::GetFileNodes { file_path } && file_path == path)
            &&& request.file_path is None ==> (stage matches ReferencesStage::Resolving { symbol }
                && symbol == name) && (action matches ReferencesAction::Resolve { name: asked }
                && asked == name)
        }),
{
}

/// Whether a search goes on to collect the uses of these targets of a symbol,
/// beginning with the first: it asks for the uses of that one, by the relation
/// that the request names, or by all.
pub open spec fn begins_with(
    request: ReferencesRequest,
    stage: ReferencesStage,
    action: ReferencesAction,
    targets: Seq<i64>,
    symbol: String,
) -> bool {
    &&& stage matches ReferencesStage::Collecting { targets: t, symbol: s, done, uses } && t@
        == targets && s == symbol && done == 0 && uses@.len() == 0
    &&& action matches ReferencesAction::GetUses { target, relation } && target == targets[0] && (
    match relation {
        Some(r) => r@ == request.relation@ && (r@ == "calls"@ || r@ == "imports"@ || r@
            == "inherits"@ || r@ == "implements"@),
        None => request.relation@ != "calls"@ && request.relation@ != "imports"@
            && request.relation@ != "inherits"@ && request.relation@ != "implements"@,
    })
}

/// A node that was looked for by its id is the one target, under its own name;
/// an id that no node has is an error that names it.
pub proof fn a_node_is_its_own_target(
    before: ReferencesSearch,
    id: i64,
    found: Option<FoundNode>,
    after: ReferencesSearch,
    action: ReferencesAction,
)
    requires
        before.stage == ReferencesStage::ById(id),
        stepped(before, ReferencesEvent::Node(found), after, action),
    ensures
        after.request == before.request,
        found matches Some(node) ==> begins_with(
            before.request,
            after.stage,
            action,
            seq![id],
            node.name,
        ),
        found is None ==> after.stage is Done && (action matches ReferencesAction::Fail(text)
            && text@ == "node_id "@ + decimal(id as int) + " not found in index"@),
{
}

/// A symbol that a file defines once is the one target; one that it does not
/// define is an error that names symbol and file; and one that it defines more
/// than once is answered by its definitions, with a message that names symbol
/// and file and tells how many there are.
pub proof fn a_symbol_of_a_file_is_defined_once(
    before: ReferencesSearch,
    symbol: String,
    file_path: String,
    nodes: Vec<FileNode>,
    after: ReferencesSearch,
    action: ReferencesAction,
)
    requires
        before.stage == (ReferencesStage::InFile { symbol, file_path }),
        stepped(before, ReferencesEvent::FileNodes(nodes), after, action),
    ensures
        after.request == before.request,
        ({
            let definitions = definitions_of(nodes@, symbol@, file_path);
            &&& definitions.len() == 0 ==> after.stage is Done && (
            action matches ReferencesAction::Fail(text) && text@ == "Symbol '"@ + symbol@
                + "' not found in file '"@ + file_path@ + "'."@)
            &&& definitions.len() == 1 ==> begins_with(
                before.request,
                after.stage,
                action,
                seq![definitions[0].node_id],
                symbol,
            )
            &&& definitions.len() > 1 ==> after.stage is Done && (
            action matches ReferencesAction::Reply(ReferencesReply::Ambiguous {
                symbol: named,
                error,
                suggestions,
            }) && named == symbol && error@ == "Ambiguous symbol '"@ + symbol@ + "' in '"@
                + file_path@ + "': "@ + numeral(definitions.len())
                + " definitions in the same file. Pass node_id to select one."@ && (
            suggestions matches Suggestions::Definitions(list) && list@ == definitions))
        }),
{
}

/// A name that resolves to one name goes on with that; one that resolves to
/// several is answered by these, with a message that names it and tells how many
/// there are; one that resolves to nothing is an error that names it.
pub proof fn a_name_resolves_to_one(
    before: ReferencesSearch,
    symbol: String,
    resolution: FuzzyResolution,
    after: ReferencesSearch,
    action: ReferencesAction,
)
    requires
        before.stage == (ReferencesStage::Resolving { symbol }),
        stepped(before, ReferencesEvent::Resolved(resolution), after, action),
    ensures
        after.request == before.request,
        resolution matches FuzzyResolution::Unique(name) ==> (
        after.stage matches ReferencesStage::Named { symbol: asked, resolved } && asked == symbol
            && resolved == name) && (action matches ReferencesAction::GetNamedNodes { name: wanted }
            && wanted == name),
        resolution matches FuzzyResolution::Ambiguous(candidates) ==> after.stage is Done && (
        action matches ReferencesAction::Reply(ReferencesReply::Ambiguous {
            symbol: named,
            error,
            suggestions,
        }) && named == symbol && error@ == "Ambiguous symbol '"@ + symbol@ + "': "@ + numeral(
            candidates@.len(),
        ) + " matches. Specify file_path or node_id to disambiguate."@ && (
        suggestions matches Suggestions::Candidates(list) && list == candidates)),
        resolution is NotFound ==> after.stage is Done && (
        action matches ReferencesAction::Fail(text) && text@ == "Symbol '"@ + symbol@
            + "' not found in index. Use semantic_code_search to find the correct symbol name."@),
{
}

/// The targets of a resolved name are its nodes outside tests, under the
/// resolved name; a name without such nodes is an error that names what was
/// asked for.
pub proof fn a_resolved_name_has_its_targets(
    before: ReferencesSearch,
    symbol: String,
    resolved: String,
    nodes: Vec<NamedNode>,
    after: ReferencesSearch,
    action: ReferencesAction,
)
    requires
        before.stage == (ReferencesStage::Named { symbol, resolved }),
        stepped(before, ReferencesEvent::NamedNodes(nodes), after, action),
    ensures
        after.request == before.request,
        production_ids(nodes@).len() > 0 ==> begins_with(
            before.request,
            after.stage,
            action,
            production_ids(nodes@),
            resolved,
        ),
        production_ids(nodes@).len() == 0 ==> after.stage is Done && (
        action matches ReferencesAction::Fail(text) && text@ == "Symbol '"@ + symbol@
            + "' not found in index."@),
{
}

/// The uses of the targets are collected one target after the other, each behind
/// those before it; then the types of the targets are asked for, from the first.
pub proof fn uses_are_collected_in_order(
    before: ReferencesSearch,
    targets: Vec<i64>,
    symbol: String,
    done: usize,
    uses: Vec<Reference>,
    more: Vec<Reference>,
    after: ReferencesSearch,
    action: ReferencesAction,
)
    requires
        before.stage == (ReferencesStage::Collecting { targets, symbol, done, uses }),
        before.wf(),
        stepped(before, ReferencesEvent::Uses(more), after, action),
    ensures
        after.request == before.request,
        done + 1 < targets@.len() ==> (after.stage matches ReferencesStage::Collecting {
            targets: t,
            symbol: s,
            done: d,
            uses: u,
        } && t@ == targets@ && s == symbol && d == done + 1 && u@ == uses@ + more@) && (
        action matches ReferencesAction::GetUses { target, relation } && target == targets@[done
            + 1] && opt_text(relation) == relation_filter(before.request.relation@)),
        done + 1 == targets@.len() ==> (after.stage matches ReferencesStage::Typing {
            targets: t,
            symbol: s,
            done: d,
            uses: u,
            type_definition,
        } && t@ == targets@ && s == symbol && d == 0 && u@ == uses@ + more@ && !type_definition)
            && (action matches ReferencesAction::GetNodeType { id } && id == targets@[0]),
{
}

/// The types of the targets are asked for one after the other; the last one is
/// followed by the reply, on all uses, which takes the symbol for a type
/// definition exactly where one of the targets has such a type.
pub proof fn one_type_definition_makes_the_note(
    before: ReferencesSearch,
    targets: Vec<i64>,
    symbol: String,
    done: usize,
    uses: Vec<Reference>,
    type_definition: bool,
    node_type: Option<String>,
    after: ReferencesSearch,
    action: ReferencesAction,
)
    requires
        before.stage == (ReferencesStage::Typing { targets, symbol, done, uses, type_definition }),
        before.wf(),
        stepped(before, ReferencesEvent::NodeType(node_type), after, action),
    ensures
        after.request == before.request,
        ({
            let is_type = type_definition || (node_type matches Some(t) && (t@ == "struct"@ || t@
                == "enum"@ || t@ == "trait"@ || t@ == "type"@ || t@ == "interface"@ || t@
                == "class"@));
            &&& done + 1 < targets@.len() ==> (after.stage matches ReferencesStage::Typing {
                targets: t,
                symbol: s,
                done: d,
                uses: u,
                type_definition: told,
            } && t@ == targets@ && s == symbol && d == done + 1 && u@ == uses@ && told == is_type)
                && (action matches ReferencesAction::GetNodeType { id } && id == targets@[done + 1])
            &&& done + 1 == targets@.len() ==> after.stage is Done && (
            action matches ReferencesAction::Reply(reply) && tells(
                reply,
                before.request,
                symbol,
                uses@,
                is_type,
            ))
        }),
{
}

/// A search for references that names neither a symbol nor a node fails at once.
/// Any other brings the index up to date first, the file that it names in
/// particular, unless it is told to take the index as it is; and it then does at
/// once what it would have done on the index that is up to date.
pub proof fn a_search_starts_with_the_index(
    search: ReferencesSearch,
    skip_indexing: bool,
    action: ReferencesAction,
)
    requires
        started(search.request, skip_indexing, search.stage, action),
    ensures
        search.request.node_id is None && search.request.symbol_name is None ==> search.stage
            is Done && (action matches ReferencesAction::Fail(text) && text@
            == "symbol_name or node_id is required"@),
        search.request.node_id is Some || search.request.symbol_name is Some ==> {
            &&& !skip_indexing ==> search.stage is Freshening && (
            action matches ReferencesAction::EnsureFresh { file } && file
                == search.request.file_path)
            &&& skip_indexing ==> stepped(
                (ReferencesSearch { request: search.request, stage: ReferencesStage::Freshening }),
                ReferencesEvent::Fresh,
                search,
                action,
            )
        },
{
}

/// Each stage of a search for references waits for one kind of event; a search
/// that is done waits for none.
pub proof fn each_stage_waits_for_one_event(stage: ReferencesStage, event: ReferencesEvent)
    ensures
        awaits(stage, event) <==> match event {
            ReferencesEvent::Fresh => stage is Freshening,
            ReferencesEvent::Node(_) => stage is ById,
            ReferencesEvent::FileNodes(_) => stage is InFile,
            ReferencesEvent::Resolved(_) => stage is Resolving,
            ReferencesEvent::NamedNodes(_) => stage is Named,
            ReferencesEvent::Uses(_) => stage is Collecting,
            ReferencesEvent::NodeType(_) => stage is Typing,
        },
        SYMBOL_REQUIRED@ == "symbol_name or node_id is required"@,
{
}

/// An event that a search does not wait for changes nothing and asks for nothing; one
/// that it waits for is never passed over.
pub proof fn an_event_counts_where_it_is_waited_for(
    before: ReferencesSearch,
    event: ReferencesEvent,
    after: ReferencesSearch,
    action: ReferencesAction,
)
    requires
        goes_on(before, event, after, action),
    ensures
        !awaits(before.stage, event) ==> after == before && action is Ignore,
        awaits(before.stage, event) ==> stepped(before, event, after, action) && action !is Ignore,
{
}

} // verus!
