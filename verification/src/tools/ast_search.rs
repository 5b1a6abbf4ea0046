//! `ast_search`: enumeration of nodes by a query and by filters on their type,
//! return type and parameter types.
use crate::decimal::{numeral, usize_text};
use crate::order::{a_stable_order_ascends, stable_order, stably_orders};
use crate::sequence::{a_filter_keeps_what_passes, ascending};
use crate::text::{
    contains, contains_text, copy_opt, copy_opt_strings, has_text, is_empty_text, lowercase,
    opt_text, opt_texts, to_lowercase, trim, trimmed, trimming_takes_off_white_space, white_space,
};
use crate::tools::args::{json_fields, text_arg, text_field, u64_arg, whole_field, Scalar};
use vstd::prelude::*;

verus! {

/// What was asked for.
pub struct AstSearchRequest {
    /// The words to look for; never empty and without white space around them.
    pub query: Option<String>,
    /// The type that a node has to have.
    pub type_filter: Option<String>,
    /// What a node's return type has to contain.
    pub returns_filter: Option<String>,
    /// What a node's parameter types have to contain.
    pub params_filter: Option<String>,
    /// The most results to give, from 1 to 100.
    pub limit: usize,
}

impl AstSearchRequest {
    /// Whether the limit lies from 1 to 100.
    pub open spec fn wf(self) -> bool {
        1 <= self.limit <= 100
    }

    /// Whether any filter is given.
    pub open spec fn filtered(self) -> bool {
        self.type_filter is Some || self.returns_filter is Some || self.params_filter is Some
    }
}

/// The query that a text asks: the text without white space around it, unless
/// nothing is left.
pub open spec fn query_of(text: Option<Seq<char>>) -> Option<Seq<char>> {
    match text {
        Some(s) => if trimmed(s).len() == 0 {
            None
        } else {
            Some(trimmed(s))
        },
        None => None,
    }
}

/// The number of results to give: 20 where nothing is asked, else what is
/// asked, moved into 1 to 100.
pub open spec fn limit_of(asked: Option<int>) -> int {
    match asked {
        None => 20,
        Some(n) => if n < 1 {
            1
        } else if n > 100 {
            100
        } else {
            n
        },
    }
}

/// Whether a request says what the arguments ask for.
pub open spec fn asks(request: AstSearchRequest, fields: Map<Seq<char>, Scalar>) -> bool {
    &&& opt_text(request.query) == query_of(text_field(fields, "query"@))
    &&& opt_text(request.type_filter) == text_field(fields, "type"@)
    &&& opt_text(request.returns_filter) == text_field(fields, "returns"@)
    &&& opt_text(request.params_filter) == text_field(fields, "params"@)
    &&& request.limit == limit_of(whole_field(fields, "limit"@, 0, u64::MAX as int))
}

/// Reads the arguments.
pub fn parse_ast_search(args: &serde_json::Value) -> (r: AstSearchRequest)
    ensures
        asks(r, json_fields(*args)),
        r.wf(),
{
    let query = match text_arg(args, "query") {
        Some(s) => {
            let words = trim(s.as_str());
            if is_empty_text(words.as_str()) {
                None
            } else {
                Some(words)
            }
        },
        None => None,
    };
    let limit: usize = match u64_arg(args, "limit") {
        None => 20,
        Some(n) => if n < 1 {
            1
        } else if n > 100 {
            100
        } else {
            n as usize
        },
    };
    AstSearchRequest {
        query,
        type_filter: text_arg(args, "type"),
        returns_filter: text_arg(args, "returns"),
        params_filter: text_arg(args, "params"),
        limit,
    }
}

/// A node of the graph, with the path of its file.
pub struct NodeWithFile {
    pub id: i64,
    pub name: String,
    pub qualified_name: Option<String>,
    pub node_type: String,
    pub start_line: i64,
    pub end_line: i64,
    pub signature: Option<String>,
    pub return_type: Option<String>,
    pub param_types: Option<String>,
    pub file_path: String,
}

impl Clone for NodeWithFile {
    fn clone(&self) -> (r: Self)
        ensures
            r == *self,
    {
        NodeWithFile {
            id: self.id,
            name: self.name.clone(),
            qualified_name: copy_opt(&self.qualified_name),
            node_type: self.node_type.clone(),
            start_line: self.start_line,
            end_line: self.end_line,
            signature: copy_opt(&self.signature),
            return_type: copy_opt(&self.return_type),
            param_types: copy_opt(&self.param_types),
            file_path: self.file_path.clone(),
        }
    }
}

/// One result of a search.
pub struct AstItem {
    pub node_id: i64,
    /// The qualified name, or the bare one where there is none.
    pub name: String,
    pub node_type: String,
    pub file_path: String,
    pub start_line: i64,
    pub end_line: i64,
    pub signature: Option<String>,
    pub return_type: Option<String>,
    pub param_types: Option<String>,
}

/// The result that shows a node.
pub open spec fn item_of(node: NodeWithFile) -> AstItem {
    AstItem {
        node_id: node.id,
        name: match node.qualified_name {
            Some(name) => name,
            None => node.name,
        },
        node_type: node.node_type,
        file_path: node.file_path,
        start_line: node.start_line,
        end_line: node.end_line,
        signature: node.signature,
        return_type: node.return_type,
        param_types: node.param_types,
    }
}

/// The results that show nodes, in order.
pub open spec fn items_of(nodes: Seq<NodeWithFile>) -> Seq<AstItem> {
    nodes.map_values(|node: NodeWithFile| item_of(node))
}

/// The results that show nodes, in order.
pub fn ast_items(nodes: Vec<NodeWithFile>) -> (r: Vec<AstItem>)
    ensures
        r@ == items_of(nodes@),
{
    let ghost all = nodes@;
    let mut items: Vec<AstItem> = Vec::new();
    for node in it: nodes
        invariant
            it.seq() == all,
            items@ == items_of(all.take(it.index() as int)),
    {
        proof {
            assert(all.take(it.index() + 1) =~= all.take(it.index() as int).push(node));
            assert(items_of(all.take(it.index() + 1)) =~= items_of(
                all.take(it.index() as int),
            ).push(item_of(node)));
        }
        let name = match node.qualified_name {
            Some(name) => name,
            None => node.name,
        };
        items.push(
            AstItem {
                node_id: node.id,
                name,
                node_type: node.node_type,
                file_path: node.file_path,
                start_line: node.start_line,
                end_line: node.end_line,
                signature: node.signature,
                return_type: node.return_type,
                param_types: node.param_types,
            },
        );
    }
    assert(all.take(all.len() as int) =~= all);
    items
}

/// Whether `text` contains `part`, the case of letters aside.
pub open spec fn contains_loosely(text: Option<String>, part: Seq<char>) -> bool {
    match text {
        Some(s) => contains(lowercase(s@), lowercase(part)),
        None => false,
    }
}

/// Whether a node has one of the types and contains what its return type and
/// its parameter types have to contain, as far as these are asked for.
pub open spec fn passes(
    node: NodeWithFile,
    types: Option<Seq<Seq<char>>>,
    returning: Option<Seq<char>>,
    params: Option<Seq<char>>,
) -> bool {
    &&& types matches Some(list) ==> list.contains(node.node_type@)
    &&& returning matches Some(part) ==> contains_loosely(node.return_type, part)
    &&& params matches Some(part) ==> contains_loosely(node.param_types, part)
}

fn check_contains(text: &Option<String>, part: &Option<String>) -> (r: bool)
    ensures
        r == (opt_text(*part) matches Some(p) ==> contains_loosely(*text, p)),
{
    match part {
        None => true,
        Some(p) => match text {
            None => false,
            Some(t) => contains_text(to_lowercase(t).as_str(), to_lowercase(p).as_str()),
        },
    }
}

/// Whether a node passes the filters of a request, `types` being the types
/// that its type filter stands for.
pub fn passes_filters(
    node: &NodeWithFile,
    types: &Option<Vec<String>>,
    returning: &Option<String>,
    params: &Option<String>,
) -> (r: bool)
    ensures
        r == passes(*node, opt_texts(*types), opt_text(*returning), opt_text(*params)),
{
    let has_type: bool = match types {
        None => true,
        Some(list) => has_text(list, node.node_type.as_str()),
    };
    has_type && check_contains(&node.return_type, returning) && check_contains(
        &node.param_types,
        params,
    )
}

/// The rank of a node: the last place of its id in `ids`, and behind all of
/// them where it is not there.
pub open spec fn rank(ids: Seq<i64>, id: i64) -> int
    decreases ids.len(),
{
    if ids.len() == 0 {
        usize::MAX as int
    } else if ids.last() == id {
        ids.len() - 1
    } else {
        rank(ids.drop_last(), id)
    }
}

fn rank_of(ids: &Vec<i64>, id: i64) -> (r: usize)
    ensures
        r == rank(ids@, id),
{
    let mut i: usize = ids.len();
    assert(ids@.take(i as int) =~= ids@);
    while i > 0
        invariant
            i <= ids@.len(),
            rank(ids@, id) == rank(ids@.take(i as int), id),
        decreases i,
    {
        assert(ids@.take(i as int).drop_last() =~= ids@.take(i - 1));
        assert(ids@.take(i as int).last() == ids@[i - 1]);
        i = i - 1;
        if ids[i] == id {
            return i;
        }
    }
    usize::MAX
}

/// The ranks of nodes.
pub open spec fn ranks(nodes: Seq<NodeWithFile>, ids: Seq<i64>) -> Seq<i128> {
    nodes.map_values(|node: NodeWithFile| rank(ids, node.id) as i128)
}

/// Whether `ranked` holds `nodes` by their rank, equal ranks in order.
pub open spec fn is_ranked(
    ranked: Seq<NodeWithFile>,
    nodes: Seq<NodeWithFile>,
    ids: Seq<i64>,
) -> bool {
    exists|order: Seq<usize>| #[trigger]
        stably_orders(order, ranks(nodes, ids)) && ranked == order.map_values(
            |i: usize| nodes[i as int],
        )
}

/// The nodes by their rank, equal ranks in order.
pub fn rank_nodes(nodes: Vec<NodeWithFile>, ids: &Vec<i64>) -> (r: Vec<NodeWithFile>)
    ensures
        is_ranked(r@, nodes@, ids@),
{
    let mut keys: Vec<i128> = Vec::new();
    let mut i: usize = 0;
    while i < nodes.len()
        invariant
            i <= nodes@.len(),
            keys@ == ranks(nodes@.take(i as int), ids@),
        decreases nodes@.len() - i,
    {
        let key = rank_of(ids, nodes[i].id);
        keys.push(key as i128);
        i = i + 1;
        assert(nodes@.take(i as int) =~= nodes@.take(i - 1).push(nodes@[i - 1]));
        assert(ranks(nodes@.take(i as int), ids@) =~= ranks(nodes@.take(i - 1), ids@).push(
            key as i128,
        ));
    }
    assert(nodes@.take(nodes@.len() as int) =~= nodes@);
    let order = stable_order(&keys);
    let mut ranked: Vec<NodeWithFile> = Vec::new();
    let mut k: usize = 0;
    while k < order.len()
        invariant
            k <= order@.len(),
            stably_orders(order@, keys@),
            keys@.len() == nodes@.len(),
            ranked@ == order@.take(k as int).map_values(|i: usize| nodes@[i as int]),
        decreases order@.len() - k,
    {
        ranked.push(nodes[order[k]].clone());
        k = k + 1;
        assert(order@.take(k as int) =~= order@.take(k - 1).push(order@[k - 1]));
        assert(order@.take(k as int).map_values(|i: usize| nodes@[i as int]) =~= order@.take(
            k - 1,
        ).map_values(|i: usize| nodes@[i as int]).push(nodes@[order@[k - 1] as int]));
    }
    assert(order@.take(order@.len() as int) =~= order@);
    ranked
}

/// The first `limit` of `nodes` that pass the filters of a request.
pub open spec fn selected(
    nodes: Seq<NodeWithFile>,
    types: Option<Seq<Seq<char>>>,
    returning: Option<Seq<char>>,
    params: Option<Seq<char>>,
    limit: int,
) -> Seq<NodeWithFile> {
    let passing = nodes.filter(|node: NodeWithFile| passes(node, types, returning, params));
    if passing.len() <= limit {
        passing
    } else {
        passing.take(limit)
    }
}

/// The first `limit` of `nodes` that pass the filters of a request.
pub fn select_nodes(
    nodes: Vec<NodeWithFile>,
    types: &Option<Vec<String>>,
    returning: &Option<String>,
    params: &Option<String>,
    limit: usize,
) -> (r: Vec<NodeWithFile>)
    ensures
        r@ == selected(
            nodes@,
            opt_texts(*types),
            opt_text(*returning),
            opt_text(*params),
            limit as int,
        ),
{
    let ghost all = nodes@;
    let ghost pass = |node: NodeWithFile|
        passes(node, opt_texts(*types), opt_text(*returning), opt_text(*params));
    let mut out: Vec<NodeWithFile> = Vec::new();
    assert(all.take(0) =~= Seq::empty());
    proof {
        reveal(Seq::filter);
    }
    for node in it: nodes
        invariant
            it.seq() == all,
            pass == (|node: NodeWithFile|
                passes(node, opt_texts(*types), opt_text(*returning), opt_text(*params))),
            out@ == all.take(it.index() as int).filter(pass),
    {
        proof {
            reveal(Seq::filter);
            let more = all.take(it.index() + 1);
            assert(more.drop_last() =~= all.take(it.index() as int));
            assert(more.last() == node);
        }
        if passes_filters(&node, types, returning, params) {
            out.push(node);
        }
    }
    assert(all.take(all.len() as int) =~= all);
    if out.len() > limit {
        out.truncate(limit);
    }
    out
}

/// The answer where a request names neither a query nor a filter.
pub const FILTER_REQUIRED: &'static str = "Either query or at least one filter (type, returns, params) is required.";

/// The answer where no node matches a query.
pub const NO_RESULTS: &'static str = "No results found.";

/// The most nodes that the search behind a hint looks at.
pub const HINT_LIMIT: usize = 100;

/// The request that a hint suggests.
pub struct SuggestedQuery {
    pub returns_filter: String,
    pub type_filter: Option<String>,
    pub params_filter: Option<String>,
    pub query: Option<String>,
}

/// The reply to a search; what is `None` is left out of it.
pub struct AstSearchReply {
    pub results: Vec<AstItem>,
    pub count: Option<usize>,
    pub message: Option<String>,
    pub hint: Option<String>,
    pub suggested_query: Option<SuggestedQuery>,
}

/// What a search waits for.
pub enum AstSearchStage {
    /// That the index is up to date.
    Indexing,
    /// The ids that a query finds, best first.
    Ranking,
    /// The nodes with these ids.
    Loading(Vec<i64>),
    /// The nodes that pass the filters.
    Listing,
    /// The nodes that pass the filters of a hint; tells whether it was the
    /// query that found nothing.
    Retrying { unranked: bool },
    /// Nothing more.
    Done,
}

/// A search under way.
pub struct AstSearch {
    pub request: AstSearchRequest,
    /// The types that the type filter stands for.
    pub types: Option<Vec<String>>,
    /// What stands inside the outer generic type of the returns filter.
    pub inner: Option<String>,
    pub stage: AstSearchStage,
}

/// What a search asks its caller to do next.
pub enum AstSearchAction {
    /// Bring the index up to date.
    EnsureIndexed,
    /// Find the ids for a query, best first.
    Rank { query: String, wanted: i64 },
    /// Load the nodes with these ids.
    Load { ids: Vec<i64> },
    /// List the nodes that pass filters.
    List {
        types: Option<Vec<String>>,
        returning: Option<String>,
        params: Option<String>,
        limit: usize,
    },
    /// Answer with this reply.
    Reply(AstSearchReply),
    /// Answer with this error.
    Fail(String),
    /// Nothing: the event was not waited for.
    Ignore,
}

/// What the caller of a search reports.
pub enum AstSearchEvent {
    Indexed,
    Ranked(Vec<i64>),
    Nodes(Vec<NodeWithFile>),
}

/// Whether a search at a stage waits for an event.
pub open spec fn awaits(stage: AstSearchStage, event: AstSearchEvent) -> bool {
    match stage {
        AstSearchStage::Indexing => event is Indexed,
        AstSearchStage::Ranking => event is Ranked,
        AstSearchStage::Loading(_) => event is Nodes,
        AstSearchStage::Listing => event is Nodes,
        AstSearchStage::Retrying { .. } => event is Nodes,
        AstSearchStage::Done => false,
    }
}

/// Whether an action lists the nodes that pass these filters.
pub open spec fn lists(
    action: AstSearchAction,
    types: Option<Seq<Seq<char>>>,
    returning: Option<Seq<char>>,
    params: Option<Seq<char>>,
    limit: int,
) -> bool {
    match action {
        AstSearchAction::List { types: t, returning: r, params: p, limit: n } => {
            &&& opt_texts(t) == types
            &&& opt_text(r) == returning
            &&& opt_text(p) == params
            &&& n == limit
        },
        _ => false,
    }
}

/// Whether an action replies with these results and nothing else.
pub open spec fn replies(action: AstSearchAction, results: Seq<NodeWithFile>) -> bool {
    match action {
        AstSearchAction::Reply(reply) => {
            &&& reply.results@ == items_of(results)
            &&& reply.count == Some(results.len() as usize)
            &&& reply.message is None
            &&& reply.hint is None
            &&& reply.suggested_query is None
        },
        _ => false,
    }
}

impl AstSearch {
    /// Whether the request is a valid one, and types are given exactly for a
    /// type filter.
    pub open spec fn wf(self) -> bool {
        &&& self.request.wf()
        &&& self.types is Some <==> self.request.type_filter is Some
    }
}

/// Whether a search at `after` is the one at `before`, at another stage.
pub open spec fn same_search(before: AstSearch, after: AstSearch) -> bool {
    &&& after.request == before.request
    &&& after.types == before.types
    &&& after.inner == before.inner
}

/// The first step on an index that is up to date: a query is ranked, four
/// times as many ids being asked for as results may be given; filters alone
/// are listed; a request without either fails.
pub open spec fn planned(before: AstSearch, after: AstSearch, action: AstSearchAction) -> bool {
    &&& same_search(before, after)
    &&& match before.request.query {
        Some(words) => {
            &&& after.stage is Ranking
            &&& action matches AstSearchAction::Rank { query, wanted } && query == words && wanted
                == before.request.limit * 4
        },
        None => if before.request.filtered() {
            &&& after.stage is Listing
            &&& lists(
                action,
                opt_texts(before.types),
                opt_text(before.request.returns_filter),
                opt_text(before.request.params_filter),
                before.request.limit as int,
            )
        } else {
            &&& after.stage is Done
            &&& action matches AstSearchAction::Fail(message) && message@ == FILTER_REQUIRED@
        },
    }
}

/// Whether a search starts like this: with the index, or with its plan where the
/// index is to be taken as it is.
pub open spec fn started(
    search: AstSearch,
    skip_indexing: bool,
    action: AstSearchAction,
) -> bool {
    if skip_indexing {
        planned(search, search, action)
    } else {
        search.stage is Indexing && action is EnsureIndexed
    }
}

/// Whether a search that finds nothing tries another returns filter: it has a
/// returns filter, and that has an inner type.
pub open spec fn has_fallback(search: AstSearch) -> bool {
    search.request.returns_filter is Some && search.inner is Some
}

/// The step on a search that found nothing and tries the inner type of its
/// returns filter.
pub open spec fn falls_back(
    before: AstSearch,
    unranked: bool,
    after: AstSearch,
    action: AstSearchAction,
) -> bool {
    &&& same_search(before, after)
    &&& after.stage == (AstSearchStage::Retrying { unranked })
    &&& lists(
        action,
        opt_texts(before.types),
        opt_text(before.inner),
        opt_text(before.request.params_filter),
        HINT_LIMIT as int,
    )
}

/// The step on the results of a search: without any, the inner type of the
/// returns filter is tried where there is one; else they are the reply.
pub open spec fn concluded(
    before: AstSearch,
    results: Seq<NodeWithFile>,
    after: AstSearch,
    action: AstSearchAction,
) -> bool {
    if results.len() == 0 && has_fallback(before) {
        falls_back(before, false, after, action)
    } else {
        &&& same_search(before, after)
        &&& after.stage is Done
        &&& replies(action, results)
    }
}

/// Whether an action replies that the query found nothing.
pub open spec fn replies_nothing(action: AstSearchAction) -> bool {
    match action {
        AstSearchAction::Reply(reply) => {
            &&& reply.results@.len() == 0
            &&& reply.count is None
            &&& opt_text(reply.message) == Some(NO_RESULTS@)
            &&& reply.hint is None
            &&& reply.suggested_query is None
        },
        _ => false,
    }
}

/// The hint that another returns filter has matches.
pub open spec fn hint_text(returning: Seq<char>, inner: Seq<char>, matching: nat) -> Seq<char> {
    "No match for returns='"@ + returning + "'. Substring '"@ + inner + "' has "@ + numeral(
        matching,
    ) + (if matching == 1 {
        " match"@
    } else {
        " matches"@
    }) + " — try that."@
}

/// The step on the matches of an inner type: the reply has no results; where
/// there are matches it has a hint and the request that the hint suggests, and
/// where there are none it is what the search found without them.
pub open spec fn hinted(
    before: AstSearch,
    unranked: bool,
    matching: nat,
    after: AstSearch,
    action: AstSearchAction,
) -> bool {
    &&& same_search(before, after)
    &&& after.stage is Done
    &&& match (before.request.returns_filter, before.inner) {
        (Some(returning), Some(inner)) if matching > 0 => match action {
            AstSearchAction::Reply(reply) => {
                &&& reply.results@.len() == 0
                &&& reply.count == Some(0usize)
                &&& reply.message is None
                &&& opt_text(reply.hint) == Some(hint_text(returning@, inner@, matching))
                &&& reply.suggested_query == Some(
                    SuggestedQuery {
                        returns_filter: inner,
                        type_filter: before.request.type_filter,
                        params_filter: before.request.params_filter,
                        query: before.request.query,
                    },
                )
            },
            _ => false,
        },
        _ => if unranked {
            replies_nothing(action)
        } else {
            replies(action, Seq::empty())
        },
    }
}

/// Whether a step leads from `before` by `event` to `after` and `action`.
pub open spec fn stepped(
    before: AstSearch,
    event: AstSearchEvent,
    after: AstSearch,
    action: AstSearchAction,
) -> bool {
    match (before.stage, event) {
        (AstSearchStage::Indexing, AstSearchEvent::Indexed) => planned(before, after, action),
        (AstSearchStage::Ranking, AstSearchEvent::Ranked(ids)) => if ids@.len() > 0 {
            &&& same_search(before, after)
            &&& after.stage matches AstSearchStage::Loading(wanted) && wanted@ == ids@
            &&& action matches AstSearchAction::Load { ids: asked } && asked@ == ids@
        } else if has_fallback(before) {
            falls_back(before, true, after, action)
        } else {
            &&& same_search(before, after)
            &&& after.stage is Done
            &&& replies_nothing(action)
        },
        (AstSearchStage::Loading(ids), AstSearchEvent::Nodes(nodes)) => exists|
            ranked: Seq<NodeWithFile>,
        | #[trigger]
            is_ranked(ranked, nodes@, ids@) && concluded(
                before,
                selected(
                    ranked,
                    opt_texts(before.types),
                    opt_text(before.request.returns_filter),
                    opt_text(before.request.params_filter),
                    before.request.limit as int,
                ),
                after,
                action,
            ),
        (AstSearchStage::Listing, AstSearchEvent::Nodes(nodes)) => concluded(
            before,
            nodes@,
            after,
            action,
        ),
        (AstSearchStage::Retrying { unranked }, AstSearchEvent::Nodes(nodes)) => hinted(
            before,
            unranked,
            nodes@.len(),
            after,
            action,
        ),
        _ => false,
    }
}

/// Whether an event leads from `before` to `after` and `action`: a step where it
/// is waited for, and nothing where it is not.
pub open spec fn goes_on(before: AstSearch, event: AstSearchEvent, after: AstSearch, action: AstSearchAction) -> bool {
    if awaits(before.stage, event) {
        stepped(before, event, after, action)
    } else {
        after == before && action is Ignore
    }
}

impl AstSearch {
    fn at(self, stage: AstSearchStage) -> (r: AstSearch)
        ensures
            same_search(self, r),
            r.stage == stage,
    {
        AstSearch { request: self.request, types: self.types, inner: self.inner, stage }
    }

    fn plan(self) -> (r: (AstSearch, AstSearchAction))
        requires
            self.request.wf(),
        ensures
            planned(self, r.0, r.1),
    {
        match &self.request.query {
            Some(words) => {
                let action = AstSearchAction::Rank {
                    query: words.clone(),
                    wanted: (self.request.limit * 4) as i64,
                };
                (self.at(AstSearchStage::Ranking), action)
            },
            None => if self.request.type_filter.is_some() || self.request.returns_filter.is_some()
                || self.request.params_filter.is_some() {
                let action = AstSearchAction::List {
                    types: copy_opt_strings(&self.types),
                    returning: copy_opt(&self.request.returns_filter),
                    params: copy_opt(&self.request.params_filter),
                    limit: self.request.limit,
                };
                (self.at(AstSearchStage::Listing), action)
            } else {
                (
                    self.at(AstSearchStage::Done),
                    AstSearchAction::Fail(FILTER_REQUIRED.to_owned()),
                )
            },
        }
    }

    fn fall_back(self, unranked: bool) -> (r: (AstSearch, AstSearchAction))
        ensures
            falls_back(self, unranked, r.0, r.1),
    {
        let action = AstSearchAction::List {
            types: copy_opt_strings(&self.types),
            returning: copy_opt(&self.inner),
            params: copy_opt(&self.request.params_filter),
            limit: HINT_LIMIT,
        };
        (self.at(AstSearchStage::Retrying { unranked }), action)
    }

    fn conclude(self, results: Vec<NodeWithFile>) -> (r: (AstSearch, AstSearchAction))
        ensures
            concluded(self, results@, r.0, r.1),
    {
        if results.len() == 0 && self.request.returns_filter.is_some() && self.inner.is_some() {
            self.fall_back(false)
        } else {
            let reply = found(results);
            (self.at(AstSearchStage::Done), AstSearchAction::Reply(reply))
        }
    }

    fn hint(self, unranked: bool, matching: usize) -> (r: (AstSearch, AstSearchAction))
        ensures
            hinted(self, unranked, matching as nat, r.0, r.1),
    {
        assert(items_of(Seq::empty()) =~= Seq::empty());
        if matching > 0 {
            if let Some(returning) = &self.request.returns_filter {
                if let Some(inner) = &self.inner {
                    let mut reply = found(Vec::new());
                    reply.hint = Some(hint(returning.as_str(), inner.as_str(), matching));
                    reply.suggested_query = Some(
                        SuggestedQuery {
                            returns_filter: inner.clone(),
                            type_filter: copy_opt(&self.request.type_filter),
                            params_filter: copy_opt(&self.request.params_filter),
                            query: copy_opt(&self.request.query),
                        },
                    );
                    return (self.at(AstSearchStage::Done), AstSearchAction::Reply(reply));
                }
            }
        }
        let reply = if unranked {
            found_nothing()
        } else {
            found(Vec::new())
        };
        (self.at(AstSearchStage::Done), AstSearchAction::Reply(reply))
    }

    /// Starts a search. `types` are the types that the type filter of the
    /// request stands for, and `inner` is what stands inside the outer generic
    /// type of its returns filter.
    pub fn start(
        request: AstSearchRequest,
        types: Option<Vec<String>>,
        inner: Option<String>,
        skip_indexing: bool,
    ) -> (r: (AstSearch, AstSearchAction))
        requires
            request.wf(),
            types is Some <==> request.type_filter is Some,
        ensures
            r.0.wf(),
            r.0.request == request && r.0.types == types && r.0.inner == inner,
            started(r.0, skip_indexing, r.1),
    {
        let search = AstSearch { request, types, inner, stage: AstSearchStage::Indexing };
        if skip_indexing {
            search.plan()
        } else {
            (search, AstSearchAction::EnsureIndexed)
        }
    }

    /// The next step of the search on what its caller reports. An event that
    /// the search does not wait for changes nothing.
    pub fn step(self, event: AstSearchEvent) -> (r: (AstSearch, AstSearchAction))
        requires
            self.wf(),
        ensures
            r.0.wf(),
            goes_on(self, event, r.0, r.1),
    {
        match (&self.stage, event) {
            (AstSearchStage::Indexing, AstSearchEvent::Indexed) => self.plan(),
            (AstSearchStage::Ranking, AstSearchEvent::Ranked(ids)) => if ids.len() > 0 {
                let asked = copy_ids(&ids);
                (self.at(AstSearchStage::Loading(ids)), AstSearchAction::Load { ids: asked })
            } else if self.request.returns_filter.is_some() && self.inner.is_some() {
                self.fall_back(true)
            } else {
                let reply = found_nothing();
                (self.at(AstSearchStage::Done), AstSearchAction::Reply(reply))
            },
            (AstSearchStage::Loading(ids), AstSearchEvent::Nodes(nodes)) => {
                let ranked = rank_nodes(nodes, ids);
                let results = select_nodes(
                    ranked,
                    &self.types,
                    &self.request.returns_filter,
                    &self.request.params_filter,
                    self.request.limit,
                );
                self.conclude(results)
            },
            (AstSearchStage::Listing, AstSearchEvent::Nodes(nodes)) => self.conclude(nodes),
            (AstSearchStage::Retrying { unranked }, AstSearchEvent::Nodes(nodes)) => {
                let from_query: bool = *unranked;
                self.hint(from_query, nodes.len())
            },
            _ => (self, AstSearchAction::Ignore),
        }
    }
}

fn copy_ids(ids: &Vec<i64>) -> (r: Vec<i64>)
    ensures
        r@ == ids@,
{
    let mut out: Vec<i64> = Vec::new();
    let mut i: usize = 0;
    while i < ids.len()
        invariant
            i <= ids@.len(),
            out@ == ids@.take(i as int),
        decreases ids@.len() - i,
    {
        out.push(ids[i]);
        i = i + 1;
        assert(ids@.take(i as int) =~= ids@.take(i - 1).push(ids@[i - 1]));
    }
    assert(ids@.take(ids@.len() as int) =~= ids@);
    out
}

fn found(results: Vec<NodeWithFile>) -> (r: AstSearchReply)
    ensures
        replies(AstSearchAction::Reply(r), results@),
{
    let count: usize = results.len();
    AstSearchReply {
        results: ast_items(results),
        count: Some(count),
        message: None,
        hint: None,
        suggested_query: None,
    }
}

fn found_nothing() -> (r: AstSearchReply)
    ensures
        replies_nothing(AstSearchAction::Reply(r)),
{
    AstSearchReply {
        results: Vec::new(),
        count: None,
        message: Some(NO_RESULTS.to_owned()),
        hint: None,
        suggested_query: None,
    }
}

fn hint(returning: &str, inner: &str, matching: usize) -> (r: String)
    ensures
        r@ == hint_text(returning@, inner@, matching as nat),
{
    let mut text = "No match for returns='".to_owned();
    text.append(returning);
    text.append("'. Substring '");
    text.append(inner);
    text.append("' has ");
    let count = usize_text(matching);
    text.append(count.as_str());
    if matching == 1 {
        text.append(" match");
    } else {
        text.append(" matches");
    }
    text.append(" — try that.");
    text
}

/// How many steps a search at a stage may still make.
pub open spec fn steps_left(stage: AstSearchStage) -> nat {
    match stage {
        AstSearchStage::Indexing => 4,
        AstSearchStage::Ranking => 3,
        AstSearchStage::Loading(_) => 2,
        AstSearchStage::Listing => 2,
        AstSearchStage::Retrying { .. } => 1,
        AstSearchStage::Done => 0,
    }
}

/// A search ends: each step leaves fewer steps to make, and the last one, and
/// no other, answers.
pub proof fn every_step_advances(
    before: AstSearch,
    event: AstSearchEvent,
    after: AstSearch,
    action: AstSearchAction,
)
    requires
        stepped(before, event, after, action),
    ensures
        steps_left(after.stage) < steps_left(before.stage),
        after.stage is Done <==> action is Reply || action is Fail,
{
}

proof fn lemma_filter_passes(nodes: Seq<NodeWithFile>, pass: spec_fn(NodeWithFile) -> bool)
    ensures
        forall|k: int| 0 <= k < nodes.filter(pass).len() ==> pass(#[trigger] nodes.filter(pass)[k]),
        forall|k: int|
            0 <= k < nodes.filter(pass).len() ==> nodes.contains(#[trigger] nodes.filter(pass)[k]),
    decreases nodes.len(),
{
    reveal(Seq::filter);
    if nodes.len() > 0 {
        let rest = nodes.drop_last();
        lemma_filter_passes(rest, pass);
        assert forall|k: int| 0 <= k < nodes.filter(pass).len() implies nodes.contains(
            #[trigger] nodes.filter(pass)[k],
        ) by {
            if k < rest.filter(pass).len() {
                let node = rest.filter(pass)[k];
                assert(rest.contains(node));
                let i = choose|i: int| 0 <= i < rest.len() && rest[i] == node;
                assert(nodes[i] == node);
            } else {
                assert(nodes[nodes.len() - 1] == nodes.filter(pass)[k]);
            }
        }
    }
}

/// A selection is no longer than its limit, and every node in it was there to
/// select from and passes the filters.
pub proof fn selection_is_within_its_limit(
    nodes: Seq<NodeWithFile>,
    types: Option<Seq<Seq<char>>>,
    returning: Option<Seq<char>>,
    params: Option<Seq<char>>,
    limit: nat,
)
    ensures
        selected(nodes, types, returning, params, limit as int).len() <= limit,
        forall|k: int|
            0 <= k < selected(nodes, types, returning, params, limit as int).len() ==> nodes.contains(
                #[trigger] selected(nodes, types, returning, params, limit as int)[k],
            ),
        forall|k: int|
            0 <= k < selected(nodes, types, returning, params, limit as int).len() ==> passes(
                #[trigger] selected(nodes, types, returning, params, limit as int)[k],
                types,
                returning,
                params,
            ),
{
    let pass = |node: NodeWithFile| passes(node, types, returning, params);
    lemma_filter_passes(nodes, pass);
    let chosen = selected(nodes, types, returning, params, limit as int);
    assert forall|k: int| 0 <= k < chosen.len() implies nodes.contains(#[trigger] chosen[k])
        && passes(chosen[k], types, returning, params) by {
        assert(chosen[k] == nodes.filter(pass)[k]);
        assert(pass(nodes.filter(pass)[k]));
    }
}

/// Ranking keeps the nodes: as many come out as went in, each of them from
/// among these, by rank.
pub proof fn ranking_orders_the_nodes(
    ranked: Seq<NodeWithFile>,
    nodes: Seq<NodeWithFile>,
    ids: Seq<i64>,
)
    requires
        is_ranked(ranked, nodes, ids),
        nodes.len() <= usize::MAX,
        ids.len() <= usize::MAX,
    ensures
        ranked.len() == nodes.len(),
        forall|k: int| 0 <= k < ranked.len() ==> nodes.contains(#[trigger] ranked[k]),
        forall|i: int| 0 <= i < nodes.len() ==> ranked.contains(#[trigger] nodes[i]),
        forall|a: int, b: int|
            0 <= a < b < ranked.len() ==> rank(ids, (#[trigger] ranked[a]).id) <= rank(
                ids,
                (#[trigger] ranked[b]).id,
            ),
{
    let order = choose|order: Seq<usize>| #[trigger]
        stably_orders(order, ranks(nodes, ids)) && ranked == order.map_values(
            |i: usize| nodes[i as int],
        );
    assert forall|k: int| 0 <= k < ranked.len() implies nodes.contains(#[trigger] ranked[k]) by {
        assert(ranked[k] == nodes[order[k] as int]);
    }
    assert forall|i: int| 0 <= i < nodes.len() implies ranked.contains(#[trigger] nodes[i]) by {
        assert(order.contains(i as usize));
        let k = choose|k: int| 0 <= k < order.len() && order[k] == i as usize;
        assert(ranked[k] == nodes[i]);
    }
    assert forall|a: int, b: int| 0 <= a < b < ranked.len() implies rank(
        ids,
        (#[trigger] ranked[a]).id,
    ) <= rank(ids, (#[trigger] ranked[b]).id) by {
        lemma_rank_range(ids, ranked[a].id);
        lemma_rank_range(ids, ranked[b].id);
        assert(ranked[a] == nodes[order[a] as int] && ranked[b] == nodes[order[b] as int]);
        assert(ranks(nodes, ids)[order[a] as int] <= ranks(nodes, ids)[order[b] as int]);
    }
}

proof fn lemma_rank_range(ids: Seq<i64>, id: i64)
    requires
        ids.len() <= usize::MAX,
    ensures
        0 <= rank(ids, id) <= usize::MAX,
    decreases ids.len(),
{
    if ids.len() > 0 {
        lemma_rank_range(ids.drop_last(), id);
    }
}

/// A reply to a query holds no more results than were asked for, and so does one
/// to filters alone where no more were listed; a hint comes only with a reply
/// that holds none, and with the request that it suggests.
pub proof fn a_reply_is_bounded(
    before: AstSearch,
    event: AstSearchEvent,
    after: AstSearch,
    reply: AstSearchReply,
)
    requires
        stepped(before, event, after, AstSearchAction::Reply(reply)),
    ensures
        before.stage is Loading ==> reply.results@.len() <= before.request.limit,
        before.stage is Listing && (event matches AstSearchEvent::Nodes(nodes) && nodes@.len()
            <= before.request.limit) ==> reply.results@.len() <= before.request.limit,
        reply.hint is Some ==> reply.results@.len() == 0 && reply.suggested_query is Some,
        reply.suggested_query is Some ==> reply.hint is Some,
{
    if let AstSearchStage::Loading(ids) = before.stage {
        if let AstSearchEvent::Nodes(nodes) = event {
            let ranked = choose|ranked: Seq<NodeWithFile>| #[trigger]
                is_ranked(ranked, nodes@, ids@) && concluded(
                    before,
                    selected(
                        ranked,
                        opt_texts(before.types),
                        opt_text(before.request.returns_filter),
                        opt_text(before.request.params_filter),
                        before.request.limit as int,
                    ),
                    after,
                    AstSearchAction::Reply(reply),
                );
            selection_is_within_its_limit(
                ranked,
                opt_texts(before.types),
                opt_text(before.request.returns_filter),
                opt_text(before.request.params_filter),
                before.request.limit as nat,
            );
        }
    }
}

/// A search that finds nothing, by its query or by its filters, tries the inner
/// type of its returns filter before it replies; where that has matches, the
/// reply is the hint.
pub proof fn finding_nothing_leads_to_the_hint(
    before: AstSearch,
    event: AstSearchEvent,
    middle: AstSearch,
    action: AstSearchAction,
    matches_found: Vec<NodeWithFile>,
    after: AstSearch,
    last: AstSearchAction,
)
    requires
        has_fallback(before),
        match (before.stage, event) {
            (AstSearchStage::Ranking, AstSearchEvent::Ranked(ids)) => ids@.len() == 0,
            (AstSearchStage::Listing, AstSearchEvent::Nodes(nodes)) => nodes@.len() == 0,
            _ => false,
        },
        stepped(before, event, middle, action),
        stepped(middle, AstSearchEvent::Nodes(matches_found), after, last),
        matches_found@.len() > 0,
    ensures
        lists(
            action,
            opt_texts(before.types),
            opt_text(before.inner),
            opt_text(before.request.params_filter),
            HINT_LIMIT as int,
        ),
        last matches AstSearchAction::Reply(reply) && opt_text(reply.hint) == Some(
            hint_text(
                before.request.returns_filter->0@,
                before.inner->0@,
                matches_found@.len(),
            ),
        ),
{
}

/// Whether the text of an optional string is that of a field of the arguments.
pub open spec fn is_text_of(
    text: Option<String>,
    fields: Map<Seq<char>, Scalar>,
    key: Seq<char>,
) -> bool {
    match text {
        Some(s) => fields.contains_key(key) && fields[key] == Scalar::Text(s@),
        None => !(fields.contains_key(key) && fields[key] is Text),
    }
}

/// A request is read from the arguments `query`, `type`, `returns`, `params` and
/// `limit`. The filters are the texts as they are given. The query is the text
/// without white space around it, and there is none where nothing is left. The
/// limit is the number that is given, or the nearest to it from 1 to 100, and 20
/// where none is given.
pub proof fn a_request_is_read_from_its_arguments(
    request: AstSearchRequest,
    fields: Map<Seq<char>, Scalar>,
)
    requires
        asks(request, fields),
    ensures
        is_text_of(request.type_filter, fields, "type"@),
        is_text_of(request.returns_filter, fields, "returns"@),
        is_text_of(request.params_filter, fields, "params"@),
        request.query matches Some(words) ==> {
            &&& words@.len() > 0
            &&& !white_space(words@[0]) && !white_space(words@.last())
            &&& fields.contains_key("query"@) && (fields["query"@] matches Scalar::Text(s)
                && words@ == trimmed(s))
        },
        request.query is None && fields.contains_key("query"@) ==> (
        fields["query"@] matches Scalar::Text(s) ==> forall|i: int|
            0 <= i < s.len() ==> white_space(#[trigger] s[i])),
        1 <= request.limit <= 100,
        fields.contains_key("limit"@) ==> (fields["limit"@] matches Scalar::Whole(n) ==> {
            &&& 1 <= n <= 100 ==> request.limit == n
            &&& n == 0 ==> request.limit == 1
            &&& 100 < n <= u64::MAX ==> request.limit == 100
            &&& n < 0 ==> request.limit == 20
        }),
        !(fields.contains_key("limit"@) && fields["limit"@] is Whole) ==> request.limit == 20,
{
    if fields.contains_key("query"@) {
        if let Scalar::Text(s) = fields["query"@] {
            trimming_takes_off_white_space(s);
        }
    }
}

/// Each result shows its node: the id, the type, the path, the lines, the
/// signature, the return type and the parameter types as they are, and the
/// qualified name, or the bare one where there is none. There is one for each
/// node, in order.
pub proof fn a_result_shows_its_node(nodes: Seq<NodeWithFile>)
    ensures
        items_of(nodes).len() == nodes.len(),
        forall|k: int|
            0 <= k < nodes.len() ==> {
                let item = #[trigger] items_of(nodes)[k];
                &&& item.node_id == nodes[k].id
                &&& nodes[k].qualified_name matches Some(name) ==> item.name == name
                &&& nodes[k].qualified_name is None ==> item.name == nodes[k].name
                &&& item.node_type == nodes[k].node_type
                &&& item.file_path == nodes[k].file_path
                &&& item.start_line == nodes[k].start_line
                &&& item.end_line == nodes[k].end_line
                &&& item.signature == nodes[k].signature
                &&& item.return_type == nodes[k].return_type
                &&& item.param_types == nodes[k].param_types
            },
{
}

/// Whether a node has one of the types that are asked for, a return type that
/// contains what is asked for, and parameter types that contain what is asked
/// for, the case of letters aside and as far as each is asked for.
pub open spec fn fits(
    node: NodeWithFile,
    types: Option<Seq<Seq<char>>>,
    returning: Option<Seq<char>>,
    params: Option<Seq<char>>,
) -> bool {
    &&& types matches Some(list) ==> exists|i: int|
        0 <= i < list.len() && #[trigger] list[i] == node.node_type@
    &&& returning matches Some(part) ==> (node.return_type matches Some(t) && contains(
        lowercase(t@),
        lowercase(part),
    ))
    &&& params matches Some(part) ==> (node.param_types matches Some(t) && contains(
        lowercase(t@),
        lowercase(part),
    ))
}

/// A filter lets a node pass exactly where the node's own fields say so: its
/// type is one of those asked for; it has a return type, and that contains what
/// is asked for; and it has parameter types, and these contain what is asked
/// for.
pub proof fn a_filter_reads_the_fields_of_a_node(
    node: NodeWithFile,
    types: Option<Seq<Seq<char>>>,
    returning: Option<Seq<char>>,
    params: Option<Seq<char>>,
)
    ensures
        passes(node, types, returning, params) <==> fits(node, types, returning, params),
{
    if let Some(list) = types {
        if passes(node, types, returning, params) {
            let i = choose|i: int| 0 <= i < list.len() && list[i] == node.node_type@;
            assert(list[i] == node.node_type@);
        }
    }
}

/// A selection has, in order, the nodes whose type, return type and parameter
/// types are those asked for. It leaves one of these out only behind as many
/// nodes as the limit allows. Gives the places of the selected nodes.
pub proof fn a_selection_has_the_first_nodes_that_fit(
    nodes: Seq<NodeWithFile>,
    types: Option<Seq<Seq<char>>>,
    returning: Option<Seq<char>>,
    params: Option<Seq<char>>,
    limit: nat,
) -> (at: Seq<int>)
    ensures
        ({
            let chosen = selected(nodes, types, returning, params, limit as int);
            &&& chosen.len() == at.len()
            &&& at.len() <= limit
            &&& ascending(at, nodes.len() as int)
            &&& forall|k: int|
                #![trigger at[k]]
                #![trigger chosen[k]]
                0 <= k < at.len() ==> chosen[k] == nodes[at[k]]
            &&& forall|k: int|
                0 <= k < chosen.len() ==> {
                    let node = #[trigger] chosen[k];
                    &&& types matches Some(list) ==> list.contains(node.node_type@)
                    &&& returning matches Some(part) ==> (node.return_type matches Some(t)
                        && contains(lowercase(t@), lowercase(part)))
                    &&& params matches Some(part) ==> (node.param_types matches Some(t)
                        && contains(lowercase(t@), lowercase(part)))
                }
            &&& forall|i: int|
                0 <= i < nodes.len() && fits(#[trigger] nodes[i], types, returning, params)
                    ==> at.contains(i) || (at.len() == limit && (limit > 0 ==> at.last() < i))
        }),
{
    let pass = |node: NodeWithFile| passes(node, types, returning, params);
    let passing = nodes.filter(pass);
    let all = a_filter_keeps_what_passes(nodes, pass);
    let chosen = selected(nodes, types, returning, params, limit as int);
    let at = if all.len() <= limit {
        all
    } else {
        all.take(limit as int)
    };
    assert forall|k: int|
        #![trigger at[k]]
        #![trigger chosen[k]]
        0 <= k < at.len() implies chosen[k] == nodes[at[k]] && pass(chosen[k]) by {
        assert(at[k] == all[k]);
        assert(chosen[k] == passing[k]);
    }
    assert forall|k: int| 0 <= k < chosen.len() implies passes(
        #[trigger] chosen[k],
        types,
        returning,
        params,
    ) by {
        assert(pass(chosen[k]));
    }
    assert forall|i: int|
        0 <= i < nodes.len() && fits(#[trigger] nodes[i], types, returning, params) implies at.contains(
        i,
    ) || (at.len() == limit && (limit > 0 ==> at.last() < i)) by {
        a_filter_reads_the_fields_of_a_node(nodes[i], types, returning, params);
        assert(pass(nodes[i]));
        let k = choose|k: int| 0 <= k < all.len() && all[k] == i;
        if k < at.len() {
            assert(at[k] == i);
        } else if limit > 0 {
            assert(all[limit - 1] < all[k]);
        }
    }
    at
}

/// The rank of an id is its last place among the ids; an id that is not there
/// ranks behind all of them.
pub proof fn an_id_ranks_by_its_last_place(ids: Seq<i64>, id: i64)
    requires
        ids.len() <= usize::MAX,
    ensures
        ids.contains(id) ==> 0 <= rank(ids, id) < ids.len() && ids[rank(ids, id)] == id && forall|
            i: int,
        |
            rank(ids, id) < i < ids.len() ==> #[trigger] ids[i] != id,
        !ids.contains(id) ==> rank(ids, id) == usize::MAX,
    decreases ids.len(),
{
    if ids.len() > 0 {
        let rest = ids.drop_last();
        an_id_ranks_by_its_last_place(rest, id);
        if ids.last() == id {
            assert(ids.contains(ids[ids.len() - 1]));
        } else if ids.contains(id) {
            let k = choose|k: int| 0 <= k < ids.len() && ids[k] == id;
            assert(rest[k] == id);
            assert forall|i: int| rank(ids, id) < i < ids.len() implies #[trigger] ids[i]
                != id by {
                if i < rest.len() {
                    assert(rest[i] != id);
                }
            }
        } else if rest.contains(id) {
            let k = choose|k: int| 0 <= k < rest.len() && rest[k] == id;
            assert(ids[k] == id);
        }
    }
}

/// Ranking keeps every node once and puts the nodes in the order of their ids,
/// those whose id is not there behind the others, and nodes of equal rank as
/// they stood. Gives the places from which they came.
pub proof fn a_ranking_follows_the_ids(
    ranked: Seq<NodeWithFile>,
    nodes: Seq<NodeWithFile>,
    ids: Seq<i64>,
) -> (order: Seq<usize>)
    requires
        is_ranked(ranked, nodes, ids),
        nodes.len() <= usize::MAX,
        ids.len() <= usize::MAX,
    ensures
        ranked.len() == nodes.len(),
        order.len() == nodes.len(),
        forall|k: int|
            0 <= k < order.len() ==> #[trigger] order[k] < nodes.len() && ranked[k]
                == nodes[order[k] as int],
        forall|a: int, b: int|
            0 <= a < b < order.len() ==> #[trigger] order[a] != #[trigger] order[b],
        forall|a: int, b: int|
            0 <= a < b < ranked.len() && ids.contains((#[trigger] ranked[b]).id) ==> ids.contains(
                (#[trigger] ranked[a]).id,
            ),
        forall|a: int, b: int, i: int|
            0 <= a < b < ranked.len() && 0 <= i < ids.len() && (#[trigger] ranked[a]).id
                == #[trigger] ids[i] && ids.contains((#[trigger] ranked[b]).id) && (forall|j: int|
                i < j < ids.len() ==> #[trigger] ids[j] != ids[i]) ==> exists|j: int|
                i <= j < ids.len() && #[trigger] ids[j] == ranked[b].id,
        forall|a: int, b: int|
            0 <= a < b < ranked.len() && (#[trigger] ranked[a]).id == (#[trigger] ranked[b]).id
                ==> order[a] < order[b],
{
    let keys = ranks(nodes, ids);
    let order = choose|order: Seq<usize>| #[trigger]
        stably_orders(order, keys) && ranked == order.map_values(|i: usize| nodes[i as int]);
    a_stable_order_ascends(order, keys);
    assert forall|k: int| 0 <= k < order.len() implies #[trigger] order[k] < nodes.len()
        && ranked[k] == nodes[order[k] as int] by {}
    assert forall|k: int| 0 <= k < nodes.len() implies #[trigger] keys[k] == rank(
        ids,
        nodes[k].id,
    ) by {
        lemma_rank_range(ids, nodes[k].id);
    }
    assert forall|a: int, b: int| 0 <= a < b < ranked.len() implies rank(
        ids,
        (#[trigger] ranked[a]).id,
    ) <= rank(ids, (#[trigger] ranked[b]).id) by {
        assert(keys[order[a] as int] <= keys[order[b] as int]);
    }
    assert forall|a: int, b: int|
        0 <= a < b < ranked.len() && ids.contains((#[trigger] ranked[b]).id) implies ids.contains(
        (#[trigger] ranked[a]).id,
    ) by {
        an_id_ranks_by_its_last_place(ids, ranked[a].id);
        an_id_ranks_by_its_last_place(ids, ranked[b].id);
    }
    assert forall|a: int, b: int, i: int|
        0 <= a < b < ranked.len() && 0 <= i < ids.len() && (#[trigger] ranked[a]).id
            == #[trigger] ids[i] && ids.contains((#[trigger] ranked[b]).id) && (forall|j: int|
            i < j < ids.len() ==> #[trigger] ids[j] != ids[i]) implies exists|j: int|
        i <= j < ids.len() && #[trigger] ids[j] == ranked[b].id by {
        an_id_ranks_by_its_last_place(ids, ranked[a].id);
        an_id_ranks_by_its_last_place(ids, ranked[b].id);
        assert(ids.contains(ids[i]));
        let r = rank(ids, ranked[a].id);
        assert(r == i) by {
            if r < i {
                assert(ids[i] != ranked[a].id);
            } else if r > i {
                assert(ids[r] != ids[i]);
            }
        }
        assert(ids[rank(ids, ranked[b].id)] == ranked[b].id);
    }
    assert forall|a: int, b: int|
        0 <= a < b < ranked.len() && (#[trigger] ranked[a]).id == (
        #[trigger] ranked[b]).id implies order[a] < order[b] by {
        assert(keys[order[a] as int] == keys[order[b] as int]);
    }
    order
}

/// The step on an index that is up to date hands over what was asked for: the
/// query itself, with four times the limit; or, without a query, the types, the
/// filters and the limit; a request with neither query nor filter is answered by
/// an error and nothing is looked up.
pub proof fn a_plan_hands_over_the_request(
    before: AstSearch,
    after: AstSearch,
    action: AstSearchAction,
)
    requires
        planned(before, after, action),
    ensures
        after.request == before.request && after.types == before.types && after.inner
            == before.inner,
        before.request.query matches Some(words) ==> after.stage is Ranking && (
        action matches AstSearchAction::Rank { query, wanted } && query == words && wanted
            == before.request.limit + before.request.limit + before.request.limit
            + before.request.limit),
        before.request.query is None && (before.request.type_filter is Some
            || before.request.returns_filter is Some || before.request.params_filter is Some)
            ==> after.stage is Listing && (action matches AstSearchAction::List {
            types,
            returning,
            params,
            limit,
        } && opt_texts(types) == opt_texts(before.types) && opt_text(returning) == opt_text(
            before.request.returns_filter,
        ) && opt_text(params) == opt_text(before.request.params_filter) && limit
            == before.request.limit),
        before.request.query is None && before.request.type_filter is None
            && before.request.returns_filter is None && before.request.params_filter is None
            ==> after.stage is Done && (action matches AstSearchAction::Fail(message) && message@
            == "Either query or at least one filter (type, returns, params) is required."@),
{
}

/// A step waits for the one event of its stage and keeps what was asked for: the
/// ids that a query found are loaded, all of them and in order.
pub proof fn found_ids_are_loaded(
    before: AstSearch,
    ids: Vec<i64>,
    after: AstSearch,
    action: AstSearchAction,
)
    requires
        before.stage is Ranking,
        stepped(before, AstSearchEvent::Ranked(ids), after, action),
    ensures
        after.request == before.request && after.types == before.types && after.inner
            == before.inner,
        ids@.len() > 0 ==> (after.stage matches AstSearchStage::Loading(wanted) && wanted@ == ids@)
            && (action matches AstSearchAction::Load { ids: asked } && asked@ == ids@),
        ids@.len() == 0 && before.request.returns_filter is Some && before.inner is Some
            ==> after.stage == (AstSearchStage::Retrying { unranked: true }) && (
        action matches AstSearchAction::List { types, returning, params, limit } && opt_texts(types)
            == opt_texts(before.types) && opt_text(returning) == opt_text(before.inner) && opt_text(
            params,
        ) == opt_text(before.request.params_filter) && limit == 100),
        ids@.len() == 0 && !(before.request.returns_filter is Some && before.inner is Some)
            ==> after.stage is Done && (action matches AstSearchAction::Reply(reply)
            && reply.results@.len() == 0 && reply.count is None && reply.hint is None
            && reply.suggested_query is None && opt_text(reply.message) == Some(
            "No results found."@,
        )),
{
}

/// The results on the loaded nodes, or else the step to the inner type of the
/// returns filter: each result shows a loaded node whose type, return type and
/// parameter types are those asked for; they come in the order of the ids, and
/// there are no more of them than the limit allows; one that fits is left out
/// only where there are as many; the count says how many, and nothing else is
/// told. Where no
/// loaded node fits, and there is an inner type, that is tried in place of the
/// returns filter.
pub proof fn a_reply_to_a_query_holds_what_fits(
    before: AstSearch,
    ids: Vec<i64>,
    nodes: Vec<NodeWithFile>,
    after: AstSearch,
    action: AstSearchAction,
)
    requires
        before.stage == AstSearchStage::Loading(ids),
        stepped(before, AstSearchEvent::Nodes(nodes), after, action),
    ensures
        action matches AstSearchAction::Reply(reply) ==> {
            &&& after.stage is Done
            &&& reply.results@.len() <= before.request.limit
            &&& reply.count matches Some(n) && n == reply.results@.len()
            &&& reply.message is None && reply.hint is None && reply.suggested_query is None
            &&& forall|k: int|
                0 <= k < reply.results@.len() ==> {
                    let item = #[trigger] reply.results@[k];
                    &&& opt_texts(before.types) matches Some(list) ==> list.contains(item.node_type@)
                    &&& before.request.returns_filter matches Some(part) ==> (
                    item.return_type matches Some(t) && contains(lowercase(t@), lowercase(part@)))
                    &&& before.request.params_filter matches Some(part) ==> (
                    item.param_types matches Some(t) && contains(lowercase(t@), lowercase(part@)))
                    &&& exists|i: int|
                        0 <= i < nodes@.len() && (#[trigger] nodes@[i]).id == item.node_id
                            && nodes@[i].node_type == item.node_type && nodes@[i].file_path
                            == item.file_path && nodes@[i].start_line == item.start_line
                            && nodes@[i].end_line == item.end_line && nodes@[i].signature
                            == item.signature && nodes@[i].return_type == item.return_type
                            && nodes@[i].param_types == item.param_types && item.name == (
                        match nodes@[i].qualified_name {
                            Some(name) => name,
                            None => nodes@[i].name,
                        })
                }
            &&& forall|a: int, b: int|
                0 <= a < b < reply.results@.len() ==> rank(
                    ids@,
                    (#[trigger] reply.results@[a]).node_id,
                ) <= rank(ids@, (#[trigger] reply.results@[b]).node_id)
            &&& reply.results@.len() < before.request.limit ==> forall|i: int|
                0 <= i < nodes@.len() && fits(
                    #[trigger] nodes@[i],
                    opt_texts(before.types),
                    opt_text(before.request.returns_filter),
                    opt_text(before.request.params_filter),
                ) ==> exists|k: int|
                    0 <= k < reply.results@.len() && (#[trigger] reply.results@[k]).node_id
                        == nodes@[i].id
        },
        action is Reply || (action matches AstSearchAction::List {
            types,
            returning,
            params,
            limit,
        } && after.stage == (AstSearchStage::Retrying { unranked: false }) && opt_texts(types)
            == opt_texts(before.types) && before.inner is Some && opt_text(returning) == opt_text(
            before.inner,
        ) && opt_text(params) == opt_text(before.request.params_filter) && limit == 100),
{
    let types = opt_texts(before.types);
    let returning = opt_text(before.request.returns_filter);
    let params = opt_text(before.request.params_filter);
    let limit = before.request.limit as nat;
    assert(nodes.len() == nodes@.len());
    assert(ids.len() == ids@.len());
    let ranked = choose|ranked: Seq<NodeWithFile>| #[trigger]
        is_ranked(ranked, nodes@, ids@) && concluded(
            before,
            selected(ranked, types, returning, params, limit as int),
            after,
            action,
        );
    let chosen = selected(ranked, types, returning, params, limit as int);
    if let AstSearchAction::Reply(reply) = action {
        let at = a_selection_has_the_first_nodes_that_fit(ranked, types, returning, params, limit);
        let order = a_ranking_follows_the_ids(ranked, nodes@, ids@);
        ranking_orders_the_nodes(ranked, nodes@, ids@);
        a_result_shows_its_node(chosen);
        assert forall|k: int| 0 <= k < reply.results@.len() implies {
            let item = #[trigger] reply.results@[k];
            &&& types matches Some(list) ==> list.contains(item.node_type@)
            &&& before.request.returns_filter matches Some(part) ==> (
            item.return_type matches Some(t) && contains(lowercase(t@), lowercase(part@)))
            &&& before.request.params_filter matches Some(part) ==> (
            item.param_types matches Some(t) && contains(lowercase(t@), lowercase(part@)))
            &&& exists|i: int|
                0 <= i < nodes@.len() && (#[trigger] nodes@[i]).id == item.node_id
                    && nodes@[i].node_type == item.node_type && nodes@[i].file_path
                    == item.file_path && nodes@[i].start_line == item.start_line
                    && nodes@[i].end_line == item.end_line && nodes@[i].signature
                    == item.signature && nodes@[i].return_type == item.return_type
                    && nodes@[i].param_types == item.param_types && item.name == (
                match nodes@[i].qualified_name {
                    Some(name) => name,
                    None => nodes@[i].name,
                })
        } by {
            let item = items_of(chosen)[k];
            assert(reply.results@[k] == item);
            let place = order[at[k]] as int;
            assert(chosen[k] == ranked[at[k]]);
            assert(nodes@[place] == chosen[k]);
        }
        assert forall|a: int, b: int| 0 <= a < b < reply.results@.len() implies rank(
            ids@,
            (#[trigger] reply.results@[a]).node_id,
        ) <= rank(ids@, (#[trigger] reply.results@[b]).node_id) by {
            assert(reply.results@[a] == items_of(chosen)[a]);
            assert(reply.results@[b] == items_of(chosen)[b]);
            assert(chosen[a] == ranked[at[a]] && chosen[b] == ranked[at[b]]);
        }
        if reply.results@.len() < limit {
            assert forall|i: int|
                0 <= i < nodes@.len() && fits(
                    #[trigger] nodes@[i],
                    types,
                    returning,
                    params,
                ) implies exists|k: int|
                0 <= k < reply.results@.len() && (#[trigger] reply.results@[k]).node_id
                    == nodes@[i].id by {
                assert(ranked.contains(nodes@[i]));
                let p = choose|p: int| 0 <= p < ranked.len() && ranked[p] == nodes@[i];
                assert(fits(ranked[p], types, returning, params));
                assert(at.contains(p));
                let k = choose|k: int| 0 <= k < at.len() && at[k] == p;
                assert(reply.results@[k] == items_of(chosen)[k]);
                assert(chosen[k] == nodes@[i]);
            }
        }
    }
}

/// The results on listed nodes are these nodes, all of them and in order; the
/// count says how many. Where nothing is listed, and there is an inner type of
/// the returns filter, that is tried.
pub proof fn a_reply_to_filters_shows_the_listed_nodes(
    before: AstSearch,
    nodes: Vec<NodeWithFile>,
    after: AstSearch,
    action: AstSearchAction,
)
    requires
        before.stage is Listing,
        stepped(before, AstSearchEvent::Nodes(nodes), after, action),
    ensures
        nodes@.len() > 0 || before.request.returns_filter is None || before.inner is None
            ==> after.stage is Done && (action matches AstSearchAction::Reply(reply) && {
            &&& reply.results@ == items_of(nodes@)
            &&& reply.count matches Some(n) && n == nodes@.len()
            &&& reply.message is None && reply.hint is None && reply.suggested_query is None
        }),
        nodes@.len() == 0 && before.request.returns_filter is Some && before.inner is Some
            ==> after.stage == (AstSearchStage::Retrying { unranked: false }) && (
        action matches AstSearchAction::List { types, returning, params, limit } && opt_texts(types)
            == opt_texts(before.types) && opt_text(returning) == opt_text(before.inner) && opt_text(
            params,
        ) == opt_text(before.request.params_filter) && limit == 100),
{
    assert(nodes.len() == nodes@.len());
}

/// The step on the matches of an inner type always answers, without results.
/// Where there are matches the hint names both filters and the number of
/// matches, and the suggested request is the one that was made, with the inner
/// type for its returns filter. Where there are none, the answer is that of a
/// search that found nothing: a message where the query found nothing, and a
/// count of zero where nothing passed the filters.
pub proof fn a_hint_names_both_filters(
    before: AstSearch,
    unranked: bool,
    nodes: Vec<NodeWithFile>,
    after: AstSearch,
    action: AstSearchAction,
    returning: String,
    inner: String,
)
    requires
        before.stage == (AstSearchStage::Retrying { unranked }),
        before.request.returns_filter == Some(returning),
        before.inner == Some(inner),
        stepped(before, AstSearchEvent::Nodes(nodes), after, action),
    ensures
        after.stage is Done,
        action matches AstSearchAction::Reply(reply) && reply.results@.len() == 0 && {
            &&& nodes@.len() > 0 ==> {
                &&& reply.count == Some(0usize)
                &&& reply.message is None
                &&& opt_text(reply.hint) == Some(
                    "No match for returns='"@ + returning@ + "'. Substring '"@ + inner@
                        + "' has "@ + numeral(nodes@.len()) + (if nodes@.len() == 1 {
                        " match"@
                    } else {
                        " matches"@
                    }) + " — try that."@,
                )
                &&& reply.suggested_query matches Some(q) && q.returns_filter == inner
                    && q.type_filter == before.request.type_filter && q.params_filter
                    == before.request.params_filter && q.query == before.request.query
            }
            &&& nodes@.len() == 0 ==> reply.hint is None && reply.suggested_query is None
            &&& nodes@.len() == 0 && unranked ==> reply.count is None && opt_text(reply.message)
                == Some("No results found."@)
            &&& nodes@.len() == 0 && !unranked ==> reply.count == Some(0usize) && reply.message
                is None
        },
{
}

/// A search brings the index up to date before anything else, unless it is told
/// to take the index as it is; and it then does at once what it would have done
/// on the index that is up to date.
pub proof fn a_search_starts_with_the_index(
    search: AstSearch,
    skip_indexing: bool,
    action: AstSearchAction,
)
    requires
        started(search, skip_indexing, action),
    ensures
        !skip_indexing <==> action is EnsureIndexed,
        !skip_indexing ==> search.stage is Indexing,
        skip_indexing ==> stepped(
            (AstSearch { stage: AstSearchStage::Indexing, ..search }),
            AstSearchEvent::Indexed,
            search,
            action,
        ),
{
}

/// Each stage of a search waits for one kind of event; a search that is done
/// waits for none.
pub proof fn each_stage_waits_for_one_event(stage: AstSearchStage, event: AstSearchEvent)
    ensures
        awaits(stage, event) <==> match event {
            AstSearchEvent::Indexed => stage is Indexing,
            AstSearchEvent::Ranked(_) => stage is Ranking,
            AstSearchEvent::Nodes(_) => stage is Loading || stage is Listing || stage is Retrying,
        },
{
}

/// An event that a search does not wait for changes nothing and asks for nothing; one
/// that it waits for is never passed over.
pub proof fn an_event_counts_where_it_is_waited_for(
    before: AstSearch,
    event: AstSearchEvent,
    after: AstSearch,
    action: AstSearchAction,
)
    requires
        goes_on(before, event, after, action),
    ensures
        !awaits(before.stage, event) ==> after == before && action is Ignore,
        awaits(before.stage, event) ==> stepped(before, event, after, action) && action !is Ignore,
{
}

} // verus!
