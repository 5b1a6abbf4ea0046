//! Measuring how well a model routes a question to a tool: which questions are
//! asked of which models with which tools on offer, and how the picks score.
use crate::sequence::{a_filter_keeps_what_passes, ascending};
use crate::text::{
    has_text, is_empty_text, joined, joining_undoes_splitting, opt_str, opt_text, same_text, split,
    split_on, texts, trim, trimmed,
};
use vstd::prelude::*;

verus! {

/// Whether the tools stand alone, or beside tools that compete with them and
/// with a line of context.
#[derive(Debug, Clone, Copy, PartialEq, Eq, Structural)]
pub enum BenchMode {
    ToolOnly,
    ContextRich,
}

/// Which questions are asked.
#[derive(Debug, Clone, Copy, PartialEq, Eq, Structural)]
pub enum BenchDomain {
    Backend,
    Frontend,
    All,
}

/// The mode that a setting names; the tools alone where it names none.
pub open spec fn mode_named(setting: Option<Seq<char>>) -> BenchMode {
    match setting {
        Some(s) => if s == "context-rich"@ {
            BenchMode::ContextRich
        } else {
            BenchMode::ToolOnly
        },
        None => BenchMode::ToolOnly,
    }
}

/// The mode that a setting names; the tools alone where it names none.
pub fn detect_mode_for(env: Option<&str>) -> (r: BenchMode)
    ensures
        r == mode_named(opt_str(env)),
{
    match env {
        Some(s) => if same_text(s, "context-rich") {
            BenchMode::ContextRich
        } else {
            BenchMode::ToolOnly
        },
        None => BenchMode::ToolOnly,
    }
}

/// The domain that a setting names; the backend where it names none.
pub open spec fn domain_named(setting: Option<Seq<char>>) -> BenchDomain {
    match setting {
        Some(s) => if s == "frontend"@ {
            BenchDomain::Frontend
        } else if s == "all"@ {
            BenchDomain::All
        } else {
            BenchDomain::Backend
        },
        None => BenchDomain::Backend,
    }
}

/// The domain that a setting names; the backend where it names none.
pub fn detect_domain_for(env: Option<&str>) -> (r: BenchDomain)
    ensures
        r == domain_named(opt_str(env)),
{
    match env {
        Some(s) => if same_text(s, "frontend") {
            BenchDomain::Frontend
        } else if same_text(s, "all") {
            BenchDomain::All
        } else {
            BenchDomain::Backend
        },
        None => BenchDomain::Backend,
    }
}

/// A question and the tool that it should go to, or several tools with `|`
/// between them.
pub type Question = (&'static str, &'static str);

/// The questions of a domain: those of the backend, those of the frontend, or
/// the former before the latter.
pub open spec fn questions_of(
    domain: BenchDomain,
    backend: Seq<Question>,
    frontend: Seq<Question>,
) -> Seq<Question> {
    match domain {
        BenchDomain::Backend => backend,
        BenchDomain::Frontend => frontend,
        BenchDomain::All => backend + frontend,
    }
}

fn extend(list: &mut Vec<Question>, more: &[Question])
    ensures
        final(list)@ == old(list)@ + more@,
{
    let ghost start = list@;
    let mut i: usize = 0;
    while i < more.len()
        invariant
            i <= more@.len(),
            list@ == start + more@.take(i as int),
        decreases more@.len() - i,
    {
        list.push(more[i]);
        i = i + 1;
        assert(more@.take(i as int) =~= more@.take(i - 1).push(more@[i - 1]));
    }
    assert(more@.take(more@.len() as int) =~= more@);
}

/// The questions of a domain, out of two pools.
pub fn active_oracle(domain: BenchDomain, backend: &[Question], frontend: &[Question]) -> (r: Vec<
    Question,
>)
    ensures
        r@ == questions_of(domain, backend@, frontend@),
{
    let mut list: Vec<Question> = Vec::new();
    match domain {
        BenchDomain::Backend => {
            extend(&mut list, backend);
        },
        BenchDomain::Frontend => {
            extend(&mut list, frontend);
        },
        BenchDomain::All => {
            extend(&mut list, backend);
            extend(&mut list, frontend);
        },
    }
    assert(list@ =~= questions_of(domain, backend@, frontend@));
    list
}

/// The questions to ask: those of the domain, and with context also those that
/// should go to none of the measured tools.
pub open spec fn oracle_of(
    mode: BenchMode,
    domain: BenchDomain,
    backend: Seq<Question>,
    frontend: Seq<Question>,
    outside: Seq<Question>,
) -> Seq<Question> {
    questions_of(domain, backend, frontend) + (match mode {
        BenchMode::ToolOnly => Seq::empty(),
        BenchMode::ContextRich => outside,
    })
}

/// The questions to ask: those of the domain, and with context also those that
/// should go to none of the measured tools.
pub fn build_oracle(
    mode: BenchMode,
    domain: BenchDomain,
    backend: &[Question],
    frontend: &[Question],
    outside: &[Question],
) -> (r: Vec<Question>)
    ensures
        r@ == oracle_of(mode, domain, backend@, frontend@, outside@),
{
    let mut list = active_oracle(domain, backend, frontend);
    match mode {
        BenchMode::ToolOnly => {},
        BenchMode::ContextRich => {
            extend(&mut list, outside);
        },
    }
    assert(list@ =~= oracle_of(mode, domain, backend@, frontend@, outside@));
    list
}

/// What a model is told to do.
pub const SYSTEM_PROMPT: &'static str = "You are a code-search assistant. For the user's query, pick exactly ONE tool to invoke. Prefer the most specific tool whose description matches the intent. Do not answer in prose — call a tool.";

/// The line of context about the tools.
pub const INDEX_LINE: &'static str = "- [code-graph-mcp](plugin_code_graph_mcp.md) [impact-analysis, callgraph, find-references, module-overview, semantic-search, ast-search, dead-code, find-similar-code, dependency-graph, trace-http-chain] — 改 X 影响面/谁调用 X/X 被谁用/看 X 源码/Y 模块长啥样/概念查询 优先于 Grep；字面匹配走 Grep。核心 7（get_call_graph/module_overview/semantic_code_search/ast_search/find_references/get_ast_node/project_map）+ 进阶 5（impact_analysis/trace_http_chain/dependency_graph/find_similar_code/find_dead_code），决策表见全文";

/// What stands between the task and the line of context.
pub const MEMORY_INTRODUCTION: &'static str = "\n\nUser has the following entry in their project MEMORY.md (auto-loaded):\n";

/// What a model is told: its task, and with context also the line about the
/// tools.
pub open spec fn prompt_for(mode: BenchMode) -> Seq<char> {
    match mode {
        BenchMode::ToolOnly => SYSTEM_PROMPT@,
        BenchMode::ContextRich => SYSTEM_PROMPT@ + MEMORY_INTRODUCTION@ + INDEX_LINE@,
    }
}

/// What a model is told: its task, and with context also the line about the
/// tools.
pub fn build_system_prompt(mode: BenchMode) -> (r: String)
    ensures
        r@ == prompt_for(mode),
{
    let mut prompt = SYSTEM_PROMPT.to_owned();
    match mode {
        BenchMode::ToolOnly => {},
        BenchMode::ContextRich => {
            prompt.append(MEMORY_INTRODUCTION);
            prompt.append(INDEX_LINE);
        },
    }
    prompt
}

/// A parameter of a tool.
pub struct ToolParameter {
    pub name: String,
    pub value_type: String,
    pub description: Option<String>,
}

/// A tool on offer.
pub struct ToolSpec {
    pub name: String,
    pub description: String,
    pub parameters: Vec<ToolParameter>,
    pub required: Vec<String>,
}

/// What the text search says of itself.
pub const GREP_DESCRIPTION: &'static str = "Fast text/regex search across files. Use for literal strings, regex patterns, or finding occurrences of fixed text. Prefer over code-graph tools when you don't need structural understanding (e.g., grep for `TODO`, `FIXME`, literal log strings).";

/// What the file reader says of itself.
pub const READ_DESCRIPTION: &'static str = "Read file contents from disk by path. Use when you need to see specific contents of a known file (e.g., 'what's in CHANGELOG.md', 'show line 50 of foo.rs', '.gitignore contents'). Prefer over code-graph tools for non-source files (config, docs, logs).";

/// A parameter as values: its name, its type and its description.
pub open spec fn parameter_text(p: ToolParameter) -> (Seq<char>, Seq<char>, Option<Seq<char>>) {
    (p.name@, p.value_type@, opt_text(p.description))
}

/// Whether a tool has this name and description, these parameters, and
/// requires its first parameter alone.
pub open spec fn offers(
    tool: ToolSpec,
    name: Seq<char>,
    description: Seq<char>,
    parameters: Seq<(Seq<char>, Seq<char>, Option<Seq<char>>)>,
) -> bool {
    &&& tool.name@ == name
    &&& tool.description@ == description
    &&& tool.parameters@.map_values(|p: ToolParameter| parameter_text(p)) == parameters
    &&& texts(tool.required@) == seq![parameters[0].0]
}

/// Whether these are the two tools that compete with the measured ones.
pub open spec fn are_decoys(tools: Seq<ToolSpec>) -> bool {
    &&& tools.len() == 2
    &&& offers(
        tools[0],
        "Grep"@,
        GREP_DESCRIPTION@,
        seq![
            ("pattern"@, "string"@, Some("Pattern to search for (literal or regex)"@)),
            ("path"@, "string"@, Some("Optional path to scope the search"@)),
        ],
    )
    &&& offers(
        tools[1],
        "Read"@,
        READ_DESCRIPTION@,
        seq![
            ("file_path"@, "string"@, None),
            ("offset"@, "integer"@, None),
            ("limit"@, "integer"@, None),
        ],
    )
}

fn parameter(name: &str, value_type: &str, description: Option<&str>) -> (r: ToolParameter)
    ensures
        parameter_text(r) == (name@, value_type@, opt_str(description)),
{
    let description = match description {
        Some(s) => Some(s.to_owned()),
        None => None,
    };
    ToolParameter { name: name.to_owned(), value_type: value_type.to_owned(), description }
}

/// The two tools that compete with the measured ones: a text search and a file
/// reader.
pub fn decoy_tools() -> (r: Vec<ToolSpec>)
    ensures
        are_decoys(r@),
{
    let grep_parameters = vec![
        parameter("pattern", "string", Some("Pattern to search for (literal or regex)")),
        parameter("path", "string", Some("Optional path to scope the search")),
    ];
    let read_parameters = vec![
        parameter("file_path", "string", None),
        parameter("offset", "integer", None),
        parameter("limit", "integer", None),
    ];
    let grep_required = vec!["pattern".to_owned()];
    let read_required = vec!["file_path".to_owned()];
    proof {
        assert(texts(grep_required@) =~= seq!["pattern"@]);
        assert(texts(read_required@) =~= seq!["file_path"@]);
        assert(grep_parameters@.map_values(|p: ToolParameter| parameter_text(p)) =~= seq![
            ("pattern"@, "string"@, Some("Pattern to search for (literal or regex)"@)),
            ("path"@, "string"@, Some("Optional path to scope the search"@)),
        ]);
        assert(read_parameters@.map_values(|p: ToolParameter| parameter_text(p)) =~= seq![
            ("file_path"@, "string"@, None),
            ("offset"@, "integer"@, None),
            ("limit"@, "integer"@, None),
        ]);
    }
    vec![
        ToolSpec {
            name: "Grep".to_owned(),
            description: GREP_DESCRIPTION.to_owned(),
            parameters: grep_parameters,
            required: grep_required,
        },
        ToolSpec {
            name: "Read".to_owned(),
            description: READ_DESCRIPTION.to_owned(),
            parameters: read_parameters,
            required: read_required,
        },
    ]
}

/// Whether these are the tools on offer: the measured ones, and with context the
/// competing ones behind them.
pub open spec fn on_offer(tools: Seq<ToolSpec>, mode: BenchMode, measured: Seq<ToolSpec>) -> bool {
    match mode {
        BenchMode::ToolOnly => tools == measured,
        BenchMode::ContextRich => {
            &&& tools.len() == measured.len() + 2
            &&& tools.take(measured.len() as int) == measured
            &&& are_decoys(tools.skip(measured.len() as int))
        },
    }
}

/// The tools on offer: the measured ones, and with context the competing ones
/// behind them.
pub fn build_tools(mode: BenchMode, registry_tools: Vec<ToolSpec>) -> (r: Vec<ToolSpec>)
    ensures
        on_offer(r@, mode, registry_tools@),
{
    let mut tools = registry_tools;
    match mode {
        BenchMode::ToolOnly => {},
        BenchMode::ContextRich => {
            let mut decoys = decoy_tools();
            let ghost added = decoys@;
            tools.append(&mut decoys);
            assert(tools@.take(registry_tools@.len() as int) =~= registry_tools@);
            assert(tools@.skip(registry_tools@.len() as int) =~= added);
        },
    }
    tools
}

/// Whether a pick is one of the tools that were expected.
pub open spec fn expected_pick(picked: Seq<char>, expected: Seq<char>) -> bool {
    split(expected, '|').contains(picked)
}

/// Whether a pick is one of the tools that were expected, these being
/// separated by `|`.
pub fn matches_expected(picked: &str, expected: &str) -> (r: bool)
    ensures
        r == expected_pick(picked@, expected@),
{
    let tools = split_on(expected, '|');
    has_text(&tools, picked)
}

/// What was picked for each question.
pub struct Picks {
    /// Questions and picks; a later pick for a question goes before an earlier.
    pub list: Vec<(String, String)>,
}

/// The last pick for a question in a list.
pub open spec fn pick_in(list: Seq<(String, String)>, question: Seq<char>) -> Option<Seq<char>>
    decreases list.len(),
{
    if list.len() == 0 {
        None
    } else if list.last().0@ == question {
        Some(list.last().1@)
    } else {
        pick_in(list.drop_last(), question)
    }
}

/// Whether picks differ by the pick for a question that was set.
pub open spec fn set(before: Picks, question: Seq<char>, pick: Seq<char>, after: Picks) -> bool {
    forall|q: Seq<char>| #[trigger]
        after.pick(q) == if q == question {
            Some(pick)
        } else {
            before.pick(q)
        }
}

impl Picks {
    /// The pick for a question.
    pub open spec fn pick(self, question: Seq<char>) -> Option<Seq<char>> {
        pick_in(self.list@, question)
    }

    /// No picks.
    pub fn new() -> (r: Picks)
        ensures
            forall|question: Seq<char>| #[trigger] r.pick(question) is None,
    {
        Picks { list: Vec::new() }
    }

    /// Sets the pick for a question.
    pub fn insert(&mut self, question: String, pick: String)
        ensures
            set(*old(self), question@, pick@, *final(self)),
    {
        let ghost before = self.list@;
        self.list.push((question, pick));
        assert(self.list@.drop_last() =~= before);
    }

    /// The pick for a question.
    pub fn get(&self, question: &str) -> (r: Option<&String>)
        ensures
            match r {
                Some(p) => self.pick(question@) == Some(p@),
                None => self.pick(question@) is None,
            },
    {
        let mut i: usize = self.list.len();
        assert(self.list@.take(i as int) =~= self.list@);
        while i > 0
            invariant
                i <= self.list@.len(),
                self.pick(question@) == pick_in(self.list@.take(i as int), question@),
            decreases i,
        {
            assert(self.list@.take(i as int).drop_last() =~= self.list@.take(i - 1));
            assert(self.list@.take(i as int).last() == self.list@[i - 1]);
            i = i - 1;
            if same_text(self.list[i].0.as_str(), question) {
                return Some(&self.list[i].1);
            }
        }
        None
    }
}

/// A part of a whole. Its value is 0 where the whole is 0.
pub struct Fraction {
    pub part: usize,
    pub whole: usize,
}

/// Whether the pick for a question is one that was expected.
pub open spec fn hit(picks: Picks, question: Question) -> bool {
    match picks.pick(question.0@) {
        Some(picked) => expected_pick(picked, question.1@),
        None => false,
    }
}

/// The number of questions whose pick is one that was expected.
pub open spec fn hits(picks: Picks, questions: Seq<Question>) -> nat
    decreases questions.len(),
{
    if questions.len() == 0 {
        0
    } else {
        hits(picks, questions.drop_last()) + (if hit(picks, questions.last()) {
            1nat
        } else {
            0nat
        })
    }
}

/// Whether no competing tool was picked for a question.
pub open spec fn leaks(picks: Picks, question: Question) -> bool {
    match picks.pick(question.0@) {
        Some(picked) => picked != "Grep"@ && picked != "Read"@,
        None => true,
    }
}

/// The number of questions for which no competing tool was picked.
pub open spec fn leak_count(picks: Picks, questions: Seq<Question>) -> nat
    decreases questions.len(),
{
    if questions.len() == 0 {
        0
    } else {
        leak_count(picks, questions.drop_last()) + (if leaks(picks, questions.last()) {
            1nat
        } else {
            0nat
        })
    }
}

fn count_hits(picks: &Picks, questions: &[Question]) -> (r: usize)
    ensures
        r == hits(*picks, questions@),
        r <= questions@.len(),
{
    let mut count: usize = 0;
    let mut i: usize = 0;
    assert(questions@.take(0) =~= Seq::empty());
    while i < questions.len()
        invariant
            i <= questions@.len(),
            count <= i,
            count == hits(*picks, questions@.take(i as int)),
        decreases questions@.len() - i,
    {
        let (question, expected) = questions[i];
        assert(questions@.take(i + 1).drop_last() =~= questions@.take(i as int));
        assert(questions@.take(i + 1).last() == questions@[i as int]);
        let is_hit: bool = match picks.get(question) {
            Some(picked) => matches_expected(picked.as_str(), expected),
            None => false,
        };
        if is_hit {
            count = count + 1;
        }
        i = i + 1;
    }
    assert(questions@.take(questions@.len() as int) =~= questions@);
    count
}

fn count_leaks(picks: &Picks, questions: &[Question]) -> (r: usize)
    ensures
        r == leak_count(*picks, questions@),
        r <= questions@.len(),
{
    let mut count: usize = 0;
    let mut i: usize = 0;
    assert(questions@.take(0) =~= Seq::empty());
    while i < questions.len()
        invariant
            i <= questions@.len(),
            count <= i,
            count == leak_count(*picks, questions@.take(i as int)),
        decreases questions@.len() - i,
    {
        let (question, _) = questions[i];
        assert(questions@.take(i + 1).drop_last() =~= questions@.take(i as int));
        assert(questions@.take(i + 1).last() == questions@[i as int]);
        let leaked: bool = match picks.get(question) {
            Some(picked) => !same_text(picked.as_str(), "Grep") && !same_text(
                picked.as_str(),
                "Read",
            ),
            None => true,
        };
        if leaked {
            count = count + 1;
        }
        i = i + 1;
    }
    assert(questions@.take(questions@.len() as int) =~= questions@);
    count
}

/// Whether a fraction is the recall.
pub open spec fn is_recall(f: Fraction, picks: Picks, oracle: Seq<Question>) -> bool {
    f.part == hits(picks, oracle) && f.whole == oracle.len()
}

/// Whether a fraction is the rate of false positives.
pub open spec fn is_fp_rate(f: Fraction, picks: Picks, outside: Seq<Question>) -> bool {
    f.part == leak_count(picks, outside) && f.whole == outside.len()
}

/// Whether a fraction is the overall score.
pub open spec fn is_overall(
    f: Fraction,
    picks: Picks,
    oracle: Seq<Question>,
    outside: Seq<Question>,
) -> bool {
    &&& f.part == hits(picks, oracle) + outside.len() - leak_count(picks, outside)
    &&& f.whole == oracle.len() + outside.len()
}

/// The recall: the questions whose pick is one that was expected, out of all.
pub fn compute_recall(picks: &Picks, oracle: &[Question]) -> (r: Fraction)
    ensures
        is_recall(r, *picks, oracle@),
        r.part <= r.whole,
{
    Fraction { part: count_hits(picks, oracle), whole: oracle.len() }
}

/// The rate of false positives: of the questions that should go to a competing
/// tool, those that went to none. A pick of the wrong competing tool is no
/// false positive.
pub fn compute_fp_rate(picks: &Picks, outside: &[Question]) -> (r: Fraction)
    ensures
        is_fp_rate(r, *picks, outside@),
        r.part <= r.whole,
{
    Fraction { part: count_leaks(picks, outside), whole: outside.len() }
}

/// The overall score: the hits, and the questions that went to a competing tool
/// as they should, out of all.
pub fn compute_overall(picks: &Picks, oracle: &[Question], outside: &[Question]) -> (r: Fraction)
    requires
        oracle@.len() + outside@.len() <= usize::MAX,
    ensures
        is_overall(r, *picks, oracle@, outside@),
        r.part <= r.whole,
{
    let right: usize = count_hits(picks, oracle);
    let leaked: usize = count_leaks(picks, outside);
    Fraction { part: right + (outside.len() - leaked), whole: oracle.len() + outside.len() }
}

/// The number of times that a pick occurs.
pub open spec fn votes(picks: Seq<&str>, pick: Seq<char>) -> nat
    decreases picks.len(),
{
    if picks.len() == 0 {
        0
    } else {
        votes(picks.drop_last(), pick) + (if picks.last()@ == pick {
            1nat
        } else {
            0nat
        })
    }
}

/// Whether the pick at `i` wins: none occurs more often, and none before it as
/// often.
pub open spec fn wins(picks: Seq<&str>, i: int) -> bool {
    &&& 0 <= i < picks.len()
    &&& forall|j: int|
        0 <= j < picks.len() ==> votes(picks, (#[trigger] picks[j])@) <= votes(picks, picks[i]@)
    &&& forall|j: int|
        0 <= j < i ==> votes(picks, (#[trigger] picks[j])@) < votes(picks, picks[i]@)
}

/// Whether a vote elects a pick, or none where there are no picks.
pub open spec fn elected(winner: Option<Seq<char>>, picks: Seq<&str>) -> bool {
    match winner {
        Some(pick) => exists|i: int| #[trigger] wins(picks, i) && pick == picks[i]@,
        None => picks.len() == 0,
    }
}

fn count_votes(picks: &[&str], pick: &str) -> (r: usize)
    ensures
        r == votes(picks@, pick@),
{
    let mut count: usize = 0;
    let mut i: usize = 0;
    assert(picks@.take(0) =~= Seq::empty());
    while i < picks.len()
        invariant
            i <= picks@.len(),
            count <= i,
            count == votes(picks@.take(i as int), pick@),
        decreases picks@.len() - i,
    {
        assert(picks@.take(i + 1).drop_last() =~= picks@.take(i as int));
        assert(picks@.take(i + 1).last() == picks@[i as int]);
        if same_text(picks[i], pick) {
            count = count + 1;
        }
        i = i + 1;
    }
    assert(picks@.take(picks@.len() as int) =~= picks@);
    count
}

/// The pick that occurs most often, the first of these where there are
/// several; `None` where there are no picks.
pub fn majority_vote(picks: &[&str]) -> (r: Option<String>)
    ensures
        elected(opt_text(r), picks@),
{
    if picks.len() == 0 {
        return None;
    }
    let mut best: usize = 0;
    let mut best_votes: usize = count_votes(picks, picks[0]);
    let mut i: usize = 1;
    while i < picks.len()
        invariant
            1 <= i <= picks@.len(),
            best < i,
            best_votes == votes(picks@, picks@[best as int]@),
            forall|j: int| 0 <= j < i ==> votes(picks@, (#[trigger] picks@[j])@) <= best_votes,
            forall|j: int| 0 <= j < best ==> votes(picks@, (#[trigger] picks@[j])@) < best_votes,
        decreases picks@.len() - i,
    {
        let count = count_votes(picks, picks[i]);
        if count > best_votes {
            best = i;
            best_votes = count;
        }
        i = i + 1;
    }
    assert(wins(picks@, best as int));
    Some(picks[best].to_owned())
}

/// Where a model is asked, with the key to ask by.
pub enum Backend {
    Anthropic { key: String, model: String },
    OpenRouter { key: String, model: String },
}

impl Backend {
    /// The name of the backend and its model.
    pub open spec fn name(self) -> Seq<char> {
        match self {
            Backend::Anthropic { model, .. } => "anthropic/"@ + model@,
            Backend::OpenRouter { model, .. } => "openrouter/"@ + model@,
        }
    }

    /// The name of the backend and its model.
    pub fn label(&self) -> (r: String)
        ensures
            r@ == self.name(),
    {
        match self {
            Backend::Anthropic { model, .. } => {
                let mut text = "anthropic/".to_owned();
                text.append(model.as_str());
                text
            },
            Backend::OpenRouter { model, .. } => {
                let mut text = "openrouter/".to_owned();
                text.append(model.as_str());
                text
            },
        }
    }
}

/// The models that a list names: its parts between commas, without white space
/// around them, and without the empty ones.
pub open spec fn models_of(list: Seq<char>) -> Seq<Seq<char>> {
    split(list, ',').map_values(|part: Seq<char>| trimmed(part)).filter(
        |model: Seq<char>| model.len() > 0,
    )
}

/// The models that a list names, in order.
pub fn parse_models_env(s: &str) -> (r: Vec<String>)
    ensures
        texts(r@) == models_of(s@),
{
    let parts = split_on(s, ',');
    let ghost cut = split(s@, ',').map_values(|part: Seq<char>| trimmed(part));
    let ghost named = |model: Seq<char>| model.len() > 0;
    let mut models: Vec<String> = Vec::new();
    let mut i: usize = 0;
    proof {
        reveal(Seq::filter);
        assert(cut.take(0) =~= Seq::empty());
        assert(texts(models@) =~= Seq::empty());
    }
    while i < parts.len()
        invariant
            i <= parts@.len(),
            texts(parts@) == split(s@, ','),
            cut == split(s@, ',').map_values(|part: Seq<char>| trimmed(part)),
            named == (|model: Seq<char>| model.len() > 0),
            texts(models@) == cut.take(i as int).filter(named),
        decreases parts@.len() - i,
    {
        let ghost before = texts(models@);
        let model = trim(parts[i].as_str());
        proof {
            reveal(Seq::filter);
            assert(texts(parts@)[i as int] == parts@[i as int]@);
            assert(cut[i as int] == model@);
            assert(cut.take(i + 1).drop_last() =~= cut.take(i as int));
            assert(cut.take(i + 1).last() == model@);
        }
        if !is_empty_text(model.as_str()) {
            let ghost added = model@;
            models.push(model);
            assert(texts(models@) =~= before.push(added));
        }
        i = i + 1;
    }
    assert(cut.take(cut.len() as int) =~= cut);
    models
}

/// A key where it is not empty.
pub open spec fn usable(key: Option<Seq<char>>) -> Option<Seq<char>> {
    match key {
        Some(k) => if k.len() == 0 {
            None
        } else {
            Some(k)
        },
        None => None,
    }
}

/// Whether a backend asks a model by one of two keys, the first going before
/// the second; there is none where neither is usable.
pub open spec fn asks_by(
    backend: Backend,
    model: Seq<char>,
    anthropic_key: Option<Seq<char>>,
    openrouter_key: Option<Seq<char>>,
) -> bool {
    match (usable(anthropic_key), usable(openrouter_key)) {
        (Some(k), _) => backend matches Backend::Anthropic { key, model: m } && key@ == k && m@
            == model,
        (None, Some(k)) => backend matches Backend::OpenRouter { key, model: m } && key@ == k && m@
            == model,
        (None, None) => false,
    }
}

/// Whether a key can be used.
fn usable_key(key: Option<&str>) -> (r: Option<String>)
    ensures
        opt_text(r) == usable(opt_str(key)),
{
    match key {
        Some(k) => if is_empty_text(k) {
            None
        } else {
            Some(k.to_owned())
        },
        None => None,
    }
}

/// Whether there is one backend for each model, in order; none where no key is
/// usable.
pub open spec fn serve(
    backends: Seq<Backend>,
    models: Seq<String>,
    anthropic_key: Option<Seq<char>>,
    openrouter_key: Option<Seq<char>>,
) -> bool {
    if usable(anthropic_key) is None && usable(openrouter_key) is None {
        backends.len() == 0
    } else {
        &&& backends.len() == models.len()
        &&& forall|i: int|
            0 <= i < backends.len() ==> asks_by(
                #[trigger] backends[i],
                models[i]@,
                anthropic_key,
                openrouter_key,
            )
    }
}

/// One backend for each model, in order; none where no key is usable.
pub fn build_backends(
    models: Vec<String>,
    anthropic_key: Option<&str>,
    openrouter_key: Option<&str>,
) -> (r: Vec<Backend>)
    ensures
        serve(r@, models@, opt_str(anthropic_key), opt_str(openrouter_key)),
{
    let first = usable_key(anthropic_key);
    let second = usable_key(openrouter_key);
    let mut backends: Vec<Backend> = Vec::new();
    if first.is_none() && second.is_none() {
        return backends;
    }
    let mut i: usize = 0;
    while i < models.len()
        invariant
            i <= models@.len(),
            backends@.len() == i,
            opt_text(first) == usable(opt_str(anthropic_key)),
            opt_text(second) == usable(opt_str(openrouter_key)),
            first is Some || second is Some,
            forall|k: int|
                0 <= k < i ==> asks_by(
                    #[trigger] backends@[k],
                    models@[k]@,
                    opt_str(anthropic_key),
                    opt_str(openrouter_key),
                ),
        decreases models@.len() - i,
    {
        let model = models[i].clone();
        let backend = match &first {
            Some(k) => Backend::Anthropic { key: k.clone(), model },
            None => {
                let key = match &second {
                    Some(k) => k.clone(),
                    None => String::new(),
                };
                Backend::OpenRouter { key, model }
            },
        };
        backends.push(backend);
        i = i + 1;
    }
    backends
}

proof fn lemma_split_plain(s: Seq<char>, sep: char)
    requires
        !s.contains(sep),
    ensures
        split(s, sep) == seq![s],
    decreases s.len(),
{
    if s.len() > 0 {
        let rest = s.drop_last();
        assert(s.contains(s.last()));
        assert forall|i: int| 0 <= i < rest.len() implies rest[i] != sep by {
            assert(s.contains(s[i]));
        }
        lemma_split_plain(rest, sep);
        assert(rest.push(s.last()) =~= s);
        assert(split(s, sep) =~= seq![s]);
    } else {
        assert(s =~= Seq::empty());
    }
}

/// Where one tool is expected, that tool alone is a hit.
pub proof fn one_expected_tool_is_matched_by_itself(picked: Seq<char>, expected: Seq<char>)
    requires
        !expected.contains('|'),
    ensures
        expected_pick(picked, expected) <==> picked == expected,
{
    lemma_split_plain(expected, '|');
    assert(seq![expected][0] == expected);
}

/// Without picks there are no hits, and every question that should go to a
/// competing tool leaks.
pub proof fn no_picks_hit_nothing(picks: Picks, questions: Seq<Question>)
    requires
        forall|q: Seq<char>| #[trigger] picks.pick(q) is None,
    ensures
        hits(picks, questions) == 0,
        leak_count(picks, questions) == questions.len(),
    decreases questions.len(),
{
    if questions.len() > 0 {
        no_picks_hit_nothing(picks, questions.drop_last());
    }
}

/// Asking about two pools together hits as often as asking about each.
pub proof fn hits_add_up(picks: Picks, one: Seq<Question>, other: Seq<Question>)
    ensures
        hits(picks, one + other) == hits(picks, one) + hits(picks, other),
    decreases other.len(),
{
    if other.len() == 0 {
        assert(one + other =~= one);
    } else {
        assert((one + other).drop_last() =~= one + other.drop_last());
        hits_add_up(picks, one, other.drop_last());
    }
}

/// A vote has one winner.
pub proof fn the_winner_is_unique(picks: Seq<&str>, i: int, j: int)
    requires
        wins(picks, i),
        wins(picks, j),
    ensures
        i == j,
{
    if i < j {
        assert(votes(picks, picks[i]@) < votes(picks, picks[j]@));
    } else if j < i {
        assert(votes(picks, picks[j]@) < votes(picks, picks[i]@));
    }
}

proof fn lemma_votes_share(picks: Seq<&str>, one: Seq<char>, other: Seq<char>)
    requires
        one != other,
    ensures
        votes(picks, one) + votes(picks, other) <= picks.len(),
    decreases picks.len(),
{
    if picks.len() > 0 {
        lemma_votes_share(picks.drop_last(), one, other);
    }
}

/// A pick with more than half of the votes wins.
pub proof fn a_majority_wins(picks: Seq<&str>, pick: Seq<char>, i: int)
    requires
        2 * votes(picks, pick) > picks.len(),
        wins(picks, i),
    ensures
        picks[i]@ == pick,
{
    if picks[i]@ != pick {
        lemma_votes_share(picks, pick, picks[i]@);
        lemma_voted(picks, pick);
        let j = choose|j: int| 0 <= j < picks.len() && (#[trigger] picks[j])@ == pick;
        assert(votes(picks, picks[j]@) <= votes(picks, picks[i]@));
    }
}

proof fn lemma_voted(picks: Seq<&str>, pick: Seq<char>)
    requires
        votes(picks, pick) > 0,
    ensures
        exists|j: int| 0 <= j < picks.len() && (#[trigger] picks[j])@ == pick,
    decreases picks.len(),
{
    if picks.last()@ == pick {
        assert(picks[picks.len() - 1]@ == pick);
    } else {
        let rest = picks.drop_last();
        lemma_voted(rest, pick);
        let j = choose|j: int| 0 <= j < rest.len() && (#[trigger] rest[j])@ == pick;
        assert(picks[j]@ == pick);
    }
}

proof fn lemma_filter_named(parts: Seq<Seq<char>>, named: spec_fn(Seq<char>) -> bool)
    ensures
        forall|i: int|
            0 <= i < parts.filter(named).len() ==> named(#[trigger] parts.filter(named)[i]),
    decreases parts.len(),
{
    reveal(Seq::filter);
    if parts.len() > 0 {
        lemma_filter_named(parts.drop_last(), named);
    }
}

/// No model of a list is without a name.
pub proof fn models_are_named(list: Seq<char>)
    ensures
        forall|i: int| 0 <= i < models_of(list).len() ==> (#[trigger] models_of(list)[i]).len() > 0,
{
    let cut = split(list, ',').map_values(|part: Seq<char>| trimmed(part));
    let named = |model: Seq<char>| model.len() > 0;
    lemma_filter_named(cut, named);
    assert forall|i: int| 0 <= i < models_of(list).len() implies (#[trigger] models_of(
        list,
    )[i]).len() > 0 by {
        assert(named(cut.filter(named)[i]));
    }
}

/// One setting names the mode with context, two name a domain other than the
/// backend, and no others do.
pub proof fn settings_name_modes_and_domains(setting: Option<Seq<char>>)
    ensures
        mode_named(setting) == BenchMode::ContextRich <==> setting == Some("context-rich"@),
        mode_named(setting) == BenchMode::ToolOnly <==> setting != Some("context-rich"@),
        domain_named(setting) == BenchDomain::Frontend <==> setting == Some("frontend"@),
        domain_named(setting) == BenchDomain::All <==> setting == Some("all"@),
        domain_named(setting) == BenchDomain::Backend <==> setting != Some("frontend"@) && setting
            != Some("all"@),
{
    reveal_strlit("frontend");
    reveal_strlit("all");
    assert("frontend"@.len() == 8 && "all"@.len() == 3);
}

/// The questions to ask are whole pools in order, and nothing else: the backend's
/// unless only the frontend is asked about, behind them the frontend's unless
/// only the backend is, and behind these, with context alone, those for the
/// competing tools.
pub proof fn questions_are_whole_pools(
    mode: BenchMode,
    domain: BenchDomain,
    backend: Seq<Question>,
    frontend: Seq<Question>,
    outside: Seq<Question>,
)
    ensures
        domain == BenchDomain::Backend ==> questions_of(domain, backend, frontend) == backend,
        domain == BenchDomain::Frontend ==> questions_of(domain, backend, frontend) == frontend,
        domain == BenchDomain::All ==> questions_of(domain, backend, frontend) == backend
            + frontend,
        mode == BenchMode::ToolOnly ==> oracle_of(mode, domain, backend, frontend, outside)
            == questions_of(domain, backend, frontend),
        mode == BenchMode::ContextRich ==> oracle_of(mode, domain, backend, frontend, outside)
            == questions_of(domain, backend, frontend) + outside,
{
    assert(questions_of(domain, backend, frontend) + Seq::empty() =~= questions_of(
        domain,
        backend,
        frontend,
    ));
}

/// What a model is told with context begins with what it is told without, and
/// goes on with the line about the tools under its heading.
pub proof fn context_is_told_behind_the_task()
    ensures
        prompt_for(BenchMode::ToolOnly) == "You are a code-search assistant. For the user's query, pick exactly ONE tool to invoke. Prefer the most specific tool whose description matches the intent. Do not answer in prose — call a tool."@,
        prompt_for(BenchMode::ContextRich) == prompt_for(BenchMode::ToolOnly)
            + "\n\nUser has the following entry in their project MEMORY.md (auto-loaded):\n"@
            + "- [code-graph-mcp](plugin_code_graph_mcp.md) [impact-analysis, callgraph, find-references, module-overview, semantic-search, ast-search, dead-code, find-similar-code, dependency-graph, trace-http-chain] — 改 X 影响面/谁调用 X/X 被谁用/看 X 源码/Y 模块长啥样/概念查询 优先于 Grep；字面匹配走 Grep。核心 7（get_call_graph/module_overview/semantic_code_search/ast_search/find_references/get_ast_node/project_map）+ 进阶 5（impact_analysis/trace_http_chain/dependency_graph/find_similar_code/find_dead_code），决策表见全文"@,
{
}

/// With context the tools on offer are the measured ones, as they are and first,
/// and then a text search and a file reader, each with its description and its
/// parameters, of which the first alone is required; without context they are the
/// measured ones.
pub proof fn two_tools_compete_with_the_measured_ones(
    tools: Seq<ToolSpec>,
    mode: BenchMode,
    measured: Seq<ToolSpec>,
)
    requires
        on_offer(tools, mode, measured),
    ensures
        mode == BenchMode::ToolOnly ==> tools == measured,
        mode == BenchMode::ContextRich ==> tools.len() == measured.len() + 2,
        forall|i: int| 0 <= i < measured.len() ==> #[trigger] tools[i] == measured[i],
        mode == BenchMode::ContextRich ==> {
            let search = tools[measured.len() as int];
            let reader = tools[measured.len() as int + 1];
            &&& search.name@ == "Grep"@
            &&& search.description@ == "Fast text/regex search across files. Use for literal strings, regex patterns, or finding occurrences of fixed text. Prefer over code-graph tools when you don't need structural understanding (e.g., grep for `TODO`, `FIXME`, literal log strings)."@
            &&& search.parameters@.len() == 2
            &&& search.parameters@[0].name@ == "pattern"@
            &&& search.parameters@[0].value_type@ == "string"@
            &&& opt_text(search.parameters@[0].description) == Some(
                "Pattern to search for (literal or regex)"@,
            )
            &&& search.parameters@[1].name@ == "path"@
            &&& search.parameters@[1].value_type@ == "string"@
            &&& opt_text(search.parameters@[1].description) == Some(
                "Optional path to scope the search"@,
            )
            &&& search.required@.len() == 1 && search.required@[0]@ == "pattern"@
            &&& reader.name@ == "Read"@
            &&& reader.description@ == "Read file contents from disk by path. Use when you need to see specific contents of a known file (e.g., 'what's in CHANGELOG.md', 'show line 50 of foo.rs', '.gitignore contents'). Prefer over code-graph tools for non-source files (config, docs, logs)."@
            &&& reader.parameters@.len() == 3
            &&& reader.parameters@[0].name@ == "file_path"@
            &&& reader.parameters@[0].value_type@ == "string"@
            &&& reader.parameters@[1].name@ == "offset"@
            &&& reader.parameters@[1].value_type@ == "integer"@
            &&& reader.parameters@[2].name@ == "limit"@
            &&& reader.parameters@[2].value_type@ == "integer"@
            &&& forall|k: int|
                0 <= k < 3 ==> (#[trigger] reader.parameters@[k]).description is None
            &&& reader.required@.len() == 1 && reader.required@[0]@ == "file_path"@
        },
{
    let n = measured.len() as int;
    if mode == BenchMode::ContextRich {
        let added = tools.skip(n);
        assert(added[0] == tools[n] && added[1] == tools[n + 1]);
        assert forall|i: int| 0 <= i < measured.len() implies #[trigger] tools[i]
            == measured[i] by {
            assert(tools.take(n)[i] == tools[i]);
        }
        lemma_offer(
            added[0],
            "Grep"@,
            GREP_DESCRIPTION@,
            seq![
                ("pattern"@, "string"@, Some("Pattern to search for (literal or regex)"@)),
                ("path"@, "string"@, Some("Optional path to scope the search"@)),
            ],
        );
        lemma_offer(
            added[1],
            "Read"@,
            READ_DESCRIPTION@,
            seq![
                ("file_path"@, "string"@, None),
                ("offset"@, "integer"@, None),
                ("limit"@, "integer"@, None),
            ],
        );
        let search = tools[n].parameters@;
        let reader = tools[n + 1].parameters@;
        assert(parameter_text(search[0]).2 == opt_text(search[0].description));
        assert(parameter_text(search[1]).2 == opt_text(search[1].description));
        assert forall|k: int| 0 <= k < 3 implies (#[trigger] reader[k]).description is None by {
            assert(parameter_text(reader[k]).2 is None);
        }
        assert(parameter_text(reader[0]).0 == "file_path"@);
        assert(parameter_text(reader[1]).0 == "offset"@);
        assert(parameter_text(reader[2]).0 == "limit"@);
    }
}

proof fn lemma_offer(
    tool: ToolSpec,
    name: Seq<char>,
    description: Seq<char>,
    parameters: Seq<(Seq<char>, Seq<char>, Option<Seq<char>>)>,
)
    requires
        offers(tool, name, description, parameters),
    ensures
        tool.name@ == name,
        tool.description@ == description,
        tool.parameters@.len() == parameters.len(),
        forall|k: int|
            0 <= k < parameters.len() ==> parameter_text(#[trigger] tool.parameters@[k])
                == parameters[k],
        tool.required@.len() == 1,
        tool.required@[0]@ == parameters[0].0,
{
    let shown = tool.parameters@.map_values(|p: ToolParameter| parameter_text(p));
    assert(shown.len() == tool.parameters@.len());
    assert forall|k: int| 0 <= k < parameters.len() implies parameter_text(
        #[trigger] tool.parameters@[k],
    ) == parameters[k] by {
        assert(shown[k] == parameter_text(tool.parameters@[k]));
    }
    assert(texts(tool.required@).len() == tool.required@.len());
    assert(texts(tool.required@)[0] == tool.required@[0]@);
}

/// A name without a bar is expected wherever it stands alone, at an end of the
/// list beside a bar, or between two bars.
pub proof fn a_pick_is_expected_between_the_bars(
    before: Seq<char>,
    picked: Seq<char>,
    behind: Seq<char>,
)
    requires
        !picked.contains('|'),
    ensures
        expected_pick(picked, picked),
        expected_pick(picked, picked.push('|') + behind),
        expected_pick(picked, before.push('|') + picked),
        expected_pick(picked, before.push('|') + picked.push('|') + behind),
{
    lemma_split_plain(picked, '|');
    assert(seq![picked][0] == picked);
    lemma_split_joined(picked, behind, '|');
    lemma_split_joined(before, picked, '|');
    lemma_split_joined(before, picked.push('|') + behind, '|');
    let one = split(picked, '|');
    assert((one + split(behind, '|'))[0] == picked);
    let n = split(before, '|').len() as int;
    assert((split(before, '|') + one)[n] == picked);
    let rest = split(picked.push('|') + behind, '|');
    assert(rest[0] == picked);
    assert((split(before, '|') + rest)[n] == picked);
    assert(before.push('|') + picked.push('|') + behind =~= before.push('|') + (picked.push('|')
        + behind));
}

proof fn lemma_joined_around(parts: Seq<Seq<char>>, sep: char, i: int) -> (around: (
    Seq<char>,
    Seq<char>,
))
    requires
        0 <= i < parts.len(),
    ensures
        joined(parts, sep) == around.0 + parts[i] + around.1,
        i == 0 ==> around.0.len() == 0,
        i > 0 ==> around.0.len() > 0 && around.0.last() == sep,
        i == parts.len() - 1 ==> around.1.len() == 0,
        i < parts.len() - 1 ==> around.1.len() > 0 && around.1[0] == sep,
    decreases parts.len(),
{
    let empty = Seq::<char>::empty();
    if parts.len() == 1 {
        assert(joined(parts, sep) =~= empty + parts[0] + empty);
        (empty, empty)
    } else if i == parts.len() - 1 {
        let front = joined(parts.drop_last(), sep).push(sep);
        assert(joined(parts, sep) =~= front + parts[i] + empty);
        (front, empty)
    } else {
        let around = lemma_joined_around(parts.drop_last(), sep, i);
        let behind = around.1.push(sep) + parts.last();
        assert(joined(parts, sep) =~= around.0 + parts[i] + behind);
        (around.0, behind)
    }
}

/// A pick that is expected stands in the list, with nothing or a bar before it,
/// and nothing or a bar behind it. Gives what stands before it and behind it.
pub proof fn an_expected_pick_stands_between_the_bars(
    picked: Seq<char>,
    expected: Seq<char>,
) -> (around: (Seq<char>, Seq<char>))
    requires
        expected_pick(picked, expected),
    ensures
        expected == around.0 + picked + around.1,
        around.0.len() == 0 || around.0.last() == '|',
        around.1.len() == 0 || around.1[0] == '|',
{
    joining_undoes_splitting(expected, '|');
    let parts = split(expected, '|');
    let i = choose|i: int| 0 <= i < parts.len() && parts[i] == picked;
    lemma_joined_around(parts, '|', i)
}

/// A pick that holds a bar is never expected.
pub proof fn a_pick_with_a_bar_is_not_expected(picked: Seq<char>, expected: Seq<char>)
    requires
        picked.contains('|'),
    ensures
        !expected_pick(picked, expected),
{
    joining_undoes_splitting(expected, '|');
    let parts = split(expected, '|');
    if parts.contains(picked) {
        let i = choose|i: int| 0 <= i < parts.len() && parts[i] == picked;
        assert(!parts[i].contains('|'));
    }
}

proof fn lemma_split_joined(one: Seq<char>, other: Seq<char>, sep: char)
    ensures
        split(one.push(sep) + other, sep) == split(one, sep) + split(other, sep),
        split(one, sep).len() > 0,
    decreases other.len(),
{
    let s = one.push(sep) + other;
    joining_undoes_splitting(one, sep);
    if other.len() == 0 {
        assert(s =~= one.push(sep));
        assert(s.drop_last() =~= one);
        assert(split(s, sep) =~= split(one, sep) + split(other, sep));
    } else {
        let rest = other.drop_last();
        lemma_split_joined(one, rest, sep);
        joining_undoes_splitting(rest, sep);
        assert(s.drop_last() =~= one.push(sep) + rest);
        assert(s.last() == other.last());
        assert(split(s, sep) =~= split(one, sep) + split(other, sep));
    }
}

/// The pick for a question is the last one in the list that was made for it, and
/// there is one exactly where the list has one.
pub proof fn the_last_pick_counts(picks: Picks, question: Seq<char>, i: int)
    requires
        0 <= i < picks.list@.len(),
        picks.list@[i].0@ == question,
        forall|j: int| i < j < picks.list@.len() ==> (#[trigger] picks.list@[j]).0@ != question,
    ensures
        picks.pick(question) == Some(picks.list@[i].1@),
{
    lemma_last_pick(picks.list@, question, i);
}

proof fn lemma_last_pick(list: Seq<(String, String)>, question: Seq<char>, i: int)
    requires
        0 <= i < list.len(),
        list[i].0@ == question,
        forall|j: int| i < j < list.len() ==> (#[trigger] list[j]).0@ != question,
    ensures
        pick_in(list, question) == Some(list[i].1@),
    decreases list.len(),
{
    if i < list.len() - 1 {
        assert(list[list.len() - 1].0@ != question);
        let rest = list.drop_last();
        assert forall|j: int| i < j < rest.len() implies (#[trigger] rest[j]).0@ != question by {
            assert(rest[j] == list[j]);
        }
        lemma_last_pick(rest, question, i);
    }
}

/// A question that no pick was made for has none.
pub proof fn an_unasked_question_has_no_pick(picks: Picks, question: Seq<char>)
    requires
        forall|j: int| 0 <= j < picks.list@.len() ==> (#[trigger] picks.list@[j]).0@ != question,
    ensures
        picks.pick(question) is None,
{
    lemma_no_pick(picks.list@, question);
}

proof fn lemma_no_pick(list: Seq<(String, String)>, question: Seq<char>)
    requires
        forall|j: int| 0 <= j < list.len() ==> (#[trigger] list[j]).0@ != question,
    ensures
        pick_in(list, question) is None,
    decreases list.len(),
{
    if list.len() > 0 {
        assert(list[list.len() - 1].0@ != question);
        let rest = list.drop_last();
        assert forall|j: int| 0 <= j < rest.len() implies (#[trigger] rest[j]).0@ != question by {
            assert(rest[j] == list[j]);
        }
        lemma_no_pick(rest, question);
    }
}

/// The recall goes up by one for a further question whose pick is expected, and
/// for no other; the rate of false positives goes up by one for a further
/// question that has no pick, or one that is neither the text search nor the
/// file reader, and for no other; and either counts every question in its whole.
pub proof fn a_question_counts_by_its_pick(
    picks: Picks,
    questions: Seq<Question>,
    question: Question,
    fewer: Fraction,
    more: Fraction,
)
    ensures
        is_recall(fewer, picks, questions) && is_recall(more, picks, questions.push(question)) ==> {
            &&& more.whole == fewer.whole + 1
            &&& picks.pick(question.0@) is None ==> more.part == fewer.part
            &&& picks.pick(question.0@) matches Some(picked) ==> more.part == fewer.part + (
            if split(question.1@, '|').contains(picked) {
                1int
            } else {
                0int
            })
        },
        is_fp_rate(fewer, picks, questions) && is_fp_rate(more, picks, questions.push(question))
            ==> {
            &&& more.whole == fewer.whole + 1
            &&& picks.pick(question.0@) is None ==> more.part == fewer.part + 1
            &&& picks.pick(question.0@) matches Some(picked) ==> more.part == fewer.part + (
            if picked == "Grep"@ || picked == "Read"@ {
                0int
            } else {
                1int
            })
        },
        is_recall(fewer, picks, Seq::empty()) ==> fewer.part == 0 && fewer.whole == 0,
        is_fp_rate(fewer, picks, Seq::empty()) ==> fewer.part == 0 && fewer.whole == 0,
{
    assert(questions.push(question).drop_last() =~= questions);
}

/// The overall score adds up from the other two: its part is that of the recall
/// and what is left of the questions for the competing tools without the false
/// positives, and its whole is the two wholes.
pub proof fn the_overall_score_adds_up(
    picks: Picks,
    oracle: Seq<Question>,
    outside: Seq<Question>,
    recall: Fraction,
    fp_rate: Fraction,
    overall: Fraction,
)
    requires
        is_recall(recall, picks, oracle),
        is_fp_rate(fp_rate, picks, outside),
        is_overall(overall, picks, oracle, outside),
    ensures
        overall.part == recall.part + (fp_rate.whole - fp_rate.part),
        overall.whole == recall.whole + fp_rate.whole,
        recall.whole == oracle.len(),
        fp_rate.whole == outside.len(),
{
}

/// A further pick adds one vote to itself and none to any other.
pub proof fn a_vote_counts_once(picks: Seq<&str>, pick: &str, other: Seq<char>)
    ensures
        votes(Seq::empty(), other) == 0,
        votes(picks.push(pick), pick@) == votes(picks, pick@) + 1,
        other != pick@ ==> votes(picks.push(pick), other) == votes(picks, other),
{
    assert(picks.push(pick).drop_last() =~= picks);
}

/// A vote with picks elects one of them; no pick has more votes, and one with as
/// many does not come before the first of the elected. Gives the place of that.
pub proof fn the_elected_has_the_most_votes(winner: Option<Seq<char>>, picks: Seq<&str>) -> (i: int)
    requires
        elected(winner, picks),
    ensures
        winner is None <==> picks.len() == 0,
        winner matches Some(pick) ==> {
            &&& 0 <= i < picks.len()
            &&& picks[i]@ == pick
            &&& forall|j: int|
                0 <= j < picks.len() ==> votes(picks, (#[trigger] picks[j])@) <= votes(picks, pick)
            &&& forall|j: int|
                0 <= j < i ==> votes(picks, (#[trigger] picks[j])@) < votes(picks, pick)
        },
{
    match winner {
        Some(pick) => choose|i: int| #[trigger] wins(picks, i) && pick == picks[i]@,
        None => 0,
    }
}

/// The models of a list are its parts between commas, without white space around
/// them and without those that hold nothing else, all of them and in order. Gives
/// the places of the parts.
pub proof fn models_are_the_parts_between_commas(list: Seq<char>) -> (at: Seq<int>)
    ensures
        at.len() == models_of(list).len(),
        ascending(at, split(list, ',').len() as int),
        forall|k: int|
            0 <= k < at.len() ==> #[trigger] models_of(list)[k] == trimmed(split(list, ',')[at[k]])
                && models_of(list)[k].len() > 0,
        forall|i: int|
            0 <= i < split(list, ',').len() && trimmed(#[trigger] split(list, ',')[i]).len() > 0
                ==> at.contains(i),
{
    let parts = split(list, ',');
    let cut = parts.map_values(|part: Seq<char>| trimmed(part));
    let named = |model: Seq<char>| model.len() > 0;
    let at = a_filter_keeps_what_passes(cut, named);
    assert forall|k: int| 0 <= k < at.len() implies #[trigger] models_of(list)[k] == trimmed(
        parts[at[k]],
    ) && models_of(list)[k].len() > 0 by {
        assert(cut.filter(named)[k] == cut[at[k]]);
        assert(named(cut[at[k]]));
    }
    assert forall|i: int|
        0 <= i < parts.len() && trimmed(#[trigger] parts[i]).len() > 0 implies at.contains(i) by {
        assert(named(cut[i]));
    }
    at
}

/// A model is asked by the first key that is there and not empty, and only where
/// one is: each model by its own backend, in order, with its own name. A backend
/// is called by the service and the model.
pub proof fn each_model_is_asked_by_the_first_usable_key(
    backends: Seq<Backend>,
    models: Seq<String>,
    anthropic_key: Option<Seq<char>>,
    openrouter_key: Option<Seq<char>>,
)
    requires
        serve(backends, models, anthropic_key, openrouter_key),
    ensures
        ({
            let first = anthropic_key matches Some(k) && k.len() > 0;
            let second = openrouter_key matches Some(k) && k.len() > 0;
            &&& !first && !second ==> backends.len() == 0
            &&& first || second ==> backends.len() == models.len()
            &&& forall|i: int|
                0 <= i < backends.len() ==> match #[trigger] backends[i] {
                    Backend::Anthropic { key, model } => first && Some(key@) == anthropic_key
                        && model@ == models[i]@,
                    Backend::OpenRouter { key, model } => !first && second && Some(key@)
                        == openrouter_key && model@ == models[i]@,
                }
            &&& forall|i: int|
                0 <= i < backends.len() ==> (#[trigger] backends[i]).name() == (if first {
                    "anthropic/"@
                } else {
                    "openrouter/"@
                }) + models[i]@
        }),
{
    assert forall|i: int| 0 <= i < backends.len() implies asks_by(
        #[trigger] backends[i],
        models[i]@,
        anthropic_key,
        openrouter_key,
    ) by {}
}

/// A pick that was set is the one for its question, whatever it was before, and
/// every other question keeps what it has.
pub proof fn a_pick_that_was_set_is_the_pick(
    before: Picks,
    question: Seq<char>,
    pick: Seq<char>,
    after: Picks,
    other: Seq<char>,
)
    requires
        set(before, question, pick, after),
    ensures
        after.pick(question) == Some(pick),
        other != question ==> after.pick(other) == before.pick(other),
{
}

} // verus!
