//! `project_map`: the modules of a project, their dependencies, the entry
//! points and the functions with the most callers. A map is kept for a minute;
//! a compact reply is made from the full map.
use crate::text::copy_strings;
use crate::tools::args::{flag_arg_or, flag_or, json_fields, Scalar};
use vstd::prelude::*;

verus! {

/// How many seconds a map is kept.
pub const CACHE_SECONDS: u64 = 60;

/// How many functions a compact map names.
pub const COMPACT_HOT_FUNCTIONS: usize = 10;

/// A module, as the index describes it.
pub struct ModuleRow {
    pub path: String,
    pub files: i64,
    pub functions: i64,
    pub classes: i64,
    pub interfaces_traits: i64,
    pub languages: Vec<String>,
    pub key_symbols: Vec<String>,
}

/// A dependency between modules, as the index describes it.
pub struct DependencyRow {
    pub from: String,
    pub to: String,
    pub import_count: i64,
}

/// A function and its callers, as the index describes them.
pub struct HotFunctionRow {
    pub name: String,
    pub node_type: String,
    pub file: String,
    pub caller_count: i64,
    pub test_caller_count: i64,
}

/// An entry point of the project.
#[derive(Clone)]
pub struct EntryPoint {
    pub route: String,
    pub handler: String,
    pub file: String,
    pub kind: String,
}

/// What the index holds of a project.
pub struct ProjectRows {
    pub modules: Vec<ModuleRow>,
    pub dependencies: Vec<DependencyRow>,
    pub entry_points: Vec<EntryPoint>,
    pub hot_functions: Vec<HotFunctionRow>,
}

/// A module on a map; what is `None` is left out.
#[derive(Clone)]
pub struct ModuleSummary {
    pub path: String,
    pub files: i64,
    pub functions: i64,
    pub classes: i64,
    pub interfaces_traits: Option<i64>,
    pub languages: Option<Vec<String>>,
    pub key_symbols: Option<Vec<String>>,
}

/// A dependency on a map.
#[derive(Clone)]
pub struct Dependency {
    pub from: String,
    pub to: String,
    pub imports: i64,
}

/// A function on a map; what is `None` is left out.
#[derive(Clone)]
pub struct HotFunction {
    pub name: String,
    pub node_type: String,
    pub file: String,
    pub caller_count: i64,
    pub test_caller_count: Option<i64>,
}

/// The map of a project.
#[derive(Clone)]
pub struct ProjectMap {
    pub modules: Vec<ModuleSummary>,
    pub module_dependencies: Vec<Dependency>,
    pub entry_points: Vec<EntryPoint>,
    pub hot_functions: Vec<HotFunction>,
}

/// A module on a compact map: without its classes, interfaces and languages.
pub struct CompactModule {
    pub path: String,
    pub files: i64,
    pub functions: i64,
    pub key_symbols: Option<Vec<String>>,
}

/// A dependency on a compact map.
pub struct CompactDependency {
    pub from: String,
    pub to: String,
}

/// An entry point on a compact map.
pub struct CompactEntryPoint {
    pub file: String,
    pub handler: String,
    pub kind: String,
}

/// The compact map of a project.
pub struct CompactMap {
    pub modules: Vec<CompactModule>,
    pub module_dependencies: Vec<CompactDependency>,
    pub entry_points: Vec<CompactEntryPoint>,
    pub hot_functions: Vec<HotFunction>,
}

/// A number where it is above zero.
pub open spec fn if_positive(n: i64) -> Option<i64> {
    if n > 0 {
        Some(n)
    } else {
        None
    }
}

/// A list where it holds anything.
pub open spec fn if_any(list: Vec<String>) -> Option<Vec<String>> {
    if list@.len() > 0 {
        Some(list)
    } else {
        None
    }
}

/// A module, as a map shows it.
pub open spec fn module_summary(row: ModuleRow) -> ModuleSummary {
    ModuleSummary {
        path: row.path,
        files: row.files,
        functions: row.functions,
        classes: row.classes,
        interfaces_traits: if_positive(row.interfaces_traits),
        languages: if_any(row.languages),
        key_symbols: if_any(row.key_symbols),
    }
}

/// A dependency, as a map shows it.
pub open spec fn dependency(row: DependencyRow) -> Dependency {
    Dependency { from: row.from, to: row.to, imports: row.import_count }
}

/// A function, as a map shows it.
pub open spec fn hot_function(row: HotFunctionRow) -> HotFunction {
    HotFunction {
        name: row.name,
        node_type: row.node_type,
        file: row.file,
        caller_count: row.caller_count,
        test_caller_count: if_positive(row.test_caller_count),
    }
}

/// Whether a map shows what the index holds.
pub open spec fn maps(map: ProjectMap, rows: ProjectRows) -> bool {
    &&& map.modules@ == rows.modules@.map_values(|row: ModuleRow| module_summary(row))
    &&& map.module_dependencies@ == rows.dependencies@.map_values(
        |row: DependencyRow| dependency(row),
    )
    &&& map.entry_points@ == rows.entry_points@
    &&& map.hot_functions@ == rows.hot_functions@.map_values(
        |row: HotFunctionRow| hot_function(row),
    )
}

fn positive(n: i64) -> (r: Option<i64>)
    ensures
        r == if_positive(n),
{
    if n > 0 {
        Some(n)
    } else {
        None
    }
}

fn any(list: Vec<String>) -> (r: Option<Vec<String>>)
    ensures
        r == if_any(list),
{
    if list.len() > 0 {
        Some(list)
    } else {
        None
    }
}

fn module_summaries(rows: Vec<ModuleRow>) -> (r: Vec<ModuleSummary>)
    ensures
        r@ == rows@.map_values(|row: ModuleRow| module_summary(row)),
{
    let ghost all = rows@;
    let ghost show = |row: ModuleRow| module_summary(row);
    let mut out: Vec<ModuleSummary> = Vec::new();
    for row in it: rows
        invariant
            it.seq() == all,
            show == (|row: ModuleRow| module_summary(row)),
            out@ == all.take(it.index() as int).map_values(show),
    {
        proof {
            let seen = all.take(it.index() as int);
            assert(all.take(it.index() + 1) =~= seen.push(row));
            assert(seen.push(row).map_values(show) =~= seen.map_values(show).push(show(row)));
        }
        out.push(
            ModuleSummary {
                path: row.path,
                files: row.files,
                functions: row.functions,
                classes: row.classes,
                interfaces_traits: positive(row.interfaces_traits),
                languages: any(row.languages),
                key_symbols: any(row.key_symbols),
            },
        );
    }
    assert(all.take(all.len() as int) =~= all);
    out
}

fn dependencies(rows: Vec<DependencyRow>) -> (r: Vec<Dependency>)
    ensures
        r@ == rows@.map_values(|row: DependencyRow| dependency(row)),
{
    let ghost all = rows@;
    let ghost show = |row: DependencyRow| dependency(row);
    let mut out: Vec<Dependency> = Vec::new();
    for row in it: rows
        invariant
            it.seq() == all,
            show == (|row: DependencyRow| dependency(row)),
            out@ == all.take(it.index() as int).map_values(show),
    {
        proof {
            let seen = all.take(it.index() as int);
            assert(all.take(it.index() + 1) =~= seen.push(row));
            assert(seen.push(row).map_values(show) =~= seen.map_values(show).push(show(row)));
        }
        out.push(Dependency { from: row.from, to: row.to, imports: row.import_count });
    }
    assert(all.take(all.len() as int) =~= all);
    out
}

fn hot_functions(rows: Vec<HotFunctionRow>) -> (r: Vec<HotFunction>)
    ensures
        r@ == rows@.map_values(|row: HotFunctionRow| hot_function(row)),
{
    let ghost all = rows@;
    let ghost show = |row: HotFunctionRow| hot_function(row);
    let mut out: Vec<HotFunction> = Vec::new();
    for row in it: rows
        invariant
            it.seq() == all,
            show == (|row: HotFunctionRow| hot_function(row)),
            out@ == all.take(it.index() as int).map_values(show),
    {
        proof {
            let seen = all.take(it.index() as int);
            assert(all.take(it.index() + 1) =~= seen.push(row));
            assert(seen.push(row).map_values(show) =~= seen.map_values(show).push(show(row)));
        }
        out.push(
            HotFunction {
                name: row.name,
                node_type: row.node_type,
                file: row.file,
                caller_count: row.caller_count,
                test_caller_count: positive(row.test_caller_count),
            },
        );
    }
    assert(all.take(all.len() as int) =~= all);
    out
}

/// The map of a project.
pub fn full_map(rows: ProjectRows) -> (r: ProjectMap)
    ensures
        maps(r, rows),
{
    ProjectMap {
        modules: module_summaries(rows.modules),
        module_dependencies: dependencies(rows.dependencies),
        entry_points: rows.entry_points,
        hot_functions: hot_functions(rows.hot_functions),
    }
}

/// Whether a module of a compact map shows a module: path, numbers of files
/// and functions, and the key symbols where there are any.
pub open spec fn shows_module(compact: CompactModule, module: ModuleSummary) -> bool {
    &&& compact.path == module.path
    &&& compact.files == module.files
    &&& compact.functions == module.functions
    &&& match module.key_symbols {
        Some(symbols) => if symbols@.len() > 0 {
            compact.key_symbols matches Some(kept) && kept@ == symbols@
        } else {
            compact.key_symbols is None
        },
        None => compact.key_symbols is None,
    }
}

/// A dependency, as a compact map shows it.
pub open spec fn compact_dependency(dependency: Dependency) -> CompactDependency {
    CompactDependency { from: dependency.from, to: dependency.to }
}

/// An entry point, as a compact map shows it.
pub open spec fn compact_entry_point(entry: EntryPoint) -> CompactEntryPoint {
    CompactEntryPoint { file: entry.file, handler: entry.handler, kind: entry.kind }
}

/// A function, as a compact map shows it: its callers in tests only where
/// there are any.
pub open spec fn compact_hot_function(function: HotFunction) -> HotFunction {
    HotFunction {
        name: function.name,
        node_type: function.node_type,
        file: function.file,
        caller_count: function.caller_count,
        test_caller_count: match function.test_caller_count {
            Some(n) => if_positive(n),
            None => None,
        },
    }
}

/// The functions that a compact map names: the first ones.
pub open spec fn first_hot(functions: Seq<HotFunction>) -> Seq<HotFunction> {
    if functions.len() <= COMPACT_HOT_FUNCTIONS {
        functions
    } else {
        functions.take(COMPACT_HOT_FUNCTIONS as int)
    }
}

/// Whether a compact map shows a map.
pub open spec fn condenses(compact: CompactMap, map: ProjectMap) -> bool {
    &&& compact.modules@.len() == map.modules@.len()
    &&& forall|i: int|
        0 <= i < map.modules@.len() ==> shows_module(
            #[trigger] compact.modules@[i],
            map.modules@[i],
        )
    &&& compact.module_dependencies@ == map.module_dependencies@.map_values(
        |d: Dependency| compact_dependency(d),
    )
    &&& compact.entry_points@ == map.entry_points@.map_values(
        |e: EntryPoint| compact_entry_point(e),
    )
    &&& compact.hot_functions@ == first_hot(map.hot_functions@).map_values(
        |h: HotFunction| compact_hot_function(h),
    )
}

fn compact_modules(modules: &Vec<ModuleSummary>) -> (r: Vec<CompactModule>)
    ensures
        r@.len() == modules@.len(),
        forall|i: int|
            0 <= i < modules@.len() ==> shows_module(#[trigger] r@[i], modules@[i]),
{
    let mut out: Vec<CompactModule> = Vec::new();
    let mut i: usize = 0;
    while i < modules.len()
        invariant
            i <= modules@.len(),
            out@.len() == i,
            forall|k: int| 0 <= k < i ==> shows_module(#[trigger] out@[k], modules@[k]),
        decreases modules@.len() - i,
    {
        let module = &modules[i];
        let key_symbols = match &module.key_symbols {
            Some(symbols) => if symbols.len() > 0 {
                Some(copy_strings(symbols))
            } else {
                None
            },
            None => None,
        };
        out.push(
            CompactModule {
                path: module.path.clone(),
                files: module.files,
                functions: module.functions,
                key_symbols,
            },
        );
        i = i + 1;
    }
    out
}

fn compact_dependencies(list: &Vec<Dependency>) -> (r: Vec<CompactDependency>)
    ensures
        r@ == list@.map_values(|d: Dependency| compact_dependency(d)),
{
    let mut out: Vec<CompactDependency> = Vec::new();
    let mut i: usize = 0;
    while i < list.len()
        invariant
            i <= list@.len(),
            out@.len() == i,
            forall|k: int| 0 <= k < i ==> #[trigger] out@[k] == compact_dependency(list@[k]),
        decreases list@.len() - i,
    {
        out.push(CompactDependency { from: list[i].from.clone(), to: list[i].to.clone() });
        i = i + 1;
    }
    out
}

fn compact_entry_points(list: &Vec<EntryPoint>) -> (r: Vec<CompactEntryPoint>)
    ensures
        r@ == list@.map_values(|e: EntryPoint| compact_entry_point(e)),
{
    let mut out: Vec<CompactEntryPoint> = Vec::new();
    let mut i: usize = 0;
    while i < list.len()
        invariant
            i <= list@.len(),
            out@.len() == i,
            forall|k: int| 0 <= k < i ==> #[trigger] out@[k] == compact_entry_point(list@[k]),
        decreases list@.len() - i,
    {
        out.push(
            CompactEntryPoint {
                file: list[i].file.clone(),
                handler: list[i].handler.clone(),
                kind: list[i].kind.clone(),
            },
        );
        i = i + 1;
    }
    out
}

fn compact_hot_functions(list: &Vec<HotFunction>) -> (r: Vec<HotFunction>)
    ensures
        r@ == first_hot(list@).map_values(|h: HotFunction| compact_hot_function(h)),
{
    let mut out: Vec<HotFunction> = Vec::new();
    let mut i: usize = 0;
    while i < list.len() && i < COMPACT_HOT_FUNCTIONS
        invariant
            i <= list@.len(),
            i <= COMPACT_HOT_FUNCTIONS,
            out@.len() == i,
            forall|k: int| 0 <= k < i ==> #[trigger] out@[k] == compact_hot_function(list@[k]),
        decreases list@.len() - i,
    {
        let test_caller_count = match list[i].test_caller_count {
            Some(n) => positive(n),
            None => None,
        };
        out.push(
            HotFunction {
                name: list[i].name.clone(),
                node_type: list[i].node_type.clone(),
                file: list[i].file.clone(),
                caller_count: list[i].caller_count,
                test_caller_count,
            },
        );
        i = i + 1;
    }
    assert(out@ =~= first_hot(list@).map_values(|h: HotFunction| compact_hot_function(h)));
    out
}

/// The compact map for a map.
pub fn compact_map(map: &ProjectMap) -> (r: CompactMap)
    ensures
        condenses(r, *map),
{
    CompactMap {
        modules: compact_modules(&map.modules),
        module_dependencies: compact_dependencies(&map.module_dependencies),
        entry_points: compact_entry_points(&map.entry_points),
        hot_functions: compact_hot_functions(&map.hot_functions),
    }
}

/// What a request for a map waits for.
pub enum ProjectMapStage {
    /// That the index is up to date.
    Indexing,
    /// The map that is kept, with its age.
    Recalling,
    /// What the index holds of the project.
    Querying,
    /// Nothing more.
    Done,
}

/// A request for a map under way.
pub struct ProjectMapSearch {
    /// Whether a compact map is wanted.
    pub compact: bool,
    pub stage: ProjectMapStage,
}

/// A map that is kept.
pub struct KeptMap {
    /// Its age in whole seconds.
    pub age_seconds: u64,
    pub map: ProjectMap,
}

/// What a request for a map asks its caller to do next.
pub enum ProjectMapAction {
    /// Bring the index up to date.
    EnsureIndexed,
    /// Recall the map that is kept.
    Recall,
    /// Look up what the index holds of the project.
    Query,
    /// Answer with the compact map, or else with the map. The map is to be
    /// kept from now on where `keep` says so.
    Reply { map: ProjectMap, compact: Option<CompactMap>, keep: bool },
    /// Nothing: the event was not waited for.
    Ignore,
}

/// What the caller of a request for a map reports.
pub enum ProjectMapEvent {
    Indexed,
    Recalled(Option<KeptMap>),
    Rows(ProjectRows),
}

/// Whether a request at a stage waits for an event.
pub open spec fn awaits(stage: ProjectMapStage, event: ProjectMapEvent) -> bool {
    match stage {
        ProjectMapStage::Indexing => event is Indexed,
        ProjectMapStage::Recalling => event is Recalled,
        ProjectMapStage::Querying => event is Rows,
        ProjectMapStage::Done => false,
    }
}

/// Whether an action answers with a map, in the form that is wanted.
pub open spec fn answers(
    action: ProjectMapAction,
    compact: bool,
    map: ProjectMap,
    keep: bool,
) -> bool {
    match action {
        ProjectMapAction::Reply { map: m, compact: c, keep: k } => {
            &&& m == map
            &&& k == keep
            &&& if compact {
                c matches Some(small) && condenses(small, map)
            } else {
                c is None
            }
        },
        _ => false,
    }
}

/// Whether a kept map is younger than a minute.
pub open spec fn fresh(kept: Option<KeptMap>) -> bool {
    kept matches Some(k) && k.age_seconds < CACHE_SECONDS
}

/// Whether a request for a map starts like this: compact where the arguments say
/// so, and with the index, or with the map that is kept where the index is to be
/// taken as it is.
pub open spec fn started(
    fields: Map<Seq<char>, Scalar>,
    skip_indexing: bool,
    search: ProjectMapSearch,
    action: ProjectMapAction,
) -> bool {
    &&& search.compact == flag_or(fields, "compact"@, false)
    &&& if skip_indexing {
        search.stage is Recalling && action is Recall
    } else {
        search.stage is Indexing && action is EnsureIndexed
    }
}

/// Whether a step leads from `before` by `event` to `after` and `action`: a
/// fresh map answers; else the index is asked, and its map answers and is kept.
pub open spec fn stepped(
    before: ProjectMapSearch,
    event: ProjectMapEvent,
    after: ProjectMapSearch,
    action: ProjectMapAction,
) -> bool {
    &&& after.compact == before.compact
    &&& match event {
        ProjectMapEvent::Indexed => after.stage is Recalling && action is Recall,
        ProjectMapEvent::Recalled(kept) => if fresh(kept) {
            &&& after.stage is Done
            &&& answers(action, before.compact, kept->0.map, false)
        } else {
            &&& after.stage is Querying
            &&& action is Query
        },
        ProjectMapEvent::Rows(rows) => {
            &&& after.stage is Done
            &&& exists|map: ProjectMap| #[trigger]
                maps(map, rows) && answers(action, before.compact, map, true)
        },
    }
}

/// Whether an event leads from `before` to `after` and `action`: a step where it
/// is waited for, and nothing where it is not.
pub open spec fn goes_on(before: ProjectMapSearch, event: ProjectMapEvent, after: ProjectMapSearch, action: ProjectMapAction) -> bool {
    if awaits(before.stage, event) {
        stepped(before, event, after, action)
    } else {
        after == before && action is Ignore
    }
}

impl ProjectMapSearch {
    fn answer(compact: bool, map: ProjectMap, keep: bool) -> (r: (
        ProjectMapSearch,
        ProjectMapAction,
    ))
        ensures
            r.0.compact == compact,
            r.0.stage is Done,
            answers(r.1, compact, map, keep),
    {
        let small = if compact {
            Some(compact_map(&map))
        } else {
            None
        };
        (
            ProjectMapSearch { compact, stage: ProjectMapStage::Done },
            ProjectMapAction::Reply { map, compact: small, keep },
        )
    }

    /// Starts a request for a map, which is compact where the arguments say
    /// so.
    pub fn start(args: &serde_json::Value, skip_indexing: bool) -> (r: (
        ProjectMapSearch,
        ProjectMapAction,
    ))
        ensures
            started(json_fields(*args), skip_indexing, r.0, r.1),
    {
        let compact = flag_arg_or(args, "compact", false);
        if skip_indexing {
            (
                ProjectMapSearch { compact, stage: ProjectMapStage::Recalling },
                ProjectMapAction::Recall,
            )
        } else {
            (
                ProjectMapSearch { compact, stage: ProjectMapStage::Indexing },
                ProjectMapAction::EnsureIndexed,
            )
        }
    }

    /// The next step of the request on what its caller reports. An event that
    /// the request does not wait for changes nothing.
    pub fn step(self, event: ProjectMapEvent) -> (r: (ProjectMapSearch, ProjectMapAction))
        ensures
            goes_on(self, event, r.0, r.1),
    {
        let compact: bool = self.compact;
        match (&self.stage, event) {
            (ProjectMapStage::Indexing, ProjectMapEvent::Indexed) => (
                ProjectMapSearch { compact, stage: ProjectMapStage::Recalling },
                ProjectMapAction::Recall,
            ),
            (ProjectMapStage::Recalling, ProjectMapEvent::Recalled(kept)) => {
                if let Some(k) = kept {
                    if k.age_seconds < CACHE_SECONDS {
                        return ProjectMapSearch::answer(compact, k.map, false);
                    }
                }
                (
                    ProjectMapSearch { compact, stage: ProjectMapStage::Querying },
                    ProjectMapAction::Query,
                )
            },
            (ProjectMapStage::Querying, ProjectMapEvent::Rows(rows)) => {
                let map = full_map(rows);
                ProjectMapSearch::answer(compact, map, true)
            },
            _ => (self, ProjectMapAction::Ignore),
        }
    }
}

/// A map is looked up again, and then kept, exactly where there is no kept one
/// that is younger than a minute; a kept one answers unchanged.
pub proof fn a_kept_map_answers_for_a_minute(
    compact: bool,
    kept: Option<KeptMap>,
    after: ProjectMapSearch,
    action: ProjectMapAction,
)
    requires
        stepped(
            (ProjectMapSearch { compact, stage: ProjectMapStage::Recalling }),
            ProjectMapEvent::Recalled(kept),
            after,
            action,
        ),
    ensures
        action is Query <==> (kept matches Some(k) ==> k.age_seconds >= 60),
        action matches ProjectMapAction::Reply { map, keep, .. } ==> !keep && (
        kept matches Some(k) && k.map == map),
{
}

/// A compact map leaves out nothing but what it is meant to: it has every
/// module with its path, numbers and key symbols, every dependency and every
/// entry point, and the first ten functions.
pub proof fn a_compact_map_keeps_the_modules(compact: CompactMap, rows: ProjectRows, map: ProjectMap)
    requires
        maps(map, rows),
        condenses(compact, map),
    ensures
        compact.modules@.len() == rows.modules@.len(),
        compact.module_dependencies@.len() == rows.dependencies@.len(),
        compact.entry_points@.len() == rows.entry_points@.len(),
        compact.hot_functions@.len() == (if rows.hot_functions@.len() < 10 {
            rows.hot_functions@.len()
        } else {
            10nat
        }),
        forall|i: int|
            0 <= i < rows.modules@.len() ==> {
                let shown = #[trigger] compact.modules@[i];
                let row = rows.modules@[i];
                &&& shown.path == row.path
                &&& shown.files == row.files
                &&& shown.functions == row.functions
                &&& match shown.key_symbols {
                    Some(symbols) => symbols@ == row.key_symbols@ && symbols@.len() > 0,
                    None => row.key_symbols@.len() == 0,
                }
            },
        forall|i: int|
            0 <= i < compact.hot_functions@.len() ==> #[trigger] compact.hot_functions@[i]
                == hot_function(rows.hot_functions@[i]),
{
    assert forall|i: int| 0 <= i < rows.modules@.len() implies {
        let shown = #[trigger] compact.modules@[i];
        let row = rows.modules@[i];
        &&& shown.path == row.path
        &&& shown.files == row.files
        &&& shown.functions == row.functions
        &&& match shown.key_symbols {
            Some(symbols) => symbols@ == row.key_symbols@ && symbols@.len() > 0,
            None => row.key_symbols@.len() == 0,
        }
    } by {
        assert(map.modules@[i] == module_summary(rows.modules@[i]));
        assert(shows_module(compact.modules@[i], map.modules@[i]));
    }
    assert forall|i: int|
        0 <= i < compact.hot_functions@.len() implies #[trigger] compact.hot_functions@[i]
        == hot_function(rows.hot_functions@[i]) by {
        assert(map.hot_functions@[i] == hot_function(rows.hot_functions@[i]));
        assert(compact.hot_functions@[i] == compact_hot_function(map.hot_functions@[i]));
    }
}

/// A map shows what the index holds, row by row and field by field: modules with
/// their path and numbers, the interfaces only where there are any, the
/// languages and key symbols only where there are any; dependencies with their
/// two ends and the number of imports; entry points as they are; and functions
/// with their name, type, file and callers, the callers in tests only where there
/// are any.
pub proof fn a_map_shows_each_row_by_its_fields(map: ProjectMap, rows: ProjectRows)
    requires
        maps(map, rows),
    ensures
        map.modules@.len() == rows.modules@.len(),
        forall|i: int|
            0 <= i < rows.modules@.len() ==> {
                let shown = #[trigger] map.modules@[i];
                let row = rows.modules@[i];
                &&& shown.path == row.path
                &&& shown.files == row.files
                &&& shown.functions == row.functions
                &&& shown.classes == row.classes
                &&& row.interfaces_traits > 0 ==> shown.interfaces_traits == Some(
                    row.interfaces_traits,
                )
                &&& row.interfaces_traits <= 0 ==> shown.interfaces_traits is None
                &&& row.languages@.len() > 0 ==> shown.languages == Some(row.languages)
                &&& row.languages@.len() == 0 ==> shown.languages is None
                &&& row.key_symbols@.len() > 0 ==> shown.key_symbols == Some(row.key_symbols)
                &&& row.key_symbols@.len() == 0 ==> shown.key_symbols is None
            },
        map.module_dependencies@.len() == rows.dependencies@.len(),
        forall|i: int|
            0 <= i < rows.dependencies@.len() ==> {
                let shown = #[trigger] map.module_dependencies@[i];
                &&& shown.from == rows.dependencies@[i].from
                &&& shown.to == rows.dependencies@[i].to
                &&& shown.imports == rows.dependencies@[i].import_count
            },
        map.entry_points@.len() == rows.entry_points@.len(),
        forall|i: int|
            0 <= i < rows.entry_points@.len() ==> {
                let shown = #[trigger] map.entry_points@[i];
                &&& shown.route == rows.entry_points@[i].route
                &&& shown.handler == rows.entry_points@[i].handler
                &&& shown.file == rows.entry_points@[i].file
                &&& shown.kind == rows.entry_points@[i].kind
            },
        map.hot_functions@.len() == rows.hot_functions@.len(),
        forall|i: int|
            0 <= i < rows.hot_functions@.len() ==> {
                let shown = #[trigger] map.hot_functions@[i];
                let row = rows.hot_functions@[i];
                &&& shown.name == row.name
                &&& shown.node_type == row.node_type
                &&& shown.file == row.file
                &&& shown.caller_count == row.caller_count
                &&& row.test_caller_count > 0 ==> shown.test_caller_count == Some(
                    row.test_caller_count,
                )
                &&& row.test_caller_count <= 0 ==> shown.test_caller_count is None
            },
{
}

/// A compact map shows a map field by field: modules with their path, their
/// numbers of files and functions, and their key symbols where there are any;
/// dependencies with their two ends; entry points with file, handler and kind;
/// and the first ten functions with name, type, file and callers, the callers in
/// tests only where there are any.
pub proof fn a_compact_map_shows_a_map_by_its_fields(compact: CompactMap, map: ProjectMap)
    requires
        condenses(compact, map),
    ensures
        compact.modules@.len() == map.modules@.len(),
        forall|i: int|
            0 <= i < map.modules@.len() ==> {
                let shown = #[trigger] compact.modules@[i];
                let module = map.modules@[i];
                &&& shown.path == module.path
                &&& shown.files == module.files
                &&& shown.functions == module.functions
                &&& shown.key_symbols matches Some(kept) ==> kept@.len() > 0 && (
                module.key_symbols matches Some(symbols) && kept@ == symbols@)
                &&& shown.key_symbols is None ==> (module.key_symbols matches Some(symbols)
                    ==> symbols@.len() == 0)
            },
        compact.module_dependencies@.len() == map.module_dependencies@.len(),
        forall|i: int|
            0 <= i < map.module_dependencies@.len() ==> {
                let shown = #[trigger] compact.module_dependencies@[i];
                &&& shown.from == map.module_dependencies@[i].from
                &&& shown.to == map.module_dependencies@[i].to
            },
        compact.entry_points@.len() == map.entry_points@.len(),
        forall|i: int|
            0 <= i < map.entry_points@.len() ==> {
                let shown = #[trigger] compact.entry_points@[i];
                &&& shown.file == map.entry_points@[i].file
                &&& shown.handler == map.entry_points@[i].handler
                &&& shown.kind == map.entry_points@[i].kind
            },
        map.hot_functions@.len() <= 10 ==> compact.hot_functions@.len()
            == map.hot_functions@.len(),
        map.hot_functions@.len() > 10 ==> compact.hot_functions@.len() == 10,
        forall|i: int|
            0 <= i < compact.hot_functions@.len() ==> {
                let shown = #[trigger] compact.hot_functions@[i];
                let function = map.hot_functions@[i];
                &&& shown.name == function.name
                &&& shown.node_type == function.node_type
                &&& shown.file == function.file
                &&& shown.caller_count == function.caller_count
                &&& shown.test_caller_count matches Some(n) ==> n > 0 && function.test_caller_count
                    == Some(n)
                &&& shown.test_caller_count is None ==> (
                function.test_caller_count matches Some(n) ==> n <= 0)
            },
{
    assert forall|i: int| 0 <= i < map.modules@.len() implies shows_module(
        #[trigger] compact.modules@[i],
        map.modules@[i],
    ) by {}
}

/// The steps of a request for a map: an index that is up to date leads to the
/// kept map; one younger than a minute is the answer as it is and is not kept
/// anew; without such a one the index is asked, and the answer is the map of what
/// it holds, which is kept. An answer has the compact form of its own map exactly
/// where that is wanted.
pub proof fn a_map_is_answered_in_the_form_that_is_wanted(
    before: ProjectMapSearch,
    event: ProjectMapEvent,
    after: ProjectMapSearch,
    action: ProjectMapAction,
)
    requires
        stepped(before, event, after, action),
    ensures
        after.compact == before.compact,
        event is Indexed ==> after.stage is Recalling && action is Recall,
        event matches ProjectMapEvent::Recalled(kept) ==> {
            &&& (kept matches Some(k) && k.age_seconds < 60) ==> after.stage is Done && (
            action matches ProjectMapAction::Reply { map, keep, .. } && !keep && map == kept->0.map)
            &&& !(kept matches Some(k) && k.age_seconds < 60) ==> after.stage is Querying && action
                is Query
        },
        event matches ProjectMapEvent::Rows(rows) ==> after.stage is Done && (
        action matches ProjectMapAction::Reply { map, keep, .. } && keep && maps(map, rows)),
        action matches ProjectMapAction::Reply { map, compact, .. } ==> {
            &&& compact is Some <==> before.compact
            &&& compact matches Some(small) ==> condenses(small, map)
        },
{
}

/// A request for a map is compact exactly where the argument `compact` is true.
/// It brings the index up to date before it recalls a kept map, unless it is told
/// to take the index as it is.
pub proof fn a_request_starts_with_the_index(
    fields: Map<Seq<char>, Scalar>,
    skip_indexing: bool,
    search: ProjectMapSearch,
    action: ProjectMapAction,
)
    requires
        started(fields, skip_indexing, search, action),
    ensures
        search.compact <==> fields.contains_key("compact"@) && fields["compact"@] == Scalar::Flag(
            true,
        ),
        !skip_indexing ==> search.stage is Indexing && action is EnsureIndexed,
        skip_indexing ==> search.stage is Recalling && action is Recall,
{
}

/// Each stage of a request for a map waits for one kind of event; a request that
/// is done waits for none.
pub proof fn each_stage_waits_for_one_event(stage: ProjectMapStage, event: ProjectMapEvent)
    ensures
        awaits(stage, event) <==> match event {
            ProjectMapEvent::Indexed => stage is Indexing,
            ProjectMapEvent::Recalled(_) => stage is Recalling,
            ProjectMapEvent::Rows(_) => stage is Querying,
        },
{
}

/// An event that a request does not wait for changes nothing and asks for nothing; one
/// that it waits for is never passed over.
pub proof fn an_event_counts_where_it_is_waited_for(
    before: ProjectMapSearch,
    event: ProjectMapEvent,
    after: ProjectMapSearch,
    action: ProjectMapAction,
)
    requires
        goes_on(before, event, after, action),
    ensures
        !awaits(before.stage, event) ==> after == before && action is Ignore,
        awaits(before.stage, event) ==> stepped(before, event, after, action) && action !is Ignore,
{
}

} // verus!
