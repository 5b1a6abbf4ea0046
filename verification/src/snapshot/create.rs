//! Making a snapshot out of an index: the statements that turn a staging
//! database into one, and what it then says of itself.
use crate::db::{
    batch_answered, statement_answered, statement_succeeded, Session, Statement, META_STORE,
};
use crate::decimal::{decimal, i64_text, integer, numeral_reads_back};
use crate::snapshot::meta::{
    says, seconds, store_key, store_statement, storing, DatabaseError, MetaValues, SnapshotMeta,
    META_SNAPSHOT_CREATED_AT, META_SNAPSHOT_FETCHED_AT, META_SNAPSHOT_INCLUDES_VEC,
    META_SNAPSHOT_SCHEMA_VERSION, META_SNAPSHOT_SOURCE_COMMIT, META_SNAPSHOT_SOURCE_URL,
    META_SNAPSHOT_TOOL_VERSION,
};
use crate::text::{chars_of, opt_text, trim, trimmed};
use vstd::prelude::*;

verus! {

/// Drops the table of vectors.
pub const DROP_VECTORS: &'static str = "DROP TABLE IF EXISTS node_vectors;";

/// Merges the write-ahead log into the main file, so that a copy of it is
/// complete.
pub const MERGE_LOG: &'static str = "PRAGMA journal_mode = DELETE;";

/// What `git rev-parse HEAD` gave.
pub struct GitOutput {
    /// Whether it succeeded.
    pub success: bool,
    /// What it printed.
    pub stdout: String,
}

/// The commit that a run of git tells: what it printed, without white space
/// around it; empty where it failed or could not be run.
pub open spec fn commit_told(output: Option<GitOutput>) -> Seq<char> {
    match output {
        Some(o) => if o.success {
            trimmed(o.stdout@)
        } else {
            Seq::empty()
        },
        None => Seq::empty(),
    }
}

/// The commit that a run of git tells.
pub fn source_commit(output: Option<GitOutput>) -> (r: String)
    ensures
        r@ == commit_told(output),
{
    if let Some(o) = output {
        if o.success {
            return trim(o.stdout.as_str());
        }
    }
    let none = String::new();
    assert(none@ =~= Seq::empty());
    none
}

/// What is known of a snapshot when it is made.
pub struct Provenance {
    pub source_commit: String,
    /// In seconds since 1970.
    pub created_at: i64,
    pub tool_version: String,
    pub schema_version: i32,
    pub include_vec: bool,
}

/// The keys and values that a new snapshot is given.
pub open spec fn entries_of(p: Provenance) -> Seq<(Seq<char>, Seq<char>)> {
    seq![
        (META_SNAPSHOT_SOURCE_COMMIT@, p.source_commit@),
        (META_SNAPSHOT_CREATED_AT@, decimal(p.created_at as int)),
        (META_SNAPSHOT_TOOL_VERSION@, p.tool_version@),
        (META_SNAPSHOT_SCHEMA_VERSION@, decimal(p.schema_version as int)),
        (META_SNAPSHOT_INCLUDES_VEC@, if p.include_vec {
            "true"@
        } else {
            "false"@
        }),
    ]
}

/// The keys and values behind a list of strings.
pub open spec fn pairs(list: Seq<(String, String)>) -> Seq<(Seq<char>, Seq<char>)> {
    list.map_values(|e: (String, String)| (e.0@, e.1@))
}

/// The keys and values that a new snapshot is given.
pub fn snapshot_entries(p: &Provenance) -> (r: Vec<(String, String)>)
    ensures
        pairs(r@) == entries_of(*p),
{
    let vec_text: &'static str = if p.include_vec {
        "true"
    } else {
        "false"
    };
    let list = vec![
        (META_SNAPSHOT_SOURCE_COMMIT.to_owned(), p.source_commit.clone()),
        (META_SNAPSHOT_CREATED_AT.to_owned(), i64_text(p.created_at)),
        (META_SNAPSHOT_TOOL_VERSION.to_owned(), p.tool_version.clone()),
        (META_SNAPSHOT_SCHEMA_VERSION.to_owned(), i64_text(p.schema_version as i64)),
        (META_SNAPSHOT_INCLUDES_VEC.to_owned(), vec_text.to_owned()),
    ];
    assert(pairs(list@) =~= entries_of(*p));
    list
}

/// A step of the work on a database.
pub enum Step {
    /// Run a batch of statements.
    Batch(String),
    /// Store a value under a key of the meta table.
    Store { key: String, value: String },
}

impl View for Step {
    type V = Statement;

    open spec fn view(&self) -> Statement {
        match self {
            Step::Batch(sql) => Statement::Batch { sql: sql@ },
            Step::Store { key, value } => store_statement(key@, value@),
        }
    }
}

/// The statements behind steps.
pub open spec fn statements(steps: Seq<Step>) -> Seq<Statement> {
    steps.map_values(|step: Step| step@)
}

/// The statements that store keys and values.
pub open spec fn stores(entries: Seq<(Seq<char>, Seq<char>)>) -> Seq<Statement> {
    entries.map_values(|e: (Seq<char>, Seq<char>)| store_statement(e.0, e.1))
}

/// Whether a database answered a statement by success.
pub open spec fn succeeded(statement: Statement) -> bool {
    match statement {
        Statement::Batch { sql } => batch_answered(sql, None),
        Statement::Execute { sql, first, second } => statement_succeeded(sql, first, second),
        _ => false,
    }
}

/// Whether a database answered a statement by an error, which says what was
/// being done where a value was being stored.
pub open spec fn failed(statement: Statement, e: DatabaseError) -> bool {
    match statement {
        Statement::Batch { sql } => batch_answered(sql, Some(e.error)) && e.context is None,
        Statement::Execute { sql, first, second } => statement_answered(
            sql,
            first,
            second,
            Err(e.error),
        ) && opt_text(e.context) == Some(storing(first)),
        _ => false,
    }
}

/// Whether running statements in order ended like this. On success each of them
/// was handed over, and nothing else, and succeeded. On an error they were
/// handed over up to the first that failed, and nothing else, and its error was
/// given.
pub open spec fn ran_in_order(
    plan: Seq<Statement>,
    before: Seq<Statement>,
    after: Seq<Statement>,
    end: Result<(), DatabaseError>,
) -> bool {
    match end {
        Ok(_) => {
            &&& after == before + plan
            &&& forall|i: int| 0 <= i < plan.len() ==> succeeded(#[trigger] plan[i])
        },
        Err(e) => exists|n: int|
            {
                &&& 0 <= n < plan.len()
                &&& after == before + plan.take(n + 1)
                &&& failed(#[trigger] plan[n], e)
                &&& forall|i: int| 0 <= i < n ==> succeeded(#[trigger] plan[i])
            },
    }
}

fn run_step(s: &mut Session<'_>, step: &Step) -> (r: Result<(), DatabaseError>)
    ensures
        final(s).ran() == old(s).ran().push(step@),
        match r {
            Ok(_) => succeeded(step@),
            Err(e) => failed(step@, e),
        },
{
    match step {
        Step::Batch(sql) => match s.run_batch(sql.as_str()) {
            Ok(_) => Ok(()),
            Err(error) => Err(DatabaseError { context: None, error }),
        },
        Step::Store { key, value } => store_key(s, key.as_str(), value.as_str()),
    }
}

/// Runs steps in order, up to the first that fails.
pub fn run_steps(s: &mut Session<'_>, steps: &Vec<Step>) -> (r: Result<(), DatabaseError>)
    ensures
        ran_in_order(statements(steps@), old(s).ran(), final(s).ran(), r),
{
    let ghost before = s.ran();
    let ghost plan = statements(steps@);
    let mut i: usize = 0;
    assert(before + plan.take(0) =~= before);
    while i < steps.len()
        invariant
            i <= steps@.len(),
            plan == statements(steps@),
            before == old(s).ran(),
            s.ran() == before + plan.take(i as int),
            forall|k: int| 0 <= k < i ==> succeeded(#[trigger] plan[k]),
        decreases steps@.len() - i,
    {
        let ghost seen = s.ran();
        let end = run_step(s, &steps[i]);
        proof {
            assert(plan[i as int] == steps@[i as int]@);
            assert(plan.take(i + 1) =~= plan.take(i as int).push(plan[i as int]));
            assert(seen.push(plan[i as int]) =~= before + plan.take(i + 1));
        }
        match end {
            Ok(_) => {},
            Err(e) => {
                return Err(e);
            },
        }
        i = i + 1;
    }
    assert(plan.take(plan.len() as int) =~= plan);
    Ok(())
}

/// The steps that store keys and values.
pub fn store_steps(list: &Vec<(String, String)>) -> (r: Vec<Step>)
    ensures
        statements(r@) == stores(pairs(list@)),
{
    let mut steps: Vec<Step> = Vec::new();
    let mut i: usize = 0;
    while i < list.len()
        invariant
            i <= list@.len(),
            steps@.len() == i,
            forall|k: int|
                0 <= k < i ==> (#[trigger] steps@[k])@ == store_statement(
                    list@[k].0@,
                    list@[k].1@,
                ),
        decreases list@.len() - i,
    {
        steps.push(Step::Store { key: list[i].0.clone(), value: list[i].1.clone() });
        i = i + 1;
    }
    assert(statements(steps@) =~= stores(pairs(list@)));
    steps
}

/// The statements that turn a staging database into a snapshot: the vectors are
/// dropped where they are not wanted, then what the snapshot says of itself is
/// stored, then the write-ahead log is merged.
pub open spec fn creation(p: Provenance) -> Seq<Statement> {
    (if p.include_vec {
        Seq::empty()
    } else {
        seq![Statement::Batch { sql: DROP_VECTORS@ }]
    }) + stores(entries_of(p)) + seq![Statement::Batch { sql: MERGE_LOG@ }]
}

/// The steps that turn a staging database into a snapshot.
pub fn creation_steps(p: &Provenance) -> (r: Vec<Step>)
    ensures
        statements(r@) == creation(*p),
{
    let mut steps: Vec<Step> = Vec::new();
    if !p.include_vec {
        steps.push(Step::Batch(DROP_VECTORS.to_owned()));
    }
    let ghost first = statements(steps@);
    let list = snapshot_entries(p);
    let mut entries = store_steps(&list);
    let ghost middle = statements(entries@);
    steps.append(&mut entries);
    steps.push(Step::Batch(MERGE_LOG.to_owned()));
    proof {
        assert(first =~= if p.include_vec {
            Seq::empty()
        } else {
            seq![Statement::Batch { sql: DROP_VECTORS@ }]
        });
        assert(statements(steps@) =~= first + middle + seq![
            Statement::Batch { sql: MERGE_LOG@ },
        ]);
    }
    steps
}

/// Turns a staging database, which holds a full index, into a snapshot. Nothing
/// but the statements of a creation is run, in their order, up to the first that
/// fails.
pub fn create(s: &mut Session<'_>, p: &Provenance) -> (r: Result<(), DatabaseError>)
    ensures
        ran_in_order(creation(*p), old(s).ran(), final(s).ran(), r),
{
    let steps = creation_steps(p);
    run_steps(s, &steps)
}

/// A text with every single quote doubled.
pub open spec fn doubled(s: Seq<char>) -> Seq<char>
    decreases s.len(),
{
    if s.len() == 0 {
        Seq::empty()
    } else if s.last() == '\'' {
        doubled(s.drop_last()).push('\'').push('\'')
    } else {
        doubled(s.drop_last()).push(s.last())
    }
}

fn double_quotes(s: &str) -> (r: String)
    ensures
        r@ == doubled(s@),
{
    let chars = chars_of(s);
    let mut out = String::new();
    let mut i: usize = 0;
    assert(out@ =~= doubled(s@.take(0)));
    while i < chars.len()
        invariant
            i <= chars@.len(),
            chars@ == s@,
            out@ == doubled(s@.take(i as int)),
        decreases chars@.len() - i,
    {
        let c: char = chars[i];
        assert(s@.take(i + 1).drop_last() =~= s@.take(i as int));
        assert(s@.take(i + 1).last() == c);
        if c == '\'' {
            out.push(c);
        }
        out.push(c);
        i = i + 1;
    }
    assert(s@.take(s@.len() as int) =~= s@);
    out
}

/// The statement that writes a compact copy of a database to a file.
pub open spec fn vacuum_sql(out: Seq<char>) -> Seq<char> {
    "VACUUM INTO '"@ + doubled(out) + "';"@
}

/// What is being done when a copy of a database is written to a file.
pub open spec fn vacuuming(out: Seq<char>) -> Seq<char> {
    "VACUUM INTO '"@ + out + "'"@
}

/// The statement that writes a compact copy of a database to a file.
pub fn vacuum_statement(out: &str) -> (r: String)
    ensures
        r@ == vacuum_sql(out@),
{
    let mut sql = "VACUUM INTO '".to_owned();
    let path = double_quotes(out);
    sql.append(path.as_str());
    sql.append("';");
    sql
}

/// Writes a compact copy of a database to a file that must not exist, and does
/// nothing else.
pub fn vacuum_into(s: &mut Session<'_>, out: &str) -> (r: Result<(), DatabaseError>)
    ensures
        final(s).ran() == old(s).ran().push(Statement::Batch { sql: vacuum_sql(out@) }),
        match r {
            Ok(_) => batch_answered(vacuum_sql(out@), None),
            Err(e) => batch_answered(vacuum_sql(out@), Some(e.error)) && opt_text(e.context)
                == Some(vacuuming(out@)),
        },
{
    let sql = vacuum_statement(out);
    match s.run_batch(sql.as_str()) {
        Ok(_) => Ok(()),
        Err(error) => {
            let mut context = "VACUUM INTO '".to_owned();
            context.append(out);
            context.append("'");
            Err(DatabaseError { context: Some(context), error })
        },
    }
}

/// A meta table after keys and values were stored in order, each in place of
/// what the key had before.
pub open spec fn stored(
    table: Map<Seq<char>, Seq<char>>,
    entries: Seq<(Seq<char>, Seq<char>)>,
) -> Map<Seq<char>, Seq<char>>
    decreases entries.len(),
{
    if entries.len() == 0 {
        table
    } else {
        stored(table, entries.drop_last()).insert(entries.last().0, entries.last().1)
    }
}

/// The value under a key of a meta table.
pub open spec fn lookup(table: Map<Seq<char>, Seq<char>>, key: Seq<char>) -> Option<Seq<char>> {
    if table.contains_key(key) {
        Some(table[key])
    } else {
        None
    }
}

/// Whether these values are those of a meta table.
pub open spec fn taken_from(values: MetaValues, table: Map<Seq<char>, Seq<char>>) -> bool {
    &&& opt_text(values.source_commit) == lookup(table, META_SNAPSHOT_SOURCE_COMMIT@)
    &&& opt_text(values.source_url) == lookup(table, META_SNAPSHOT_SOURCE_URL@)
    &&& opt_text(values.created_at) == lookup(table, META_SNAPSHOT_CREATED_AT@)
    &&& opt_text(values.tool_version) == lookup(table, META_SNAPSHOT_TOOL_VERSION@)
    &&& opt_text(values.schema_version) == lookup(table, META_SNAPSHOT_SCHEMA_VERSION@)
    &&& opt_text(values.includes_vec) == lookup(table, META_SNAPSHOT_INCLUDES_VEC@)
    &&& opt_text(values.fetched_at) == lookup(table, META_SNAPSHOT_FETCHED_AT@)
}

/// No two of the keys that describe a snapshot are the same, nor are the two
/// texts for a flag.
pub proof fn snapshot_keys_differ()
    ensures
        META_SNAPSHOT_SOURCE_COMMIT@ != META_SNAPSHOT_CREATED_AT@,
        META_SNAPSHOT_SOURCE_COMMIT@ != META_SNAPSHOT_TOOL_VERSION@,
        META_SNAPSHOT_SOURCE_COMMIT@ != META_SNAPSHOT_SCHEMA_VERSION@,
        META_SNAPSHOT_SOURCE_COMMIT@ != META_SNAPSHOT_INCLUDES_VEC@,
        META_SNAPSHOT_CREATED_AT@ != META_SNAPSHOT_TOOL_VERSION@,
        META_SNAPSHOT_CREATED_AT@ != META_SNAPSHOT_SCHEMA_VERSION@,
        META_SNAPSHOT_CREATED_AT@ != META_SNAPSHOT_INCLUDES_VEC@,
        META_SNAPSHOT_TOOL_VERSION@ != META_SNAPSHOT_SCHEMA_VERSION@,
        META_SNAPSHOT_TOOL_VERSION@ != META_SNAPSHOT_INCLUDES_VEC@,
        META_SNAPSHOT_SCHEMA_VERSION@ != META_SNAPSHOT_INCLUDES_VEC@,
        META_SNAPSHOT_SOURCE_URL@ != META_SNAPSHOT_SOURCE_COMMIT@,
        META_SNAPSHOT_SOURCE_URL@ != META_SNAPSHOT_CREATED_AT@,
        META_SNAPSHOT_SOURCE_URL@ != META_SNAPSHOT_TOOL_VERSION@,
        META_SNAPSHOT_SOURCE_URL@ != META_SNAPSHOT_SCHEMA_VERSION@,
        META_SNAPSHOT_SOURCE_URL@ != META_SNAPSHOT_INCLUDES_VEC@,
        META_SNAPSHOT_FETCHED_AT@ != META_SNAPSHOT_SOURCE_COMMIT@,
        META_SNAPSHOT_FETCHED_AT@ != META_SNAPSHOT_CREATED_AT@,
        META_SNAPSHOT_FETCHED_AT@ != META_SNAPSHOT_TOOL_VERSION@,
        META_SNAPSHOT_FETCHED_AT@ != META_SNAPSHOT_SCHEMA_VERSION@,
        META_SNAPSHOT_FETCHED_AT@ != META_SNAPSHOT_INCLUDES_VEC@,
        META_SNAPSHOT_FETCHED_AT@ != META_SNAPSHOT_SOURCE_URL@,
        "true"@ != "false"@,
{
    reveal_strlit("snapshot_source_commit");
    reveal_strlit("snapshot_source_url");
    reveal_strlit("snapshot_created_at");
    reveal_strlit("snapshot_tool_version");
    reveal_strlit("snapshot_schema_version");
    reveal_strlit("snapshot_includes_vec");
    reveal_strlit("snapshot_fetched_at");
    reveal_strlit("true");
    reveal_strlit("false");
    assert(META_SNAPSHOT_SOURCE_URL@[9] == 's');
    assert(META_SNAPSHOT_CREATED_AT@[9] == 'c');
    assert(META_SNAPSHOT_TOOL_VERSION@[9] == 't');
    assert(META_SNAPSHOT_INCLUDES_VEC@[9] == 'i');
    assert(META_SNAPSHOT_FETCHED_AT@[9] == 'f');
    assert(META_SNAPSHOT_SOURCE_URL@[16] == 'u');
    assert(META_SNAPSHOT_SOURCE_COMMIT@[16] == 'c');
    assert("true"@.len() == 4);
    assert(META_SNAPSHOT_SCHEMA_VERSION@[10] == 'c');
    assert(META_SNAPSHOT_SOURCE_COMMIT@[10] == 'o');
}

/// Whether a snapshot says of itself what was known when it was made.
pub open spec fn tells_provenance(meta: SnapshotMeta, p: Provenance) -> bool {
    &&& meta.source_commit@ == p.source_commit@
    &&& meta.created_at == p.created_at
    &&& meta.tool_version@ == p.tool_version@
    &&& meta.schema_version == p.schema_version
    &&& meta.includes_vec == p.include_vec
}

/// Inspecting a snapshot gives back what was stored when it was made, whatever
/// its meta table held before; what it says of an installation, where it came
/// from and when it was fetched, is what the table held before.
pub proof fn inspection_reads_back_creation(
    p: Provenance,
    table: Map<Seq<char>, Seq<char>>,
    values: MetaValues,
    meta: SnapshotMeta,
    file_size_bytes: u64,
)
    requires
        taken_from(values, stored(table, entries_of(p))),
        says(meta, values, file_size_bytes),
    ensures
        tells_provenance(meta, p),
        opt_text(meta.source_url) == lookup(table, META_SNAPSHOT_SOURCE_URL@),
        match meta.fetched_at {
            Some(n) => seconds(lookup(table, META_SNAPSHOT_FETCHED_AT@)) == Some(n as int),
            None => seconds(lookup(table, META_SNAPSHOT_FETCHED_AT@)) is None,
        },
{
    snapshot_keys_differ();
    let e = entries_of(p);
    assert(e.drop_last() =~= e.take(4));
    assert(e.take(4).drop_last() =~= e.take(3));
    assert(e.take(3).drop_last() =~= e.take(2));
    assert(e.take(2).drop_last() =~= e.take(1));
    assert(e.take(1).drop_last() =~= e.take(0));
    reveal_with_fuel(stored, 6);
    numeral_reads_back(p.created_at as int);
    numeral_reads_back(p.schema_version as int);
}

/// A key that was stored reads back, every other key keeps its value or its
/// absence, and storing the same again changes nothing.
pub proof fn a_stored_key_reads_back(
    table: Map<Seq<char>, Seq<char>>,
    key: Seq<char>,
    value: Seq<char>,
)
    ensures
        lookup(stored(table, seq![(key, value)]), key) == Some(value),
        forall|other: Seq<char>|
            other != key ==> lookup(#[trigger] stored(table, seq![(key, value)]), other) == lookup(
                table,
                other,
            ),
        stored(stored(table, seq![(key, value)]), seq![(key, value)]) == stored(
            table,
            seq![(key, value)],
        ),
{
    let entry = seq![(key, value)];
    assert(entry.drop_last() =~= Seq::empty());
    assert(stored(table, entry) == table.insert(key, value)) by {
        reveal_with_fuel(stored, 2);
    }
    assert(stored(stored(table, entry), entry) == stored(table, entry).insert(key, value)) by {
        reveal_with_fuel(stored, 2);
    }
    assert(stored(table, entry).insert(key, value) =~= stored(table, entry));
}

/// A value that is stored over another is the one that reads back.
pub proof fn a_later_value_replaces_an_earlier(
    table: Map<Seq<char>, Seq<char>>,
    key: Seq<char>,
    earlier: Seq<char>,
    later: Seq<char>,
)
    ensures
        stored(stored(table, seq![(key, earlier)]), seq![(key, later)]) == stored(
            table,
            seq![(key, later)],
        ),
{
    let one = seq![(key, earlier)];
    let two = seq![(key, later)];
    assert(one.drop_last() =~= Seq::empty());
    assert(two.drop_last() =~= Seq::empty());
    reveal_with_fuel(stored, 2);
    assert(table.insert(key, earlier).insert(key, later) =~= table.insert(key, later));
}

/// A meta table after statements: those that store a value under a key do so,
/// and no other changes it.
pub open spec fn table_after(
    table: Map<Seq<char>, Seq<char>>,
    ran: Seq<Statement>,
) -> Map<Seq<char>, Seq<char>>
    decreases ran.len(),
{
    if ran.len() == 0 {
        table
    } else {
        let before = table_after(table, ran.drop_last());
        match ran.last() {
            Statement::Execute { sql, first, second } => if sql == META_STORE@ {
                before.insert(first, second)
            } else {
                before
            },
            _ => before,
        }
    }
}

proof fn lemma_table_after_stores(
    table: Map<Seq<char>, Seq<char>>,
    ran: Seq<Statement>,
    entries: Seq<(Seq<char>, Seq<char>)>,
)
    ensures
        table_after(table, ran + stores(entries)) == stored(table_after(table, ran), entries),
    decreases entries.len(),
{
    let all = ran + stores(entries);
    if entries.len() == 0 {
        assert(all =~= ran);
    } else {
        lemma_table_after_stores(table, ran, entries.drop_last());
        assert(all.drop_last() =~= ran + stores(entries.drop_last()));
        assert(all.last() == store_statement(entries.last().0, entries.last().1));
    }
}

/// A creation stores what the snapshot says of itself, and drops the vectors
/// exactly where they are not wanted.
pub proof fn a_creation_stores_its_entries(p: Provenance, table: Map<Seq<char>, Seq<char>>)
    ensures
        table_after(table, creation(p)) == stored(table, entries_of(p)),
        creation(p).contains(Statement::Batch { sql: DROP_VECTORS@ }) <==> !p.include_vec,
{
    let drop_vectors = Statement::Batch { sql: DROP_VECTORS@ };
    let first = if p.include_vec {
        Seq::empty()
    } else {
        seq![drop_vectors]
    };
    let body = first + stores(entries_of(p));
    assert(first.len() > 0 ==> first.drop_last() =~= Seq::empty());
    assert(table_after(table, first) == table) by {
        reveal_with_fuel(table_after, 2);
    }
    lemma_table_after_stores(table, first, entries_of(p));
    assert(creation(p).drop_last() =~= body);
    assert(DROP_VECTORS@ != MERGE_LOG@) by {
        reveal_strlit("DROP TABLE IF EXISTS node_vectors;");
        reveal_strlit("PRAGMA journal_mode = DELETE;");
        assert(DROP_VECTORS@[0] == 'D' && MERGE_LOG@[0] == 'P');
    }
    if p.include_vec {
        assert forall|i: int| 0 <= i < creation(p).len() implies creation(p)[i]
            != drop_vectors by {
            if i < body.len() {
                assert(creation(p)[i] == stores(entries_of(p))[i]);
            }
        }
    } else {
        assert(creation(p)[0] == drop_vectors);
    }
}

/// A path without a single quote stands in the statement as it is.
pub proof fn a_plain_path_is_not_changed(path: Seq<char>)
    requires
        !path.contains('\''),
    ensures
        doubled(path) == path,
        vacuum_sql(path) == vacuuming(path) + ";"@,
    decreases path.len(),
{
    if path.len() > 0 {
        let rest = path.drop_last();
        assert forall|i: int| 0 <= i < rest.len() implies rest[i] != '\'' by {
            assert(path.contains(path[i]));
        }
        assert(!rest.contains('\''));
        a_plain_path_is_not_changed(rest);
        assert(path.contains(path.last()));
        assert(rest.push(path.last()) =~= path);
    }
    reveal_strlit("';");
    reveal_strlit("'");
    reveal_strlit(";");
    assert("';"@ =~= "'"@ + ";"@);
    assert(vacuum_sql(path) =~= vacuuming(path) + ";"@);
}

/// The commit is what git printed without white space around it, and empty where
/// git failed or could not be run.
pub proof fn a_commit_is_what_git_printed(output: Option<GitOutput>)
    ensures
        output matches Some(o) ==> (o.success ==> commit_told(output) == trimmed(o.stdout@)),
        !(output matches Some(o) && o.success) ==> commit_told(output).len() == 0,
{
}

/// A new snapshot is given five entries: the commit and the version of the tool
/// as they are, the time and the version of the schema as numerals that read
/// back, and `true` or `false` for the vectors.
pub proof fn a_snapshot_is_given_five_entries(p: Provenance)
    ensures
        entries_of(p).len() == 5,
        entries_of(p)[0] == ("snapshot_source_commit"@, p.source_commit@),
        entries_of(p)[1].0 == "snapshot_created_at"@,
        integer(entries_of(p)[1].1) == Some(p.created_at as int),
        entries_of(p)[2] == ("snapshot_tool_version"@, p.tool_version@),
        entries_of(p)[3].0 == "snapshot_schema_version"@,
        integer(entries_of(p)[3].1) == Some(p.schema_version as int),
        entries_of(p)[4].0 == "snapshot_includes_vec"@,
        p.include_vec ==> entries_of(p)[4].1 == "true"@,
        !p.include_vec ==> entries_of(p)[4].1 == "false"@,
{
    numeral_reads_back(p.created_at as int);
    numeral_reads_back(p.schema_version as int);
}

/// The statements that store entries store each of them, in order, under its key
/// and with its value.
pub proof fn each_entry_is_stored_under_its_key(entries: Seq<(Seq<char>, Seq<char>)>)
    ensures
        stores(entries).len() == entries.len(),
        forall|i: int|
            0 <= i < entries.len() ==> (#[trigger] stores(entries)[i] matches Statement::Execute {
                sql,
                first,
                second,
            } && sql == "INSERT OR REPLACE INTO meta(key, value) VALUES (?1, ?2)"@ && first
                == entries[i].0 && second == entries[i].1),
{
    assert forall|i: int| 0 <= i < entries.len() implies #[trigger] stores(entries)[i]
        == store_statement(entries[i].0, entries[i].1) by {}
}

/// A creation drops the vectors first, and only where they are not wanted; then
/// stores the entries in order; and merges the log last.
pub proof fn a_creation_drops_stores_and_merges(p: Provenance)
    ensures
        creation(p).len() == (if p.include_vec {
            6nat
        } else {
            7nat
        }),
        creation(p).last() == (Statement::Batch { sql: "PRAGMA journal_mode = DELETE;"@ }),
        !p.include_vec ==> creation(p)[0] == (Statement::Batch {
            sql: "DROP TABLE IF EXISTS node_vectors;"@,
        }),
        forall|i: int|
            0 <= i < 5 ==> creation(p)[i + (if p.include_vec {
                0int
            } else {
                1int
            })] == #[trigger] stores(entries_of(p))[i],
{
}

/// The statements behind steps are those of the steps, one for each and in
/// order: a batch with its text, and a store with its key and value.
pub proof fn a_step_is_its_statement(steps: Seq<Step>, list: Seq<(String, String)>)
    ensures
        statements(steps).len() == steps.len(),
        forall|i: int|
            0 <= i < steps.len() ==> match steps[i] {
                Step::Batch(sql) => #[trigger] statements(steps)[i] == (Statement::Batch {
                    sql: sql@,
                }),
                Step::Store { key, value } => statements(steps)[i] == (Statement::Execute {
                    sql: "INSERT OR REPLACE INTO meta(key, value) VALUES (?1, ?2)"@,
                    first: key@,
                    second: value@,
                }),
            },
        pairs(list).len() == list.len(),
        forall|i: int|
            0 <= i < list.len() ==> (#[trigger] pairs(list)[i]).0 == list[i].0@ && pairs(list)[i].1
                == list[i].1@,
{
}

/// Whether a database answered a statement without parameters, or one that
/// stores, by an error or, where there is none, by success.
pub open spec fn ended_by(statement: Statement, error: Option<rusqlite::Error>) -> bool {
    match statement {
        Statement::Batch { sql } => batch_answered(sql, error),
        Statement::Execute { sql, first, second } => match error {
            None => exists|changed: usize| #[trigger]
                statement_answered(sql, first, second, Ok(changed)),
            Some(e) => statement_answered(sql, first, second, Err(e)),
        },
        _ => false,
    }
}

/// Statements are run in order and nothing else is. A run that ends well ran all
/// of them, each with success; one that ends with an error ran those before with
/// success, and stopped at the one to which the database gave that error, which
/// names the key where a value was being stored. Gives the number of statements
/// that succeeded.
pub proof fn a_run_stops_at_the_first_error(
    plan: Seq<Statement>,
    before: Seq<Statement>,
    after: Seq<Statement>,
    end: Result<(), DatabaseError>,
) -> (n: int)
    requires
        ran_in_order(plan, before, after, end),
    ensures
        0 <= n <= plan.len(),
        forall|i: int| 0 <= i < n ==> ended_by(#[trigger] plan[i], None),
        end is Ok ==> n == plan.len() && after == before + plan,
        end matches Err(e) ==> {
            &&& n < plan.len()
            &&& after == before + plan.subrange(0, n + 1)
            &&& ended_by(plan[n], Some(e.error))
            &&& plan[n] is Batch ==> e.context is None
            &&& plan[n] matches Statement::Execute { first, .. } ==> (
            e.context matches Some(context) && context@ == "write_meta("@ + first + ")"@)
        },
{
    match end {
        Ok(_) => {
            assert forall|i: int| 0 <= i < plan.len() implies ended_by(
                #[trigger] plan[i],
                None,
            ) by {
                assert(succeeded(plan[i]));
            }
            plan.len() as int
        },
        Err(e) => {
            let n = choose|n: int|
                {
                    &&& 0 <= n < plan.len()
                    &&& after == before + plan.take(n + 1)
                    &&& failed(#[trigger] plan[n], e)
                    &&& forall|i: int| 0 <= i < n ==> succeeded(#[trigger] plan[i])
                };
            assert(plan.take(n + 1) =~= plan.subrange(0, n + 1));
            assert forall|i: int| 0 <= i < n implies ended_by(#[trigger] plan[i], None) by {
                assert(succeeded(plan[i]));
            }
            n
        },
    }
}

/// Doubling quotes goes character by character: a single quote becomes two, and
/// every other character stays.
pub proof fn quotes_are_doubled_one_by_one(one: Seq<char>, c: char, other: Seq<char>)
    ensures
        doubled(Seq::empty()) == Seq::<char>::empty(),
        doubled(seq![c]) == (if c == '\'' {
            seq!['\'', '\'']
        } else {
            seq![c]
        }),
        doubled(one + other) == doubled(one) + doubled(other),
    decreases other.len(),
{
    assert(seq![c].drop_last() =~= Seq::empty());
    reveal_with_fuel(doubled, 2);
    assert(doubled(seq![c]) =~= (if c == '\'' {
        seq!['\'', '\'']
    } else {
        seq![c]
    }));
    if other.len() == 0 {
        assert(one + other =~= one);
        assert(doubled(one) + doubled(other) =~= doubled(one));
    } else {
        quotes_are_doubled_one_by_one(one, c, other.drop_last());
        assert((one + other).drop_last() =~= one + other.drop_last());
        assert(doubled(one + other) =~= doubled(one) + doubled(other));
    }
}

/// A copy of a database is written by one statement, which names the file
/// between single quotes, those of its path doubled; an error tells the path as
/// it is.
pub proof fn a_copy_is_written_to_its_path(out: Seq<char>)
    ensures
        vacuum_sql(out) == "VACUUM INTO '"@ + doubled(out) + "';"@,
        vacuuming(out) == "VACUUM INTO '"@ + out + "'"@,
{
}

} // verus!
