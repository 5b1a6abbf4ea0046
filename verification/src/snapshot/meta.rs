//! What a snapshot says of itself: the keys of its meta table and the value
//! that they make up.
use crate::db::{
    is_no_rows, no_rows, number_answered, statement_answered, statement_succeeded, text_answered,
    Session, Statement, COUNT_EDGES, COUNT_NODES, META_LOAD, META_STORE,
};
use crate::decimal::{integer, integer_within, parse_i32, parse_i64};
use crate::text::{copy_opt, opt_text, same_text};
use vstd::prelude::*;

verus! {

/// The commit that a snapshot was made from.
pub const META_SNAPSHOT_SOURCE_COMMIT: &'static str = "snapshot_source_commit";

/// Where an installed snapshot came from.
pub const META_SNAPSHOT_SOURCE_URL: &'static str = "snapshot_source_url";

/// When a snapshot was made, in seconds since 1970.
pub const META_SNAPSHOT_CREATED_AT: &'static str = "snapshot_created_at";

/// The version of the tool that made a snapshot.
pub const META_SNAPSHOT_TOOL_VERSION: &'static str = "snapshot_tool_version";

/// The version of the schema of a snapshot.
pub const META_SNAPSHOT_SCHEMA_VERSION: &'static str = "snapshot_schema_version";

/// Whether a snapshot holds vectors: `true` or `false`.
pub const META_SNAPSHOT_INCLUDES_VEC: &'static str = "snapshot_includes_vec";

/// When an installed snapshot was fetched, in seconds since 1970.
pub const META_SNAPSHOT_FETCHED_AT: &'static str = "snapshot_fetched_at";

/// An error of a database, with what was being done.
pub struct DatabaseError {
    pub context: Option<String>,
    pub error: rusqlite::Error,
}

/// What is being done when a value is stored under a key.
pub open spec fn storing(key: Seq<char>) -> Seq<char> {
    "write_meta("@ + key + ")"@
}

/// Whether an attempt to store a value under a key ended like this: stored
/// where the database said so, else with its error.
pub open spec fn key_written(
    key: Seq<char>,
    value: Seq<char>,
    end: Result<(), DatabaseError>,
) -> bool {
    match end {
        Ok(_) => statement_succeeded(META_STORE@, key, value),
        Err(e) => statement_answered(META_STORE@, key, value, Err(e.error)) && opt_text(e.context)
            == Some(storing(key)),
    }
}

/// The statement that stores a value under a key.
pub open spec fn store_statement(key: Seq<char>, value: Seq<char>) -> Statement {
    Statement::Execute { sql: META_STORE@, first: key, second: value }
}

/// The statement that reads the value under a key.
pub open spec fn load_statement(key: Seq<char>) -> Statement {
    Statement::Text { sql: META_LOAD@, parameter: key }
}

/// Stores a value under a key of the meta table, and does nothing else.
pub fn store_key(s: &mut Session<'_>, key: &str, value: &str) -> (r: Result<(), DatabaseError>)
    ensures
        final(s).ran() == old(s).ran().push(store_statement(key@, value@)),
        key_written(key@, value@, r),
{
    match s.run_statement(META_STORE, key, value) {
        Ok(changed) => {
            assert(statement_answered(META_STORE@, key@, value@, Ok(changed)));
            Ok(())
        },
        Err(error) => {
            let mut context = "write_meta(".to_owned();
            context.append(key);
            context.append(")");
            Err(DatabaseError { context: Some(context), error })
        },
    }
}

/// Stores a value under a key of the meta table.
pub fn write_meta(conn: &rusqlite::Connection, key: &str, value: &str) -> (r: Result<
    (),
    DatabaseError,
>)
    ensures
        key_written(key@, value@, r),
{
    let mut s = Session::new(conn);
    store_key(&mut s, key, value)
}

/// What the answer to a query for a value means: a value, no value where there
/// is no row, or the error.
pub open spec fn value_of(answer: Result<String, rusqlite::Error>) -> Result<
    Option<String>,
    DatabaseError,
> {
    match answer {
        Ok(value) => Ok(Some(value)),
        Err(error) => if is_no_rows(error) {
            Ok(None)
        } else {
            Err(DatabaseError { context: None, error })
        },
    }
}

/// What the answer to a query for a value means.
pub fn meta_value(answer: Result<String, rusqlite::Error>) -> (r: Result<
    Option<String>,
    DatabaseError,
>)
    ensures
        r == value_of(answer),
{
    match answer {
        Ok(value) => Ok(Some(value)),
        Err(error) => if no_rows(&error) {
            Ok(None)
        } else {
            Err(DatabaseError { context: None, error })
        },
    }
}

/// Whether an attempt to read a key of the meta table ended like this.
pub open spec fn key_read(key: Seq<char>, end: Result<Option<String>, DatabaseError>) -> bool {
    exists|answer: Result<String, rusqlite::Error>| #[trigger]
        text_answered(META_LOAD@, key, answer) && end == value_of(answer)
}

/// Reads the value under a key of the meta table, `None` where there is none,
/// and does nothing else.
pub fn load_key(s: &mut Session<'_>, key: &str) -> (r: Result<Option<String>, DatabaseError>)
    ensures
        final(s).ran() == old(s).ran().push(load_statement(key@)),
        key_read(key@, r),
{
    let answer = s.query_text(META_LOAD, key);
    meta_value(answer)
}

/// Reads the value under a key of the meta table; `None` where there is none.
pub fn read_meta(conn: &rusqlite::Connection, key: &str) -> (r: Result<
    Option<String>,
    DatabaseError,
>)
    ensures
        key_read(key@, r),
{
    let mut s = Session::new(conn);
    load_key(&mut s, key)
}

/// What a snapshot says of itself.
pub struct SnapshotMeta {
    pub source_commit: String,
    pub source_url: Option<String>,
    pub created_at: i64,
    pub tool_version: String,
    pub schema_version: i32,
    pub includes_vec: bool,
    pub fetched_at: Option<i64>,
    pub node_count: i64,
    pub edge_count: i64,
    pub file_size_bytes: u64,
}

/// The values of a meta table that describe a snapshot, and the sizes of its
/// graph as far as they could be counted.
pub struct MetaValues {
    pub source_commit: Option<String>,
    pub source_url: Option<String>,
    pub created_at: Option<String>,
    pub tool_version: Option<String>,
    pub schema_version: Option<String>,
    pub includes_vec: Option<String>,
    pub fetched_at: Option<String>,
    pub node_count: Option<i64>,
    pub edge_count: Option<i64>,
}

/// The text of a value; empty where there is none.
pub open spec fn text_or_empty(value: Option<Seq<char>>) -> Seq<char> {
    match value {
        Some(text) => text,
        None => Seq::empty(),
    }
}

/// The number of seconds that a value gives, where it gives one.
pub open spec fn seconds(value: Option<Seq<char>>) -> Option<int> {
    match value {
        Some(text) => integer_within(text, i64::MIN as int, i64::MAX as int),
        None => None,
    }
}

/// The number of a schema version that a value gives; 0 where it gives none.
pub open spec fn version(value: Option<Seq<char>>) -> int {
    match value {
        Some(text) => match integer_within(text, i32::MIN as int, i32::MAX as int) {
            Some(n) => n,
            None => 0,
        },
        None => 0,
    }
}

/// Whether `meta` is what these values say.
pub open spec fn says(meta: SnapshotMeta, values: MetaValues, file_size_bytes: u64) -> bool {
    &&& meta.source_commit@ == text_or_empty(opt_text(values.source_commit))
    &&& opt_text(meta.source_url) == opt_text(values.source_url)
    &&& meta.created_at == (match seconds(opt_text(values.created_at)) {
        Some(n) => n,
        None => 0,
    })
    &&& meta.tool_version@ == text_or_empty(opt_text(values.tool_version))
    &&& meta.schema_version == version(opt_text(values.schema_version))
    &&& meta.includes_vec == (opt_text(values.includes_vec) == Some("true"@))
    &&& match meta.fetched_at {
        Some(n) => seconds(opt_text(values.fetched_at)) == Some(n as int),
        None => seconds(opt_text(values.fetched_at)) is None,
    }
    &&& meta.node_count == (match values.node_count {
        Some(n) => n,
        None => 0,
    })
    &&& meta.edge_count == (match values.edge_count {
        Some(n) => n,
        None => 0,
    })
    &&& meta.file_size_bytes == file_size_bytes
}

/// The text of a value; empty where there is none.
pub fn opt_or_empty(value: Option<String>) -> (r: String)
    ensures
        r@ == text_or_empty(opt_text(value)),
{
    match value {
        Some(text) => text,
        None => {
            let text = String::new();
            assert(text@ =~= Seq::empty());
            text
        },
    }
}

fn parse_seconds(value: &Option<String>) -> (r: Option<i64>)
    ensures
        match r {
            Some(n) => seconds(opt_text(*value)) == Some(n as int),
            None => seconds(opt_text(*value)) is None,
        },
{
    match value {
        Some(text) => parse_i64(text.as_str()),
        None => None,
    }
}

fn parse_version(value: &Option<String>) -> (r: i32)
    ensures
        r == version(opt_text(*value)),
{
    match value {
        Some(text) => match parse_i32(text.as_str()) {
            Some(n) => n,
            None => 0,
        },
        None => 0,
    }
}

/// What these values say.
pub fn snapshot_meta(values: MetaValues, file_size_bytes: u64) -> (r: SnapshotMeta)
    ensures
        says(r, values, file_size_bytes),
{
    let created_at: i64 = match parse_seconds(&values.created_at) {
        Some(n) => n,
        None => 0,
    };
    let includes_vec: bool = match &values.includes_vec {
        Some(text) => same_text(text.as_str(), "true"),
        None => false,
    };
    let node_count: i64 = match values.node_count {
        Some(n) => n,
        None => 0,
    };
    let edge_count: i64 = match values.edge_count {
        Some(n) => n,
        None => 0,
    };
    SnapshotMeta {
        schema_version: parse_version(&values.schema_version),
        fetched_at: parse_seconds(&values.fetched_at),
        source_commit: opt_or_empty(values.source_commit),
        source_url: values.source_url,
        created_at,
        tool_version: opt_or_empty(values.tool_version),
        includes_vec,
        node_count,
        edge_count,
        file_size_bytes,
    }
}

/// Whether a count of rows gave `count`; an error gives none.
pub open spec fn counted(sql: Seq<char>, count: Option<i64>) -> bool {
    exists|answer: Result<i64, rusqlite::Error>| #[trigger]
        number_answered(sql, answer) && count == (match answer {
            Ok(n) => Some(n),
            Err(_) => None::<i64>,
        })
}

fn count(s: &mut Session<'_>, sql: &str) -> (r: Option<i64>)
    requires
        sql@ == COUNT_NODES@ || sql@ == COUNT_EDGES@,
    ensures
        final(s).ran() == old(s).ran().push(Statement::Number { sql: sql@ }),
        counted(sql@, r),
{
    let answer = s.query_number(sql);
    let ghost given = answer;
    assert(number_answered(sql@, given));
    match answer {
        Ok(n) => Some(n),
        Err(_) => None,
    }
}

/// Whether a read of a key gave a value.
pub open spec fn key_gave(key: Seq<char>, value: Option<String>) -> bool {
    key_read(key, Ok(value))
}

/// Whether a database gave these values.
pub open spec fn values_read(values: MetaValues) -> bool {
    &&& key_gave(META_SNAPSHOT_SOURCE_COMMIT@, values.source_commit)
    &&& key_gave(META_SNAPSHOT_SOURCE_URL@, values.source_url)
    &&& key_gave(META_SNAPSHOT_CREATED_AT@, values.created_at)
    &&& key_gave(META_SNAPSHOT_TOOL_VERSION@, values.tool_version)
    &&& key_gave(META_SNAPSHOT_SCHEMA_VERSION@, values.schema_version)
    &&& key_gave(META_SNAPSHOT_INCLUDES_VEC@, values.includes_vec)
    &&& key_gave(META_SNAPSHOT_FETCHED_AT@, values.fetched_at)
    &&& counted(COUNT_NODES@, values.node_count)
    &&& counted(COUNT_EDGES@, values.edge_count)
}

/// The keys that describe a snapshot, in the order in which they are read.
pub open spec fn snapshot_keys() -> Seq<Seq<char>> {
    seq![
        META_SNAPSHOT_SOURCE_COMMIT@,
        META_SNAPSHOT_SOURCE_URL@,
        META_SNAPSHOT_CREATED_AT@,
        META_SNAPSHOT_TOOL_VERSION@,
        META_SNAPSHOT_SCHEMA_VERSION@,
        META_SNAPSHOT_INCLUDES_VEC@,
        META_SNAPSHOT_FETCHED_AT@,
    ]
}

/// The statements that read keys.
pub open spec fn loads(keys: Seq<Seq<char>>) -> Seq<Statement> {
    keys.map_values(|key: Seq<char>| load_statement(key))
}

/// The statements of an inspection.
pub open spec fn inspection() -> Seq<Statement> {
    loads(snapshot_keys()) + seq![
        Statement::Number { sql: COUNT_NODES@ },
        Statement::Number { sql: COUNT_EDGES@ },
    ]
}

/// Whether reading keys ended with an error: the one of a key, after the keys
/// before it and that key were asked for, and nothing else.
pub open spec fn read_stopped(
    keys: Seq<Seq<char>>,
    before: Seq<Statement>,
    after: Seq<Statement>,
    error: DatabaseError,
) -> bool {
    exists|n: int|
        {
            &&& 0 <= n < keys.len()
            &&& key_read(#[trigger] keys[n], Err(error))
            &&& after == before + loads(keys.take(n + 1))
        }
}

/// The texts behind a list.
spec fn key_texts(keys: Seq<&str>) -> Seq<Seq<char>> {
    keys.map_values(|key: &str| key@)
}

fn read_keys(s: &mut Session<'_>, keys: &Vec<&str>) -> (r: Result<
    Vec<Option<String>>,
    DatabaseError,
>)
    ensures
        match r {
            Ok(values) => {
                &&& values@.len() == keys@.len()
                &&& forall|i: int|
                    0 <= i < keys@.len() ==> key_gave(keys@[i]@, #[trigger] values@[i])
                &&& final(s).ran() == old(s).ran() + loads(key_texts(keys@))
            },
            Err(error) => read_stopped(key_texts(keys@), old(s).ran(), final(s).ran(), error),
        },
{
    let ghost before = s.ran();
    let ghost all = key_texts(keys@);
    let mut values: Vec<Option<String>> = Vec::new();
    let mut i: usize = 0;
    assert(before + loads(all.take(0)) =~= before);
    while i < keys.len()
        invariant
            i <= keys@.len(),
            all == key_texts(keys@),
            values@.len() == i,
            before == old(s).ran(),
            s.ran() == before + loads(all.take(i as int)),
            forall|k: int| 0 <= k < i ==> key_gave(keys@[k]@, #[trigger] values@[k]),
        decreases keys@.len() - i,
    {
        let ghost seen = s.ran();
        let end = load_key(s, keys[i]);
        proof {
            assert(all[i as int] == keys@[i as int]@);
            assert(all.take(i + 1) =~= all.take(i as int).push(all[i as int]));
            assert(loads(all.take(i + 1)) =~= loads(all.take(i as int)).push(
                load_statement(all[i as int]),
            ));
            assert(seen.push(load_statement(all[i as int])) =~= before + loads(all.take(i + 1)));
        }
        match end {
            Ok(value) => {
                values.push(value);
            },
            Err(e) => {
                return Err(e);
            },
        }
        i = i + 1;
    }
    assert(all.take(all.len() as int) =~= all);
    Ok(values)
}

/// What the snapshot in a database says of itself, its file having a size. A
/// graph whose nodes or edges cannot be counted counts as empty. Nothing but the
/// keys and the counts is asked for.
pub fn inspect(s: &mut Session<'_>, file_size_bytes: u64) -> (r: Result<
    SnapshotMeta,
    DatabaseError,
>)
    ensures
        match r {
            Ok(meta) => {
                &&& final(s).ran() == old(s).ran() + inspection()
                &&& exists|values: MetaValues| #[trigger]
                    values_read(values) && says(meta, values, file_size_bytes)
            },
            Err(error) => read_stopped(snapshot_keys(), old(s).ran(), final(s).ran(), error),
        },
{
    let keys = vec![
        META_SNAPSHOT_SOURCE_COMMIT,
        META_SNAPSHOT_SOURCE_URL,
        META_SNAPSHOT_CREATED_AT,
        META_SNAPSHOT_TOOL_VERSION,
        META_SNAPSHOT_SCHEMA_VERSION,
        META_SNAPSHOT_INCLUDES_VEC,
        META_SNAPSHOT_FETCHED_AT,
    ];
    assert(key_texts(keys@) =~= snapshot_keys());
    let given = match read_keys(s, &keys) {
        Ok(given) => given,
        Err(e) => {
            return Err(e);
        },
    };
    assert(key_gave(keys@[0]@, given@[0]) && key_gave(keys@[1]@, given@[1]) && key_gave(
        keys@[2]@,
        given@[2],
    ) && key_gave(keys@[3]@, given@[3]) && key_gave(keys@[4]@, given@[4]) && key_gave(
        keys@[5]@,
        given@[5],
    ) && key_gave(keys@[6]@, given@[6]));
    let node_count = count(s, COUNT_NODES);
    let edge_count = count(s, COUNT_EDGES);
    assert(s.ran() =~= old(s).ran() + inspection());
    let values = MetaValues {
        source_commit: copy_opt(&given[0]),
        source_url: copy_opt(&given[1]),
        created_at: copy_opt(&given[2]),
        tool_version: copy_opt(&given[3]),
        schema_version: copy_opt(&given[4]),
        includes_vec: copy_opt(&given[5]),
        fetched_at: copy_opt(&given[6]),
        node_count,
        edge_count,
    };
    let ghost read = values;
    assert(values_read(read));
    Ok(snapshot_meta(values, file_size_bytes))
}

/// A value is stored, and read, by one statement each on the meta table, with
/// the key and the value as they are.
pub proof fn a_key_is_stored_and_read_as_it_is(key: Seq<char>, value: Seq<char>)
    ensures
        store_statement(key, value) matches Statement::Execute { sql, first, second } && sql
            == "INSERT OR REPLACE INTO meta(key, value) VALUES (?1, ?2)"@ && first == key
            && second == value,
        load_statement(key) matches Statement::Text { sql, parameter } && sql
            == "SELECT value FROM meta WHERE key = ?1"@ && parameter == key,
{
}

/// An attempt to store a value ends well only where the database said so, and
/// else with the error that the database gave to this very key and value, which
/// names the key.
pub proof fn a_failed_store_names_its_key(
    key: Seq<char>,
    value: Seq<char>,
    end: Result<(), DatabaseError>,
)
    requires
        key_written(key, value, end),
    ensures
        end is Ok ==> exists|changed: usize| #[trigger]
            statement_answered(
                "INSERT OR REPLACE INTO meta(key, value) VALUES (?1, ?2)"@,
                key,
                value,
                Ok(changed),
            ),
        end matches Err(e) ==> statement_answered(
            "INSERT OR REPLACE INTO meta(key, value) VALUES (?1, ?2)"@,
            key,
            value,
            Err(e.error),
        ) && (e.context matches Some(context) && context@ == "write_meta("@ + key + ")"@),
{
}

/// A read gives the value that the database gave for the key; it gives none
/// exactly where the database found no row, and any other error as it is. Gives
/// the answer of the database.
pub proof fn a_read_gives_what_the_database_gave(
    key: Seq<char>,
    end: Result<Option<String>, DatabaseError>,
) -> (answer: Result<String, rusqlite::Error>)
    requires
        key_read(key, end),
    ensures
        text_answered("SELECT value FROM meta WHERE key = ?1"@, key, answer),
        answer matches Ok(value) ==> end == Ok::<Option<String>, DatabaseError>(Some(value)),
        answer matches Err(error) ==> match end {
            Ok(value) => is_no_rows(error) && value is None,
            Err(e) => !is_no_rows(error) && e.error == error && e.context is None,
        },
{
    choose|answer: Result<String, rusqlite::Error>| #[trigger]
        text_answered(META_LOAD@, key, answer) && end == value_of(answer)
}

/// What a snapshot says of itself comes field by field from its own values: the
/// commit and the version of the tool are the texts, empty where there are none;
/// the URL is the text where there is one; a time and a version are the number
/// that the text denotes, and where it denotes none in range, zero, or for the
/// time of fetching none; vectors are there exactly where the text is `true`;
/// the counts are zero where they could not be had; the size is that of the file.
pub proof fn a_snapshot_says_what_its_values_say(
    meta: SnapshotMeta,
    values: MetaValues,
    file_size_bytes: u64,
)
    requires
        says(meta, values, file_size_bytes),
    ensures
        values.source_commit matches Some(text) ==> meta.source_commit@ == text@,
        values.source_commit is None ==> meta.source_commit@.len() == 0,
        values.source_url matches Some(text) ==> (meta.source_url matches Some(url) && url@
            == text@),
        values.source_url is None ==> meta.source_url is None,
        values.tool_version matches Some(text) ==> meta.tool_version@ == text@,
        values.tool_version is None ==> meta.tool_version@.len() == 0,
        values.created_at matches Some(text) ==> match integer(text@) {
            Some(n) => if i64::MIN <= n <= i64::MAX {
                meta.created_at == n
            } else {
                meta.created_at == 0
            },
            None => meta.created_at == 0,
        },
        values.created_at is None ==> meta.created_at == 0,
        values.schema_version matches Some(text) ==> match integer(text@) {
            Some(n) => if i32::MIN <= n <= i32::MAX {
                meta.schema_version == n
            } else {
                meta.schema_version == 0
            },
            None => meta.schema_version == 0,
        },
        values.schema_version is None ==> meta.schema_version == 0,
        values.fetched_at matches Some(text) ==> match integer(text@) {
            Some(n) => if i64::MIN <= n <= i64::MAX {
                meta.fetched_at matches Some(m) && m == n
            } else {
                meta.fetched_at is None
            },
            None => meta.fetched_at is None,
        },
        values.fetched_at is None ==> meta.fetched_at is None,
        meta.includes_vec <==> (values.includes_vec matches Some(text) && text@ == "true"@),
        values.node_count matches Some(n) ==> meta.node_count == n,
        values.node_count is None ==> meta.node_count == 0,
        values.edge_count matches Some(n) ==> meta.edge_count == n,
        values.edge_count is None ==> meta.edge_count == 0,
        meta.file_size_bytes == file_size_bytes,
{
}

/// Each value of a snapshot is read from its own key, and each count comes from
/// its own query; a count that the database could not make is none.
pub proof fn each_value_is_read_from_its_own_key(values: MetaValues)
    requires
        values_read(values),
    ensures
        key_read("snapshot_source_commit"@, Ok(values.source_commit)),
        key_read("snapshot_source_url"@, Ok(values.source_url)),
        key_read("snapshot_created_at"@, Ok(values.created_at)),
        key_read("snapshot_tool_version"@, Ok(values.tool_version)),
        key_read("snapshot_schema_version"@, Ok(values.schema_version)),
        key_read("snapshot_includes_vec"@, Ok(values.includes_vec)),
        key_read("snapshot_fetched_at"@, Ok(values.fetched_at)),
        values.node_count matches Some(n) ==> number_answered(
            "SELECT COUNT(*) FROM nodes"@,
            Ok(n),
        ),
        values.node_count is None ==> exists|error: rusqlite::Error| #[trigger]
            number_answered("SELECT COUNT(*) FROM nodes"@, Err(error)),
        values.edge_count matches Some(n) ==> number_answered(
            "SELECT COUNT(*) FROM edges"@,
            Ok(n),
        ),
        values.edge_count is None ==> exists|error: rusqlite::Error| #[trigger]
            number_answered("SELECT COUNT(*) FROM edges"@, Err(error)),
{
    let nodes = choose|answer: Result<i64, rusqlite::Error>| #[trigger]
        number_answered(COUNT_NODES@, answer) && values.node_count == (match answer {
            Ok(n) => Some(n),
            Err(_) => None::<i64>,
        });
    if let Err(error) = nodes {
        assert(number_answered(COUNT_NODES@, Err(error)));
    }
    let edges = choose|answer: Result<i64, rusqlite::Error>| #[trigger]
        number_answered(COUNT_EDGES@, answer) && values.edge_count == (match answer {
            Ok(n) => Some(n),
            Err(_) => None::<i64>,
        });
    if let Err(error) = edges {
        assert(number_answered(COUNT_EDGES@, Err(error)));
    }
}

/// An inspection reads the seven keys that describe a snapshot, each once, and
/// then counts the nodes and the edges.
pub proof fn an_inspection_reads_seven_keys_and_two_counts()
    ensures
        inspection().len() == 9,
        inspection()[0] == load_statement("snapshot_source_commit"@),
        inspection()[1] == load_statement("snapshot_source_url"@),
        inspection()[2] == load_statement("snapshot_created_at"@),
        inspection()[3] == load_statement("snapshot_tool_version"@),
        inspection()[4] == load_statement("snapshot_schema_version"@),
        inspection()[5] == load_statement("snapshot_includes_vec"@),
        inspection()[6] == load_statement("snapshot_fetched_at"@),
        inspection()[7] == (Statement::Number { sql: "SELECT COUNT(*) FROM nodes"@ }),
        inspection()[8] == (Statement::Number { sql: "SELECT COUNT(*) FROM edges"@ }),
{
}

/// A read that stops gives the error of the key at which it stopped, after that
/// key and those before it were asked for, in order, and nothing else was. Gives
/// the place of the key.
pub proof fn a_read_stops_at_the_first_error(
    keys: Seq<Seq<char>>,
    before: Seq<Statement>,
    after: Seq<Statement>,
    error: DatabaseError,
) -> (n: int)
    requires
        read_stopped(keys, before, after, error),
    ensures
        0 <= n < keys.len(),
        key_read(keys[n], Err(error)),
        after.len() == before.len() + n + 1,
        after.take(before.len() as int) == before,
        forall|i: int|
            0 <= i <= n ==> (#[trigger] after[before.len() + i] matches Statement::Text {
                sql,
                parameter,
            } && sql == "SELECT value FROM meta WHERE key = ?1"@ && parameter == keys[i]),
{
    let n = choose|n: int|
        {
            &&& 0 <= n < keys.len()
            &&& key_read(#[trigger] keys[n], Err(error))
            &&& after == before + loads(keys.take(n + 1))
        };
    assert(after.take(before.len() as int) =~= before);
    assert forall|i: int| 0 <= i <= n implies #[trigger] after[before.len() + i]
        == load_statement(keys[i]) by {
        assert(loads(keys.take(n + 1))[i] == load_statement(keys.take(n + 1)[i]));
    }
    n
}

} // verus!
