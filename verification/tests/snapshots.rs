//! Making, inspecting and installing snapshots.
use code_graph::db::Session;
use code_graph::snapshot::config::{CodeGraphConfig, SnapshotConfig};
use code_graph::snapshot::create::{
    create, creation_steps, run_steps, snapshot_entries, source_commit, store_steps, vacuum_into,
    vacuum_statement, GitOutput, Provenance, Step,
};
use code_graph::snapshot::install::{
    after_decoding, record_install, resolve_snapshot_source, source_of, try_install, unpack,
    InstallAction, InstallEvent, InstallStage, SnapshotSource,
};
use code_graph::snapshot::meta::{
    inspect, meta_value, read_meta, snapshot_meta, write_meta, DatabaseError, MetaValues,
    META_SNAPSHOT_CREATED_AT, META_SNAPSHOT_FETCHED_AT, META_SNAPSHOT_INCLUDES_VEC,
    META_SNAPSHOT_SCHEMA_VERSION, META_SNAPSHOT_SOURCE_COMMIT, META_SNAPSHOT_SOURCE_URL,
    META_SNAPSHOT_TOOL_VERSION,
};
use rusqlite::Connection;
use std::io::{Read, Write};

fn open_with_meta_table() -> Connection {
    let conn = Connection::open_in_memory().unwrap();
    conn.execute_batch("CREATE TABLE meta (key TEXT PRIMARY KEY NOT NULL, value TEXT NOT NULL);")
        .unwrap();
    conn
}

fn ok<T>(result: Result<T, DatabaseError>) -> T {
    match result {
        Ok(value) => value,
        Err(e) => panic!("{:?}: {}", e.context, e.error),
    }
}

fn staging() -> Connection {
    let conn = open_with_meta_table();
    conn.execute_batch(
        "CREATE TABLE nodes (id INTEGER PRIMARY KEY, name TEXT);
         CREATE TABLE edges (source_id INTEGER, target_id INTEGER);
         CREATE TABLE node_vectors (id INTEGER PRIMARY KEY, vec BLOB);
         INSERT INTO nodes(name) VALUES ('hello'), ('world');
         INSERT INTO edges VALUES (2, 1);",
    )
    .unwrap();
    conn
}

fn provenance(include_vec: bool) -> Provenance {
    Provenance {
        source_commit: "abc123".to_string(),
        created_at: 1_700_000_000,
        tool_version: "0.22.2".to_string(),
        schema_version: 7,
        include_vec,
    }
}

fn values() -> MetaValues {
    MetaValues {
        source_commit: None,
        source_url: None,
        created_at: None,
        tool_version: None,
        schema_version: None,
        includes_vec: None,
        fetched_at: None,
        node_count: None,
        edge_count: None,
    }
}

fn text(s: &str) -> Option<String> {
    Some(s.to_string())
}

fn config(url: Option<&str>, disabled: bool) -> CodeGraphConfig {
    CodeGraphConfig {
        snapshot: SnapshotConfig { url: url.map(|s| s.to_string()), disabled },
    }
}

/// A snapshot of the staging database, as bytes.
fn snapshot_bytes(include_vec: bool) -> Vec<u8> {
    let conn = staging();
    ok(create(&mut Session::new(&conn), &provenance(include_vec)));
    let mut file = tempfile::NamedTempFile::new().unwrap();
    let path = file.path().to_str().unwrap().to_string();
    ok(vacuum_into(&mut Session::new(&conn), &path));
    let mut bytes = Vec::new();
    file.read_to_end(&mut bytes).unwrap();
    bytes
}

/// A database file that holds these bytes.
fn database_file(bytes: &[u8]) -> tempfile::NamedTempFile {
    let mut file = tempfile::NamedTempFile::new().unwrap();
    file.write_all(bytes).unwrap();
    file.flush().unwrap();
    file
}

#[test]
fn write_meta_then_read_returns_same_value() {
    let conn = open_with_meta_table();
    ok(write_meta(&conn, META_SNAPSHOT_TOOL_VERSION, "0.22.2"));
    let got = ok(read_meta(&conn, META_SNAPSHOT_TOOL_VERSION));
    assert_eq!(got, Some("0.22.2".to_string()));
}

#[test]
fn read_meta_returns_none_for_missing_key() {
    let conn = open_with_meta_table();
    let got = ok(read_meta(&conn, "definitely_not_present"));
    assert_eq!(got, None);
}

#[test]
fn write_meta_overwrites_existing_value() {
    let conn = open_with_meta_table();
    ok(write_meta(&conn, META_SNAPSHOT_TOOL_VERSION, "0.22.0"));
    ok(write_meta(&conn, META_SNAPSHOT_TOOL_VERSION, "0.22.2"));
    let got = ok(read_meta(&conn, META_SNAPSHOT_TOOL_VERSION));
    assert_eq!(got, Some("0.22.2".to_string()));
}

#[test]
fn errors_of_the_meta_table_say_what_was_done() {
    let conn = Connection::open_in_memory().unwrap();
    match write_meta(&conn, "k", "v") {
        Err(e) => assert_eq!(e.context, text("write_meta(k)")),
        Ok(_) => panic!("there is no meta table"),
    }
    match read_meta(&conn, "k") {
        Err(e) => assert_eq!(e.context, None),
        Ok(_) => panic!("there is no meta table"),
    }
    assert!(inspect(&mut Session::new(&conn), 1).is_err());
    assert!(create(&mut Session::new(&conn), &provenance(false)).is_err());
    assert!(record_install(&mut Session::new(&conn), "https://x", 1).is_err());
}

#[test]
fn an_answer_without_rows_is_no_value() {
    assert!(matches!(meta_value(Err(rusqlite::Error::QueryReturnedNoRows)), Ok(None)));
    assert!(meta_value(Err(rusqlite::Error::InvalidQuery)).is_err());
    assert!(matches!(meta_value(Ok("x".to_string())), Ok(Some(v)) if v == "x"));
}

#[test]
fn create_writes_meta_and_drops_vec_table() {
    let file = database_file(&snapshot_bytes(false));
    let conn = Connection::open(file.path()).unwrap();

    let has_vec: i64 = conn
        .query_row(
            "SELECT COUNT(*) FROM sqlite_master WHERE type='table' AND name='node_vectors'",
            (),
            |r| r.get(0),
        )
        .unwrap();
    assert_eq!(has_vec, 0, "node_vectors should be dropped");

    for key in [
        META_SNAPSHOT_SOURCE_COMMIT,
        META_SNAPSHOT_CREATED_AT,
        META_SNAPSHOT_SCHEMA_VERSION,
        META_SNAPSHOT_INCLUDES_VEC,
    ] {
        let v = ok(read_meta(&conn, key));
        assert!(v.is_some() && !v.as_ref().unwrap().is_empty(), "meta {key} missing");
    }
    let inc = ok(read_meta(&conn, META_SNAPSHOT_INCLUDES_VEC)).unwrap();
    assert_eq!(inc, "false");
}

#[test]
fn vectors_stay_where_they_are_wanted() {
    let conn = staging();
    ok(create(&mut Session::new(&conn), &provenance(true)));
    let has_vec: i64 = conn
        .query_row("SELECT COUNT(*) FROM sqlite_master WHERE name='node_vectors'", (), |r| r.get(0))
        .unwrap();
    assert_eq!(has_vec, 1);
    assert_eq!(ok(read_meta(&conn, META_SNAPSHOT_INCLUDES_VEC)), text("true"));
}

#[test]
fn inspect_round_trip() {
    let compressed = zstd::encode_all(&snapshot_bytes(false)[..], 9).unwrap();
    let raw = match unpack(&compressed) {
        Ok(raw) => raw,
        Err(e) => panic!("{e}"),
    };
    let file = database_file(&raw);
    let conn = Connection::open(file.path()).unwrap();

    let meta = ok(inspect(&mut Session::new(&conn), compressed.len() as u64));
    assert_eq!(meta.tool_version, "0.22.2");
    assert_eq!(meta.includes_vec, false);
    assert!(meta.created_at > 0);
    assert!(meta.schema_version > 0);
    assert!(meta.file_size_bytes > 0);

    assert_eq!(meta.source_commit, "abc123");
    assert_eq!(meta.created_at, 1_700_000_000);
    assert_eq!(meta.schema_version, 7);
    assert_eq!((meta.node_count, meta.edge_count), (2, 1));
    assert_eq!(meta.source_url, None);
    assert_eq!(meta.fetched_at, None);
}

#[test]
fn config_load_missing_file_returns_default() {
    let cfg = CodeGraphConfig::default();
    assert_eq!(cfg.snapshot.url, None);
    assert_eq!(cfg.snapshot.disabled, false);
}

#[test]
fn resolve_returns_none_when_no_git_no_toml() {
    assert_eq!(resolve_snapshot_source(&CodeGraphConfig::default()), None);
}

#[test]
fn resolve_returns_url_from_toml_override() {
    assert_eq!(
        resolve_snapshot_source(&config(Some("https://example.com/x.db.zst"), false)),
        Some("https://example.com/x.db.zst".to_string()),
    );
}

#[test]
fn resolve_returns_none_when_disabled() {
    assert_eq!(resolve_snapshot_source(&config(None, true)), None);
    assert_eq!(
        resolve_snapshot_source(&config(Some("https://example.com/x.db.zst"), true)),
        None
    );
}

#[test]
fn resolve_rejects_http_url_from_toml() {
    assert_eq!(resolve_snapshot_source(&config(Some("http://example.com/x.db.zst"), false)), None);
}

#[test]
fn install_rejects_http_url() {
    let requested = InstallEvent::Requested("http://example.com/x.db.zst".to_string());
    match try_install(InstallStage::Idle, requested) {
        (InstallStage::Done, InstallAction::Fail { message: err, cause: None }) => {
            assert!(err.to_lowercase().contains("https"), "got: {err}");
            assert_eq!(
                err,
                "snapshot URL must use https:// or file://, got 'http://example.com/x.db.zst'"
            );
        },
        _ => panic!("a URL over http must be refused"),
    }
}

#[test]
fn install_rejects_corrupt_archive() {
    let fetching = InstallStage::Fetching("file:///tmp/bad.db.zst".to_string());
    match try_install(fetching, InstallEvent::Fetched(b"not zstd data".to_vec())) {
        (InstallStage::Done, InstallAction::Fail { message: err, cause: Some(_) }) => {
            assert!(
                err.to_lowercase().contains("zstd") || err.to_lowercase().contains("decode"),
                "got: {err}"
            );
            assert_eq!(err, "zstd decode");
        },
        _ => panic!("bytes that are no archive must be refused"),
    }
}

#[test]
fn install_round_trip_file_url() {
    let url = "file:///tmp/snapshot.db.zst".to_string();
    let (stage, action) = try_install(InstallStage::Idle, InstallEvent::Requested(url.clone()));
    match action {
        InstallAction::Fetch(SnapshotSource::File(path)) => {
            assert_eq!(path, "/tmp/snapshot.db.zst");
        },
        _ => panic!("a file must be fetched"),
    }

    let archive = zstd::encode_all(&snapshot_bytes(false)[..], 9).unwrap();
    let (stage, action) = try_install(stage, InstallEvent::Fetched(archive));
    let (database, from) = match action {
        InstallAction::Stage { database, url } => (database, url),
        _ => panic!("a database must be staged"),
    };
    assert_eq!(from, url);

    let file = database_file(&database);
    let conn = Connection::open(file.path()).unwrap();
    let commit = ok(record_install(&mut Session::new(&conn), &from, 1_700_000_100));
    assert!(!commit.is_empty(), "expected non-empty source commit");

    match try_install(stage, InstallEvent::Staged(commit)) {
        (InstallStage::Done, InstallAction::Publish { source_commit }) => {
            assert_eq!(source_commit, "abc123");
        },
        _ => panic!("a staged database must be published"),
    }

    let url_meta = ok(read_meta(&conn, META_SNAPSHOT_SOURCE_URL));
    assert_eq!(url_meta.as_deref(), Some(url.as_str()));
    let fetched = ok(read_meta(&conn, META_SNAPSHOT_FETCHED_AT));
    assert!(fetched.is_some(), "fetched_at should be written");

    let meta = ok(inspect(&mut Session::new(&conn), 1));
    assert_eq!(meta.source_url.as_deref(), Some(url.as_str()));
    assert_eq!(meta.fetched_at, Some(1_700_000_100));
    assert_eq!(meta.created_at, 1_700_000_000);
    assert_eq!((meta.node_count, meta.edge_count), (2, 1));
}

#[test]
fn an_unexpected_event_changes_nothing() {
    let (stage, action) =
        try_install(InstallStage::Idle, InstallEvent::Staged("abc".to_string()));
    assert!(matches!(stage, InstallStage::Idle));
    assert!(matches!(action, InstallAction::Ignore));
    let (stage, action) =
        try_install(InstallStage::Done, InstallEvent::Requested("https://x".to_string()));
    assert!(matches!(stage, InstallStage::Done));
    assert!(matches!(action, InstallAction::Ignore));
}

#[test]
fn a_failed_decoding_stages_nothing() {
    let error = std::io::Error::other("broken");
    let (stage, action) = after_decoding("https://x".to_string(), Err(error));
    assert!(matches!(stage, InstallStage::Done));
    match action {
        InstallAction::Fail { message, cause: Some(e) } => {
            assert_eq!(message, "zstd decode");
            assert_eq!(e.to_string(), "broken");
        },
        _ => panic!("a failed decoding must fail"),
    }
    let (stage, action) = after_decoding("https://x".to_string(), Ok(vec![1, 2]));
    assert!(matches!(stage, InstallStage::Staging));
    assert!(matches!(
        action,
        InstallAction::Stage { database, url } if database == vec![1, 2] && url == "https://x"
    ));
}

#[test]
fn sources_are_told_apart_by_their_scheme() {
    assert!(matches!(
        source_of("https://example.com/x"),
        Some(SnapshotSource::Https(u)) if u == "https://example.com/x"
    ));
    assert!(matches!(source_of("file:///a b"), Some(SnapshotSource::File(p)) if p == "/a b"));
    assert!(source_of("http://example.com/x").is_none());
    assert!(source_of("ftp://example.com/x").is_none());
    assert!(source_of("HTTPS://example.com/x").is_none());
    assert!(source_of("").is_none());
}

#[test]
fn values_that_cannot_be_read_have_defaults() {
    let meta = snapshot_meta(values(), 5);
    assert_eq!(meta.source_commit, "");
    assert_eq!(meta.source_url, None);
    assert_eq!(meta.created_at, 0);
    assert_eq!(meta.tool_version, "");
    assert_eq!(meta.schema_version, 0);
    assert_eq!(meta.includes_vec, false);
    assert_eq!(meta.fetched_at, None);
    assert_eq!((meta.node_count, meta.edge_count, meta.file_size_bytes), (0, 0, 5));

    let odd = MetaValues {
        created_at: text("soon"),
        schema_version: text("2147483648"),
        includes_vec: text("TRUE"),
        fetched_at: text("-5"),
        node_count: Some(3),
        ..values()
    };
    let meta = snapshot_meta(odd, 0);
    assert_eq!(meta.created_at, 0);
    assert_eq!(meta.schema_version, 0);
    assert_eq!(meta.includes_vec, false);
    assert_eq!(meta.fetched_at, Some(-5));
    assert_eq!(meta.node_count, 3);
}

#[test]
fn a_graph_that_cannot_be_counted_is_empty() {
    let conn = open_with_meta_table();
    let meta = ok(inspect(&mut Session::new(&conn), 9));
    assert_eq!((meta.node_count, meta.edge_count, meta.file_size_bytes), (0, 0, 9));
}

#[test]
fn the_entries_of_a_snapshot_are_exact() {
    let entries = snapshot_entries(&provenance(true));
    let expected = vec![
        ("snapshot_source_commit", "abc123"),
        ("snapshot_created_at", "1700000000"),
        ("snapshot_tool_version", "0.22.2"),
        ("snapshot_schema_version", "7"),
        ("snapshot_includes_vec", "true"),
    ];
    let got: Vec<(&str, &str)> = entries.iter().map(|(k, v)| (k.as_str(), v.as_str())).collect();
    assert_eq!(got, expected);
}

#[test]
fn the_commit_is_what_git_printed() {
    let told = GitOutput { success: true, stdout: "  abc123\n".to_string() };
    assert_eq!(source_commit(Some(told)), "abc123");
    let failed = GitOutput { success: false, stdout: "abc123\n".to_string() };
    assert_eq!(source_commit(Some(failed)), "");
    assert_eq!(source_commit(None), "");
}

#[test]
fn quotes_in_a_path_are_doubled() {
    assert_eq!(vacuum_statement("/tmp/a'b''c"), "VACUUM INTO '/tmp/a''b''''c';");
    assert_eq!(vacuum_statement("/tmp/x.db"), "VACUUM INTO '/tmp/x.db';");
}

#[test]
fn a_copy_that_fails_names_its_path() {
    let conn = staging();
    match vacuum_into(&mut Session::new(&conn), "/no/such/directory/x.db") {
        Err(e) => assert_eq!(e.context, text("VACUUM INTO '/no/such/directory/x.db'")),
        Ok(_) => panic!("the directory does not exist"),
    }
}

fn shown(step: &Step) -> String {
    match step {
        Step::Batch(sql) => sql.clone(),
        Step::Store { key, value } => format!("{key}={value}"),
    }
}

#[test]
fn the_steps_of_a_creation_are_exact() {
    let steps: Vec<String> = creation_steps(&provenance(false)).iter().map(shown).collect();
    assert_eq!(
        steps,
        vec![
            "DROP TABLE IF EXISTS node_vectors;",
            "snapshot_source_commit=abc123",
            "snapshot_created_at=1700000000",
            "snapshot_tool_version=0.22.2",
            "snapshot_schema_version=7",
            "snapshot_includes_vec=false",
            "PRAGMA journal_mode = DELETE;",
        ]
    );
    let kept: Vec<String> = creation_steps(&provenance(true)).iter().map(shown).collect();
    assert_eq!(kept.len(), 6);
    assert_eq!(kept[0], "snapshot_source_commit=abc123");
    assert_eq!(kept[4], "snapshot_includes_vec=true");
}

#[test]
fn steps_stop_at_the_first_that_fails() {
    let conn = open_with_meta_table();
    let steps = vec![
        Step::Store { key: "a".to_string(), value: "1".to_string() },
        Step::Batch("no statement".to_string()),
        Step::Store { key: "b".to_string(), value: "2".to_string() },
    ];
    match run_steps(&mut Session::new(&conn), &steps) {
        Err(e) => assert_eq!(e.context, None),
        Ok(_) => panic!("a batch that is no statement must fail"),
    }
    assert_eq!(ok(read_meta(&conn, "a")), text("1"));
    assert_eq!(ok(read_meta(&conn, "b")), None);
}

#[test]
fn a_stored_key_leaves_the_others_alone() {
    let conn = open_with_meta_table();
    let list = vec![
        ("a".to_string(), "".to_string()),
        ("b".to_string(), "2".to_string()),
        ("b".to_string(), "3".to_string()),
    ];
    ok(run_steps(&mut Session::new(&conn), &store_steps(&list)));
    assert_eq!(ok(read_meta(&conn, "a")), text(""));
    assert_eq!(ok(read_meta(&conn, "b")), text("3"));
    let rows: i64 = conn.query_row("SELECT COUNT(*) FROM meta", (), |r| r.get(0)).unwrap();
    assert_eq!(rows, 2);
}

#[test]
fn a_value_of_another_type_is_an_error() {
    let conn = Connection::open_in_memory().unwrap();
    conn.execute_batch("CREATE TABLE meta (key TEXT PRIMARY KEY, value); INSERT INTO meta VALUES ('k', 5);")
        .unwrap();
    assert!(read_meta(&conn, "k").is_err());
}
