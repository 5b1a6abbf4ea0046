//! Installing a snapshot: where it comes from, and the steps from its archive
//! to an index in place.
use crate::decimal::{decimal, i64_text, integer, numeral_reads_back};
use crate::snapshot::config::CodeGraphConfig;
use crate::db::{Session, Statement};
use crate::snapshot::create::{
    a_run_stops_at_the_first_error, entries_of, inspection_reads_back_creation, pairs, ran_in_order, run_steps,
    snapshot_keys_differ, store_steps, stored, stores, taken_from, tells_provenance, Provenance,
};
use crate::snapshot::meta::{
    key_gave, key_read, load_key, load_statement, opt_or_empty, says, text_or_empty, DatabaseError,
    MetaValues, SnapshotMeta, META_SNAPSHOT_FETCHED_AT, META_SNAPSHOT_SOURCE_COMMIT,
    META_SNAPSHOT_SOURCE_URL,
};
use crate::text::{
    a_part_stands_in_its_text, a_text_is_its_beginning_and_the_rest, after_prefix, opt_text,
    starts_with,
};
use vstd::prelude::*;

verus! {

/// Where a snapshot comes from.
pub enum SnapshotSource {
    /// A file of this machine, by its path.
    File(String),
    /// A server, by the whole URL.
    Https(String),
}

/// Whether a URL names a source that is accepted: a file, or a server over
/// `https`.
pub open spec fn accepted(url: Seq<char>) -> bool {
    starts_with(url, "https://"@) || starts_with(url, "file://"@)
}

/// Whether `source` is what a URL names.
pub open spec fn names(source: SnapshotSource, url: Seq<char>) -> bool {
    match source {
        SnapshotSource::Https(u) => starts_with(url, "https://"@) && u@ == url,
        SnapshotSource::File(path) => starts_with(url, "file://"@) && url == "file://"@ + path@,
    }
}

/// The source that a URL names; `None` where it is not accepted.
pub fn source_of(url: &str) -> (r: Option<SnapshotSource>)
    ensures
        match r {
            Some(source) => accepted(url@) && names(source, url@),
            None => !accepted(url@),
        },
{
    if after_prefix(url, "https://").is_some() {
        return Some(SnapshotSource::Https(url.to_owned()));
    }
    match after_prefix(url, "file://") {
        Some(path) => {
            let ghost prefix = "file://"@;
            assert(url@ =~= prefix + path@) by {
                assert(url@.subrange(0, prefix.len() as int) =~= url@.take(prefix.len() as int));
            }
            Some(SnapshotSource::File(path))
        },
        None => None,
    }
}

/// The URL of the snapshot that a configuration names: none where snapshots are
/// disabled, where it names none, or where it names one that is not accepted.
pub open spec fn configured_source(config: CodeGraphConfig) -> Option<Seq<char>> {
    if config.snapshot.disabled {
        None
    } else {
        match config.snapshot.url {
            Some(url) => if accepted(url@) {
                Some(url@)
            } else {
                None
            },
            None => None,
        }
    }
}

/// The URL of the snapshot that a configuration names.
pub fn resolve_snapshot_source(config: &CodeGraphConfig) -> (r: Option<String>)
    ensures
        opt_text(r) == configured_source(*config),
{
    if config.snapshot.disabled {
        return None;
    }
    match &config.snapshot.url {
        Some(url) => if source_of(url.as_str()).is_some() {
            Some(url.clone())
        } else {
            None
        },
        None => None,
    }
}

/// An error of reading or writing.
#[verifier::external_type_specification]
#[verifier::external_body]
pub struct ExIoError(std::io::Error);

/// Whether zstd answered an archive by these contents or this error.
pub uninterp spec fn zstd_answered(
    archive: Seq<u8>,
    answer: Result<Seq<u8>, std::io::Error>,
) -> bool;

/// What a decoding gave, the contents as values.
pub open spec fn answer_of(decoding: Result<Vec<u8>, std::io::Error>) -> Result<
    Seq<u8>,
    std::io::Error,
> {
    match decoding {
        Ok(contents) => Ok(contents@),
        Err(error) => Err(error),
    }
}

/// Whether these are the only contents that zstd answers an archive by.
pub open spec fn only_contents(archive: Seq<u8>, contents: Seq<u8>) -> bool {
    forall|other: Seq<u8>| #[trigger] zstd_answered(archive, Ok(other)) ==> other == contents
}

/// `zstd::decode_all`: what an archive holds, or the error of the decoder. The
/// contents are the same whenever the archive is decoded. An error comes for
/// bytes that are no archive, but may also come for lack of memory, so nothing
/// is said of when it comes.
#[verifier::external_body]
fn zstd_decode(archive: &Vec<u8>) -> (r: Result<Vec<u8>, std::io::Error>)
    ensures
        zstd_answered(archive@, answer_of(r)),
        r matches Ok(contents) ==> only_contents(archive@, contents@),
{
    zstd::decode_all(archive.as_slice())
}

/// What a failure to decode an archive is called.
pub const DECODE_FAILED: &'static str = "zstd decode";

/// Unpacks the archive of a snapshot: gives what the decoder gives, its error
/// where it gives one, and no other contents than any other unpacking of the
/// same archive.
pub fn unpack(archive: &Vec<u8>) -> (r: Result<Vec<u8>, std::io::Error>)
    ensures
        zstd_answered(archive@, answer_of(r)),
        r matches Ok(contents) ==> only_contents(archive@, contents@),
{
    zstd_decode(archive)
}

/// What an installation waits for.
pub enum InstallStage {
    /// The URL to install from.
    Idle,
    /// The archive at a URL.
    Fetching(String),
    /// That the database is staged and says where it came from.
    Staging,
    /// Nothing more.
    Done,
}

/// What an installation asks its caller to do next.
pub enum InstallAction {
    /// Fetch the archive from a source.
    Fetch(SnapshotSource),
    /// Stage a database that came from a URL beside the index, and record in it
    /// where it came from.
    Stage { database: Vec<u8>, url: String },
    /// Put the staged database in place of the index. The installation
    /// succeeded; the snapshot was made from this commit.
    Publish { source_commit: String },
    /// Remove what was staged, if anything was. The installation failed with
    /// this message, and by this error where there was one.
    Fail { message: String, cause: Option<std::io::Error> },
    /// Nothing: the event was not waited for.
    Ignore,
}

/// What the caller of an installation reports.
pub enum InstallEvent {
    Requested(String),
    Fetched(Vec<u8>),
    /// The database is staged, with the commit that it says it was made from.
    Staged(String),
}

/// Whether an installation at a stage waits for an event.
pub open spec fn awaits(stage: InstallStage, event: InstallEvent) -> bool {
    match stage {
        InstallStage::Idle => event is Requested,
        InstallStage::Fetching(_) => event is Fetched,
        InstallStage::Staging => event is Staged,
        InstallStage::Done => false,
    }
}

/// The message for a URL that is not accepted.
pub open spec fn not_accepted(url: Seq<char>) -> Seq<char> {
    "snapshot URL must use https:// or file://, got '"@ + url + "'"@
}

fn not_accepted_text(url: &str) -> (r: String)
    ensures
        r@ == not_accepted(url@),
{
    let mut text = "snapshot URL must use https:// or file://, got '".to_owned();
    text.append(url);
    text.append("'");
    text
}

/// Whether an installation ends with a message, by an error or by none.
pub open spec fn fails(
    stage: InstallStage,
    action: InstallAction,
    message: Seq<char>,
    cause: Option<std::io::Error>,
) -> bool {
    stage is Done && (action matches InstallAction::Fail { message: text, cause: by } && text@
        == message && by == cause)
}

/// The step on the contents of an archive that came from a URL, or on the
/// error where it could not be decoded.
pub open spec fn decoded(
    url: String,
    answer: Result<Seq<u8>, std::io::Error>,
    stage: InstallStage,
    action: InstallAction,
) -> bool {
    match answer {
        Ok(bytes) => {
            &&& stage is Staging
            &&& action matches InstallAction::Stage { database, url: from } && database@ == bytes
                && from == url
        },
        Err(error) => fails(stage, action, DECODE_FAILED@, Some(error)),
    }
}

/// The step on an archive that was decoded, or could not be.
pub fn after_decoding(url: String, contents: Result<Vec<u8>, std::io::Error>) -> (r: (
    InstallStage,
    InstallAction,
))
    ensures
        decoded(url, answer_of(contents), r.0, r.1),
{
    match contents {
        Ok(database) => (InstallStage::Staging, InstallAction::Stage { database, url }),
        Err(error) => {
            let message = DECODE_FAILED.to_owned();
            (InstallStage::Done, InstallAction::Fail { message, cause: Some(error) })
        },
    }
}

/// Whether a step leads from a stage by an event to another stage and an
/// action. A URL that is not accepted fails before anything is fetched, and an
/// archive that cannot be decoded before anything is staged.
pub open spec fn stepped(
    before: InstallStage,
    event: InstallEvent,
    after: InstallStage,
    action: InstallAction,
) -> bool {
    match (before, event) {
        (InstallStage::Idle, InstallEvent::Requested(url)) => if accepted(url@) {
            &&& after == InstallStage::Fetching(url)
            &&& action matches InstallAction::Fetch(source) && names(source, url@)
        } else {
            fails(after, action, not_accepted(url@), None)
        },
        (InstallStage::Fetching(url), InstallEvent::Fetched(archive)) => exists|
            answer: Result<Seq<u8>, std::io::Error>,
        | #[trigger]
            zstd_answered(archive@, answer) && decoded(url, answer, after, action),
        (InstallStage::Staging, InstallEvent::Staged(commit)) => {
            &&& after is Done
            &&& action == (InstallAction::Publish { source_commit: commit })
        },
        _ => false,
    }
}

/// Whether an event leads from `before` to `after` and `action`: a step where it
/// is waited for, and nothing where it is not.
pub open spec fn goes_on(
    before: InstallStage,
    event: InstallEvent,
    after: InstallStage,
    action: InstallAction,
) -> bool {
    if awaits(before, event) {
        stepped(before, event, after, action)
    } else {
        after == before && action is Ignore
    }
}

/// The next step of an installation on what its caller reports: first the URL,
/// then the archive, then that the database is staged. An event that the
/// installation does not wait for changes nothing.
pub fn try_install(stage: InstallStage, event: InstallEvent) -> (r: (InstallStage, InstallAction))
    ensures
        goes_on(stage, event, r.0, r.1),
{
    match (stage, event) {
        (InstallStage::Idle, InstallEvent::Requested(url)) => match source_of(url.as_str()) {
            Some(source) => (InstallStage::Fetching(url), InstallAction::Fetch(source)),
            None => {
                let message = not_accepted_text(url.as_str());
                (InstallStage::Done, InstallAction::Fail { message, cause: None })
            },
        },
        (InstallStage::Fetching(url), InstallEvent::Fetched(archive)) => {
            let contents = unpack(&archive);
            after_decoding(url, contents)
        },
        (InstallStage::Staging, InstallEvent::Staged(source_commit)) => (
            InstallStage::Done,
            InstallAction::Publish { source_commit },
        ),
        (stage, _) => (stage, InstallAction::Ignore),
    }
}

/// The keys and values that an installed snapshot is given.
pub open spec fn install_entries(url: Seq<char>, fetched_at: i64) -> Seq<(Seq<char>, Seq<char>)> {
    seq![
        (META_SNAPSHOT_SOURCE_URL@, url),
        (META_SNAPSHOT_FETCHED_AT@, decimal(fetched_at as int)),
    ]
}

/// Whether recording an installation ended like this: where it came from and
/// when it was fetched stored, and then the commit read, empty where there is
/// none; or else the first error. Nothing else is handed to the database.
pub open spec fn recorded(
    url: Seq<char>,
    fetched_at: i64,
    before: Seq<Statement>,
    after: Seq<Statement>,
    end: Result<String, DatabaseError>,
) -> bool {
    let plan = stores(install_entries(url, fetched_at));
    let read = before + plan + seq![load_statement(META_SNAPSHOT_SOURCE_COMMIT@)];
    let done = ran_in_order(plan, before, before + plan, Ok(()));
    match end {
        Ok(commit) => done && after == read && exists|value: Option<String>| #[trigger]
            key_gave(META_SNAPSHOT_SOURCE_COMMIT@, value) && commit@ == text_or_empty(
                opt_text(value),
            ),
        Err(e) => {
            ||| ran_in_order(plan, before, after, Err(e))
            ||| done && after == read && key_read(META_SNAPSHOT_SOURCE_COMMIT@, Err(e))
        },
    }
}

/// Records in a staged database where it came from and when it was fetched, and
/// gives the commit that it was made from.
pub fn record_install(s: &mut Session<'_>, url: &str, fetched_at: i64) -> (r: Result<
    String,
    DatabaseError,
>)
    ensures
        recorded(url@, fetched_at, old(s).ran(), final(s).ran(), r),
{
    let list = vec![
        (META_SNAPSHOT_SOURCE_URL.to_owned(), url.to_owned()),
        (META_SNAPSHOT_FETCHED_AT.to_owned(), i64_text(fetched_at)),
    ];
    assert(pairs(list@) =~= install_entries(url@, fetched_at));
    let steps = store_steps(&list);
    match run_steps(s, &steps) {
        Ok(_) => {},
        Err(e) => {
            return Err(e);
        },
    }
    let ghost middle = s.ran();
    let end = load_key(s, META_SNAPSHOT_SOURCE_COMMIT);
    assert(s.ran() =~= middle + seq![load_statement(META_SNAPSHOT_SOURCE_COMMIT@)]);
    match end {
        Ok(value) => {
            let ghost given = value;
            assert(key_gave(META_SNAPSHOT_SOURCE_COMMIT@, given));
            Ok(opt_or_empty(value))
        },
        Err(e) => Err(e),
    }
}

/// Inspecting an installed snapshot gives back where it came from, when it was
/// fetched, and what was stored when it was made.
pub proof fn inspection_reads_back_installation(
    p: Provenance,
    url: Seq<char>,
    fetched_at: i64,
    table: Map<Seq<char>, Seq<char>>,
    values: MetaValues,
    meta: SnapshotMeta,
    file_size_bytes: u64,
)
    requires
        taken_from(
            values,
            stored(stored(table, entries_of(p)), install_entries(url, fetched_at)),
        ),
        says(meta, values, file_size_bytes),
    ensures
        opt_text(meta.source_url) == Some(url),
        meta.fetched_at == Some(fetched_at),
        tells_provenance(meta, p),
{
    snapshot_keys_differ();
    numeral_reads_back(fetched_at as int);
    let made = stored(table, entries_of(p));
    let e = install_entries(url, fetched_at);
    assert(e.drop_last() =~= e.take(1));
    assert(e.take(1).drop_last() =~= e.take(0));
    reveal_with_fuel(stored, 3);
    let now = stored(made, e);
    assert(now == made.insert(META_SNAPSHOT_SOURCE_URL@, url).insert(
        META_SNAPSHOT_FETCHED_AT@,
        decimal(fetched_at as int),
    ));
    let before = MetaValues { source_url: None, fetched_at: None, ..values };
    let made_meta = SnapshotMeta { source_url: None, fetched_at: None, ..meta };
    let bare = made.remove(META_SNAPSHOT_SOURCE_URL@).remove(META_SNAPSHOT_FETCHED_AT@);
    let clean = table.remove(META_SNAPSHOT_SOURCE_URL@).remove(META_SNAPSHOT_FETCHED_AT@);
    let c = entries_of(p);
    assert(c.drop_last() =~= c.take(4));
    assert(c.take(4).drop_last() =~= c.take(3));
    assert(c.take(3).drop_last() =~= c.take(2));
    assert(c.take(2).drop_last() =~= c.take(1));
    assert(c.take(1).drop_last() =~= c.take(0));
    assert(stored(clean, c) =~= bare) by {
        reveal_with_fuel(stored, 6);
    }
    inspection_reads_back_creation(p, clean, before, made_meta, file_size_bytes);
}

/// A source that a configuration names can be installed from: its URL is never
/// refused.
pub proof fn a_configured_source_is_accepted(
    config: CodeGraphConfig,
    url: String,
    after: InstallStage,
    action: InstallAction,
)
    requires
        configured_source(config) == Some(url@),
        stepped(InstallStage::Idle, InstallEvent::Requested(url), after, action),
    ensures
        after == InstallStage::Fetching(url),
        action is Fetch,
{
}

/// A URL over `http` is refused, and no configuration names one.
pub proof fn http_is_refused(
    url: String,
    after: InstallStage,
    action: InstallAction,
    config: CodeGraphConfig,
)
    requires
        starts_with(url@, "http://"@),
        stepped(InstallStage::Idle, InstallEvent::Requested(url), after, action),
    ensures
        fails(after, action, not_accepted(url@), None),
        configured_source(config) != Some(url@),
{
    reveal_strlit("http://");
    reveal_strlit("https://");
    reveal_strlit("file://");
    let start = url@.subrange(0, 7);
    assert(start[0] == url@[0] && start[4] == url@[4]);
    if starts_with(url@, "https://"@) {
        assert(url@.subrange(0, 8)[4] == url@[4]);
    }
    if starts_with(url@, "file://"@) {
        assert(url@.subrange(0, 7)[0] == url@[0]);
    }
}

/// An installation ends after at most three steps, and only its last step
/// publishes or fails; it publishes only a database that was staged.
pub proof fn every_step_advances(
    before: InstallStage,
    event: InstallEvent,
    after: InstallStage,
    action: InstallAction,
)
    requires
        stepped(before, event, after, action),
    ensures
        match before {
            InstallStage::Idle => after is Fetching || after is Done,
            InstallStage::Fetching(_) => after is Staging || after is Done,
            InstallStage::Staging => after is Done,
            InstallStage::Done => false,
        },
        after is Done <==> action is Publish || action is Fail,
        action is Publish ==> before is Staging,
{
}

/// A URL is accepted exactly where it is `https://` or `file://` with anything
/// behind it. A server is named by the whole URL, a file by what stands behind
/// `file://`, and each URL that is accepted names one of the two.
pub proof fn a_url_is_accepted_by_its_beginning(url: Seq<char>, rest: Seq<char>)
    ensures
        accepted("https://"@ + rest),
        accepted("file://"@ + rest),
        accepted(url) ==> url == "https://"@ + url.skip(8) || url == "file://"@ + url.skip(7),
        forall|source: SnapshotSource|
            #![trigger names(source, url)]
            names(source, url) ==> match source {
                SnapshotSource::Https(u) => u@ == url && url == "https://"@ + url.skip(8),
                SnapshotSource::File(path) => url == "file://"@ + path@,
            },
{
    reveal_strlit("https://");
    reveal_strlit("file://");
    a_part_stands_in_its_text(Seq::empty(), "https://"@, rest);
    a_part_stands_in_its_text(Seq::empty(), "file://"@, rest);
    assert("https://"@.len() == 8 && "file://"@.len() == 7);
    if starts_with(url, "https://"@) {
        a_text_is_its_beginning_and_the_rest(url, "https://"@);
    }
    if starts_with(url, "file://"@) {
        a_text_is_its_beginning_and_the_rest(url, "file://"@);
    }
}

/// A configuration names a source exactly where snapshots are not disabled and
/// it has a URL that is accepted; the source is that URL as it is.
pub proof fn a_configuration_names_its_url(config: CodeGraphConfig)
    ensures
        configured_source(config) matches Some(source) ==> !config.snapshot.disabled && (
        config.snapshot.url matches Some(url) && url@ == source && accepted(url@)),
        !config.snapshot.disabled && (config.snapshot.url matches Some(url) && accepted(url@))
            ==> configured_source(config) is Some,
{
}

/// The steps of an installation. A URL that is accepted is fetched from what it
/// names, and one that is not is an error that tells it. What the decoder gives
/// for an archive is staged as it is, with the URL it came from, and the error of
/// the decoder ends the installation. A staged database is published with the
/// commit that it told.
pub proof fn an_installation_hands_on_what_it_got(
    before: InstallStage,
    event: InstallEvent,
    after: InstallStage,
    action: InstallAction,
)
    requires
        stepped(before, event, after, action),
    ensures
        event matches InstallEvent::Requested(url) ==> before is Idle && {
            &&& accepted(url@) ==> (after matches InstallStage::Fetching(from) && from == url) && (
            action matches InstallAction::Fetch(source) && match source {
                SnapshotSource::Https(u) => u@ == url@ && starts_with(url@, "https://"@),
                SnapshotSource::File(path) => url@ == "file://"@ + path@,
            })
            &&& !accepted(url@) ==> after is Done && (action matches InstallAction::Fail {
                message,
                cause,
            } && cause is None && message@ == "snapshot URL must use https:// or file://, got '"@
                + url@ + "'"@)
        },
        event matches InstallEvent::Fetched(archive) ==> (before matches InstallStage::Fetching(from)
            && match action {
            InstallAction::Stage { database, url } => after is Staging && url == from
                && zstd_answered(archive@, Ok(database@)),
            InstallAction::Fail { message, cause } => after is Done && message@ == "zstd decode"@ && (
            cause matches Some(error) && zstd_answered(archive@, Err(error))),
            _ => false,
        }),
        event matches InstallEvent::Staged(commit) ==> before is Staging && after is Done && (
        action matches InstallAction::Publish { source_commit } && source_commit == commit),
{
    if let InstallEvent::Fetched(archive) = event {
        if let InstallStage::Fetching(url) = before {
            let answer = choose|answer: Result<Seq<u8>, std::io::Error>| #[trigger]
                zstd_answered(archive@, answer) && decoded(url, answer, after, action);
            assert(zstd_answered(archive@, answer));
            if let InstallAction::Stage { database, .. } = action {
                assert(answer == Ok::<Seq<u8>, std::io::Error>(database@));
            }
        }
    }
}

/// What a decoding gives is told as it is.
pub proof fn a_decoding_is_told_as_it_is(decoding: Result<Vec<u8>, std::io::Error>)
    ensures
        decoding matches Ok(contents) ==> answer_of(decoding) == Ok::<Seq<u8>, std::io::Error>(
            contents@,
        ),
        decoding matches Err(error) ==> answer_of(decoding) == Err::<Seq<u8>, std::io::Error>(
            error,
        ),
{
}

/// An installed snapshot is given two entries: the URL as it is, and the time of
/// fetching as a numeral that reads back.
pub proof fn an_installed_snapshot_is_given_two_entries(url: Seq<char>, fetched_at: i64)
    ensures
        install_entries(url, fetched_at).len() == 2,
        install_entries(url, fetched_at)[0] == ("snapshot_source_url"@, url),
        install_entries(url, fetched_at)[1].0 == "snapshot_fetched_at"@,
        integer(install_entries(url, fetched_at)[1].1) == Some(fetched_at as int),
{
    numeral_reads_back(fetched_at as int);
}

/// Recording an installation that ends well stored both entries, in order, read
/// the commit, and did nothing else; it gives the commit that was read, empty
/// where there is none. Where it ends with an error, nothing behind the statement
/// that failed was run.
pub proof fn a_recorded_installation_gives_the_commit(
    url: Seq<char>,
    fetched_at: i64,
    before: Seq<Statement>,
    after: Seq<Statement>,
    end: Result<String, DatabaseError>,
)
    requires
        recorded(url, fetched_at, before, after, end),
    ensures
        before.len() < after.len() <= before.len() + 3,
        after.take(before.len() as int) == before,
        forall|i: int|
            0 <= i < 2 && before.len() + i < after.len() ==> #[trigger] after[before.len() + i] == (
            Statement::Execute {
                sql: "INSERT OR REPLACE INTO meta(key, value) VALUES (?1, ?2)"@,
                first: install_entries(url, fetched_at)[i].0,
                second: install_entries(url, fetched_at)[i].1,
            }),
        after.len() == before.len() + 3 ==> after.last() == (Statement::Text {
            sql: "SELECT value FROM meta WHERE key = ?1"@,
            parameter: "snapshot_source_commit"@,
        }),
        end is Ok ==> after.len() == before.len() + 3,
        end matches Ok(commit) ==> commit@.len() == 0 || exists|value: String| #[trigger]
            key_read("snapshot_source_commit"@, Ok(Some(value))) && commit@ == value@,
        end matches Ok(commit) ==> commit@.len() > 0 || key_read("snapshot_source_commit"@, Ok(None))
            || exists|value: String| #[trigger]
            key_read("snapshot_source_commit"@, Ok(Some(value))) && value@.len() == 0,
{
    let entries = install_entries(url, fetched_at);
    let plan = stores(entries);
    assert(plan.len() == 2);
    assert forall|i: int| 0 <= i < 2 implies #[trigger] plan[i] == (Statement::Execute {
        sql: "INSERT OR REPLACE INTO meta(key, value) VALUES (?1, ?2)"@,
        first: entries[i].0,
        second: entries[i].1,
    }) by {}
    match end {
        Ok(commit) => {
            let value = choose|value: Option<String>| #[trigger]
                key_gave(META_SNAPSHOT_SOURCE_COMMIT@, value) && commit@ == text_or_empty(
                    opt_text(value),
                );
            assert(key_read("snapshot_source_commit"@, Ok(value)));
            if let Some(text) = value {
                assert(key_read("snapshot_source_commit"@, Ok(Some(text))));
            }
        },
        Err(e) => {
            if ran_in_order(plan, before, after, Err(e)) {
                let n = a_run_stops_at_the_first_error(plan, before, after, Err(e));
            }
        },
    }
    assert(after.take(before.len() as int) =~= before);
}

/// Each stage of an installation waits for one kind of event; one that is done
/// waits for none.
pub proof fn each_stage_waits_for_one_event(stage: InstallStage, event: InstallEvent)
    ensures
        awaits(stage, event) <==> match event {
            InstallEvent::Requested(_) => stage is Idle,
            InstallEvent::Fetched(_) => stage is Fetching,
            InstallEvent::Staged(_) => stage is Staging,
        },
{
}

/// An event that an installation does not wait for changes nothing and asks for
/// nothing; one that it waits for is never passed over.
pub proof fn an_event_counts_where_it_is_waited_for(
    before: InstallStage,
    event: InstallEvent,
    after: InstallStage,
    action: InstallAction,
)
    requires
        goes_on(before, event, after, action),
    ensures
        !awaits(before, event) ==> after == before && action is Ignore,
        awaits(before, event) ==> stepped(before, event, after, action) && action !is Ignore,
{
}

} // verus!
