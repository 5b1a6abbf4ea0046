//! Statements on a SQLite database.
//!
//! What a statement does, and whether it succeeds, rests on the database. The
//! contracts here say which statements were handed over, in order, and which
//! answer came to which, and no more: that a later statement finds what an
//! earlier one stored is not stated.
use crate::graph::{call_graph_sql, CallGraphRow, Direction};
use crate::text::opt_str;
use vstd::prelude::*;

verus! {

/// Stores a value under a key of the meta table.
pub const META_STORE: &'static str = "INSERT OR REPLACE INTO meta(key, value) VALUES (?1, ?2)";

/// Reads the value under a key of the meta table.
pub const META_LOAD: &'static str = "SELECT value FROM meta WHERE key = ?1";

/// Counts the nodes of a graph.
pub const COUNT_NODES: &'static str = "SELECT COUNT(*) FROM nodes";

/// Counts the edges of a graph.
pub const COUNT_EDGES: &'static str = "SELECT COUNT(*) FROM edges";

/// A connection to a database.
#[verifier::external_type_specification]
#[verifier::external_body]
pub struct ExConnection(rusqlite::Connection);

/// An error of a database.
#[verifier::external_type_specification]
#[verifier::external_body]
pub struct ExSqlError(rusqlite::Error);

/// What was handed to a database.
pub enum Statement {
    /// A batch of statements that have no parameters.
    Batch { sql: Seq<char> },
    /// A statement with two text parameters.
    Execute { sql: Seq<char>, first: Seq<char>, second: Seq<char> },
    /// A query for a text, with one text parameter.
    Text { sql: Seq<char>, parameter: Seq<char> },
    /// A query for a number, without parameters.
    Number { sql: Seq<char> },
    /// A query for the rows of a traversal, with four parameters.
    Rows {
        sql: Seq<char>,
        name: Seq<char>,
        file_path: Option<Seq<char>>,
        depth: int,
        relation: Seq<char>,
    },
}

/// The use of a connection, with what was handed to the database through it.
pub struct Session<'a> {
    conn: &'a rusqlite::Connection,
    log: Ghost<Seq<Statement>>,
}

/// Whether a database answered a batch of statements by this error, or by
/// success where there is none.
pub uninterp spec fn batch_answered(sql: Seq<char>, error: Option<rusqlite::Error>) -> bool;

/// Whether a database answered a statement with two text parameters by a number
/// of changed rows or this error.
pub uninterp spec fn statement_answered(
    sql: Seq<char>,
    first: Seq<char>,
    second: Seq<char>,
    answer: Result<usize, rusqlite::Error>,
) -> bool;

/// Whether a database answered a statement with two text parameters by success.
pub open spec fn statement_succeeded(
    sql: Seq<char>,
    first: Seq<char>,
    second: Seq<char>,
) -> bool {
    exists|changed: usize| #[trigger] statement_answered(sql, first, second, Ok(changed))
}

/// Whether a database answered a query with one text parameter, for the text in
/// the first column of the first row, by this text or this error.
pub uninterp spec fn text_answered(
    sql: Seq<char>,
    parameter: Seq<char>,
    answer: Result<String, rusqlite::Error>,
) -> bool;

/// Whether a database answered a query without parameters, for the number in
/// the first column of the first row, by this number or this error.
pub uninterp spec fn number_answered(
    sql: Seq<char>,
    answer: Result<i64, rusqlite::Error>,
) -> bool;

/// Whether a database answered a query with four parameters, a name, an
/// optional file path, a depth and a relation, by these rows or this error.
pub uninterp spec fn rows_answered(
    sql: Seq<char>,
    name: Seq<char>,
    file_path: Option<Seq<char>>,
    depth: int,
    relation: Seq<char>,
    answer: Result<Vec<CallGraphRow>, rusqlite::Error>,
) -> bool;

impl<'a> Session<'a> {
    /// What was handed to the database, in order, whether it succeeded or not.
    pub closed spec fn ran(&self) -> Seq<Statement> {
        self.log@
    }

    /// A session on a connection, with nothing handed over yet.
    pub fn new(conn: &'a rusqlite::Connection) -> (r: Session<'a>)
        ensures
            r.ran() == Seq::<Statement>::empty(),
    {
        Session { conn, log: Ghost(Seq::empty()) }
    }

    /// `Connection::execute_batch`: runs statements that have no parameters.
    #[verifier::external_body]
    pub(crate) fn run_batch(&mut self, sql: &str) -> (r: Result<(), rusqlite::Error>)
        ensures
            final(self).ran() == old(self).ran().push(Statement::Batch { sql: sql@ }),
            match r {
                Ok(_) => batch_answered(sql@, None),
                Err(error) => batch_answered(sql@, Some(error)),
            },
    {
        self.conn.execute_batch(sql)
    }

    /// `Connection::execute`: runs a statement with two text parameters, and
    /// gives the number of rows that it changed.
    #[verifier::external_body]
    pub(crate) fn run_statement(&mut self, sql: &str, first: &str, second: &str) -> (r: Result<
        usize,
        rusqlite::Error,
    >)
        ensures
            final(self).ran() == old(self).ran().push(
                (Statement::Execute { sql: sql@, first: first@, second: second@ }),
            ),
            statement_answered(sql@, first@, second@, r),
    {
        self.conn.execute(sql, (first, second))
    }

    /// `Connection::query_row` and `Row::get`: the text in the first column of
    /// the first row of a query with one text parameter. `Row::get` panics on a
    /// value of another type where the name of the column is not UTF-8; the
    /// query is the one for a value of the meta table, whose column has a plain
    /// name.
    #[verifier::external_body]
    pub(crate) fn query_text(&mut self, sql: &str, parameter: &str) -> (r: Result<
        String,
        rusqlite::Error,
    >)
        requires
            sql@ == META_LOAD@,
        ensures
            final(self).ran() == old(self).ran().push(
                (Statement::Text { sql: sql@, parameter: parameter@ }),
            ),
            text_answered(sql@, parameter@, r),
    {
        self.conn.query_row(sql, (parameter,), |row| row.get(0))
    }

    /// `Connection::query_row` and `Row::get`: the number in the first column of
    /// the first row of a query without parameters. `Row::get` panics on a value
    /// of another type where the name of the column is not UTF-8; the query is
    /// one of the two that count, whose column has a plain name.
    #[verifier::external_body]
    pub(crate) fn query_number(&mut self, sql: &str) -> (r: Result<i64, rusqlite::Error>)
        requires
            sql@ == COUNT_NODES@ || sql@ == COUNT_EDGES@,
        ensures
            final(self).ran() == old(self).ran().push(Statement::Number { sql: sql@ }),
            number_answered(sql@, r),
    {
        self.conn.query_row(sql, (), |row| row.get(0))
    }

    /// `Connection::prepare`, `Statement::query_map` and the conversion of a row
    /// to a tuple: the rows of a query with four parameters. The conversion
    /// panics on a value of another type where the name of a column is not
    /// UTF-8; the query is that of a traversal, whose columns have plain names.
    #[verifier::external_body]
    pub(crate) fn query_rows(
        &mut self,
        sql: &str,
        name: &str,
        file_path: Option<&str>,
        depth: i32,
        relation: &str,
    ) -> (r: Result<Vec<CallGraphRow>, rusqlite::Error>)
        requires
            sql@ == call_graph_sql(Direction::Callees) || sql@ == call_graph_sql(
                Direction::Callers,
            ),
        ensures
            final(self).ran() == old(self).ran().push(
                (Statement::Rows {
                    sql: sql@,
                    name: name@,
                    file_path: opt_str(file_path),
                    depth: depth as int,
                    relation: relation@,
                }),
            ),
            rows_answered(sql@, name@, opt_str(file_path), depth as int, relation@, r),
    {
        let mut statement = self.conn.prepare(sql)?;
        let rows = statement.query_map((name, file_path, depth, relation), |row| row.try_into())?;
        rows.collect()
    }
}

/// Whether an error is `rusqlite::Error::QueryReturnedNoRows`.
pub uninterp spec fn is_no_rows(error: rusqlite::Error) -> bool;

/// Tells whether an error is `rusqlite::Error::QueryReturnedNoRows`, which a
/// query for one row gives where there is none.
#[verifier::external_body]
pub(crate) fn no_rows(error: &rusqlite::Error) -> (r: bool)
    ensures
        r == is_no_rows(*error),
{
    matches!(error, rusqlite::Error::QueryReturnedNoRows)
}

} // verus!
