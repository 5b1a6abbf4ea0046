//! Traversal of the call graph: who calls a function, and whom it calls.
use crate::db::{rows_answered, Session, Statement};
use crate::decimal::{numeral, usize_text};
use crate::domain::REL_CALLS;
use crate::order::{precedes, stable_order, stably_orders};
use crate::text::{opt_str, same_text};
use vstd::prelude::*;

verus! {

/// The deepest traversal that a query makes. A greater requested depth is cut
/// to this one, which `CallGraphResult::depth_capped` tells.
pub const CALL_GRAPH_MAX_DEPTH: i32 = 10;

/// The most rows that a query returns for one direction. A query that returns
/// this many may have left some out, which `CallGraphResult::limit_hit` tells.
pub const CALL_GRAPH_ROW_LIMIT: usize = 200;

/// The way in which a traversal follows the calls.
#[derive(Debug, Clone, Copy, PartialEq, Eq, Hash, Structural)]
pub enum Direction {
    Callees,
    Callers,
}

impl Direction {
    /// The name of the direction.
    pub open spec fn name(self) -> Seq<char> {
        match self {
            Direction::Callees => "callees"@,
            Direction::Callers => "callers"@,
        }
    }

    /// The name of the direction.
    pub fn as_str(&self) -> (r: &'static str)
        ensures
            r@ == self.name(),
    {
        match self {
            Direction::Callees => "callees",
            Direction::Callers => "callers",
        }
    }
}

/// A node in the result of a traversal.
pub struct CallGraphNode {
    pub node_id: i64,
    pub name: String,
    pub node_type: String,
    pub file_path: String,
    pub depth: i32,
    pub direction: Direction,
    /// The node from which the traversal reached this one, on a shortest path;
    /// `None` for the root.
    pub parent_id: Option<i64>,
}

/// The nodes of a traversal, with what was left out.
pub struct CallGraphResult {
    pub nodes: Vec<CallGraphNode>,
    /// Whether a direction returned as many rows as the limit allows, so that
    /// there may be more.
    pub limit_hit: bool,
    /// Whether the requested depth was cut, so that there may be deeper nodes.
    pub depth_capped: bool,
    /// The depth of the traversal.
    pub effective_max_depth: i32,
    /// The depth that was asked for.
    pub requested_max_depth: i32,
}

/// A row of a traversal: node id, name, type, file path, depth and parent id.
pub type CallGraphRow = (i64, String, String, String, i32, Option<i64>);

/// The node for a row.
pub open spec fn node_of(row: CallGraphRow, direction: Direction) -> CallGraphNode {
    CallGraphNode {
        node_id: row.0,
        name: row.1,
        node_type: row.2,
        file_path: row.3,
        depth: row.4,
        direction,
        parent_id: row.5,
    }
}

/// The nodes for the rows of one direction, in order.
pub open spec fn nodes_of(rows: Seq<CallGraphRow>, direction: Direction) -> Seq<CallGraphNode> {
    rows.map_values(|row: CallGraphRow| node_of(row, direction))
}

/// The depth of a traversal for which `requested` was asked.
pub open spec fn capped_depth(requested: i32) -> i32 {
    if requested <= CALL_GRAPH_MAX_DEPTH {
        requested
    } else {
        CALL_GRAPH_MAX_DEPTH
    }
}

fn cap_depth(requested: i32) -> (r: i32)
    ensures
        r == capped_depth(requested),
{
    if requested <= CALL_GRAPH_MAX_DEPTH {
        requested
    } else {
        CALL_GRAPH_MAX_DEPTH
    }
}

/// The part of a traversal's query before the joins of the recursive step.
pub const SQL_BEFORE_JOINS: &'static str = "WITH RECURSIVE call_graph(node_id, name, type, depth, visited, parent_id) AS (
            SELECT n.id, n.name, n.type, 0, CAST(n.id AS TEXT), NULL
            FROM nodes n
            JOIN files f ON f.id = n.file_id
            WHERE n.name = ?1
            AND (?2 IS NULL OR f.path = ?2)

            UNION ALL

            SELECT t.id, t.name, t.type, cg.depth + 1,
                   cg.visited || ',' || CAST(t.id AS TEXT),
                   cg.node_id
            FROM call_graph cg
            ";

/// The joins of the recursive step along the calls.
pub const SQL_CALLEE_JOINS: &'static str = "JOIN edges e ON e.source_id = cg.node_id AND e.relation = ?4
            JOIN nodes t ON t.id = e.target_id";

/// The joins of the recursive step against the calls.
pub const SQL_CALLER_JOINS: &'static str = "JOIN edges e ON e.target_id = cg.node_id AND e.relation = ?4
            JOIN nodes t ON t.id = e.source_id";

/// The part of a traversal's query after the joins, up to the row limit. A
/// node comes once, with its shortest path; the rows come by depth, and among
/// equal depths the nodes with more callers first, so that these survive the
/// limit.
pub const SQL_AFTER_JOINS: &'static str = "
            WHERE cg.depth < ?3
            AND (',' || cg.visited || ',') NOT LIKE '%,' || CAST(t.id AS TEXT) || ',%'
        ),
        caller_counts AS (
            SELECT target_id AS node_id, COUNT(*) AS callers
            FROM edges
            WHERE relation = ?4
            GROUP BY target_id
        )
        SELECT node_id, name, type, file_path, depth, parent_id FROM (
            SELECT cg.node_id, cg.name, cg.type, f.path AS file_path, cg.depth, cg.parent_id,
                   COALESCE(cc.callers, 0) AS caller_count,
                   ROW_NUMBER() OVER (PARTITION BY cg.node_id ORDER BY cg.depth) AS rn
            FROM call_graph cg
            JOIN nodes n ON n.id = cg.node_id
            JOIN files f ON f.id = n.file_id
            LEFT JOIN caller_counts cc ON cc.node_id = cg.node_id
        ) WHERE rn = 1
        ORDER BY depth ASC, caller_count DESC
        LIMIT ";

/// The query of a traversal. Its parameters are the function's name, an
/// optional file path, the depth and the relation.
pub open spec fn call_graph_sql(direction: Direction) -> Seq<char> {
    SQL_BEFORE_JOINS@ + (match direction {
        Direction::Callees => SQL_CALLEE_JOINS@,
        Direction::Callers => SQL_CALLER_JOINS@,
    }) + SQL_AFTER_JOINS@ + numeral(CALL_GRAPH_ROW_LIMIT as nat)
}

/// The query of a traversal.
pub fn direction_sql(direction: Direction) -> (r: String)
    ensures
        r@ == call_graph_sql(direction),
{
    let mut sql = SQL_BEFORE_JOINS.to_owned();
    let joins: &'static str = match direction {
        Direction::Callees => SQL_CALLEE_JOINS,
        Direction::Callers => SQL_CALLER_JOINS,
    };
    sql.append(joins);
    sql.append(SQL_AFTER_JOINS);
    let limit = usize_text(CALL_GRAPH_ROW_LIMIT);
    sql.append(limit.as_str());
    sql
}

/// The nodes for the rows of one direction, and whether the rows are as many
/// as the limit allows.
pub fn direction_result(rows: Vec<CallGraphRow>, direction: Direction) -> (r: (
    Vec<CallGraphNode>,
    bool,
))
    ensures
        r.0@ == nodes_of(rows@, direction),
        r.1 == full(rows@),
{
    let limit_hit: bool = rows.len() == CALL_GRAPH_ROW_LIMIT;
    let ghost all = rows@;
    let mut nodes: Vec<CallGraphNode> = Vec::new();
    for row in it: rows
        invariant
            it.seq() == all,
            nodes@ == nodes_of(all.take(it.index() as int), direction),
    {
        proof {
            assert(all.take(it.index() + 1) =~= all.take(it.index() as int).push(row));
            assert(nodes_of(all.take(it.index() + 1), direction) =~= nodes_of(
                all.take(it.index() as int),
                direction,
            ).push(node_of(row, direction)));
        }
        let (node_id, name, node_type, file_path, depth, parent_id) = row;
        nodes.push(
            CallGraphNode { node_id, name, node_type, file_path, depth, direction, parent_id },
        );
    }
    assert(all.take(all.len() as int) =~= all);
    (nodes, limit_hit)
}

/// Whether a database answered the traversal from a function by these rows or
/// this error.
pub open spec fn traversal(
    function_name: Seq<char>,
    max_depth: i32,
    file_path: Option<Seq<char>>,
    direction: Direction,
    answer: Result<Vec<CallGraphRow>, rusqlite::Error>,
) -> bool {
    rows_answered(
        call_graph_sql(direction),
        function_name,
        file_path,
        capped_depth(max_depth) as int,
        REL_CALLS@,
        answer,
    )
}

/// What is handed to the database for the traversal from a function.
pub open spec fn traversal_statement(
    function_name: Seq<char>,
    max_depth: i32,
    file_path: Option<Seq<char>>,
    direction: Direction,
) -> Statement {
    Statement::Rows {
        sql: call_graph_sql(direction),
        name: function_name,
        file_path,
        depth: capped_depth(max_depth) as int,
        relation: REL_CALLS@,
    }
}

/// Whether the rows of one direction are as many as the limit allows.
pub open spec fn full(rows: Seq<CallGraphRow>) -> bool {
    rows.len() == CALL_GRAPH_ROW_LIMIT
}

/// Whether a traversal ends like this on an answer: with the nodes of its rows
/// and whether they are as many as the limit allows, or with its error.
pub open spec fn ends_with(
    answer: Result<Vec<CallGraphRow>, rusqlite::Error>,
    direction: Direction,
    end: Result<(Vec<CallGraphNode>, bool), rusqlite::Error>,
) -> bool {
    match (answer, end) {
        (Ok(rows), Ok((nodes, limit_hit))) => nodes@ == nodes_of(rows@, direction) && limit_hit
            == full(rows@),
        (Err(error), Err(e)) => e == error,
        _ => false,
    }
}

/// Whether the traversal in one direction ended like this: with the nodes of
/// the rows that the database gave, or with its error.
pub open spec fn direction_answered(
    function_name: Seq<char>,
    max_depth: i32,
    file_path: Option<Seq<char>>,
    direction: Direction,
    end: Result<(Vec<CallGraphNode>, bool), rusqlite::Error>,
) -> bool {
    exists|answer: Result<Vec<CallGraphRow>, rusqlite::Error>| #[trigger]
        traversal(function_name, max_depth, file_path, direction, answer) && ends_with(
            answer,
            direction,
            end,
        )
}

/// Whether a statement is a traversal's, with this name, file path and depth.
pub open spec fn asks_calls_of(
    statement: Statement,
    function_name: Seq<char>,
    file_path: Option<Seq<char>>,
    max_depth: i32,
    direction: Direction,
) -> bool {
    match statement {
        Statement::Rows { sql, name, file_path: path, depth, relation } => {
            &&& sql == call_graph_sql(direction)
            &&& name == function_name
            &&& path == file_path
            &&& relation == "calls"@
            &&& depth <= 10
            &&& depth <= max_depth
            &&& depth == 10 || depth == max_depth
        },
        _ => false,
    }
}

/// Traverses the call graph in one direction. Gives the nodes and whether the
/// query returned as many rows as the limit allows. Nothing but the query is
/// run.
pub fn query_direction(
    s: &mut Session<'_>,
    function_name: &str,
    max_depth: i32,
    file_path: Option<&str>,
    direction: Direction,
) -> (r: Result<(Vec<CallGraphNode>, bool), rusqlite::Error>)
    ensures
        final(s).ran() == old(s).ran().push(
            traversal_statement(function_name@, max_depth, opt_str(file_path), direction),
        ),
        asks_calls_of(
            final(s).ran().last(),
            function_name@,
            opt_str(file_path),
            max_depth,
            direction,
        ),
        direction_answered(function_name@, max_depth, opt_str(file_path), direction, r),
{
    let depth = cap_depth(max_depth);
    let sql = direction_sql(direction);
    let answer = s.query_rows(sql.as_str(), function_name, file_path, depth, REL_CALLS);
    let ghost given = answer;
    assert(traversal(function_name@, max_depth, opt_str(file_path), direction, given));
    match answer {
        Err(e) => Err(e),
        Ok(rows) => Ok(direction_result(rows, direction)),
    }
}

/// Whether two nodes are the same place reached in the same direction.
pub open spec fn same_key(a: CallGraphNode, b: CallGraphNode) -> bool {
    a.node_id == b.node_id && a.direction == b.direction
}

/// Whether the node at `i` is kept when nodes with the same key are merged: no
/// node with its key is less deep, and none before it is as deep.
pub open spec fn kept(nodes: Seq<CallGraphNode>, i: int) -> bool {
    forall|j: int|
        0 <= j < nodes.len() && same_key(#[trigger] nodes[j], nodes[i]) ==> nodes[i].depth
            < nodes[j].depth || (nodes[i].depth == nodes[j].depth && i <= j)
}

/// Whether `at` holds the indices of the kept ones among `nodes`, each once, by
/// depth and among equal depths in order.
pub open spec fn merge_order(at: Seq<int>, nodes: Seq<CallGraphNode>) -> bool {
    &&& forall|k: int|
        0 <= k < at.len() ==> 0 <= #[trigger] at[k] < nodes.len() && kept(nodes, at[k])
    &&& forall|i: int| 0 <= i < nodes.len() && kept(nodes, i) ==> #[trigger] at.contains(i)
    &&& forall|a: int, b: int|
        0 <= a < b < at.len() ==> nodes[#[trigger] at[a]].depth < nodes[#[trigger] at[b]].depth || (
        nodes[at[a]].depth == nodes[at[b]].depth && at[a] < at[b])
}

/// Whether `merged` holds the kept ones among `nodes`, each once, by depth and
/// among equal depths in order.
pub open spec fn is_merge(merged: Seq<CallGraphNode>, nodes: Seq<CallGraphNode>) -> bool {
    exists|at: Seq<int>| #[trigger]
        merge_order(at, nodes) && merged == at.map_values(|i: int| nodes[i])
}

impl Clone for CallGraphNode {
    fn clone(&self) -> (r: Self)
        ensures
            r == *self,
    {
        CallGraphNode {
            node_id: self.node_id,
            name: self.name.clone(),
            node_type: self.node_type.clone(),
            file_path: self.file_path.clone(),
            depth: self.depth,
            direction: self.direction,
            parent_id: self.parent_id,
        }
    }
}

fn is_kept(nodes: &Vec<CallGraphNode>, i: usize) -> (r: bool)
    requires
        i < nodes@.len(),
    ensures
        r == kept(nodes@, i as int),
{
    let mut j: usize = 0;
    while j < nodes.len()
        invariant
            i < nodes@.len(),
            j <= nodes@.len(),
            forall|k: int|
                0 <= k < j && same_key(#[trigger] nodes@[k], nodes@[i as int])
                    ==> nodes@[i as int].depth < nodes@[k].depth || (nodes@[i as int].depth
                    == nodes@[k].depth && i <= k),
        decreases nodes@.len() - j,
    {
        if nodes[j].node_id == nodes[i].node_id && nodes[j].direction == nodes[i].direction {
            if nodes[j].depth < nodes[i].depth || (nodes[j].depth == nodes[i].depth && j < i) {
                assert(same_key(nodes@[j as int], nodes@[i as int]));
                return false;
            }
        }
        j = j + 1;
    }
    true
}

/// Merges the nodes of both directions: of the nodes with the same id and
/// direction the least deep one stays, with its parent, and the result is
/// ordered by depth.
pub fn merge_results(callees: Vec<CallGraphNode>, callers: Vec<CallGraphNode>) -> (r: Vec<
    CallGraphNode,
>)
    ensures
        is_merge(r@, callees@ + callers@),
{
    let mut nodes = callees;
    let mut more = callers;
    nodes.append(&mut more);
    let ghost all = nodes@;
    assert(all =~= callees@ + callers@);
    let mut depths: Vec<i128> = Vec::new();
    let mut i: usize = 0;
    while i < nodes.len()
        invariant
            i <= nodes@.len(),
            depths@.len() == i,
            forall|k: int| 0 <= k < i ==> #[trigger] depths@[k] == nodes@[k].depth,
        decreases nodes@.len() - i,
    {
        depths.push(nodes[i].depth as i128);
        i = i + 1;
    }
    let order = stable_order(&depths);
    let mut merged: Vec<CallGraphNode> = Vec::new();
    let ghost mut at: Seq<int> = Seq::empty();
    let mut k: usize = 0;
    while k < order.len()
        invariant
            k <= order@.len(),
            stably_orders(order@, depths@),
            nodes@ == all,
            depths@.len() == all.len(),
            forall|j: int| 0 <= j < all.len() ==> #[trigger] depths@[j] == all[j].depth,
            merged@ == at.map_values(|i: int| all[i]),
            forall|j: int|
                0 <= j < at.len() ==> 0 <= #[trigger] at[j] < all.len() && kept(all, at[j]),
            forall|j: int|
                0 <= j < k && kept(all, order@[j] as int) ==> at.contains(
                    #[trigger] order@[j] as int,
                ),
            forall|j: int| 0 <= j < at.len() ==> exists|p: int|
                0 <= p < k && #[trigger] order@[p] == #[trigger] at[j],
            forall|a: int, b: int|
                0 <= a < b < at.len() ==> precedes(depths@, #[trigger] at[a], #[trigger] at[b]),
        decreases order@.len() - k,
    {
        let i: usize = order[k];
        if is_kept(&nodes, i) {
            let ghost before = at;
            proof {
                at = at.push(i as int);
                assert(at[before.len() as int] == i);
                assert forall|j: int| 0 <= j < k + 1 && kept(all, order@[j] as int) implies at.contains(
                    #[trigger] order@[j] as int,
                ) by {
                    if j < k {
                        let p = choose|p: int| 0 <= p < before.len() && before[p] == order@[j];
                        assert(at[p] == order@[j]);
                    }
                }
                assert forall|a: int, b: int| 0 <= a < b < at.len() implies precedes(
                    depths@,
                    #[trigger] at[a],
                    #[trigger] at[b],
                ) by {
                    if b == before.len() {
                        assert(at[a] == before[a]);
                        let p = choose|p: int| 0 <= p < k && #[trigger] order@[p] == before[a];
                        assert(precedes(depths@, order@[p] as int, order@[k as int] as int));
                    } else {
                        assert(at[a] == before[a] && at[b] == before[b]);
                    }
                }
                assert forall|j: int| 0 <= j < at.len() implies exists|p: int|
                    0 <= p < k + 1 && #[trigger] order@[p] == #[trigger] at[j] by {
                    if j < before.len() {
                        assert(at[j] == before[j]);
                        let p = choose|p: int| 0 <= p < k && #[trigger] order@[p] == before[j];
                        assert(order@[p] == at[j]);
                    } else {
                        assert(order@[k as int] == at[j]);
                    }
                }
                assert(at.map_values(|i: int| all[i]) =~= before.map_values(
                    |i: int| all[i],
                ).push(all[i as int]));
            }
            merged.push(nodes[i].clone());
        }
        k = k + 1;
    }
    proof {
        assert forall|i: int| 0 <= i < all.len() && kept(all, i) implies #[trigger] at.contains(
            i,
        ) by {
            assert(order@.contains(i as usize));
            let p = choose|p: int| 0 <= p < order@.len() && order@[p] == i as usize;
            assert(order@[p] as int == i);
        }
        assert(merge_order(at, all));
    }
    merged
}

/// Why a traversal failed.
pub enum CallGraphError {
    /// The direction is none of the three; holds a message that names it.
    InvalidDirection(String),
    /// The database reported an error.
    Database(rusqlite::Error),
}

/// What a traversal follows.
pub enum Scope {
    One(Direction),
    Both,
}

/// The scope that a word names.
pub open spec fn scope_of(direction: Seq<char>) -> Option<Scope> {
    if direction == "callees"@ {
        Some(Scope::One(Direction::Callees))
    } else if direction == "callers"@ {
        Some(Scope::One(Direction::Callers))
    } else if direction == "both"@ {
        Some(Scope::Both)
    } else {
        None
    }
}

/// The scope that a word names.
pub fn parse_scope(direction: &str) -> (r: Option<Scope>)
    ensures
        r == scope_of(direction@),
{
    if same_text(direction, "callees") {
        Some(Scope::One(Direction::Callees))
    } else if same_text(direction, "callers") {
        Some(Scope::One(Direction::Callers))
    } else if same_text(direction, "both") {
        Some(Scope::Both)
    } else {
        None
    }
}

/// The message for a word that names no scope.
pub open spec fn invalid_direction(direction: Seq<char>) -> Seq<char> {
    "invalid direction '"@ + direction + "': must be callers, callees, or both"@
}

fn invalid_direction_text(direction: &str) -> (r: String)
    ensures
        r@ == invalid_direction(direction@),
{
    let mut text = "invalid direction '".to_owned();
    text.append(direction);
    text.append("': must be callers, callees, or both");
    text
}

/// Whether a result tells the depth that was asked for and the one that was
/// used.
pub open spec fn tells_depth(result: CallGraphResult, requested: i32) -> bool {
    &&& result.requested_max_depth == requested
    &&& result.effective_max_depth == capped_depth(requested)
    &&& result.depth_capped == (requested > CALL_GRAPH_MAX_DEPTH)
}

/// The result of a traversal that found `nodes`.
pub fn call_graph_result(max_depth: i32, nodes: Vec<CallGraphNode>, limit_hit: bool) -> (r:
    CallGraphResult)
    ensures
        tells_depth(r, max_depth),
        r.nodes == nodes,
        r.limit_hit == limit_hit,
{
    CallGraphResult {
        nodes,
        limit_hit,
        depth_capped: max_depth > CALL_GRAPH_MAX_DEPTH,
        effective_max_depth: cap_depth(max_depth),
        requested_max_depth: max_depth,
    }
}

/// Whether a traversal ended like this. In one direction it gives the nodes of
/// that direction; in both, the nodes of both merged, an error in the first
/// coming before the second is asked for.
pub open spec fn answered(
    function_name: Seq<char>,
    scope: Scope,
    max_depth: i32,
    file_path: Option<Seq<char>>,
    end: Result<CallGraphResult, CallGraphError>,
) -> bool {
    match scope {
        Scope::One(direction) => exists|found: Result<(Vec<CallGraphNode>, bool), rusqlite::Error>|
         #[trigger]
            direction_answered(function_name, max_depth, file_path, direction, found) && match (
                found,
                end,
            ) {
                (Ok((nodes, limit_hit)), Ok(result)) => {
                    &&& tells_depth(result, max_depth)
                    &&& result.nodes@ == nodes@
                    &&& result.limit_hit == limit_hit
                },
                (Err(error), Err(e)) => e == CallGraphError::Database(error),
                _ => false,
            },
        Scope::Both => match end {
            Ok(result) => exists|
                callees: (Vec<CallGraphNode>, bool),
                callers: (Vec<CallGraphNode>, bool),
            |
                {
                    &&& #[trigger] direction_answered(
                        function_name,
                        max_depth,
                        file_path,
                        Direction::Callees,
                        Ok(callees),
                    )
                    &&& #[trigger] direction_answered(
                        function_name,
                        max_depth,
                        file_path,
                        Direction::Callers,
                        Ok(callers),
                    )
                    &&& tells_depth(result, max_depth)
                    &&& is_merge(result.nodes@, callees.0@ + callers.0@)
                    &&& result.limit_hit == (callees.1 || callers.1)
                },
            Err(e) => e matches CallGraphError::Database(error) && (direction_answered(
                function_name,
                max_depth,
                file_path,
                Direction::Callees,
                Err(error),
            ) || (direction_answered(
                function_name,
                max_depth,
                file_path,
                Direction::Callers,
                Err(error),
            ) && exists|callees: (Vec<CallGraphNode>, bool)| #[trigger]
                direction_answered(
                    function_name,
                    max_depth,
                    file_path,
                    Direction::Callees,
                    Ok(callees),
                ))),
        },
    }
}

/// Whether nothing but the queries of a traversal was run: that of the direction,
/// or that along the calls and then, unless it failed, that against them.
pub open spec fn asked(
    function_name: Seq<char>,
    scope: Scope,
    max_depth: i32,
    file_path: Option<Seq<char>>,
    before: Seq<Statement>,
    after: Seq<Statement>,
    end: Result<CallGraphResult, CallGraphError>,
) -> bool {
    match scope {
        Scope::One(direction) => after == before.push(
            traversal_statement(function_name, max_depth, file_path, direction),
        ),
        Scope::Both => {
            let one = before.push(
                traversal_statement(function_name, max_depth, file_path, Direction::Callees),
            );
            let both = one.push(
                traversal_statement(function_name, max_depth, file_path, Direction::Callers),
            );
            match end {
                Ok(_) => after == both,
                Err(CallGraphError::Database(error)) => {
                    ||| after == one && direction_answered(
                        function_name,
                        max_depth,
                        file_path,
                        Direction::Callees,
                        Err(error),
                    )
                    ||| after == both && direction_answered(
                        function_name,
                        max_depth,
                        file_path,
                        Direction::Callers,
                        Err(error),
                    )
                },
                Err(_) => false,
            }
        },
    }
}

/// Whether a traversal that a word asks for ran nothing but its queries, and
/// nothing at all where the word names no scope.
pub open spec fn ran_for(
    function_name: Seq<char>,
    direction: Seq<char>,
    max_depth: i32,
    file_path: Option<Seq<char>>,
    before: Seq<Statement>,
    after: Seq<Statement>,
    end: Result<CallGraphResult, CallGraphError>,
) -> bool {
    match scope_of(direction) {
        None => after == before,
        Some(scope) => asked(function_name, scope, max_depth, file_path, before, after, end),
    }
}

/// Whether a traversal that a word asks for ended like this: with an error that
/// tells the word where it names no scope, else as the database answered.
pub open spec fn given_for(
    function_name: Seq<char>,
    direction: Seq<char>,
    max_depth: i32,
    file_path: Option<Seq<char>>,
    end: Result<CallGraphResult, CallGraphError>,
) -> bool {
    match scope_of(direction) {
        None => end matches Err(CallGraphError::InvalidDirection(message)) && message@
            == invalid_direction(direction),
        Some(scope) => answered(function_name, scope, max_depth, file_path, end),
    }
}

/// Traverses the call graph from the functions with a name, within a session.
pub fn call_graph(
    s: &mut Session<'_>,
    function_name: &str,
    direction: &str,
    max_depth: i32,
    file_path: Option<&str>,
) -> (r: Result<CallGraphResult, CallGraphError>)
    ensures
        ran_for(
            function_name@,
            direction@,
            max_depth,
            opt_str(file_path),
            old(s).ran(),
            final(s).ran(),
            r,
        ),
        given_for(function_name@, direction@, max_depth, opt_str(file_path), r),
{
    let ghost path = opt_str(file_path);
    match parse_scope(direction) {
        None => Err(CallGraphError::InvalidDirection(invalid_direction_text(direction))),
        Some(Scope::One(d)) => {
            let found = query_direction(s, function_name, max_depth, file_path, d);
            let ghost given = found;
            assert(direction_answered(function_name@, max_depth, path, d, given));
            match found {
                Err(e) => Err(CallGraphError::Database(e)),
                Ok((nodes, limit_hit)) => Ok(call_graph_result(max_depth, nodes, limit_hit)),
            }
        },
        Some(Scope::Both) => {
            let callees = match query_direction(
                s,
                function_name,
                max_depth,
                file_path,
                Direction::Callees,
            ) {
                Err(e) => {
                    return Err(CallGraphError::Database(e));
                },
                Ok(found) => found,
            };
            let ghost given = callees;
            assert(direction_answered(
                function_name@,
                max_depth,
                path,
                Direction::Callees,
                Ok(given),
            ));
            let callers = match query_direction(
                s,
                function_name,
                max_depth,
                file_path,
                Direction::Callers,
            ) {
                Err(e) => {
                    return Err(CallGraphError::Database(e));
                },
                Ok(found) => found,
            };
            let ghost given_callers = callers;
            assert(direction_answered(
                function_name@,
                max_depth,
                path,
                Direction::Callers,
                Ok(given_callers),
            ));
            let nodes = merge_results(callees.0, callers.0);
            Ok(call_graph_result(max_depth, nodes, callees.1 || callers.1))
        },
    }
}

/// Traverses the call graph from the functions with a name.
///
/// `direction` is `callers`, `callees` or `both`. `max_depth` bounds the
/// traversal, which goes no deeper than `CALL_GRAPH_MAX_DEPTH`. `file_path`
/// tells apart functions that share a name.
pub fn get_call_graph(
    conn: &rusqlite::Connection,
    function_name: &str,
    direction: &str,
    max_depth: i32,
    file_path: Option<&str>,
) -> (r: Result<CallGraphResult, CallGraphError>)
    ensures
        given_for(function_name@, direction@, max_depth, opt_str(file_path), r),
{
    let mut s = Session::new(conn);
    call_graph(&mut s, function_name, direction, max_depth, file_path)
}

proof fn lemma_kept_exists(nodes: Seq<CallGraphNode>, i: int) -> (k: int)
    requires
        0 <= i < nodes.len(),
    ensures
        0 <= k < nodes.len(),
        kept(nodes, k),
        same_key(nodes[k], nodes[i]),
        nodes[k].depth <= nodes[i].depth,
    decreases nodes[i].depth - i32::MIN, i,
{
    if kept(nodes, i) {
        i
    } else {
        let j = choose|j: int|
            0 <= j < nodes.len() && same_key(#[trigger] nodes[j], nodes[i]) && !(nodes[i].depth
                < nodes[j].depth || (nodes[i].depth == nodes[j].depth && i <= j));
        lemma_kept_exists(nodes, j)
    }
}

/// A merge holds only nodes that were merged, ordered by depth; no two of them
/// have the same id and direction; and each node that was merged is there with
/// its id and direction, no deeper than it was.
pub proof fn merge_keeps_the_shallowest_of_each_key(
    merged: Seq<CallGraphNode>,
    nodes: Seq<CallGraphNode>,
)
    requires
        is_merge(merged, nodes),
    ensures
        forall|k: int| 0 <= k < merged.len() ==> nodes.contains(#[trigger] merged[k]),
        forall|a: int, b: int|
            0 <= a < b < merged.len() ==> (#[trigger] merged[a]).depth <= (
            #[trigger] merged[b]).depth,
        forall|a: int, b: int|
            0 <= a < b < merged.len() ==> !same_key(#[trigger] merged[a], #[trigger] merged[b]),
        forall|i: int|
            0 <= i < nodes.len() ==> exists|k: int|
                0 <= k < merged.len() && same_key(#[trigger] merged[k], #[trigger] nodes[i])
                    && merged[k].depth <= nodes[i].depth,
{
    let at = choose|at: Seq<int>| #[trigger]
        merge_order(at, nodes) && merged == at.map_values(|i: int| nodes[i]);
    assert forall|k: int| 0 <= k < merged.len() implies nodes.contains(#[trigger] merged[k]) by {
        assert(merged[k] == nodes[at[k]]);
    }
    assert forall|a: int, b: int| 0 <= a < b < merged.len() implies (#[trigger] merged[a]).depth
        <= (#[trigger] merged[b]).depth && !same_key(merged[a], merged[b]) by {
        assert(merged[a] == nodes[at[a]] && merged[b] == nodes[at[b]]);
        assert(kept(nodes, at[a]) && kept(nodes, at[b]));
    }
    assert forall|i: int| 0 <= i < nodes.len() implies exists|k: int|
        0 <= k < merged.len() && same_key(#[trigger] merged[k], #[trigger] nodes[i])
            && merged[k].depth <= nodes[i].depth by {
        let j = lemma_kept_exists(nodes, i);
        assert(at.contains(j));
        let k = choose|k: int| 0 <= k < at.len() && at[k] == j;
        assert(merged[k] == nodes[j]);
    }
}

proof fn lemma_merge_order_unique(a: Seq<int>, b: Seq<int>, nodes: Seq<CallGraphNode>, k: int)
    requires
        merge_order(a, nodes),
        merge_order(b, nodes),
        0 <= k,
        k < a.len(),
        forall|j: int| 0 <= j < k && j < b.len() ==> #[trigger] a[j] == b[j],
    ensures
        k < b.len(),
        a[k] == b[k],
{
    assert(b.contains(a[k]));
    let p = choose|p: int| 0 <= p < b.len() && b[p] == a[k];
    if p < k {
        assert(a[p] == b[p]);
        assert(false);
    }
    assert(a.contains(b[k]));
    let q = choose|q: int| 0 <= q < a.len() && a[q] == b[k];
    if q < k {
        assert(a[q] == b[q]);
        assert(false);
    }
    if p > k && q > k {
        assert(a[k] != a[q] && b[k] != b[p]);
        assert(false);
    }
}

/// What nodes merge to does not leave anything open: two merges of the same
/// nodes are the same.
pub proof fn merge_is_unique(
    one: Seq<CallGraphNode>,
    other: Seq<CallGraphNode>,
    nodes: Seq<CallGraphNode>,
)
    requires
        is_merge(one, nodes),
        is_merge(other, nodes),
    ensures
        one == other,
{
    let a = choose|at: Seq<int>| #[trigger]
        merge_order(at, nodes) && one == at.map_values(|i: int| nodes[i]);
    let b = choose|at: Seq<int>| #[trigger]
        merge_order(at, nodes) && other == at.map_values(|i: int| nodes[i]);
    lemma_merge_orders_agree(a, b, nodes, a.len());
    lemma_merge_orders_agree(b, a, nodes, b.len());
    assert(a =~= b);
}

proof fn lemma_merge_orders_agree(
    a: Seq<int>,
    b: Seq<int>,
    nodes: Seq<CallGraphNode>,
    n: nat,
)
    requires
        merge_order(a, nodes),
        merge_order(b, nodes),
        n <= a.len(),
    ensures
        n <= b.len(),
        forall|j: int| 0 <= j < n ==> #[trigger] a[j] == b[j],
    decreases n,
{
    if n > 0 {
        lemma_merge_orders_agree(a, b, nodes, (n - 1) as nat);
        lemma_merge_order_unique(a, b, nodes, n - 1);
    }
}

/// Merging what was merged changes nothing.
pub proof fn merging_again_changes_nothing(
    merged: Seq<CallGraphNode>,
    nodes: Seq<CallGraphNode>,
)
    requires
        is_merge(merged, nodes),
    ensures
        is_merge(merged, merged),
{
    merge_keeps_the_shallowest_of_each_key(merged, nodes);
    let at = Seq::new(merged.len(), |i: int| i);
    assert forall|k: int| 0 <= k < at.len() implies 0 <= #[trigger] at[k] < merged.len() && kept(
        merged,
        at[k],
    ) by {
        assert forall|j: int|
            0 <= j < merged.len() && same_key(#[trigger] merged[j], merged[k]) implies merged[k].depth
            < merged[j].depth || (merged[k].depth == merged[j].depth && k <= j) by {
            if j < k {
                assert(!same_key(merged[j], merged[k]));
            } else if k < j {
                assert(!same_key(merged[k], merged[j]));
            }
        }
    }
    assert forall|i: int| 0 <= i < merged.len() && kept(merged, i) implies #[trigger] at.contains(
        i,
    ) by {
        assert(at[i] == i);
    }
    assert(merge_order(at, merged));
    assert(merged =~= at.map_values(|i: int| merged[i]));
}

/// No traversal goes deeper than the cap, and a result says that it was cut
/// exactly where it goes less deep than was asked.
pub proof fn depth_is_never_above_the_cap(result: CallGraphResult, requested: i32)
    requires
        tells_depth(result, requested),
    ensures
        result.effective_max_depth <= CALL_GRAPH_MAX_DEPTH,
        result.effective_max_depth <= result.requested_max_depth,
        result.depth_capped <==> result.effective_max_depth < result.requested_max_depth,
{
}

/// A depth above the cap asks for what the cap asks for, and so finds it.
pub proof fn a_depth_above_the_cap_asks_for_the_cap(
    function_name: Seq<char>,
    requested: i32,
    file_path: Option<Seq<char>>,
    direction: Direction,
    end: Result<(Vec<CallGraphNode>, bool), rusqlite::Error>,
)
    requires
        requested > CALL_GRAPH_MAX_DEPTH,
    ensures
        traversal_statement(function_name, requested, file_path, direction) == traversal_statement(
            function_name,
            CALL_GRAPH_MAX_DEPTH,
            file_path,
            direction,
        ),
        forall|answer: Result<Vec<CallGraphRow>, rusqlite::Error>| #[trigger]
            traversal(function_name, requested, file_path, direction, answer) <==> traversal(
                function_name,
                CALL_GRAPH_MAX_DEPTH,
                file_path,
                direction,
                answer,
            ),
        direction_answered(function_name, requested, file_path, direction, end)
            <==> direction_answered(
            function_name,
            CALL_GRAPH_MAX_DEPTH,
            file_path,
            direction,
            end,
        ),
{
    assert forall|answer: Result<Vec<CallGraphRow>, rusqlite::Error>| #[trigger]
        traversal(function_name, requested, file_path, direction, answer) == traversal(
            function_name,
            CALL_GRAPH_MAX_DEPTH,
            file_path,
            direction,
            answer,
        ) by {}
    if direction_answered(function_name, CALL_GRAPH_MAX_DEPTH, file_path, direction, end) {
        let answer = choose|answer: Result<Vec<CallGraphRow>, rusqlite::Error>| #[trigger]
            traversal(function_name, CALL_GRAPH_MAX_DEPTH, file_path, direction, answer)
                && ends_with(answer, direction, end);
        assert(traversal(function_name, requested, file_path, direction, answer));
    }
}

/// Whether no two nodes have the same id and direction.
pub open spec fn distinct_keys(nodes: Seq<CallGraphNode>) -> bool {
    forall|a: int, b: int|
        0 <= a < b < nodes.len() ==> !same_key(#[trigger] nodes[a], #[trigger] nodes[b])
}

proof fn lemma_permuted(at: Seq<int>, nodes: Seq<CallGraphNode>)
    requires
        forall|k: int| 0 <= k < at.len() ==> 0 <= #[trigger] at[k] < nodes.len(),
        forall|a: int, b: int| 0 <= a < b < at.len() ==> #[trigger] at[a] != #[trigger] at[b],
        forall|i: int| 0 <= i < nodes.len() ==> #[trigger] at.contains(i),
    ensures
        at.map_values(|i: int| nodes[i]).to_multiset() == nodes.to_multiset(),
    decreases nodes.len(),
{
    broadcast use vstd::seq_lib::group_to_multiset_ensures;

    let pick = |i: int| nodes[i];
    if nodes.len() == 0 {
        if at.len() > 0 {
            assert(0 <= at[0] < nodes.len());
        }
        assert(at.map_values(pick) =~= nodes);
    } else {
        let last = nodes.len() - 1;
        let rest = nodes.drop_last();
        let pick_rest = |i: int| rest[i];
        assert(at.contains(last));
        let k = choose|k: int| 0 <= k < at.len() && at[k] == last;
        let fewer = at.remove(k);
        assert forall|j: int| 0 <= j < fewer.len() implies 0 <= #[trigger] fewer[j] < rest.len() by {
            let from = if j < k {
                j
            } else {
                j + 1
            };
            assert(fewer[j] == at[from]);
            if from < k {
                assert(at[from] != at[k]);
            } else {
                assert(at[k] != at[from]);
            }
        }
        assert forall|a: int, b: int| 0 <= a < b < fewer.len() implies #[trigger] fewer[a]
            != #[trigger] fewer[b] by {
            let x = if a < k {
                a
            } else {
                a + 1
            };
            let y = if b < k {
                b
            } else {
                b + 1
            };
            assert(fewer[a] == at[x] && fewer[b] == at[y]);
        }
        assert forall|i: int| 0 <= i < rest.len() implies #[trigger] fewer.contains(i) by {
            assert(at.contains(i));
            let j = choose|j: int| 0 <= j < at.len() && at[j] == i;
            if j < k {
                assert(fewer[j] == i);
            } else {
                assert(j != k);
                assert(fewer[j - 1] == i);
            }
        }
        lemma_permuted(fewer, rest);
        assert(fewer.map_values(pick_rest) =~= at.map_values(pick).remove(k));
        assert(at.map_values(pick)[k] == nodes[last]);
        assert(rest.push(nodes[last]) =~= nodes);
        let whole = at.map_values(pick);
        assert(whole.remove(k).to_multiset() =~= whole.to_multiset().remove(whole[k]));
        assert(whole.to_multiset() =~= whole.remove(k).to_multiset().insert(whole[k]));
    }
}

/// Where no key repeats, a merge loses nothing: it holds the nodes that were
/// merged, each as often as before, by depth.
pub proof fn merging_distinct_keys_keeps_every_node(
    merged: Seq<CallGraphNode>,
    nodes: Seq<CallGraphNode>,
)
    requires
        is_merge(merged, nodes),
        distinct_keys(nodes),
    ensures
        merged.to_multiset() == nodes.to_multiset(),
        merged.len() == nodes.len(),
{
    broadcast use vstd::seq_lib::group_to_multiset_ensures;

    let at = choose|at: Seq<int>| #[trigger]
        merge_order(at, nodes) && merged == at.map_values(|i: int| nodes[i]);
    assert forall|i: int| 0 <= i < nodes.len() implies #[trigger] at.contains(i) by {
        assert forall|j: int|
            0 <= j < nodes.len() && same_key(#[trigger] nodes[j], nodes[i]) implies nodes[i].depth
            < nodes[j].depth || (nodes[i].depth == nodes[j].depth && i <= j) by {
            if j < i {
                assert(!same_key(nodes[j], nodes[i]));
            } else if i < j {
                assert(!same_key(nodes[i], nodes[j]));
            }
        }
        assert(kept(nodes, i));
    }
    assert forall|a: int, b: int| 0 <= a < b < at.len() implies #[trigger] at[a]
        != #[trigger] at[b] by {}
    lemma_permuted(at, nodes);
    assert(merged.to_multiset().len() == merged.len());
    assert(nodes.to_multiset().len() == nodes.len());
}

proof fn lemma_filtered(nodes: Seq<CallGraphNode>, pass: spec_fn(CallGraphNode) -> bool)
    ensures
        nodes.filter(pass).to_multiset() == nodes.to_multiset().filter(pass),
    decreases nodes.len(),
{
    broadcast use vstd::seq_lib::group_to_multiset_ensures;
    broadcast use vstd::multiset::group_multiset_axioms;

    reveal(Seq::filter);
    if nodes.len() == 0 {
        assert(nodes.filter(pass).to_multiset() =~= nodes.to_multiset().filter(pass));
    } else {
        let rest = nodes.drop_last();
        lemma_filtered(rest, pass);
        assert(rest.push(nodes.last()) =~= nodes);
        assert(nodes.to_multiset() =~= rest.to_multiset().insert(nodes.last()));
        assert(nodes.filter(pass).to_multiset() =~= nodes.to_multiset().filter(pass));
    }
}

proof fn lemma_filter_all(nodes: Seq<CallGraphNode>, pass: spec_fn(CallGraphNode) -> bool)
    ensures
        (forall|i: int| 0 <= i < nodes.len() ==> pass(#[trigger] nodes[i])) ==> nodes.filter(pass)
            == nodes,
        (forall|i: int| 0 <= i < nodes.len() ==> !pass(#[trigger] nodes[i])) ==> nodes.filter(
            pass,
        ).len() == 0,
    decreases nodes.len(),
{
    reveal(Seq::filter);
    if nodes.len() > 0 {
        let rest = nodes.drop_last();
        lemma_filter_all(rest, pass);
        assert(forall|i: int| 0 <= i < rest.len() ==> rest[i] == #[trigger] nodes[i]);
        assert(rest.push(nodes.last()) =~= nodes);
        if forall|i: int| 0 <= i < nodes.len() ==> pass(#[trigger] nodes[i]) {
            assert forall|i: int| 0 <= i < rest.len() implies pass(#[trigger] rest[i]) by {
                assert(pass(nodes[i]));
            }
            assert(pass(nodes[nodes.len() - 1]));
        }
        if forall|i: int| 0 <= i < nodes.len() ==> !pass(#[trigger] nodes[i]) {
            assert forall|i: int| 0 <= i < rest.len() implies !pass(#[trigger] rest[i]) by {
                assert(!pass(nodes[i]));
            }
            assert(!pass(nodes[nodes.len() - 1]));
        }
    }
}

/// The nodes of a direction among others.
pub open spec fn in_direction(
    nodes: Seq<CallGraphNode>,
    direction: Direction,
) -> Seq<CallGraphNode> {
    nodes.filter(|n: CallGraphNode| n.direction == direction)
}

/// Where neither direction repeats a node, a traversal in both holds what the
/// two hold: as many nodes as both together, those of each direction being the
/// nodes that the traversal in this direction gives, each as often as there.
pub proof fn both_directions_hold_what_each_holds(
    merged: Seq<CallGraphNode>,
    callees: Seq<CallGraphNode>,
    callers: Seq<CallGraphNode>,
)
    requires
        is_merge(merged, callees + callers),
        distinct_keys(callees),
        distinct_keys(callers),
        forall|i: int|
            0 <= i < callees.len() ==> (#[trigger] callees[i]).direction == Direction::Callees,
        forall|i: int|
            0 <= i < callers.len() ==> (#[trigger] callers[i]).direction == Direction::Callers,
    ensures
        merged.len() == callees.len() + callers.len(),
        in_direction(merged, Direction::Callees).to_multiset() == callees.to_multiset(),
        in_direction(merged, Direction::Callers).to_multiset() == callers.to_multiset(),
{
    let nodes = callees + callers;
    assert forall|a: int, b: int| 0 <= a < b < nodes.len() implies !same_key(
        #[trigger] nodes[a],
        #[trigger] nodes[b],
    ) by {
        if b < callees.len() {
            assert(nodes[a] == callees[a] && nodes[b] == callees[b]);
        } else if a < callees.len() {
            assert(nodes[a] == callees[a] && nodes[b] == callers[b - callees.len()]);
        } else {
            assert(nodes[a] == callers[a - callees.len()] && nodes[b] == callers[b
                - callees.len()]);
        }
    }
    merging_distinct_keys_keeps_every_node(merged, nodes);
    let along = |n: CallGraphNode| n.direction == Direction::Callees;
    let against = |n: CallGraphNode| n.direction == Direction::Callers;
    lemma_filtered(merged, along);
    lemma_filtered(nodes, along);
    lemma_filtered(merged, against);
    lemma_filtered(nodes, against);
    Seq::filter_distributes_over_add(callees, callers, along);
    Seq::filter_distributes_over_add(callees, callers, against);
    lemma_filter_all(callees, along);
    lemma_filter_all(callers, along);
    lemma_filter_all(callees, against);
    lemma_filter_all(callers, against);
    assert(nodes.filter(along) =~= callees);
    assert(nodes.filter(against) =~= callers);
}

/// In either direction a traversal hands to the database the name, the file path
/// and the relation `calls` as they are, and the depth, which is ten where more
/// is asked for; its answer is one to these same parameters.
pub proof fn a_traversal_hands_over_its_arguments(
    function_name: Seq<char>,
    max_depth: i32,
    file_path: Option<Seq<char>>,
    direction: Direction,
    answer: Result<Vec<CallGraphRow>, rusqlite::Error>,
)
    ensures
        traversal_statement(function_name, max_depth, file_path, direction) matches Statement::Rows {
            sql,
            name,
            file_path: path,
            depth,
            relation,
        } && name == function_name && path == file_path && relation == "calls"@ && depth == (
        if max_depth > 10 {
            10int
        } else {
            max_depth as int
        }) && (traversal(function_name, max_depth, file_path, direction, answer)
            <==> rows_answered(sql, name, path, depth, relation, answer)),
{
}

/// The direction of a traversal changes the text of its query and nothing else:
/// the two statements have the same name, file path, depth and relation, and
/// their texts differ in the joins alone, along the calls or against them.
/// Gives what stands before the joins and behind them.
pub proof fn the_direction_changes_the_joins_alone(
    function_name: Seq<char>,
    max_depth: i32,
    file_path: Option<Seq<char>>,
) -> (around: (Seq<char>, Seq<char>))
    ensures
        traversal_statement(function_name, max_depth, file_path, Direction::Callees)
            matches Statement::Rows { sql, name, file_path: path, depth, relation } && (
        traversal_statement(function_name, max_depth, file_path, Direction::Callers) == (
        Statement::Rows {
            sql: call_graph_sql(Direction::Callers),
            name,
            file_path: path,
            depth,
            relation,
        })) && sql == call_graph_sql(Direction::Callees),
        call_graph_sql(Direction::Callees) == around.0
            + "JOIN edges e ON e.source_id = cg.node_id AND e.relation = ?4
            JOIN nodes t ON t.id = e.target_id"@
            + around.1,
        call_graph_sql(Direction::Callers) == around.0
            + "JOIN edges e ON e.target_id = cg.node_id AND e.relation = ?4
            JOIN nodes t ON t.id = e.source_id"@
            + around.1,
{
    (SQL_BEFORE_JOINS@, SQL_AFTER_JOINS@ + numeral(CALL_GRAPH_ROW_LIMIT as nat))
}

/// The query of a traversal starts from the nodes with the name, in the file
/// where one is given; goes on along the relation while the depth is below the
/// bound, and never to a node that it came through; gives each node once, with
/// its shortest path; orders by depth, and then by the number of callers, the
/// highest first; and gives two hundred rows at most.
pub proof fn a_traversal_runs_this_query(direction: Direction)
    ensures
        call_graph_sql(direction) == "WITH RECURSIVE call_graph(node_id, name, type, depth, visited, parent_id) AS (
            SELECT n.id, n.name, n.type, 0, CAST(n.id AS TEXT), NULL
            FROM nodes n
            JOIN files f ON f.id = n.file_id
            WHERE n.name = ?1
            AND (?2 IS NULL OR f.path = ?2)

            UNION ALL

            SELECT t.id, t.name, t.type, cg.depth + 1,
                   cg.visited || ',' || CAST(t.id AS TEXT),
                   cg.node_id
            FROM call_graph cg
            "@ + (match direction {
            Direction::Callees => "JOIN edges e ON e.source_id = cg.node_id AND e.relation = ?4
            JOIN nodes t ON t.id = e.target_id"@,
            Direction::Callers => "JOIN edges e ON e.target_id = cg.node_id AND e.relation = ?4
            JOIN nodes t ON t.id = e.source_id"@,
        }) + "
            WHERE cg.depth < ?3
            AND (',' || cg.visited || ',') NOT LIKE '%,' || CAST(t.id AS TEXT) || ',%'
        ),
        caller_counts AS (
            SELECT target_id AS node_id, COUNT(*) AS callers
            FROM edges
            WHERE relation = ?4
            GROUP BY target_id
        )
        SELECT node_id, name, type, file_path, depth, parent_id FROM (
            SELECT cg.node_id, cg.name, cg.type, f.path AS file_path, cg.depth, cg.parent_id,
                   COALESCE(cc.callers, 0) AS caller_count,
                   ROW_NUMBER() OVER (PARTITION BY cg.node_id ORDER BY cg.depth) AS rn
            FROM call_graph cg
            JOIN nodes n ON n.id = cg.node_id
            JOIN files f ON f.id = n.file_id
            LEFT JOIN caller_counts cc ON cc.node_id = cg.node_id
        ) WHERE rn = 1
        ORDER BY depth ASC, caller_count DESC
        LIMIT "@ + "200"@,
{
    reveal_with_fuel(numeral, 3);
    reveal_strlit("200");
    assert(numeral(200) =~= "200"@);
}

/// The traversal in one direction gives what the database answered to its
/// parameters: a node for each row, in order, with the row's id, name, type,
/// path, depth and parent, and the direction; it says that the limit was hit
/// exactly where there are two hundred rows; and it gives the database's error
/// where that answered by one. Gives the answer.
pub proof fn a_direction_gives_what_the_database_answered(
    function_name: Seq<char>,
    max_depth: i32,
    file_path: Option<Seq<char>>,
    direction: Direction,
    end: Result<(Vec<CallGraphNode>, bool), rusqlite::Error>,
) -> (answer: Result<Vec<CallGraphRow>, rusqlite::Error>)
    requires
        direction_answered(function_name, max_depth, file_path, direction, end),
    ensures
        rows_answered(
            call_graph_sql(direction),
            function_name,
            file_path,
            if max_depth > 10 {
                10int
            } else {
                max_depth as int
            },
            "calls"@,
            answer,
        ),
        answer is Ok <==> end is Ok,
        end matches Err(error) ==> answer == Err::<Vec<CallGraphRow>, rusqlite::Error>(error),
        (end matches Ok((nodes, limit_hit)) ==> answer matches Ok(rows) && {
            &&& nodes@.len() == rows@.len()
            &&& limit_hit == (rows@.len() == 200)
            &&& forall|i: int|
                0 <= i < rows@.len() ==> {
                    let node = #[trigger] nodes@[i];
                    &&& node.node_id == rows@[i].0
                    &&& node.name == rows@[i].1
                    &&& node.node_type == rows@[i].2
                    &&& node.file_path == rows@[i].3
                    &&& node.depth == rows@[i].4
                    &&& node.parent_id == rows@[i].5
                    &&& node.direction == direction
                }
        }),
{
    let answer = choose|answer: Result<Vec<CallGraphRow>, rusqlite::Error>| #[trigger]
        traversal(function_name, max_depth, file_path, direction, answer) && ends_with(
            answer,
            direction,
            end,
        );
    if let Ok((nodes, _)) = end {
        if let Ok(rows) = answer {
            assert forall|i: int| 0 <= i < rows@.len() implies #[trigger] nodes@[i] == node_of(
                rows@[i],
                direction,
            ) by {}
        }
    }
    answer
}

/// What a traversal hands to the database goes behind what was handed over
/// before: one statement for one direction; for both, that along the calls and
/// then that against them, the second only after the first succeeded. Each
/// carries the name and the file path that the caller gave, and the relation
/// `calls`.
pub proof fn every_statement_carries_the_arguments(
    function_name: Seq<char>,
    scope: Scope,
    max_depth: i32,
    file_path: Option<Seq<char>>,
    before: Seq<Statement>,
    after: Seq<Statement>,
    end: Result<CallGraphResult, CallGraphError>,
)
    requires
        asked(function_name, scope, max_depth, file_path, before, after, end),
    ensures
        before.len() < after.len(),
        after.take(before.len() as int) == before,
        match scope {
            Scope::One(direction) => after.len() == before.len() + 1 && asks_calls_of(
                after.last(),
                function_name,
                file_path,
                max_depth,
                direction,
            ),
            Scope::Both => {
                &&& asks_calls_of(
                    after[before.len() as int],
                    function_name,
                    file_path,
                    max_depth,
                    Direction::Callees,
                )
                &&& end is Ok ==> after.len() == before.len() + 2
                &&& after.len() == before.len() + 1 || (after.len() == before.len() + 2
                    && asks_calls_of(
                    after.last(),
                    function_name,
                    file_path,
                    max_depth,
                    Direction::Callers,
                ))
            },
        },
{
    assert(after.take(before.len() as int) =~= before);
}

/// A merge is made of nodes that went into it. From among the nodes with one id
/// and direction it has exactly one, the least deep, and the first of these; it
/// has them by depth, and among equal depths as they stood. Gives their places.
pub proof fn a_merge_has_one_node_of_each_key(
    merged: Seq<CallGraphNode>,
    nodes: Seq<CallGraphNode>,
) -> (at: Seq<int>)
    requires
        is_merge(merged, nodes),
    ensures
        at.len() == merged.len(),
        forall|k: int|
            0 <= k < at.len() ==> 0 <= #[trigger] at[k] < nodes.len() && merged[k] == nodes[at[k]],
        forall|k: int, j: int|
            #![trigger at[k], nodes[j]]
            0 <= k < at.len() && 0 <= j < nodes.len() && nodes[j].node_id == nodes[at[k]].node_id
                && nodes[j].direction == nodes[at[k]].direction ==> nodes[at[k]].depth
                <= nodes[j].depth && (nodes[at[k]].depth == nodes[j].depth ==> at[k] <= j),
        forall|j: int|
            0 <= j < nodes.len() ==> exists|k: int|
                0 <= k < merged.len() && (#[trigger] merged[k]).node_id == (
                #[trigger] nodes[j]).node_id && merged[k].direction == nodes[j].direction,
        forall|a: int, b: int|
            0 <= a < b < at.len() ==> nodes[#[trigger] at[a]].depth < nodes[#[trigger] at[b]].depth
                || (nodes[at[a]].depth == nodes[at[b]].depth && at[a] < at[b]),
{
    merge_keeps_the_shallowest_of_each_key(merged, nodes);
    let at = choose|at: Seq<int>| #[trigger]
        merge_order(at, nodes) && merged == at.map_values(|i: int| nodes[i]);
    assert forall|k: int, j: int|
        #![trigger at[k], nodes[j]]
        0 <= k < at.len() && 0 <= j < nodes.len() && nodes[j].node_id == nodes[at[k]].node_id
            && nodes[j].direction == nodes[at[k]].direction implies nodes[at[k]].depth
        <= nodes[j].depth && (nodes[at[k]].depth == nodes[j].depth ==> at[k] <= j) by {
        assert(kept(nodes, at[k]));
        assert(same_key(nodes[j], nodes[at[k]]));
    }
    assert forall|j: int| 0 <= j < nodes.len() implies exists|k: int|
        0 <= k < merged.len() && (#[trigger] merged[k]).node_id == (#[trigger] nodes[j]).node_id
            && merged[k].direction == nodes[j].direction by {
        let k = choose|k: int|
            0 <= k < merged.len() && same_key(#[trigger] merged[k], nodes[j]) && merged[k].depth
                <= nodes[j].depth;
        assert(merged[k].node_id == nodes[j].node_id);
    }
    at
}

/// A traversal in one direction gives the nodes of that direction and no others,
/// with all that the direction told.
pub proof fn one_direction_is_given_as_it_is(
    function_name: Seq<char>,
    direction: Direction,
    max_depth: i32,
    file_path: Option<Seq<char>>,
    end: Result<CallGraphResult, CallGraphError>,
) -> (found: Result<(Vec<CallGraphNode>, bool), rusqlite::Error>)
    requires
        answered(function_name, Scope::One(direction), max_depth, file_path, end),
    ensures
        direction_answered(function_name, max_depth, file_path, direction, found),
        found is Ok <==> end is Ok,
        end matches Ok(result) ==> (found matches Ok((nodes, limit_hit)) && result.nodes@ == nodes@
            && result.limit_hit == limit_hit),
        end matches Err(e) ==> (found matches Err(error) && e == CallGraphError::Database(error)),
{
    choose|found: Result<(Vec<CallGraphNode>, bool), rusqlite::Error>| #[trigger]
        direction_answered(function_name, max_depth, file_path, direction, found) && match (
            found,
            end,
        ) {
            (Ok((nodes, limit_hit)), Ok(result)) => {
                &&& tells_depth(result, max_depth)
                &&& result.nodes@ == nodes@
                &&& result.limit_hit == limit_hit
            },
            (Err(error), Err(e)) => e == CallGraphError::Database(error),
            _ => false,
        }
}

/// A traversal in both directions gives the nodes along the calls and then those
/// against them, merged; it says that the limit was hit where either direction
/// hit it.
pub proof fn both_directions_are_given_merged(
    function_name: Seq<char>,
    max_depth: i32,
    file_path: Option<Seq<char>>,
    result: CallGraphResult,
) -> (found: ((Vec<CallGraphNode>, bool), (Vec<CallGraphNode>, bool)))
    requires
        answered(function_name, Scope::Both, max_depth, file_path, Ok(result)),
    ensures
        direction_answered(
            function_name,
            max_depth,
            file_path,
            Direction::Callees,
            Ok(found.0),
        ),
        direction_answered(
            function_name,
            max_depth,
            file_path,
            Direction::Callers,
            Ok(found.1),
        ),
        is_merge(result.nodes@, found.0.0@ + found.1.0@),
        result.limit_hit <==> found.0.1 || found.1.1,
{
    let (callees, callers) = choose|
        callees: (Vec<CallGraphNode>, bool),
        callers: (Vec<CallGraphNode>, bool),
    |
        {
            &&& #[trigger] direction_answered(
                function_name,
                max_depth,
                file_path,
                Direction::Callees,
                Ok(callees),
            )
            &&& #[trigger] direction_answered(
                function_name,
                max_depth,
                file_path,
                Direction::Callers,
                Ok(callers),
            )
            &&& tells_depth(result, max_depth)
            &&& is_merge(result.nodes@, callees.0@ + callers.0@)
            &&& result.limit_hit == (callees.1 || callers.1)
        };
    (callees, callers)
}

/// Every result tells the depth that was asked for, the depth that was used,
/// which is ten where more was asked for, and whether these differ.
pub proof fn a_result_tells_the_depth(
    function_name: Seq<char>,
    scope: Scope,
    max_depth: i32,
    file_path: Option<Seq<char>>,
    result: CallGraphResult,
)
    requires
        answered(function_name, scope, max_depth, file_path, Ok(result)),
    ensures
        result.requested_max_depth == max_depth,
        max_depth <= 10 ==> result.effective_max_depth == max_depth && !result.depth_capped,
        max_depth > 10 ==> result.effective_max_depth == 10 && result.depth_capped,
{
}

/// A word names a scope exactly where it is `callees`, `callers` or `both`, and
/// each names its own.
pub proof fn three_words_name_a_scope(word: Seq<char>)
    ensures
        scope_of(word) == Some(Scope::One(Direction::Callees)) <==> word == "callees"@,
        scope_of(word) == Some(Scope::One(Direction::Callers)) <==> word == "callers"@,
        scope_of(word) == Some(Scope::Both) <==> word == "both"@,
        scope_of(word) is None <==> word != "callees"@ && word != "callers"@ && word != "both"@,
        Direction::Callees.name() == "callees"@,
        Direction::Callers.name() == "callers"@,
        invalid_direction(word) == "invalid direction '"@ + word
            + "': must be callers, callees, or both"@,
{
    reveal_strlit("callees");
    reveal_strlit("callers");
    reveal_strlit("both");
    assert("callees"@[5] == 'e' && "callers"@[5] == 'r');
    assert("callees"@.len() == 7 && "callers"@.len() == 7 && "both"@.len() == 4);
}

/// A traversal in both directions that ends with an error ends with the one of
/// the database, in the first direction, or in the second after the first gave
/// its nodes.
pub proof fn an_error_of_either_direction_is_given(
    function_name: Seq<char>,
    max_depth: i32,
    file_path: Option<Seq<char>>,
    before: Seq<Statement>,
    after: Seq<Statement>,
    e: CallGraphError,
)
    requires
        answered(function_name, Scope::Both, max_depth, file_path, Err(e)),
        asked(function_name, Scope::Both, max_depth, file_path, before, after, Err(e)),
    ensures
        e matches CallGraphError::Database(error) && direction_answered(
            function_name,
            max_depth,
            file_path,
            if after.len() == before.len() + 1 {
                Direction::Callees
            } else {
                Direction::Callers
            },
            Err(error),
        ),
{
}

/// A traversal follows what its word says: `callees`, `callers` or both. For any
/// other word nothing is run, and the error tells the word; no other traversal
/// ends with such an error.
pub proof fn a_traversal_follows_its_word(
    function_name: Seq<char>,
    direction: Seq<char>,
    max_depth: i32,
    file_path: Option<Seq<char>>,
    before: Seq<Statement>,
    after: Seq<Statement>,
    end: Result<CallGraphResult, CallGraphError>,
)
    requires
        ran_for(function_name, direction, max_depth, file_path, before, after, end),
        given_for(function_name, direction, max_depth, file_path, end),
    ensures
        direction == "callees"@ ==> answered(
            function_name,
            Scope::One(Direction::Callees),
            max_depth,
            file_path,
            end,
        ) && asked(
            function_name,
            Scope::One(Direction::Callees),
            max_depth,
            file_path,
            before,
            after,
            end,
        ),
        direction == "callers"@ ==> answered(
            function_name,
            Scope::One(Direction::Callers),
            max_depth,
            file_path,
            end,
        ) && asked(
            function_name,
            Scope::One(Direction::Callers),
            max_depth,
            file_path,
            before,
            after,
            end,
        ),
        direction == "both"@ ==> answered(function_name, Scope::Both, max_depth, file_path, end)
            && asked(function_name, Scope::Both, max_depth, file_path, before, after, end),
        direction != "callees"@ && direction != "callers"@ && direction != "both"@ ==> after
            == before && (end matches Err(CallGraphError::InvalidDirection(message)) && message@
            == "invalid direction '"@ + direction + "': must be callers, callees, or both"@),
        end matches Err(CallGraphError::InvalidDirection(_)) ==> direction != "callees"@
            && direction != "callers"@ && direction != "both"@,
{
    three_words_name_a_scope(direction);
}

} // verus!
