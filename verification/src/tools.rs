//! The tools that answer questions about a code graph: each reads its
//! arguments, tells its caller what to look up next, and turns what was found
//! into a reply.
pub mod args;
pub mod ast_search;
pub mod refs;
pub mod project_map;
