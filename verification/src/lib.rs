//! The query, parsing and snapshot logic of a code graph, with its behaviour
//! stated in contracts and proved.
pub mod callee;
pub mod db;
pub mod decimal;
pub mod domain;
pub mod graph;
pub mod order;
pub mod routing;
pub mod sequence;
pub mod snapshot;
pub mod syntax;
pub mod text;
pub mod tools;

