//! The names of the relations between nodes of the graph.
use vstd::prelude::*;

verus! {

/// One function calls another.
pub const REL_CALLS: &'static str = "calls";

/// A file or module imports a symbol.
pub const REL_IMPORTS: &'static str = "imports";

/// A type inherits from another.
pub const REL_INHERITS: &'static str = "inherits";

/// A type implements an interface or a trait.
pub const REL_IMPLEMENTS: &'static str = "implements";

} // verus!
