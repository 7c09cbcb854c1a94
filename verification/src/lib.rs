//! A build-time route-matcher compiler.
//!
//! A declarative route configuration is flattened, merged into a prefix trie,
//! and emitted as a standalone source file whose `match_route` function
//! classifies a request path and method without any runtime table.

use vstd::prelude::*;

pub mod config;
pub use config::Header;
pub use config::Method;
pub use config::NestedRoutes;
pub use config::Param;
pub use config::PathSegment;
pub use config::Resource;
pub use config::RouteConfig;
pub use config::Routes;
pub mod parse;
pub mod flat;
pub mod trie;
pub mod gen;
pub mod matching;
pub mod goal;
pub mod commons;
pub mod nesting;
pub mod laws;
pub mod builder;

verus! {

/// The outcome of matching a path and method against a route table.
#[derive(Debug, PartialEq, Eq)]
pub enum Match<T> {
    NotFound,
    NotAllowed,
    Route(T),
    Redirect(T),
}

/// A route-parameter parse failure reported by a matcher: the parameter's
/// name and a description of the cause.
#[derive(Debug, PartialEq, Eq)]
pub struct Error {
    pub param: String,
    pub what: String,
}

impl Error {
    /// Record a parse failure of the named route parameter.
    pub fn fail(param: &str, what: &str) -> (r: Error)
        ensures
            r.param@ == param@,
            r.what@ == what@,
    {
        Error { param: param.to_owned(), what: what.to_owned() }
    }
}

} // verus!
