//! The request struct of the `foosh` handlers.

use vstd::prelude::*;

verus! {

/// Renders for `GET /foosh`.
#[derive(Debug, PartialEq, Eq)]
pub struct Ball;

impl Ball {
    /// Make a path to this route with the given parameters.
    pub fn to_path(&self) -> (r: String)
        ensures
            r@ == "/foosh"@,
    {
        "/foosh".to_owned()
    }
}

/// Parameters for requests to the foosh controller.
#[derive(Debug, PartialEq, Eq)]
pub enum Route {
    Ball(Ball),
}

impl Route {
    /// Make a path to this route with the given parameters.
    pub fn to_path(&self) -> (r: String)
        ensures
            r@ == "/foosh"@,
    {
        match self {
            Route::Ball(x) => x.to_path(),
        }
    }
}

} // verus!
