//! The request struct of the `foo` handlers.

use vstd::prelude::*;

verus! {

/// Renders for `GET /foobar`.
#[derive(Debug, PartialEq, Eq)]
pub struct Bar;

impl Bar {
    /// Make a path to this route with the given parameters.
    pub fn to_path(&self) -> (r: String)
        ensures
            r@ == "/foobar"@,
    {
        "/foobar".to_owned()
    }
}

/// Parameters for requests to the foo controller.
#[derive(Debug, PartialEq, Eq)]
pub enum Route {
    Bar(Bar),
}

impl Route {
    /// Make a path to this route with the given parameters.
    pub fn to_path(&self) -> (r: String)
        ensures
            r@ == "/foobar"@,
    {
        match self {
            Route::Bar(x) => x.to_path(),
        }
    }
}

} // verus!
