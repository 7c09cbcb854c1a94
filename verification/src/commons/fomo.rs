//! The request struct of the `fomo` handlers.

use vstd::prelude::*;

verus! {

/// Renders for `GET /fomo`.
#[derive(Debug, PartialEq, Eq)]
pub struct AsUsual;

impl AsUsual {
    /// Make a path to this route with the given parameters.
    pub fn to_path(&self) -> (r: String)
        ensures
            r@ == "/fomo"@,
    {
        "/fomo".to_owned()
    }
}

/// Parameters for requests to the fomo controller.
#[derive(Debug, PartialEq, Eq)]
pub enum Route {
    AsUsual(AsUsual),
}

impl Route {
    /// Make a path to this route with the given parameters.
    pub fn to_path(&self) -> (r: String)
        ensures
            r@ == "/fomo"@,
    {
        match self {
            Route::AsUsual(x) => x.to_path(),
        }
    }
}

} // verus!
