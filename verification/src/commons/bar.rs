//! The request struct of the dynamic fallback handler.

use vstd::prelude::*;

verus! {

/// Renders for `GET /{a}`.
#[derive(Debug, PartialEq, Eq)]
pub struct Dyn {
    pub a: String,
}

impl Dyn {
    /// Make a path to this route with the given parameters.
    pub fn to_path(&self) -> (r: String)
        ensures
            r@ == "/"@ + self.a@,
    {
        let mut s = "/".to_owned();
        s.append(self.a.as_str());
        s
    }
}

/// Parameters for requests to the bar controller.
#[derive(Debug, PartialEq, Eq)]
pub enum Route {
    Dyn(Dyn),
}

impl Route {
    /// Make a path to this route with the given parameters.
    pub fn to_path(&self) -> (r: String)
        ensures
            r@ == (match self {
                Route::Dyn(d) => "/"@ + d.a@,
            }),
    {
        match self {
            Route::Dyn(x) => x.to_path(),
        }
    }
}

} // verus!
