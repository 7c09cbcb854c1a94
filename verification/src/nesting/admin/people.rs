//! The request struct of the nested people handler.

use vstd::prelude::*;

use crate::matching::{uuid_str, uuid_to_string};

verus! {

/// Renders for `GET /{id}`.
#[derive(Debug, PartialEq, Eq)]
pub struct Show {
    pub id: u128,
}

impl Show {
    /// Make a path to this route with the given parameters.
    pub fn to_path(&self) -> (r: String)
        ensures
            r@ == "/"@ + uuid_str(self.id),
    {
        let mut s = "/".to_owned();
        let t = uuid_to_string(self.id);
        s.append(t.as_str());
        s
    }
}

/// Parameters for requests to the people controller.
#[derive(Debug, PartialEq, Eq)]
pub enum Route {
    Show(Show),
}

impl Route {
    /// Make a path to this route with the given parameters.
    pub fn to_path(&self) -> (r: String)
        ensures
            r@ == (match self {
                Route::Show(x) => "/"@ + uuid_str(x.id),
            }),
    {
        match self {
            Route::Show(x) => x.to_path(),
        }
    }
}

} // verus!
