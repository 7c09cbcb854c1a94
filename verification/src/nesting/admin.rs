//! The nested admin module of the deeply qualified handler.

use vstd::prelude::*;

use crate::matching::uuid_str;

pub mod people;

verus! {

/// Parameters for requests to the admin controller.
#[derive(Debug, PartialEq, Eq)]
pub enum Route {
    People(people::Route),
}

impl Route {
    /// Make a path to this route with the given parameters.
    pub fn to_path(&self) -> (r: String)
        ensures
            r@ == (match self {
                Route::People(people::Route::Show(x)) => "/"@ + uuid_str(x.id),
            }),
    {
        match self {
            Route::People(x) => x.to_path(),
        }
    }
}

} // verus!
