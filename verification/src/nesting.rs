//! A matcher for the route table with a root handler and a deeply
//! qualified dynamic one.
//!
//! ```ignore
//! /
//!   GET Index
//!   {id: Uuid}
//!     GET Admin::People::Show
//! ```

use vstd::prelude::*;
use vstd::string::StringSliceAdditionalSpecFns;

use crate::{Error, Match};
use crate::matching::{
    at_end, method_is, parse_uuid, split_seg, strip_lead, take_seg_bounds, uuid_of, uuid_str,
};

pub mod admin;

verus! {

/// What matching yields here: the root handler, the nested one with its
/// identifier, no path, no method, or a rejected capture.
pub ghost enum NestingOut {
    NotFound,
    NotAllowed,
    Index,
    Show(u128),
    Rejected(Seq<char>),
}

/// What this matcher yields for a path and method.
pub open spec fn spec_match_route(p: Seq<u8>, m: Seq<u8>) -> NestingOut {
    let q = strip_lead(p);
    let (s0, r0) = split_seg(q);
    if s0.len() == 0 && at_end(r0) {
        if m == "GET".spec_bytes() {
            NestingOut::Index
        } else {
            NestingOut::NotAllowed
        }
    } else {
        match uuid_of(s0) {
            None => NestingOut::Rejected("id"@),
            Some(v) => if at_end(r0) {
                if m == "GET".spec_bytes() {
                    NestingOut::Show(v)
                } else {
                    NestingOut::NotAllowed
                }
            } else {
                NestingOut::NotFound
            },
        }
    }
}

/// The outcome a returned result stands for.
pub open spec fn spec_result_out(r: Result<Match<Route>, Error>) -> NestingOut {
    match r {
        Ok(Match::NotFound) => NestingOut::NotFound,
        Ok(Match::NotAllowed) => NestingOut::NotAllowed,
        Ok(Match::Route(rt)) => match rt {
            Route::Index(_) => NestingOut::Index,
            Route::Admin(admin::Route::People(admin::people::Route::Show(x))) => NestingOut::Show(
                x.id,
            ),
        },
        Ok(Match::Redirect(_)) => NestingOut::NotFound,
        Err(e) => NestingOut::Rejected(e.param@),
    }
}

/// Renders for `GET /`.
#[derive(Debug, PartialEq, Eq)]
pub struct Index;

impl Index {
    /// Make a path to this route with the given parameters.
    pub fn to_path(&self) -> (r: String)
        ensures
            r@ == "/"@,
    {
        "/".to_owned()
    }
}

/// An active route of this table -- match against this.
#[derive(Debug, PartialEq, Eq)]
pub enum Route {
    Index(Index),
    Admin(admin::Route),
}

impl Route {
    /// Make a path to this route with the given parameters.
    pub fn to_path(&self) -> (r: String)
        ensures
            r@ == (match self {
                Route::Index(_) => "/"@,
                Route::Admin(admin::Route::People(admin::people::Route::Show(x))) => "/"@
                    + uuid_str(x.id),
            }),
    {
        match self {
            Route::Index(x) => x.to_path(),
            Route::Admin(x) => x.to_path(),
        }
    }
}

/// Match a path and method against this route table.  An empty path is the
/// root handler; any single segment is the identifier capture.
pub fn match_route(path: &[u8], method: &[u8]) -> (r: Result<Match<Route>, Error>)
    ensures
        spec_result_out(r) == spec_match_route(path@, method@),
        r !is Ok || !(r->Ok_0 is Redirect),
        r matches Err(e) ==> e.what@ == "the segment is not a valid identifier"@,
{
    let n = path.len();
    let start: usize = if n > 0 && path[0] == 47 {
        1
    } else {
        0
    };
    let ghost q = strip_lead(path@);
    proof {
        assert(path@.skip(start as int) =~= q);
    }
    let (e0, a0) = take_seg_bounds(path, start);
    let seg0 = &path[start..e0];
    proof {
        assert(seg0@ =~= split_seg(q).0);
    }
    let ended = e0 >= n || a0 >= n;
    proof {
        if e0 < n && a0 >= n {
            assert(path@.skip(a0 as int).len() == 0);
        }
    }
    if seg0.len() == 0 && ended {
        if method_is(method, "GET") {
            return Ok(Match::Route(Route::Index(Index)));
        }
        return Ok(Match::NotAllowed);
    }
    match parse_uuid(seg0) {
        None => Err(Error::fail("id", "the segment is not a valid identifier")),
        Some(v) => {
            if ended {
                if method_is(method, "GET") {
                    return Ok(
                        Match::Route(
                            Route::Admin(
                                admin::Route::People(
                                    admin::people::Route::Show(admin::people::Show { id: v }),
                                ),
                            ),
                        ),
                    );
                }
                return Ok(Match::NotAllowed);
            }
            Ok(Match::NotFound)
        },
    }
}

} // verus!
