//! A matcher for the route table with three prefix-sharing static routes
//! and a dynamic fallback.
//!
//! ```ignore
//! /
//!   foobar
//!     GET Foo::Bar
//!   fomo
//!     GET Fomo::AsUsual
//!   foosh
//!     GET Foosh::Ball
//!   {a: String}
//!     GET Bar::Dyn
//! ```

use vstd::prelude::*;
use vstd::string::StringSliceAdditionalSpecFns;

use crate::{Error, Match};
use crate::matching::{
    at_end, bytes_eq, bytes_to_string, method_is, slice_range_vec, split_seg, strip_lead,
    take_seg_bounds,
};

pub mod bar;
pub mod fomo;
pub mod foo;
pub mod foosh;

verus! {

/// What matching yields here: one of the three static handlers, the
/// fallback with its captured text, no path, no method, or a rejected
/// capture.
pub ghost enum CommonsOut {
    NotFound,
    NotAllowed,
    FooBar,
    FomoAsUsual,
    FooshBall,
    Dyn(Seq<char>),
    Rejected(Seq<char>),
}

/// A terminal that answers the one method its handler has.
pub open spec fn spec_get_only(m: Seq<u8>, hit: CommonsOut) -> CommonsOut {
    if m == "GET".spec_bytes() {
        hit
    } else {
        CommonsOut::NotAllowed
    }
}

/// What this matcher yields for a path and method: a whole-segment match
/// against the three static routes, and the dynamic capture for any other
/// first segment.
pub open spec fn spec_match_route(p: Seq<u8>, m: Seq<u8>) -> CommonsOut {
    let q = strip_lead(p);
    let (s0, r0) = split_seg(q);
    if !at_end(r0) {
        CommonsOut::NotFound
    } else if s0 == "foobar".spec_bytes() {
        spec_get_only(m, CommonsOut::FooBar)
    } else if s0 == "fomo".spec_bytes() {
        spec_get_only(m, CommonsOut::FomoAsUsual)
    } else if s0 == "foosh".spec_bytes() {
        spec_get_only(m, CommonsOut::FooshBall)
    } else if vstd::utf8::valid_utf8(s0) {
        spec_get_only(m, CommonsOut::Dyn(vstd::utf8::decode_utf8(s0)))
    } else {
        CommonsOut::Rejected("a"@)
    }
}

/// The outcome a returned result stands for.
pub open spec fn spec_result_out(r: Result<Match<Route>, Error>) -> CommonsOut {
    match r {
        Ok(Match::NotFound) => CommonsOut::NotFound,
        Ok(Match::NotAllowed) => CommonsOut::NotAllowed,
        Ok(Match::Route(rt)) => match rt {
            Route::Bar(bar::Route::Dyn(d)) => CommonsOut::Dyn(d.a@),
            Route::Fomo(_) => CommonsOut::FomoAsUsual,
            Route::Foo(_) => CommonsOut::FooBar,
            Route::Foosh(_) => CommonsOut::FooshBall,
        },
        Ok(Match::Redirect(_)) => CommonsOut::NotFound,
        Err(e) => CommonsOut::Rejected(e.param@),
    }
}

/// An active route of this table -- match against this.
#[derive(Debug, PartialEq, Eq)]
pub enum Route {
    Bar(bar::Route),
    Fomo(fomo::Route),
    Foo(foo::Route),
    Foosh(foosh::Route),
}

impl Route {
    /// Make a path to this route with the given parameters.
    pub fn to_path(&self) -> (r: String)
        ensures
            r@ == (match self {
                Route::Bar(bar::Route::Dyn(d)) => "/"@ + d.a@,
                Route::Fomo(_) => "/fomo"@,
                Route::Foo(_) => "/foobar"@,
                Route::Foosh(_) => "/foosh"@,
            }),
    {
        match self {
            Route::Bar(x) => x.to_path(),
            Route::Fomo(x) => x.to_path(),
            Route::Foo(x) => x.to_path(),
            Route::Foosh(x) => x.to_path(),
        }
    }
}

/// Match a path and method against this route table.  A first segment that
/// equals one of the static routes wins; any other first segment becomes
/// the fallback's capture.
pub fn match_route(path: &[u8], method: &[u8]) -> (r: Result<Match<Route>, Error>)
    ensures
        spec_result_out(r) == spec_match_route(path@, method@),
        r !is Ok || !(r->Ok_0 is Redirect),
        r matches Err(e) ==> e.what@ == "the segment is not valid text"@,
{
    let n = path.len();
    let start: usize = if n > 0 && path[0] == 47 {
        1
    } else {
        0
    };
    let ghost q = strip_lead(path@);
    proof {
        assert(path@.skip(start as int) =~= q);
    }
    let (e0, a0) = take_seg_bounds(path, start);
    let seg0 = &path[start..e0];
    proof {
        assert(seg0@ =~= split_seg(q).0);
    }
    if e0 < n && a0 < n {
        return Ok(Match::NotFound);
    }
    proof {
        if e0 < n {
            assert(path@.skip(a0 as int).len() == 0);
        }
    }
    if bytes_eq(seg0, "foobar".as_bytes()) {
        if method_is(method, "GET") {
            Ok(Match::Route(Route::Foo(foo::Route::Bar(foo::Bar))))
        } else {
            Ok(Match::NotAllowed)
        }
    } else if bytes_eq(seg0, "fomo".as_bytes()) {
        if method_is(method, "GET") {
            Ok(Match::Route(Route::Fomo(fomo::Route::AsUsual(fomo::AsUsual))))
        } else {
            Ok(Match::NotAllowed)
        }
    } else if bytes_eq(seg0, "foosh".as_bytes()) {
        if method_is(method, "GET") {
            Ok(Match::Route(Route::Foosh(foosh::Route::Ball(foosh::Ball))))
        } else {
            Ok(Match::NotAllowed)
        }
    } else {
        let captured = slice_range_vec(path, start, e0);
        match bytes_to_string(captured) {
            None => Err(Error::fail("a", "the segment is not valid text")),
            Some(a) => {
                if method_is(method, "GET") {
                    Ok(Match::Route(Route::Bar(bar::Route::Dyn(bar::Dyn { a }))))
                } else {
                    Ok(Match::NotAllowed)
                }
            },
        }
    }
}

} // verus!
