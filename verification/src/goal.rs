//! A matcher for the sample route table that exercises every feature of the
//! pipeline: two resource groups with static, dynamic and nested segments,
//! and a redirecting alias.
//!
//! ```ignore
//! /
//!   [lang: String]
//!   users
//!     GET -> People::Index
//!   people
//!     GET People::Index
//!     POST People::Create
//!     new
//!       GET People::New
//!     {id: Uuid}
//!       GET People::Show
//!       PUT People::Update
//!         [name: String]
//!       DELETE People::Destroy
//!       edit
//!         GET People::Edit
//!   books
//!     GET Books::Index
//!     POST Books::Create
//!     new
//!       GET Books::New
//!     {id: Uuid}
//!       GET Books::Show
//!       PUT Books::update
//!       DELETE Books::Destroy
//!       edit
//!         GET Books::Edit
//! ```

use vstd::prelude::*;
use vstd::string::StringSliceAdditionalSpecFns;

use crate::{Error, Match};
use crate::matching::{
    at_end, bytes_eq, method_is, parse_uuid, split_seg, strip_lead, take_seg_bounds, uuid_of,
};

pub mod books;
pub mod people;

verus! {

/// One handler of the sample table, with its captured identifier.
pub ghost enum GoalAction {
    BooksIndex,
    BooksCreate,
    BooksNew,
    BooksShow(u128),
    BooksUpdate(u128),
    BooksDestroy(u128),
    BooksEdit(u128),
    PeopleIndex,
    PeopleCreate,
    PeopleNew,
    PeopleShow(u128),
    PeopleUpdate(u128),
    PeopleDestroy(u128),
    PeopleEdit(u128),
}

/// What matching yields: a handler, a redirect to one, no path, no method,
/// or a rejected capture named by its parameter.
pub ghost enum GoalOut {
    NotFound,
    NotAllowed,
    Hit(GoalAction),
    Moved(GoalAction),
    Rejected(Seq<char>),
}

/// The terminal dispatch at `people`.
pub open spec fn spec_people_end(m: Seq<u8>) -> GoalOut {
    if m == "GET".spec_bytes() {
        GoalOut::Hit(GoalAction::PeopleIndex)
    } else if m == "POST".spec_bytes() {
        GoalOut::Hit(GoalAction::PeopleCreate)
    } else {
        GoalOut::NotAllowed
    }
}

/// The terminal dispatch at `people/{id}`.
pub open spec fn spec_people_id_end(v: u128, m: Seq<u8>) -> GoalOut {
    if m == "GET".spec_bytes() {
        GoalOut::Hit(GoalAction::PeopleShow(v))
    } else if m == "PUT".spec_bytes() {
        GoalOut::Hit(GoalAction::PeopleUpdate(v))
    } else if m == "DELETE".spec_bytes() {
        GoalOut::Hit(GoalAction::PeopleDestroy(v))
    } else {
        GoalOut::NotAllowed
    }
}

/// The walk below `people/{id}`.
pub open spec fn spec_people_id(v: u128, r: Option<Seq<u8>>, m: Seq<u8>) -> GoalOut {
    if at_end(r) {
        spec_people_id_end(v, m)
    } else {
        let (s2, r2) = split_seg(r->Some_0);
        if s2 == "edit".spec_bytes() {
            if at_end(r2) {
                if m == "GET".spec_bytes() {
                    GoalOut::Hit(GoalAction::PeopleEdit(v))
                } else {
                    GoalOut::NotAllowed
                }
            } else {
                GoalOut::NotFound
            }
        } else {
            GoalOut::NotFound
        }
    }
}

/// The walk below `people`.
pub open spec fn spec_people(r: Option<Seq<u8>>, m: Seq<u8>) -> GoalOut {
    if at_end(r) {
        spec_people_end(m)
    } else {
        let (s1, r1) = split_seg(r->Some_0);
        if s1 == "new".spec_bytes() {
            if at_end(r1) {
                if m == "GET".spec_bytes() {
                    GoalOut::Hit(GoalAction::PeopleNew)
                } else {
                    GoalOut::NotAllowed
                }
            } else {
                GoalOut::NotFound
            }
        } else {
            match uuid_of(s1) {
                None => GoalOut::Rejected("id"@),
                Some(v) => spec_people_id(v, r1, m),
            }
        }
    }
}

/// The terminal dispatch at `books`.
pub open spec fn spec_books_end(m: Seq<u8>) -> GoalOut {
    if m == "GET".spec_bytes() {
        GoalOut::Hit(GoalAction::BooksIndex)
    } else if m == "POST".spec_bytes() {
        GoalOut::Hit(GoalAction::BooksCreate)
    } else {
        GoalOut::NotAllowed
    }
}

/// The terminal dispatch at `books/{id}`.
pub open spec fn spec_books_id_end(v: u128, m: Seq<u8>) -> GoalOut {
    if m == "GET".spec_bytes() {
        GoalOut::Hit(GoalAction::BooksShow(v))
    } else if m == "PUT".spec_bytes() {
        GoalOut::Hit(GoalAction::BooksUpdate(v))
    } else if m == "DELETE".spec_bytes() {
        GoalOut::Hit(GoalAction::BooksDestroy(v))
    } else {
        GoalOut::NotAllowed
    }
}

/// The walk below `books/{id}`.
pub open spec fn spec_books_id(v: u128, r: Option<Seq<u8>>, m: Seq<u8>) -> GoalOut {
    if at_end(r) {
        spec_books_id_end(v, m)
    } else {
        let (s2, r2) = split_seg(r->Some_0);
        if s2 == "edit".spec_bytes() {
            if at_end(r2) {
                if m == "GET".spec_bytes() {
                    GoalOut::Hit(GoalAction::BooksEdit(v))
                } else {
                    GoalOut::NotAllowed
                }
            } else {
                GoalOut::NotFound
            }
        } else {
            GoalOut::NotFound
        }
    }
}

/// The walk below `books`.
pub open spec fn spec_books(r: Option<Seq<u8>>, m: Seq<u8>) -> GoalOut {
    if at_end(r) {
        spec_books_end(m)
    } else {
        let (s1, r1) = split_seg(r->Some_0);
        if s1 == "new".spec_bytes() {
            if at_end(r1) {
                if m == "GET".spec_bytes() {
                    GoalOut::Hit(GoalAction::BooksNew)
                } else {
                    GoalOut::NotAllowed
                }
            } else {
                GoalOut::NotFound
            }
        } else {
            match uuid_of(s1) {
                None => GoalOut::Rejected("id"@),
                Some(v) => spec_books_id(v, r1, m),
            }
        }
    }
}

/// The walk below `users`: a redirecting alias of the people index.
pub open spec fn spec_users(r: Option<Seq<u8>>, m: Seq<u8>) -> GoalOut {
    if at_end(r) {
        if m == "GET".spec_bytes() {
            GoalOut::Moved(GoalAction::PeopleIndex)
        } else {
            GoalOut::NotAllowed
        }
    } else {
        GoalOut::NotFound
    }
}

/// What the sample matcher yields for a path and method.
pub open spec fn spec_match_route(p: Seq<u8>, m: Seq<u8>) -> GoalOut {
    let q = strip_lead(p);
    let (s0, r0) = split_seg(q);
    if s0 == "books".spec_bytes() {
        spec_books(r0, m)
    } else if s0 == "people".spec_bytes() {
        spec_people(r0, m)
    } else if s0 == "users".spec_bytes() {
        spec_users(r0, m)
    } else {
        GoalOut::NotFound
    }
}

/// The handler a returned route stands for, its identifier included.
pub open spec fn spec_route_action(rt: Route) -> GoalAction {
    match rt {
        Route::Books(b) => match b {
            books::Route::Create(_) => GoalAction::BooksCreate,
            books::Route::Destroy(x) => GoalAction::BooksDestroy(x.id),
            books::Route::Edit(x) => GoalAction::BooksEdit(x.id),
            books::Route::Index(_) => GoalAction::BooksIndex,
            books::Route::New(_) => GoalAction::BooksNew,
            books::Route::Show(x) => GoalAction::BooksShow(x.id),
            books::Route::Update(x) => GoalAction::BooksUpdate(x.id),
        },
        Route::People(p) => match p {
            people::Route::Create(_) => GoalAction::PeopleCreate,
            people::Route::Destroy(x) => GoalAction::PeopleDestroy(x.id),
            people::Route::Edit(x) => GoalAction::PeopleEdit(x.id),
            people::Route::Index(_) => GoalAction::PeopleIndex,
            people::Route::New(_) => GoalAction::PeopleNew,
            people::Route::Show(x) => GoalAction::PeopleShow(x.id),
            people::Route::Update(x) => GoalAction::PeopleUpdate(x.id),
        },
    }
}

/// Whether every query parameter of a returned route is unset, as the
/// matcher leaves them.
pub open spec fn spec_route_unset(rt: Route) -> bool {
    match rt {
        Route::Books(b) => match b {
            books::Route::Create(x) => x.lang is None,
            books::Route::Destroy(x) => x.lang is None,
            books::Route::Edit(x) => x.lang is None,
            books::Route::Index(x) => x.lang is None,
            books::Route::New(x) => x.lang is None,
            books::Route::Show(x) => x.lang is None,
            books::Route::Update(x) => x.lang is None,
        },
        Route::People(p) => match p {
            people::Route::Create(x) => x.lang is None,
            people::Route::Destroy(x) => x.lang is None,
            people::Route::Edit(x) => x.lang is None,
            people::Route::Index(x) => x.lang is None,
            people::Route::New(x) => x.lang is None,
            people::Route::Show(x) => x.lang is None,
            people::Route::Update(x) => x.lang is None && x.name is None,
        },
    }
}

/// The outcome a returned result stands for.
pub open spec fn spec_result_out(r: Result<Match<Route>, Error>) -> GoalOut {
    match r {
        Ok(Match::NotFound) => GoalOut::NotFound,
        Ok(Match::NotAllowed) => GoalOut::NotAllowed,
        Ok(Match::Route(rt)) => GoalOut::Hit(spec_route_action(rt)),
        Ok(Match::Redirect(rt)) => GoalOut::Moved(spec_route_action(rt)),
        Err(e) => GoalOut::Rejected(e.param@),
    }
}

/// An active route of the sample table -- match against this.
#[derive(Debug, PartialEq, Eq)]
pub enum Route {
    Books(books::Route),
    People(people::Route),
}

impl Route {
    /// Make a path to this route with the given parameters.
    pub fn to_path(&self) -> (r: String)
        ensures
            r@ == (match self {
                Route::Books(b) => match b {
                    books::Route::Create(_) => "/books"@,
                    books::Route::Destroy(x) => "/books/"@ + crate::matching::uuid_str(x.id),
                    books::Route::Edit(x) => "/books/"@ + crate::matching::uuid_str(x.id)
                        + "/edit"@,
                    books::Route::Index(_) => "/books"@,
                    books::Route::New(_) => "/books/new"@,
                    books::Route::Show(x) => "/books/"@ + crate::matching::uuid_str(x.id),
                    books::Route::Update(x) => "/books/"@ + crate::matching::uuid_str(x.id),
                },
                Route::People(p) => match p {
                    people::Route::Create(_) => "/people"@,
                    people::Route::Destroy(x) => "/people/"@ + crate::matching::uuid_str(x.id),
                    people::Route::Edit(x) => "/people/"@ + crate::matching::uuid_str(x.id)
                        + "/edit"@,
                    people::Route::Index(_) => "/people"@,
                    people::Route::New(_) => "/people/new"@,
                    people::Route::Show(x) => "/people/"@ + crate::matching::uuid_str(x.id),
                    people::Route::Update(x) => "/people/"@ + crate::matching::uuid_str(x.id),
                },
            }),
    {
        match self {
            Route::Books(b) => b.to_path(),
            Route::People(p) => p.to_path(),
        }
    }
}

/// Match a path and method against the sample route table.
///
/// Returns the handler whose route matches, a redirect for the alias, no
/// path or no method where nothing fits, and a parse failure where a
/// captured segment is not a valid identifier.
pub fn match_route(path: &[u8], method: &[u8]) -> (r: Result<Match<Route>, Error>)
    ensures
        spec_result_out(r) == spec_match_route(path@, method@),
        r matches Ok(Match::Route(rt)) ==> spec_route_unset(rt),
        r matches Ok(Match::Redirect(rt)) ==> spec_route_unset(rt),
        r matches Err(e) ==> e.what@ == "the segment is not a valid identifier"@,
{
    let n = path.len();
    let start: usize = if n > 0 && path[0] == 47 {
        1
    } else {
        0
    };
    let ghost q = strip_lead(path@);
    proof {
        assert(path@.skip(start as int) =~= q);
    }
    let (e0, a0) = take_seg_bounds(path, start);
    let seg0 = &path[start..e0];
    proof {
        assert(seg0@ =~= split_seg(q).0);
    }
    let has_rest0 = e0 < n;
    if bytes_eq(seg0, "books".as_bytes()) {
        if !has_rest0 || a0 >= n {
            proof {
                if has_rest0 {
                    assert(path@.skip(a0 as int).len() == 0);
                }
            }
            return books_end(method);
        }
        let (e1, a1) = take_seg_bounds(path, a0);
        let seg1 = &path[a0..e1];
        proof {
            assert(seg1@ =~= split_seg(path@.skip(a0 as int)).0);
        }
        if bytes_eq(seg1, "new".as_bytes()) {
            if e1 >= n || a1 >= n {
                proof {
                    if e1 < n {
                        assert(path@.skip(a1 as int).len() == 0);
                    }
                }
                if method_is(method, "GET") {
                    return Ok(Match::Route(Route::Books(books::Route::New(books::New {
                        lang: None,
                    }))));
                }
                return Ok(Match::NotAllowed);
            }
            return Ok(Match::NotFound);
        }
        match parse_uuid(seg1) {
            None => Err(Error::fail("id", "the segment is not a valid identifier")),
            Some(v) => {
                if e1 >= n || a1 >= n {
                    proof {
                        if e1 < n {
                            assert(path@.skip(a1 as int).len() == 0);
                        }
                    }
                    return books_id_end(v, method);
                }
                let (e2, a2) = take_seg_bounds(path, a1);
                let seg2 = &path[a1..e2];
                proof {
                    assert(seg2@ =~= split_seg(path@.skip(a1 as int)).0);
                }
                if bytes_eq(seg2, "edit".as_bytes()) {
                    if e2 >= n || a2 >= n {
                        proof {
                            if e2 < n {
                                assert(path@.skip(a2 as int).len() == 0);
                            }
                        }
                        if method_is(method, "GET") {
                            return Ok(Match::Route(Route::Books(books::Route::Edit(books::Edit {
                                id: v,
                                lang: None,
                            }))));
                        }
                        return Ok(Match::NotAllowed);
                    }
                    return Ok(Match::NotFound);
                }
                Ok(Match::NotFound)
            },
        }
    } else if bytes_eq(seg0, "people".as_bytes()) {
        if !has_rest0 || a0 >= n {
            proof {
                if has_rest0 {
                    assert(path@.skip(a0 as int).len() == 0);
                }
            }
            return people_end(method);
        }
        let (e1, a1) = take_seg_bounds(path, a0);
        let seg1 = &path[a0..e1];
        proof {
            assert(seg1@ =~= split_seg(path@.skip(a0 as int)).0);
        }
        if bytes_eq(seg1, "new".as_bytes()) {
            if e1 >= n || a1 >= n {
                proof {
                    if e1 < n {
                        assert(path@.skip(a1 as int).len() == 0);
                    }
                }
                if method_is(method, "GET") {
                    return Ok(Match::Route(Route::People(people::Route::New(people::New {
                        lang: None,
                    }))));
                }
                return Ok(Match::NotAllowed);
            }
            return Ok(Match::NotFound);
        }
        match parse_uuid(seg1) {
            None => Err(Error::fail("id", "the segment is not a valid identifier")),
            Some(v) => {
                if e1 >= n || a1 >= n {
                    proof {
                        if e1 < n {
                            assert(path@.skip(a1 as int).len() == 0);
                        }
                    }
                    return people_id_end(v, method);
                }
                let (e2, a2) = take_seg_bounds(path, a1);
                let seg2 = &path[a1..e2];
                proof {
                    assert(seg2@ =~= split_seg(path@.skip(a1 as int)).0);
                }
                if bytes_eq(seg2, "edit".as_bytes()) {
                    if e2 >= n || a2 >= n {
                        proof {
                            if e2 < n {
                                assert(path@.skip(a2 as int).len() == 0);
                            }
                        }
                        if method_is(method, "GET") {
                            return Ok(Match::Route(Route::People(people::Route::Edit(
                                people::Edit { id: v, lang: None },
                            ))));
                        }
                        return Ok(Match::NotAllowed);
                    }
                    return Ok(Match::NotFound);
                }
                Ok(Match::NotFound)
            },
        }
    } else if bytes_eq(seg0, "users".as_bytes()) {
        if !has_rest0 || a0 >= n {
            proof {
                if has_rest0 {
                    assert(path@.skip(a0 as int).len() == 0);
                }
            }
            if method_is(method, "GET") {
                return Ok(Match::Redirect(Route::People(people::Route::Index(people::Index {
                    lang: None,
                }))));
            }
            return Ok(Match::NotAllowed);
        }
        Ok(Match::NotFound)
    } else {
        Ok(Match::NotFound)
    }
}

/// The method dispatch where the path ends at `books`.
fn books_end(method: &[u8]) -> (r: Result<Match<Route>, Error>)
    ensures
        spec_result_out(r) == spec_books_end(method@),
        r matches Ok(Match::Route(rt)) ==> spec_route_unset(rt),
        r !is Err,
        !(r matches Ok(Match::Redirect(_))),
{
    if method_is(method, "GET") {
        Ok(Match::Route(Route::Books(books::Route::Index(books::Index { lang: None }))))
    } else if method_is(method, "POST") {
        Ok(Match::Route(Route::Books(books::Route::Create(books::Create { lang: None }))))
    } else {
        Ok(Match::NotAllowed)
    }
}

/// The method dispatch where the path ends at `books/{id}`.
fn books_id_end(v: u128, method: &[u8]) -> (r: Result<Match<Route>, Error>)
    ensures
        spec_result_out(r) == spec_books_id_end(v, method@),
        r matches Ok(Match::Route(rt)) ==> spec_route_unset(rt),
        r !is Err,
        !(r matches Ok(Match::Redirect(_))),
{
    if method_is(method, "GET") {
        Ok(Match::Route(Route::Books(books::Route::Show(books::Show { id: v, lang: None }))))
    } else if method_is(method, "PUT") {
        Ok(Match::Route(Route::Books(books::Route::Update(books::Update { id: v, lang: None }))))
    } else if method_is(method, "DELETE") {
        Ok(
            Match::Route(
                Route::Books(books::Route::Destroy(books::Destroy { id: v, lang: None })),
            ),
        )
    } else {
        Ok(Match::NotAllowed)
    }
}

/// The method dispatch where the path ends at `people`.
fn people_end(method: &[u8]) -> (r: Result<Match<Route>, Error>)
    ensures
        spec_result_out(r) == spec_people_end(method@),
        r matches Ok(Match::Route(rt)) ==> spec_route_unset(rt),
        r !is Err,
        !(r matches Ok(Match::Redirect(_))),
{
    if method_is(method, "GET") {
        Ok(Match::Route(Route::People(people::Route::Index(people::Index { lang: None }))))
    } else if method_is(method, "POST") {
        Ok(Match::Route(Route::People(people::Route::Create(people::Create { lang: None }))))
    } else {
        Ok(Match::NotAllowed)
    }
}

/// The method dispatch where the path ends at `people/{id}`.
fn people_id_end(v: u128, method: &[u8]) -> (r: Result<Match<Route>, Error>)
    ensures
        spec_result_out(r) == spec_people_id_end(v, method@),
        r matches Ok(Match::Route(rt)) ==> spec_route_unset(rt),
        r !is Err,
        !(r matches Ok(Match::Redirect(_))),
{
    if method_is(method, "GET") {
        Ok(Match::Route(Route::People(people::Route::Show(people::Show { id: v, lang: None }))))
    } else if method_is(method, "PUT") {
        Ok(
            Match::Route(
                Route::People(
                    people::Route::Update(people::Update { id: v, lang: None, name: None }),
                ),
            ),
        )
    } else if method_is(method, "DELETE") {
        Ok(
            Match::Route(
                Route::People(people::Route::Destroy(people::Destroy { id: v, lang: None })),
            ),
        )
    } else {
        Ok(Match::NotAllowed)
    }
}

} // verus!
