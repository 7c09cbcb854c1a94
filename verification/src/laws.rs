//! The laws the matchers obey: a leading separator is optional, a trailing
//! separator never changes the outcome of a clean path, and a static route
//! always beats the dynamic fallback.

use vstd::prelude::*;
use vstd::string::StringSliceAdditionalSpecFns;

use crate::matching::{at_end, lemma_split_seg_push_sep, sep, split_seg, strip_lead};

verus! {

/// A leading separator is only stripped, so one may be added to any path
/// that lacks it without changing what any matcher sees.
pub proof fn lemma_strip_lead_optional(p: Seq<u8>)
    requires
        p.len() == 0 || p[0] != sep(),
    ensures
        strip_lead(seq![sep()] + p) == strip_lead(p),
{
    assert((seq![sep()] + p)[0] == sep());
    assert((seq![sep()] + p).drop_first() =~= p);
}

/// A path without a trailing separator, at any depth of the walk.
pub open spec fn clean_rest(r: Option<Seq<u8>>) -> bool {
    match r {
        None => true,
        Some(x) => x.len() > 0 && x[x.len() - 1] != sep(),
    }
}

/// The remainder after a trailing separator has been appended.
pub open spec fn pushed_rest(r: Option<Seq<u8>>) -> Option<Seq<u8>> {
    match r {
        None => Some(Seq::<u8>::empty()),
        Some(x) => Some(x.push(sep())),
    }
}

/// Splitting a clean path yields a clean remainder.
pub proof fn lemma_split_clean(x: Seq<u8>)
    requires
        x.len() > 0,
        x[x.len() - 1] != sep(),
    ensures
        clean_rest(split_seg(x).1),
    decreases x.len(),
{
    if x.len() == 1 {
        assert(x[0] == x[x.len() - 1]);
        assert(split_seg(x.drop_first()).1 is None);
    } else if x[0] == sep() {
        assert(x.drop_first().len() > 0);
        assert(x.drop_first()[x.drop_first().len() - 1] == x[x.len() - 1]);
    } else {
        assert(x.drop_first()[x.drop_first().len() - 1] == x[x.len() - 1]);
        lemma_split_clean(x.drop_first());
    }
}

/// Splitting after a trailing separator was appended yields the same
/// segment and the pushed remainder.
pub proof fn lemma_split_pushed(x: Seq<u8>)
    ensures
        split_seg(x.push(sep())).0 == split_seg(x).0,
        split_seg(x.push(sep())).1 == pushed_rest(split_seg(x).1),
{
    lemma_split_seg_push_sep(x);
}

/// The walk below `people` of the sample matcher does not change when a
/// trailing separator is appended to a clean remainder.
proof fn lemma_goal_people_clean(r: Option<Seq<u8>>, m: Seq<u8>)
    requires
        clean_rest(r),
    ensures
        crate::goal::spec_people(pushed_rest(r), m) == crate::goal::spec_people(r, m),
{
    if !at_end(r) {
        let x = r->Some_0;
        lemma_split_pushed(x);
        lemma_split_clean(x);
        let (s1, r1) = split_seg(x);
        lemma_goal_people_id_clean(r1, m);
    }
}

/// The walk below `people/{id}` does not change when a trailing separator
/// is appended to a clean remainder.
proof fn lemma_goal_people_id_clean(r: Option<Seq<u8>>, m: Seq<u8>)
    requires
        clean_rest(r),
    ensures
        forall|v: u128|
            #[trigger] crate::goal::spec_people_id(v, pushed_rest(r), m)
                == crate::goal::spec_people_id(v, r, m),
{
    if !at_end(r) {
        let x = r->Some_0;
        lemma_split_pushed(x);
        lemma_split_clean(x);
    }
}

/// The walk below `books` does not change when a trailing separator is
/// appended to a clean remainder.
proof fn lemma_goal_books_clean(r: Option<Seq<u8>>, m: Seq<u8>)
    requires
        clean_rest(r),
    ensures
        crate::goal::spec_books(pushed_rest(r), m) == crate::goal::spec_books(r, m),
{
    if !at_end(r) {
        let x = r->Some_0;
        lemma_split_pushed(x);
        lemma_split_clean(x);
        let (s1, r1) = split_seg(x);
        lemma_goal_books_id_clean(r1, m);
    }
}

/// The walk below `books/{id}` does not change when a trailing separator is
/// appended to a clean remainder.
proof fn lemma_goal_books_id_clean(r: Option<Seq<u8>>, m: Seq<u8>)
    requires
        clean_rest(r),
    ensures
        forall|v: u128|
            #[trigger] crate::goal::spec_books_id(v, pushed_rest(r), m)
                == crate::goal::spec_books_id(v, r, m),
{
    if !at_end(r) {
        let x = r->Some_0;
        lemma_split_pushed(x);
        lemma_split_clean(x);
    }
}

/// A trailing separator on a clean path never changes the outcome of the
/// sample matcher; in particular every route that matches without it also
/// matches with it.
pub proof fn lemma_goal_trailing_sep(p: Seq<u8>, m: Seq<u8>)
    requires
        p.len() == 0 || p[p.len() - 1] != sep(),
    ensures
        crate::goal::spec_match_route(p.push(sep()), m) == crate::goal::spec_match_route(p, m),
{
    let q = strip_lead(p);
    if p.len() == 0 {
        assert(p.push(sep())[0] == sep());
        assert(strip_lead(p.push(sep())) =~= q);
    } else {
        if p[0] == sep() {
            assert(p.push(sep())[0] == sep());
            assert(strip_lead(p.push(sep())) =~= q.push(sep()));
        } else {
            assert(strip_lead(p.push(sep())) =~= q.push(sep()));
        }
        assert(q.len() == 0 || q[q.len() - 1] != sep());
        lemma_split_pushed(q);
        if q.len() > 0 {
            lemma_split_clean(q);
        } else {
            assert(split_seg(q).1 is None);
        }
        let (s0, r0) = split_seg(q);
        lemma_goal_books_clean(r0, m);
        lemma_goal_people_clean(r0, m);
        if !at_end(r0) {
        }
    }
}

/// A leading separator is optional for the sample matcher.
pub proof fn lemma_goal_leading_sep(p: Seq<u8>, m: Seq<u8>)
    requires
        p.len() == 0 || p[0] != sep(),
    ensures
        crate::goal::spec_match_route(seq![sep()] + p, m) == crate::goal::spec_match_route(p, m),
{
    lemma_strip_lead_optional(p);
}

/// A trailing separator on a clean path never changes the outcome of the
/// prefix-sharing matcher.
pub proof fn lemma_commons_trailing_sep(p: Seq<u8>, m: Seq<u8>)
    requires
        p.len() == 0 || p[p.len() - 1] != sep(),
    ensures
        crate::commons::spec_match_route(p.push(sep()), m) == crate::commons::spec_match_route(
            p,
            m,
        ),
{
    let q = strip_lead(p);
    if p.len() == 0 {
        assert(p.push(sep())[0] == sep());
        assert(strip_lead(p.push(sep())) =~= q);
    } else {
        assert(strip_lead(p.push(sep())) =~= q.push(sep()));
        assert(q.len() == 0 || q[q.len() - 1] != sep());
        lemma_split_pushed(q);
        if q.len() > 0 {
            lemma_split_clean(q);
        } else {
            assert(split_seg(q).1 is None);
        }
    }
}

/// A leading separator is optional for the prefix-sharing matcher.
pub proof fn lemma_commons_leading_sep(p: Seq<u8>, m: Seq<u8>)
    requires
        p.len() == 0 || p[0] != sep(),
    ensures
        crate::commons::spec_match_route(seq![sep()] + p, m) == crate::commons::spec_match_route(
            p,
            m,
        ),
{
    lemma_strip_lead_optional(p);
}

/// A trailing separator on a clean path never changes the outcome of the
/// nested matcher.
pub proof fn lemma_nesting_trailing_sep(p: Seq<u8>, m: Seq<u8>)
    requires
        p.len() == 0 || p[p.len() - 1] != sep(),
    ensures
        crate::nesting::spec_match_route(p.push(sep()), m) == crate::nesting::spec_match_route(
            p,
            m,
        ),
{
    let q = strip_lead(p);
    if p.len() == 0 {
        assert(p.push(sep())[0] == sep());
        assert(strip_lead(p.push(sep())) =~= q);
    } else {
        assert(strip_lead(p.push(sep())) =~= q.push(sep()));
        assert(q.len() == 0 || q[q.len() - 1] != sep());
        lemma_split_pushed(q);
        if q.len() > 0 {
            lemma_split_clean(q);
        } else {
            assert(split_seg(q).1 is None);
        }
    }
}

/// A leading separator is optional for the nested matcher.
pub proof fn lemma_nesting_leading_sep(p: Seq<u8>, m: Seq<u8>)
    requires
        p.len() == 0 || p[0] != sep(),
    ensures
        crate::nesting::spec_match_route(seq![sep()] + p, m) == crate::nesting::spec_match_route(
            p,
            m,
        ),
{
    lemma_strip_lead_optional(p);
}

/// A path whose first segment names one of the static routes never reaches
/// the dynamic fallback: the static match wins.
pub proof fn lemma_commons_static_wins(p: Seq<u8>, m: Seq<u8>)
    requires
        split_seg(strip_lead(p)).0 == "foobar".spec_bytes() || split_seg(strip_lead(p)).0
            == "fomo".spec_bytes() || split_seg(strip_lead(p)).0 == "foosh".spec_bytes(),
    ensures
        !(crate::commons::spec_match_route(p, m) matches crate::commons::CommonsOut::Dyn(_)),
        !(crate::commons::spec_match_route(p, m) matches crate::commons::CommonsOut::Rejected(_)),
{
}


/// The empty path, where the root holds no resources, is not found,
/// whatever the method.
pub proof fn lemma_goal_empty_path(m: Seq<u8>)
    ensures
        crate::goal::spec_match_route(Seq::empty(), m) == crate::goal::GoalOut::NotFound,
{
    reveal_strlit("books");
    reveal_strlit("people");
    reveal_strlit("users");
    assert(split_seg(strip_lead(Seq::empty())).0 =~= Seq::<u8>::empty());
    assert("books".spec_bytes().len() == 5) by {
        vstd::utf8::is_ascii_chars_encode_utf8("books"@);
    }
    assert("people".spec_bytes().len() == 6) by {
        vstd::utf8::is_ascii_chars_encode_utf8("people"@);
    }
    assert("users".spec_bytes().len() == 5) by {
        vstd::utf8::is_ascii_chars_encode_utf8("users"@);
    }
}

/// The empty path, where the root holds a resource, answers the method
/// dispatch of the root: the root route for its method, and not-allowed for
/// any other.
pub proof fn lemma_nesting_empty_path(m: Seq<u8>)
    ensures
        crate::nesting::spec_match_route(Seq::empty(), m) == (if m == "GET".spec_bytes() {
            crate::nesting::NestingOut::Index
        } else {
            crate::nesting::NestingOut::NotAllowed
        }),
{
    assert(split_seg(strip_lead(Seq::empty())).0 =~= Seq::<u8>::empty());
}

/// The bytes of an ASCII literal are its characters' code points.
proof fn lemma_ascii_lit_bytes(s: Seq<char>)
    requires
        vstd::utf8::is_ascii_chars(s),
    ensures
        vstd::utf8::encode_utf8(s) =~= crate::matching::ascii_bytes(s),
{
    vstd::utf8::is_ascii_chars_encode_utf8(s);
    assert(vstd::utf8::encode_utf8(s) =~= crate::matching::ascii_bytes(s));
}

/// Matching the rendered path of a nested route yields that route back:
/// the round trip through `to_path` is the identity on the handler and its
/// identifier.  The identifier hypotheses are what the identifier crate
/// states of its hyphenated rendering: it holds no separator, and parsing
/// it back yields the value.
pub proof fn lemma_nesting_round_trip(rt: crate::nesting::Route)
    requires
        rt matches crate::nesting::Route::Admin(
            crate::nesting::admin::Route::People(crate::nesting::admin::people::Route::Show(x)),
        ) ==> {
            &&& crate::matching::uuid_of(
                crate::matching::ascii_bytes(crate::matching::uuid_str(x.id)),
            ) == Some(x.id)
            &&& crate::matching::uuid_str(x.id).len() > 0
            &&& forall|i: int|
                0 <= i < crate::matching::uuid_str(x.id).len() ==> (
                #[trigger] crate::matching::uuid_str(x.id)[i]) as u8 != sep()
        },
    ensures
        crate::nesting::spec_match_route(
            crate::matching::ascii_bytes(
                match rt {
                    crate::nesting::Route::Index(_) => "/"@,
                    crate::nesting::Route::Admin(
                        crate::nesting::admin::Route::People(
                            crate::nesting::admin::people::Route::Show(x),
                        ),
                    ) => "/"@ + crate::matching::uuid_str(x.id),
                },
            ),
            "GET".spec_bytes(),
        ) == (match rt {
            crate::nesting::Route::Index(_) => crate::nesting::NestingOut::Index,
            crate::nesting::Route::Admin(
                crate::nesting::admin::Route::People(crate::nesting::admin::people::Route::Show(x)),
            ) => crate::nesting::NestingOut::Show(x.id),
        }),
{
    reveal_strlit("/");
    match rt {
        crate::nesting::Route::Index(_) => {
            let b = crate::matching::ascii_bytes("/"@);
            assert(b.len() == 1 && b[0] == '/' as u8);
            assert(b[0] == sep());
            assert(strip_lead(b) =~= Seq::<u8>::empty());
            assert(split_seg(strip_lead(b)).0 =~= Seq::<u8>::empty());
        },
        crate::nesting::Route::Admin(
            crate::nesting::admin::Route::People(crate::nesting::admin::people::Route::Show(x)),
        ) => {
            let u = crate::matching::uuid_str(x.id);
            let b = crate::matching::ascii_bytes("/"@ + u);
            let ub = crate::matching::ascii_bytes(u);
            assert(b[0] == '/' as u8);
            assert(b[0] == sep());
            assert(strip_lead(b) =~= ub);
            assert forall|k: int| 0 <= k < ub.len() implies ub[k] != sep() by {
                assert(ub[k] == u[k] as u8);
            }
            crate::matching::lemma_split_seg_scan(ub, ub.len() as int);
            assert(split_seg(ub).0 =~= ub);
            assert(split_seg(ub).1 is None);
        },
    }
}

/// Matching the rendered path of a static route of the prefix-sharing
/// table yields that route back.
pub proof fn lemma_commons_round_trip_static(rt: crate::commons::Route)
    requires
        !(rt matches crate::commons::Route::Bar(_)),
    ensures
        crate::commons::spec_match_route(
            crate::matching::ascii_bytes(
                match rt {
                    crate::commons::Route::Bar(crate::commons::bar::Route::Dyn(d)) => "/"@ + d.a@,
                    crate::commons::Route::Fomo(_) => "/fomo"@,
                    crate::commons::Route::Foo(_) => "/foobar"@,
                    crate::commons::Route::Foosh(_) => "/foosh"@,
                },
            ),
            "GET".spec_bytes(),
        ) == (match rt {
            crate::commons::Route::Bar(crate::commons::bar::Route::Dyn(d)) =>
                crate::commons::CommonsOut::Dyn(d.a@),
            crate::commons::Route::Fomo(_) => crate::commons::CommonsOut::FomoAsUsual,
            crate::commons::Route::Foo(_) => crate::commons::CommonsOut::FooBar,
            crate::commons::Route::Foosh(_) => crate::commons::CommonsOut::FooshBall,
        }),
{
    reveal_strlit("/fomo");
    reveal_strlit("/foobar");
    reveal_strlit("/foosh");
    reveal_strlit("fomo");
    reveal_strlit("foobar");
    reveal_strlit("foosh");
    lemma_ascii_lit_bytes("fomo"@);
    lemma_ascii_lit_bytes("foobar"@);
    lemma_ascii_lit_bytes("foosh"@);
    assert("fomo".spec_bytes().len() == 4);
    assert("foobar".spec_bytes().len() == 6);
    assert("foosh".spec_bytes().len() == 5);
    match rt {
        crate::commons::Route::Bar(_) => {},
        crate::commons::Route::Fomo(_) => {
            lemma_one_seg("/fomo"@, "fomo");
        },
        crate::commons::Route::Foo(_) => {
            lemma_one_seg("/foobar"@, "foobar");
        },
        crate::commons::Route::Foosh(_) => {
            lemma_one_seg("/foosh"@, "foosh");
        },
    }
}

/// The spec-level rendering of a sample route's path, as `to_path` states
/// it.
pub open spec fn goal_route_path(rt: crate::goal::Route) -> Seq<char> {
    match rt {
        crate::goal::Route::Books(b) => match b {
            crate::goal::books::Route::Create(_) => "/books"@,
            crate::goal::books::Route::Destroy(x) => "/books/"@ + crate::matching::uuid_str(x.id),
            crate::goal::books::Route::Edit(x) => "/books/"@ + crate::matching::uuid_str(x.id)
                + "/edit"@,
            crate::goal::books::Route::Index(_) => "/books"@,
            crate::goal::books::Route::New(_) => "/books/new"@,
            crate::goal::books::Route::Show(x) => "/books/"@ + crate::matching::uuid_str(x.id),
            crate::goal::books::Route::Update(x) => "/books/"@ + crate::matching::uuid_str(x.id),
        },
        crate::goal::Route::People(p) => match p {
            crate::goal::people::Route::Create(_) => "/people"@,
            crate::goal::people::Route::Destroy(x) => "/people/"@ + crate::matching::uuid_str(
                x.id,
            ),
            crate::goal::people::Route::Edit(x) => "/people/"@ + crate::matching::uuid_str(x.id)
                + "/edit"@,
            crate::goal::people::Route::Index(_) => "/people"@,
            crate::goal::people::Route::New(_) => "/people/new"@,
            crate::goal::people::Route::Show(x) => "/people/"@ + crate::matching::uuid_str(x.id),
            crate::goal::people::Route::Update(x) => "/people/"@ + crate::matching::uuid_str(
                x.id,
            ),
        },
    }
}

/// The method a sample route answers to.
pub open spec fn goal_route_method(rt: crate::goal::Route) -> Seq<u8> {
    match rt {
        crate::goal::Route::Books(b) => match b {
            crate::goal::books::Route::Create(_) => "POST".spec_bytes(),
            crate::goal::books::Route::Destroy(_) => "DELETE".spec_bytes(),
            crate::goal::books::Route::Update(_) => "PUT".spec_bytes(),
            _ => "GET".spec_bytes(),
        },
        crate::goal::Route::People(p) => match p {
            crate::goal::people::Route::Create(_) => "POST".spec_bytes(),
            crate::goal::people::Route::Destroy(_) => "DELETE".spec_bytes(),
            crate::goal::people::Route::Update(_) => "PUT".spec_bytes(),
            _ => "GET".spec_bytes(),
        },
    }
}

/// What the identifier crate's wrapper states of a rendered identifier: it
/// is thirty-six characters, holds no separator, and parses back.
pub open spec fn uuid_facts(v: u128) -> bool {
    &&& crate::matching::uuid_str(v).len() == 36
    &&& (forall|i: int|
        0 <= i < crate::matching::uuid_str(v).len() ==> (
        #[trigger] crate::matching::uuid_str(v)[i]) as u8 != sep())
    &&& crate::matching::uuid_of(crate::matching::ascii_bytes(crate::matching::uuid_str(v)))
        == Some(v)
}

/// The identifier a sample route carries, where it carries one.
pub open spec fn goal_route_id_ok(rt: crate::goal::Route) -> bool {
    match rt {
        crate::goal::Route::Books(b) => match b {
            crate::goal::books::Route::Destroy(x) => uuid_facts(x.id),
            crate::goal::books::Route::Edit(x) => uuid_facts(x.id),
            crate::goal::books::Route::Show(x) => uuid_facts(x.id),
            crate::goal::books::Route::Update(x) => uuid_facts(x.id),
            _ => true,
        },
        crate::goal::Route::People(p) => match p {
            crate::goal::people::Route::Destroy(x) => uuid_facts(x.id),
            crate::goal::people::Route::Edit(x) => uuid_facts(x.id),
            crate::goal::people::Route::Show(x) => uuid_facts(x.id),
            crate::goal::people::Route::Update(x) => uuid_facts(x.id),
            _ => true,
        },
    }
}

/// Splitting a path of one named segment: the bytes after the leading
/// separator are exactly that segment.
proof fn lemma_one_seg(path: Seq<char>, word: &str)
    requires
        vstd::utf8::is_ascii_chars(word@),
        path.len() == word@.len() + 1,
        path[0] == '/',
        forall|i: int| 0 <= i < word@.len() ==> path[i + 1] == word@[i] && (#[trigger] word@[i])
            != '/',
    ensures
        split_seg(strip_lead(crate::matching::ascii_bytes(path))).0 == word.spec_bytes(),
        split_seg(strip_lead(crate::matching::ascii_bytes(path))).1 is None,
{
    reveal_strlit("/");
    let b = crate::matching::ascii_bytes(path);
    let wb = crate::matching::ascii_bytes(word@);
    assert(b[0] == '/' as u8);
    assert(b[0] == sep());
    let q = strip_lead(b);
    assert(q =~= wb);
    assert forall|k: int| 0 <= k < wb.len() implies wb[k] != sep() by {
        assert(wb[k] == word@[k] as u8);
        assert(word@[k] != '/');
        assert(word@[k] as u32 <= 127);
    }
    crate::matching::lemma_split_seg_scan(wb, wb.len() as int);
    assert(split_seg(wb).0 =~= wb);
    vstd::utf8::is_ascii_chars_encode_utf8(word@);
    assert(wb =~= word.spec_bytes());
}

/// Splitting a path whose rendered head names a segment: the head is that
/// segment and the rest follows its separator.
proof fn lemma_head_seg(path: Seq<char>, word: &str, tail: Seq<char>)
    requires
        vstd::utf8::is_ascii_chars(word@),
        path.len() == word@.len() + 2 + tail.len(),
        path[0] == '/',
        forall|i: int| 0 <= i < word@.len() ==> path[i + 1] == word@[i] && (#[trigger] word@[i])
            != '/',
        path[word@.len() as int + 1] == '/',
        forall|i: int| 0 <= i < tail.len() ==> path[word@.len() + 2 + i] == tail[i],
    ensures
        split_seg(strip_lead(crate::matching::ascii_bytes(path))).0 == word.spec_bytes(),
        split_seg(strip_lead(crate::matching::ascii_bytes(path))).1 == Some(
            crate::matching::ascii_bytes(tail),
        ),
{
    reveal_strlit("/");
    let b = crate::matching::ascii_bytes(path);
    assert(b[0] == '/' as u8);
    assert(b[0] == sep());
    let q = strip_lead(b);
    let wl = word@.len() as int;
    assert forall|k: int| 0 <= k < wl implies q[k] != sep() by {
        assert(q[k] == path[k + 1] as u8);
        assert(path[k + 1] == word@[k]);
        assert(word@[k] != '/');
        assert(word@[k] as u32 <= 127);
    }
    assert(q[wl] == path[wl + 1] as u8);
    assert(q[wl] == sep());
    crate::matching::lemma_split_seg_scan(q, wl);
    vstd::utf8::is_ascii_chars_encode_utf8(word@);
    assert(q.take(wl) =~= word.spec_bytes());
    assert(q.skip(wl + 1) =~= crate::matching::ascii_bytes(tail));
}

/// The four method literals are pairwise distinct as byte sequences.
proof fn lemma_methods_distinct()
    ensures
        "GET".spec_bytes() != "POST".spec_bytes(),
        "GET".spec_bytes() != "PUT".spec_bytes(),
        "GET".spec_bytes() != "DELETE".spec_bytes(),
        "POST".spec_bytes() != "PUT".spec_bytes(),
        "POST".spec_bytes() != "DELETE".spec_bytes(),
        "PUT".spec_bytes() != "DELETE".spec_bytes(),
{
    reveal_strlit("GET");
    reveal_strlit("POST");
    reveal_strlit("PUT");
    reveal_strlit("DELETE");
    vstd::utf8::is_ascii_chars_encode_utf8("GET"@);
    vstd::utf8::is_ascii_chars_encode_utf8("POST"@);
    vstd::utf8::is_ascii_chars_encode_utf8("PUT"@);
    vstd::utf8::is_ascii_chars_encode_utf8("DELETE"@);
    assert("GET".spec_bytes()[0] == 'G' as u8);
    assert("POST".spec_bytes()[0] == 'P' as u8);
    assert("PUT".spec_bytes()[0] == 'P' as u8);
    assert("PUT".spec_bytes()[1] == 'U' as u8);
    assert("POST".spec_bytes()[1] == 'O' as u8);
    assert("DELETE".spec_bytes().len() == 6);
    assert("GET".spec_bytes().len() == 3);
    assert("POST".spec_bytes().len() == 4);
    assert("PUT".spec_bytes().len() == 3);
}

/// Matching the rendered path of a sample route with the route's own
/// method yields that route back: the round trip through `to_path` is the
/// identity on the handler and its identifier, ignoring query parameters.
/// The identifier hypotheses are what the identifier crate states of its
/// hyphenated rendering.
#[verifier::rlimit(100)]
pub proof fn lemma_goal_round_trip(rt: crate::goal::Route)
    requires
        goal_route_id_ok(rt),
    ensures
        crate::goal::spec_match_route(
            crate::matching::ascii_bytes(goal_route_path(rt)),
            goal_route_method(rt),
        ) == crate::goal::GoalOut::Hit(crate::goal::spec_route_action(rt)),
{
    reveal_strlit("/");
    reveal_strlit("/books");
    reveal_strlit("/people");
    reveal_strlit("/books/");
    reveal_strlit("/people/");
    reveal_strlit("/books/new");
    reveal_strlit("/people/new");
    reveal_strlit("/edit");
    reveal_strlit("books");
    reveal_strlit("people");
    reveal_strlit("users");
    reveal_strlit("new");
    reveal_strlit("edit");
    lemma_methods_distinct();
    vstd::utf8::is_ascii_chars_encode_utf8("books"@);
    vstd::utf8::is_ascii_chars_encode_utf8("people"@);
    vstd::utf8::is_ascii_chars_encode_utf8("users"@);
    vstd::utf8::is_ascii_chars_encode_utf8("new"@);
    vstd::utf8::is_ascii_chars_encode_utf8("edit"@);
    assert("books".spec_bytes().len() == 5);
    assert("people".spec_bytes().len() == 6);
    assert("users".spec_bytes().len() == 5);
    assert("new".spec_bytes().len() == 3);
    match rt {
        crate::goal::Route::Books(b) => {
            lemma_goal_round_trip_books(b);
        },
        crate::goal::Route::People(p) => {
            lemma_goal_round_trip_people(p);
        },
    }
}


/// The round trip of the `books` routes of the sample matcher.
#[verifier::rlimit(100)]
proof fn lemma_goal_round_trip_books(b: crate::goal::books::Route)
    requires
        goal_route_id_ok(crate::goal::Route::Books(b)),
    ensures
        crate::goal::spec_match_route(
            crate::matching::ascii_bytes(goal_route_path(crate::goal::Route::Books(b))),
            goal_route_method(crate::goal::Route::Books(b)),
        ) == crate::goal::GoalOut::Hit(
            crate::goal::spec_route_action(crate::goal::Route::Books(b)),
        ),
{
    reveal_strlit("/");
    reveal_strlit("/books");
    reveal_strlit("/books/");
    reveal_strlit("/books/new");
    reveal_strlit("/edit");
    reveal_strlit("books");
    reveal_strlit("books");
    reveal_strlit("people");
    reveal_strlit("new");
    reveal_strlit("edit");
    lemma_methods_distinct();
    vstd::utf8::is_ascii_chars_encode_utf8("books"@);
    vstd::utf8::is_ascii_chars_encode_utf8("books"@);
    vstd::utf8::is_ascii_chars_encode_utf8("people"@);
    vstd::utf8::is_ascii_chars_encode_utf8("new"@);
    vstd::utf8::is_ascii_chars_encode_utf8("edit"@);
    assert("books".spec_bytes().len() == 5);
    assert("people".spec_bytes().len() == 6);
    assert("new".spec_bytes().len() == 3);
    assert("edit".spec_bytes().len() == 4);
    match b {
        crate::goal::books::Route::Index(_) => {
            lemma_one_seg("/books"@, "books");
        },
        crate::goal::books::Route::Create(_) => {
            lemma_one_seg("/books"@, "books");
        },
        crate::goal::books::Route::New(_) => {
            lemma_head_seg("/books/new"@, "books", "new"@);
            let x = crate::matching::ascii_bytes("new"@);
            assert forall|k: int| 0 <= k < x.len() implies x[k] != sep() by {
                assert(x[k] == "new"@[k] as u8);
            }
            crate::matching::lemma_split_seg_scan(x, x.len() as int);
            assert(split_seg(x).0 =~= x);
            assert(x =~= "new".spec_bytes());
        },
        crate::goal::books::Route::Show(rr) => {
            lemma_goal_books_id_seg(rr.id);
        },
        crate::goal::books::Route::Update(rr) => {
            lemma_goal_books_id_seg(rr.id);
        },
        crate::goal::books::Route::Destroy(rr) => {
            lemma_goal_books_id_seg(rr.id);
        },
        crate::goal::books::Route::Edit(rr) => {
            lemma_goal_books_edit_seg(rr.id);
        },
    }
}

/// Splitting the rendered `books/{id}` path.
#[verifier::rlimit(100)]
proof fn lemma_goal_books_id_seg(v: u128)
    requires
        uuid_facts(v),
    ensures
        split_seg(
            strip_lead(
                crate::matching::ascii_bytes("/books/"@ + crate::matching::uuid_str(v)),
            ),
        ).0 == "books".spec_bytes(),
        split_seg(
            strip_lead(
                crate::matching::ascii_bytes("/books/"@ + crate::matching::uuid_str(v)),
            ),
        ).1 == Some(crate::matching::ascii_bytes(crate::matching::uuid_str(v))),
        split_seg(crate::matching::ascii_bytes(crate::matching::uuid_str(v))).0
            == crate::matching::ascii_bytes(crate::matching::uuid_str(v)),
        split_seg(crate::matching::ascii_bytes(crate::matching::uuid_str(v))).1 is None,
        crate::matching::ascii_bytes(crate::matching::uuid_str(v)) != "new".spec_bytes(),
{
    reveal_strlit("/");
    reveal_strlit("/books/");
    reveal_strlit("books");
    reveal_strlit("new");
    vstd::utf8::is_ascii_chars_encode_utf8("books"@);
    vstd::utf8::is_ascii_chars_encode_utf8("new"@);
    let u = crate::matching::uuid_str(v);
    let path = "/books/"@ + u;
    assert forall|i: int| 0 <= i < u.len() implies path["books"@.len() + 2 + i]
        == u[i] by {
        assert(path["/books/"@.len() + i] == u[i]);
    }
    lemma_head_seg(path, "books", u);
    let ub = crate::matching::ascii_bytes(u);
    assert forall|k: int| 0 <= k < ub.len() implies ub[k] != sep() by {
        assert(ub[k] == u[k] as u8);
    }
    crate::matching::lemma_split_seg_scan(ub, ub.len() as int);
    assert(split_seg(ub).0 =~= ub);
    assert(ub.len() == 36);
    assert("new".spec_bytes().len() == 3);
}

/// Splitting the rendered `books/{id}/edit` path.
#[verifier::rlimit(100)]
proof fn lemma_goal_books_edit_seg(v: u128)
    requires
        uuid_facts(v),
    ensures
        split_seg(
            strip_lead(
                crate::matching::ascii_bytes(
                    "/books/"@ + crate::matching::uuid_str(v) + "/edit"@,
                ),
            ),
        ).0 == "books".spec_bytes(),
        split_seg(
            strip_lead(
                crate::matching::ascii_bytes(
                    "/books/"@ + crate::matching::uuid_str(v) + "/edit"@,
                ),
            ),
        ).1 == Some(
            crate::matching::ascii_bytes(crate::matching::uuid_str(v) + "/edit"@),
        ),
        split_seg(crate::matching::ascii_bytes(crate::matching::uuid_str(v) + "/edit"@)).0
            == crate::matching::ascii_bytes(crate::matching::uuid_str(v)),
        split_seg(crate::matching::ascii_bytes(crate::matching::uuid_str(v) + "/edit"@)).1
            == Some("edit".spec_bytes()),
        crate::matching::ascii_bytes(crate::matching::uuid_str(v)) != "new".spec_bytes(),
        split_seg("edit".spec_bytes()).0 == "edit".spec_bytes(),
        split_seg("edit".spec_bytes()).1 is None,
{
    reveal_strlit("/");
    reveal_strlit("/books/");
    reveal_strlit("/edit");
    reveal_strlit("books");
    reveal_strlit("new");
    reveal_strlit("edit");
    vstd::utf8::is_ascii_chars_encode_utf8("books"@);
    vstd::utf8::is_ascii_chars_encode_utf8("new"@);
    vstd::utf8::is_ascii_chars_encode_utf8("edit"@);
    let u = crate::matching::uuid_str(v);
    let tail = u + "/edit"@;
    let path = "/books/"@ + u + "/edit"@;
    assert forall|i: int| 0 <= i < tail.len() implies path["books"@.len() + 2 + i]
        == tail[i] by {
        if i < u.len() {
            assert(path["/books/"@.len() + i] == u[i]);
        } else {
            assert(path["/books/"@.len() + i] == "/edit"@[i - u.len()]);
        }
    }
    assert(path[0] == '/');
    lemma_head_seg(path, "books", tail);
    let tb = crate::matching::ascii_bytes(tail);
    assert forall|k: int| 0 <= k < 36 implies tb[k] != sep() by {
        assert(tb[k] == u[k] as u8);
    }
    assert(tail[36] == "/edit"@[0]);
    assert(tb[36] == '/' as u8);
    assert(tb[36] == sep());
    crate::matching::lemma_split_seg_scan(tb, 36);
    assert(tb.take(36) =~= crate::matching::ascii_bytes(u));
    let eb = tb.skip(37);
    assert forall|k: int| 0 <= k < eb.len() implies eb[k] == "edit"@[k] as u8 by {
        assert(tb[37 + k] == tail[37 + k] as u8);
        assert(tail[37 + k] == "/edit"@[k + 1]);
    }
    assert(eb =~= "edit".spec_bytes());
    let ebs = "edit".spec_bytes();
    assert forall|k: int| 0 <= k < ebs.len() implies ebs[k] != sep() by {
        assert(ebs[k] == "edit"@[k] as u8);
    }
    crate::matching::lemma_split_seg_scan(ebs, ebs.len() as int);
    assert(split_seg(ebs).0 =~= ebs);
    assert(crate::matching::ascii_bytes(u).len() == 36);
    assert("new".spec_bytes().len() == 3);
}

/// The round trip of the `people` routes of the sample matcher.
#[verifier::rlimit(100)]
proof fn lemma_goal_round_trip_people(b: crate::goal::people::Route)
    requires
        goal_route_id_ok(crate::goal::Route::People(b)),
    ensures
        crate::goal::spec_match_route(
            crate::matching::ascii_bytes(goal_route_path(crate::goal::Route::People(b))),
            goal_route_method(crate::goal::Route::People(b)),
        ) == crate::goal::GoalOut::Hit(
            crate::goal::spec_route_action(crate::goal::Route::People(b)),
        ),
{
    reveal_strlit("/");
    reveal_strlit("/people");
    reveal_strlit("/people/");
    reveal_strlit("/people/new");
    reveal_strlit("/edit");
    reveal_strlit("people");
    reveal_strlit("books");
    reveal_strlit("people");
    reveal_strlit("new");
    reveal_strlit("edit");
    lemma_methods_distinct();
    vstd::utf8::is_ascii_chars_encode_utf8("people"@);
    vstd::utf8::is_ascii_chars_encode_utf8("books"@);
    vstd::utf8::is_ascii_chars_encode_utf8("people"@);
    vstd::utf8::is_ascii_chars_encode_utf8("new"@);
    vstd::utf8::is_ascii_chars_encode_utf8("edit"@);
    assert("books".spec_bytes().len() == 5);
    assert("people".spec_bytes().len() == 6);
    assert("new".spec_bytes().len() == 3);
    assert("edit".spec_bytes().len() == 4);
    match b {
        crate::goal::people::Route::Index(_) => {
            lemma_one_seg("/people"@, "people");
        },
        crate::goal::people::Route::Create(_) => {
            lemma_one_seg("/people"@, "people");
        },
        crate::goal::people::Route::New(_) => {
            lemma_head_seg("/people/new"@, "people", "new"@);
            let x = crate::matching::ascii_bytes("new"@);
            assert forall|k: int| 0 <= k < x.len() implies x[k] != sep() by {
                assert(x[k] == "new"@[k] as u8);
            }
            crate::matching::lemma_split_seg_scan(x, x.len() as int);
            assert(split_seg(x).0 =~= x);
            assert(x =~= "new".spec_bytes());
        },
        crate::goal::people::Route::Show(rr) => {
            lemma_goal_people_id_seg(rr.id);
        },
        crate::goal::people::Route::Update(rr) => {
            lemma_goal_people_id_seg(rr.id);
        },
        crate::goal::people::Route::Destroy(rr) => {
            lemma_goal_people_id_seg(rr.id);
        },
        crate::goal::people::Route::Edit(rr) => {
            lemma_goal_people_edit_seg(rr.id);
        },
    }
}

/// Splitting the rendered `people/{id}` path.
#[verifier::rlimit(100)]
proof fn lemma_goal_people_id_seg(v: u128)
    requires
        uuid_facts(v),
    ensures
        split_seg(
            strip_lead(
                crate::matching::ascii_bytes("/people/"@ + crate::matching::uuid_str(v)),
            ),
        ).0 == "people".spec_bytes(),
        split_seg(
            strip_lead(
                crate::matching::ascii_bytes("/people/"@ + crate::matching::uuid_str(v)),
            ),
        ).1 == Some(crate::matching::ascii_bytes(crate::matching::uuid_str(v))),
        split_seg(crate::matching::ascii_bytes(crate::matching::uuid_str(v))).0
            == crate::matching::ascii_bytes(crate::matching::uuid_str(v)),
        split_seg(crate::matching::ascii_bytes(crate::matching::uuid_str(v))).1 is None,
        crate::matching::ascii_bytes(crate::matching::uuid_str(v)) != "new".spec_bytes(),
{
    reveal_strlit("/");
    reveal_strlit("/people/");
    reveal_strlit("people");
    reveal_strlit("new");
    vstd::utf8::is_ascii_chars_encode_utf8("people"@);
    vstd::utf8::is_ascii_chars_encode_utf8("new"@);
    let u = crate::matching::uuid_str(v);
    let path = "/people/"@ + u;
    assert forall|i: int| 0 <= i < u.len() implies path["people"@.len() + 2 + i]
        == u[i] by {
        assert(path["/people/"@.len() + i] == u[i]);
    }
    lemma_head_seg(path, "people", u);
    let ub = crate::matching::ascii_bytes(u);
    assert forall|k: int| 0 <= k < ub.len() implies ub[k] != sep() by {
        assert(ub[k] == u[k] as u8);
    }
    crate::matching::lemma_split_seg_scan(ub, ub.len() as int);
    assert(split_seg(ub).0 =~= ub);
    assert(ub.len() == 36);
    assert("new".spec_bytes().len() == 3);
}

/// Splitting the rendered `people/{id}/edit` path.
#[verifier::rlimit(100)]
proof fn lemma_goal_people_edit_seg(v: u128)
    requires
        uuid_facts(v),
    ensures
        split_seg(
            strip_lead(
                crate::matching::ascii_bytes(
                    "/people/"@ + crate::matching::uuid_str(v) + "/edit"@,
                ),
            ),
        ).0 == "people".spec_bytes(),
        split_seg(
            strip_lead(
                crate::matching::ascii_bytes(
                    "/people/"@ + crate::matching::uuid_str(v) + "/edit"@,
                ),
            ),
        ).1 == Some(
            crate::matching::ascii_bytes(crate::matching::uuid_str(v) + "/edit"@),
        ),
        split_seg(crate::matching::ascii_bytes(crate::matching::uuid_str(v) + "/edit"@)).0
            == crate::matching::ascii_bytes(crate::matching::uuid_str(v)),
        split_seg(crate::matching::ascii_bytes(crate::matching::uuid_str(v) + "/edit"@)).1
            == Some("edit".spec_bytes()),
        crate::matching::ascii_bytes(crate::matching::uuid_str(v)) != "new".spec_bytes(),
        split_seg("edit".spec_bytes()).0 == "edit".spec_bytes(),
        split_seg("edit".spec_bytes()).1 is None,
{
    reveal_strlit("/");
    reveal_strlit("/people/");
    reveal_strlit("/edit");
    reveal_strlit("people");
    reveal_strlit("new");
    reveal_strlit("edit");
    vstd::utf8::is_ascii_chars_encode_utf8("people"@);
    vstd::utf8::is_ascii_chars_encode_utf8("new"@);
    vstd::utf8::is_ascii_chars_encode_utf8("edit"@);
    let u = crate::matching::uuid_str(v);
    let tail = u + "/edit"@;
    let path = "/people/"@ + u + "/edit"@;
    assert forall|i: int| 0 <= i < tail.len() implies path["people"@.len() + 2 + i]
        == tail[i] by {
        if i < u.len() {
            assert(path["/people/"@.len() + i] == u[i]);
        } else {
            assert(path["/people/"@.len() + i] == "/edit"@[i - u.len()]);
        }
    }
    assert(path[0] == '/');
    lemma_head_seg(path, "people", tail);
    let tb = crate::matching::ascii_bytes(tail);
    assert forall|k: int| 0 <= k < 36 implies tb[k] != sep() by {
        assert(tb[k] == u[k] as u8);
    }
    assert(tail[36] == "/edit"@[0]);
    assert(tb[36] == '/' as u8);
    assert(tb[36] == sep());
    crate::matching::lemma_split_seg_scan(tb, 36);
    assert(tb.take(36) =~= crate::matching::ascii_bytes(u));
    let eb = tb.skip(37);
    assert forall|k: int| 0 <= k < eb.len() implies eb[k] == "edit"@[k] as u8 by {
        assert(tb[37 + k] == tail[37 + k] as u8);
        assert(tail[37 + k] == "/edit"@[k + 1]);
    }
    assert(eb =~= "edit".spec_bytes());
    let ebs = "edit".spec_bytes();
    assert forall|k: int| 0 <= k < ebs.len() implies ebs[k] != sep() by {
        assert(ebs[k] == "edit"@[k] as u8);
    }
    crate::matching::lemma_split_seg_scan(ebs, ebs.len() as int);
    assert(split_seg(ebs).0 =~= ebs);
    assert(crate::matching::ascii_bytes(u).len() == 36);
    assert("new".spec_bytes().len() == 3);
}


/// Below `people`, a second segment that names the static `new` route is
/// never handed to the identifier capture: the static match wins.
pub proof fn lemma_goal_static_wins(r: Option<Seq<u8>>, m: Seq<u8>)
    requires
        !crate::matching::at_end(r),
        split_seg(r->Some_0).0 == "new".spec_bytes(),
    ensures
        !(crate::goal::spec_people(r, m) matches crate::goal::GoalOut::Rejected(_)),
        !(crate::goal::spec_people(r, m) matches crate::goal::GoalOut::Hit(
            crate::goal::GoalAction::PeopleShow(_),
        )),
        !(crate::goal::spec_people(r, m) matches crate::goal::GoalOut::Hit(
            crate::goal::GoalAction::PeopleUpdate(_),
        )),
        !(crate::goal::spec_people(r, m) matches crate::goal::GoalOut::Hit(
            crate::goal::GoalAction::PeopleDestroy(_),
        )),
        !(crate::goal::spec_people(r, m) matches crate::goal::GoalOut::Hit(
            crate::goal::GoalAction::PeopleEdit(_),
        )),
{
}

} // verus!
