//! Flattening: from the configuration tree to path-indexed route records
//! and a handler-indexed module hierarchy.
//!
//! A flattened path is expanded into a sequence of `Charlike` symbols — one
//! static symbol per character, one dynamic symbol per capture, a separator
//! after every segment — and those sequences key the matching trie.

use vstd::prelude::*;

use crate::config::{
    Method, Param, ParamV, PathSegment, PathSegmentV, Resource, ResourceV, Routes, RoutesV,
    NestedRoutesV, dup_params, dup_resources, dup_segments, dup_strings,
};
use crate::trie::Trie;

verus! {

/// The three-valued symbol alphabet of the matching trie.
#[derive(Debug, PartialEq, Eq)]
pub enum Charlike {
    Static(char),
    Dynamic(String),
    Separator,
}

/// The mathematical value of a `Charlike` symbol.
pub ghost enum CharlikeV {
    Static(char),
    Dynamic(Seq<char>),
    Separator,
}

impl View for Charlike {
    type V = CharlikeV;

    open spec fn view(&self) -> CharlikeV {
        match self {
            Charlike::Static(c) => CharlikeV::Static(*c),
            Charlike::Dynamic(n) => CharlikeV::Dynamic(n@),
            Charlike::Separator => CharlikeV::Separator,
        }
    }
}

/// Strict lexicographic order on character sequences, by code point.
pub open spec fn spec_str_lt(a: Seq<char>, b: Seq<char>) -> bool
    decreases a.len(),
{
    if b.len() == 0 {
        false
    } else if a.len() == 0 {
        true
    } else if a[0] != b[0] {
        (a[0] as int) < (b[0] as int)
    } else {
        spec_str_lt(a.drop_first(), b.drop_first())
    }
}

/// The strict total order on symbols: static before dynamic before
/// separator, then by payload.
pub open spec fn spec_charlike_lt(a: CharlikeV, b: CharlikeV) -> bool {
    match (a, b) {
        (CharlikeV::Static(x), CharlikeV::Static(y)) => (x as int) < (y as int),
        (CharlikeV::Static(_), _) => true,
        (CharlikeV::Dynamic(_), CharlikeV::Static(_)) => false,
        (CharlikeV::Dynamic(x), CharlikeV::Dynamic(y)) => spec_str_lt(x, y),
        (CharlikeV::Dynamic(_), CharlikeV::Separator) => true,
        (CharlikeV::Separator, _) => false,
    }
}

impl Charlike {
    /// An owned copy of the symbol with the same value.
    pub fn duplicate(&self) -> (r: Charlike)
        ensures
            r@ == self@,
    {
        match self {
            Charlike::Static(c) => Charlike::Static(*c),
            Charlike::Dynamic(n) => Charlike::Dynamic(n.clone()),
            Charlike::Separator => Charlike::Separator,
        }
    }
}

/// Whether two symbols carry the same value.
pub fn charlike_eq(a: &Charlike, b: &Charlike) -> (r: bool)
    ensures
        r == (a@ == b@),
{
    match (a, b) {
        (Charlike::Static(x), Charlike::Static(y)) => *x == *y,
        (Charlike::Dynamic(x), Charlike::Dynamic(y)) => {
            let r = str_eq(x.as_str(), y.as_str());
            r
        },
        (Charlike::Separator, Charlike::Separator) => true,
        _ => false,
    }
}

/// Whether one symbol orders strictly before another.
pub fn charlike_lt(a: &Charlike, b: &Charlike) -> (r: bool)
    ensures
        r == spec_charlike_lt(a@, b@),
{
    match (a, b) {
        (Charlike::Static(x), Charlike::Static(y)) => (*x as u32) < (*y as u32),
        (Charlike::Static(_), _) => true,
        (Charlike::Dynamic(_), Charlike::Static(_)) => false,
        (Charlike::Dynamic(x), Charlike::Dynamic(y)) => str_lt(x.as_str(), y.as_str()),
        (Charlike::Dynamic(_), Charlike::Separator) => true,
        (Charlike::Separator, _) => false,
    }
}

/// Whether two string slices hold the same characters.
pub fn str_eq(a: &str, b: &str) -> (r: bool)
    ensures
        r == (a@ == b@),
{
    let an = a.unicode_len();
    let bn = b.unicode_len();
    if an != bn {
        return false;
    }
    let mut i: usize = 0;
    while i < an
        invariant
            an == a@.len(),
            an == b@.len(),
            i <= an,
            forall|k: int| 0 <= k < i ==> a@[k] == b@[k],
        decreases an - i,
    {
        if a.get_char(i) != b.get_char(i) {
            return false;
        }
        i = i + 1;
    }
    proof {
        assert(a@ =~= b@);
    }
    true
}

/// Whether one string slice orders lexicographically before another.
pub fn str_lt(a: &str, b: &str) -> (r: bool)
    ensures
        r == spec_str_lt(a@, b@),
{
    let an = a.unicode_len();
    let bn = b.unicode_len();
    proof {
        assert(a@.skip(0) =~= a@);
        assert(b@.skip(0) =~= b@);
    }
    let mut i: usize = 0;
    while i < an && i < bn
        invariant
            an == a@.len(),
            bn == b@.len(),
            i <= an,
            i <= bn,
            forall|k: int| 0 <= k < i ==> a@[k] == b@[k],
            spec_str_lt(a@, b@) == spec_str_lt(a@.skip(i as int), b@.skip(i as int)),
        decreases an - i,
    {
        let ca = a.get_char(i);
        let cb = b.get_char(i);
        if ca != cb {
            proof {
                assert(a@.skip(i as int)[0] == ca);
                assert(b@.skip(i as int)[0] == cb);
            }
            return (ca as u32) < (cb as u32);
        }
        proof {
            assert(a@.skip(i as int).drop_first() =~= a@.skip(i + 1));
            assert(b@.skip(i as int).drop_first() =~= b@.skip(i + 1));
        }
        i = i + 1;
    }
    proof {
        assert(a@.skip(i as int).len() == an - i);
        assert(b@.skip(i as int).len() == bn - i);
    }
    an < bn
}

/// A path from the root of the configuration tree to one of its nodes.
#[derive(Debug)]
pub struct FlattenedPath {
    pub segments: Vec<PathSegment>,
}

impl View for FlattenedPath {
    type V = Seq<PathSegmentV>;

    open spec fn view(&self) -> Seq<PathSegmentV> {
        self.segments@.map_values(|s: PathSegment| s@)
    }
}

/// The static symbol carrying one character.
pub open spec fn spec_char_sym(c: char) -> CharlikeV {
    CharlikeV::Static(c)
}

/// The values of a list of symbols.
pub open spec fn spec_charlike_views(s: Seq<Charlike>) -> Seq<CharlikeV>
    decreases s.len(),
{
    if s.len() == 0 {
        Seq::empty()
    } else {
        spec_charlike_views(s.drop_last()).push(s.last()@)
    }
}

/// The static symbols of a static segment's characters, in order.
pub open spec fn spec_static_syms(t: Seq<char>) -> Seq<CharlikeV>
    decreases t.len(),
{
    if t.len() == 0 {
        Seq::empty()
    } else {
        spec_static_syms(t.drop_last()).push(spec_char_sym(t.last()))
    }
}

/// The symbol expansion of one path segment: each character of a static
/// segment, or the dynamic capture, followed by a separator.
pub open spec fn spec_segment_charlikes(s: PathSegmentV) -> Seq<CharlikeV> {
    match s {
        PathSegmentV::Static(t) => spec_static_syms(t).push(CharlikeV::Separator),
        PathSegmentV::Dynamic(p) => seq![CharlikeV::Dynamic(p.name), CharlikeV::Separator],
    }
}

/// The symbol expansion of a whole path, segment by segment.
pub open spec fn spec_path_charlikes(path: Seq<PathSegmentV>) -> Seq<CharlikeV>
    decreases path.len(),
{
    if path.len() == 0 {
        Seq::empty()
    } else {
        spec_path_charlikes(path.drop_last()) + spec_segment_charlikes(path.last())
    }
}

/// The dynamic parameters of a path, in order.
pub open spec fn spec_path_dynamics(path: Seq<PathSegmentV>) -> Seq<ParamV>
    decreases path.len(),
{
    if path.len() == 0 {
        Seq::empty()
    } else {
        spec_path_dynamics(path.drop_last()) + (match path.last() {
            PathSegmentV::Dynamic(p) => seq![p],
            PathSegmentV::Static(_) => Seq::empty(),
        })
    }
}

impl FlattenedPath {
    /// The path's symbol expansion, in trie key order.
    pub fn iter(&self) -> (r: Vec<Charlike>)
        ensures
            spec_charlike_views(r@) == spec_path_charlikes(self@),
    {
        let mut out: Vec<Charlike> = Vec::new();
        let ghost segs = self@;
        proof {
            assert(segs.take(0) =~= Seq::<PathSegmentV>::empty());
            assert(spec_charlike_views(out@) =~= spec_path_charlikes(segs.take(0)));
        }
        let mut i: usize = 0;
        while i < self.segments.len()
            invariant
                i <= self.segments.len(),
                self.segments@.map_values(|s: PathSegment| s@) == segs,
                spec_charlike_views(out@) == spec_path_charlikes(segs.take(i as int)),
            decreases self.segments.len() - i,
        {
            let ghost before = out@;
            match &self.segments[i] {
                PathSegment::Static(t) => {
                    let text = t.as_str();
                    let n = text.unicode_len();
                    proof {
                        assert(text@.take(0) =~= Seq::<char>::empty());
                        assert(spec_charlike_views(out@) =~= spec_charlike_views(before)
                            + spec_static_syms(text@.take(0)));
                    }
                    let mut j: usize = 0;
                    while j < n
                        invariant
                            j <= n,
                            n == text@.len(),
                            i < self.segments@.len(),
                            text@ == self.segments@[i as int]@->Static_0,
                            spec_charlike_views(out@) == spec_charlike_views(before)
                                + spec_static_syms(text@.take(j as int)),
                        decreases n - j,
                    {
                        let ghost prev = out@;
                        let c = text.get_char(j);
                        out.push(Charlike::Static(c));
                        proof {
                            assert(out@.drop_last() =~= prev);
                            assert(text@.take(j + 1).drop_last() =~= text@.take(j as int));
                            assert(spec_charlike_views(out@) =~= spec_charlike_views(before)
                                + spec_static_syms(text@.take(j + 1)));
                        }
                        j = j + 1;
                    }
                    let ghost mid = out@;
                    out.push(Charlike::Separator);
                    proof {
                        assert(out@.drop_last() =~= mid);
                        assert(text@.take(n as int) =~= text@);
                        assert(segs[i as int] == self.segments@[i as int]@);
                        assert(spec_charlike_views(mid) == spec_charlike_views(before)
                            + spec_static_syms(text@));
                        assert(self.segments@[i as int]@ is Static);
                        assert(spec_segment_charlikes(segs[i as int]) == spec_static_syms(
                            text@,
                        ).push(CharlikeV::Separator));
                        assert(spec_charlike_views(out@) =~= (spec_charlike_views(before)
                            + spec_static_syms(text@)).push(CharlikeV::Separator));
                        assert((spec_charlike_views(before) + spec_static_syms(text@)).push(
                            CharlikeV::Separator,
                        ) =~= spec_charlike_views(before) + spec_static_syms(text@).push(
                            CharlikeV::Separator,
                        ));
                        assert(spec_charlike_views(before) + spec_segment_charlikes(
                            segs[i as int],
                        ) =~= spec_charlike_views(before) + spec_static_syms(text@).push(
                            CharlikeV::Separator,
                        ));
                        assert(spec_charlike_views(out@) == spec_charlike_views(before)
                            + spec_segment_charlikes(segs[i as int]));
                    }
                },
                PathSegment::Dynamic(p) => {
                    let ghost prev0 = out@;
                    out.push(Charlike::Dynamic(p.name.clone()));
                    let ghost prev1 = out@;
                    out.push(Charlike::Separator);
                    proof {
                        assert(prev1.drop_last() =~= prev0);
                        assert(out@.drop_last() =~= prev1);
                        assert(segs[i as int] == self.segments@[i as int]@);
                        assert(self.segments@[i as int]@ is Dynamic);
                        assert(spec_segment_charlikes(segs[i as int]) == seq![
                            CharlikeV::Dynamic(p@.name),
                            CharlikeV::Separator,
                        ]);
                        assert(spec_charlike_views(prev1) =~= spec_charlike_views(before).push(
                            CharlikeV::Dynamic(p@.name),
                        ));
                        assert(spec_charlike_views(out@) =~= spec_charlike_views(before) + seq![
                            CharlikeV::Dynamic(p@.name),
                            CharlikeV::Separator,
                        ]);
                        assert(spec_charlike_views(before) + spec_segment_charlikes(
                            segs[i as int],
                        ) =~= spec_charlike_views(before) + seq![
                            CharlikeV::Dynamic(p@.name),
                            CharlikeV::Separator,
                        ]);
                        assert(spec_charlike_views(out@) == spec_charlike_views(before)
                            + spec_segment_charlikes(segs[i as int]));
                    }
                },
            }
            proof {
                assert(segs.take(i + 1).drop_last() =~= segs.take(i as int));
                assert(spec_charlike_views(out@) =~= spec_path_charlikes(segs.take(i + 1)));
            }
            i = i + 1;
        }
        proof {
            assert(segs.take(self.segments@.len() as int) =~= segs);
        }
        out
    }

    /// The dynamic parameters of the path, in order.
    pub fn dynamics(&self) -> (r: Vec<Param>)
        ensures
            r@.map_values(|p: Param| p@) == spec_path_dynamics(self@),
    {
        let mut out: Vec<Param> = Vec::new();
        let ghost segs = self@;
        proof {
            assert(segs.take(0) =~= Seq::<PathSegmentV>::empty());
            assert(out@.map_values(|p: Param| p@) =~= spec_path_dynamics(segs.take(0)));
        }
        let mut i: usize = 0;
        while i < self.segments.len()
            invariant
                i <= self.segments.len(),
                self.segments@.map_values(|s: PathSegment| s@) == segs,
                out@.map_values(|p: Param| p@) == spec_path_dynamics(segs.take(i as int)),
            decreases self.segments.len() - i,
        {
            match &self.segments[i] {
                PathSegment::Static(_) => {
                },
                PathSegment::Dynamic(p) => {
                    out.push(Param { name: p.name.clone(), typ: p.typ.clone() });
                },
            }
            proof {
                assert(segs.take(i + 1).drop_last() =~= segs.take(i as int));
                assert(out@.map_values(|p: Param| p@) =~= spec_path_dynamics(segs.take(i + 1)));
            }
            i = i + 1;
        }
        proof {
            assert(segs.take(self.segments@.len() as int) =~= segs);
        }
        out
    }
}



/// Whether every dynamic symbol of a key sequence is immediately followed
/// by a separator, as every path expansion has it.
pub open spec fn expansion_shaped(ks: Seq<CharlikeV>) -> bool {
    forall|i: int|
        0 <= i < ks.len() ==> ((#[trigger] ks[i]) is Dynamic ==> i + 1 < ks.len() && ks[i + 1]
            is Separator)
}

/// A path's symbol expansion is shaped: captures are followed by
/// separators, and a non-empty expansion ends with a separator.
pub proof fn lemma_path_charlikes_shaped(path: Seq<PathSegmentV>)
    ensures
        expansion_shaped(spec_path_charlikes(path)),
        spec_path_charlikes(path).len() > 0 ==> spec_path_charlikes(path).last() is Separator,
    decreases path.len(),
{
    if path.len() > 0 {
        lemma_path_charlikes_shaped(path.drop_last());
        let a = spec_path_charlikes(path.drop_last());
        let b = spec_segment_charlikes(path.last());
        assert(expansion_shaped(b) && b.len() > 0 && b.last() is Separator) by {
            match path.last() {
                PathSegmentV::Static(t) => {
                    lemma_static_syms_not_dynamic(t);
                },
                PathSegmentV::Dynamic(_) => {},
            }
        }
        assert forall|i: int| 0 <= i < (a + b).len() implies (((#[trigger] (a + b)[i]) is Dynamic)
            ==> i + 1 < (a + b).len() && (a + b)[i + 1] is Separator) by {
            if i < a.len() {
                assert((a + b)[i] == a[i]);
                if a[i] is Dynamic {
                    assert(i + 1 < a.len());
                    assert((a + b)[i + 1] == a[i + 1]);
                }
            } else {
                assert((a + b)[i] == b[i - a.len()]);
                if b[i - a.len()] is Dynamic {
                    assert((a + b)[i + 1] == b[i + 1 - a.len()]);
                }
            }
        }
    }
}

/// The static symbols of a segment are never dynamic, and never empty as a
/// block: each is a plain character symbol.
proof fn lemma_static_syms_not_dynamic(t: Seq<char>)
    ensures
        forall|i: int|
            0 <= i < spec_static_syms(t).len() ==> !((#[trigger] spec_static_syms(t)[i])
                is Dynamic),
        spec_static_syms(t).len() == t.len(),
    decreases t.len(),
{
    if t.len() > 0 {
        lemma_static_syms_not_dynamic(t.drop_last());
    }
}

/// One record per configuration-tree node: the node's path, its resources,
/// and the query parameters inherited from the root down to it.
#[derive(Debug)]
pub struct FlattenedRoute {
    pub path: FlattenedPath,
    pub resources: Vec<Resource>,
    pub query_parameters: Vec<Param>,
}

/// The mathematical value of a `FlattenedRoute`.
pub ghost struct FlattenedRouteV {
    pub path: Seq<PathSegmentV>,
    pub resources: Seq<ResourceV>,
    pub query_parameters: Seq<ParamV>,
}

impl View for FlattenedRoute {
    type V = FlattenedRouteV;

    open spec fn view(&self) -> FlattenedRouteV {
        FlattenedRouteV {
            path: self.path@,
            resources: self.resources@.map_values(|x: Resource| x@),
            query_parameters: self.query_parameters@.map_values(|p: Param| p@),
        }
    }
}

/// The flattened records of a routes block: one for the block's own node,
/// then those of its nested blocks, in declaration order.
pub open spec fn spec_flatten(r: RoutesV, path: Seq<PathSegmentV>, qps: Seq<ParamV>) -> Seq<
    FlattenedRouteV,
>
    decreases r,
{
    seq![
        FlattenedRouteV {
            path: path,
            resources: r.resources,
            query_parameters: qps + r.query_parameters,
        },
    ] + spec_flatten_children(r.routes, path, qps + r.query_parameters)
}

/// The flattened records of a list of nested blocks, in declaration order.
pub open spec fn spec_flatten_children(
    ns: Seq<NestedRoutesV>,
    path: Seq<PathSegmentV>,
    qps: Seq<ParamV>,
) -> Seq<FlattenedRouteV>
    decreases ns,
{
    if ns.len() == 0 {
        Seq::empty()
    } else {
        spec_flatten_children(ns.drop_last(), path, qps) + spec_flatten(
            ns.last().routes,
            path.push(ns.last().path_segment),
            qps,
        )
    }
}

/// All flattened records of a configuration's route tree, in depth-first
/// pre-order.
pub struct FlattenedRoutes {
    pub routes: Vec<FlattenedRoute>,
}

impl View for FlattenedRoutes {
    type V = Seq<FlattenedRouteV>;

    open spec fn view(&self) -> Seq<FlattenedRouteV> {
        self.routes@.map_values(|fr: FlattenedRoute| fr@)
    }
}

impl FlattenedRoutes {
    /// Flatten a whole route tree, starting from an empty path with no
    /// inherited query parameters.
    pub fn from_routes(routes: &Routes) -> (r: FlattenedRoutes)
        ensures
            r@ == spec_flatten(routes@, Seq::<PathSegmentV>::empty(), Seq::<ParamV>::empty()),
    {
        let empty_path: Vec<PathSegment> = Vec::new();
        let empty_qps: Vec<Param> = Vec::new();
        proof {
            assert(empty_path@.map_values(|s: PathSegment| s@) =~= Seq::<PathSegmentV>::empty());
            assert(empty_qps@.map_values(|p: Param| p@) =~= Seq::<ParamV>::empty());
        }
        let flat = Self::flatten(routes, empty_path, empty_qps);
        FlattenedRoutes { routes: flat }
    }

    /// Flatten one routes block that sits at the given path with the given
    /// inherited query parameters.
    pub fn flatten(routes: &Routes, path: Vec<PathSegment>, query_parameters: Vec<Param>) -> (r:
        Vec<FlattenedRoute>)
        ensures
            r@.map_values(|fr: FlattenedRoute| fr@) == spec_flatten(
                routes@,
                path@.map_values(|s: PathSegment| s@),
                query_parameters@.map_values(|p: Param| p@),
            ),
        decreases *routes,
    {
        let ghost pathv = path@.map_values(|s: PathSegment| s@);
        let ghost qps0 = query_parameters@.map_values(|p: Param| p@);
        let mut qps = query_parameters;
        let ghost qn0 = qps@.len();
        let mut i: usize = 0;
        while i < routes.query_parameters.len()
            invariant
                i <= routes.query_parameters@.len(),
                qps@.len() == qn0 + i,
                forall|k: int| 0 <= k < qn0 + i ==> (#[trigger] qps@[k])@ == (qps0 + routes@
                    .query_parameters)[k],
                qps0.len() == qn0,
                qps0 == query_parameters@.map_values(|p: Param| p@),
                routes@.query_parameters.len() == routes.query_parameters@.len(),
                forall|k: int|
                    0 <= k < routes.query_parameters@.len() ==> routes@.query_parameters[k] == (
                    #[trigger] routes.query_parameters@[k])@,
            decreases routes.query_parameters@.len() - i,
        {
            qps.push(routes.query_parameters[i].duplicate());
            i = i + 1;
        }
        let ghost qpsv = qps0 + routes@.query_parameters;
        proof {
            assert(qps@.map_values(|p: Param| p@) =~= qpsv);
        }
        let mut out: Vec<FlattenedRoute> = Vec::new();
        out.push(
            FlattenedRoute {
                path: FlattenedPath { segments: dup_segments(&path) },
                resources: dup_resources(&routes.resources),
                query_parameters: dup_params(&qps),
            },
        );
        let ghost head = seq![
            FlattenedRouteV { path: pathv, resources: routes@.resources, query_parameters: qpsv },
        ];
        proof {
            assert(out@.map_values(|fr: FlattenedRoute| fr@) =~= head + spec_flatten_children(
                routes@.routes.take(0),
                pathv,
                qpsv,
            ));
        }
        proof {
            crate::config::lemma_nested_list_view_elementwise(routes.routes@);
        }
        let mut k: usize = 0;
        while k < routes.routes.len()
            invariant
                k <= routes.routes@.len(),
                routes@.routes.len() == routes.routes@.len(),
                pathv == path@.map_values(|s: PathSegment| s@),
                forall|j: int|
                    0 <= j < routes.routes@.len() ==> routes@.routes[j] == crate::config
                        ::spec_nested_view(#[trigger] routes.routes@[j]),
                qps@.map_values(|p: Param| p@) == qpsv,
                out@.map_values(|fr: FlattenedRoute| fr@) == head + spec_flatten_children(
                    routes@.routes.take(k as int),
                    pathv,
                    qpsv,
                ),
            decreases routes.routes@.len() - k,
        {
            let child = &routes.routes[k];
            let mut new_path = dup_segments(&path);
            new_path.push(child.path_segment.duplicate());
            proof {
                assert(new_path@.map_values(|s: PathSegment| s@) =~= pathv.push(
                    routes@.routes[k as int].path_segment,
                ));
            }
            let mut sub = Self::flatten(&child.routes, new_path, dup_params(&qps));
            let ghost subv = sub@.map_values(|fr: FlattenedRoute| fr@);
            let ghost prev = out@;
            out.append(&mut sub);
            proof {
                assert(routes@.routes.take(k + 1).drop_last() =~= routes@.routes.take(k as int));
                assert(out@.map_values(|fr: FlattenedRoute| fr@) =~= prev.map_values(
                    |fr: FlattenedRoute| fr@,
                ) + subv);
                assert(out@.map_values(|fr: FlattenedRoute| fr@) =~= head + spec_flatten_children(
                    routes@.routes.take(k + 1),
                    pathv,
                    qpsv,
                ));
            }
            k = k + 1;
        }
        proof {
            assert(routes@.routes.take(routes@.routes.len() as int) =~= routes@.routes);
        }
        out
    }

    /// The flattened records, in order.
    pub fn iter(&self) -> (r: &Vec<FlattenedRoute>)
        ensures
            r@.map_values(|fr: FlattenedRoute| fr@) == self@,
    {
        &self.routes
    }

    /// Merge every record into a trie keyed by its path's symbol expansion.
    /// Fails only when two records share an expansion, which distinct
    /// configuration nodes with distinct segment lists never do.
    pub fn to_trie(&self) -> (r: Option<Trie<FlattenedRoute>>)
        ensures
            match r {
                Some(t) => {
                    &&& t.wf()
                    &&& crate::trie::dyn_sep_wf(t)
                    &&& forall|i: int|
                        0 <= i < self@.len() ==> (#[trigger] t.spec_lookup(
                            spec_path_charlikes(self@[i].path),
                        )) is Some
                    &&& forall|i: int|
                        0 <= i < self@.len() ==> (#[trigger] t.spec_lookup(
                            spec_path_charlikes(self@[i].path),
                        ))->Some_0@ == self@[i]
                    &&& forall|q: Seq<CharlikeV>|
                        (#[trigger] t.spec_lookup(q)) is Some ==> exists|i: int|
                            0 <= i < self@.len() && q == spec_path_charlikes(self@[i].path)
                    &&& forall|i: int, j: int|
                        0 <= i < j < self@.len() ==> #[trigger] spec_path_charlikes(self@[i].path)
                            != #[trigger] spec_path_charlikes(self@[j].path)
                },
                None => exists|i: int, j: int|
                    0 <= i < j < self@.len() && #[trigger] spec_path_charlikes(self@[i].path)
                        == #[trigger] spec_path_charlikes(self@[j].path),
            },
    {
        let mut t: Trie<FlattenedRoute> = Trie::new();
        let n = self.routes.len();
        let mut i: usize = 0;
        while i < n
            invariant
                n == self.routes@.len(),
                i <= n,
                self@.len() == n,
                forall|j: int| 0 <= j < n ==> self@[j] == (#[trigger] self.routes@[j])@,
                t.wf(),
                crate::trie::dyn_sep_wf(t),
                forall|j: int|
                    0 <= j < i ==> (#[trigger] t.spec_lookup(
                        spec_path_charlikes(self@[j].path),
                    )) is Some,
                forall|j: int|
                    0 <= j < i ==> (#[trigger] t.spec_lookup(
                        spec_path_charlikes(self@[j].path),
                    ))->Some_0@ == self@[j],
                forall|q: Seq<CharlikeV>|
                    (#[trigger] t.spec_lookup(q)) is Some ==> exists|j: int|
                        0 <= j < i && q == spec_path_charlikes(self@[j].path),
                forall|j: int, k: int|
                    0 <= j < k < i ==> #[trigger] spec_path_charlikes(self@[j].path)
                        != #[trigger] spec_path_charlikes(self@[k].path),
            decreases n - i,
        {
            let route = &self.routes[i];
            let keys = route.path.iter();
            proof {
                lemma_path_charlikes_shaped(route.path@);
            }
            let dup = FlattenedRoute {
                path: FlattenedPath { segments: dup_segments(&route.path.segments) },
                resources: dup_resources(&route.resources),
                query_parameters: dup_params(&route.query_parameters),
            };
            proof {
                assert(dup@ == self@[i as int]);
            }
            match t.add(keys.as_slice(), dup) {
                Ok(t2) => {
                    proof {
                        assert(spec_charlike_views(keys@) == spec_path_charlikes(
                            self@[i as int].path,
                        ));
                        assert forall|j: int| 0 <= j < i implies #[trigger] spec_path_charlikes(
                            self@[j].path,
                        ) != spec_path_charlikes(self@[i as int].path) by {
                            if spec_path_charlikes(self@[j].path) == spec_path_charlikes(
                                self@[i as int].path,
                            ) {
                                assert(t.spec_lookup(spec_path_charlikes(self@[j].path)) is Some);
                            }
                        }
                        assert forall|q: Seq<CharlikeV>| (#[trigger] t2.spec_lookup(q))
                            is Some implies exists|j: int|
                            0 <= j < i + 1 && q == spec_path_charlikes(self@[j].path) by {
                            if q == spec_path_charlikes(self@[i as int].path) {
                                assert(0 <= i < i + 1 && q == spec_path_charlikes(
                                    self@[i as int].path,
                                ));
                            } else {
                                assert(t.spec_lookup(q) is Some);
                            }
                        }
                        assert forall|j: int| 0 <= j < i + 1 implies (#[trigger] t2.spec_lookup(
                            spec_path_charlikes(self@[j].path),
                        )) is Some && (t2.spec_lookup(
                            spec_path_charlikes(self@[j].path),
                        ))->Some_0@ == self@[j] by {
                            if j < i {
                                if spec_path_charlikes(self@[j].path) == spec_path_charlikes(
                                    self@[i as int].path,
                                ) {
                                } else {
                                }
                            }
                        }
                    }
                    t = t2;
                },
                Err(_) => {
                    proof {
                        let q = spec_path_charlikes(self@[i as int].path);
                        assert(spec_charlike_views(keys@) == q);
                        assert(t.spec_lookup(q) is Some);
                        let j = choose|j: int| 0 <= j < i && q == spec_path_charlikes(self@[j].path);
                        assert(0 <= j < i < self@.len() && spec_path_charlikes(self@[j].path)
                            == spec_path_charlikes(self@[i as int].path));
                    }
                    return None;
                },
            }
            i = i + 1;
        }
        Some(t)
    }
}


/// A non-redirect resource seen from the module hierarchy: its name, method,
/// path, the path's dynamic captures, and all query parameters that apply.
#[derive(Debug)]
pub struct FlattenedAction {
    pub name: String,
    pub method: Method,
    pub path: FlattenedPath,
    pub route_parameters: Vec<Param>,
    pub query_parameters: Vec<Param>,
}

/// The mathematical value of a `FlattenedAction`.
pub ghost struct FlattenedActionV {
    pub name: Seq<char>,
    pub method: Method,
    pub path: Seq<PathSegmentV>,
    pub route_parameters: Seq<ParamV>,
    pub query_parameters: Seq<ParamV>,
}

impl View for FlattenedAction {
    type V = FlattenedActionV;

    open spec fn view(&self) -> FlattenedActionV {
        FlattenedActionV {
            name: self.name@,
            method: self.method,
            path: self.path@,
            route_parameters: self.route_parameters@.map_values(|p: Param| p@),
            query_parameters: self.query_parameters@.map_values(|p: Param| p@),
        }
    }
}

/// A group of actions and sub-modules sharing a module qualifier.
#[derive(Debug)]
pub struct FlattenedModule {
    pub name: String,
    pub actions: Vec<FlattenedAction>,
    pub modules: Vec<FlattenedModule>,
}

/// The mathematical value of a `FlattenedModule`.
pub ghost struct FlattenedModuleV {
    pub name: Seq<char>,
    pub actions: Seq<FlattenedActionV>,
    pub modules: Seq<FlattenedModuleV>,
}

/// The mathematical value of a module node, computed recursively.
pub open spec fn spec_module_view(m: FlattenedModule) -> FlattenedModuleV
    decreases m,
{
    FlattenedModuleV {
        name: m.name@,
        actions: m.actions@.map_values(|a: FlattenedAction| a@),
        modules: spec_module_list_view(m.modules@),
    }
}

/// The values of a list of module nodes.
pub open spec fn spec_module_list_view(ms: Seq<FlattenedModule>) -> Seq<FlattenedModuleV>
    decreases ms,
{
    if ms.len() == 0 {
        Seq::empty()
    } else {
        spec_module_list_view(ms.drop_last()).push(spec_module_view(ms.last()))
    }
}

/// A module list and its value list agree element by element.
pub proof fn lemma_module_list_view_elementwise(ms: Seq<FlattenedModule>)
    ensures
        spec_module_list_view(ms).len() == ms.len(),
        forall|i: int|
            0 <= i < ms.len() ==> #[trigger] spec_module_list_view(ms)[i] == spec_module_view(
                ms[i],
            ),
    decreases ms.len(),
{
    if ms.len() > 0 {
        lemma_module_list_view_elementwise(ms.drop_last());
        assert forall|i: int| 0 <= i < ms.len() implies #[trigger] spec_module_list_view(ms)[i]
            == spec_module_view(ms[i]) by {
            if i < ms.len() - 1 {
                assert(ms.drop_last()[i] == ms[i]);
                assert(spec_module_list_view(ms.drop_last())[i] == spec_module_view(
                    ms.drop_last()[i],
                ));
            }
        }
    }
}

impl View for FlattenedModule {
    type V = FlattenedModuleV;

    open spec fn view(&self) -> FlattenedModuleV {
        spec_module_view(*self)
    }
}

impl FlattenedModuleV {
    /// Well-sortedness: actions strictly ordered by name, sub-modules
    /// strictly ordered by name, recursively.
    pub open spec fn wf(self) -> bool
        decreases self,
    {
        &&& forall|i: int, j: int|
            0 <= i < j < self.actions.len() ==> spec_str_lt(
                (#[trigger] self.actions[i]).name,
                (#[trigger] self.actions[j]).name,
            )
        &&& forall|i: int, j: int|
            0 <= i < j < self.modules.len() ==> spec_str_lt(
                (#[trigger] self.modules[i]).name,
                (#[trigger] self.modules[j]).name,
            )
        &&& forall|i: int| 0 <= i < self.modules.len() ==> (#[trigger] self.modules[i]).wf()
    }

    /// Whether an action with this name stands under this module qualifier
    /// chain.
    pub open spec fn has_action(self, ms: Seq<Seq<char>>, name: Seq<char>) -> bool
        decreases self,
    {
        if ms.len() == 0 {
            exists|i: int| 0 <= i < self.actions.len() && (#[trigger] self.actions[i]).name == name
        } else {
            exists|i: int|
                0 <= i < self.modules.len() && (#[trigger] self.modules[i]).name == ms[0]
                    && self.modules[i].has_action(ms.drop_first(), name)
        }
    }

    /// Whether this exact action stands under this module qualifier chain.
    pub open spec fn holds_action(self, ms: Seq<Seq<char>>, a: FlattenedActionV) -> bool
        decreases self,
    {
        if ms.len() == 0 {
            exists|i: int| 0 <= i < self.actions.len() && (#[trigger] self.actions[i]) == a
        } else {
            exists|i: int|
                0 <= i < self.modules.len() && (#[trigger] self.modules[i]).name == ms[0]
                    && self.modules[i].holds_action(ms.drop_first(), a)
        }
    }

    /// How many actions the module tree holds, in all.
    pub open spec fn action_count(self) -> nat
        decreases self,
    {
        self.actions.len() + spec_module_list_count(self.modules)
    }
}

/// How many actions a list of module trees holds, in all.
pub open spec fn spec_module_list_count(ms: Seq<FlattenedModuleV>) -> nat
    decreases ms,
{
    if ms.len() == 0 {
        0
    } else {
        spec_module_list_count(ms.drop_last()) + ms.last().action_count()
    }
}

/// The non-redirect handlers of a configuration, grouped by their module
/// qualifiers into a tree rooted at the synthetic module named `routes`.
#[derive(Debug)]
pub struct FlattenedModules {
    pub root: FlattenedModule,
}

/// The handler pairs of a routes block: for each non-redirect resource, in
/// pre-order, its module qualifiers and its action.
pub open spec fn spec_collect(r: RoutesV, path: Seq<PathSegmentV>, qps: Seq<ParamV>) -> Seq<
    (Seq<Seq<char>>, FlattenedActionV),
>
    decreases r,
{
    spec_collect_resources(r.resources, path, qps + r.query_parameters) + spec_collect_children(
        r.routes,
        path,
        qps + r.query_parameters,
    )
}

/// The handler pairs of a resource list at a fixed path.
pub open spec fn spec_collect_resources(
    rs: Seq<ResourceV>,
    path: Seq<PathSegmentV>,
    qps: Seq<ParamV>,
) -> Seq<(Seq<Seq<char>>, FlattenedActionV)>
    decreases rs.len(),
{
    if rs.len() == 0 {
        Seq::empty()
    } else {
        spec_collect_resources(rs.drop_last(), path, qps) + (if rs.last().is_redirect {
            Seq::empty()
        } else {
            seq![(rs.last().modules, spec_action_of(rs.last(), path, qps))]
        })
    }
}

/// The action a non-redirect resource contributes at a path.
pub open spec fn spec_action_of(r: ResourceV, path: Seq<PathSegmentV>, qps: Seq<ParamV>) -> FlattenedActionV {
    FlattenedActionV {
        name: r.name,
        method: r.method,
        path: path,
        route_parameters: spec_path_dynamics(path),
        query_parameters: qps + r.query_parameters,
    }
}

/// The handler pairs of a list of nested blocks.
pub open spec fn spec_collect_children(
    ns: Seq<NestedRoutesV>,
    path: Seq<PathSegmentV>,
    qps: Seq<ParamV>,
) -> Seq<(Seq<Seq<char>>, FlattenedActionV)>
    decreases ns,
{
    if ns.len() == 0 {
        Seq::empty()
    } else {
        spec_collect_children(ns.drop_last(), path, qps) + spec_collect(
            ns.last().routes,
            path.push(ns.last().path_segment),
            qps,
        )
    }
}


/// The pair view of collected handler data.
pub open spec fn spec_pair_view(p: (Vec<String>, FlattenedAction)) -> (Seq<Seq<char>>, FlattenedActionV) {
    (p.0@.map_values(|m: String| m@), p.1@)
}

/// The values of a list of collected handler pairs.
pub open spec fn spec_pairs_view(s: Seq<(Vec<String>, FlattenedAction)>) -> Seq<
    (Seq<Seq<char>>, FlattenedActionV),
>
    decreases s.len(),
{
    if s.len() == 0 {
        Seq::empty()
    } else {
        spec_pairs_view(s.drop_last()).push(spec_pair_view(s.last()))
    }
}

/// A pair list and its value list agree element by element.
pub proof fn lemma_pairs_view_elementwise(s: Seq<(Vec<String>, FlattenedAction)>)
    ensures
        spec_pairs_view(s).len() == s.len(),
        forall|i: int|
            0 <= i < s.len() ==> #[trigger] spec_pairs_view(s)[i] == spec_pair_view(s[i]),
    decreases s.len(),
{
    if s.len() > 0 {
        lemma_pairs_view_elementwise(s.drop_last());
        assert forall|i: int| 0 <= i < s.len() implies #[trigger] spec_pairs_view(s)[i]
            == spec_pair_view(s[i]) by {
            if i < s.len() - 1 {
                assert(s.drop_last()[i] == s[i]);
                assert(spec_pairs_view(s.drop_last())[i] == spec_pair_view(s.drop_last()[i]));
            }
        }
    }
}

/// An action count of a module list, split at an update.
proof fn lemma_module_list_count_update(ms: Seq<FlattenedModuleV>, idx: int, m2: FlattenedModuleV)
    requires
        0 <= idx < ms.len(),
    ensures
        spec_module_list_count(ms.update(idx, m2)) == spec_module_list_count(ms)
            - ms[idx].action_count() + m2.action_count(),
    decreases ms.len(),
{
    if idx == ms.len() - 1 {
        assert(ms.update(idx, m2).drop_last() =~= ms.drop_last());
    } else {
        assert(ms.update(idx, m2).drop_last() =~= ms.drop_last().update(idx, m2));
        lemma_module_list_count_update(ms.drop_last(), idx, m2);
    }
}

/// An action count of a module list, split at an insertion.
proof fn lemma_module_list_count_insert(ms: Seq<FlattenedModuleV>, idx: int, m: FlattenedModuleV)
    requires
        0 <= idx <= ms.len(),
    ensures
        spec_module_list_count(ms.insert(idx, m)) == spec_module_list_count(ms)
            + m.action_count(),
    decreases ms.len(),
{
    if idx == ms.len() {
        assert(ms.insert(idx, m).drop_last() =~= ms);
    } else {
        assert(ms.insert(idx, m).drop_last() =~= ms.drop_last().insert(idx, m));
        assert(ms.insert(idx, m).last() == ms.last());
        lemma_module_list_count_insert(ms.drop_last(), idx, m);
    }
}

impl FlattenedModule {
    /// Whether an action with this name stands under this module qualifier
    /// chain.
    pub fn has_action(&self, ms: &[String], name: &str) -> (r: bool)
        requires
            self@.wf(),
        ensures
            r == self@.has_action(ms@.map_values(|m: String| m@), name@),
        decreases *self,
    {
        proof {
            lemma_module_list_view_elementwise(self.modules@);
        }
        let ghost msv = ms@.map_values(|m: String| m@);
        if ms.len() == 0 {
            let n = self.actions.len();
            let mut i: usize = 0;
            while i < n
                invariant
                    n == self.actions@.len(),
                    i <= n,
                    msv == ms@.map_values(|m: String| m@),
                    msv.len() == 0,
                    forall|j: int| 0 <= j < i ==> (#[trigger] self.actions@[j])@.name != name@,
                decreases n - i,
            {
                if str_eq(self.actions[i].name.as_str(), name) {
                    proof {
                        assert(msv.len() == 0);
                        assert(self@.actions[i as int] == (self.actions@[i as int])@);
                        assert(self@.actions[i as int].name == name@);
                        assert(self@.has_action(msv, name@));
                    }
                    return true;
                }
                i = i + 1;
            }
            proof {
                assert forall|j: int| 0 <= j < self@.actions.len() implies (
                #[trigger] self@.actions[j]).name != name@ by {
                    assert(self@.actions[j] == (self.actions@[j])@);
                }
            }
            false
        } else {
            let n = self.modules.len();
            let mut i: usize = 0;
            while i < n
                invariant
                    self@.wf(),
                    self@.modules == spec_module_list_view(self.modules@),
                    n == self.modules@.len(),
                    ms@.len() > 0,
                    msv == ms@.map_values(|m: String| m@),
                    msv.len() == ms@.len(),
                    msv[0] == ms@[0]@,
                    i <= n,
                    forall|j: int| 0 <= j < i ==> spec_module_view(#[trigger] self.modules@[j]).name
                        != ms@[0]@,
                decreases n - i,
            {
                if str_eq(self.modules[i].name.as_str(), ms[0].as_str()) {
                    proof {
                        lemma_module_list_view_elementwise(self.modules@);
                        assert(self@.modules[i as int] == spec_module_view(
                            self.modules@[i as int],
                        ));
                        assert(self@.modules[i as int].wf());
                    }
                    let sub = self.modules[i].has_action(&ms[1..ms.len()], name);
                    proof {
                        assert(ms@.subrange(1, ms@.len() as int) =~= ms@.drop_first());
                        assert forall|k: int| 0 <= k < ms@.len() - 1 implies ms@.drop_first()
                            .map_values(|m: String| m@)[k] == msv.drop_first()[k] by {
                            assert(ms@.drop_first()[k] == ms@[k + 1]);
                            assert(msv[k + 1] == ms@[k + 1]@);
                        }
                        assert(ms@.drop_first().map_values(|m: String| m@) =~= msv.drop_first());
                        if sub {
                            assert(self@.modules[i as int].name == msv[0]
                                && self@.modules[i as int].has_action(msv.drop_first(), name@));
                        } else {
                            assert forall|j: int|
                                0 <= j < self@.modules.len() && (#[trigger] self@.modules[j]).name
                                    == msv[0] implies !self@.modules[j].has_action(
                                msv.drop_first(),
                                name@,
                            ) by {
                                if j < i {
                                } else if j == i {
                                } else {
                                    assert(spec_str_lt(
                                        self@.modules[i as int].name,
                                        self@.modules[j].name,
                                    ));
                                    crate::trie::lemma_str_lt_asymmetric(
                                        self@.modules[i as int].name,
                                        self@.modules[j].name,
                                    );
                                }
                            }
                        }
                    }
                    return sub;
                }
                i = i + 1;
            }
            proof {
                assert forall|j: int| 0 <= j < self@.modules.len() implies (
                #[trigger] self@.modules[j]).name != msv[0] by {
                    assert(self@.modules[j] == spec_module_view(self.modules@[j]));
                }
            }
            false
        }
    }
}


impl FlattenedModule {
    /// Insert an action under a module qualifier chain that does not hold
    /// one of that name yet, creating modules along the chain as needed and
    /// keeping every list sorted.
    fn insert_action(self, ms: &[String], action: FlattenedAction) -> (r: FlattenedModule)
        requires
            self@.wf(),
            !self@.has_action(ms@.map_values(|m: String| m@), action@.name),
        ensures
            r@.wf(),
            r@.name == self@.name,
            r@.action_count() == self@.action_count() + 1,
            r@.has_action(ms@.map_values(|m: String| m@), action@.name),
            forall|ms2: Seq<Seq<char>>, n2: Seq<char>|
                self@.has_action(ms2, n2) ==> #[trigger] r@.has_action(ms2, n2),
            forall|ms2: Seq<Seq<char>>, n2: Seq<char>|
                #[trigger] r@.has_action(ms2, n2) ==> self@.has_action(ms2, n2) || (ms2 == ms@
                    .map_values(|m: String| m@) && n2 == action@.name),
            r@.holds_action(ms@.map_values(|m: String| m@), action@),
            forall|ms2: Seq<Seq<char>>, a2: FlattenedActionV|
                self@.holds_action(ms2, a2) ==> #[trigger] r@.holds_action(ms2, a2),
            forall|ms2: Seq<Seq<char>>, a2: FlattenedActionV|
                #[trigger] r@.holds_action(ms2, a2) ==> self@.holds_action(ms2, a2) || (ms2 == ms@
                    .map_values(|m: String| m@) && a2 == action@),
        decreases ms@.len(),
    {
        let ghost s0 = self;
        let ghost msv = ms@.map_values(|m: String| m@);
        let ghost av = action@;
        let FlattenedModule { name: my_name, actions, modules } = self;
        if ms.len() == 0 {
            let n = actions.len();
            let mut idx: usize = 0;
            while idx < n
                invariant
                    n == actions@.len(),
                    idx <= n,
                    actions == s0.actions,
                    av == action@,
                    forall|j: int|
                        0 <= j < idx ==> spec_str_lt((#[trigger] actions@[j])@.name, av.name),
                ensures
                    idx <= n,
                    n == actions@.len(),
                    actions == s0.actions,
                    forall|j: int|
                        0 <= j < idx ==> spec_str_lt((#[trigger] actions@[j])@.name, av.name),
                    idx < n ==> !spec_str_lt(actions@[idx as int]@.name, av.name),
                decreases n - idx,
            {
                if !str_lt(actions[idx].name.as_str(), action.name.as_str()) {
                    break;
                }
                idx = idx + 1;
            }
            let mut actions = actions;
            actions.insert(idx, action);
            let r = FlattenedModule { name: my_name, actions, modules };
            proof {
                assert(msv.len() == 0);
                assert(r@.modules =~= s0@.modules);
                assert forall|j: int| 0 <= j < s0@.actions.len() implies (
                #[trigger] s0@.actions[j]).name != av.name by {
                    assert(s0@.actions[j] == (s0.actions@[j])@);
                }
                assert(r@.actions.len() == s0@.actions.len() + 1);
                assert forall|j: int| 0 <= j < r@.actions.len() implies #[trigger] r@.actions[j]
                    == (if j < idx {
                    s0@.actions[j]
                } else if j == idx {
                    av
                } else {
                    s0@.actions[j - 1]
                }) by {
                    assert(r@.actions[j] == (actions@[j])@);
                    if j < idx {
                        assert(actions@[j] == s0.actions@[j]);
                        assert(s0@.actions[j] == (s0.actions@[j])@);
                    } else if j > idx {
                        assert(actions@[j] == s0.actions@[j - 1]);
                        assert(s0@.actions[j - 1] == (s0.actions@[j - 1])@);
                    }
                }
                assert forall|i: int, j: int| 0 <= i < j < r@.actions.len() implies spec_str_lt(
                    (#[trigger] r@.actions[i]).name,
                    (#[trigger] r@.actions[j]).name,
                ) by {
                    if j == idx {
                    } else if i == idx {
                        if idx < n {
                            crate::trie::lemma_str_lt_total(s0@.actions[idx as int].name, av.name);
                            assert(s0@.actions[idx as int] == (s0.actions@[idx as int])@);
                            if idx < j - 1 {
                                crate::trie::lemma_str_lt_transitive(
                                    av.name,
                                    s0@.actions[idx as int].name,
                                    s0@.actions[j - 1].name,
                                );
                            }
                        }
                    } else if i < idx && j > idx {
                    } else {
                    }
                }
                assert(r@.wf());
                assert(spec_module_list_count(r@.modules) == spec_module_list_count(s0@.modules));
                assert(r@.actions[idx as int].name == av.name);
                assert(r@.has_action(msv, av.name));
                assert(r@.actions[idx as int] == av);
                assert(r@.holds_action(msv, av));
                assert forall|ms2: Seq<Seq<char>>, n2: Seq<char>|
                    s0@.has_action(ms2, n2) implies #[trigger] r@.has_action(ms2, n2) by {
                    if ms2.len() == 0 {
                        let j = choose|j: int|
                            0 <= j < s0@.actions.len() && (#[trigger] s0@.actions[j]).name == n2;
                        if j < idx {
                            assert(r@.actions[j].name == n2);
                        } else {
                            assert(r@.actions[j + 1].name == n2);
                        }
                    } else {
                        assert(r@.modules =~= s0@.modules);
                    }
                }
                assert forall|ms2: Seq<Seq<char>>, n2: Seq<char>| #[trigger] r@.has_action(
                    ms2,
                    n2,
                ) implies s0@.has_action(ms2, n2) || (ms2 == msv && n2 == av.name) by {
                    if ms2.len() == 0 {
                        let j = choose|j: int|
                            0 <= j < r@.actions.len() && (#[trigger] r@.actions[j]).name == n2;
                        if j == idx {
                            assert(ms2 =~= msv);
                        } else if j < idx {
                            assert(s0@.actions[j].name == n2);
                        } else {
                            assert(s0@.actions[j - 1].name == n2);
                        }
                    } else {
                        assert(r@.modules =~= s0@.modules);
                    }
                }
                assert forall|ms2: Seq<Seq<char>>, a2: FlattenedActionV|
                    s0@.holds_action(ms2, a2) implies #[trigger] r@.holds_action(ms2, a2) by {
                    if ms2.len() == 0 {
                        let j = choose|j: int|
                            0 <= j < s0@.actions.len() && (#[trigger] s0@.actions[j]) == a2;
                        if j < idx {
                            assert(r@.actions[j] == a2);
                        } else {
                            assert(r@.actions[j + 1] == a2);
                        }
                    } else {
                        assert(r@.modules =~= s0@.modules);
                    }
                }
                assert forall|ms2: Seq<Seq<char>>, a2: FlattenedActionV| #[trigger] r@
                    .holds_action(ms2, a2) implies s0@.holds_action(ms2, a2) || (ms2 == msv && a2
                    == av) by {
                    if ms2.len() == 0 {
                        let j = choose|j: int|
                            0 <= j < r@.actions.len() && (#[trigger] r@.actions[j]) == a2;
                        if j == idx {
                            assert(ms2 =~= msv);
                        } else if j < idx {
                            assert(s0@.actions[j] == a2);
                        } else {
                            assert(s0@.actions[j - 1] == a2);
                        }
                    } else {
                        assert(r@.modules =~= s0@.modules);
                    }
                }
            }
            r
        } else {
            let ghost kv = ms@[0]@;
            proof {
                assert(msv[0] == kv);
                assert forall|k: int| 0 <= k < ms@.len() - 1 implies ms@.drop_first().map_values(
                    |m: String| m@,
                )[k] == msv.drop_first()[k] by {
                    assert(ms@.drop_first()[k] == ms@[k + 1]);
                    assert(msv[k + 1] == ms@[k + 1]@);
                }
                assert(ms@.subrange(1, ms@.len() as int) =~= ms@.drop_first());
                assert(ms@.drop_first().map_values(|m: String| m@) =~= msv.drop_first());
            }
            let n = modules.len();
            let mut idx: usize = 0;
            while idx < n
                invariant
                    n == modules@.len(),
                    idx <= n,
                    modules == s0.modules,
                    ms@.len() > 0,
                    kv == ms@[0]@,
                    forall|j: int|
                        0 <= j < idx ==> spec_str_lt(
                            spec_module_view(#[trigger] modules@[j]).name,
                            kv,
                        ),
                ensures
                    idx <= n,
                    n == modules@.len(),
                    modules == s0.modules,
                    forall|j: int|
                        0 <= j < idx ==> spec_str_lt(
                            spec_module_view(#[trigger] modules@[j]).name,
                            kv,
                        ),
                    idx < n ==> !spec_str_lt(spec_module_view(modules@[idx as int]).name, kv),
                decreases n - idx,
            {
                if !str_lt(modules[idx].name.as_str(), ms[0].as_str()) {
                    break;
                }
                idx = idx + 1;
            }
            let found = if idx < n {
                str_eq(modules[idx].name.as_str(), ms[0].as_str())
            } else {
                false
            };
            proof {
                lemma_module_list_view_elementwise(s0.modules@);
            }
            if found {
                let mut mods = modules;
                let child = mods.remove(idx);
                proof {
                    assert(s0@.modules[idx as int] == spec_module_view(s0.modules@[idx as int]));
                    assert(child@.wf());
                    if child@.has_action(msv.drop_first(), av.name) {
                        assert(s0@.has_action(msv, av.name));
                    }
                }
                let child2 = child.insert_action(&ms[1..ms.len()], action);
                mods.insert(idx, child2);
                let r = FlattenedModule { name: my_name, actions, modules: mods };
                proof {
                    lemma_module_list_view_elementwise(mods@);
                    assert(mods@ =~= s0.modules@.update(idx as int, child2));
                    assert(r@.modules.len() == s0@.modules.len());
                    assert forall|j: int| 0 <= j < r@.modules.len() implies #[trigger] r@.modules[j]
                        == (if j == idx {
                        child2@
                    } else {
                        s0@.modules[j]
                    }) by {
                        assert(r@.modules[j] == spec_module_view(mods@[j]));
                        if j != idx {
                            assert(mods@[j] == s0.modules@[j]);
                        }
                    }
                    assert(r@.actions =~= s0@.actions);
                    lemma_insert_module_update(s0@, r@, msv, idx as int, child2@, av.name, av);
                }
                r
            } else {
                let fresh = FlattenedModule {
                    name: ms[0].clone(),
                    actions: Vec::new(),
                    modules: Vec::new(),
                };
                proof {
                    assert(fresh@.actions =~= Seq::<FlattenedActionV>::empty());
                    assert(fresh@.modules =~= Seq::<FlattenedModuleV>::empty());
                    assert(fresh@.wf());
                    assert(!fresh@.has_action(msv.drop_first(), av.name));
                }
                let child = fresh.insert_action(&ms[1..ms.len()], action);
                let mut mods = modules;
                mods.insert(idx, child);
                let r = FlattenedModule { name: my_name, actions, modules: mods };
                proof {
                    lemma_module_list_view_elementwise(mods@);
                    assert(r@.modules.len() == s0@.modules.len() + 1);
                    assert forall|j: int| 0 <= j < r@.modules.len() implies #[trigger] r@.modules[j]
                        == (if j < idx {
                        s0@.modules[j]
                    } else if j == idx {
                        child@
                    } else {
                        s0@.modules[j - 1]
                    }) by {
                        assert(r@.modules[j] == spec_module_view(mods@[j]));
                        if j < idx {
                            assert(mods@[j] == s0.modules@[j]);
                        } else if j > idx {
                            assert(mods@[j] == s0.modules@[j - 1]);
                        }
                    }
                    assert forall|j: int| 0 <= j < s0@.modules.len() implies (
                    #[trigger] s0@.modules[j]).name != kv by {
                        if j < idx {
                            crate::trie::lemma_str_lt_asymmetric(s0@.modules[j].name, kv);
                        } else if j == idx {
                            crate::trie::lemma_str_lt_total(s0@.modules[j].name, kv);
                        } else {
                            crate::trie::lemma_str_lt_total(s0@.modules[idx as int].name, kv);
                            crate::trie::lemma_str_lt_transitive(
                                kv,
                                s0@.modules[idx as int].name,
                                s0@.modules[j].name,
                            );
                            crate::trie::lemma_str_lt_asymmetric(s0@.modules[j].name, kv);
                        }
                    }
                    assert(r@.actions =~= s0@.actions);
                    lemma_insert_module_fresh(s0@, r@, msv, idx as int, child@, av.name, av);
                }
                r
            }
        }
    }
}

/// Replacing the sub-module named after a chain's head by one that holds
/// the chain's tail action as well yields a tree that holds the chain's
/// action as well, and nothing else new.
proof fn lemma_insert_module_update(
    s0: FlattenedModuleV,
    r: FlattenedModuleV,
    msv: Seq<Seq<char>>,
    idx: int,
    child2: FlattenedModuleV,
    name: Seq<char>,
    act: FlattenedActionV,
)
    requires
        s0.wf(),
        msv.len() > 0,
        0 <= idx < s0.modules.len(),
        s0.modules[idx].name == msv[0],
        r.actions == s0.actions,
        r.modules.len() == s0.modules.len(),
        forall|j: int|
            0 <= j < r.modules.len() ==> #[trigger] r.modules[j] == (if j == idx {
                child2
            } else {
                s0.modules[j]
            }),
        child2.wf(),
        child2.name == s0.modules[idx].name,
        child2.action_count() == s0.modules[idx].action_count() + 1,
        child2.has_action(msv.drop_first(), name),
        forall|ms2: Seq<Seq<char>>, n2: Seq<char>|
            s0.modules[idx].has_action(ms2, n2) ==> #[trigger] child2.has_action(ms2, n2),
        forall|ms2: Seq<Seq<char>>, n2: Seq<char>|
            #[trigger] child2.has_action(ms2, n2) ==> s0.modules[idx].has_action(ms2, n2) || (ms2
                == msv.drop_first() && n2 == name),
        child2.holds_action(msv.drop_first(), act),
        forall|ms2: Seq<Seq<char>>, a2: FlattenedActionV|
            s0.modules[idx].holds_action(ms2, a2) ==> #[trigger] child2.holds_action(ms2, a2),
        forall|ms2: Seq<Seq<char>>, a2: FlattenedActionV|
            #[trigger] child2.holds_action(ms2, a2) ==> s0.modules[idx].holds_action(ms2, a2) || (
            ms2 == msv.drop_first() && a2 == act),
    ensures
        r.wf(),
        r.action_count() == s0.action_count() + 1,
        r.has_action(msv, name),
        forall|ms2: Seq<Seq<char>>, n2: Seq<char>|
            s0.has_action(ms2, n2) ==> #[trigger] r.has_action(ms2, n2),
        forall|ms2: Seq<Seq<char>>, n2: Seq<char>|
            #[trigger] r.has_action(ms2, n2) ==> s0.has_action(ms2, n2) || (ms2 == msv && n2
                == name),
        r.holds_action(msv, act),
        forall|ms2: Seq<Seq<char>>, a2: FlattenedActionV|
            s0.holds_action(ms2, a2) ==> #[trigger] r.holds_action(ms2, a2),
        forall|ms2: Seq<Seq<char>>, a2: FlattenedActionV|
            #[trigger] r.holds_action(ms2, a2) ==> s0.holds_action(ms2, a2) || (ms2 == msv && a2
                == act),
{
    assert(r.wf());
    lemma_module_list_count_update(s0.modules, idx, child2);
    assert(s0.modules.update(idx, child2) =~= r.modules);
    assert(r.modules[idx].name == msv[0] && r.modules[idx].has_action(msv.drop_first(), name));
    assert(r.has_action(msv, name));
    assert(r.modules[idx].holds_action(msv.drop_first(), act));
    assert(r.holds_action(msv, act));
    assert forall|ms2: Seq<Seq<char>>, n2: Seq<char>| s0.has_action(ms2, n2) implies #[trigger] r
        .has_action(ms2, n2) by {
        if ms2.len() > 0 {
            let j = choose|j: int|
                0 <= j < s0.modules.len() && (#[trigger] s0.modules[j]).name == ms2[0]
                    && s0.modules[j].has_action(ms2.drop_first(), n2);
            assert(r.modules[j].has_action(ms2.drop_first(), n2));
        }
    }
    assert forall|ms2: Seq<Seq<char>>, n2: Seq<char>| #[trigger] r.has_action(ms2, n2) implies s0
        .has_action(ms2, n2) || (ms2 == msv && n2 == name) by {
        if ms2.len() > 0 {
            let j = choose|j: int|
                0 <= j < r.modules.len() && (#[trigger] r.modules[j]).name == ms2[0]
                    && r.modules[j].has_action(ms2.drop_first(), n2);
            if j == idx {
                if ms2.drop_first() == msv.drop_first() && n2 == name {
                    assert(ms2 =~= seq![ms2[0]] + ms2.drop_first());
                    assert(msv =~= seq![msv[0]] + msv.drop_first());
                    assert(ms2 == msv);
                } else {
                    assert(s0.modules[idx].has_action(ms2.drop_first(), n2));
                    assert(s0.has_action(ms2, n2));
                }
            } else {
                assert(s0.modules[j].has_action(ms2.drop_first(), n2));
            }
        }
    }
    assert forall|ms2: Seq<Seq<char>>, a2: FlattenedActionV| s0.holds_action(ms2, a2)
        implies #[trigger] r.holds_action(ms2, a2) by {
        if ms2.len() > 0 {
            let j = choose|j: int|
                0 <= j < s0.modules.len() && (#[trigger] s0.modules[j]).name == ms2[0]
                    && s0.modules[j].holds_action(ms2.drop_first(), a2);
            assert(r.modules[j].holds_action(ms2.drop_first(), a2));
        }
    }
    assert forall|ms2: Seq<Seq<char>>, a2: FlattenedActionV| #[trigger] r.holds_action(ms2, a2)
        implies s0.holds_action(ms2, a2) || (ms2 == msv && a2 == act) by {
        if ms2.len() > 0 {
            let j = choose|j: int|
                0 <= j < r.modules.len() && (#[trigger] r.modules[j]).name == ms2[0]
                    && r.modules[j].holds_action(ms2.drop_first(), a2);
            if j == idx {
                if ms2.drop_first() == msv.drop_first() && a2 == act {
                    assert(ms2 =~= seq![ms2[0]] + ms2.drop_first());
                    assert(msv =~= seq![msv[0]] + msv.drop_first());
                    assert(ms2 == msv);
                } else {
                    assert(s0.modules[idx].holds_action(ms2.drop_first(), a2));
                    assert(s0.holds_action(ms2, a2));
                }
            } else {
                assert(s0.modules[j].holds_action(ms2.drop_first(), a2));
            }
        }
    }
}

/// Inserting, at the sorted position for a chain's head, a fresh sub-module
/// that holds exactly the chain's tail action yields a tree that holds the
/// chain's action as well, and nothing else new.
proof fn lemma_insert_module_fresh(
    s0: FlattenedModuleV,
    r: FlattenedModuleV,
    msv: Seq<Seq<char>>,
    idx: int,
    child: FlattenedModuleV,
    name: Seq<char>,
    act: FlattenedActionV,
)
    requires
        s0.wf(),
        msv.len() > 0,
        0 <= idx <= s0.modules.len(),
        forall|j: int| 0 <= j < idx ==> spec_str_lt((#[trigger] s0.modules[j]).name, msv[0]),
        idx < s0.modules.len() ==> !spec_str_lt(s0.modules[idx].name, msv[0]),
        forall|j: int| 0 <= j < s0.modules.len() ==> (#[trigger] s0.modules[j]).name != msv[0],
        r.actions == s0.actions,
        r.modules.len() == s0.modules.len() + 1,
        forall|j: int|
            0 <= j < r.modules.len() ==> #[trigger] r.modules[j] == (if j < idx {
                s0.modules[j]
            } else if j == idx {
                child
            } else {
                s0.modules[j - 1]
            }),
        child.wf(),
        child.name == msv[0],
        child.action_count() == 1,
        child.has_action(msv.drop_first(), name),
        forall|ms2: Seq<Seq<char>>, n2: Seq<char>|
            #[trigger] child.has_action(ms2, n2) ==> ms2 == msv.drop_first() && n2 == name,
        child.holds_action(msv.drop_first(), act),
        forall|ms2: Seq<Seq<char>>, a2: FlattenedActionV|
            #[trigger] child.holds_action(ms2, a2) ==> ms2 == msv.drop_first() && a2 == act,
    ensures
        r.wf(),
        r.action_count() == s0.action_count() + 1,
        r.has_action(msv, name),
        forall|ms2: Seq<Seq<char>>, n2: Seq<char>|
            s0.has_action(ms2, n2) ==> #[trigger] r.has_action(ms2, n2),
        forall|ms2: Seq<Seq<char>>, n2: Seq<char>|
            #[trigger] r.has_action(ms2, n2) ==> s0.has_action(ms2, n2) || (ms2 == msv && n2
                == name),
        r.holds_action(msv, act),
        forall|ms2: Seq<Seq<char>>, a2: FlattenedActionV|
            s0.holds_action(ms2, a2) ==> #[trigger] r.holds_action(ms2, a2),
        forall|ms2: Seq<Seq<char>>, a2: FlattenedActionV|
            #[trigger] r.holds_action(ms2, a2) ==> s0.holds_action(ms2, a2) || (ms2 == msv && a2
                == act),
{
    assert forall|i: int, j: int| 0 <= i < j < r.modules.len() implies spec_str_lt(
        (#[trigger] r.modules[i]).name,
        (#[trigger] r.modules[j]).name,
    ) by {
        if i == idx {
            if idx < s0.modules.len() {
                crate::trie::lemma_str_lt_total(s0.modules[idx].name, msv[0]);
                if idx < j - 1 {
                    crate::trie::lemma_str_lt_transitive(
                        msv[0],
                        s0.modules[idx].name,
                        s0.modules[j - 1].name,
                    );
                }
            }
        } else if j == idx {
        } else if i < idx && j > idx {
        } else {
        }
    }
    assert(r.wf());
    assert(s0.modules.insert(idx, child) =~= r.modules);
    lemma_module_list_count_insert(s0.modules, idx, child);
    assert(r.modules[idx].name == msv[0] && r.modules[idx].has_action(msv.drop_first(), name));
    assert(r.has_action(msv, name));
    assert(r.modules[idx].holds_action(msv.drop_first(), act));
    assert(r.holds_action(msv, act));
    assert forall|ms2: Seq<Seq<char>>, n2: Seq<char>| s0.has_action(ms2, n2) implies #[trigger] r
        .has_action(ms2, n2) by {
        if ms2.len() > 0 {
            let j = choose|j: int|
                0 <= j < s0.modules.len() && (#[trigger] s0.modules[j]).name == ms2[0]
                    && s0.modules[j].has_action(ms2.drop_first(), n2);
            if j < idx {
                assert(r.modules[j].has_action(ms2.drop_first(), n2));
            } else {
                assert(r.modules[j + 1].has_action(ms2.drop_first(), n2));
            }
        }
    }
    assert forall|ms2: Seq<Seq<char>>, n2: Seq<char>| #[trigger] r.has_action(ms2, n2) implies s0
        .has_action(ms2, n2) || (ms2 == msv && n2 == name) by {
        if ms2.len() > 0 {
            let j = choose|j: int|
                0 <= j < r.modules.len() && (#[trigger] r.modules[j]).name == ms2[0]
                    && r.modules[j].has_action(ms2.drop_first(), n2);
            if j == idx {
                assert(ms2.drop_first() == msv.drop_first() && n2 == name);
                assert(ms2 =~= seq![ms2[0]] + ms2.drop_first());
                assert(msv =~= seq![msv[0]] + msv.drop_first());
                assert(ms2 == msv);
            } else if j < idx {
                assert(s0.modules[j].has_action(ms2.drop_first(), n2));
            } else {
                assert(s0.modules[j - 1].has_action(ms2.drop_first(), n2));
            }
        }
    }
    assert forall|ms2: Seq<Seq<char>>, a2: FlattenedActionV| s0.holds_action(ms2, a2)
        implies #[trigger] r.holds_action(ms2, a2) by {
        if ms2.len() > 0 {
            let j = choose|j: int|
                0 <= j < s0.modules.len() && (#[trigger] s0.modules[j]).name == ms2[0]
                    && s0.modules[j].holds_action(ms2.drop_first(), a2);
            if j < idx {
                assert(r.modules[j].holds_action(ms2.drop_first(), a2));
            } else {
                assert(r.modules[j + 1].holds_action(ms2.drop_first(), a2));
            }
        }
    }
    assert forall|ms2: Seq<Seq<char>>, a2: FlattenedActionV| #[trigger] r.holds_action(ms2, a2)
        implies s0.holds_action(ms2, a2) || (ms2 == msv && a2 == act) by {
        if ms2.len() > 0 {
            let j = choose|j: int|
                0 <= j < r.modules.len() && (#[trigger] r.modules[j]).name == ms2[0]
                    && r.modules[j].holds_action(ms2.drop_first(), a2);
            if j == idx {
                assert(ms2.drop_first() == msv.drop_first() && a2 == act);
                assert(ms2 =~= seq![ms2[0]] + ms2.drop_first());
                assert(msv =~= seq![msv[0]] + msv.drop_first());
                assert(ms2 == msv);
            } else if j < idx {
                assert(s0.modules[j].holds_action(ms2.drop_first(), a2));
            } else {
                assert(s0.modules[j - 1].holds_action(ms2.drop_first(), a2));
            }
        }
    }
}


/// The handler pairs of a whole configuration.
pub open spec fn spec_collect_root(r: RoutesV) -> Seq<(Seq<Seq<char>>, FlattenedActionV)> {
    spec_collect(r, Seq::empty(), Seq::empty())
}

impl FlattenedModules {
    /// Collect the handler pairs of a routes block sitting at the given path
    /// with the given inherited query parameters, in pre-order.
    fn collect(routes: &Routes, path: Vec<PathSegment>, query_parameters: Vec<Param>) -> (r: Vec<
        (Vec<String>, FlattenedAction),
    >)
        ensures
            spec_pairs_view(r@) == spec_collect(
                routes@,
                path@.map_values(|s: PathSegment| s@),
                query_parameters@.map_values(|p: Param| p@),
            ),
        decreases *routes,
    {
        let ghost pathv = path@.map_values(|s: PathSegment| s@);
        let ghost qps0 = query_parameters@.map_values(|p: Param| p@);
        let mut qps = query_parameters;
        let ghost qn0 = qps@.len();
        let mut i: usize = 0;
        while i < routes.query_parameters.len()
            invariant
                i <= routes.query_parameters@.len(),
                qps@.len() == qn0 + i,
                forall|k: int| 0 <= k < qn0 + i ==> (#[trigger] qps@[k])@ == (qps0 + routes@
                    .query_parameters)[k],
                qps0.len() == qn0,
                qps0 == query_parameters@.map_values(|p: Param| p@),
                routes@.query_parameters.len() == routes.query_parameters@.len(),
                forall|k: int|
                    0 <= k < routes.query_parameters@.len() ==> routes@.query_parameters[k] == (
                    #[trigger] routes.query_parameters@[k])@,
            decreases routes.query_parameters@.len() - i,
        {
            qps.push(routes.query_parameters[i].duplicate());
            i = i + 1;
        }
        let ghost qpsv = qps0 + routes@.query_parameters;
        proof {
            assert(qps@.map_values(|p: Param| p@) =~= qpsv);
        }
        let mut out: Vec<(Vec<String>, FlattenedAction)> = Vec::new();
        proof {
            assert(spec_pairs_view(out@) =~= spec_collect_resources(
                routes@.resources.take(0),
                pathv,
                qpsv,
            ));
        }
        let mut j: usize = 0;
        while j < routes.resources.len()
            invariant
                j <= routes.resources@.len(),
                routes@.resources.len() == routes.resources@.len(),
                pathv == path@.map_values(|s: PathSegment| s@),
                qps@.map_values(|p: Param| p@) == qpsv,
                forall|k: int|
                    0 <= k < routes.resources@.len() ==> routes@.resources[k] == (
                    #[trigger] routes.resources@[k])@,
                spec_pairs_view(out@) == spec_collect_resources(
                    routes@.resources.take(j as int),
                    pathv,
                    qpsv,
                ),
            decreases routes.resources@.len() - j,
        {
            let ghost prev = out@;
            let resource = &routes.resources[j];
            if !resource.is_redirect {
                let fp = FlattenedPath { segments: dup_segments(&path) };
                let rps = fp.dynamics();
                let mut aqps = dup_params(&qps);
                let mut extra = dup_params(&resource.query_parameters);
                let ghost aq0 = aqps@.map_values(|p: Param| p@);
                let ghost aq1 = extra@.map_values(|p: Param| p@);
                aqps.append(&mut extra);
                proof {
                    assert(aqps@.map_values(|p: Param| p@) =~= aq0 + aq1);
                }
                let action = FlattenedAction {
                    name: resource.name.clone(),
                    method: resource.method,
                    path: fp,
                    route_parameters: rps,
                    query_parameters: aqps,
                };
                let pair = (dup_strings(&resource.modules), action);
                proof {
                    assert(spec_pair_view(pair) == (
                        routes@.resources[j as int].modules,
                        spec_action_of(routes@.resources[j as int], pathv, qpsv),
                    ));
                }
                out.push(pair);
                proof {
                    assert(out@.drop_last() =~= prev);
                    assert(routes@.resources.take(j + 1).drop_last() =~= routes@.resources.take(
                        j as int,
                    ));
                    assert(spec_pairs_view(out@) =~= spec_collect_resources(
                        routes@.resources.take(j + 1),
                        pathv,
                        qpsv,
                    ));
                }
            } else {
                proof {
                    assert(routes@.resources.take(j + 1).drop_last() =~= routes@.resources.take(
                        j as int,
                    ));
                    assert(spec_pairs_view(out@) =~= spec_collect_resources(
                        routes@.resources.take(j + 1),
                        pathv,
                        qpsv,
                    ));
                }
            }
            j = j + 1;
        }
        proof {
            assert(routes@.resources.take(routes@.resources.len() as int) =~= routes@.resources);
        }
        let ghost head = spec_collect_resources(routes@.resources, pathv, qpsv);
        proof {
            crate::config::lemma_nested_list_view_elementwise(routes.routes@);
            assert(spec_pairs_view(out@) =~= head + spec_collect_children(
                routes@.routes.take(0),
                pathv,
                qpsv,
            ));
        }
        let mut k: usize = 0;
        while k < routes.routes.len()
            invariant
                k <= routes.routes@.len(),
                routes@.routes.len() == routes.routes@.len(),
                pathv == path@.map_values(|s: PathSegment| s@),
                qps@.map_values(|p: Param| p@) == qpsv,
                forall|j2: int|
                    0 <= j2 < routes.routes@.len() ==> routes@.routes[j2] == crate::config
                        ::spec_nested_view(#[trigger] routes.routes@[j2]),
                spec_pairs_view(out@) == head + spec_collect_children(
                    routes@.routes.take(k as int),
                    pathv,
                    qpsv,
                ),
            decreases routes.routes@.len() - k,
        {
            let child = &routes.routes[k];
            let mut new_path = dup_segments(&path);
            new_path.push(child.path_segment.duplicate());
            proof {
                assert(new_path@.map_values(|s: PathSegment| s@) =~= pathv.push(
                    routes@.routes[k as int].path_segment,
                ));
            }
            let mut sub = Self::collect(&child.routes, new_path, dup_params(&qps));
            let ghost sub_raw = sub@;
            let ghost subv = spec_pairs_view(sub_raw);
            let ghost prev = out@;
            out.append(&mut sub);
            proof {
                lemma_pairs_view_elementwise(prev);
                lemma_pairs_view_elementwise(sub_raw);
                lemma_pairs_view_elementwise(out@);
                assert(routes@.routes.take(k + 1).drop_last() =~= routes@.routes.take(k as int));
                assert(spec_pairs_view(out@) =~= spec_pairs_view(prev) + subv);
                assert(spec_pairs_view(out@) =~= head + spec_collect_children(
                    routes@.routes.take(k + 1),
                    pathv,
                    qpsv,
                ));
            }
            k = k + 1;
        }
        proof {
            assert(routes@.routes.take(routes@.routes.len() as int) =~= routes@.routes);
        }
        out
    }

    /// Group every non-redirect handler of a configuration into the module
    /// tree, failing with the qualifiers and name of a handler that two
    /// resources share.
    pub fn from_routes(routes: &Routes) -> (r: Result<FlattenedModules, (Vec<String>, String)>)
        ensures
            match r {
                Ok(fm) => {
                    &&& fm.root@.wf()
                    &&& fm.root@.name == "routes"@
                    &&& fm.root@.action_count() == spec_collect_root(routes@).len()
                    &&& forall|k: int|
                        0 <= k < spec_collect_root(routes@).len() ==> fm.root@.has_action(
                            (#[trigger] spec_collect_root(routes@)[k]).0,
                            spec_collect_root(routes@)[k].1.name,
                        )
                    &&& forall|ms2: Seq<Seq<char>>, n2: Seq<char>|
                        #[trigger] fm.root@.has_action(ms2, n2) ==> exists|k: int|
                            0 <= k < spec_collect_root(routes@).len() && (
                            #[trigger] spec_collect_root(routes@)[k]).0 == ms2
                                && spec_collect_root(routes@)[k].1.name == n2
                    &&& forall|i: int, j: int|
                        0 <= i < j < spec_collect_root(routes@).len() ==> !((
                        #[trigger] spec_collect_root(routes@)[i]).0 == (
                        #[trigger] spec_collect_root(routes@)[j]).0 && spec_collect_root(
                            routes@,
                        )[i].1.name == spec_collect_root(routes@)[j].1.name)
                    &&& forall|k: int|
                        0 <= k < spec_collect_root(routes@).len() ==> fm.root@.holds_action(
                            (#[trigger] spec_collect_root(routes@)[k]).0,
                            spec_collect_root(routes@)[k].1,
                        )
                    &&& forall|ms2: Seq<Seq<char>>, a2: FlattenedActionV|
                        #[trigger] fm.root@.holds_action(ms2, a2) ==> exists|k: int|
                            0 <= k < spec_collect_root(routes@).len() && (
                            #[trigger] spec_collect_root(routes@)[k]).0 == ms2
                                && spec_collect_root(routes@)[k].1 == a2
                },
                Err(e) => exists|i: int, j: int|
                    0 <= i < j < spec_collect_root(routes@).len() && (
                    #[trigger] spec_collect_root(routes@)[i]).0 == (
                    #[trigger] spec_collect_root(routes@)[j]).0 && spec_collect_root(
                        routes@,
                    )[i].1.name == spec_collect_root(routes@)[j].1.name,
            },
    {
        let empty_path: Vec<PathSegment> = Vec::new();
        let empty_qps: Vec<Param> = Vec::new();
        proof {
            assert(empty_path@.map_values(|s: PathSegment| s@) =~= Seq::<PathSegmentV>::empty());
            assert(empty_qps@.map_values(|p: Param| p@) =~= Seq::<ParamV>::empty());
        }
        let mut pairs = Self::collect(routes, empty_path, empty_qps);
        let ghost cv = spec_collect_root(routes@);
        let ghost all = pairs@;
        proof {
            lemma_pairs_view_elementwise(all);
        }
        let mut root = FlattenedModule {
            name: "routes".to_owned(),
            actions: Vec::new(),
            modules: Vec::new(),
        };
        proof {
            assert(root@.actions =~= Seq::<FlattenedActionV>::empty());
            assert(root@.modules =~= Seq::<FlattenedModuleV>::empty());
            assert(root@.wf());
            assert(root@.action_count() == 0);
        }
        loop
            invariant
                cv == spec_collect_root(routes@),
                cv == spec_pairs_view(all),
                cv.len() == all.len(),
                forall|k: int| 0 <= k < all.len() ==> #[trigger] cv[k] == spec_pair_view(all[k]),
                pairs@ == all.take(pairs@.len() as int),
                pairs@.len() <= all.len(),
                root@.wf(),
                root@.name == "routes"@,
                root@.action_count() == cv.len() - pairs@.len(),
                forall|ms2: Seq<Seq<char>>, n2: Seq<char>|
                    #[trigger] root@.has_action(ms2, n2) <==> exists|k: int|
                        pairs@.len() <= k < cv.len() && (#[trigger] cv[k]).0 == ms2 && cv[k].1.name
                            == n2,
                forall|ms2: Seq<Seq<char>>, a2: FlattenedActionV|
                    #[trigger] root@.holds_action(ms2, a2) <==> exists|k: int|
                        pairs@.len() <= k < cv.len() && (#[trigger] cv[k]).0 == ms2 && cv[k].1
                            == a2,
                forall|i: int, j: int|
                    pairs@.len() <= i < j < cv.len() ==> !((#[trigger] cv[i]).0 == (
                    #[trigger] cv[j]).0 && cv[i].1.name == cv[j].1.name),
            ensures
                pairs@.len() == 0 || exists|i: int, j: int|
                    0 <= i < j < cv.len() && (#[trigger] cv[i]).0 == (#[trigger] cv[j]).0
                        && cv[i].1.name == cv[j].1.name,
                pairs@.len() != 0 ==> root@.wf(),
                pairs@.len() == 0 ==> {
                    &&& root@.wf()
                    &&& root@.name == "routes"@
                    &&& root@.action_count() == cv.len()
                    &&& (forall|ms2: Seq<Seq<char>>, n2: Seq<char>|
                        #[trigger] root@.has_action(ms2, n2) <==> exists|k: int|
                            0 <= k < cv.len() && (#[trigger] cv[k]).0 == ms2 && cv[k].1.name == n2)
                    &&& (forall|ms2: Seq<Seq<char>>, a2: FlattenedActionV|
                        #[trigger] root@.holds_action(ms2, a2) <==> exists|k: int|
                            0 <= k < cv.len() && (#[trigger] cv[k]).0 == ms2 && cv[k].1 == a2)
                    &&& (forall|i: int, j: int|
                        0 <= i < j < cv.len() ==> !((#[trigger] cv[i]).0 == (#[trigger] cv[j]).0
                            && cv[i].1.name == cv[j].1.name))
                },
            decreases pairs@.len(),
        {
            let ghost m = pairs@.len();
            let popped = pairs.pop();
            match popped {
                None => {
                    proof {
                        assert(m == 0);
                    }
                    break;
                },
                Some(pair) => {
                    proof {
                        assert(all.take(m as int).last() == all[m - 1]);
                        assert(all.take(m as int).drop_last() =~= all.take(m - 1));
                        assert(cv[m - 1] == spec_pair_view(all[m - 1]));
                    }
                    let (ms_vec, action) = pair;
                    if root.has_action(ms_vec.as_slice(), action.name.as_str()) {
                        proof {
                            let k = choose|k: int|
                                m <= k < cv.len() && (#[trigger] cv[k]).0 == spec_pair_view(
                                    all[m - 1],
                                ).0 && cv[k].1.name == spec_pair_view(all[m - 1]).1.name;
                            assert(0 <= m - 1 < k < cv.len() && cv[m - 1].0 == cv[k].0 && cv[m
                                - 1].1.name == cv[k].1.name);
                        }
                        return Err((ms_vec, action.name));
                    }
                    root = root.insert_action(ms_vec.as_slice(), action);
                },
            }
        }
        if pairs.len() == 0 {
            Ok(FlattenedModules { root })
        } else {
            proof {
                assert(pairs@.len() != 0);
            }
            Err((Vec::new(), String::new()))
        }
    }
}

} // verus!
