//! The route configuration tree: the input of the pipeline.
//!
//! A configuration is a tree of path segments with resources (handler
//! endpoints) attached to its nodes, plus header lines pasted verbatim into
//! the emitted output.  `stringify` renders a configuration back into the
//! textual route-file syntax.

use itertools::Itertools;
use vstd::prelude::*;

verus! {

/// The HTTP methods that resources can respond to.
#[derive(Debug, Clone, Copy, PartialEq, Eq, Structural)]
pub enum Method {
    Get,
    Post,
    Put,
    Delete,
}

impl Method {
    /// The method's text, at the specification level.
    pub open spec fn spec_str(self) -> Seq<char> {
        match self {
            Method::Get => "GET"@,
            Method::Post => "POST"@,
            Method::Put => "PUT"@,
            Method::Delete => "DELETE"@,
        }
    }

    /// The textual form of the method, as it appears in route files.
    pub fn as_str(&self) -> (r: &'static str)
        ensures
            r@ == self.spec_str(),
    {
        match self {
            Method::Get => "GET",
            Method::Post => "POST",
            Method::Put => "PUT",
            Method::Delete => "DELETE",
        }
    }

    /// The method literal as it appears in emitted matching code: the text
    /// wrapped in a byte-string literal.
    pub open spec fn spec_byte_str(self) -> Seq<char> {
        "b\""@ + self.spec_str() + "\""@
    }

    /// Render the method as a byte-string literal for emitted code.
    pub fn byte_str(&self) -> (r: String)
        ensures
            r@ == self.spec_byte_str(),
    {
        let mut s = String::new();
        s.append("b\"");
        s.append(self.as_str());
        s.append("\"");
        s
    }
}

/// Path and query parameters have a name and a type.
#[derive(Debug, Clone, PartialEq, Eq)]
pub struct Param {
    pub name: String,
    pub typ: String,
}

/// The mathematical value of a `Param`: its two texts.
pub ghost struct ParamV {
    pub name: Seq<char>,
    pub typ: Seq<char>,
}

impl View for Param {
    type V = ParamV;

    open spec fn view(&self) -> ParamV {
        ParamV { name: self.name@, typ: self.typ@ }
    }
}

impl ParamV {
    /// How a parameter is displayed: `name: type`.
    pub open spec fn spec_str(self) -> Seq<char> {
        self.name + ": "@ + self.typ
    }
}

impl Param {
    pub fn new(name: &str, typ: &str) -> (r: Param)
        ensures
            r@.name == name@,
            r@.typ == typ@,
    {
        Param { name: name.to_owned(), typ: typ.to_owned() }
    }

    /// Display form `name: type`.
    pub fn stringify(&self) -> (r: String)
        ensures
            r@ == self@.spec_str(),
    {
        let mut s = String::new();
        s.append(self.name.as_str());
        s.append(": ");
        s.append(self.typ.as_str());
        s
    }
}

impl Param {
    /// An owned copy of the parameter with the same value.
    pub fn duplicate(&self) -> (r: Param)
        ensures
            r@ == self@,
    {
        Param { name: self.name.clone(), typ: self.typ.clone() }
    }
}

/// Owned copies of a list of parameters, with the same values.
pub fn dup_params(v: &Vec<Param>) -> (r: Vec<Param>)
    ensures
        r@.map_values(|p: Param| p@) == v@.map_values(|p: Param| p@),
{
    let mut out: Vec<Param> = Vec::new();
    let mut i: usize = 0;
    while i < v.len()
        invariant
            i <= v.len(),
            out@.len() == i,
            forall|k: int| 0 <= k < i ==> (#[trigger] out@[k])@ == v@[k]@,
        decreases v.len() - i,
    {
        out.push(v[i].duplicate());
        i = i + 1;
    }
    proof {
        assert(out@.map_values(|p: Param| p@) =~= v@.map_values(|p: Param| p@));
    }
    out
}

/// Owned copies of a list of texts, with the same values.
pub fn dup_strings(v: &Vec<String>) -> (r: Vec<String>)
    ensures
        r@.map_values(|m: String| m@) == v@.map_values(|m: String| m@),
{
    let mut out: Vec<String> = Vec::new();
    let mut i: usize = 0;
    while i < v.len()
        invariant
            i <= v.len(),
            out@.len() == i,
            forall|k: int| 0 <= k < i ==> (#[trigger] out@[k])@ == v@[k]@,
        decreases v.len() - i,
    {
        out.push(v[i].clone());
        i = i + 1;
    }
    proof {
        assert(out@.map_values(|m: String| m@) =~= v@.map_values(|m: String| m@));
    }
    out
}

/// A path segment is either a static string or a dynamic parameter.
#[derive(Debug, Clone, PartialEq, Eq)]
pub enum PathSegment {
    Static(String),
    Dynamic(Param),
}

/// The mathematical value of a `PathSegment`.
pub ghost enum PathSegmentV {
    Static(Seq<char>),
    Dynamic(ParamV),
}

impl View for PathSegment {
    type V = PathSegmentV;

    open spec fn view(&self) -> PathSegmentV {
        match self {
            PathSegment::Static(s) => PathSegmentV::Static(s@),
            PathSegment::Dynamic(p) => PathSegmentV::Dynamic(p@),
        }
    }
}

impl PathSegmentV {
    /// How a segment is displayed: the literal text, or `name: type` for a
    /// dynamic parameter.
    pub open spec fn spec_str(self) -> Seq<char> {
        match self {
            PathSegmentV::Static(s) => s,
            PathSegmentV::Dynamic(p) => p.spec_str(),
        }
    }
}

impl PathSegment {
    /// Build a static segment from its text.
    pub fn from_static(s: &str) -> (r: PathSegment)
        ensures
            r@ == PathSegmentV::Static(s@),
    {
        PathSegment::Static(s.to_owned())
    }

    /// Build a dynamic segment from its parameter.
    pub fn from_param(p: Param) -> (r: PathSegment)
        ensures
            r@ == PathSegmentV::Dynamic(p@),
    {
        PathSegment::Dynamic(p)
    }

    /// Display form: the static text, or `name: type`.
    pub fn stringify(&self) -> (r: String)
        ensures
            r@ == self@.spec_str(),
    {
        match self {
            PathSegment::Static(s) => s.clone(),
            PathSegment::Dynamic(p) => p.stringify(),
        }
    }
}

impl PathSegment {
    /// An owned copy of the segment with the same value.
    pub fn duplicate(&self) -> (r: PathSegment)
        ensures
            r@ == self@,
    {
        match self {
            PathSegment::Static(s) => PathSegment::Static(s.clone()),
            PathSegment::Dynamic(p) => PathSegment::Dynamic(p.duplicate()),
        }
    }
}

/// Owned copies of a list of path segments, with the same values.
pub fn dup_segments(v: &Vec<PathSegment>) -> (r: Vec<PathSegment>)
    ensures
        r@.map_values(|s: PathSegment| s@) == v@.map_values(|s: PathSegment| s@),
{
    let mut out: Vec<PathSegment> = Vec::new();
    let mut i: usize = 0;
    while i < v.len()
        invariant
            i <= v.len(),
            out@.len() == i,
            forall|k: int| 0 <= k < i ==> (#[trigger] out@[k])@ == v@[k]@,
        decreases v.len() - i,
    {
        out.push(v[i].duplicate());
        i = i + 1;
    }
    proof {
        assert(out@.map_values(|s: PathSegment| s@) =~= v@.map_values(|s: PathSegment| s@));
    }
    out
}

/// A bit of inline code above the route table.  Usually for `use` items.
#[derive(Debug, Clone, PartialEq, Eq, Hash)]
pub struct Header {
    pub text: String,
}

impl View for Header {
    type V = Seq<char>;

    open spec fn view(&self) -> Seq<char> {
        self.text@
    }
}

impl Header {
    pub fn new(text: &str) -> (r: Header)
        ensures
            r@ == text@,
    {
        Header { text: text.to_owned() }
    }
}

/// Two spaces per nesting level, with the original renderer's cap.
///
/// Every level of eight or more renders the same text, so `spec_next_level`
/// may cap the level without changing any rendered output.
pub open spec fn spec_indent(level: int) -> Seq<char> {
    if level <= 0 {
        Seq::empty()
    } else if level == 1 {
        "  "@
    } else if level == 2 {
        "    "@
    } else if level == 3 {
        "      "@
    } else if level == 4 {
        "        "@
    } else if level == 5 {
        "          "@
    } else if level == 6 {
        "            "@
    } else if level == 7 {
        "              "@
    } else {
        "              --"@
    }
}

/// Indentation for a nesting level: two spaces per level, capped as in the
/// original renderer.
pub fn indent(level: usize) -> (r: &'static str)
    ensures
        r@ == spec_indent(level as int),
{
    proof {
        reveal_strlit("");
        assert(""@ =~= Seq::<char>::empty());
    }
    match level {
        0 => "",
        1 => "  ",
        2 => "    ",
        3 => "      ",
        4 => "        ",
        5 => "          ",
        6 => "            ",
        7 => "              ",
        _ => "              --",
    }
}

/// A resource available at a specific path.
#[derive(Debug, Clone, PartialEq, Eq)]
pub struct Resource {
    pub method: Method,
    pub modules: Vec<String>,
    pub name: String,
    pub is_redirect: bool,
    pub query_parameters: Vec<Param>,
}

/// The mathematical value of a `Resource`.
pub ghost struct ResourceV {
    pub method: Method,
    pub modules: Seq<Seq<char>>,
    pub name: Seq<char>,
    pub is_redirect: bool,
    pub query_parameters: Seq<ParamV>,
}

impl View for Resource {
    type V = ResourceV;

    open spec fn view(&self) -> ResourceV {
        ResourceV {
            method: self.method,
            modules: self.modules@.map_values(|m: String| m@),
            name: self.name@,
            is_redirect: self.is_redirect,
            query_parameters: self.query_parameters@.map_values(|p: Param| p@),
        }
    }
}

/// The module qualifiers of a resource line: each module name followed by
/// `::`.
pub open spec fn spec_modules_str(ms: Seq<Seq<char>>) -> Seq<char>
    decreases ms.len(),
{
    if ms.len() == 0 {
        Seq::empty()
    } else {
        spec_modules_str(ms.drop_last()) + ms.last() + "::"@
    }
}

/// The query-parameter lines attached below a resource line, each on a line
/// of its own, indented one level further.
pub open spec fn spec_resource_params_str(ps: Seq<ParamV>, level: int) -> Seq<char>
    decreases ps.len(),
{
    if ps.len() == 0 {
        Seq::empty()
    } else {
        spec_resource_params_str(ps.drop_last(), level) + "\n"@ + spec_indent(
            spec_next_level(level),
        ) + "["@ + ps.last().spec_str() + "]"@
    }
}

/// The nesting level of the line below this one.  Levels are capped where
/// the indentation text itself is capped, so this never overflows and
/// renders exactly as an uncapped level would.
pub open spec fn spec_next_level(level: int) -> int {
    if level < 8 {
        level + 1
    } else {
        8
    }
}

/// Step to the next nesting level, capped as `spec_next_level` is.
pub fn next_level(level: usize) -> (r: usize)
    ensures
        r as int == spec_next_level(level as int),
{
    if level < 8 {
        level + 1
    } else {
        8
    }
}

impl ResourceV {
    /// The resource's line (with its query-parameter lines) in the textual
    /// route syntax.
    pub open spec fn spec_stringify(self, level: int) -> Seq<char> {
        spec_indent(level) + self.method.spec_str() + (if self.is_redirect {
            " ->"@
        } else {
            Seq::empty()
        }) + " "@ + spec_modules_str(self.modules) + self.name
            + spec_resource_params_str(self.query_parameters, level) + "\n"@
    }
}

impl Resource {
    /// Split a non-empty handler path into module qualifiers and a final
    /// name, as the declarative construction helpers do.
    pub fn make(method: Method, handler: Vec<String>, is_redirect: bool, query_parameters: Vec<
        Param,
    >) -> (r: Resource)
        requires
            handler@.len() > 0,
        ensures
            r@.method == method,
            r@.modules == handler@.map_values(|m: String| m@).drop_last(),
            r@.name == handler@.map_values(|m: String| m@).last(),
            r@.is_redirect == is_redirect,
            r@.query_parameters == query_parameters@.map_values(|p: Param| p@),
    {
        let mut ms = handler;
        let n = ms.remove(ms.len() - 1);
        proof {
            assert(ms@.map_values(|m: String| m@) =~= handler@.map_values(
                |m: String| m@,
            ).drop_last());
        }
        Resource { method, modules: ms, name: n, is_redirect, query_parameters }
    }

    /// Render the resource's line (with its query-parameter lines) in the
    /// textual route syntax.
    pub fn stringify(&self, level: usize) -> (r: String)
        ensures
            r@ == self@.spec_stringify(level as int),
    {
        let mut s = String::new();
        s.append(indent(level));
        s.append(self.method.as_str());
        if self.is_redirect {
            s.append(" ->");
        }
        s.append(" ");
        let ghost ms = self@.modules;
        proof {
            assert(ms.take(0) =~= Seq::<Seq<char>>::empty());
        }
        let mut i: usize = 0;
        while i < self.modules.len()
            invariant
                i <= self.modules.len(),
                ms == self@.modules,
                self.modules@.map_values(|m: String| m@) == ms,
                s@ == spec_indent(level as int) + self.method.spec_str() + (if self.is_redirect {
                    " ->"@
                } else {
                    Seq::<char>::empty()
                }) + " "@ + spec_modules_str(ms.take(i as int)),
            decreases self.modules.len() - i,
        {
            s.append(self.modules[i].as_str());
            s.append("::");
            proof {
                assert(ms.take(i + 1).drop_last() =~= ms.take(i as int));
            }
            i = i + 1;
        }
        proof {
            assert(ms.take(self.modules@.len() as int) =~= ms);
        }
        s.append(self.name.as_str());
        let ghost ps = self@.query_parameters;
        let ghost mid = s@;
        proof {
            assert(ps.take(0) =~= Seq::<ParamV>::empty());
        }
        let mut j: usize = 0;
        while j < self.query_parameters.len()
            invariant
                j <= self.query_parameters.len(),
                ps == self@.query_parameters,
                self.query_parameters@.map_values(|p: Param| p@) == ps,
                s@ == mid + spec_resource_params_str(ps.take(j as int), level as int),
            decreases self.query_parameters.len() - j,
        {
            s.append("\n");
            s.append(indent(next_level(level)));
            s.append("[");
            let p = self.query_parameters[j].stringify();
            s.append(p.as_str());
            s.append("]");
            proof {
                assert(ps.take(j + 1).drop_last() =~= ps.take(j as int));
            }
            j = j + 1;
        }
        proof {
            assert(ps.take(self.query_parameters@.len() as int) =~= ps);
        }
        s.append("\n");
        s
    }
}

impl Resource {
    /// An owned copy of the resource with the same value.
    pub fn duplicate(&self) -> (r: Resource)
        ensures
            r@ == self@,
    {
        Resource {
            method: self.method,
            modules: dup_strings(&self.modules),
            name: self.name.clone(),
            is_redirect: self.is_redirect,
            query_parameters: dup_params(&self.query_parameters),
        }
    }
}

/// Owned copies of a list of resources, with the same values.
pub fn dup_resources(v: &Vec<Resource>) -> (r: Vec<Resource>)
    ensures
        r@.map_values(|x: Resource| x@) == v@.map_values(|x: Resource| x@),
{
    let mut out: Vec<Resource> = Vec::new();
    let mut i: usize = 0;
    while i < v.len()
        invariant
            i <= v.len(),
            out@.len() == i,
            forall|k: int| 0 <= k < i ==> (#[trigger] out@[k])@ == v@[k]@,
        decreases v.len() - i,
    {
        out.push(v[i].duplicate());
        i = i + 1;
    }
    proof {
        assert(out@.map_values(|x: Resource| x@) =~= v@.map_values(|x: Resource| x@));
    }
    out
}

/// A listing of resources and nested routes.
#[derive(Debug, PartialEq, Eq)]
pub struct Routes {
    pub resources: Vec<Resource>,
    pub routes: Vec<NestedRoutes>,
    pub query_parameters: Vec<Param>,
}

/// A block of routes nested under a path segment.
#[derive(Debug, PartialEq, Eq)]
pub struct NestedRoutes {
    pub path_segment: PathSegment,
    pub routes: Routes,
}

/// The mathematical value of a `Routes`.
pub ghost struct RoutesV {
    pub resources: Seq<ResourceV>,
    pub routes: Seq<NestedRoutesV>,
    pub query_parameters: Seq<ParamV>,
}

/// The mathematical value of a `NestedRoutes`.
pub ghost struct NestedRoutesV {
    pub path_segment: PathSegmentV,
    pub routes: RoutesV,
}

/// The mathematical value of a `Routes`, computed recursively over the tree.
pub open spec fn spec_routes_view(r: Routes) -> RoutesV
    decreases r,
{
    RoutesV {
        resources: r.resources@.map_values(|x: Resource| x@),
        routes: spec_nested_list_view(r.routes@),
        query_parameters: r.query_parameters@.map_values(|p: Param| p@),
    }
}

/// The values of a list of nested route blocks.
pub open spec fn spec_nested_list_view(ns: Seq<NestedRoutes>) -> Seq<NestedRoutesV>
    decreases ns,
{
    if ns.len() == 0 {
        Seq::empty()
    } else {
        spec_nested_list_view(ns.drop_last()).push(spec_nested_view(ns.last()))
    }
}

/// The mathematical value of a `NestedRoutes`.
pub open spec fn spec_nested_view(n: NestedRoutes) -> NestedRoutesV
    decreases n,
{
    NestedRoutesV { path_segment: n.path_segment@, routes: spec_routes_view(n.routes) }
}

impl View for Routes {
    type V = RoutesV;

    open spec fn view(&self) -> RoutesV {
        spec_routes_view(*self)
    }
}

impl View for NestedRoutes {
    type V = NestedRoutesV;

    open spec fn view(&self) -> NestedRoutesV {
        spec_nested_view(*self)
    }
}

/// The query-parameter lines at the top of a routes block, one per line.
pub open spec fn spec_routes_params_str(ps: Seq<ParamV>, level: int) -> Seq<char>
    decreases ps.len(),
{
    if ps.len() == 0 {
        Seq::empty()
    } else {
        spec_routes_params_str(ps.drop_last(), level) + spec_indent(level) + "["@
            + ps.last().spec_str() + "]\n"@
    }
}

/// The resource lines of a routes block, in declaration order.
pub open spec fn spec_resources_str(rs: Seq<ResourceV>, level: int) -> Seq<char>
    decreases rs.len(),
{
    if rs.len() == 0 {
        Seq::empty()
    } else {
        spec_resources_str(rs.drop_last(), level) + rs.last().spec_stringify(level)
    }
}

/// The nested blocks of a routes block, in declaration order.
pub open spec fn spec_nested_list_str(ns: Seq<NestedRoutesV>, level: int) -> Seq<char>
    decreases ns,
{
    if ns.len() == 0 {
        Seq::empty()
    } else {
        spec_nested_list_str(ns.drop_last(), level) + ns.last().spec_stringify(level)
    }
}

impl RoutesV {
    /// The textual rendering of a routes block: query parameters, then
    /// resources, then nested blocks.
    pub open spec fn spec_stringify(self, level: int) -> Seq<char>
        decreases self,
    {
        spec_routes_params_str(self.query_parameters, level) + spec_resources_str(
            self.resources,
            level,
        ) + spec_nested_list_str(self.routes, level)
    }
}

impl NestedRoutesV {
    /// The textual rendering of a nested block: the segment line, then the
    /// block's routes one level deeper.
    pub open spec fn spec_stringify(self, level: int) -> Seq<char>
        decreases self,
    {
        spec_indent(level) + (match self.path_segment {
            PathSegmentV::Static(s) => s,
            PathSegmentV::Dynamic(p) => "{"@ + p.spec_str() + "}"@,
        }) + "\n"@ + self.routes.spec_stringify(spec_next_level(level))
    }
}

impl Routes {
    /// Render the block in the textual route syntax.
    pub fn stringify(&self, level: usize) -> (r: String)
        ensures
            r@ == self@.spec_stringify(level as int),
        decreases *self,
    {
        let mut s = String::new();
        let ghost ps = self@.query_parameters;
        proof {
            assert(ps.take(0) =~= Seq::<ParamV>::empty());
            assert(s@ =~= spec_routes_params_str(ps.take(0), level as int));
        }
        let mut i: usize = 0;
        while i < self.query_parameters.len()
            invariant
                i <= self.query_parameters.len(),
                self.query_parameters@.map_values(|p: Param| p@) == ps,
                s@ == spec_routes_params_str(ps.take(i as int), level as int),
            decreases self.query_parameters.len() - i,
        {
            s.append(indent(level));
            s.append("[");
            let p = self.query_parameters[i].stringify();
            s.append(p.as_str());
            s.append("]\n");
            proof {
                assert(ps.take(i + 1).drop_last() =~= ps.take(i as int));
            }
            i = i + 1;
        }
        proof {
            assert(ps.take(self.query_parameters@.len() as int) =~= ps);
        }
        let ghost rs = self@.resources;
        let ghost mid1 = s@;
        proof {
            assert(rs.take(0) =~= Seq::<ResourceV>::empty());
        }
        let mut j: usize = 0;
        while j < self.resources.len()
            invariant
                j <= self.resources.len(),
                self.resources@.map_values(|x: Resource| x@) == rs,
                s@ == mid1 + spec_resources_str(rs.take(j as int), level as int),
            decreases self.resources.len() - j,
        {
            let line = self.resources[j].stringify(level);
            s.append(line.as_str());
            proof {
                assert(rs.take(j + 1).drop_last() =~= rs.take(j as int));
            }
            j = j + 1;
        }
        proof {
            assert(rs.take(self.resources@.len() as int) =~= rs);
        }
        let ghost ns = self@.routes;
        let ghost mid2 = s@;
        proof {
            assert(ns.take(0) =~= Seq::<NestedRoutesV>::empty());
        }
        let mut k: usize = 0;
        while k < self.routes.len()
            invariant
                k <= self.routes.len(),
                spec_nested_list_view(self.routes@) == ns,
                s@ == mid2 + spec_nested_list_str(ns.take(k as int), level as int),
            decreases self.routes.len() - k,
        {
            proof {
                lemma_nested_list_view_len(self.routes@);
                lemma_nested_list_view_take(self.routes@, k + 1);
                lemma_nested_list_view_len(self.routes@.take(k + 1));
                assert(self.routes@.take(k + 1).last() == self.routes@[k as int]);
                assert(ns.take(k + 1).last() == spec_nested_view(self.routes@[k as int]));
                assert(ns.take(k + 1).drop_last() =~= ns.take(k as int));
            }
            let block = self.routes[k].stringify(level);
            s.append(block.as_str());
            k = k + 1;
        }
        proof {
            lemma_nested_list_view_len(self.routes@);
            assert(ns.take(self.routes@.len() as int) =~= ns);
        }
        s
    }
}

/// A nested-routes list and its value list have the same length.
pub proof fn lemma_nested_list_view_len(ns: Seq<NestedRoutes>)
    ensures
        spec_nested_list_view(ns).len() == ns.len(),
    decreases ns.len(),
{
    if ns.len() > 0 {
        lemma_nested_list_view_len(ns.drop_last());
    }
}

/// A nested-routes list and its value list agree element by element.
pub proof fn lemma_nested_list_view_elementwise(ns: Seq<NestedRoutes>)
    ensures
        spec_nested_list_view(ns).len() == ns.len(),
        forall|i: int|
            0 <= i < ns.len() ==> #[trigger] spec_nested_list_view(ns)[i] == spec_nested_view(
                ns[i],
            ),
    decreases ns.len(),
{
    if ns.len() > 0 {
        lemma_nested_list_view_elementwise(ns.drop_last());
        assert forall|i: int| 0 <= i < ns.len() implies #[trigger] spec_nested_list_view(ns)[i]
            == spec_nested_view(ns[i]) by {
            if i < ns.len() - 1 {
                assert(ns.drop_last()[i] == ns[i]);
                assert(spec_nested_list_view(ns.drop_last())[i] == spec_nested_view(
                    ns.drop_last()[i],
                ));
            }
        }
    }
}

/// The value list of a prefix of a nested-routes list is the prefix of the
/// value list.
pub proof fn lemma_nested_list_view_take(ns: Seq<NestedRoutes>, i: int)
    requires
        0 <= i <= ns.len(),
    ensures
        spec_nested_list_view(ns.take(i)) =~= spec_nested_list_view(ns).take(i),
    decreases ns.len(),
{
    lemma_nested_list_view_len(ns);
    if ns.len() == 0 {
        assert(ns.take(i) =~= ns);
    } else if i == ns.len() {
        assert(ns.take(i) =~= ns);
        assert(spec_nested_list_view(ns).take(i) =~= spec_nested_list_view(ns));
    } else {
        lemma_nested_list_view_take(ns.drop_last(), i);
        lemma_nested_list_view_len(ns.drop_last());
        assert(ns.take(i) =~= ns.drop_last().take(i));
        assert(spec_nested_list_view(ns).take(i) =~= spec_nested_list_view(ns.drop_last()).take(i));
    }
}

impl NestedRoutes {
    pub fn new(path_segment: PathSegment, routes: Routes) -> (r: NestedRoutes)
        ensures
            r@.path_segment == path_segment@,
            r@.routes == routes@,
    {
        NestedRoutes { path_segment, routes }
    }

    /// Render the segment line and its block in the textual route syntax.
    pub fn stringify(&self, level: usize) -> (r: String)
        ensures
            r@ == self@.spec_stringify(level as int),
        decreases *self,
    {
        let mut s = String::new();
        s.append(indent(level));
        match &self.path_segment {
            PathSegment::Static(st) => {
                s.append(st.as_str());
            },
            PathSegment::Dynamic(p) => {
                s.append("{");
                let pt = p.stringify();
                s.append(pt.as_str());
                s.append("}");
            },
        }
        s.append("\n");
        let block = self.routes.stringify(next_level(level));
        s.append(block.as_str());
        s
    }
}

/// An entire routing file: header lines, then the route tree.
#[derive(Debug, PartialEq, Eq)]
pub struct RouteConfig {
    pub headers: Vec<Header>,
    pub routes: Routes,
}

/// The mathematical value of a `RouteConfig`.
pub ghost struct RouteConfigV {
    pub headers: Seq<Seq<char>>,
    pub routes: RoutesV,
}

impl View for RouteConfig {
    type V = RouteConfigV;

    open spec fn view(&self) -> RouteConfigV {
        RouteConfigV {
            headers: self.headers@.map_values(|h: Header| h@),
            routes: self.routes@,
        }
    }
}

/// The header lines of a routing file, each on a line of its own.
pub open spec fn spec_headers_str(hs: Seq<Seq<char>>) -> Seq<char>
    decreases hs.len(),
{
    if hs.len() == 0 {
        Seq::empty()
    } else {
        spec_headers_str(hs.drop_last()) + hs.last() + "\n"@
    }
}

impl RouteConfigV {
    /// The textual rendering of a routing file: the headers, a blank line
    /// when there are any, the `/` line, and the route tree at level one.
    pub open spec fn spec_stringify(self) -> Seq<char> {
        spec_headers_str(self.headers) + (if self.headers.len() > 0 {
            "\n"@
        } else {
            Seq::empty()
        }) + "/\n"@ + self.routes.spec_stringify(1)
    }
}

/// Drop every later occurrence of a repeated element, keeping first
/// occurrences in order.
pub open spec fn spec_dedup_first(s: Seq<Seq<char>>) -> Seq<Seq<char>>
    decreases s.len(),
{
    if s.len() == 0 {
        Seq::empty()
    } else {
        let prefix = spec_dedup_first(s.drop_last());
        if prefix.contains(s.last()) {
            prefix
        } else {
            prefix.push(s.last())
        }
    }
}

/// Relies on itertools' `unique` iterator adaptor: it yields the first
/// occurrence of each distinct element in order, comparing headers by their
/// derived equality, which compares their texts.
#[verifier::external_body]
fn unique_headers(v: Vec<Header>) -> (r: Vec<Header>)
    ensures
        r@.map_values(|h: Header| h@) == spec_dedup_first(v@.map_values(|h: Header| h@)),
{
    v.into_iter().unique().collect()
}

impl RouteConfig {
    /// Render the routing file in the textual route syntax.
    pub fn stringify(&self) -> (r: String)
        ensures
            r@ == self@.spec_stringify(),
    {
        let mut s = String::new();
        let ghost hs = self@.headers;
        proof {
            assert(hs.take(0) =~= Seq::<Seq<char>>::empty());
        }
        let mut i: usize = 0;
        while i < self.headers.len()
            invariant
                i <= self.headers.len(),
                self.headers@.map_values(|h: Header| h@) == hs,
                s@ == spec_headers_str(hs.take(i as int)),
            decreases self.headers.len() - i,
        {
            s.append(self.headers[i].text.as_str());
            s.append("\n");
            proof {
                assert(hs.take(i + 1).drop_last() =~= hs.take(i as int));
            }
            i = i + 1;
        }
        proof {
            assert(hs.take(self.headers@.len() as int) =~= hs);
        }
        if self.headers.len() > 0 {
            s.append("\n");
        }
        s.append("/\n");
        let block = self.routes.stringify(1);
        s.append(block.as_str());
        s
    }

    /// Graft another configuration's routes under a static path segment,
    /// carrying its headers over and dropping headers already present.
    pub fn mount(self, at: &str, config: RouteConfig) -> (r: RouteConfig)
        ensures
            r@.headers == spec_dedup_first(self@.headers + config@.headers),
            r@.routes.resources == self@.routes.resources,
            r@.routes.query_parameters == self@.routes.query_parameters,
            r@.routes.routes == self@.routes.routes.push(
                NestedRoutesV {
                    path_segment: PathSegmentV::Static(at@),
                    routes: config@.routes,
                },
            ),
    {
        let RouteConfig { headers, routes } = self;
        let RouteConfig { headers: extra, routes: grafted } = config;
        let mut headers = headers;
        let mut extra = extra;
        let ghost own = headers@;
        let ghost added = extra@;
        headers.append(&mut extra);
        proof {
            assert((own + added).map_values(|h: Header| h@) =~= own.map_values(|h: Header| h@)
                + added.map_values(|h: Header| h@));
        }
        let headers = unique_headers(headers);
        let mut routes = routes;
        let ghost orig_nested = routes.routes@;
        routes.routes.push(NestedRoutes::new(PathSegment::from_static(at), grafted));
        proof {
            assert(routes.routes@.drop_last() =~= orig_nested);
            assert(spec_nested_list_view(routes.routes@) == spec_nested_list_view(
                orig_nested,
            ).push(spec_nested_view(routes.routes@.last())));
        }
        RouteConfig { headers, routes }
    }
}

} // verus!
