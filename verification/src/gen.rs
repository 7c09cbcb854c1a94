//! The emitter: walk the flattened module hierarchy and the matching trie,
//! and append the generated matcher source to a text buffer.
//!
//! Every function here states the exact text it appends, so a caller knows
//! the output byte for byte.

use vstd::prelude::*;

use crate::config::{Header, Method, Param, ParamV, RouteConfig};
use crate::flat::{
    Charlike, CharlikeV, FlattenedModule, FlattenedModuleV, FlattenedModules, FlattenedRoute,
    FlattenedRouteV, FlattenedRoutes, FlattenedAction, spec_collect_root, spec_flatten,
    spec_path_charlikes, spec_path_dynamics,
};
use crate::trie::{Trie, dyn_sep_wf};

verus! {

/// Uppercase an ASCII letter; leave any other character alone.
pub open spec fn spec_upper(c: char) -> char {
    if c == 'a' {
        'A'
    } else if c == 'b' {
        'B'
    } else if c == 'c' {
        'C'
    } else if c == 'd' {
        'D'
    } else if c == 'e' {
        'E'
    } else if c == 'f' {
        'F'
    } else if c == 'g' {
        'G'
    } else if c == 'h' {
        'H'
    } else if c == 'i' {
        'I'
    } else if c == 'j' {
        'J'
    } else if c == 'k' {
        'K'
    } else if c == 'l' {
        'L'
    } else if c == 'm' {
        'M'
    } else if c == 'n' {
        'N'
    } else if c == 'o' {
        'O'
    } else if c == 'p' {
        'P'
    } else if c == 'q' {
        'Q'
    } else if c == 'r' {
        'R'
    } else if c == 's' {
        'S'
    } else if c == 't' {
        'T'
    } else if c == 'u' {
        'U'
    } else if c == 'v' {
        'V'
    } else if c == 'w' {
        'W'
    } else if c == 'x' {
        'X'
    } else if c == 'y' {
        'Y'
    } else if c == 'z' {
        'Z'
    } else {
        c
    }
}

/// Lowercase an ASCII letter; leave any other character alone.
pub open spec fn spec_lower(c: char) -> char {
    if c == 'A' {
        'a'
    } else if c == 'B' {
        'b'
    } else if c == 'C' {
        'c'
    } else if c == 'D' {
        'd'
    } else if c == 'E' {
        'e'
    } else if c == 'F' {
        'f'
    } else if c == 'G' {
        'g'
    } else if c == 'H' {
        'h'
    } else if c == 'I' {
        'i'
    } else if c == 'J' {
        'j'
    } else if c == 'K' {
        'k'
    } else if c == 'L' {
        'l'
    } else if c == 'M' {
        'm'
    } else if c == 'N' {
        'n'
    } else if c == 'O' {
        'o'
    } else if c == 'P' {
        'p'
    } else if c == 'Q' {
        'q'
    } else if c == 'R' {
        'r'
    } else if c == 'S' {
        's'
    } else if c == 'T' {
        't'
    } else if c == 'U' {
        'u'
    } else if c == 'V' {
        'v'
    } else if c == 'W' {
        'w'
    } else if c == 'X' {
        'x'
    } else if c == 'Y' {
        'y'
    } else if c == 'Z' {
        'z'
    } else {
        c
    }
}

/// Whether a character is an ASCII uppercase letter.
pub open spec fn spec_is_upper(c: char) -> bool {
    'A' <= c <= 'Z'
}

/// The text of an ASCII letter uppercased, as a one-character text.
fn upper_str(c: char) -> (r: String)
    ensures
        r@ =~= seq![spec_upper(c)],
{
    proof {
        reveal_strlit("A");
        reveal_strlit("B");
        reveal_strlit("C");
        reveal_strlit("D");
        reveal_strlit("E");
        reveal_strlit("F");
        reveal_strlit("G");
        reveal_strlit("H");
        reveal_strlit("I");
        reveal_strlit("J");
        reveal_strlit("K");
        reveal_strlit("L");
        reveal_strlit("M");
        reveal_strlit("N");
        reveal_strlit("O");
        reveal_strlit("P");
        reveal_strlit("Q");
        reveal_strlit("R");
        reveal_strlit("S");
        reveal_strlit("T");
        reveal_strlit("U");
        reveal_strlit("V");
        reveal_strlit("W");
        reveal_strlit("X");
        reveal_strlit("Y");
        reveal_strlit("Z");
    }
    match c {
        'a' => "A".to_owned(),
        'b' => "B".to_owned(),
        'c' => "C".to_owned(),
        'd' => "D".to_owned(),
        'e' => "E".to_owned(),
        'f' => "F".to_owned(),
        'g' => "G".to_owned(),
        'h' => "H".to_owned(),
        'i' => "I".to_owned(),
        'j' => "J".to_owned(),
        'k' => "K".to_owned(),
        'l' => "L".to_owned(),
        'm' => "M".to_owned(),
        'n' => "N".to_owned(),
        'o' => "O".to_owned(),
        'p' => "P".to_owned(),
        'q' => "Q".to_owned(),
        'r' => "R".to_owned(),
        's' => "S".to_owned(),
        't' => "T".to_owned(),
        'u' => "U".to_owned(),
        'v' => "V".to_owned(),
        'w' => "W".to_owned(),
        'x' => "X".to_owned(),
        'y' => "Y".to_owned(),
        'z' => "Z".to_owned(),
        _ => char_string(c),
    }
}

/// The text of an ASCII letter lowercased, as a one-character text.
fn lower_str(c: char) -> (r: String)
    ensures
        r@ =~= seq![spec_lower(c)],
{
    proof {
        reveal_strlit("a");
        reveal_strlit("b");
        reveal_strlit("c");
        reveal_strlit("d");
        reveal_strlit("e");
        reveal_strlit("f");
        reveal_strlit("g");
        reveal_strlit("h");
        reveal_strlit("i");
        reveal_strlit("j");
        reveal_strlit("k");
        reveal_strlit("l");
        reveal_strlit("m");
        reveal_strlit("n");
        reveal_strlit("o");
        reveal_strlit("p");
        reveal_strlit("q");
        reveal_strlit("r");
        reveal_strlit("s");
        reveal_strlit("t");
        reveal_strlit("u");
        reveal_strlit("v");
        reveal_strlit("w");
        reveal_strlit("x");
        reveal_strlit("y");
        reveal_strlit("z");
    }
    match c {
        'A' => "a".to_owned(),
        'B' => "b".to_owned(),
        'C' => "c".to_owned(),
        'D' => "d".to_owned(),
        'E' => "e".to_owned(),
        'F' => "f".to_owned(),
        'G' => "g".to_owned(),
        'H' => "h".to_owned(),
        'I' => "i".to_owned(),
        'J' => "j".to_owned(),
        'K' => "k".to_owned(),
        'L' => "l".to_owned(),
        'M' => "m".to_owned(),
        'N' => "n".to_owned(),
        'O' => "o".to_owned(),
        'P' => "p".to_owned(),
        'Q' => "q".to_owned(),
        'R' => "r".to_owned(),
        'S' => "s".to_owned(),
        'T' => "t".to_owned(),
        'U' => "u".to_owned(),
        'V' => "v".to_owned(),
        'W' => "w".to_owned(),
        'X' => "x".to_owned(),
        'Y' => "y".to_owned(),
        'Z' => "z".to_owned(),
        _ => char_string(c),
    }
}

/// Relies on `String::push` of std: it appends exactly the one character.
#[verifier::external_body]
fn push_char(s: &mut String, c: char)
    ensures
        final(s)@ == old(s)@.push(c),
{
    s.push(c);
}

/// A one-character text for any character.
fn char_string(c: char) -> (r: String)
    ensures
        r@ =~= seq![c],
{
    let mut s = String::new();
    push_char(&mut s, c);
    s
}

/// Whether a character is an ASCII uppercase letter.
fn is_upper(c: char) -> (r: bool)
    ensures
        r == spec_is_upper(c),
{
    ('A' as u32) <= (c as u32) && (c as u32) <= ('Z' as u32)
}

/// Upper-camel casing: the first character uppercased, and each character
/// after an underscore uppercased with the underscore dropped.  The rest of
/// the text, after the leading character has been uppercased.
pub open spec fn spec_caps_rest(s: Seq<char>) -> Seq<char>
    decreases s.len(),
{
    if s.len() == 0 {
        Seq::empty()
    } else if s[0] == '_' {
        if s.len() == 1 {
            Seq::empty()
        } else {
            seq![spec_upper(s[1])] + spec_caps_rest(s.skip(2))
        }
    } else {
        seq![s[0]] + spec_caps_rest(s.skip(1))
    }
}

/// Upper-camel casing of a whole name.
pub open spec fn spec_to_caps(s: Seq<char>) -> Seq<char> {
    if s.len() == 0 {
        Seq::empty()
    } else {
        spec_caps_rest(seq![spec_upper(s[0])] + s.skip(1))
    }
}

/// Snake casing: the rest of a text, with an underscore inserted before
/// each uppercase letter, which is lowercased.
pub open spec fn spec_snake_rest(s: Seq<char>) -> Seq<char>
    decreases s.len(),
{
    if s.len() == 0 {
        Seq::empty()
    } else if spec_is_upper(s[0]) {
        seq!['_', spec_lower(s[0])] + spec_snake_rest(s.skip(1))
    } else {
        seq![s[0]] + spec_snake_rest(s.skip(1))
    }
}

/// Snake casing of a whole name: the first character lowercased, then an
/// underscore before each later uppercase letter, lowercased.
pub open spec fn spec_to_snake(s: Seq<char>) -> Seq<char> {
    if s.len() == 0 {
        Seq::empty()
    } else {
        seq![spec_lower(s[0])] + spec_snake_rest(s.skip(1))
    }
}

/// Convert a name to upper-camel case, as emitted type names are written.
pub fn to_caps_case(s: &str) -> (r: String)
    ensures
        r@ == spec_to_caps(s@),
{
    let n = s.unicode_len();
    let mut res = String::new();
    if n == 0 {
        return res;
    }
    // Work on the text with its first character already uppercased; the
    // underscore rule then treats every position alike.
    let mut work = String::new();
    let w0 = upper_str(s.get_char(0));
    work.append(w0.as_str());
    let mut k: usize = 1;
    while k < n
        invariant
            n == s@.len(),
            n > 0,
            1 <= k <= n,
            work@ == seq![spec_upper(s@[0])] + s@.subrange(1, k as int),
        decreases n - k,
    {
        push_char(&mut work, s.get_char(k));
        proof {
            assert(work@ =~= seq![spec_upper(s@[0])] + s@.subrange(1, k + 1));
        }
        k = k + 1;
    }
    proof {
        assert(s@.subrange(1, n as int) =~= s@.skip(1));
        assert(work@ == seq![spec_upper(s@[0])] + s@.skip(1));
    }
    let wn = work.unicode_len();
    proof {
        assert(work@.skip(0) =~= work@);
        assert(res@ + spec_caps_rest(work@) =~= spec_caps_rest(work@));
    }
    let mut j: usize = 0;
    while j < wn
        invariant
            wn == work@.len(),
            j <= wn,
            spec_caps_rest(work@) == spec_to_caps(s@),
            res@ + spec_caps_rest(work@.skip(j as int)) == spec_caps_rest(work@),
        decreases wn - j,
    {
        let c = work.get_char(j);
        proof {
            assert(work@.skip(j as int)[0] == c);
        }
        if c == '_' {
            if j + 1 >= wn {
                proof {
                    assert(work@.skip(j as int).len() == 1);
                    assert(res@ + Seq::<char>::empty() =~= res@);
                }
                return res;
            }
            let c2 = work.get_char(j + 1);
            let u2 = upper_str(c2);
            res.append(u2.as_str());
            proof {
                assert(work@.skip(j as int)[1] == c2);
                assert(work@.skip(j as int).skip(2) =~= work@.skip(j + 2));
                assert(spec_caps_rest(work@.skip(j as int)) == seq![spec_upper(c2)]
                    + spec_caps_rest(work@.skip(j + 2)));
            }
            j = j + 2;
        } else {
            push_char(&mut res, c);
            proof {
                assert(work@.skip(j as int).skip(1) =~= work@.skip(j + 1));
                assert(spec_caps_rest(work@.skip(j as int)) == seq![c] + spec_caps_rest(
                    work@.skip(j + 1),
                ));
            }
            j = j + 1;
        }
    }
    proof {
        assert(work@.skip(wn as int).len() == 0);
        assert(res@ + Seq::<char>::empty() =~= res@);
    }
    res
}

/// Convert a name to snake case, as emitted module names are written.
pub fn to_snake_case(s: &str) -> (r: String)
    ensures
        r@ == spec_to_snake(s@),
{
    let n = s.unicode_len();
    let mut res = String::new();
    if n == 0 {
        return res;
    }
    let c0 = s.get_char(0);
    let l0 = lower_str(c0);
    res.append(l0.as_str());
    proof {
        assert(res@ =~= seq![spec_lower(s@[0])]);
        assert(res@ + spec_snake_rest(s@.skip(1)) == spec_to_snake(s@));
    }
    let mut i: usize = 1;
    while i < n
        invariant
            n == s@.len(),
            1 <= i <= n,
            res@ + spec_snake_rest(s@.skip(i as int)) == spec_to_snake(s@),
        decreases n - i,
    {
        let c = s.get_char(i);
        proof {
            assert(s@.skip(i as int)[0] == c);
            assert(s@.skip(i as int).skip(1) =~= s@.skip(i + 1));
        }
        if is_upper(c) {
            res.append("_");
            let lc = lower_str(c);
            res.append(lc.as_str());
            proof {
                assert(spec_snake_rest(s@.skip(i as int)) == seq!['_', spec_lower(c)]
                    + spec_snake_rest(s@.skip(i + 1)));
                reveal_strlit("_");
                assert("_"@ =~= seq!['_']);
                assert(res@ + spec_snake_rest(s@.skip(i + 1)) =~= spec_to_snake(s@));
            }
        } else {
            push_char(&mut res, c);
            proof {
                assert(spec_snake_rest(s@.skip(i as int)) == seq![c] + spec_snake_rest(
                    s@.skip(i + 1),
                ));
                assert(res@ + spec_snake_rest(s@.skip(i + 1)) =~= spec_to_snake(s@));
            }
        }
        i = i + 1;
    }
    proof {
        assert(s@.skip(n as int).len() == 0);
        assert(res@ + Seq::<char>::empty() =~= res@);
    }
    res
}

/// The decimal digit character of a value below ten.
pub open spec fn spec_digit(d: int) -> char {
    if d == 0 {
        '0'
    } else if d == 1 {
        '1'
    } else if d == 2 {
        '2'
    } else if d == 3 {
        '3'
    } else if d == 4 {
        '4'
    } else if d == 5 {
        '5'
    } else if d == 6 {
        '6'
    } else if d == 7 {
        '7'
    } else if d == 8 {
        '8'
    } else {
        '9'
    }
}

/// The decimal rendering of a number.
pub open spec fn spec_dec(n: int) -> Seq<char>
    decreases n,
{
    if n < 10 {
        seq![spec_digit(n)]
    } else {
        spec_dec(n / 10).push(spec_digit(n % 10))
    }
}

/// One decimal digit as text.
fn digit_str(d: usize) -> (r: &'static str)
    requires
        d < 10,
    ensures
        r@ =~= seq![spec_digit(d as int)],
{
    proof {
        reveal_strlit("0");
        reveal_strlit("1");
        reveal_strlit("2");
        reveal_strlit("3");
        reveal_strlit("4");
        reveal_strlit("5");
        reveal_strlit("6");
        reveal_strlit("7");
        reveal_strlit("8");
        reveal_strlit("9");
    }
    match d {
        0 => "0",
        1 => "1",
        2 => "2",
        3 => "3",
        4 => "4",
        5 => "5",
        6 => "6",
        7 => "7",
        8 => "8",
        _ => "9",
    }
}

/// Render a number in decimal.
pub fn usize_to_string(n: usize) -> (r: String)
    ensures
        r@ == spec_dec(n as int),
    decreases n,
{
    if n < 10 {
        let mut s = String::new();
        s.append(digit_str(n));
        proof {
            assert(s@ =~= seq![spec_digit(n as int)]);
        }
        s
    } else {
        let mut s = usize_to_string(n / 10);
        s.append(digit_str(n % 10));
        proof {
            assert(s@ =~= spec_dec((n / 10) as int).push(spec_digit((n % 10) as int)));
        }
        s
    }
}


/// Four spaces per indentation step of emitted code.
pub open spec fn spec_spaces(n: int) -> Seq<char>
    decreases n,
{
    if n <= 0 {
        Seq::empty()
    } else {
        spec_spaces(n - 1) + "    "@
    }
}

/// Four spaces per indentation step of emitted code.
pub fn spaces(n: usize) -> (r: String)
    ensures
        r@ == spec_spaces(n as int),
{
    let mut s = String::new();
    proof {
        assert(s@ =~= spec_spaces(0));
    }
    let mut i: usize = 0;
    while i < n
        invariant
            i <= n,
            s@ == spec_spaces(i as int),
        decreases n - i,
    {
        s.append("    ");
        i = i + 1;
    }
    s
}

/// The emitted module path of a handler: each module name in snake case,
/// followed by `::`.
pub open spec fn spec_mod_path(ms: Seq<Seq<char>>) -> Seq<char>
    decreases ms.len(),
{
    if ms.len() == 0 {
        Seq::empty()
    } else {
        spec_mod_path(ms.drop_last()) + spec_to_snake(ms.last()) + "::"@
    }
}

/// The emitted chain of nested `Route` constructors for a handler's module
/// path: one `<path>Route::<Module>(` per module, with the path of the
/// modules before it.
pub open spec fn spec_mod_nest(ms: Seq<Seq<char>>) -> Seq<char>
    decreases ms.len(),
{
    if ms.len() == 0 {
        Seq::empty()
    } else {
        spec_mod_nest(ms.drop_last()) + spec_mod_path(ms.drop_last()) + "Route::"@ + spec_to_caps(
            ms.last(),
        ) + "("@
    }
}

/// A closing parenthesis per module of a handler's path.
pub open spec fn spec_closes(n: int) -> Seq<char>
    decreases n,
{
    if n <= 0 {
        Seq::empty()
    } else {
        spec_closes(n - 1) + ")"@
    }
}

/// The binding lines of a terminal constructor: one captured route
/// parameter per line.
pub open spec fn spec_bind_lines(ps: Seq<ParamV>, ind: Seq<char>) -> Seq<char>
    decreases ps.len(),
{
    if ps.len() == 0 {
        Seq::empty()
    } else {
        spec_bind_lines(ps.drop_last(), ind) + ind + "            "@ + ps.last().name + ",\n"@
    }
}

/// The unset query-parameter lines of a terminal constructor.
pub open spec fn spec_none_lines(ps: Seq<ParamV>, ind: Seq<char>) -> Seq<char>
    decreases ps.len(),
{
    if ps.len() == 0 {
        Seq::empty()
    } else {
        spec_none_lines(ps.drop_last(), ind) + ind + "            "@ + ps.last().name
            + ": None,\n"@
    }
}

/// The opening of one resource's match arm, down to the constructor brace.
#[verifier::opaque]
pub open spec fn spec_arm_head(res: crate::config::ResourceV, ind: Seq<char>) -> Seq<char> {
    ind + "        "@ + res.method.spec_byte_str() + " => return Ok(Match::"@ + (
    if res.is_redirect {
        "Redirect"@
    } else {
        "Route"@
    }) + "("@ + spec_mod_nest(res.modules) + spec_mod_path(res.modules) + "Route::"@
        + spec_to_caps(res.name) + "("@ + spec_mod_path(res.modules) + spec_to_caps(res.name)
        + " {\n"@
}

/// The closing of one resource's match arm.
#[verifier::opaque]
pub open spec fn spec_arm_tail(res: crate::config::ResourceV, ind: Seq<char>) -> Seq<char> {
    ind + "        }"@ + spec_closes(res.modules.len() as int) + "))),\n"@
}

/// The match arm of one resource in a terminal method dispatch.
pub open spec fn spec_method_arm(
    res: crate::config::ResourceV,
    route: crate::flat::FlattenedRouteV,
    ind: Seq<char>,
) -> Seq<char> {
    spec_arm_head(res, ind) + spec_bind_lines(spec_path_dynamics(route.path), ind)
        + spec_none_lines(route.query_parameters, ind) + spec_none_lines(res.query_parameters, ind)
        + spec_arm_tail(res, ind)
}

/// The match arms of all resources of a node, in configuration order.
pub open spec fn spec_method_arms(
    rs: Seq<crate::config::ResourceV>,
    route: crate::flat::FlattenedRouteV,
    ind: Seq<char>,
) -> Seq<char>
    decreases rs.len(),
{
    if rs.len() == 0 {
        Seq::empty()
    } else {
        spec_method_arms(rs.drop_last(), route, ind) + spec_method_arm(rs.last(), route, ind)
    }
}

/// The terminal method dispatch emitted when the cursor may be at the end
/// of the path at a node carrying resources.
#[verifier::opaque]
pub open spec fn spec_write_methods(route: crate::flat::FlattenedRouteV, ind: Seq<char>) -> Seq<
    char,
> {
    ind + "if i == len {\n"@ + ind + "    match method {\n"@ + spec_method_arms(
        route.resources,
        route,
        ind,
    ) + ind + "        _ => return Ok(Match::NotAllowed),\n"@ + ind + "    }\n"@ + ind + "}\n"@
}

/// Emit the opening of one resource's match arm, down to the constructor
/// brace.
#[verifier::rlimit(100)]
fn write_arm_head(w: &mut String, resource: &crate::config::Resource, ind: &String) -> (r: ())
    ensures
        final(w)@ == old(w)@ + spec_arm_head(resource@, ind@),
{
    let ghost indv = ind@;
    let ghost before = w@;
    w.append(ind.as_str());
    w.append("        ");
    let bs = resource.method.byte_str();
    w.append(bs.as_str());
    w.append(" => return Ok(Match::");
    if resource.is_redirect {
        w.append("Redirect");
    } else {
        w.append("Route");
    }
    w.append("(");
    // Build the nested constructor chain and the module path together.
    let mut path = String::new();
    let mut parens = String::new();
    let ghost msv = resource@.modules;
    proof {
        assert(msv.take(0) =~= Seq::<Seq<char>>::empty());
        assert(path@ =~= spec_mod_path(msv.take(0)));
        assert(parens@ =~= spec_closes(0));
        assert(w@ =~= before + indv + "        "@ + resource@.method.spec_byte_str()
            + " => return Ok(Match::"@ + (if resource@.is_redirect {
            "Redirect"@
        } else {
            "Route"@
        }) + "("@ + spec_mod_nest(msv.take(0)));
    }
    let mut m: usize = 0;
    while m < resource.modules.len()
        invariant
            m <= resource.modules@.len(),
            msv == resource@.modules,
            msv.len() == resource.modules@.len(),
            forall|k: int|
                0 <= k < resource.modules@.len() ==> msv[k] == (
                #[trigger] resource.modules@[k])@,
            indv == ind@,
            path@ == spec_mod_path(msv.take(m as int)),
            parens@ == spec_closes(m as int),
            w@ == before + indv + "        "@ + resource@.method.spec_byte_str()
                + " => return Ok(Match::"@ + (if resource@.is_redirect {
                "Redirect"@
            } else {
                "Route"@
            }) + "("@ + spec_mod_nest(msv.take(m as int)),
        decreases resource.modules@.len() - m,
    {
        let module = &resource.modules[m];
        w.append(path.as_str());
        w.append("Route::");
        let caps = to_caps_case(module.as_str());
        w.append(caps.as_str());
        w.append("(");
        let snake = to_snake_case(module.as_str());
        path.append(snake.as_str());
        path.append("::");
        parens.append(")");
        proof {
            assert(msv.take(m + 1).drop_last() =~= msv.take(m as int));
            assert(msv.take(m + 1).last() == msv[m as int]);
            assert(spec_mod_nest(msv.take(m + 1)) == spec_mod_nest(msv.take(m as int))
                + spec_mod_path(msv.take(m as int)) + "Route::"@ + spec_to_caps(msv[m as int])
                + "("@);
            assert(w@ =~= before + indv + "        "@ + resource@.method.spec_byte_str()
                + " => return Ok(Match::"@ + (if resource@.is_redirect {
                "Redirect"@
            } else {
                "Route"@
            }) + "("@ + spec_mod_nest(msv.take(m + 1)));
            assert(path@ =~= spec_mod_path(msv.take(m + 1)));
            assert(parens@ =~= spec_closes(m + 1));
        }
        m = m + 1;
    }
    proof {
        assert(msv.take(msv.len() as int) =~= msv);
    }
    w.append(path.as_str());
    w.append("Route::");
    let caps = to_caps_case(resource.name.as_str());
    w.append(caps.as_str());
    w.append("(");
    w.append(path.as_str());
    w.append(caps.as_str());
    w.append(" {\n");
    proof {
        reveal(spec_arm_head);
        assert(final(w)@ =~= before + spec_arm_head(resource@, indv));
    }
}

/// Emit one resource's match arm in a terminal method dispatch.
#[verifier::rlimit(100)]
fn write_method_arm(w: &mut String, resource: &crate::config::Resource, route: &FlattenedRoute, ind: &String) -> (r: ())
    ensures
        final(w)@ == old(w)@ + spec_method_arm(resource@, route@, ind@),
{
    let ghost indv = ind@;
    let ghost before = w@;
    write_arm_head(w, resource, ind);
    let ghost mid1 = w@;
    let binds = route.path.dynamics();
    let ghost bindv = spec_path_dynamics(route@.path);
    proof {
        assert(bindv.take(0) =~= Seq::<ParamV>::empty());
        assert(w@ =~= mid1 + spec_bind_lines(bindv.take(0), indv));
    }
    let mut b: usize = 0;
    while b < binds.len()
        invariant
            b <= binds@.len(),
            bindv.len() == binds@.len(),
            forall|k: int| 0 <= k < binds@.len() ==> bindv[k] == (#[trigger] binds@[k])@,
            indv == ind@,
            w@ == mid1 + spec_bind_lines(bindv.take(b as int), indv),
        decreases binds@.len() - b,
    {
        w.append(ind.as_str());
        w.append("            ");
        w.append(binds[b].name.as_str());
        w.append(",\n");
        proof {
            assert(bindv.take(b + 1).drop_last() =~= bindv.take(b as int));
            assert(w@ =~= mid1 + spec_bind_lines(bindv.take(b + 1), indv));
        }
        b = b + 1;
    }
    proof {
        assert(bindv.take(bindv.len() as int) =~= bindv);
    }
    let ghost mid2 = w@;
    let ghost qv1 = route@.query_parameters;
    proof {
        assert(qv1.take(0) =~= Seq::<ParamV>::empty());
        assert(w@ =~= mid2 + spec_none_lines(qv1.take(0), indv));
    }
    let mut q: usize = 0;
    while q < route.query_parameters.len()
        invariant
            q <= route.query_parameters@.len(),
            qv1.len() == route.query_parameters@.len(),
            forall|k: int|
                0 <= k < route.query_parameters@.len() ==> qv1[k] == (
                #[trigger] route.query_parameters@[k])@,
            indv == ind@,
            w@ == mid2 + spec_none_lines(qv1.take(q as int), indv),
        decreases route.query_parameters@.len() - q,
    {
        w.append(ind.as_str());
        w.append("            ");
        w.append(route.query_parameters[q].name.as_str());
        w.append(": None,\n");
        proof {
            assert(qv1.take(q + 1).drop_last() =~= qv1.take(q as int));
            assert(w@ =~= mid2 + spec_none_lines(qv1.take(q + 1), indv));
        }
        q = q + 1;
    }
    proof {
        assert(qv1.take(qv1.len() as int) =~= qv1);
    }
    let ghost mid3 = w@;
    let ghost qv2 = resource@.query_parameters;
    proof {
        assert(qv2.take(0) =~= Seq::<ParamV>::empty());
        assert(w@ =~= mid3 + spec_none_lines(qv2.take(0), indv));
    }
    let mut q2: usize = 0;
    while q2 < resource.query_parameters.len()
        invariant
            q2 <= resource.query_parameters@.len(),
            qv2.len() == resource.query_parameters@.len(),
            forall|k: int|
                0 <= k < resource.query_parameters@.len() ==> qv2[k] == (
                #[trigger] resource.query_parameters@[k])@,
            indv == ind@,
            w@ == mid3 + spec_none_lines(qv2.take(q2 as int), indv),
        decreases resource.query_parameters@.len() - q2,
    {
        w.append(ind.as_str());
        w.append("            ");
        w.append(resource.query_parameters[q2].name.as_str());
        w.append(": None,\n");
        proof {
            assert(qv2.take(q2 + 1).drop_last() =~= qv2.take(q2 as int));
            assert(w@ =~= mid3 + spec_none_lines(qv2.take(q2 + 1), indv));
        }
        q2 = q2 + 1;
    }
    proof {
        assert(qv2.take(qv2.len() as int) =~= qv2);
    }
    w.append(ind.as_str());
    w.append("        }");
    let mut parens = String::new();
    proof {
        assert(parens@ =~= spec_closes(0));
    }
    let mut pc: usize = 0;
    while pc < resource.modules.len()
        invariant
            pc <= resource.modules@.len(),
            parens@ == spec_closes(pc as int),
        decreases resource.modules@.len() - pc,
    {
        parens.append(")");
        pc = pc + 1;
    }
    proof {
        assert(resource@.modules.len() == resource.modules@.len());
    }
    w.append(parens.as_str());
    w.append("))),\n");
    proof {
        assert(final(w)@ =~= mid3 + spec_none_lines(qv2, indv) + spec_arm_tail(
            resource@,
            indv,
        )) by {
            reveal(spec_arm_tail);
        }
        assert(final(w)@ =~= before + spec_method_arm(resource@, route@, indv));
    }
}



/// Emit the terminal method dispatch of a node: if the whole path has been
/// consumed, the resources' methods are matched in configuration order, and
/// any other method is not allowed.
pub fn write_methods(w: &mut String, route: &FlattenedRoute, indent: usize) -> (r: ())
    ensures
        final(w)@ == old(w)@ + spec_write_methods(route@, spec_spaces(indent as int)),
{
    let ind = spaces(indent);
    let ghost indv = ind@;
    let ghost w0 = w@;
    w.append(ind.as_str());
    w.append("if i == len {\n");
    w.append(ind.as_str());
    w.append("    match method {\n");
    let ghost mid0 = w@;
    proof {
        assert(route@.resources.take(0) =~= Seq::<crate::config::ResourceV>::empty());
        assert(w@ =~= mid0 + spec_method_arms(route@.resources.take(0), route@, indv));
    }
    let mut i: usize = 0;
    while i < route.resources.len()
        invariant
            i <= route.resources@.len(),
            route@.resources.len() == route.resources@.len(),
            forall|k: int|
                0 <= k < route.resources@.len() ==> route@.resources[k] == (
                #[trigger] route.resources@[k])@,
            indv == ind@,
            w@ == mid0 + spec_method_arms(route@.resources.take(i as int), route@, indv),
        decreases route.resources@.len() - i,
    {
        write_method_arm(w, &route.resources[i], route, &ind);
        proof {
            assert(route@.resources.take(i + 1).drop_last() =~= route@.resources.take(i as int));
            assert(route@.resources.take(i + 1).last() == route@.resources[i as int]);
            assert(w@ =~= mid0 + spec_method_arms(route@.resources.take(i + 1), route@, indv));
        }
        i = i + 1;
    }
    proof {
        assert(route@.resources.take(route@.resources.len() as int) =~= route@.resources);
    }
    w.append(ind.as_str());
    w.append("        _ => return Ok(Match::NotAllowed),\n");
    w.append(ind.as_str());
    w.append("    }\n");
    w.append(ind.as_str());
    w.append("}\n");
    proof {
        reveal(spec_write_methods);
        assert(final(w)@ =~= w0 + spec_write_methods(route@, indv));
    }
}


/// An internal failure of the emitter: a structural invariant of the trie
/// does not hold, or the indentation cannot grow any further.
#[derive(Debug, PartialEq, Eq, Structural)]
pub struct GenError;

/// The number of nodes of a trie.
pub open spec fn trie_size(t: Trie<FlattenedRoute>) -> nat
    decreases t,
{
    1 + children_size(t.children@)
}

/// The number of nodes of a list of children.
pub open spec fn children_size(cs: Seq<(Charlike, Trie<FlattenedRoute>)>) -> nat
    decreases cs,
{
    if cs.len() == 0 {
        0
    } else {
        children_size(cs.drop_last()) + trie_size(cs.last().1)
    }
}

/// Each child is at most as large as the whole list.
pub proof fn lemma_children_size_elem(cs: Seq<(Charlike, Trie<FlattenedRoute>)>, i: int)
    requires
        0 <= i < cs.len(),
    ensures
        trie_size(cs[i].1) <= children_size(cs),
    decreases cs.len(),
{
    if i == cs.len() - 1 {
    } else {
        assert(cs.drop_last()[i] == cs[i]);
        lemma_children_size_elem(cs.drop_last(), i);
    }
}

/// Dropping the first child cannot grow the list's size.
pub proof fn lemma_children_size_drop_first(cs: Seq<(Charlike, Trie<FlattenedRoute>)>)
    requires
        cs.len() > 0,
    ensures
        children_size(cs.drop_first()) <= children_size(cs),
    decreases cs.len(),
{
    if cs.len() == 1 {
        assert(cs.drop_first() =~= Seq::<(Charlike, Trie<FlattenedRoute>)>::empty());
    } else {
        assert(cs.drop_first().drop_last() =~= cs.drop_last().drop_first());
        assert(cs.drop_first().last() == cs.last());
        lemma_children_size_drop_first(cs.drop_last());
    }
}

/// Collapse a chain of single-static children: the static characters along
/// the chain, and the node below them.
pub open spec fn spec_chain(t: Trie<FlattenedRoute>) -> (Seq<char>, Trie<FlattenedRoute>)
    decreases t,
{
    if t.children@.len() == 1 && t.children@[0].0@ is Static {
        let rest = spec_chain(t.children@[0].1);
        (seq![t.children@[0].0@->Static_0] + rest.0, rest.1)
    } else {
        (Seq::empty(), t)
    }
}

/// The node a chain collapses to is no larger than the chain's start.
pub proof fn lemma_chain_size(t: Trie<FlattenedRoute>)
    ensures
        trie_size(spec_chain(t).1) <= trie_size(t),
    decreases t,
{
    if t.children@.len() == 1 && t.children@[0].0@ is Static {
        lemma_chain_size(t.children@[0].1);
        lemma_children_size_elem(t.children@, 0);
    }
}

/// Whether some child is keyed by a separator.
pub open spec fn spec_has_separator(cs: Seq<(Charlike, Trie<FlattenedRoute>)>) -> bool {
    exists|i: int| 0 <= i < cs.len() && (#[trigger] cs[i].0@) is Separator
}

/// The position of the first dynamic child, if any.
pub open spec fn spec_find_dynamic(cs: Seq<(Charlike, Trie<FlattenedRoute>)>) -> Option<int>
    decreases cs.len(),
{
    if cs.len() == 0 {
        None
    } else if cs[0].0@ is Dynamic {
        Some(0)
    } else {
        match spec_find_dynamic(cs.drop_first()) {
            None => None,
            Some(i) => Some(i + 1),
        }
    }
}

/// The first dynamic child found is one, and none stands before it.
pub proof fn lemma_find_dynamic(cs: Seq<(Charlike, Trie<FlattenedRoute>)>)
    ensures
        match spec_find_dynamic(cs) {
            None => forall|i: int| 0 <= i < cs.len() ==> !((#[trigger] cs[i].0@) is Dynamic),
            Some(i) => {
                &&& 0 <= i < cs.len()
                &&& cs[i].0@ is Dynamic
                &&& forall|j: int| 0 <= j < i ==> !((#[trigger] cs[j].0@) is Dynamic)
            },
        },
    decreases cs.len(),
{
    if cs.len() > 0 {
        lemma_find_dynamic(cs.drop_first());
        match spec_find_dynamic(cs) {
            None => {
                assert forall|i: int| 0 <= i < cs.len() implies !((#[trigger] cs[i].0@)
                    is Dynamic) by {
                    if i > 0 {
                        assert(cs.drop_first()[i - 1] == cs[i]);
                    }
                }
            },
            Some(i) => {
                if cs[0].0@ is Dynamic {
                } else {
                    assert(cs.drop_first()[i - 1] == cs[i]);
                    assert forall|j: int| 0 <= j < i implies !((#[trigger] cs[j].0@)
                        is Dynamic) by {
                        if j > 0 {
                            assert(cs.drop_first()[j - 1] == cs[j]);
                        }
                    }
                }
            },
        }
    }
}

/// The number of static children.
pub open spec fn spec_static_count(cs: Seq<(Charlike, Trie<FlattenedRoute>)>) -> nat
    decreases cs.len(),
{
    if cs.len() == 0 {
        0
    } else {
        spec_static_count(cs.drop_last()) + (if cs.last().0@ is Static {
            1nat
        } else {
            0nat
        })
    }
}

/// The position of the first static child, if any.
pub open spec fn spec_find_static(cs: Seq<(Charlike, Trie<FlattenedRoute>)>) -> Option<int>
    decreases cs.len(),
{
    if cs.len() == 0 {
        None
    } else if cs[0].0@ is Static {
        Some(0)
    } else {
        match spec_find_static(cs.drop_first()) {
            None => None,
            Some(i) => Some(i + 1),
        }
    }
}

/// The unambiguous lookahead from a node: while the node has no separator
/// child and exactly one static child, collect that child's character and
/// descend.  Yields the collected characters and the node reached.
pub open spec fn spec_lookahead(t: Trie<FlattenedRoute>) -> (Seq<char>, Trie<FlattenedRoute>)
    decreases t,
{
    if !spec_has_separator(t.children@) && spec_static_count(t.children@) == 1
        && spec_find_static(t.children@) is Some {
        let i = spec_find_static(t.children@)->Some_0;
        if 0 <= i < t.children@.len() && t.children@[i].0@ is Static {
            let rest = spec_lookahead(t.children@[i].1);
            (seq![t.children@[i].0@->Static_0] + rest.0, rest.1)
        } else {
            (Seq::empty(), t)
        }
    } else {
        (Seq::empty(), t)
    }
}

/// The node a lookahead reaches is no larger than its start, and strictly
/// smaller when any character was collected.
pub proof fn lemma_lookahead_size(t: Trie<FlattenedRoute>)
    ensures
        trie_size(spec_lookahead(t).1) <= trie_size(t),
        spec_lookahead(t).0.len() > 0 ==> trie_size(spec_lookahead(t).1) < trie_size(t),
    decreases t,
{
    if !spec_has_separator(t.children@) && spec_static_count(t.children@) == 1
        && spec_find_static(t.children@) is Some {
        let i = spec_find_static(t.children@)->Some_0;
        if 0 <= i < t.children@.len() && t.children@[i].0@ is Static {
            lemma_lookahead_size(t.children@[i].1);
            lemma_children_size_elem(t.children@, i);
        }
    }
}


/// A dead end of the walk: outside a fallback attempt the matcher returns
/// not-found; inside one it leaves the attempt, so the dynamic capture can
/// take the whole segment.
#[verifier::opaque]
pub open spec fn spec_notfound_line(ind: Seq<char>, esc: bool) -> Seq<char> {
    if esc {
        ind + "break 'probe;\n"@
    } else {
        ind + "return Ok(Match::NotFound);\n"@
    }
}

/// The end-of-path check that fails: with not-found, or by leaving a
/// fallback attempt.
#[verifier::opaque]
pub open spec fn spec_iflen_notfound(ind: Seq<char>, esc: bool) -> Seq<char> {
    if esc {
        ind + "if i == len {\n"@ + ind + "    break 'probe;\n"@ + ind + "}\n"@
    } else {
        ind + "if i == len {\n"@ + ind + "    return Ok(Match::NotFound);\n"@ + ind + "}\n"@
    }
}

/// The match that requires a separator and advances past it; any other
/// byte is a dead end.
#[verifier::opaque]
pub open spec fn spec_sep_match(ind: Seq<char>, esc: bool) -> Seq<char> {
    ind + "match &path[i..i+1] {\n"@ + ind + "    b\"/\" => {\n"@ + ind + "        i += 1;\n"@
        + ind + "    },\n"@ + (if esc {
        ind + "    _ => break 'probe,\n"@
    } else {
        ind + "    _ => return Ok(Match::NotFound),\n"@
    }) + ind + "}\n"@
}

/// The terminal dispatch of a node's data, where it carries resources.
pub open spec fn spec_data_methods(t: Trie<FlattenedRoute>, ind_level: int) -> Seq<char> {
    match t.data {
        Some(route) => if route@.resources.len() != 0 {
            spec_write_methods(route@, spec_spaces(ind_level))
        } else {
            Seq::empty()
        },
        None => Seq::empty(),
    }
}

/// The bounds check, comparison and advance for a collapsed static chain.
#[verifier::opaque]
pub open spec fn spec_static_block(sv: Seq<char>, ind: Seq<char>, esc: bool) -> Seq<char> {
    let l = spec_dec(sv.len() as int);
    ind + "if i + "@ + l + " > len {\n"@ + (if esc {
        ind + "    break 'probe;\n"@
    } else {
        ind + "    return Ok(Match::NotFound);\n"@
    }) + ind + "}\n"@ + ind + "match &path[i..i+"@ + l + "] {\n"@ + ind + "    b\""@ + sv
        + "\" => {\n"@ + ind + "        i += "@ + l + ";\n"@ + ind + "    },\n"@ + (if esc {
        ind + "    _ => break 'probe,\n"@
    } else {
        ind + "    _ => return Ok(Match::NotFound),\n"@
    }) + ind + "}\n"@
}

/// The scan and parse of a dynamic capture.
#[verifier::opaque]
pub open spec fn spec_dyn_scan(name: Seq<char>, ind: Seq<char>) -> Seq<char> {
    "\n"@ + ind + "while i < len && &path[i..i+1] != b\"/\" {\n"@ + ind + "    i += 1;\n"@
        + ind + "}\n"@ + "\n"@ + ind
        + "let text = std::str::from_utf8(&path[start..i]).unwrap();\n"@ + ind + "let "@ + name
        + " = text.parse()\n"@ + ind + "    .map_err(|e| Error::fail(\""@ + name
        + "\", e))?;\n"@ + "\n"@
}

/// The conditional attempt at an unambiguous static prefix, down to where
/// the prefix's continuation is emitted.
#[verifier::opaque]
pub open spec fn spec_prefix_head(sv: Seq<char>, ind1: Seq<char>, ind2: Seq<char>) -> Seq<char> {
    let l = spec_dec(sv.len() as int);
    ind1 + "'probe: {\n"@ + ind1 + "if i + "@ + l + " <= len {\n"@ + ind2
        + "match &path[i..i+"@ + l + "] {\n"@ + ind2 + "    b\""@ + sv + "\" => {\n"@ + ind2
        + "        i += "@ + l + ";\n"@
}

/// The close of the conditional attempt at an unambiguous static prefix.
#[verifier::opaque]
pub open spec fn spec_prefix_tail(ind1: Seq<char>, ind2: Seq<char>) -> Seq<char> {
    ind2 + "    },\n"@ + ind2 + "    _ => {},\n"@ + ind2 + "}\n"@ + ind1 + "}\n"@ + ind1
        + "}\n"@
}

/// The head of the one-byte switch over children.
#[verifier::opaque]
pub open spec fn spec_switch_head(ind: Seq<char>, esc: bool) -> Seq<char> {
    spec_iflen_notfound(ind, esc) + ind + "match &path[i..i+1] {\n"@
}

/// The close of the one-byte switch over children.
#[verifier::opaque]
pub open spec fn spec_switch_tail(ind: Seq<char>, esc: bool) -> Seq<char> {
    (if esc {
        ind + "    _ => break 'probe,\n"@
    } else {
        ind + "    _ => return Ok(Match::NotFound),\n"@
    }) + ind + "}\n"@
}

/// The largest indentation level the emitter accepts; beyond it the level
/// arithmetic could not be carried out.
pub open spec fn spec_max_indent() -> int {
    usize::MAX - 3
}

/// The unrolled matching code of a trie node, or nothing where a structural
/// invariant fails: a dynamic node not followed by exactly one separator, an
/// unambiguous prefix without a dynamic sibling, or unrepresentable
/// indentation.
pub open spec fn spec_codegen_trie(t: Trie<FlattenedRoute>, indent: int, esc: bool) -> Option<
    Seq<char>,
>
    decreases trie_size(t), 1int, 0int,
        via spec_codegen_trie_dec
{
    let ind1 = spec_spaces(indent);
    let pre = spec_data_methods(t, indent);
    if indent > spec_max_indent() {
        None
    } else if t.children@.len() == 0 {
        Some(pre + spec_notfound_line(ind1, esc))
    } else if t.children@.len() == 1 {
        let key = t.children@[0].0@;
        let child = t.children@[0].1;
        if key is Separator {
            let head = spec_child_head(child, ind1);
            match spec_codegen_trie(child, indent, false) {
                None => None,
                Some(rest) => Some(pre + head + spec_sep_match(ind1, esc) + rest),
            }
        } else if key is Static {
            let chain = spec_chain(child);
            let sv = seq![key->Static_0] + chain.0;
            match spec_codegen_trie(chain.1, indent, esc) {
                None => None,
                Some(rest) => Some(pre + spec_static_block(sv, ind1, esc) + rest),
            }
        } else {
            let name = key->Dynamic_0;
            match spec_write_dynamic(child, indent, name) {
                None => None,
                Some(d) => Some(pre + ind1 + "let start = i;\n"@ + d),
            }
        }
    } else {
        let hasdyn = spec_find_dynamic(t.children@) is Some;
        let dynpre = if hasdyn {
            "\n"@ + ind1 + "let start = i;\n"@ + "\n"@
        } else {
            Seq::<char>::empty()
        };
        let la = spec_lookahead(t);
        if la.0.len() > 0 {
            if !hasdyn {
                None
            } else {
                let didx = spec_find_dynamic(t.children@)->Some_0;
                if 0 <= didx < t.children@.len() {
                    let dname = t.children@[didx].0@->Dynamic_0;
                    let dchild = t.children@[didx].1;
                    match spec_codegen_trie(la.1, indent + 3, true) {
                        None => None,
                        Some(inner) => match spec_write_dynamic(dchild, indent, dname) {
                            None => None,
                            Some(d) => Some(
                                pre + dynpre + spec_prefix_head(
                                    la.0,
                                    ind1,
                                    spec_spaces(indent + 1),
                                ) + inner + spec_prefix_tail(ind1, spec_spaces(indent + 1)) + d,
                            ),
                        },
                    }
                } else {
                    None
                }
            }
        } else {
            match spec_trie_arms(t.children@, indent, esc) {
                None => None,
                Some(arms) => Some(
                    pre + dynpre + spec_switch_head(ind1, esc) + arms + spec_switch_tail(
                        ind1,
                        esc,
                    ),
                ),
            }
        }
    }
}

#[via_fn]
proof fn spec_codegen_trie_dec(t: Trie<FlattenedRoute>, indent: int, esc: bool) {
    if t.children@.len() >= 1 {
        lemma_children_size_elem(t.children@, 0);
        lemma_chain_size(t.children@[0].1);
    }
    lemma_lookahead_size(t);
    lemma_find_dynamic(t.children@);
    match spec_find_dynamic(t.children@) {
        None => {},
        Some(i) => {
            lemma_children_size_elem(t.children@, i);
        },
    }
}

/// The switch arms over a list of children: one per static child, a
/// fall-through for a separator, and the dynamic capture as a final arm
/// after which no further children are emitted.
pub open spec fn spec_trie_arms(
    cs: Seq<(Charlike, Trie<FlattenedRoute>)>,
    indent: int,
    esc: bool,
) -> Option<Seq<char>>
    decreases children_size(cs), 2int, cs.len(),
        via spec_trie_arms_dec
{
    if cs.len() == 0 {
        Some(Seq::empty())
    } else {
        let key = cs[0].0@;
        let child = cs[0].1;
        let ind2 = spec_spaces(indent + 1);
        if key is Static {
            match spec_codegen_trie(child, indent + 2, esc) {
                None => None,
                Some(inner) => match spec_trie_arms(cs.drop_first(), indent, esc) {
                    None => None,
                    Some(rest) => Some(
                        ind2 + "b\""@ + seq![key->Static_0] + "\" => {\n"@ + ind2
                            + "    i += 1;\n"@ + inner + ind2 + "},\n"@ + rest,
                    ),
                },
            }
        } else if key is Dynamic {
            spec_write_dynamic(child, indent, key->Dynamic_0)
        } else {
            match spec_trie_arms(cs.drop_first(), indent, esc) {
                None => None,
                Some(rest) => Some(ind2 + "Some('/') => {}\n"@ + rest),
            }
        }
    }
}

#[via_fn]
proof fn spec_trie_arms_dec(cs: Seq<(Charlike, Trie<FlattenedRoute>)>, indent: int, esc: bool) {
    if cs.len() > 0 {
        lemma_children_size_elem(cs, 0);
        lemma_children_size_drop_first(cs);
    }
}

/// The dynamic capture: scan to the next separator, parse the text, then
/// continue below the capture's node, which must have exactly one separator
/// child.
pub open spec fn spec_write_dynamic(t: Trie<FlattenedRoute>, indent: int, name: Seq<char>) -> Option<
    Seq<char>,
>
    decreases trie_size(t), 0int, 0int,
        via spec_write_dynamic_dec
{
    let ind1 = spec_spaces(indent);
    if t.children@.len() != 1 {
        None
    } else if !(t.children@[0].0@ is Separator) {
        None
    } else {
        let child = t.children@[0].1;
        let pre = spec_data_methods(t, indent);
        let head = spec_child_head(child, ind1);
        if indent > spec_max_indent() {
            None
        } else {
            match spec_codegen_trie(child, indent, false) {
                None => None,
                Some(rest) => Some(
                    spec_dyn_scan(name, ind1) + pre + head + spec_sep_match(ind1, false) + rest,
                ),
            }
        }
    }
}

#[via_fn]
proof fn spec_write_dynamic_dec(t: Trie<FlattenedRoute>, indent: int, name: Seq<char>) {
    if t.children@.len() >= 1 {
        lemma_children_size_elem(t.children@, 0);
    }
}


/// The terminal check emitted above a separator edge: the child's method
/// dispatch where it carries resources, else an end-of-path not-found check.
pub open spec fn spec_child_head(child: Trie<FlattenedRoute>, ind: Seq<char>) -> Seq<char> {
    match child.data {
        Some(r2) => if r2@.resources.len() != 0 {
            spec_write_methods(r2@, ind)
        } else {
            spec_iflen_notfound(ind, false)
        },
        None => spec_iflen_notfound(ind, false),
    }
}

/// Appended sequences keep prefixes: a buffer only ever grows.
proof fn lemma_prefix_trans(a: Seq<char>, b: Seq<char>, c: Seq<char>)
    requires
        a.len() <= b.len(),
        b.take(a.len() as int) == a,
        b.len() <= c.len(),
        c.take(b.len() as int) == b,
    ensures
        c.take(a.len() as int) == a,
{
    assert(c.take(a.len() as int) =~= c.take(b.len() as int).take(a.len() as int));
}

/// Emit a dead end: a not-found return, or the leave of a fallback
/// attempt.
fn emit_notfound(w: &mut String, ind: &String, esc: bool)
    ensures
        final(w)@ == old(w)@ + spec_notfound_line(ind@, esc),
{
    proof {
        reveal(spec_notfound_line);
    }
    w.append(ind.as_str());
    if esc {
        w.append("break 'probe;\n");
    } else {
        w.append("return Ok(Match::NotFound);\n");
    }
    proof {
        assert(final(w)@ =~= old(w)@ + spec_notfound_line(ind@, esc));
    }
}

/// Emit the end-of-path check that fails.
fn emit_iflen_notfound(w: &mut String, ind: &String, esc: bool)
    ensures
        final(w)@ == old(w)@ + spec_iflen_notfound(ind@, esc),
{
    proof {
        reveal(spec_iflen_notfound);
    }
    w.append(ind.as_str());
    w.append("if i == len {\n");
    w.append(ind.as_str());
    if esc {
        w.append("    break 'probe;\n");
    } else {
        w.append("    return Ok(Match::NotFound);\n");
    }
    w.append(ind.as_str());
    w.append("}\n");
    proof {
        assert(final(w)@ =~= old(w)@ + spec_iflen_notfound(ind@, esc));
    }
}

/// Emit the match that requires a separator and advances past it.
fn emit_sep_match(w: &mut String, ind: &String, esc: bool)
    ensures
        final(w)@ == old(w)@ + spec_sep_match(ind@, esc),
{
    proof {
        reveal(spec_sep_match);
    }
    w.append(ind.as_str());
    w.append("match &path[i..i+1] {\n");
    w.append(ind.as_str());
    w.append("    b\"/\" => {\n");
    w.append(ind.as_str());
    w.append("        i += 1;\n");
    w.append(ind.as_str());
    w.append("    },\n");
    w.append(ind.as_str());
    if esc {
        w.append("    _ => break 'probe,\n");
    } else {
        w.append("    _ => return Ok(Match::NotFound),\n");
    }
    w.append(ind.as_str());
    w.append("}\n");
    proof {
        assert(final(w)@ =~= old(w)@ + spec_sep_match(ind@, esc));
    }
}

/// Emit the bounds check, comparison and advance of a collapsed static
/// chain.
#[verifier::rlimit(100)]
fn emit_static_block(w: &mut String, sv: &String, ind: &String, esc: bool)
    ensures
        final(w)@ == old(w)@ + spec_static_block(sv@, ind@, esc),
{
    proof {
        reveal(spec_static_block);
    }
    let l = usize_to_string(sv.as_str().unicode_len());
    w.append(ind.as_str());
    w.append("if i + ");
    w.append(l.as_str());
    w.append(" > len {\n");
    w.append(ind.as_str());
    if esc {
        w.append("    break 'probe;\n");
    } else {
        w.append("    return Ok(Match::NotFound);\n");
    }
    w.append(ind.as_str());
    w.append("}\n");
    w.append(ind.as_str());
    w.append("match &path[i..i+");
    w.append(l.as_str());
    w.append("] {\n");
    w.append(ind.as_str());
    w.append("    b\"");
    w.append(sv.as_str());
    w.append("\" => {\n");
    w.append(ind.as_str());
    w.append("        i += ");
    w.append(l.as_str());
    w.append(";\n");
    w.append(ind.as_str());
    w.append("    },\n");
    w.append(ind.as_str());
    if esc {
        w.append("    _ => break 'probe,\n");
    } else {
        w.append("    _ => return Ok(Match::NotFound),\n");
    }
    w.append(ind.as_str());
    w.append("}\n");
    proof {
        assert(final(w)@ =~= old(w)@ + spec_static_block(sv@, ind@, esc));
    }
}

/// Emit the scan and parse of a dynamic capture.
#[verifier::rlimit(60)]
fn emit_dyn_scan(w: &mut String, name: &str, ind: &String)
    ensures
        final(w)@ == old(w)@ + spec_dyn_scan(name@, ind@),
{
    proof {
        reveal(spec_dyn_scan);
    }
    w.append("\n");
    w.append(ind.as_str());
    w.append("while i < len && &path[i..i+1] != b\"/\" {\n");
    w.append(ind.as_str());
    w.append("    i += 1;\n");
    w.append(ind.as_str());
    w.append("}\n");
    w.append("\n");
    w.append(ind.as_str());
    w.append("let text = std::str::from_utf8(&path[start..i]).unwrap();\n");
    w.append(ind.as_str());
    w.append("let ");
    w.append(name);
    w.append(" = text.parse()\n");
    w.append(ind.as_str());
    w.append("    .map_err(|e| Error::fail(\"");
    w.append(name);
    w.append("\", e))?;\n");
    w.append("\n");
    proof {
        assert(final(w)@ =~= old(w)@ + spec_dyn_scan(name@, ind@));
    }
}

/// Emit the conditional attempt at an unambiguous static prefix, down to
/// where the prefix's continuation goes.
#[verifier::rlimit(60)]
fn emit_prefix_head(w: &mut String, sv: &String, ind1: &String, ind2: &String)
    ensures
        final(w)@ == old(w)@ + spec_prefix_head(sv@, ind1@, ind2@),
{
    proof {
        reveal(spec_prefix_head);
    }
    let l = usize_to_string(sv.as_str().unicode_len());
    w.append(ind1.as_str());
    w.append("'probe: {\n");
    w.append(ind1.as_str());
    w.append("if i + ");
    w.append(l.as_str());
    w.append(" <= len {\n");
    w.append(ind2.as_str());
    w.append("match &path[i..i+");
    w.append(l.as_str());
    w.append("] {\n");
    w.append(ind2.as_str());
    w.append("    b\"");
    w.append(sv.as_str());
    w.append("\" => {\n");
    w.append(ind2.as_str());
    w.append("        i += ");
    w.append(l.as_str());
    w.append(";\n");
    proof {
        assert(final(w)@ =~= old(w)@ + spec_prefix_head(sv@, ind1@, ind2@));
    }
}

/// Emit the close of the conditional attempt at an unambiguous prefix.
fn emit_prefix_tail(w: &mut String, ind1: &String, ind2: &String)
    ensures
        final(w)@ == old(w)@ + spec_prefix_tail(ind1@, ind2@),
{
    proof {
        reveal(spec_prefix_tail);
    }
    w.append(ind2.as_str());
    w.append("    },\n");
    w.append(ind2.as_str());
    w.append("    _ => {},\n");
    w.append(ind2.as_str());
    w.append("}\n");
    w.append(ind1.as_str());
    w.append("}\n");
    w.append(ind1.as_str());
    w.append("}\n");
    proof {
        assert(final(w)@ =~= old(w)@ + spec_prefix_tail(ind1@, ind2@));
    }
}


/// A dynamic child found first at a position is what the search yields.
proof fn lemma_find_dynamic_at(cs: Seq<(Charlike, Trie<FlattenedRoute>)>, idx: int)
    requires
        0 <= idx < cs.len(),
        cs[idx].0@ is Dynamic,
        forall|j: int| 0 <= j < idx ==> !((#[trigger] cs[j].0@) is Dynamic),
    ensures
        spec_find_dynamic(cs) == Some(idx),
    decreases cs.len(),
{
    if idx == 0 {
    } else {
        lemma_find_dynamic_at(cs.drop_first(), idx - 1);
    }
}

/// Without a dynamic child the search yields nothing.
proof fn lemma_find_dynamic_none(cs: Seq<(Charlike, Trie<FlattenedRoute>)>)
    requires
        forall|j: int| 0 <= j < cs.len() ==> !((#[trigger] cs[j].0@) is Dynamic),
    ensures
        spec_find_dynamic(cs) is None,
    decreases cs.len(),
{
    if cs.len() > 0 {
        lemma_find_dynamic_none(cs.drop_first());
    }
}

/// The position of the first dynamic child, if any.
fn find_dynamic_idx(cs: &Vec<(Charlike, Trie<FlattenedRoute>)>) -> (r: Option<usize>)
    ensures
        match r {
            None => spec_find_dynamic(cs@) is None,
            Some(i) => spec_find_dynamic(cs@) == Some(i as int) && i < cs@.len()
                && cs@[i as int].0@ is Dynamic,
        },
{
    let n = cs.len();
    let mut i: usize = 0;
    while i < n
        invariant
            n == cs@.len(),
            i <= n,
            forall|j: int| 0 <= j < i ==> !((#[trigger] cs@[j].0@) is Dynamic),
        decreases n - i,
    {
        let hit = match &cs[i].0 {
            Charlike::Dynamic(_) => true,
            _ => false,
        };
        if hit {
            proof {
                lemma_find_dynamic_at(cs@, i as int);
            }
            return Some(i);
        }
        i = i + 1;
    }
    proof {
        lemma_find_dynamic_none(cs@);
    }
    None
}

/// Whether some child is keyed by a separator.
fn has_separator_child(cs: &Vec<(Charlike, Trie<FlattenedRoute>)>) -> (r: bool)
    ensures
        r == spec_has_separator(cs@),
{
    let n = cs.len();
    let mut i: usize = 0;
    while i < n
        invariant
            n == cs@.len(),
            i <= n,
            forall|j: int| 0 <= j < i ==> !((#[trigger] cs@[j].0@) is Separator),
        decreases n - i,
    {
        let hit = match &cs[i].0 {
            Charlike::Separator => true,
            _ => false,
        };
        if hit {
            proof {
                assert(cs@[i as int].0@ is Separator);
            }
            return true;
        }
        i = i + 1;
    }
    false
}

/// A static child found first at a position is what the search yields.
proof fn lemma_find_static_at(cs: Seq<(Charlike, Trie<FlattenedRoute>)>, idx: int)
    requires
        0 <= idx < cs.len(),
        cs[idx].0@ is Static,
        forall|j: int| 0 <= j < idx ==> !((#[trigger] cs[j].0@) is Static),
    ensures
        spec_find_static(cs) == Some(idx),
    decreases cs.len(),
{
    if idx == 0 {
    } else {
        lemma_find_static_at(cs.drop_first(), idx - 1);
    }
}

/// The number of static children, and the position of the first.
fn static_options(cs: &Vec<(Charlike, Trie<FlattenedRoute>)>) -> (r: (usize, Option<usize>))
    ensures
        r.0 as nat == spec_static_count(cs@),
        match r.1 {
            None => spec_static_count(cs@) == 0,
            Some(i) => spec_find_static(cs@) == Some(i as int) && i < cs@.len()
                && cs@[i as int].0@ is Static,
        },
{
    let n = cs.len();
    let mut count: usize = 0;
    let mut first: Option<usize> = None;
    proof {
        assert(cs@.take(0) =~= Seq::<(Charlike, Trie<FlattenedRoute>)>::empty());
    }
    let mut i: usize = 0;
    while i < n
        invariant
            n == cs@.len(),
            i <= n,
            count as nat == spec_static_count(cs@.take(i as int)),
            count <= i,
            match first {
                None => forall|j: int| 0 <= j < i ==> !((#[trigger] cs@[j].0@) is Static),
                Some(f) => f < i && cs@[f as int].0@ is Static && (forall|j: int|
                    0 <= j < f ==> !((#[trigger] cs@[j].0@) is Static)),
            },
        decreases n - i,
    {
        let hit = match &cs[i].0 {
            Charlike::Static(_) => true,
            _ => false,
        };
        proof {
            assert(cs@.take(i + 1).drop_last() =~= cs@.take(i as int));
            assert(cs@.take(i + 1).last() == cs@[i as int]);
        }
        if hit {
            count = count + 1;
            if first.is_none() {
                first = Some(i);
            }
        }
        i = i + 1;
    }
    proof {
        assert(cs@.take(n as int) =~= cs@);
        match first {
            None => {},
            Some(f) => {
                lemma_find_static_at(cs@, f as int);
            },
        }
        if first is None {
            lemma_static_count_zero(cs@);
        }
    }
    (count, first)
}

/// A list without static children counts none.
proof fn lemma_static_count_zero(cs: Seq<(Charlike, Trie<FlattenedRoute>)>)
    requires
        forall|j: int| 0 <= j < cs.len() ==> !((#[trigger] cs[j].0@) is Static),
    ensures
        spec_static_count(cs) == 0,
    decreases cs.len(),
{
    if cs.len() > 0 {
        lemma_static_count_zero(cs.drop_last());
    }
}

/// Follow the unambiguous lookahead from a node: the collected characters
/// and the node reached.
fn lookahead<'a>(t: &'a Trie<FlattenedRoute>) -> (r: (String, &'a Trie<FlattenedRoute>))
    ensures
        r.0@ == spec_lookahead(*t).0,
        *r.1 == spec_lookahead(*t).1,
        trie_size(*r.1) <= trie_size(*t),
        r.0@.len() > 0 ==> trie_size(*r.1) < trie_size(*t),
{
    let mut sv = String::new();
    let mut cur: &Trie<FlattenedRoute> = t;
    proof {
        assert(sv@ + spec_lookahead(*cur).0 =~= spec_lookahead(*t).0);
    }
    loop
        invariant
            sv@ + spec_lookahead(*cur).0 == spec_lookahead(*t).0,
            spec_lookahead(*cur).1 == spec_lookahead(*t).1,
            trie_size(*cur) <= trie_size(*t),
            sv@.len() > 0 ==> trie_size(*cur) < trie_size(*t),
        ensures
            sv@ == spec_lookahead(*t).0,
            *cur == spec_lookahead(*t).1,
            trie_size(*cur) <= trie_size(*t),
            sv@.len() > 0 ==> trie_size(*cur) < trie_size(*t),
        decreases trie_size(*cur),
    {
        if has_separator_child(&cur.children) {
            proof {
                assert(spec_lookahead(*cur).0 =~= Seq::<char>::empty());
                assert(sv@ + spec_lookahead(*cur).0 =~= sv@);
            }
            break;
        }
        let (count, first) = static_options(&cur.children);
        if count != 1 {
            proof {
                assert(spec_lookahead(*cur).0 =~= Seq::<char>::empty());
                assert(sv@ + spec_lookahead(*cur).0 =~= sv@);
            }
            break;
        }
        match first {
            None => {
                proof {
                    assert(false);
                }
            },
            Some(fi) => {
                let c = match &cur.children[fi].0 {
                    Charlike::Static(c) => *c,
                    _ => {
                        proof {
                            assert(false);
                        }
                        ' '
                    },
                };
                proof {
                    assert(spec_lookahead(*cur).0 == seq![c] + spec_lookahead(
                        cur.children@[fi as int].1,
                    ).0);
                    assert(spec_lookahead(*cur).1 == spec_lookahead(
                        cur.children@[fi as int].1,
                    ).1);
                    lemma_children_size_elem(cur.children@, fi as int);
                    lemma_lookahead_size(cur.children@[fi as int].1);
                }
                push_char(&mut sv, c);
                proof {
                    assert(sv@ + spec_lookahead(cur.children@[fi as int].1).0 =~= spec_lookahead(
                        *t,
                    ).0);
                }
                cur = &cur.children[fi].1;
            },
        }
    }
    (sv, cur)
}



/// Emit the terminal check above a separator edge.
fn emit_child_head(w: &mut String, child: &Trie<FlattenedRoute>, indent: usize, ind: &String)
    requires
        ind@ == spec_spaces(indent as int),
    ensures
        final(w)@ == old(w)@ + spec_child_head(*child, ind@),
{
    let mut emitted = false;
    match &child.data {
        Some(r2) => {
            if r2.resources.len() != 0 {
                write_methods(w, r2, indent);
                emitted = true;
            }
        },
        None => {},
    }
    if !emitted {
        emit_iflen_notfound(w, ind, false);
    }
}

/// Emit the unrolled matching code of a trie node.  Fails only on a
/// structural violation of the trie, in which case the buffer may hold a
/// prefix of the intended output.
pub fn codegen_trie(w: &mut String, trie: &Trie<FlattenedRoute>, indent: usize, esc: bool) -> (r:
    Result<(), GenError>)
    ensures
        match r {
            Ok(_) => spec_codegen_trie(*trie, indent as int, esc) is Some && final(w)@ == old(w)@
                + spec_codegen_trie(*trie, indent as int, esc)->Some_0,
            Err(_) => spec_codegen_trie(*trie, indent as int, esc) is None && old(w)@.len()
                <= final(w)@.len() && final(w)@.take(old(w)@.len() as int) == old(w)@,
        },
    decreases trie_size(*trie), 1int, 0int,
{
    let ghost w0 = w@;
    proof {
        assert(w0.take(w0.len() as int) =~= w0);
    }
    if indent > usize::MAX - 3 {
        return Err(GenError);
    }
    if trie.children.len() == 0 {
        let ind1 = spaces(indent);
        match &trie.data {
            Some(route) => {
                if route.resources.len() != 0 {
                    write_methods(w, route, indent);
                }
            },
            None => {},
        }
        let ghost pre = spec_data_methods(*trie, indent as int);
        proof {
            assert(w@ =~= w0 + pre);
        }
        emit_notfound(w, &ind1, esc);
        proof {
            assert(final(w)@ =~= w0 + (pre + spec_notfound_line(ind1@, esc)));
        }
        Ok(())
    } else if trie.children.len() == 1 {
        codegen_one_child(w, trie, indent, esc)
    } else {
        codegen_branches(w, trie, indent, esc)
    }
}

/// Emit the matching code of a node with a single child.
#[verifier::rlimit(100)]
fn codegen_one_child(w: &mut String, trie: &Trie<FlattenedRoute>, indent: usize, esc: bool) -> (r:
    Result<(), GenError>)
    requires
        trie.children@.len() == 1,
        indent <= usize::MAX - 3,
    ensures
        match r {
            Ok(_) => spec_codegen_trie(*trie, indent as int, esc) is Some && final(w)@ == old(w)@
                + spec_codegen_trie(*trie, indent as int, esc)->Some_0,
            Err(_) => spec_codegen_trie(*trie, indent as int, esc) is None && old(w)@.len()
                <= final(w)@.len() && final(w)@.take(old(w)@.len() as int) == old(w)@,
        },
    decreases trie_size(*trie), 0int, 0int,
{
    let ghost w0 = w@;
    proof {
        assert(w0.take(w0.len() as int) =~= w0);
    }
    let ind1 = spaces(indent);
    match &trie.data {
        Some(route) => {
            if route.resources.len() != 0 {
                write_methods(w, route, indent);
            }
        },
        None => {},
    }
    let ghost pre = spec_data_methods(*trie, indent as int);
    proof {
        assert(w@ =~= w0 + pre);
    }
        let key = &trie.children[0].0;
        let child = &trie.children[0].1;
        proof {
            lemma_children_size_elem(trie.children@, 0);
        }
        match key {
            Charlike::Separator => {
                let ghost head = spec_child_head(*child, ind1@);
                emit_child_head(w, child, indent, &ind1);
                emit_sep_match(w, &ind1, esc);
                let ghost mid = w@;
                proof {
                    assert(mid =~= w0 + pre + head + spec_sep_match(ind1@, esc));
                }
                match codegen_trie(w, child, indent, false) {
                    Ok(_) => {
                        proof {
                            assert(final(w)@ =~= w0 + (pre + head + spec_sep_match(ind1@, esc)
                                + spec_codegen_trie(*child, indent as int, false)->Some_0));
                        }
                        Ok(())
                    },
                    Err(e) => {
                        proof {
                            assert(mid.take(w0.len() as int) =~= w0);
                            lemma_prefix_trans(w0, mid, final(w)@);
                        }
                        Err(e)
                    },
                }
            },
            Charlike::Static(c0) => {
                let mut sv = char_string(*c0);
                let mut cur: &Trie<FlattenedRoute> = child;
                proof {
                    assert(sv@ + spec_chain(*cur).0 =~= seq![trie.children@[0].0@->Static_0]
                        + spec_chain(*child).0);
                }
                loop
                    invariant
                        sv@ + spec_chain(*cur).0 == seq![trie.children@[0].0@->Static_0]
                            + spec_chain(*child).0,
                        spec_chain(*cur).1 == spec_chain(*child).1,
                        trie_size(*cur) <= trie_size(*child),
                    ensures
                        sv@ == seq![trie.children@[0].0@->Static_0] + spec_chain(*child).0,
                        *cur == spec_chain(*child).1,
                        trie_size(*cur) <= trie_size(*child),
                    decreases trie_size(*cur),
                {
                    if cur.children.len() != 1 {
                        proof {
                            assert(spec_chain(*cur).0 =~= Seq::<char>::empty());
                            assert(sv@ + spec_chain(*cur).0 =~= sv@);
                        }
                        break;
                    }
                    let c = match &cur.children[0].0 {
                        Charlike::Static(c) => Some(*c),
                        _ => None,
                    };
                    match c {
                        None => {
                            proof {
                                assert(spec_chain(*cur).0 =~= Seq::<char>::empty());
                                assert(sv@ + spec_chain(*cur).0 =~= sv@);
                            }
                            break;
                        },
                        Some(c) => {
                            proof {
                                assert(spec_chain(*cur).0 == seq![c] + spec_chain(
                                    cur.children@[0].1,
                                ).0);
                                lemma_children_size_elem(cur.children@, 0);
                                lemma_chain_size(cur.children@[0].1);
                            }
                            push_char(&mut sv, c);
                            proof {
                                assert(sv@ + spec_chain(cur.children@[0].1).0 =~= seq![
                                    trie.children@[0].0@->Static_0,
                                ] + spec_chain(*child).0);
                            }
                            cur = &cur.children[0].1;
                        },
                    }
                }
                proof {
                    lemma_chain_size(*child);
                }
                emit_static_block(w, &sv, &ind1, esc);
                let ghost mid = w@;
                proof {
                    assert(mid =~= w0 + pre + spec_static_block(sv@, ind1@, esc));
                }
                match codegen_trie(w, cur, indent, esc) {
                    Ok(_) => {
                        proof {
                            assert(final(w)@ =~= w0 + (pre + spec_static_block(sv@, ind1@, esc)
                                + spec_codegen_trie(*cur, indent as int, esc)->Some_0));
                        }
                        Ok(())
                    },
                    Err(e) => {
                        proof {
                            assert(mid.take(w0.len() as int) =~= w0);
                            lemma_prefix_trans(w0, mid, final(w)@);
                        }
                        Err(e)
                    },
                }
            },
            Charlike::Dynamic(name) => {
                w.append(ind1.as_str());
                w.append("let start = i;\n");
                let ghost mid = w@;
                proof {
                    assert(mid =~= w0 + pre + ind1@ + "let start = i;\n"@);
                }
                match write_dynamic(w, child, indent, name.as_str()) {
                    Ok(_) => {
                        proof {
                            assert(final(w)@ =~= w0 + (pre + ind1@ + "let start = i;\n"@
                                + spec_write_dynamic(
                                *child,
                                indent as int,
                                name@,
                            )->Some_0));
                        }
                        Ok(())
                    },
                    Err(e) => {
                        proof {
                            assert(mid.take(w0.len() as int) =~= w0);
                            lemma_prefix_trans(w0, mid, final(w)@);
                        }
                        Err(e)
                    },
                }
            },
        }
}

/// Emit the matching code of a node with several children.
fn codegen_branches(w: &mut String, trie: &Trie<FlattenedRoute>, indent: usize, esc: bool) -> (r:
    Result<(), GenError>)
    requires
        trie.children@.len() > 1,
        indent <= usize::MAX - 3,
    ensures
        match r {
            Ok(_) => spec_codegen_trie(*trie, indent as int, esc) is Some && final(w)@ == old(w)@
                + spec_codegen_trie(*trie, indent as int, esc)->Some_0,
            Err(_) => spec_codegen_trie(*trie, indent as int, esc) is None && old(w)@.len()
                <= final(w)@.len() && final(w)@.take(old(w)@.len() as int) == old(w)@,
        },
    decreases trie_size(*trie), 0int, 2int,
{
    let (sv, nx) = lookahead(trie);
    if sv.as_str().unicode_len() > 0 {
        codegen_with_prefix(w, trie, indent, esc)
    } else {
        codegen_with_switch(w, trie, indent, esc)
    }
}

/// Emit the conditional attempt at an unambiguous static prefix, then the
/// dynamic capture as a fallback.
#[verifier::rlimit(100)]
fn codegen_with_prefix(w: &mut String, trie: &Trie<FlattenedRoute>, indent: usize, esc: bool) -> (
    r: Result<(), GenError>)
    requires
        trie.children@.len() > 1,
        indent <= usize::MAX - 3,
        spec_lookahead(*trie).0.len() > 0,
    ensures
        match r {
            Ok(_) => spec_codegen_trie(*trie, indent as int, esc) is Some && final(w)@ == old(w)@
                + spec_codegen_trie(*trie, indent as int, esc)->Some_0,
            Err(_) => spec_codegen_trie(*trie, indent as int, esc) is None && old(w)@.len()
                <= final(w)@.len() && final(w)@.take(old(w)@.len() as int) == old(w)@,
        },
    decreases trie_size(*trie), 0int, 1int,
{
    let ghost w0 = w@;
    proof {
        assert(w0.take(w0.len() as int) =~= w0);
    }
    let ind1 = spaces(indent);
    match &trie.data {
        Some(route) => {
            if route.resources.len() != 0 {
                write_methods(w, route, indent);
            }
        },
        None => {},
    }
    let ghost pre = spec_data_methods(*trie, indent as int);
    proof {
        assert(w@ =~= w0 + pre);
    }
        let dyn_idx = find_dynamic_idx(&trie.children);
        if dyn_idx.is_some() {
            w.append("\n");
            w.append(ind1.as_str());
            w.append("let start = i;\n");
            w.append("\n");
        }
        let ghost dynpre = if spec_find_dynamic(trie.children@) is Some {
            "\n"@ + ind1@ + "let start = i;\n"@ + "\n"@
        } else {
            Seq::<char>::empty()
        };
        proof {
            assert(w@ =~= w0 + pre + dynpre);
        }
        let (sv, nx) = lookahead(trie);
        {
            match dyn_idx {
                None => {
                    proof {
                        assert(final(w)@.take(w0.len() as int) =~= w0);
                    }
                    Err(GenError)
                },
                Some(di) => {
                    let ind2 = spaces(indent + 1);
                    emit_prefix_head(w, &sv, &ind1, &ind2);
                    let ghost mid1 = w@;
                    proof {
                        assert(mid1 =~= w0 + pre + dynpre + spec_prefix_head(sv@, ind1@, ind2@));
                    }
                    match codegen_trie(w, nx, indent + 3, true) {
                        Err(e) => {
                            proof {
                                assert(mid1.take(w0.len() as int) =~= w0);
                                lemma_prefix_trans(w0, mid1, final(w)@);
                            }
                            Err(e)
                        },
                        Ok(_) => {
                            emit_prefix_tail(w, &ind1, &ind2);
                            let ghost mid2 = w@;
                            proof {
                                assert(mid2 =~= w0 + pre + dynpre + spec_prefix_head(
                                    sv@,
                                    ind1@,
                                    ind2@,
                                ) + spec_codegen_trie(*nx, indent + 3, true)->Some_0
                                    + spec_prefix_tail(ind1@, ind2@));
                            }
                            let dname = match &trie.children[di].0 {
                                Charlike::Dynamic(n) => n.as_str(),
                                _ => {
                                    proof {
                                        assert(false);
                                    }
                                    ""
                                },
                            };
                            proof {
                                lemma_children_size_elem(trie.children@, di as int);
                            }
                            match write_dynamic(w, &trie.children[di].1, indent, dname) {
                                Ok(_) => {
                                    proof {
                                        assert(final(w)@ =~= w0 + (pre + dynpre + spec_prefix_head(
                                            sv@,
                                            ind1@,
                                            ind2@,
                                        ) + spec_codegen_trie(*nx, indent + 3, true)->Some_0
                                            + spec_prefix_tail(ind1@, ind2@) + spec_write_dynamic(
                                            trie.children@[di as int].1,
                                            indent as int,
                                            dname@,
                                        )->Some_0));
                                    }
                                    Ok(())
                                },
                                Err(e) => {
                                    proof {
                                        assert(mid2.take(w0.len() as int) =~= w0);
                                        lemma_prefix_trans(w0, mid2, final(w)@);
                                    }
                                    Err(e)
                                },
                            }
                        },
                    }
                },
            }
        }
}

/// Emit the one-byte switch over the children.
#[verifier::rlimit(100)]
fn codegen_with_switch(w: &mut String, trie: &Trie<FlattenedRoute>, indent: usize, esc: bool) -> (
    r: Result<(), GenError>)
    requires
        trie.children@.len() > 1,
        indent <= usize::MAX - 3,
        spec_lookahead(*trie).0.len() == 0,
    ensures
        match r {
            Ok(_) => spec_codegen_trie(*trie, indent as int, esc) is Some && final(w)@ == old(w)@
                + spec_codegen_trie(*trie, indent as int, esc)->Some_0,
            Err(_) => spec_codegen_trie(*trie, indent as int, esc) is None && old(w)@.len()
                <= final(w)@.len() && final(w)@.take(old(w)@.len() as int) == old(w)@,
        },
    decreases trie_size(*trie), 0int, 1int,
{
    let ghost w0 = w@;
    proof {
        assert(w0.take(w0.len() as int) =~= w0);
    }
    let ind1 = spaces(indent);
    match &trie.data {
        Some(route) => {
            if route.resources.len() != 0 {
                write_methods(w, route, indent);
            }
        },
        None => {},
    }
    let ghost pre = spec_data_methods(*trie, indent as int);
    proof {
        assert(w@ =~= w0 + pre);
    }
        let dyn_idx = find_dynamic_idx(&trie.children);
        if dyn_idx.is_some() {
            w.append("\n");
            w.append(ind1.as_str());
            w.append("let start = i;\n");
            w.append("\n");
        }
        let ghost dynpre = if spec_find_dynamic(trie.children@) is Some {
            "\n"@ + ind1@ + "let start = i;\n"@ + "\n"@
        } else {
            Seq::<char>::empty()
        };
        proof {
            assert(w@ =~= w0 + pre + dynpre);
        }
        let (sv, nx) = lookahead(trie);
        {
            emit_iflen_notfound(w, &ind1, esc);
            w.append(ind1.as_str());
            w.append("match &path[i..i+1] {\n");
            let ghost mid = w@;
            proof {
                reveal(spec_switch_head);
                assert(mid =~= w0 + pre + dynpre + spec_switch_head(ind1@, esc));
            }
            match write_trie_arms(w, &trie.children, indent, esc) {
                Err(e) => {
                    proof {
                        assert(mid.take(w0.len() as int) =~= w0);
                        lemma_prefix_trans(w0, mid, final(w)@);
                    }
                    Err(e)
                },
                Ok(_) => {
                    w.append(ind1.as_str());
                    if esc {
                        w.append("    _ => break 'probe,\n");
                    } else {
                        w.append("    _ => return Ok(Match::NotFound),\n");
                    }
                    w.append(ind1.as_str());
                    w.append("}\n");
                    proof {
                        reveal(spec_switch_tail);
                        assert(final(w)@ =~= w0 + (pre + dynpre + spec_switch_head(ind1@, esc)
                            + spec_trie_arms(trie.children@, indent as int, esc)->Some_0
                            + spec_switch_tail(ind1@, esc)));
                    }
                    Ok(())
                },
            }
        }
}

/// Emit the switch arms over a node's children.
#[verifier::rlimit(100)]
fn write_trie_arms(
    w: &mut String,
    cs: &Vec<(Charlike, Trie<FlattenedRoute>)>,
    indent: usize,
    esc: bool,
) -> (r: Result<(), GenError>)
    requires
        indent <= usize::MAX - 3,
    ensures
        match r {
            Ok(_) => spec_trie_arms(cs@, indent as int, esc) is Some && final(w)@ == old(w)@
                + spec_trie_arms(cs@, indent as int, esc)->Some_0,
            Err(_) => spec_trie_arms(cs@, indent as int, esc) is None && old(w)@.len()
                <= final(w)@.len() && final(w)@.take(old(w)@.len() as int) == old(w)@,
        },
    decreases children_size(cs@), 2int, 0int,
{
    let ghost w0 = w@;
    proof {
        assert(w0.take(w0.len() as int) =~= w0);
    }
    let ind2 = spaces(indent + 1);
    let n = cs.len();
    proof {
        assert(cs@.skip(0) =~= cs@);
        match spec_trie_arms(cs@, indent as int, esc) {
            None => {},
            Some(whole) => {
                assert(w0 + whole =~= w@ + whole);
            },
        }
    }
    let mut k: usize = 0;
    loop
        invariant
            n == cs@.len(),
            k <= n,
            indent <= usize::MAX - 3,
            ind2@ == spec_spaces(indent + 1),
            w0 == old(w)@,
            w0.take(w0.len() as int) == w0,
            w0.len() <= w@.len(),
            w@.take(w0.len() as int) == w0,
            match spec_trie_arms(cs@.skip(k as int), indent as int, esc) {
                None => spec_trie_arms(cs@, indent as int, esc) is None,
                Some(rest) => spec_trie_arms(cs@, indent as int, esc) matches Some(whole) && w0
                    + whole == w@ + rest,
            },
        ensures
            spec_trie_arms(cs@, indent as int, esc) is Some && w@ == w0 + spec_trie_arms(
                cs@,
                indent as int,
                esc,
            )->Some_0,
        decreases n - k,
    {
        proof {
            if k < n {
                assert(cs@.skip(k as int)[0] == cs@[k as int]);
                assert(cs@.skip(k as int).drop_first() =~= cs@.skip(k + 1));
                lemma_children_size_elem(cs@, k as int);
                lemma_children_size_elem(cs@.skip(k as int), 0);
                lemma_skip_children_size(cs@, k as int);
            }
        }
        if k >= n {
            proof {
                assert(cs@.skip(n as int).len() == 0);
                assert(spec_trie_arms(cs@.skip(n as int), indent as int, esc) == Some(
                    Seq::<char>::empty(),
                ));
                assert(w@ + Seq::<char>::empty() =~= w@);
            }
            break;
        }
        let key = &cs[k].0;
        let child = &cs[k].1;
        match key {
            Charlike::Static(c) => {
                let ghost before = w@;
                w.append(ind2.as_str());
                w.append("b\"");
                let cst = char_string(*c);
                w.append(cst.as_str());
                w.append("\" => {\n");
                w.append(ind2.as_str());
                w.append("    i += 1;\n");
                let ghost mid = w@;
                match codegen_trie(w, child, indent + 2, esc) {
                    Err(e) => {
                        proof {
                            assert(mid.take(w0.len() as int) =~= w0);
                            lemma_prefix_trans(w0, mid, final(w)@);
                        }
                        return Err(e);
                    },
                    Ok(_) => {},
                }
                w.append(ind2.as_str());
                w.append("},\n");
                proof {
                    assert(w@ =~= before + (ind2@ + "b\""@ + seq![cs@[k as int].0@->Static_0]
                        + "\" => {\n"@ + ind2@ + "    i += 1;\n"@ + spec_codegen_trie(
                        cs@[k as int].1,
                        indent + 2,
                        esc,
                    )->Some_0 + ind2@ + "},\n"@));
                }
            },
            Charlike::Dynamic(name) => {
                let ghost before = w@;
                match write_dynamic(w, child, indent, name.as_str()) {
                    Err(e) => {
                        proof {
                            assert(before.take(w0.len() as int) =~= w0);
                            lemma_prefix_trans(w0, before, final(w)@);
                        }
                        return Err(e);
                    },
                    Ok(_) => {},
                }
                proof {
                    assert(spec_trie_arms(cs@.skip(k as int), indent as int, esc)
                        == spec_write_dynamic(cs@[k as int].1, indent as int, name@));
                    assert(w@ + Seq::<char>::empty() =~= w@);
                }
                return Ok(());
            },
            Charlike::Separator => {
                w.append(ind2.as_str());
                w.append("Some('/') => {}\n");
            },
        }
        k = k + 1;
    }
    Ok(())
}

/// Skipping leading children cannot grow the list's size.
proof fn lemma_skip_children_size(cs: Seq<(Charlike, Trie<FlattenedRoute>)>, k: int)
    requires
        0 <= k <= cs.len(),
    ensures
        children_size(cs.skip(k)) <= children_size(cs),
    decreases k,
{
    if k > 0 {
        lemma_skip_children_size(cs, k - 1);
        if cs.skip(k - 1).len() > 0 {
            assert(cs.skip(k - 1).drop_first() =~= cs.skip(k));
            lemma_children_size_drop_first(cs.skip(k - 1));
        }
    } else {
        assert(cs.skip(0) =~= cs);
    }
}

/// Emit a dynamic capture and everything below it.  The capture's node must
/// hold exactly one separator child.
#[verifier::rlimit(100)]
fn write_dynamic(w: &mut String, trie: &Trie<FlattenedRoute>, indent: usize, name: &str) -> (r:
    Result<(), GenError>)
    ensures
        match r {
            Ok(_) => spec_write_dynamic(*trie, indent as int, name@) is Some
                && final(w)@ == old(w)@ + spec_write_dynamic(*trie, indent as int, name@)->Some_0,
            Err(_) => spec_write_dynamic(*trie, indent as int, name@) is None && old(w)@.len()
                <= final(w)@.len() && final(w)@.take(old(w)@.len() as int) == old(w)@,
        },
    decreases trie_size(*trie), 0int, 0int,
{
    let ghost w0 = w@;
    proof {
        assert(w0.take(w0.len() as int) =~= w0);
    }
    if trie.children.len() != 1 {
        return Err(GenError);
    }
    let is_sep = match &trie.children[0].0 {
        Charlike::Separator => true,
        _ => false,
    };
    if !is_sep {
        return Err(GenError);
    }
    if indent > usize::MAX - 3 {
        return Err(GenError);
    }
    let ind1 = spaces(indent);
    emit_dyn_scan(w, name, &ind1);
    let child = &trie.children[0].1;
    proof {
        lemma_children_size_elem(trie.children@, 0);
    }
    match &trie.data {
        Some(route) => {
            if route.resources.len() != 0 {
                write_methods(w, route, indent);
            }
        },
        None => {},
    }
    let ghost pre = spec_data_methods(*trie, indent as int);
    let ghost head = spec_child_head(*child, ind1@);
    emit_child_head(w, child, indent, &ind1);
    emit_sep_match(w, &ind1, false);
    let ghost mid = w@;
    proof {
        assert(mid =~= w0 + spec_dyn_scan(name@, ind1@) + pre + head + spec_sep_match(
            ind1@,
            false,
        ));
    }
    match codegen_trie(w, child, indent, false) {
        Ok(_) => {
            proof {
                assert(final(w)@ =~= w0 + (spec_dyn_scan(name@, ind1@) + pre + head
                    + spec_sep_match(ind1@, false) + spec_codegen_trie(
                    *child,
                    indent as int,
                    false,
                )->Some_0));
            }
            Ok(())
        },
        Err(e) => {
            proof {
                assert(mid.take(w0.len() as int) =~= w0);
                lemma_prefix_trans(w0, mid, final(w)@);
            }
            Err(e)
        },
    }
}


/// The documentation rendering of an action's path: static characters as
/// they are, a capture as its braced name, and a separator slash except at
/// the very end.
pub open spec fn spec_doc_path(cs: Seq<CharlikeV>) -> Seq<char>
    decreases cs.len(),
{
    if cs.len() == 0 {
        Seq::empty()
    } else {
        (match cs[0] {
            CharlikeV::Static(c) => seq![c],
            CharlikeV::Dynamic(n) => "{"@ + n + "}"@,
            CharlikeV::Separator => if cs.len() == 1 {
                Seq::<char>::empty()
            } else {
                "/"@
            },
        }) + spec_doc_path(cs.drop_first())
    }
}

/// The format-string rendering of an action's path: static characters as
/// they are, a placeholder per capture, and a separator slash except at the
/// very end.
pub open spec fn spec_fmt_path(cs: Seq<CharlikeV>) -> Seq<char>
    decreases cs.len(),
{
    if cs.len() == 0 {
        Seq::empty()
    } else {
        (match cs[0] {
            CharlikeV::Static(c) => seq![c],
            CharlikeV::Dynamic(n) => "{}"@,
            CharlikeV::Separator => if cs.len() == 1 {
                Seq::<char>::empty()
            } else {
                "/"@
            },
        }) + spec_fmt_path(cs.drop_first())
    }
}

/// The required field lines of a request struct, one per route parameter.
pub open spec fn spec_field_lines(ps: Seq<ParamV>, ind: Seq<char>) -> Seq<char>
    decreases ps.len(),
{
    if ps.len() == 0 {
        Seq::empty()
    } else {
        spec_field_lines(ps.drop_last(), ind) + ind + "    pub "@ + ps.last().name + ": "@
            + ps.last().typ + ",\n"@
    }
}

/// The optional field lines of a request struct, one per query parameter.
pub open spec fn spec_opt_field_lines(ps: Seq<ParamV>, ind: Seq<char>) -> Seq<char>
    decreases ps.len(),
{
    if ps.len() == 0 {
        Seq::empty()
    } else {
        spec_opt_field_lines(ps.drop_last(), ind) + ind + "    pub "@ + ps.last().name
            + ": Option<"@ + ps.last().typ + ">,\n"@
    }
}

/// The `ref` bindings of a destructuring line, one per parameter.
pub open spec fn spec_ref_binds(ps: Seq<ParamV>) -> Seq<char>
    decreases ps.len(),
{
    if ps.len() == 0 {
        Seq::empty()
    } else {
        spec_ref_binds(ps.drop_last()) + "ref "@ + ps.last().name + ", "@
    }
}

/// The format arguments of a path rendering, one per route parameter.
pub open spec fn spec_fmt_args(ps: Seq<ParamV>) -> Seq<char>
    decreases ps.len(),
{
    if ps.len() == 0 {
        Seq::empty()
    } else {
        spec_fmt_args(ps.drop_last()) + ", "@ + ps.last().name
    }
}

/// The request struct declaration of one action.
#[verifier::opaque]
pub open spec fn spec_action_struct(a: crate::flat::FlattenedActionV, ind: Seq<char>) -> Seq<char> {
    let cls = spec_path_charlikes(a.path);
    let rps = spec_path_dynamics(a.path);
    ind + "/// Renders for `"@ + a.method.spec_str() + " /"@ + spec_doc_path(cls) + "`.\n"@ + ind
        + "#[derive(Debug, PartialEq, Eq)]\n"@ + ind + "pub struct "@ + spec_to_caps(a.name) + (
    if rps.len() == 0 && a.query_parameters.len() == 0 {
        ";\n"@
    } else {
        " {\n"@ + spec_field_lines(rps, ind) + spec_opt_field_lines(a.query_parameters, ind) + ind
            + "}\n"@
    })
}

/// The opening of one action's `to_path` method, with its destructuring.
#[verifier::opaque]
pub open spec fn spec_to_path_head(a: crate::flat::FlattenedActionV, ind: Seq<char>) -> Seq<char> {
    let rps = spec_path_dynamics(a.path);
    "\n"@ + ind + "impl "@ + spec_to_caps(a.name) + " {\n"@ + ind
        + "    /// Make a path to this route with the given parameters.\n"@ + ind
        + "    pub fn to_path(&self) -> String {\n"@ + (
    if rps.len() == 0 && a.query_parameters.len() == 0 {
        Seq::<char>::empty()
    } else {
        ind + "        let "@ + spec_to_caps(a.name) + " { "@ + spec_ref_binds(rps)
            + spec_ref_binds(a.query_parameters) + "} = self;\n"@
    })
}

/// The path rendering of one action's `to_path` method.
#[verifier::opaque]
pub open spec fn spec_to_path_fmt(a: crate::flat::FlattenedActionV, ind: Seq<char>) -> Seq<char> {
    let cls = spec_path_charlikes(a.path);
    let rps = spec_path_dynamics(a.path);
    ind + "        format!(\"/"@ + spec_fmt_path(cls) + "\""@ + spec_fmt_args(rps) + ")\n"@
        + ind + "    }\n"@ + ind + "}\n"@ + "\n"@
}

/// The `to_path` method of one action.
pub open spec fn spec_action_to_path(a: crate::flat::FlattenedActionV, ind: Seq<char>) -> Seq<
    char,
> {
    spec_to_path_head(a, ind) + spec_to_path_fmt(a, ind)
}

/// The request struct and `to_path` method of one action.
pub open spec fn spec_action_text(a: crate::flat::FlattenedActionV, ind: Seq<char>) -> Seq<char> {
    spec_action_struct(a, ind) + spec_action_to_path(a, ind)
}

/// The request structs and `to_path` methods of a module's actions, in
/// order.
pub open spec fn spec_actions_text(s: Seq<crate::flat::FlattenedActionV>, ind: Seq<char>) -> Seq<
    char,
>
    decreases s.len(),
{
    if s.len() == 0 {
        Seq::empty()
    } else {
        spec_actions_text(s.drop_last(), ind) + spec_action_text(s.last(), ind)
    }
}

/// The pasted header lines of a module, with a blank line after any.
pub open spec fn spec_module_headers(hs: Seq<Seq<char>>, ind: Seq<char>) -> Seq<char>
    decreases hs.len(),
{
    if hs.len() == 0 {
        Seq::empty()
    } else {
        spec_module_headers(hs.drop_last(), ind) + ind + hs.last() + "\n"@
    }
}

/// The enum variant lines for a module's actions.
pub open spec fn spec_action_variants(s: Seq<crate::flat::FlattenedActionV>, ind: Seq<char>) -> Seq<
    char,
>
    decreases s.len(),
{
    if s.len() == 0 {
        Seq::empty()
    } else {
        spec_action_variants(s.drop_last(), ind) + ind + "    "@ + spec_to_caps(s.last().name)
            + "("@ + spec_to_caps(s.last().name) + "),\n"@
    }
}

/// The enum variant lines for a module's sub-modules.
pub open spec fn spec_module_variants(s: Seq<crate::flat::FlattenedModuleV>, ind: Seq<char>) -> Seq<
    char,
>
    decreases s.len(),
{
    if s.len() == 0 {
        Seq::empty()
    } else {
        spec_module_variants(s.drop_last(), ind) + ind + "    "@ + spec_to_caps(s.last().name)
            + "("@ + spec_to_snake(s.last().name) + "::Route),\n"@
    }
}

/// The dispatch arm lines of the enum's `to_path`, one per name.
pub open spec fn spec_dispatch_arms(names: Seq<Seq<char>>, ind: Seq<char>) -> Seq<char>
    decreases names.len(),
{
    if names.len() == 0 {
        Seq::empty()
    } else {
        spec_dispatch_arms(names.drop_last(), ind) + ind + "            Route::"@ + spec_to_caps(
            names.last(),
        ) + "(ref route) => route.to_path(),\n"@
    }
}

/// The names of a module list.
pub open spec fn spec_module_names(s: Seq<crate::flat::FlattenedModuleV>) -> Seq<Seq<char>>
    decreases s.len(),
{
    if s.len() == 0 {
        Seq::empty()
    } else {
        spec_module_names(s.drop_last()).push(s.last().name)
    }
}

/// The names of an action list.
pub open spec fn spec_action_names(s: Seq<crate::flat::FlattenedActionV>) -> Seq<Seq<char>>
    decreases s.len(),
{
    if s.len() == 0 {
        Seq::empty()
    } else {
        spec_action_names(s.drop_last()).push(s.last().name)
    }
}

/// The `Route` enum declaration of a module.
#[verifier::opaque]
pub open spec fn spec_route_enum_head(
    m: crate::flat::FlattenedModuleV,
    ind: Seq<char>,
    is_root: bool,
) -> Seq<char> {
    (if is_root {
        ind + "/// An active route in the application -- match against this.\n"@
    } else {
        ind + "/// Parameters for requests to the "@ + spec_to_snake(m.name) + " controller.\n"@
    }) + ind + "#[derive(Debug, PartialEq, Eq)]\n"@ + ind + "pub enum Route {\n"@
        + spec_action_variants(m.actions, ind) + spec_module_variants(m.modules, ind) + ind
        + "}\n"@ + "\n"@
}

/// The `to_path` dispatch of a module's `Route` enum.
#[verifier::opaque]
pub open spec fn spec_route_impl(m: crate::flat::FlattenedModuleV, ind: Seq<char>) -> Seq<char> {
    ind + "impl Route {\n"@ + ind
        + "    /// Make a path to this route with the given parameters.\n"@ + ind
        + "    pub fn to_path(&self) -> String {\n"@ + ind + "        match self {\n"@
        + spec_dispatch_arms(spec_action_names(m.actions), ind) + spec_dispatch_arms(
        spec_module_names(m.modules),
        ind,
    ) + ind + "        }\n"@ + ind + "    }\n"@ + ind + "}\n"@
}

/// The `Route` enum of a module and its `to_path` dispatch.
pub open spec fn spec_route_enum(
    m: crate::flat::FlattenedModuleV,
    ind: Seq<char>,
    is_root: bool,
) -> Seq<char> {
    spec_route_enum_head(m, ind, is_root) + spec_route_impl(m, ind)
}

/// The sub-module blocks of a module, each one level deeper.
pub open spec fn spec_submodules_text(
    s: Seq<crate::flat::FlattenedModuleV>,
    headers: Seq<Seq<char>>,
    ind: Seq<char>,
) -> Seq<char>
    decreases s,
{
    if s.len() == 0 {
        Seq::empty()
    } else {
        spec_submodules_text(s.drop_last(), headers, ind) + ind + "pub mod "@ + spec_to_snake(
            s.last().name,
        ) + " {\n"@ + spec_codegen_module(s.last(), headers, ind + "    "@) + ind + "}\n"@
            + "\n"@
    }
}

/// The whole emitted text of one module: headers, request structs, nested
/// modules, then the module's `Route` enum with its dispatch.
pub open spec fn spec_codegen_module(
    m: crate::flat::FlattenedModuleV,
    headers: Seq<Seq<char>>,
    ind: Seq<char>,
) -> Seq<char>
    decreases m,
{
    spec_module_headers(headers, ind) + (if headers.len() > 0 {
        "\n"@
    } else {
        Seq::<char>::empty()
    }) + spec_actions_text(m.actions, ind) + spec_submodules_text(m.modules, headers, ind)
        + spec_route_enum(m, ind, ind == "    "@)
}


/// Emit the documentation rendering of a path's symbols.
fn write_doc_path(w: &mut String, cls: &Vec<Charlike>)
    ensures
        final(w)@ == old(w)@ + spec_doc_path(crate::flat::spec_charlike_views(cls@)),
{
    let ghost cv = crate::flat::spec_charlike_views(cls@);
    proof {
        crate::trie::lemma_charlike_views_elementwise(cls@);
        assert(cv.skip(0) =~= cv);
    }
    let n = cls.len();
    let mut i: usize = 0;
    while i < n
        invariant
            n == cls@.len(),
            i <= n,
            cv == crate::flat::spec_charlike_views(cls@),
            cv.len() == n,
            forall|k: int| 0 <= k < n ==> cv[k] == (#[trigger] cls@[k])@,
            w@ + spec_doc_path(cv.skip(i as int)) == old(w)@ + spec_doc_path(cv),
        decreases n - i,
    {
        proof {
            assert(cv.skip(i as int)[0] == cv[i as int]);
            assert(cv.skip(i as int).drop_first() =~= cv.skip(i + 1));
            assert(cv.skip(i as int).len() == n - i);
        }
        match &cls[i] {
            Charlike::Static(c) => {
                push_char(w, *c);
            },
            Charlike::Dynamic(nm) => {
                w.append("{");
                w.append(nm.as_str());
                w.append("}");
            },
            Charlike::Separator => {
                if i + 1 < n {
                    w.append("/");
                }
            },
        }
        proof {
            assert(w@ + spec_doc_path(cv.skip(i + 1)) =~= old(w)@ + spec_doc_path(cv));
        }
        i = i + 1;
    }
    proof {
        assert(cv.skip(n as int).len() == 0);
        assert(final(w)@ + Seq::<char>::empty() =~= final(w)@);
    }
}

/// Emit the format-string rendering of a path's symbols.
fn write_fmt_path(w: &mut String, cls: &Vec<Charlike>)
    ensures
        final(w)@ == old(w)@ + spec_fmt_path(crate::flat::spec_charlike_views(cls@)),
{
    let ghost cv = crate::flat::spec_charlike_views(cls@);
    proof {
        crate::trie::lemma_charlike_views_elementwise(cls@);
        assert(cv.skip(0) =~= cv);
    }
    let n = cls.len();
    let mut i: usize = 0;
    while i < n
        invariant
            n == cls@.len(),
            i <= n,
            cv == crate::flat::spec_charlike_views(cls@),
            cv.len() == n,
            forall|k: int| 0 <= k < n ==> cv[k] == (#[trigger] cls@[k])@,
            w@ + spec_fmt_path(cv.skip(i as int)) == old(w)@ + spec_fmt_path(cv),
        decreases n - i,
    {
        proof {
            assert(cv.skip(i as int)[0] == cv[i as int]);
            assert(cv.skip(i as int).drop_first() =~= cv.skip(i + 1));
            assert(cv.skip(i as int).len() == n - i);
        }
        match &cls[i] {
            Charlike::Static(c) => {
                push_char(w, *c);
            },
            Charlike::Dynamic(_) => {
                w.append("{}");
            },
            Charlike::Separator => {
                if i + 1 < n {
                    w.append("/");
                }
            },
        }
        proof {
            assert(w@ + spec_fmt_path(cv.skip(i + 1)) =~= old(w)@ + spec_fmt_path(cv));
        }
        i = i + 1;
    }
    proof {
        assert(cv.skip(n as int).len() == 0);
        assert(final(w)@ + Seq::<char>::empty() =~= final(w)@);
    }
}

/// Emit the `ref` bindings of a destructuring line.
fn write_ref_binds(w: &mut String, ps: &Vec<Param>)
    ensures
        final(w)@ == old(w)@ + spec_ref_binds(ps@.map_values(|p: Param| p@)),
{
    let ghost pv = ps@.map_values(|p: Param| p@);
    proof {
        assert(pv.take(0) =~= Seq::<ParamV>::empty());
        assert(w@ =~= old(w)@ + spec_ref_binds(pv.take(0)));
    }
    let n = ps.len();
    let mut i: usize = 0;
    while i < n
        invariant
            n == ps@.len(),
            i <= n,
            pv.len() == n,
            forall|k: int| 0 <= k < n ==> pv[k] == (#[trigger] ps@[k])@,
            w@ == old(w)@ + spec_ref_binds(pv.take(i as int)),
        decreases n - i,
    {
        w.append("ref ");
        w.append(ps[i].name.as_str());
        w.append(", ");
        proof {
            assert(pv.take(i + 1).drop_last() =~= pv.take(i as int));
            assert(w@ =~= old(w)@ + spec_ref_binds(pv.take(i + 1)));
        }
        i = i + 1;
    }
    proof {
        assert(pv.take(n as int) =~= pv);
    }
}

/// Emit the request struct of one action.
#[verifier::rlimit(100)]
fn write_action_struct(w: &mut String, action: &FlattenedAction, ind: &String)
    ensures
        final(w)@ == old(w)@ + spec_action_struct(action@, ind@),
{
    let ghost w0 = w@;
    let cls = action.path.iter();
    let rps = action.path.dynamics();
    let ghost rpv = spec_path_dynamics(action@.path);
    w.append(ind.as_str());
    w.append("/// Renders for `");
    w.append(action.method.as_str());
    w.append(" /");
    write_doc_path(w, &cls);
    w.append("`.\n");
    w.append(ind.as_str());
    w.append("#[derive(Debug, PartialEq, Eq)]\n");
    w.append(ind.as_str());
    w.append("pub struct ");
    let caps = to_caps_case(action.name.as_str());
    w.append(caps.as_str());
    if rps.len() == 0 && action.query_parameters.len() == 0 {
        w.append(";\n");
    } else {
        w.append(" {\n");
        let ghost mid = w@;
        proof {
            assert(rpv.take(0) =~= Seq::<ParamV>::empty());
            assert(w@ =~= mid + spec_field_lines(rpv.take(0), ind@));
        }
        let mut i: usize = 0;
        while i < rps.len()
            invariant
                i <= rps@.len(),
                rpv.len() == rps@.len(),
                forall|k: int| 0 <= k < rps@.len() ==> rpv[k] == (#[trigger] rps@[k])@,
                w@ == mid + spec_field_lines(rpv.take(i as int), ind@),
            decreases rps@.len() - i,
        {
            w.append(ind.as_str());
            w.append("    pub ");
            w.append(rps[i].name.as_str());
            w.append(": ");
            w.append(rps[i].typ.as_str());
            w.append(",\n");
            proof {
                assert(rpv.take(i + 1).drop_last() =~= rpv.take(i as int));
                assert(w@ =~= mid + spec_field_lines(rpv.take(i + 1), ind@));
            }
            i = i + 1;
        }
        proof {
            assert(rpv.take(rpv.len() as int) =~= rpv);
        }
        let ghost mid2 = w@;
        let ghost qpv = action@.query_parameters;
        proof {
            assert(qpv.take(0) =~= Seq::<ParamV>::empty());
            assert(w@ =~= mid2 + spec_opt_field_lines(qpv.take(0), ind@));
        }
        let mut q: usize = 0;
        while q < action.query_parameters.len()
            invariant
                q <= action.query_parameters@.len(),
                qpv.len() == action.query_parameters@.len(),
                forall|k: int|
                    0 <= k < action.query_parameters@.len() ==> qpv[k] == (
                    #[trigger] action.query_parameters@[k])@,
                w@ == mid2 + spec_opt_field_lines(qpv.take(q as int), ind@),
            decreases action.query_parameters@.len() - q,
        {
            w.append(ind.as_str());
            w.append("    pub ");
            w.append(action.query_parameters[q].name.as_str());
            w.append(": Option<");
            w.append(action.query_parameters[q].typ.as_str());
            w.append(">,\n");
            proof {
                assert(qpv.take(q + 1).drop_last() =~= qpv.take(q as int));
                assert(w@ =~= mid2 + spec_opt_field_lines(qpv.take(q + 1), ind@));
            }
            q = q + 1;
        }
        proof {
            assert(qpv.take(qpv.len() as int) =~= qpv);
        }
        w.append(ind.as_str());
        w.append("}\n");
    }
    proof {
        reveal(spec_action_struct);
        assert(rpv.len() == rps@.len());
        assert(final(w)@ =~= w0 + spec_action_struct(action@, ind@));
    }
}

/// Emit the format arguments of a path rendering.
fn write_fmt_args(w: &mut String, ps: &Vec<Param>)
    ensures
        final(w)@ == old(w)@ + spec_fmt_args(ps@.map_values(|p: Param| p@)),
{
    let ghost pv = ps@.map_values(|p: Param| p@);
    proof {
        assert(pv.take(0) =~= Seq::<ParamV>::empty());
        assert(w@ =~= old(w)@ + spec_fmt_args(pv.take(0)));
    }
    let n = ps.len();
    let mut i: usize = 0;
    while i < n
        invariant
            n == ps@.len(),
            i <= n,
            pv.len() == n,
            forall|k: int| 0 <= k < n ==> pv[k] == (#[trigger] ps@[k])@,
            w@ == old(w)@ + spec_fmt_args(pv.take(i as int)),
        decreases n - i,
    {
        w.append(", ");
        w.append(ps[i].name.as_str());
        proof {
            assert(pv.take(i + 1).drop_last() =~= pv.take(i as int));
            assert(w@ =~= old(w)@ + spec_fmt_args(pv.take(i + 1)));
        }
        i = i + 1;
    }
    proof {
        assert(pv.take(n as int) =~= pv);
    }
}

/// Emit the `to_path` method of one action.
fn write_action_to_path(w: &mut String, action: &FlattenedAction, ind: &String)
    ensures
        final(w)@ == old(w)@ + spec_action_to_path(action@, ind@),
{
    write_to_path_head(w, action, ind);
    write_to_path_fmt(w, action, ind);
}

/// Emit the opening of one action's `to_path` method.
#[verifier::rlimit(100)]
fn write_to_path_head(w: &mut String, action: &FlattenedAction, ind: &String)
    ensures
        final(w)@ == old(w)@ + spec_to_path_head(action@, ind@),
{
    let ghost w0 = w@;
    let rps = action.path.dynamics();
    let ghost rpv = spec_path_dynamics(action@.path);
    proof {
        assert(rpv.len() == rps@.len());
    }
    let caps = to_caps_case(action.name.as_str());
    w.append("\n");
    w.append(ind.as_str());
    w.append("impl ");
    w.append(caps.as_str());
    w.append(" {\n");
    w.append(ind.as_str());
    w.append("    /// Make a path to this route with the given parameters.\n");
    w.append(ind.as_str());
    w.append("    pub fn to_path(&self) -> String {\n");
    if rps.len() != 0 || action.query_parameters.len() != 0 {
        w.append(ind.as_str());
        w.append("        let ");
        w.append(caps.as_str());
        w.append(" { ");
        write_ref_binds(w, &rps);
        write_ref_binds(w, &action.query_parameters);
        w.append("} = self;\n");
    }
    proof {
        reveal(spec_to_path_head);
        assert(final(w)@ =~= w0 + spec_to_path_head(action@, ind@));
    }
}

/// Emit the path rendering of one action's `to_path` method.
#[verifier::rlimit(100)]
fn write_to_path_fmt(w: &mut String, action: &FlattenedAction, ind: &String)
    ensures
        final(w)@ == old(w)@ + spec_to_path_fmt(action@, ind@),
{
    let ghost w0 = w@;
    let cls = action.path.iter();
    let rps = action.path.dynamics();
    let ghost rpv = spec_path_dynamics(action@.path);
    proof {
        assert(rpv.len() == rps@.len());
    }
    w.append(ind.as_str());
    w.append("        format!(\"/");
    write_fmt_path(w, &cls);
    w.append("\"");
    write_fmt_args(w, &rps);
    w.append(")\n");
    w.append(ind.as_str());
    w.append("    }\n");
    w.append(ind.as_str());
    w.append("}\n");
    w.append("\n");
    proof {
        reveal(spec_to_path_fmt);
        assert(final(w)@ =~= w0 + spec_to_path_fmt(action@, ind@));
    }
}


/// Emit dispatch arm lines of the enum's `to_path` for the given names.
fn write_dispatch_arms_actions(w: &mut String, s: &Vec<FlattenedAction>, ind: &String)
    ensures
        final(w)@ == old(w)@ + spec_dispatch_arms(
            spec_action_names(s@.map_values(|a: FlattenedAction| a@)),
            ind@,
        ),
{
    let ghost names = spec_action_names(s@.map_values(|a: FlattenedAction| a@));
    proof {
        lemma_action_names_elementwise(s@);
        assert(names.take(0) =~= Seq::<Seq<char>>::empty());
        assert(w@ =~= old(w)@ + spec_dispatch_arms(names.take(0), ind@));
    }
    let n = s.len();
    let mut i: usize = 0;
    while i < n
        invariant
            n == s@.len(),
            i <= n,
            names == spec_action_names(s@.map_values(|a: FlattenedAction| a@)),
            names.len() == n,
            forall|k: int| 0 <= k < n ==> names[k] == (#[trigger] s@[k])@.name,
            w@ == old(w)@ + spec_dispatch_arms(names.take(i as int), ind@),
        decreases n - i,
    {
        w.append(ind.as_str());
        w.append("            Route::");
        let caps = to_caps_case(s[i].name.as_str());
        w.append(caps.as_str());
        w.append("(ref route) => route.to_path(),\n");
        proof {
            assert(names.take(i + 1).drop_last() =~= names.take(i as int));
            assert(w@ =~= old(w)@ + spec_dispatch_arms(names.take(i + 1), ind@));
        }
        i = i + 1;
    }
    proof {
        assert(names.take(n as int) =~= names);
    }
}

/// Action names agree element by element with the list.
proof fn lemma_action_names_elementwise(s: Seq<FlattenedAction>)
    ensures
        spec_action_names(s.map_values(|a: FlattenedAction| a@)).len() == s.len(),
        forall|k: int|
            0 <= k < s.len() ==> spec_action_names(s.map_values(|a: FlattenedAction| a@))[k] == (
            #[trigger] s[k])@.name,
    decreases s.len(),
{
    if s.len() > 0 {
        lemma_action_names_elementwise(s.drop_last());
        assert(s.map_values(|a: FlattenedAction| a@).drop_last() =~= s.drop_last().map_values(
            |a: FlattenedAction| a@,
        ));
        assert forall|k: int| 0 <= k < s.len() implies spec_action_names(
            s.map_values(|a: FlattenedAction| a@),
        )[k] == (#[trigger] s[k])@.name by {
            if k < s.len() - 1 {
                assert(s.drop_last()[k] == s[k]);
            }
        }
    }
}

/// Module names agree element by element with the list.
proof fn lemma_module_names_elementwise(s: Seq<crate::flat::FlattenedModule>)
    ensures
        spec_module_names(crate::flat::spec_module_list_view(s)).len() == s.len(),
        forall|k: int|
            0 <= k < s.len() ==> spec_module_names(crate::flat::spec_module_list_view(s))[k] == (
            #[trigger] s[k])@.name,
    decreases s.len(),
{
    crate::flat::lemma_module_list_view_elementwise(s);
    if s.len() > 0 {
        lemma_module_names_elementwise(s.drop_last());
        assert(crate::flat::spec_module_list_view(s).drop_last()
            =~= crate::flat::spec_module_list_view(s.drop_last()));
        assert forall|k: int| 0 <= k < s.len() implies spec_module_names(
            crate::flat::spec_module_list_view(s),
        )[k] == (#[trigger] s[k])@.name by {
            if k < s.len() - 1 {
                assert(s.drop_last()[k] == s[k]);
            }
        }
    }
}

/// Emit dispatch arm lines of the enum's `to_path` for the sub-modules.
fn write_dispatch_arms_modules(w: &mut String, s: &Vec<crate::flat::FlattenedModule>, ind: &String)
    ensures
        final(w)@ == old(w)@ + spec_dispatch_arms(
            spec_module_names(crate::flat::spec_module_list_view(s@)),
            ind@,
        ),
{
    let ghost names = spec_module_names(crate::flat::spec_module_list_view(s@));
    proof {
        lemma_module_names_elementwise(s@);
        assert(names.take(0) =~= Seq::<Seq<char>>::empty());
        assert(w@ =~= old(w)@ + spec_dispatch_arms(names.take(0), ind@));
    }
    let n = s.len();
    let mut i: usize = 0;
    while i < n
        invariant
            n == s@.len(),
            i <= n,
            names == spec_module_names(crate::flat::spec_module_list_view(s@)),
            names.len() == n,
            forall|k: int| 0 <= k < n ==> names[k] == (#[trigger] s@[k])@.name,
            w@ == old(w)@ + spec_dispatch_arms(names.take(i as int), ind@),
        decreases n - i,
    {
        w.append(ind.as_str());
        w.append("            Route::");
        let caps = to_caps_case(s[i].name.as_str());
        w.append(caps.as_str());
        w.append("(ref route) => route.to_path(),\n");
        proof {
            assert(names.take(i + 1).drop_last() =~= names.take(i as int));
            assert(w@ =~= old(w)@ + spec_dispatch_arms(names.take(i + 1), ind@));
        }
        i = i + 1;
    }
    proof {
        assert(names.take(n as int) =~= names);
    }
}

/// Emit a module's `Route` enum declaration.
#[verifier::rlimit(100)]
fn write_route_enum_head(w: &mut String, module: &FlattenedModule, ind: &String, is_root: bool)
    requires
        is_root == (ind@ == "    "@),
    ensures
        final(w)@ == old(w)@ + spec_route_enum_head(module@, ind@, ind@ == "    "@),
{
    let ghost w0 = w@;
    if is_root {
        w.append(ind.as_str());
        w.append("/// An active route in the application -- match against this.\n");
    } else {
        w.append(ind.as_str());
        w.append("/// Parameters for requests to the ");
        let snake = to_snake_case(module.name.as_str());
        w.append(snake.as_str());
        w.append(" controller.\n");
    }
    w.append(ind.as_str());
    w.append("#[derive(Debug, PartialEq, Eq)]\n");
    w.append(ind.as_str());
    w.append("pub enum Route {\n");
    let ghost mid = w@;
    let ghost av = module@.actions;
    proof {
        assert(av.take(0) =~= Seq::<crate::flat::FlattenedActionV>::empty());
        assert(w@ =~= mid + spec_action_variants(av.take(0), ind@));
    }
    let mut i: usize = 0;
    while i < module.actions.len()
        invariant
            i <= module.actions@.len(),
            av.len() == module.actions@.len(),
            forall|k: int|
                0 <= k < module.actions@.len() ==> av[k] == (#[trigger] module.actions@[k])@,
            w@ == mid + spec_action_variants(av.take(i as int), ind@),
        decreases module.actions@.len() - i,
    {
        w.append(ind.as_str());
        w.append("    ");
        let caps = to_caps_case(module.actions[i].name.as_str());
        w.append(caps.as_str());
        w.append("(");
        w.append(caps.as_str());
        w.append("),\n");
        proof {
            assert(av.take(i + 1).drop_last() =~= av.take(i as int));
            assert(w@ =~= mid + spec_action_variants(av.take(i + 1), ind@));
        }
        i = i + 1;
    }
    proof {
        assert(av.take(av.len() as int) =~= av);
    }
    let ghost mid2 = w@;
    let ghost mv = module@.modules;
    proof {
        crate::flat::lemma_module_list_view_elementwise(module.modules@);
        assert(mv.take(0) =~= Seq::<crate::flat::FlattenedModuleV>::empty());
        assert(w@ =~= mid2 + spec_module_variants(mv.take(0), ind@));
    }
    let mut m: usize = 0;
    while m < module.modules.len()
        invariant
            m <= module.modules@.len(),
            mv.len() == module.modules@.len(),
            forall|k: int|
                0 <= k < module.modules@.len() ==> mv[k] == crate::flat::spec_module_view(
                    #[trigger] module.modules@[k],
                ),
            w@ == mid2 + spec_module_variants(mv.take(m as int), ind@),
        decreases module.modules@.len() - m,
    {
        w.append(ind.as_str());
        w.append("    ");
        let caps = to_caps_case(module.modules[m].name.as_str());
        w.append(caps.as_str());
        w.append("(");
        let snake = to_snake_case(module.modules[m].name.as_str());
        w.append(snake.as_str());
        w.append("::Route),\n");
        proof {
            assert(mv.take(m + 1).drop_last() =~= mv.take(m as int));
            assert(w@ =~= mid2 + spec_module_variants(mv.take(m + 1), ind@));
        }
        m = m + 1;
    }
    proof {
        assert(mv.take(mv.len() as int) =~= mv);
    }
    w.append(ind.as_str());
    w.append("}\n");
    w.append("\n");
    proof {
        reveal(spec_route_enum_head);
        assert(module@.actions.map_values(|x: crate::flat::FlattenedActionV| x) =~= module@.actions);
        assert(final(w)@ =~= w0 + spec_route_enum_head(module@, ind@, ind@ == "    "@));
    }
}

/// Emit the `to_path` dispatch of a module's `Route` enum.
#[verifier::rlimit(100)]
fn write_route_impl(w: &mut String, module: &FlattenedModule, ind: &String)
    ensures
        final(w)@ == old(w)@ + spec_route_impl(module@, ind@),
{
    let ghost w0 = w@;
    w.append(ind.as_str());
    w.append("impl Route {\n");
    w.append(ind.as_str());
    w.append("    /// Make a path to this route with the given parameters.\n");
    w.append(ind.as_str());
    w.append("    pub fn to_path(&self) -> String {\n");
    w.append(ind.as_str());
    w.append("        match self {\n");
    write_dispatch_arms_actions(w, &module.actions, ind);
    write_dispatch_arms_modules(w, &module.modules, ind);
    w.append(ind.as_str());
    w.append("        }\n");
    w.append(ind.as_str());
    w.append("    }\n");
    w.append(ind.as_str());
    w.append("}\n");
    proof {
        reveal(spec_route_impl);
        assert(spec_action_names(module.actions@.map_values(|a: FlattenedAction| a@))
            == spec_action_names(module@.actions));
        assert(final(w)@ =~= w0 + spec_route_impl(module@, ind@));
    }
}

/// Emit one module of the generated matcher source: the pasted headers,
/// each action's request struct and `to_path`, the nested modules, and the
/// module's `Route` enum with its dispatch.
#[verifier::rlimit(100)]
pub fn codegen_module(
    w: &mut String,
    module: &FlattenedModule,
    headers: &Vec<Header>,
    ind: &String,
) -> (r: ())
    ensures
        final(w)@ == old(w)@ + spec_codegen_module(
            module@,
            headers@.map_values(|h: Header| h@),
            ind@,
        ),
    decreases *module,
{
    let ghost w0 = w@;
    let ghost hv = headers@.map_values(|h: Header| h@);
    proof {
        assert(hv.take(0) =~= Seq::<Seq<char>>::empty());
        assert(w@ =~= w0 + spec_module_headers(hv.take(0), ind@));
    }
    let mut i: usize = 0;
    while i < headers.len()
        invariant
            i <= headers@.len(),
            hv.len() == headers@.len(),
            forall|k: int| 0 <= k < headers@.len() ==> hv[k] == (#[trigger] headers@[k])@,
            w@ == w0 + spec_module_headers(hv.take(i as int), ind@),
        decreases headers@.len() - i,
    {
        w.append(ind.as_str());
        w.append(headers[i].text.as_str());
        w.append("\n");
        proof {
            assert(hv.take(i + 1).drop_last() =~= hv.take(i as int));
            assert(w@ =~= w0 + spec_module_headers(hv.take(i + 1), ind@));
        }
        i = i + 1;
    }
    proof {
        assert(hv.take(hv.len() as int) =~= hv);
    }
    if headers.len() > 0 {
        w.append("\n");
    }
    let ghost mid1 = w@;
    let ghost av = module@.actions;
    proof {
        assert(av.take(0) =~= Seq::<crate::flat::FlattenedActionV>::empty());
        assert(w@ =~= mid1 + spec_actions_text(av.take(0), ind@));
    }
    let mut a: usize = 0;
    while a < module.actions.len()
        invariant
            a <= module.actions@.len(),
            av.len() == module.actions@.len(),
            forall|k: int|
                0 <= k < module.actions@.len() ==> av[k] == (#[trigger] module.actions@[k])@,
            ind@ == ind@,
            w@ == mid1 + spec_actions_text(av.take(a as int), ind@),
        decreases module.actions@.len() - a,
    {
        write_action_struct(w, &module.actions[a], ind);
        write_action_to_path(w, &module.actions[a], ind);
        proof {
            assert(av.take(a + 1).drop_last() =~= av.take(a as int));
            assert(w@ =~= mid1 + spec_actions_text(av.take(a + 1), ind@));
        }
        a = a + 1;
    }
    proof {
        assert(av.take(av.len() as int) =~= av);
    }
    let ghost mid2 = w@;
    let ghost mv = module@.modules;
    proof {
        crate::flat::lemma_module_list_view_elementwise(module.modules@);
        assert(mv.take(0) =~= Seq::<crate::flat::FlattenedModuleV>::empty());
        assert(w@ =~= mid2 + spec_submodules_text(mv.take(0), hv, ind@));
    }
    let mut m: usize = 0;
    while m < module.modules.len()
        invariant
            m <= module.modules@.len(),
            mv.len() == module.modules@.len(),
            hv == headers@.map_values(|h: Header| h@),
            forall|k: int|
                0 <= k < module.modules@.len() ==> mv[k] == crate::flat::spec_module_view(
                    #[trigger] module.modules@[k],
                ),
            w@ == mid2 + spec_submodules_text(mv.take(m as int), hv, ind@),
        decreases module.modules@.len() - m,
    {
        w.append(ind.as_str());
        w.append("pub mod ");
        let snake = to_snake_case(module.modules[m].name.as_str());
        w.append(snake.as_str());
        w.append(" {\n");
        let mut deeper = String::new();
        deeper.append(ind.as_str());
        deeper.append("    ");
        codegen_module(w, &module.modules[m], headers, &deeper);
        w.append(ind.as_str());
        w.append("}\n");
        w.append("\n");
        proof {
            assert(mv.take(m + 1).drop_last() =~= mv.take(m as int));
            assert(w@ =~= mid2 + spec_submodules_text(mv.take(m + 1), hv, ind@));
        }
        m = m + 1;
    }
    proof {
        assert(mv.take(mv.len() as int) =~= mv);
    }
    let is_root = crate::flat::str_eq(ind.as_str(), "    ");
    write_route_enum_head(w, module, ind, is_root);
    write_route_impl(w, module, ind);
    proof {
        assert(final(w)@ =~= w0 + spec_codegen_module(module@, hv, ind@));
    }
}


/// Whether two non-redirect resources of a configuration share their
/// module qualifiers and name.
pub open spec fn spec_dup_handlers(r: crate::config::RoutesV) -> bool {
    exists|i: int, j: int|
        0 <= i < j < spec_collect_root(r).len() && (#[trigger] spec_collect_root(r)[i]).0 == (
        #[trigger] spec_collect_root(r)[j]).0 && spec_collect_root(r)[i].1.name
            == spec_collect_root(r)[j].1.name
}

/// The flattened records of a whole configuration.
pub open spec fn spec_flat_root(r: crate::config::RoutesV) -> Seq<FlattenedRouteV> {
    spec_flatten(r, Seq::empty(), Seq::empty())
}

/// Whether two flattened records of a configuration share their path's
/// symbol expansion.
pub open spec fn spec_dup_paths(r: crate::config::RoutesV) -> bool {
    exists|i: int, j: int|
        0 <= i < j < spec_flat_root(r).len() && #[trigger] spec_path_charlikes(
            spec_flat_root(r)[i].path,
        ) == #[trigger] spec_path_charlikes(spec_flat_root(r)[j].path)
}

/// The relations the module flattener guarantees between a configuration
/// and its module tree: sorted well-formedness, the root's name, one action
/// per non-redirect resource, membership both ways, and no duplicates.
pub open spec fn spec_modules_of(r: crate::config::RoutesV, mv: FlattenedModuleV) -> bool {
    &&& mv.wf()
    &&& mv.name == "routes"@
    &&& mv.action_count() == spec_collect_root(r).len()
    &&& forall|k: int|
        0 <= k < spec_collect_root(r).len() ==> mv.has_action(
            (#[trigger] spec_collect_root(r)[k]).0,
            spec_collect_root(r)[k].1.name,
        )
    &&& forall|ms2: Seq<Seq<char>>, n2: Seq<char>|
        #[trigger] mv.has_action(ms2, n2) ==> exists|k: int|
            0 <= k < spec_collect_root(r).len() && (#[trigger] spec_collect_root(r)[k]).0 == ms2
                && spec_collect_root(r)[k].1.name == n2
    &&& forall|k: int|
        0 <= k < spec_collect_root(r).len() ==> mv.holds_action(
            (#[trigger] spec_collect_root(r)[k]).0,
            spec_collect_root(r)[k].1,
        )
    &&& forall|ms2: Seq<Seq<char>>, a2: crate::flat::FlattenedActionV|
        #[trigger] mv.holds_action(ms2, a2) ==> exists|k: int|
            0 <= k < spec_collect_root(r).len() && (#[trigger] spec_collect_root(r)[k]).0 == ms2
                && spec_collect_root(r)[k].1 == a2
    &&& !spec_dup_handlers(r)
}

/// The relations the trie builder guarantees between a configuration's
/// flattened records and its trie: well-formedness, each record stored
/// whole under its path's expansion, nothing else stored, and pairwise
/// distinct expansions.
pub open spec fn spec_trie_of(r: crate::config::RoutesV, t: Trie<FlattenedRoute>) -> bool {
    &&& t.wf()
    &&& dyn_sep_wf(t)
    &&& forall|i: int|
        0 <= i < spec_flat_root(r).len() ==> (#[trigger] t.spec_lookup(
            spec_path_charlikes(spec_flat_root(r)[i].path),
        )) is Some
    &&& forall|i: int|
        0 <= i < spec_flat_root(r).len() ==> (#[trigger] t.spec_lookup(
            spec_path_charlikes(spec_flat_root(r)[i].path),
        ))->Some_0@ == spec_flat_root(r)[i]
    &&& forall|q: Seq<CharlikeV>|
        (#[trigger] t.spec_lookup(q)) is Some ==> exists|i: int|
            0 <= i < spec_flat_root(r).len() && q == spec_path_charlikes(spec_flat_root(r)[i].path)
    &&& !spec_dup_paths(r)
}


/// The invariant descends through a collapsed static chain.
proof fn lemma_chain_dyn_sep_wf(t: Trie<FlattenedRoute>)
    requires
        dyn_sep_wf(t),
    ensures
        dyn_sep_wf(spec_chain(t).1),
    decreases t,
{
    if t.children@.len() == 1 && t.children@[0].0@ is Static {
        lemma_chain_dyn_sep_wf(t.children@[0].1);
    }
}

/// The invariant descends through the unambiguous lookahead.
proof fn lemma_lookahead_dyn_sep_wf(t: Trie<FlattenedRoute>)
    requires
        dyn_sep_wf(t),
    ensures
        dyn_sep_wf(spec_lookahead(t).1),
    decreases t,
{
    if !spec_has_separator(t.children@) && spec_static_count(t.children@) == 1
        && spec_find_static(t.children@) is Some {
        let i = spec_find_static(t.children@)->Some_0;
        if 0 <= i < t.children@.len() && t.children@[i].0@ is Static {
            lemma_lookahead_dyn_sep_wf(t.children@[i].1);
        }
    }
}

/// A list whose children are all static counts one per child.
proof fn lemma_static_count_full(cs: Seq<(Charlike, Trie<FlattenedRoute>)>)
    requires
        forall|i: int| 0 <= i < cs.len() ==> (#[trigger] cs[i].0@) is Static,
    ensures
        spec_static_count(cs) == cs.len(),
    decreases cs.len(),
{
    if cs.len() > 0 {
        lemma_static_count_full(cs.drop_last());
    }
}

/// Success is owed: on a trie whose dynamic edges are each followed by one
/// separator, and whose size keeps the indentation representable, the
/// emitter's text exists — emission can only fail on a structurally broken
/// trie or one too large for the machine.
pub proof fn lemma_codegen_trie_total(t: Trie<FlattenedRoute>, indent: int, esc: bool)
    requires
        dyn_sep_wf(t),
        0 <= indent,
        indent + 3 * trie_size(t) <= usize::MAX - 3,
    ensures
        spec_codegen_trie(t, indent, esc) is Some,
    decreases trie_size(t), 1int, 0int,
{
    if t.children@.len() == 0 {
    } else if t.children@.len() == 1 {
        let key = t.children@[0].0@;
        let child = t.children@[0].1;
        lemma_children_size_elem(t.children@, 0);
        if key is Separator {
            lemma_codegen_trie_total(child, indent, false);
        } else if key is Static {
            lemma_chain_dyn_sep_wf(child);
            lemma_chain_size(child);
            lemma_codegen_trie_total(spec_chain(child).1, indent, esc);
        } else {
            lemma_write_dynamic_total(child, indent, key->Dynamic_0);
        }
    } else {
        let la = spec_lookahead(t);
        if la.0.len() > 0 {
            lemma_find_dynamic(t.children@);
            if spec_find_dynamic(t.children@) is None {
                assert forall|i: int| 0 <= i < t.children@.len() implies (
                #[trigger] t.children@[i].0@) is Static by {
                    if t.children@[i].0@ is Separator {
                    }
                }
                lemma_static_count_full(t.children@);
                assert(false);
            }
            let didx = spec_find_dynamic(t.children@)->Some_0;
            lemma_children_size_elem(t.children@, didx);
            lemma_lookahead_dyn_sep_wf(t);
            lemma_lookahead_size(t);
            lemma_codegen_trie_total(la.1, indent + 3, true);
            lemma_write_dynamic_total(
                t.children@[didx].1,
                indent,
                t.children@[didx].0@->Dynamic_0,
            );
        } else {
            lemma_trie_arms_total(t.children@, indent, esc);
        }
    }
}

/// Success is owed for the switch arms of a node's children.
proof fn lemma_trie_arms_total(cs: Seq<(Charlike, Trie<FlattenedRoute>)>, indent: int, esc: bool)
    requires
        forall|i: int|
            0 <= i < cs.len() ==> ((#[trigger] cs[i].0@) is Dynamic ==> cs[i].1.children@.len()
                == 1 && cs[i].1.children@[0].0@ is Separator),
        forall|i: int| 0 <= i < cs.len() ==> dyn_sep_wf((#[trigger] cs[i]).1),
        0 <= indent,
        indent + 3 * children_size(cs) + 3 <= usize::MAX - 3,
    ensures
        spec_trie_arms(cs, indent, esc) is Some,
    decreases children_size(cs), 2int, cs.len(),
{
    if cs.len() == 0 {
    } else {
        let key = cs[0].0@;
        let child = cs[0].1;
        lemma_children_size_elem(cs, 0);
        lemma_children_size_drop_first(cs);
        assert forall|i: int| 0 <= i < cs.drop_first().len() implies ((
        #[trigger] cs.drop_first()[i].0@) is Dynamic ==> cs.drop_first()[i].1.children@.len() == 1
            && cs.drop_first()[i].1.children@[0].0@ is Separator) by {
            assert(cs.drop_first()[i] == cs[i + 1]);
        }
        assert forall|i: int| 0 <= i < cs.drop_first().len() implies dyn_sep_wf(
            (#[trigger] cs.drop_first()[i]).1,
        ) by {
            assert(cs.drop_first()[i] == cs[i + 1]);
        }
        if key is Static {
            lemma_codegen_trie_total(child, indent + 2, esc);
            lemma_trie_arms_total(cs.drop_first(), indent, esc);
        } else if key is Dynamic {
            lemma_write_dynamic_total(child, indent, key->Dynamic_0);
        } else {
            lemma_trie_arms_total(cs.drop_first(), indent, esc);
        }
    }
}

/// Success is owed for a dynamic capture whose node has its one separator
/// child.
proof fn lemma_write_dynamic_total(t: Trie<FlattenedRoute>, indent: int, name: Seq<char>)
    requires
        t.children@.len() == 1,
        t.children@[0].0@ is Separator,
        dyn_sep_wf(t),
        0 <= indent,
        indent + 3 * trie_size(t) <= usize::MAX - 3,
    ensures
        spec_write_dynamic(t, indent, name) is Some,
    decreases trie_size(t), 0int, 0int,
{
    lemma_children_size_elem(t.children@, 0);
    lemma_codegen_trie_total(t.children@[0].1, indent, false);
}

/// A failure of the whole emission pipeline.
#[derive(Debug)]
pub enum CodegenError {
    /// Two non-redirect resources share their module qualifiers and name.
    DuplicateHandler(Vec<String>, String),
    /// Two flattened routes share a symbol expansion.
    DuplicatePath,
    /// A structural invariant of the trie emission failed.
    Emit(GenError),
}

/// A newline replaced by a newline and a documentation-comment prefix.
pub open spec fn spec_replace_nl(s: Seq<char>) -> Seq<char>
    decreases s.len(),
{
    if s.len() == 0 {
        Seq::empty()
    } else {
        (if s[0] == '\n' {
            "\n    //! "@
        } else {
            seq![s[0]]
        }) + spec_replace_nl(s.drop_first())
    }
}

/// Replace each newline by a newline and a documentation-comment prefix.
fn replace_nl(s: &str) -> (r: String)
    ensures
        r@ == spec_replace_nl(s@),
{
    let n = s.unicode_len();
    let mut res = String::new();
    proof {
        assert(s@.skip(0) =~= s@);
        assert(res@ + spec_replace_nl(s@) =~= spec_replace_nl(s@));
    }
    let mut i: usize = 0;
    while i < n
        invariant
            n == s@.len(),
            i <= n,
            res@ + spec_replace_nl(s@.skip(i as int)) == spec_replace_nl(s@),
        decreases n - i,
    {
        let c = s.get_char(i);
        proof {
            assert(s@.skip(i as int)[0] == c);
            assert(s@.skip(i as int).drop_first() =~= s@.skip(i + 1));
        }
        if c == '\n' {
            res.append("\n    //! ");
        } else {
            push_char(&mut res, c);
        }
        proof {
            assert(res@ + spec_replace_nl(s@.skip(i + 1)) =~= spec_replace_nl(s@));
        }
        i = i + 1;
    }
    proof {
        assert(s@.skip(n as int).len() == 0);
        assert(res@ + Seq::<char>::empty() =~= res@);
    }
    res
}

/// The rendered route table inside the emitted documentation block: the
/// stringified tree with every line carried into the comment, and the
/// trailing comment prefix removed.
pub open spec fn spec_config_doc(c: crate::config::RouteConfigV) -> Seq<char> {
    let replaced = spec_replace_nl(c.routes.spec_stringify(1));
    if replaced.len() >= 8 {
        replaced.take(replaced.len() - 8)
    } else {
        Seq::empty()
    }
}

/// The opening of the emitted module's documentation block, with the
/// rendered route table.
#[verifier::opaque]
pub open spec fn spec_prologue_doc(c: crate::config::RouteConfigV) -> Seq<char> {
    "pub mod routes {\n"@ + "\n"@ + "    //! Application route configuration.\n"@ + "    //!\n"@
        + "    //! Of note is the function [`match_route`] as well as request structs\n"@
        + "    //! specific to each named resource.\n"@ + "    //!\n"@
        + "    //! Route configuration:\n"@ + "    //!\n"@ + "    //! ```ignore\n"@
        + "    //! /\n"@ + "    //! "@ + spec_config_doc(c)
}

/// The close of the documentation block and the lint allowances.
#[verifier::opaque]
pub open spec fn spec_prologue_tail() -> Seq<char> {
    "    //! ```\n"@ + "    //!\n"@ + "    //! [`match_route`]: fn.match_route.html\n"@ + "\n"@
        + "    #![allow(dead_code)]\n"@ + "    #![allow(unused_imports)]\n"@
        + "    #![allow(unused_mut)]\n"@ + "    #![allow(unused_variables)]\n"@ + "\n"@
}

/// The opening of the emitted module: its documentation block and lint
/// allowances.
pub open spec fn spec_prologue(c: crate::config::RouteConfigV) -> Seq<char> {
    spec_prologue_doc(c) + spec_prologue_tail()
}

/// The companion `Match` type inlined into the emitted module.
#[verifier::opaque]
pub open spec fn spec_match_text() -> Seq<char> {
    "    #[derive(PartialEq, Eq)]\n"@ + "    pub enum Match<T> {\n"@ + "        NotFound,\n"@
        + "        NotAllowed,\n"@ + "        Route(T),\n"@ + "        Redirect(T),\n"@
        + "    }\n"@ + "\n"@ + "    use std::fmt;\n"@
        + "    impl<T: fmt::Debug> fmt::Debug for Match<T> {\n"@
        + "        fn fmt(&self, f: &mut fmt::Formatter) -> fmt::Result {\n"@
        + "            match self {\n"@
        + "                Match::NotFound => write!(f, \"Match::NotFound\"),\n"@
        + "                Match::NotAllowed => write!(f, \"Match::NotAllowed\"),\n"@
        + "                Match::Route(t) => write!(f, \"Match::Route({:?})\", t),\n"@
        + "                Match::Redirect(t) => write!(f, \"Match::Redirect({:?})\", t),\n"@
        + "            }\n"@ + "        }\n"@ + "    }\n"@ + "\n"@
}

/// The companion `Error` type inlined into the emitted module.
#[verifier::opaque]
pub open spec fn spec_error_text() -> Seq<char> {
    "    pub struct Error {\n"@
        + "        param: String,\n"@ + "        what: Box<dyn fmt::Debug>,\n"@ + "    }\n"@
        + "\n"@ + "    impl fmt::Debug for Error {\n"@
        + "        fn fmt(&self, f: &mut fmt::Formatter) -> fmt::Result {\n"@
        + "            f.debug_struct(\"wayfinder::Error\")\n"@
        + "                .field(\"param\", &self.param)\n"@
        + "                .field(\"what\", &self.what)\n"@ + "                .finish()\n"@
        + "        }\n"@ + "    }\n"@ + "\n"@ + "    impl fmt::Display for Error {\n"@
        + "        fn fmt(&self, f: &mut fmt::Formatter) -> fmt::Result {\n"@
        + "            write!(\n"@ + "                f,\n"@
        + "                \"Error parsing '{}' parameter {:?}\",\n"@
        + "                self.param, self.what\n"@ + "            )\n"@ + "        }\n"@
        + "    }\n"@ + "\n"@ + "    impl std::error::Error for Error {}\n"@ + "\n"@
        + "    impl Error {\n"@
        + "        pub fn fail<S: AsRef<str>, T: fmt::Debug + 'static>(param: S, what: T) -> Error {\n"@
        + "            Error {\n"@ + "                param: param.as_ref().to_string(),\n"@
        + "                what: Box::new(what),\n"@ + "            }\n"@ + "        }\n"@
        + "    }\n"@
}

/// The companion runtime types inlined into the emitted module.
pub open spec fn spec_runtime_text() -> Seq<char> {
    spec_match_text() + spec_error_text()
}

/// The emitted matcher's documentation and signature, down to where the
/// unrolled trie walk begins.
#[verifier::opaque]
pub open spec fn spec_matcher_head() -> Seq<char> {
    "    /// Match a path and method against this router.\n"@ + "    ///\n"@
        + "    /// Accepts an iterator for the characters of the request path,\n"@
        + "    /// as well as a [`wayfinder::Method`] for the HTTP verb.\n"@
        + "    /// Returns a `Result`, usually `Ok` with the result of the\n"@
        + "    /// [`wayfinder::Match`].\n"@ + "    ///\n"@
        + "    /// If the match was successful, it will be a `Match::Route` or\n"@
        + "    /// `Match::Redirect` with the parameters enclosed.  You can then\n"@
        + "    /// match on the [`Route`] to pass control of the request along to\n"@
        + "    /// a specific handler.\n"@ + "    ///\n"@
        + "    /// If there is no match, this will return `Match::NotFound`\n"@
        + "    /// if no path matches (which you could return as `404 Not Found`),\n"@
        + "    /// or `Match::NotAllowed` if no method matches (in which case a\n"@
        + "    /// `405 Not Allowed` would be appropriate).\n"@ + "    ///\n"@
        + "    /// If a route parameter fails to parse correctly, this will return\n"@
        + "    /// `Err` with the underlying parsing error.  Usually you'll want\n"@
        + "    /// to send back a `400 Bad Request` for that.\n"@ + "    ///\n"@
        + "    /// [`wayfinder::Method`]: ../../wayfinder/enum.Method.html\n"@
        + "    /// [`wayfinder::Match`]: ../../wayfinder/enum.Match.html\n"@
        + "    /// [`Route`]: enum.Route.html\n"@
        + "    pub fn match_route<P: AsRef<[u8]>, M: AsRef<[u8]>>(\n"@ + "        path: P,\n"@
        + "        method: M,\n"@ + "    ) -> Result<Match<Route>, Error> {\n"@
        + "        let method = method.as_ref();\n"@ + "        let path = path.as_ref();\n"@
        + "        let len = path.len();\n"@
        + "        let mut i = if len > 0 && &path[0..1] == b\"/\" { 1 } else { 0 };\n"@ + "\n"@
}

/// The closing of the emitted module.
pub open spec fn spec_epilogue() -> Seq<char> {
    "    }\n"@ + "\n"@ + "} // mod routes\n"@
}

/// The whole emitted source for a configuration, a flattened module tree
/// and a matching trie.
pub open spec fn spec_codegen_text(
    c: crate::config::RouteConfigV,
    mv: crate::flat::FlattenedModuleV,
    t: Trie<FlattenedRoute>,
) -> Seq<char> {
    spec_prologue(c) + spec_codegen_module(mv, c.headers, "    "@) + "\n"@ + spec_runtime_text()
        + spec_matcher_head() + spec_codegen_trie(t, 2, false)->Some_0 + spec_epilogue()
}


/// Emit the opening of the emitted module, with the rendered route table in
/// its documentation block.
#[verifier::rlimit(100)]
fn write_prologue(w: &mut String, route_config: &RouteConfig)
    ensures
        final(w)@ == old(w)@ + spec_prologue(route_config@),
{
    let ghost w0 = w@;
    w.append("pub mod routes {\n");
    w.append("\n");
    w.append("    //! Application route configuration.\n");
    w.append("    //!\n");
    w.append("    //! Of note is the function [`match_route`] as well as request structs\n");
    w.append("    //! specific to each named resource.\n");
    w.append("    //!\n");
    w.append("    //! Route configuration:\n");
    w.append("    //!\n");
    w.append("    //! ```ignore\n");
    w.append("    //! /\n");
    w.append("    //! ");
    let rendered = route_config.routes.stringify(1);
    let replaced = replace_nl(rendered.as_str());
    let n = replaced.as_str().unicode_len();
    if n >= 8 {
        let cut = replaced.as_str().substring_char(0, n - 8);
        w.append(cut);
    }
    proof {
        reveal(spec_prologue_doc);
        if n >= 8 {
            assert(replaced@.subrange(0, n - 8) =~= replaced@.take(replaced@.len() - 8));
        }
        assert(w@ =~= w0 + spec_prologue_doc(route_config@));
    }
    write_prologue_tail(w);
    proof {
        assert(final(w)@ =~= w0 + spec_prologue(route_config@));
    }
}

/// Emit the close of the documentation block and the lint allowances.
#[verifier::rlimit(100)]
fn write_prologue_tail(w: &mut String)
    ensures
        final(w)@ == old(w)@ + spec_prologue_tail(),
{
    let ghost w0 = w@;
    w.append("    //! ```\n");
    w.append("    //!\n");
    w.append("    //! [`match_route`]: fn.match_route.html\n");
    w.append("\n");
    w.append("    #![allow(dead_code)]\n");
    w.append("    #![allow(unused_imports)]\n");
    w.append("    #![allow(unused_mut)]\n");
    w.append("    #![allow(unused_variables)]\n");
    w.append("\n");
    proof {
        reveal(spec_prologue_tail);
        assert(final(w)@ =~= w0 + spec_prologue_tail());
    }
}

/// Emit the companion runtime types into the emitted module.
fn write_runtime_types(w: &mut String)
    ensures
        final(w)@ == old(w)@ + spec_runtime_text(),
{
    write_match_type(w);
    write_error_type(w);
}

/// Emit the companion `Match` type into the emitted module.
#[verifier::rlimit(100)]
fn write_match_type(w: &mut String)
    ensures
        final(w)@ == old(w)@ + spec_match_text(),
{
    let ghost w0 = w@;
    w.append("    #[derive(PartialEq, Eq)]\n");
    w.append("    pub enum Match<T> {\n");
    w.append("        NotFound,\n");
    w.append("        NotAllowed,\n");
    w.append("        Route(T),\n");
    w.append("        Redirect(T),\n");
    w.append("    }\n");
    w.append("\n");
    w.append("    use std::fmt;\n");
    w.append("    impl<T: fmt::Debug> fmt::Debug for Match<T> {\n");
    w.append("        fn fmt(&self, f: &mut fmt::Formatter) -> fmt::Result {\n");
    w.append("            match self {\n");
    w.append("                Match::NotFound => write!(f, \"Match::NotFound\"),\n");
    w.append("                Match::NotAllowed => write!(f, \"Match::NotAllowed\"),\n");
    w.append("                Match::Route(t) => write!(f, \"Match::Route({:?})\", t),\n");
    w.append("                Match::Redirect(t) => write!(f, \"Match::Redirect({:?})\", t),\n");
    w.append("            }\n");
    w.append("        }\n");
    w.append("    }\n");
    w.append("\n");
    proof {
        reveal(spec_match_text);
        assert(final(w)@ =~= w0 + spec_match_text());
    }
}

/// Emit the companion `Error` type into the emitted module.
#[verifier::rlimit(100)]
fn write_error_type(w: &mut String)
    ensures
        final(w)@ == old(w)@ + spec_error_text(),
{
    let ghost w0 = w@;
    w.append("    pub struct Error {\n");
    w.append("        param: String,\n");
    w.append("        what: Box<dyn fmt::Debug>,\n");
    w.append("    }\n");
    w.append("\n");
    w.append("    impl fmt::Debug for Error {\n");
    w.append("        fn fmt(&self, f: &mut fmt::Formatter) -> fmt::Result {\n");
    w.append("            f.debug_struct(\"wayfinder::Error\")\n");
    w.append("                .field(\"param\", &self.param)\n");
    w.append("                .field(\"what\", &self.what)\n");
    w.append("                .finish()\n");
    w.append("        }\n");
    w.append("    }\n");
    w.append("\n");
    w.append("    impl fmt::Display for Error {\n");
    w.append("        fn fmt(&self, f: &mut fmt::Formatter) -> fmt::Result {\n");
    w.append("            write!(\n");
    w.append("                f,\n");
    w.append("                \"Error parsing '{}' parameter {:?}\",\n");
    w.append("                self.param, self.what\n");
    w.append("            )\n");
    w.append("        }\n");
    w.append("    }\n");
    w.append("\n");
    w.append("    impl std::error::Error for Error {}\n");
    w.append("\n");
    w.append("    impl Error {\n");
    w.append(
        "        pub fn fail<S: AsRef<str>, T: fmt::Debug + 'static>(param: S, what: T) -> Error {\n",
    );
    w.append("            Error {\n");
    w.append("                param: param.as_ref().to_string(),\n");
    w.append("                what: Box::new(what),\n");
    w.append("            }\n");
    w.append("        }\n");
    w.append("    }\n");
    proof {
        reveal(spec_error_text);
        assert(final(w)@ =~= w0 + spec_error_text());
    }
}

/// Emit the matcher's documentation, signature and cursor prologue.
#[verifier::rlimit(100)]
fn write_matcher_head(w: &mut String)
    ensures
        final(w)@ == old(w)@ + spec_matcher_head(),
{
    let ghost w0 = w@;
    w.append("    /// Match a path and method against this router.\n");
    w.append("    ///\n");
    w.append("    /// Accepts an iterator for the characters of the request path,\n");
    w.append("    /// as well as a [`wayfinder::Method`] for the HTTP verb.\n");
    w.append("    /// Returns a `Result`, usually `Ok` with the result of the\n");
    w.append("    /// [`wayfinder::Match`].\n");
    w.append("    ///\n");
    w.append("    /// If the match was successful, it will be a `Match::Route` or\n");
    w.append("    /// `Match::Redirect` with the parameters enclosed.  You can then\n");
    w.append("    /// match on the [`Route`] to pass control of the request along to\n");
    w.append("    /// a specific handler.\n");
    w.append("    ///\n");
    w.append("    /// If there is no match, this will return `Match::NotFound`\n");
    w.append("    /// if no path matches (which you could return as `404 Not Found`),\n");
    w.append("    /// or `Match::NotAllowed` if no method matches (in which case a\n");
    w.append("    /// `405 Not Allowed` would be appropriate).\n");
    w.append("    ///\n");
    w.append("    /// If a route parameter fails to parse correctly, this will return\n");
    w.append("    /// `Err` with the underlying parsing error.  Usually you'll want\n");
    w.append("    /// to send back a `400 Bad Request` for that.\n");
    w.append("    ///\n");
    w.append("    /// [`wayfinder::Method`]: ../../wayfinder/enum.Method.html\n");
    w.append("    /// [`wayfinder::Match`]: ../../wayfinder/enum.Match.html\n");
    w.append("    /// [`Route`]: enum.Route.html\n");
    w.append("    pub fn match_route<P: AsRef<[u8]>, M: AsRef<[u8]>>(\n");
    w.append("        path: P,\n");
    w.append("        method: M,\n");
    w.append("    ) -> Result<Match<Route>, Error> {\n");
    w.append("        let method = method.as_ref();\n");
    w.append("        let path = path.as_ref();\n");
    w.append("        let len = path.len();\n");
    w.append("        let mut i = if len > 0 && &path[0..1] == b\"/\" { 1 } else { 0 };\n");
    w.append("\n");
    proof {
        reveal(spec_matcher_head);
        assert(final(w)@ =~= w0 + spec_matcher_head());
    }
}

/// Emit the whole generated matcher source for a configuration: the module
/// prologue, the request structs and route enums, the companion runtime
/// types, and the unrolled matcher.
#[verifier::rlimit(100)]
pub fn codegen(w: &mut String, route_config: &RouteConfig) -> (r: Result<(), CodegenError>)
    ensures
        match r {
            Ok(_) => exists|mv: FlattenedModuleV, t: Trie<FlattenedRoute>|
                {
                    &&& #[trigger] spec_codegen_text(route_config@, mv, t) == final(w)@.skip(
                        old(w)@.len() as int,
                    )
                    &&& spec_modules_of(route_config@.routes, mv)
                    &&& spec_trie_of(route_config@.routes, t)
                    &&& spec_codegen_trie(t, 2, false) is Some
                    &&& final(w)@.take(old(w)@.len() as int) == old(w)@
                    &&& final(w)@.len() >= old(w)@.len()
                },
            Err(e) => {
                &&& (e is DuplicateHandler <==> spec_dup_handlers(route_config@.routes))
                &&& (e is DuplicatePath ==> !spec_dup_handlers(route_config@.routes)
                    && spec_dup_paths(route_config@.routes))
                &&& (e is Emit ==> !spec_dup_handlers(route_config@.routes) && !spec_dup_paths(
                    route_config@.routes,
                ) && exists|t: Trie<FlattenedRoute>|
                    #[trigger] spec_trie_of(route_config@.routes, t) && spec_codegen_trie(
                        t,
                        2,
                        false,
                    ) is None)
                &&& final(w)@.len() >= old(w)@.len()
                &&& final(w)@.take(old(w)@.len() as int) == old(w)@
            },
        },
{
    let ghost w0 = w@;
    proof {
        assert(w0.take(w0.len() as int) =~= w0);
    }
    let modules = match FlattenedModules::from_routes(&route_config.routes) {
        Ok(m) => m,
        Err((ms, name)) => {
            proof {
                assert(final(w)@.take(old(w)@.len() as int) =~= old(w)@);
                assert(spec_dup_handlers(route_config@.routes));
            }
            return Err(CodegenError::DuplicateHandler(ms, name));
        },
    };
    proof {
        assert(!spec_dup_handlers(route_config@.routes));
    }
    let flattened = FlattenedRoutes::from_routes(&route_config.routes);
    proof {
        assert(flattened@ == spec_flat_root(route_config@.routes));
    }
    let trie = match flattened.to_trie() {
        Some(t) => t,
        None => {
            proof {
                assert(final(w)@.take(old(w)@.len() as int) =~= old(w)@);
                assert(spec_dup_paths(route_config@.routes));
            }
            return Err(CodegenError::DuplicatePath);
        },
    };
    proof {
        assert(spec_trie_of(route_config@.routes, trie));
        assert(spec_modules_of(route_config@.routes, modules.root@));
    }
    write_prologue(w, route_config);
    let ind = spaces(1);
    codegen_module(w, &modules.root, &route_config.headers, &ind);
    w.append("\n");
    write_runtime_types(w);
    write_matcher_head(w);
    let ghost mid = w@;
    match codegen_trie(w, &trie, 2, false) {
        Ok(_) => {},
        Err(e) => {
            proof {
                assert(mid.take(w0.len() as int) =~= w0);
                lemma_prefix_trans(w0, mid, final(w)@);
                assert(spec_trie_of(route_config@.routes, trie) && spec_codegen_trie(
                    trie,
                    2,
                    false,
                ) is None);
            }
            return Err(CodegenError::Emit(e));
        },
    }
    w.append("    }\n");
    w.append("\n");
    w.append("} // mod routes\n");
    proof {
        assert(spec_spaces(0) =~= Seq::<char>::empty());
        assert(ind@ =~= "    "@);
        assert(final(w)@.skip(w0.len() as int) =~= spec_codegen_text(
            route_config@,
            modules.root@,
            trie,
        ));
        assert(final(w)@.take(w0.len() as int) =~= w0);
    }
    Ok(())
}

} // verus!
