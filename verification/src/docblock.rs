//! PHPDoc tag extraction: `@method` and `@property` (`-read` / `-write`)
//! tags of a class docblock.
//!
//! A docblock is read line by line.  Each line loses its comment markers
//! (a leading `/**` or `*`, a trailing `*/`) and surrounding whitespace;
//! a line that then starts with a tag word followed by whitespace (or
//! nothing) carries that tag.
//!
//! - `@property Type $name` (also `-read`, `-write`, and `@property $name`
//!   without a type) gives the property `name` and its type, with a
//!   nullable type (`?T`, `null|T`, `T|null`) reduced to `T`.  The type
//!   may hold spaces inside brackets (`array<int, string>`).
//! - `@method [static] [ReturnType] name(params)` gives a public method;
//!   the parameters are the comma-separated parts (at bracket depth zero)
//!   of the text inside the parentheses.  A parameter is
//!   `[Type] [&] [...]$name [= default]`; it is required unless it has a
//!   default or is variadic.

use vstd::prelude::*;

use crate::types::{MethodInfo, MethodView, ParamView, ParameterInfo, Visibility};

use crate::text::{
    chars_of, ends_with, first_word, has_prefix, has_suffix, is_whitespace, is_ws, lines_of,
    lemma_pos_ws, position_ws, pos_ws, split_lines, starts_with, string_of, sub_vec, trim, trim_end,
    trim_start, trimmed, trimmed_start,
};

verus! {

// ── Specifications: lines and tags ──────────────────────────────────────────

/// `*/`
pub open spec fn comment_end() -> Seq<char> {
    seq!['*', '/']
}

/// `/**`
pub open spec fn comment_start() -> Seq<char> {
    seq!['/', '*', '*']
}

/// `@method`
pub open spec fn method_tag() -> Seq<char> {
    seq!['@', 'm', 'e', 't', 'h', 'o', 'd']
}

/// `@property`
pub open spec fn property_tag() -> Seq<char> {
    seq!['@', 'p', 'r', 'o', 'p', 'e', 'r', 't', 'y']
}

/// `@property-read`
pub open spec fn property_read_tag() -> Seq<char> {
    property_tag() + seq!['-', 'r', 'e', 'a', 'd']
}

/// `@property-write`
pub open spec fn property_write_tag() -> Seq<char> {
    property_tag() + seq!['-', 'w', 'r', 'i', 't', 'e']
}

/// The text of a docblock line without its comment markers: trimmed, a
/// trailing `*/` dropped, then a leading `/**` or `*`.
pub open spec fn tag_line(line: Seq<char>) -> Seq<char> {
    let t0 = trim(line);
    let t1 = if ends_with(t0, comment_end()) {
        t0.take(t0.len() - 2)
    } else {
        t0
    };
    let t2 = trim(t1);
    let t3 = if starts_with(t2, comment_start()) {
        t2.skip(3)
    } else if starts_with(t2, seq!['*']) {
        t2.skip(1)
    } else {
        t2
    };
    trim(t3)
}

/// When `c` starts with the tag word `tag` followed by whitespace or
/// nothing, the trimmed text after the tag.
pub open spec fn tag_rest(c: Seq<char>, tag: Seq<char>) -> Option<Seq<char>> {
    if starts_with(c, tag) && (c.len() == tag.len() || is_ws(c[tag.len() as int])) {
        Some(trim(c.skip(tag.len() as int)))
    } else {
        None
    }
}

/// The text after any of the three property tags.
pub open spec fn property_rest(c: Seq<char>) -> Option<Seq<char>> {
    match tag_rest(c, property_tag()) {
        Some(r) => Some(r),
        None => match tag_rest(c, property_read_tag()) {
            Some(r) => Some(r),
            None => tag_rest(c, property_write_tag()),
        },
    }
}

// ── Specifications: types ───────────────────────────────────────────────────

/// The bracket depth after `c`: openers `<([{` raise it, closers `>)]}`
/// lower it (never below zero).
pub open spec fn bracket_depth(depth: nat, c: char) -> nat {
    if c == '<' || c == '(' || c == '[' || c == '{' {
        depth + 1
    } else if (c == '>' || c == ')' || c == ']' || c == '}') && depth > 0 {
        (depth - 1) as nat
    } else {
        depth
    }
}

/// Where a type written from `i` on ends: the first whitespace outside
/// brackets (or the end of `s`).
pub open spec fn type_end(s: Seq<char>, i: int, depth: nat) -> nat
    decreases s.len() - i,
{
    if i < 0 || i >= s.len() {
        s.len()
    } else if depth == 0 && is_ws(s[i]) {
        i as nat
    } else {
        type_end(s, i + 1, bracket_depth(depth, s[i]))
    }
}

/// A nullable type reduced to its non-null part: `?T`, `null|T` and
/// `T|null` give `T`; any other type stays as written.
pub open spec fn clean_type(t: Seq<char>) -> Seq<char> {
    let null_bar = seq!['n', 'u', 'l', 'l', '|'];
    let bar_null = seq!['|', 'n', 'u', 'l', 'l'];
    if t.len() > 1 && t[0] == '?' {
        t.skip(1)
    } else if t.len() > 5 && starts_with(t, null_bar) {
        t.skip(5)
    } else if t.len() > 5 && ends_with(t, bar_null) {
        t.take(t.len() - 5)
    } else {
        t
    }
}

// ── Bracket nesting and its laws ────────────────────────────────────────────

/// `c` opens a bracket pair: `<`, `(`, `[` or `{`.
pub open spec fn is_open_bracket(c: char) -> bool {
    c == '<' || c == '(' || c == '[' || c == '{'
}

/// `c` closes a bracket pair: `>`, `)`, `]` or `}`.
pub open spec fn is_close_bracket(c: char) -> bool {
    c == '>' || c == ')' || c == ']' || c == '}'
}

/// Opening minus closing brackets, of every kind, among the first `k`
/// characters of `t`.
pub open spec fn nesting(t: Seq<char>, k: int) -> int
    decreases k,
{
    if k <= 0 {
        0
    } else {
        nesting(t, k - 1) + if is_open_bracket(t[k - 1]) {
            1int
        } else if is_close_bracket(t[k - 1]) {
            -1int
        } else {
            0int
        }
    }
}

/// Every bracket of `t` is closed within it, and none is closed before
/// it is opened.
pub open spec fn balanced(t: Seq<char>) -> bool {
    &&& forall|k: int| 0 <= k <= t.len() ==> #[trigger] nesting(t, k) >= 0
    &&& nesting(t, t.len() as int) == 0
}

/// Every whitespace character of `t` stands inside some bracket pair.
pub open spec fn ws_inside_brackets(t: Seq<char>) -> bool {
    forall|k: int| 0 <= k < t.len() && is_ws(#[trigger] t[k]) ==> nesting(t, k) > 0
}

/// Every comma of `t` stands inside some bracket pair.
pub open spec fn commas_inside_brackets(t: Seq<char>) -> bool {
    forall|k: int| 0 <= k < t.len() && #[trigger] t[k] == ',' ==> nesting(t, k) > 0
}

proof fn lemma_nesting_step(t: Seq<char>, i: int)
    requires
        balanced(t),
        0 <= i < t.len(),
    ensures
        bracket_depth(nesting(t, i) as nat, t[i]) == nesting(t, i + 1),
{
    assert(nesting(t, i) >= 0);
    assert(nesting(t, i + 1) >= 0);
}

proof fn lemma_type_end_from(t: Seq<char>, rest: Seq<char>, i: int)
    requires
        balanced(t),
        ws_inside_brackets(t),
        0 <= i <= t.len(),
        rest.len() > 0,
        is_ws(rest[0]),
    ensures
        type_end(t + rest, i, nesting(t, i) as nat) == t.len(),
    decreases t.len() - i,
{
    let s = t + rest;
    if i < t.len() {
        assert(s[i] == t[i]);
        assert(nesting(t, i) >= 0);
        if is_ws(t[i]) {
            assert(nesting(t, i) > 0);
        }
        lemma_nesting_step(t, i);
        lemma_type_end_from(t, rest, i + 1);
    } else {
        assert(s[i] == rest[0]);
        assert(nesting(t, i) == 0);
    }
}

/// A type runs to the first whitespace outside every bracket pair (angle
/// brackets, parentheses, square brackets and braces alike): a balanced
/// type whose whitespace all stands inside brackets is read whole.
pub proof fn lemma_type_spans_brackets(t: Seq<char>, rest: Seq<char>)
    requires
        balanced(t),
        ws_inside_brackets(t),
        rest.len() > 0,
        is_ws(rest[0]),
    ensures
        type_end(t + rest, 0, 0) == t.len(),
{
    lemma_type_end_from(t, rest, 0);
}

/// `@property T $name` with a balanced type `T` (spaces in it only inside
/// brackets, as in `array{id: int, name: string}`) gives the property
/// `name` of type `T`.
pub proof fn lemma_property_with_bracketed_type(t: Seq<char>, name: Seq<char>)
    requires
        balanced(t),
        ws_inside_brackets(t),
        t.len() > 0,
        t[0] != '$',
        name.len() > 0,
        forall|k: int| 0 <= k < name.len() ==> !is_ws(#[trigger] name[k]),
    ensures
        parse_property(t + seq![' ', '$'] + name) == Some((name, t)),
{
    let tail = seq![' ', '$'] + name;
    let r = t + seq![' ', '$'] + name;
    assert(r =~= t + tail);
    lemma_type_spans_brackets(t, tail);
    assert(r.take(t.len() as int) =~= t);
    let dn = seq!['$'] + name;
    assert(r.skip(t.len() as int) =~= tail);
    assert(tail.drop_first() =~= dn);
    assert(!is_ws('$'));
    assert(trim_start(dn) == dn);
    assert(trim_start(tail) == trim_start(dn));
    assert forall|k: int| 0 <= k < dn.len() implies !is_ws(#[trigger] dn[k]) by {
        if k > 0 {
            assert(dn[k] == name[k - 1]);
        }
    }
    lemma_pos_ws(dn, dn.len() as int);
    assert(first_word(dn) =~= dn);
    assert(dn.skip(1) =~= name);
    assert(type_end(r, 0, 0) == t.len());
    assert(trim_start(r.skip(t.len() as int)) == dn);
}

proof fn lemma_comma_pos_from(t: Seq<char>, rest: Seq<char>, i: int)
    requires
        balanced(t),
        commas_inside_brackets(t),
        0 <= i <= t.len(),
        rest.len() == 0 || rest[0] == ',',
    ensures
        comma_pos(t + rest, i, nesting(t, i) as nat) == t.len(),
    decreases t.len() - i,
{
    let s = t + rest;
    if i < t.len() {
        assert(s[i] == t[i]);
        assert(nesting(t, i) >= 0);
        if t[i] == ',' {
            assert(nesting(t, i) > 0);
        }
        lemma_nesting_step(t, i);
        lemma_comma_pos_from(t, rest, i + 1);
    } else {
        assert(nesting(t, i) == 0);
        if rest.len() > 0 {
            assert(s[i] == rest[0]);
        }
    }
}

/// A balanced part whose commas all stand inside brackets (angle
/// brackets included, as in `array<int, string> $a`) is one parameter.
pub proof fn lemma_segments_single(t: Seq<char>)
    requires
        balanced(t),
        commas_inside_brackets(t),
    ensures
        segments(t) == seq![t],
{
    lemma_comma_pos_from(t, Seq::<char>::empty(), 0);
    assert(t + Seq::<char>::empty() =~= t);
}

/// A parameter list splits at the first comma outside every bracket
/// pair: a balanced first part whose commas all stand inside brackets
/// is the first parameter, and the rest is split the same way.
pub proof fn lemma_segments_first(t: Seq<char>, u: Seq<char>)
    requires
        balanced(t),
        commas_inside_brackets(t),
    ensures
        segments(t + seq![','] + u) == seq![t] + segments(u),
{
    let rest = seq![','] + u;
    let s = t + seq![','] + u;
    assert(s =~= t + rest);
    lemma_comma_pos_from(t, rest, 0);
    lemma_comma_pos_bound(s, 0, 0);
    assert(s.take(t.len() as int) =~= t);
    assert(s.skip(t.len() + 1 as int) =~= u);
}

/// Two such parts separated by a comma are exactly two parameters.
pub proof fn lemma_segments_two(t: Seq<char>, u: Seq<char>)
    requires
        balanced(t),
        commas_inside_brackets(t),
        balanced(u),
        commas_inside_brackets(u),
    ensures
        segments(t + seq![','] + u) == seq![t, u],
{
    lemma_segments_first(t, u);
    lemma_segments_single(u);
    assert(seq![t] + seq![u] =~= seq![t, u]);
}

// ── Specifications: properties ──────────────────────────────────────────────

/// The `(name, type)` of a property tag's text `r`: `Type $name ...` or
/// `$name ...`; the name loses its `$` and must not be empty.
pub open spec fn parse_property(r: Seq<char>) -> Option<(Seq<char>, Seq<char>)> {
    let n1 = type_end(r, 0, 0);
    let w1 = r.take(n1 as int);
    if w1.len() > 1 && w1[0] == '$' {
        Some((w1.skip(1), Seq::<char>::empty()))
    } else if w1.len() == 0 {
        None
    } else {
        let r2 = trim_start(r.skip(n1 as int));
        let w2 = first_word(r2);
        if w2.len() > 1 && w2[0] == '$' {
            Some((w2.skip(1), w1))
        } else {
            None
        }
    }
}

/// The `(name, cleaned type)` of the property tag on `line`, if any.
pub open spec fn property_of_line(line: Seq<char>) -> Option<(Seq<char>, Seq<char>)> {
    match property_rest(tag_line(line)) {
        Some(r) => match parse_property(r) {
            Some(p) => Some((p.0, clean_type(p.1))),
            None => None,
        },
        None => None,
    }
}

/// The property tags of `lines`, in order.
pub open spec fn property_tags(lines: Seq<Seq<char>>) -> Seq<(Seq<char>, Seq<char>)>
    decreases lines.len(),
{
    if lines.len() == 0 {
        seq![]
    } else {
        let prev = property_tags(lines.drop_last());
        match property_of_line(lines.last()) {
            Some(p) => prev.push(p),
            None => prev,
        }
    }
}

// ── Executable: lines, tags and properties ──────────────────────────────────

fn lit_comment_end() -> (v: Vec<char>)
    ensures
        v@ == comment_end(),
{
    let v = vec!['*', '/'];
    assert(v@ =~= comment_end());
    v
}

fn lit_comment_start() -> (v: Vec<char>)
    ensures
        v@ == comment_start(),
{
    let v = vec!['/', '*', '*'];
    assert(v@ =~= comment_start());
    v
}

fn lit_star() -> (v: Vec<char>)
    ensures
        v@ == seq!['*'],
{
    let v = vec!['*'];
    assert(v@ =~= seq!['*']);
    v
}

fn lit_method() -> (v: Vec<char>)
    ensures
        v@ == method_tag(),
{
    let v = vec!['@', 'm', 'e', 't', 'h', 'o', 'd'];
    assert(v@ =~= method_tag());
    v
}

fn lit_property() -> (v: Vec<char>)
    ensures
        v@ == property_tag(),
{
    let v = vec!['@', 'p', 'r', 'o', 'p', 'e', 'r', 't', 'y'];
    assert(v@ =~= property_tag());
    v
}

fn lit_property_read() -> (v: Vec<char>)
    ensures
        v@ == property_read_tag(),
{
    let v = vec!['@', 'p', 'r', 'o', 'p', 'e', 'r', 't', 'y', '-', 'r', 'e', 'a', 'd'];
    assert(v@ =~= property_read_tag());
    v
}

fn lit_property_write() -> (v: Vec<char>)
    ensures
        v@ == property_write_tag(),
{
    let v = vec!['@', 'p', 'r', 'o', 'p', 'e', 'r', 't', 'y', '-', 'w', 'r', 'i', 't', 'e'];
    assert(v@ =~= property_write_tag());
    v
}

/// The text of a docblock line without its comment markers.
pub fn strip_comment_markers(line: &Vec<char>) -> (r: Vec<char>)
    ensures
        r@ == tag_line(line@),
{
    let t0 = trimmed(line);
    let t1 = if has_suffix(&t0, &lit_comment_end()) {
        sub_vec(&t0, 0, t0.len() - 2)
    } else {
        t0
    };
    let t2 = trimmed(&t1);
    let t3 = if has_prefix(&t2, &lit_comment_start()) {
        sub_vec(&t2, 3, t2.len())
    } else if has_prefix(&t2, &lit_star()) {
        sub_vec(&t2, 1, t2.len())
    } else {
        t2
    };
    trimmed(&t3)
}

/// The trimmed text after the tag word `tag` when `c` starts with it.
pub fn tag_text(c: &Vec<char>, tag: &Vec<char>) -> (r: Option<Vec<char>>)
    ensures
        r matches Some(v) ==> tag_rest(c@, tag@) == Some(v@),
        r is None ==> tag_rest(c@, tag@) is None,
{
    if has_prefix(c, tag) && (c.len() == tag.len() || is_whitespace(c[tag.len()])) {
        let rest = sub_vec(c, tag.len(), c.len());
        Some(trimmed(&rest))
    } else {
        None
    }
}

fn property_text(c: &Vec<char>) -> (r: Option<Vec<char>>)
    ensures
        r matches Some(v) ==> property_rest(c@) == Some(v@),
        r is None ==> property_rest(c@) is None,
{
    match tag_text(c, &lit_property()) {
        Some(r) => Some(r),
        None => match tag_text(c, &lit_property_read()) {
            Some(r) => Some(r),
            None => tag_text(c, &lit_property_write()),
        },
    }
}

/// Where the type written at the start of `v` ends.
pub fn type_end_exec(v: &Vec<char>) -> (r: usize)
    ensures
        r == type_end(v@, 0, 0),
        r <= v@.len(),
{
    let mut i: usize = 0;
    let mut depth: usize = 0;
    while i < v.len()
        invariant
            i <= v@.len(),
            depth <= i,
            type_end(v@, 0, 0) == type_end(v@, i as int, depth as nat),
        decreases v@.len() - i,
    {
        let c = v[i];
        if depth == 0 && is_whitespace(c) {
            return i;
        }
        if c == '<' || c == '(' || c == '[' || c == '{' {
            depth = depth + 1;
        } else if (c == '>' || c == ')' || c == ']' || c == '}') && depth > 0 {
            depth = depth - 1;
        }
        i = i + 1;
    }
    i
}

/// A nullable type reduced to its non-null part.
pub fn clean_type_exec(t: &Vec<char>) -> (r: Vec<char>)
    ensures
        r@ == clean_type(t@),
{
    let null_bar = vec!['n', 'u', 'l', 'l', '|'];
    let bar_null = vec!['|', 'n', 'u', 'l', 'l'];
    assert(null_bar@ =~= seq!['n', 'u', 'l', 'l', '|']);
    assert(bar_null@ =~= seq!['|', 'n', 'u', 'l', 'l']);
    if t.len() > 1 && t[0] == '?' {
        sub_vec(t, 1, t.len())
    } else if t.len() > 5 && has_prefix(t, &null_bar) {
        sub_vec(t, 5, t.len())
    } else if t.len() > 5 && has_suffix(t, &bar_null) {
        let r = sub_vec(t, 0, t.len() - 5);
        assert(r@ =~= t@.take(t@.len() - 5));
        r
    } else {
        sub_vec(t, 0, t.len())
    }
}

/// The `(name, type)` of a property tag's text.
pub fn parse_property_exec(r: &Vec<char>) -> (p: Option<(Vec<char>, Vec<char>)>)
    ensures
        p matches Some(x) ==> parse_property(r@) == Some((x.0@, x.1@)),
        p is None ==> parse_property(r@) is None,
{
    let n1 = type_end_exec(r);
    let w1 = sub_vec(r, 0, n1);
    assert(w1@ =~= r@.take(n1 as int));
    if w1.len() > 1 && w1[0] == '$' {
        let name = sub_vec(&w1, 1, w1.len());
        assert(name@ =~= w1@.skip(1));
        return Some((name, Vec::new()));
    }
    if w1.len() == 0 {
        return None;
    }
    let after = sub_vec(r, n1, r.len());
    assert(after@ =~= r@.skip(n1 as int));
    let r2 = trimmed_start(&after);
    let n2 = position_ws(&r2);
    let w2 = sub_vec(&r2, 0, n2);
    assert(w2@ =~= first_word(r2@));
    if w2.len() > 1 && w2[0] == '$' {
        let name = sub_vec(&w2, 1, w2.len());
        assert(name@ =~= w2@.skip(1));
        Some((name, w1))
    } else {
        None
    }
}

/// The `@property` / `@property-read` / `@property-write` tags of a
/// docblock, in order, as `(name, type)` pairs: the name without its `$`,
/// the type with nullability removed (empty when the tag gives none).
pub fn extract_property_tags(doc: &str) -> (r: Vec<(String, String)>)
    ensures
        r@.len() == property_tags(lines_of(doc@)).len(),
        forall|k: int|
            0 <= k < r@.len() ==> {
                &&& (#[trigger] r@[k]).0@ == property_tags(lines_of(doc@))[k].0
                &&& r@[k].1@ == property_tags(lines_of(doc@))[k].1
            },
{
    let chars = chars_of(doc);
    let lines = split_lines(&chars);
    let ghost ls = lines_of(chars@);
    let mut out: Vec<(String, String)> = Vec::new();
    let mut i: usize = 0;
    while i < lines.len()
        invariant
            i <= lines@.len(),
            ls == lines_of(doc@),
            lines@.len() == ls.len(),
            forall|k: int| 0 <= k < lines@.len() ==> #[trigger] lines@[k]@ == ls[k],
            out@.len() == property_tags(ls.take(i as int)).len(),
            forall|k: int|
                0 <= k < out@.len() ==> {
                    &&& (#[trigger] out@[k]).0@ == property_tags(ls.take(i as int))[k].0
                    &&& out@[k].1@ == property_tags(ls.take(i as int))[k].1
                },
        decreases lines@.len() - i,
    {
        let ghost prev = property_tags(ls.take(i as int));
        proof {
            assert(ls.take(i + 1).drop_last() =~= ls.take(i as int));
            assert(ls.take(i + 1).last() == ls[i as int]);
        }
        let c = strip_comment_markers(&lines[i]);
        match property_text(&c) {
            Some(rest) => {
                match parse_property_exec(&rest) {
                    Some((name, ty)) => {
                        let cleaned = clean_type_exec(&ty);
                        out.push((string_of(&name), string_of(&cleaned)));
                    },
                    None => {},
                }
            },
            None => {},
        }
        i = i + 1;
    }
    assert(ls.take(lines@.len() as int) =~= ls);
    out
}

// ── Specifications: methods ─────────────────────────────────────────────────

/// `None` for empty text, the text otherwise.
pub open spec fn opt_text(t: Seq<char>) -> Option<Seq<char>> {
    if t.len() == 0 {
        None
    } else {
        Some(t)
    }
}

/// Number of non-whitespace characters at the end of `s`.
pub open spec fn nonws_suffix_len(s: Seq<char>) -> nat
    decreases s.len(),
{
    if s.len() > 0 && !is_ws(s.last()) {
        1 + nonws_suffix_len(s.drop_last())
    } else {
        0
    }
}

/// `static`
pub open spec fn static_word() -> Seq<char> {
    seq!['s', 't', 'a', 't', 'i', 'c']
}

/// Whether the text before a method name declares it static, and the
/// return type that remains.
pub open spec fn split_static(before: Seq<char>) -> (bool, Seq<char>) {
    if before == static_word() {
        (true, Seq::<char>::empty())
    } else if before.len() > 6 && starts_with(before, static_word()) && is_ws(before[6]) {
        (true, trim(before.skip(6)))
    } else {
        (false, before)
    }
}

/// The index of the `)` that closes a parenthesis open at depth `depth`,
/// scanning from `i` (the end of `s` when it is never closed).
pub open spec fn close_paren(s: Seq<char>, i: int, depth: nat) -> nat
    decreases s.len() - i,
{
    if i < 0 || i >= s.len() {
        s.len()
    } else if s[i] == ')' && depth <= 1 {
        i as nat
    } else {
        let d: nat = if s[i] == '(' {
            depth + 1
        } else if s[i] == ')' {
            (depth - 1) as nat
        } else {
            depth
        };
        close_paren(s, i + 1, d)
    }
}

/// The index of the first comma outside brackets in `s` from `i` on (the
/// end of `s` when there is none).
pub open spec fn comma_pos(s: Seq<char>, i: int, depth: nat) -> nat
    decreases s.len() - i,
{
    if i < 0 || i >= s.len() {
        s.len()
    } else if s[i] == ',' && depth == 0 {
        i as nat
    } else {
        comma_pos(s, i + 1, bracket_depth(depth, s[i]))
    }
}

/// `comma_pos` never passes the end.
pub proof fn lemma_comma_pos_bound(s: Seq<char>, i: int, depth: nat)
    requires
        0 <= i,
    ensures
        comma_pos(s, i, depth) <= s.len(),
        i <= s.len() ==> i <= comma_pos(s, i, depth),
    decreases s.len() - i,
{
    if i < s.len() && !(s[i] == ',' && depth == 0) {
        lemma_comma_pos_bound(s, i + 1, bracket_depth(depth, s[i]));
    }
}

/// The parts of `s` between commas outside brackets.
pub open spec fn segments(s: Seq<char>) -> Seq<Seq<char>>
    decreases s.len(),
{
    let c = comma_pos(s, 0, 0);
    proof {
        lemma_comma_pos_bound(s, 0, 0);
    }
    if c >= s.len() {
        seq![s]
    } else {
        seq![s.take(c as int)] + segments(s.skip(c + 1 as int))
    }
}

/// Number of leading characters of `s` that are neither whitespace nor `=`.
pub open spec fn name_len(s: Seq<char>) -> nat
    decreases s.len(),
{
    if s.len() == 0 || is_ws(s[0]) || s[0] == '=' {
        0
    } else {
        1 + name_len(s.drop_first())
    }
}

/// `...`
pub open spec fn dots() -> Seq<char> {
    seq!['.', '.', '.']
}

/// The parameter written in the (trimmed) text `pt`:
/// `[Type] [&] [...]$name [= default]`; `None` without a `$name`.
pub open spec fn parse_param(pt: Seq<char>) -> Option<ParamView> {
    let d = crate::text::pos_of(pt, '$');
    if d >= pt.len() {
        None
    } else {
        let tail = pt.skip(d as int);
        let name = tail.take(name_len(tail) as int);
        let before = trim(pt.take(d as int));
        let variadic = ends_with(before, dots());
        let b1 = if variadic {
            trim(before.take(before.len() - 3))
        } else {
            before
        };
        let reference = ends_with(b1, seq!['&']);
        let b2 = if reference {
            trim(b1.take(b1.len() - 1))
        } else {
            b1
        };
        let has_default = crate::text::pos_of(tail, '=') < tail.len();
        Some(
            ParamView {
                name,
                is_required: !has_default && !variadic,
                type_hint: opt_text(b2),
                is_variadic: variadic,
                is_reference: reference,
            },
        )
    }
}

/// The parameters written in the parts `segs` of a parameter list.
pub open spec fn params_of(segs: Seq<Seq<char>>) -> Seq<ParamView>
    decreases segs.len(),
{
    if segs.len() == 0 {
        seq![]
    } else {
        let prev = params_of(segs.drop_last());
        match parse_param(trim(segs.last())) {
            Some(p) => prev.push(p),
            None => prev,
        }
    }
}

/// The method described by a `@method` tag's text `r`:
/// `[static] [ReturnType] name(params)`.
pub open spec fn parse_method(r: Seq<char>) -> Option<MethodView> {
    let p = crate::text::pos_of(r, '(');
    if p >= r.len() {
        None
    } else {
        let head = trim(r.take(p as int));
        if head.len() == 0 {
            None
        } else {
            let nl = nonws_suffix_len(head);
            let name = head.skip(head.len() - nl);
            let split = split_static(trim(head.take(head.len() - nl)));
            let q = close_paren(r, p + 1 as int, 1);
            let plist = r.subrange(p + 1 as int, q as int);
            Some(
                MethodView {
                    name,
                    parameters: params_of(segments(plist)),
                    return_type: opt_text(split.1),
                    is_static: split.0,
                    visibility: Visibility::Public,
                    is_deprecated: false,
                },
            )
        }
    }
}

/// The method of the `@method` tag on `line`, if any.
pub open spec fn method_of_line(line: Seq<char>) -> Option<MethodView> {
    match tag_rest(tag_line(line), method_tag()) {
        Some(r) => parse_method(r),
        None => None,
    }
}

/// The `@method` tags of `lines`, in order.
pub open spec fn method_tags(lines: Seq<Seq<char>>) -> Seq<MethodView>
    decreases lines.len(),
{
    if lines.len() == 0 {
        seq![]
    } else {
        let prev = method_tags(lines.drop_last());
        match method_of_line(lines.last()) {
            Some(m) => prev.push(m),
            None => prev,
        }
    }
}

/// Every `@method` tag gives a public, non-deprecated method with a
/// non-empty name.
pub proof fn lemma_method_tags_public(lines: Seq<Seq<char>>)
    ensures
        forall|k: int|
            0 <= k < method_tags(lines).len() ==> {
                let m = #[trigger] method_tags(lines)[k];
                &&& m.visibility == Visibility::Public
                &&& !m.is_deprecated
                &&& m.name.len() > 0
            },
    decreases lines.len(),
{
    if lines.len() > 0 {
        let prev = method_tags(lines.drop_last());
        lemma_method_tags_public(lines.drop_last());
        match method_of_line(lines.last()) {
            Some(m) => {
                let rest = tag_rest(tag_line(lines.last()), method_tag())->0;
                let p = crate::text::pos_of(rest, '(');
                let head = trim(rest.take(p as int));
                lemma_trim_has_nonws_end(rest.take(p as int));
                lemma_nonws_suffix_bound(head);
                assert(nonws_suffix_len(head) > 0);
                assert(m.name.len() > 0);
                assert(method_tags(lines) == prev.push(m));
                assert forall|k: int| 0 <= k < method_tags(lines).len() implies {
                    let x = #[trigger] method_tags(lines)[k];
                    &&& x.visibility == Visibility::Public
                    &&& !x.is_deprecated
                    &&& x.name.len() > 0
                } by {
                    if k < prev.len() {
                        assert(method_tags(lines)[k] == prev[k]);
                    }
                }
            },
            None => {},
        }
    }
}

/// `nonws_suffix_len` never exceeds the length.
proof fn lemma_nonws_suffix_bound(s: Seq<char>)
    ensures
        nonws_suffix_len(s) <= s.len(),
    decreases s.len(),
{
    if s.len() > 0 && !is_ws(s.last()) {
        lemma_nonws_suffix_bound(s.drop_last());
    }
}

/// A non-empty trimmed text ends with a non-whitespace character.
proof fn lemma_trim_has_nonws_end(s: Seq<char>)
    ensures
        trim(s).len() > 0 ==> !is_ws(trim(s).last()),
    decreases s.len(),
{
    let t = trim_start(s);
    lemma_trim_end_last(t);
}

proof fn lemma_trim_end_last(s: Seq<char>)
    ensures
        trim_end(s).len() > 0 ==> !is_ws(trim_end(s).last()),
    decreases s.len(),
{
    if s.len() > 0 && is_ws(s.last()) {
        lemma_trim_end_last(s.drop_last());
    }
}

// ── Executable: methods ─────────────────────────────────────────────────────

fn lit_static() -> (v: Vec<char>)
    ensures
        v@ == static_word(),
{
    let v = vec!['s', 't', 'a', 't', 'i', 'c'];
    assert(v@ =~= static_word());
    v
}

/// Number of non-whitespace characters at the end of `v`.
fn nonws_suffix(v: &Vec<char>) -> (r: usize)
    ensures
        r == nonws_suffix_len(v@),
        r <= v@.len(),
{
    let mut j: usize = v.len();
    assert(v@.take(v@.len() as int) =~= v@);
    while j > 0 && !is_whitespace(v[j - 1])
        invariant
            j <= v@.len(),
            nonws_suffix_len(v@) == (v@.len() - j) + nonws_suffix_len(v@.take(j as int)),
        decreases j,
    {
        assert(v@.take(j as int).drop_last() =~= v@.take(j - 1));
        j = j - 1;
    }
    v.len() - j
}

/// Whether the text before a method name declares it static, and the
/// return type that remains.
fn split_static_exec(before: &Vec<char>) -> (r: (bool, Vec<char>))
    ensures
        (r.0, r.1@) == split_static(before@),
{
    let st = lit_static();
    if crate::text::chars_eq(before, &st) {
        (true, Vec::new())
    } else if before.len() > 6 && has_prefix(before, &st) && is_whitespace(before[6]) {
        let rest = sub_vec(before, 6, before.len());
        assert(rest@ =~= before@.skip(6));
        (true, trimmed(&rest))
    } else {
        let copy = sub_vec(before, 0, before.len());
        assert(copy@ =~= before@);
        (false, copy)
    }
}

/// The index of the `)` closing the parenthesis opened just before `from`.
fn close_paren_exec(v: &Vec<char>, from: usize) -> (r: usize)
    requires
        1 <= from <= v@.len(),
    ensures
        r == close_paren(v@, from as int, 1),
        from <= r <= v@.len(),
{
    let mut i: usize = from;
    let mut depth: usize = 1;
    while i < v.len()
        invariant
            from <= i <= v@.len(),
            1 <= depth <= i,
            close_paren(v@, from as int, 1) == close_paren(v@, i as int, depth as nat),
        decreases v@.len() - i,
    {
        let c = v[i];
        if c == ')' && depth <= 1 {
            return i;
        }
        if c == '(' {
            depth = depth + 1;
        } else if c == ')' {
            depth = depth - 1;
        }
        i = i + 1;
    }
    i
}

/// The parts of `v` between commas outside brackets.
pub fn split_commas(v: &Vec<char>) -> (segs: Vec<Vec<char>>)
    ensures
        segs@.len() == segments(v@).len(),
        forall|k: int| 0 <= k < segs@.len() ==> #[trigger] segs@[k]@ == segments(v@)[k],
{
    let mut segs: Vec<Vec<char>> = Vec::new();
    let ghost mut done: Seq<Seq<char>> = seq![];
    let mut start: usize = 0;
    let mut i: usize = 0;
    let mut depth: usize = 0;
    assert(v@.skip(0) =~= v@);
    while i < v.len()
        invariant
            start <= i <= v@.len(),
            depth <= i - start,
            segs@.len() == done.len(),
            forall|k: int| 0 <= k < segs@.len() ==> #[trigger] segs@[k]@ == done[k],
            segments(v@) == done + segments(v@.skip(start as int)),
            comma_pos(v@.skip(start as int), 0, 0) == comma_pos(
                v@.skip(start as int),
                i - start,
                depth as nat,
            ),
        decreases v@.len() - i,
    {
        let c = v[i];
        let ghost t = v@.skip(start as int);
        if c == ',' && depth == 0 {
            proof {
                assert(t[i - start] == c);
                assert(comma_pos(t, 0, 0) == i - start);
                assert(t.take(i - start) =~= v@.subrange(start as int, i as int));
                assert(t.skip(i - start + 1) =~= v@.skip(i + 1));
                assert(segments(t) == seq![v@.subrange(start as int, i as int)] + segments(
                    v@.skip(i + 1),
                ));
                assert(done + (seq![v@.subrange(start as int, i as int)] + segments(
                    v@.skip(i + 1),
                )) =~= done.push(v@.subrange(start as int, i as int)) + segments(v@.skip(i + 1)));
                done = done.push(v@.subrange(start as int, i as int));
            }
            segs.push(sub_vec(v, start, i));
            start = i + 1;
            depth = 0;
        } else {
            proof {
                assert(t[i - start] == c);
            }
            if c == '<' || c == '(' || c == '[' || c == '{' {
                depth = depth + 1;
            } else if (c == '>' || c == ')' || c == ']' || c == '}') && depth > 0 {
                depth = depth - 1;
            }
        }
        i = i + 1;
    }
    let ghost t = v@.skip(start as int);
    proof {
        assert(comma_pos(t, 0, 0) == t.len());
        assert(segments(t) == seq![t]);
        done = done.push(t);
    }
    let last = sub_vec(v, start, v.len());
    assert(last@ =~= t);
    segs.push(last);
    assert(segments(v@) =~= done);
    segs
}

/// Number of leading characters of `v` that are neither whitespace nor `=`.
fn name_len_exec(v: &Vec<char>) -> (r: usize)
    ensures
        r == name_len(v@),
        r <= v@.len(),
{
    let mut i: usize = 0;
    assert(v@.skip(0) =~= v@);
    while i < v.len() && !is_whitespace(v[i]) && v[i] != '='
        invariant
            i <= v@.len(),
            name_len(v@) == i + name_len(v@.skip(i as int)),
        decreases v@.len() - i,
    {
        assert(v@.skip(i as int).drop_first() =~= v@.skip(i + 1));
        i = i + 1;
    }
    i
}

fn opt_string(v: &Vec<char>) -> (r: Option<String>)
    ensures
        crate::types::opt_view(r) == opt_text(v@),
{
    if v.len() == 0 {
        None
    } else {
        Some(string_of(v))
    }
}

/// The parameter written in the trimmed text `pt`.
pub fn parse_param_exec(pt: &Vec<char>) -> (r: Option<ParameterInfo>)
    ensures
        r matches Some(p) ==> parse_param(pt@) == Some(p@),
        r is None ==> parse_param(pt@) is None,
{
    let d = crate::text::position(pt, '$');
    if d >= pt.len() {
        return None;
    }
    let tail = sub_vec(pt, d, pt.len());
    assert(tail@ =~= pt@.skip(d as int));
    let nl = name_len_exec(&tail);
    let name = sub_vec(&tail, 0, nl);
    assert(name@ =~= tail@.take(nl as int));
    let head = sub_vec(pt, 0, d);
    assert(head@ =~= pt@.take(d as int));
    let before = trimmed(&head);
    let dots_v = vec!['.', '.', '.'];
    assert(dots_v@ =~= dots());
    let variadic = has_suffix(&before, &dots_v);
    let b1 = if variadic {
        let x = sub_vec(&before, 0, before.len() - 3);
        assert(x@ =~= before@.take(before@.len() - 3));
        trimmed(&x)
    } else {
        before
    };
    let amp = vec!['&'];
    assert(amp@ =~= seq!['&']);
    let reference = has_suffix(&b1, &amp);
    let b2 = if reference {
        let x = sub_vec(&b1, 0, b1.len() - 1);
        assert(x@ =~= b1@.take(b1@.len() - 1));
        trimmed(&x)
    } else {
        b1
    };
    let eq_pos = crate::text::position(&tail, '=');
    let has_default = eq_pos < tail.len();
    Some(
        ParameterInfo {
            name: string_of(&name),
            is_required: !has_default && !variadic,
            type_hint: opt_string(&b2),
            is_variadic: variadic,
            is_reference: reference,
        },
    )
}

/// The parameters written in the parts of a parameter list.
fn params_exec(segs: &Vec<Vec<char>>) -> (r: Vec<ParameterInfo>)
    ensures
        r@.map_values(|p: ParameterInfo| p@) == params_of(segs@.map_values(|s: Vec<char>| s@)),
{
    let ghost ss = segs@.map_values(|s: Vec<char>| s@);
    let mut out: Vec<ParameterInfo> = Vec::new();
    let mut i: usize = 0;
    while i < segs.len()
        invariant
            i <= segs@.len(),
            ss == segs@.map_values(|s: Vec<char>| s@),
            out@.map_values(|p: ParameterInfo| p@) == params_of(ss.take(i as int)),
        decreases segs@.len() - i,
    {
        proof {
            assert(ss.take(i + 1).drop_last() =~= ss.take(i as int));
            assert(ss.take(i + 1).last() == segs@[i as int]@);
        }
        let pt = trimmed(&segs[i]);
        match parse_param_exec(&pt) {
            Some(p) => {
                let ghost before = out@;
                out.push(p);
                assert(out@.map_values(|p: ParameterInfo| p@) =~= before.map_values(
                    |p: ParameterInfo| p@,
                ).push(p@));
            },
            None => {},
        }
        i = i + 1;
    }
    assert(ss.take(segs@.len() as int) =~= ss);
    out
}

/// The method described by a `@method` tag's text `r`.
pub fn parse_method_exec(r: &Vec<char>) -> (m: Option<MethodInfo>)
    ensures
        m matches Some(x) ==> parse_method(r@) == Some(x@),
        m is None ==> parse_method(r@) is None,
{
    let p = crate::text::position(r, '(');
    if p >= r.len() {
        return None;
    }
    let head_raw = sub_vec(r, 0, p);
    assert(head_raw@ =~= r@.take(p as int));
    let head = trimmed(&head_raw);
    if head.len() == 0 {
        return None;
    }
    let nl = nonws_suffix(&head);
    let name = sub_vec(&head, head.len() - nl, head.len());
    assert(name@ =~= head@.skip(head@.len() - nl));
    let before_raw = sub_vec(&head, 0, head.len() - nl);
    assert(before_raw@ =~= head@.take(head@.len() - nl));
    let before = trimmed(&before_raw);
    let (is_static, ret) = split_static_exec(&before);
    let q = close_paren_exec(r, p + 1);
    let plist = sub_vec(r, p + 1, q);
    let segs = split_commas(&plist);
    assert(segs@.map_values(|s: Vec<char>| s@) =~= segments(plist@));
    let params = params_exec(&segs);
    let m = MethodInfo {
        name: string_of(&name),
        parameters: params,
        return_type: opt_string(&ret),
        is_static,
        visibility: Visibility::Public,
        is_deprecated: false,
    };
    Some(m)
}

/// The `@method` tags of a docblock, in order, as public methods.
pub fn extract_method_tags(doc: &str) -> (r: Vec<MethodInfo>)
    ensures
        r@.map_values(|m: MethodInfo| m@) == method_tags(lines_of(doc@)),
{
    let chars = chars_of(doc);
    let lines = split_lines(&chars);
    let ghost ls = lines_of(chars@);
    let mtag = lit_method();
    let mut out: Vec<MethodInfo> = Vec::new();
    let mut i: usize = 0;
    while i < lines.len()
        invariant
            i <= lines@.len(),
            mtag@ == method_tag(),
            ls == lines_of(doc@),
            lines@.len() == ls.len(),
            forall|k: int| 0 <= k < lines@.len() ==> #[trigger] lines@[k]@ == ls[k],
            out@.map_values(|m: MethodInfo| m@) == method_tags(ls.take(i as int)),
        decreases lines@.len() - i,
    {
        proof {
            assert(ls.take(i + 1).drop_last() =~= ls.take(i as int));
            assert(ls.take(i + 1).last() == ls[i as int]);
        }
        let c = strip_comment_markers(&lines[i]);
        match tag_text(&c, &mtag) {
            Some(rest) => {
                match parse_method_exec(&rest) {
                    Some(m) => {
                        let ghost before = out@;
                        out.push(m);
                        assert(out@.map_values(|m: MethodInfo| m@) =~= before.map_values(
                            |m: MethodInfo| m@,
                        ).push(m@));
                    },
                    None => {},
                }
            },
            None => {},
        }
        i = i + 1;
    }
    assert(ls.take(lines@.len() as int) =~= ls);
    out
}

} // verus!
