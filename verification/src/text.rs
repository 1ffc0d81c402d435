//! Character-level text helpers shared by the library: whitespace,
//! trimming, line splitting, ASCII case folding and string building.

use vstd::prelude::*;
use vstd::std_specs::iter::IteratorSpec;

verus! {

// ── Specifications ──────────────────────────────────────────────────────────

/// `c` has the Unicode `White_Space` property (what `char::is_whitespace`
/// tests).
pub open spec fn is_ws(c: char) -> bool {
    ||| c == ' '
    ||| ('\t' <= c && c <= '\r')
    ||| c == '\u{85}'
    ||| c == '\u{A0}'
    ||| c == '\u{1680}'
    ||| ('\u{2000}' <= c && c <= '\u{200A}')
    ||| c == '\u{2028}'
    ||| c == '\u{2029}'
    ||| c == '\u{202F}'
    ||| c == '\u{205F}'
    ||| c == '\u{3000}'
}

/// `s` without its leading whitespace.
pub open spec fn trim_start(s: Seq<char>) -> Seq<char>
    decreases s.len(),
{
    if s.len() > 0 && is_ws(s[0]) {
        trim_start(s.drop_first())
    } else {
        s
    }
}

/// `s` without its trailing whitespace.
pub open spec fn trim_end(s: Seq<char>) -> Seq<char>
    decreases s.len(),
{
    if s.len() > 0 && is_ws(s.last()) {
        trim_end(s.drop_last())
    } else {
        s
    }
}

/// `s` without leading and trailing whitespace (what `str::trim` gives).
pub open spec fn trim(s: Seq<char>) -> Seq<char> {
    trim_end(trim_start(s))
}

/// Number of characters before the first `c` in `s` (`s.len()` when there
/// is none).
pub open spec fn pos_of(s: Seq<char>, c: char) -> nat
    decreases s.len(),
{
    if s.len() == 0 {
        0
    } else if s[0] == c {
        0
    } else {
        1 + pos_of(s.drop_first(), c)
    }
}

/// `line` without one trailing carriage return.
pub open spec fn strip_cr(line: Seq<char>) -> Seq<char> {
    if line.len() > 0 && line.last() == '\r' {
        line.drop_last()
    } else {
        line
    }
}

/// The lines of `s` as `str::lines` yields them: split at `\n`, a `\r`
/// directly before a `\n` dropped, and no empty line after a final `\n`.
pub open spec fn lines_of(s: Seq<char>) -> Seq<Seq<char>>
    decreases s.len(),
{
    if s.len() == 0 {
        seq![]
    } else {
        let i = pos_of(s, '\n');
        proof {
            lemma_pos_of_bound(s, '\n');
        }
        if i == s.len() {
            seq![s]
        } else {
            seq![strip_cr(s.take(i as int))] + lines_of(s.skip(i + 1 as int))
        }
    }
}

/// `s` starts with `p`.
pub open spec fn starts_with(s: Seq<char>, p: Seq<char>) -> bool {
    p.len() <= s.len() && s.take(p.len() as int) == p
}

/// `s` ends with `p`.
pub open spec fn ends_with(s: Seq<char>, p: Seq<char>) -> bool {
    p.len() <= s.len() && s.skip(s.len() - p.len()) == p
}

/// The characters of `s` that come before the first whitespace.
pub open spec fn first_word(s: Seq<char>) -> Seq<char> {
    s.take(pos_ws(s) as int)
}

/// Number of characters before the first whitespace in `s`.
pub open spec fn pos_ws(s: Seq<char>) -> nat
    decreases s.len(),
{
    if s.len() == 0 {
        0
    } else if is_ws(s[0]) {
        0
    } else {
        1 + pos_ws(s.drop_first())
    }
}

/// ASCII lower-casing of one character (what `char::to_ascii_lowercase`
/// does).
pub open spec fn ascii_lower(c: char) -> char {
    if 'A' <= c && c <= 'Z' {
        ((c as u32) + 32) as char
    } else {
        c
    }
}

/// ASCII lower-casing of a sequence of characters.
pub open spec fn lower(s: Seq<char>) -> Seq<char> {
    s.map_values(|c: char| ascii_lower(c))
}

/// `a` and `b` are equal when ASCII case is ignored (what
/// `str::eq_ignore_ascii_case` tests).
pub open spec fn eq_ignore_case(a: Seq<char>, b: Seq<char>) -> bool {
    lower(a) == lower(b)
}

// ── Lemmas ──────────────────────────────────────────────────────────────────

/// `pos_of` never exceeds the length.
pub proof fn lemma_pos_of_bound(s: Seq<char>, c: char)
    ensures
        pos_of(s, c) <= s.len(),
    decreases s.len(),
{
    if s.len() > 0 {
        lemma_pos_of_bound(s.drop_first(), c);
    }
}

/// `pos_of` is the index of the first occurrence.
pub proof fn lemma_pos_of(s: Seq<char>, c: char, j: int)
    requires
        0 <= j <= s.len(),
        forall|k: int| 0 <= k < j ==> s[k] != c,
        j == s.len() || s[j] == c,
    ensures
        pos_of(s, c) == j,
    decreases s.len(),
{
    if s.len() > 0 && j > 0 {
        lemma_pos_of(s.drop_first(), c, j - 1);
    }
}

/// `pos_ws` is the index of the first whitespace.
pub proof fn lemma_pos_ws(s: Seq<char>, j: int)
    requires
        0 <= j <= s.len(),
        forall|k: int| 0 <= k < j ==> !is_ws(#[trigger] s[k]),
        j == s.len() || is_ws(s[j]),
    ensures
        pos_ws(s) == j,
    decreases s.len(),
{
    if s.len() > 0 && j > 0 {
        lemma_pos_ws(s.drop_first(), j - 1);
    }
}

/// The lines of `s`, starting from a point where a line starts, are the
/// current line followed by the lines of the rest.
proof fn lemma_lines_step(s: Seq<char>, start: int, i: int)
    requires
        0 <= start <= i < s.len(),
        forall|k: int| start <= k < i ==> s[k] != '\n',
        s[i] == '\n',
    ensures
        lines_of(s.skip(start)) == seq![strip_cr(s.subrange(start, i))] + lines_of(s.skip(i + 1)),
{
    let t = s.skip(start);
    lemma_pos_of(t, '\n', i - start);
    assert(t.take(i - start) =~= s.subrange(start, i));
    assert(t.skip(i - start + 1) =~= s.skip(i + 1));
}

/// A tail with no newline is one line (or none when empty).
proof fn lemma_lines_last(s: Seq<char>, start: int)
    requires
        0 <= start <= s.len(),
        forall|k: int| start <= k < s.len() ==> s[k] != '\n',
    ensures
        start < s.len() ==> lines_of(s.skip(start)) == seq![s.skip(start)],
        start == s.len() ==> lines_of(s.skip(start)) == Seq::<Seq<char>>::empty(),
{
    let t = s.skip(start);
    lemma_pos_of(t, '\n', t.len() as int);
}

/// Number of leading whitespace characters of `s`.
pub open spec fn ws_prefix(s: Seq<char>) -> nat
    decreases s.len(),
{
    if s.len() > 0 && is_ws(s[0]) {
        1 + ws_prefix(s.drop_first())
    } else {
        0
    }
}

/// Trimming the start skips exactly the leading whitespace.
pub proof fn lemma_trim_start_skip(s: Seq<char>)
    ensures
        ws_prefix(s) <= s.len(),
        trim_start(s) == s.skip(ws_prefix(s) as int),
        forall|k: int| 0 <= k < ws_prefix(s) ==> is_ws(#[trigger] s[k]),
        ws_prefix(s) < s.len() ==> !is_ws(s[ws_prefix(s) as int]),
    decreases s.len(),
{
    if s.len() > 0 && is_ws(s[0]) {
        let t = s.drop_first();
        lemma_trim_start_skip(t);
        assert(t.skip(ws_prefix(t) as int) =~= s.skip(ws_prefix(s) as int));
        assert forall|k: int| 0 <= k < ws_prefix(s) implies is_ws(#[trigger] s[k]) by {
            if k > 0 {
                assert(s[k] == t[k - 1]);
            }
        }
    } else {
        assert(s.skip(0) =~= s);
    }
}

/// `ws_prefix` is the index of the first non-whitespace character.
pub proof fn lemma_ws_prefix(s: Seq<char>, j: int)
    requires
        0 <= j <= s.len(),
        forall|k: int| 0 <= k < j ==> is_ws(#[trigger] s[k]),
        j == s.len() || !is_ws(s[j]),
    ensures
        ws_prefix(s) == j,
    decreases s.len(),
{
    if s.len() > 0 && j > 0 {
        lemma_ws_prefix(s.drop_first(), j - 1);
    }
}

/// Trimming the end keeps a prefix.
pub proof fn lemma_trim_end_prefix(s: Seq<char>)
    ensures
        trim_end(s).len() <= s.len(),
        trim_end(s) == s.take(trim_end(s).len() as int),
    decreases s.len(),
{
    if s.len() > 0 && is_ws(s.last()) {
        lemma_trim_end_prefix(s.drop_last());
        assert(s.drop_last().take(trim_end(s).len() as int) =~= s.take(trim_end(s).len() as int));
    } else {
        assert(s.take(s.len() as int) =~= s);
    }
}

/// A line whose trimmed text is one character `c` holds `c` right after
/// its leading whitespace.
pub proof fn lemma_trim_single(s: Seq<char>, c: char)
    requires
        trim(s) == seq![c],
    ensures
        ws_prefix(s) < s.len(),
        s[ws_prefix(s) as int] == c,
        forall|k: int| 0 <= k < ws_prefix(s) ==> is_ws(#[trigger] s[k]),
{
    lemma_trim_start_skip(s);
    let t = trim_start(s);
    lemma_trim_end_prefix(t);
    assert(trim_end(t)[0] == t[0]);
}

/// Offset where line `n` of `s` starts: just after its `n`-th newline
/// (the end of `s` when there are fewer).
pub open spec fn line_start(s: Seq<char>, n: nat) -> nat
    decreases n,
{
    if n == 0 {
        0
    } else {
        let i = pos_of(s, '\n');
        if i >= s.len() {
            s.len()
        } else {
            i + 1 + line_start(s.skip(i + 1 as int), (n - 1) as nat)
        }
    }
}

/// `p` is made of whole lines: empty, or ending with a newline.
pub open spec fn whole_lines(p: Seq<char>) -> bool {
    p.len() == 0 || p.last() == '\n'
}

/// The lines of whole lines followed by more text are the lines of each.
pub proof fn lemma_lines_concat(p: Seq<char>, t: Seq<char>)
    requires
        whole_lines(p),
    ensures
        lines_of(p + t) == lines_of(p) + lines_of(t),
    decreases p.len(),
{
    if p.len() == 0 {
        assert(p + t =~= t);
        assert(lines_of(p) =~= Seq::<Seq<char>>::empty());
        assert(lines_of(p) + lines_of(t) =~= lines_of(t));
    } else {
        let i = pos_of(p, '\n');
        lemma_pos_of_bound(p, '\n');
        if i == p.len() {
            assert(p[p.len() - 1] == '\n');
            lemma_pos_of_first(p, '\n', p.len() - 1);
        }
        assert(i < p.len());
        let pt = p + t;
        lemma_pos_of_at(p, '\n');
        assert forall|k: int| 0 <= k < i implies pt[k] != '\n' by {
            assert(pt[k] == p[k]);
        }
        lemma_pos_of(pt, '\n', i as int);
        let rest = p.skip(i + 1 as int);
        assert(pt.take(i as int) =~= p.take(i as int));
        assert(pt.skip(i + 1 as int) =~= rest + t);
        if rest.len() > 0 {
            assert(rest.last() == p.last());
        }
        lemma_lines_concat(rest, t);
        assert(lines_of(p + t) =~= lines_of(p) + lines_of(t));
    }
}

/// No occurrence of `c` comes before `pos_of(s, c)`.
pub proof fn lemma_pos_of_first(s: Seq<char>, c: char, k: int)
    requires
        0 <= k < s.len(),
        s[k] == c,
    ensures
        pos_of(s, c) <= k,
    decreases s.len(),
{
    if s[0] != c {
        lemma_pos_of_first(s.drop_first(), c, k - 1);
    }
}

/// Every character before `pos_of(s, c)` differs from `c`, and the one at
/// it (if any) is `c`.
pub proof fn lemma_pos_of_at(s: Seq<char>, c: char)
    ensures
        forall|k: int| 0 <= k < pos_of(s, c) ==> #[trigger] s[k] != c,
        pos_of(s, c) < s.len() ==> s[pos_of(s, c) as int] == c,
    decreases s.len(),
{
    if s.len() > 0 && s[0] != c {
        let t = s.drop_first();
        lemma_pos_of_at(t, c);
        lemma_pos_of_bound(t, c);
        assert forall|k: int| 0 <= k < pos_of(s, c) implies #[trigger] s[k] != c by {
            if k > 0 {
                assert(s[k] == t[k - 1]);
            }
        }
    }
}

/// For a line that exists and is not the last, the text before it is
/// whole lines whose lines are the lines before it, and the text from it
/// on has the lines from it on.
pub proof fn lemma_line_start(s: Seq<char>, n: nat)
    requires
        n < lines_of(s).len(),
    ensures
        line_start(s, n) <= s.len(),
        whole_lines(s.take(line_start(s, n) as int)),
        lines_of(s.take(line_start(s, n) as int)) == lines_of(s).take(n as int),
        lines_of(s.skip(line_start(s, n) as int)) == lines_of(s).skip(n as int),
    decreases n,
{
    if n == 0 {
        assert(s.take(0) =~= Seq::<char>::empty());
        assert(s.skip(0) =~= s);
        assert(lines_of(s).take(0) =~= Seq::<Seq<char>>::empty());
        assert(lines_of(s).skip(0) =~= lines_of(s));
        assert(lines_of(Seq::<char>::empty()) =~= Seq::<Seq<char>>::empty());
    } else {
        let i = pos_of(s, '\n');
        lemma_pos_of_bound(s, '\n');
        lemma_pos_of_at(s, '\n');
        // there is a newline, else `s` would be a single line
        assert(i < s.len());
        let rest = s.skip(i + 1 as int);
        let first = strip_cr(s.take(i as int));
        assert(lines_of(s) == seq![first] + lines_of(rest));
        lemma_line_start(rest, (n - 1) as nat);
        let m = line_start(rest, (n - 1) as nat);
        assert(line_start(s, n) == i + 1 + m);
        // the text from line n on
        assert(s.skip(line_start(s, n) as int) =~= rest.skip(m as int));
        assert(lines_of(s).skip(n as int) =~= lines_of(rest).skip(n - 1));
        // the text before line n
        let head = s.take(i + 1 as int);
        assert(s.take(line_start(s, n) as int) =~= head + rest.take(m as int));
        assert(whole_lines(head));
        assert forall|k: int| 0 <= k < i implies head[k] != '\n' by {}
        lemma_pos_of(head, '\n', i as int);
        assert(head.take(i as int) =~= s.take(i as int));
        assert(head.skip(i + 1 as int) =~= Seq::<char>::empty());
        assert(lines_of(Seq::<char>::empty()) =~= Seq::<Seq<char>>::empty());
        assert(lines_of(head) =~= seq![first]);
        lemma_lines_concat(head, rest.take(m as int));
        assert(lines_of(s).take(n as int) =~= seq![first] + lines_of(rest).take(n - 1));
        let tail = rest.take(m as int);
        if tail.len() > 0 {
            assert(whole_lines(tail));
            assert((head + tail).last() == tail.last());
        }
    }
}

// ── Executable helpers ──────────────────────────────────────────────────────

/// The characters of `s`, in order.
pub fn chars_of(s: &str) -> (v: Vec<char>)
    ensures
        v@ == s@,
{
    let mut it = s.chars();
    let mut v: Vec<char> = Vec::new();
    loop
        invariant
            v@.len() <= s@.len(),
            v@ == s@.take(v@.len() as int),
            it.remaining() == s@.skip(v@.len() as int),
        ensures
            v@ == s@,
        decreases s@.len() - v@.len(),
    {
        match it.next() {
            Some(c) => {
                v.push(c);
            },
            None => {
                assert(v@ =~= s@);
                break;
            },
        }
    }
    v
}

/// `String::push`: appends `c` to the end of `s`.
#[verifier::external_body]
fn push_char(s: &mut String, c: char)
    ensures
        final(s)@ == old(s)@.push(c),
{
    s.push(c);
}

/// A `String` holding exactly the characters of `v`.
pub fn string_of(v: &Vec<char>) -> (s: String)
    ensures
        s@ == v@,
{
    let mut s = String::new();
    let mut i: usize = 0;
    while i < v.len()
        invariant
            i <= v@.len(),
            s@ == v@.take(i as int),
        decreases v@.len() - i,
    {
        push_char(&mut s, v[i]);
        assert(v@.take(i + 1) =~= v@.take(i as int).push(v@[i as int]));
        i = i + 1;
    }
    assert(v@.take(v@.len() as int) =~= v@);
    s
}

/// The characters `v[from..to]` as a new vector.
pub fn sub_vec(v: &Vec<char>, from: usize, to: usize) -> (r: Vec<char>)
    requires
        from <= to <= v@.len(),
    ensures
        r@ == v@.subrange(from as int, to as int),
{
    let mut r: Vec<char> = Vec::new();
    let mut i: usize = from;
    while i < to
        invariant
            from <= i <= to <= v@.len(),
            r@ == v@.subrange(from as int, i as int),
        decreases to - i,
    {
        r.push(v[i]);
        assert(v@.subrange(from as int, i + 1) =~= v@.subrange(from as int, i as int).push(
            v@[i as int],
        ));
        i = i + 1;
    }
    r
}

/// `char::is_whitespace`, written out over the Unicode `White_Space` set.
pub fn is_whitespace(c: char) -> (b: bool)
    ensures
        b == is_ws(c),
{
    c == ' ' || ('\t' <= c && c <= '\r') || c == '\u{85}' || c == '\u{A0}' || c == '\u{1680}'
        || ('\u{2000}' <= c && c <= '\u{200A}') || c == '\u{2028}' || c == '\u{2029}' || c
        == '\u{202F}' || c == '\u{205F}' || c == '\u{3000}'
}

/// `char::to_ascii_lowercase`.
pub fn to_ascii_lower(c: char) -> (r: char)
    ensures
        r == ascii_lower(c),
{
    if 'A' <= c && c <= 'Z' {
        ((c as u8) + 32) as char
    } else {
        c
    }
}

/// Whether `a` and `b` hold the same characters.
pub fn chars_eq(a: &Vec<char>, b: &Vec<char>) -> (r: bool)
    ensures
        r == (a@ == b@),
{
    if a.len() != b.len() {
        return false;
    }
    let mut i: usize = 0;
    while i < a.len()
        invariant
            a@.len() == b@.len(),
            i <= a@.len(),
            forall|k: int| 0 <= k < i ==> a@[k] == b@[k],
        decreases a@.len() - i,
    {
        if a[i] != b[i] {
            return false;
        }
        i = i + 1;
    }
    assert(a@ =~= b@);
    true
}

/// Index of the first `c` in `v` (`v.len()` when there is none).
pub fn position(v: &Vec<char>, c: char) -> (r: usize)
    ensures
        r == pos_of(v@, c),
        r <= v@.len(),
{
    let mut i: usize = 0;
    while i < v.len() && v[i] != c
        invariant
            i <= v@.len(),
            forall|k: int| 0 <= k < i ==> v@[k] != c,
        decreases v@.len() - i,
    {
        i = i + 1;
    }
    proof {
        lemma_pos_of(v@, c, i as int);
    }
    i
}

/// Index of the first whitespace in `v` (`v.len()` when there is none).
pub fn position_ws(v: &Vec<char>) -> (r: usize)
    ensures
        r == pos_ws(v@),
        r <= v@.len(),
{
    let mut i: usize = 0;
    while i < v.len() && !is_whitespace(v[i])
        invariant
            i <= v@.len(),
            forall|k: int| 0 <= k < i ==> !is_ws(#[trigger] v@[k]),
        decreases v@.len() - i,
    {
        i = i + 1;
    }
    proof {
        lemma_pos_ws(v@, i as int);
    }
    i
}

/// Whether `s` ends with `p`.
pub fn has_suffix(s: &Vec<char>, p: &Vec<char>) -> (r: bool)
    ensures
        r == ends_with(s@, p@),
{
    if p.len() > s.len() {
        return false;
    }
    let off = s.len() - p.len();
    let mut i: usize = 0;
    while i < p.len()
        invariant
            p@.len() <= s@.len(),
            off == s@.len() - p@.len(),
            s@.len() <= usize::MAX,
            i <= p@.len(),
            forall|k: int| 0 <= k < i ==> s@[off + k] == p@[k],
        decreases p@.len() - i,
    {
        if s[off + i] != p[i] {
            assert(s@.skip(off as int)[i as int] != p@[i as int]);
            return false;
        }
        i = i + 1;
    }
    assert(s@.skip(off as int) =~= p@);
    true
}

/// Whether two strings hold the same characters.
pub fn str_eq(a: &str, b: &str) -> (r: bool)
    ensures
        r == (a@ == b@),
{
    let x = chars_of(a);
    let y = chars_of(b);
    chars_eq(&x, &y)
}

/// Whether `a` and `b` are equal when ASCII case is ignored.
pub fn chars_eq_ignore_case(a: &Vec<char>, b: &Vec<char>) -> (r: bool)
    ensures
        r == eq_ignore_case(a@, b@),
{
    if a.len() != b.len() {
        assert(lower(a@).len() != lower(b@).len());
        return false;
    }
    let mut i: usize = 0;
    while i < a.len()
        invariant
            a@.len() == b@.len(),
            i <= a@.len(),
            forall|k: int| 0 <= k < i ==> ascii_lower(a@[k]) == ascii_lower(b@[k]),
        decreases a@.len() - i,
    {
        if to_ascii_lower(a[i]) != to_ascii_lower(b[i]) {
            assert(lower(a@)[i as int] != lower(b@)[i as int]);
            return false;
        }
        i = i + 1;
    }
    assert(lower(a@) =~= lower(b@));
    true
}

/// Whether `s` starts with `p`.
pub fn has_prefix(s: &Vec<char>, p: &Vec<char>) -> (r: bool)
    ensures
        r == starts_with(s@, p@),
{
    if p.len() > s.len() {
        return false;
    }
    let mut i: usize = 0;
    while i < p.len()
        invariant
            p@.len() <= s@.len(),
            i <= p@.len(),
            forall|k: int| 0 <= k < i ==> s@[k] == p@[k],
        decreases p@.len() - i,
    {
        if s[i] != p[i] {
            assert(s@.take(p@.len() as int)[i as int] != p@[i as int]);
            return false;
        }
        i = i + 1;
    }
    assert(s@.take(p@.len() as int) =~= p@);
    true
}

/// The bounds `(a, b)` of `v` without leading and trailing whitespace.
pub fn trim_bounds(v: &Vec<char>) -> (r: (usize, usize))
    ensures
        r.0 <= r.1 <= v@.len(),
        v@.subrange(r.0 as int, r.1 as int) == trim(v@),
{
    let mut a: usize = 0;
    assert(v@.skip(0) =~= v@);
    while a < v.len() && is_whitespace(v[a])
        invariant
            a <= v@.len(),
            trim_start(v@) == trim_start(v@.skip(a as int)),
        decreases v@.len() - a,
    {
        assert(v@.skip(a as int).drop_first() =~= v@.skip(a + 1));
        a = a + 1;
    }
    let ghost t = v@.skip(a as int);
    assert(trim_start(t) == t);
    let mut b: usize = v.len();
    while b > a && is_whitespace(v[b - 1])
        invariant
            a <= b <= v@.len(),
            t == v@.skip(a as int),
            trim_end(t) == trim_end(v@.subrange(a as int, b as int)),
        decreases b,
    {
        assert(v@.subrange(a as int, b as int).drop_last() =~= v@.subrange(a as int, b - 1));
        b = b - 1;
    }
    (a, b)
}

/// `v` without its leading whitespace.
pub fn trimmed_start(v: &Vec<char>) -> (r: Vec<char>)
    ensures
        r@ == trim_start(v@),
{
    let mut a: usize = 0;
    while a < v.len() && is_whitespace(v[a])
        invariant
            a <= v@.len(),
            forall|k: int| 0 <= k < a ==> is_ws(#[trigger] v@[k]),
        decreases v@.len() - a,
    {
        a = a + 1;
    }
    proof {
        lemma_ws_prefix(v@, a as int);
        lemma_trim_start_skip(v@);
    }
    sub_vec(v, a, v.len())
}

/// `v` without leading and trailing whitespace.
pub fn trimmed(v: &Vec<char>) -> (r: Vec<char>)
    ensures
        r@ == trim(v@),
{
    let (a, b) = trim_bounds(v);
    sub_vec(v, a, b)
}

/// The lines of `v`, as `str::lines` yields them.
pub fn split_lines(v: &Vec<char>) -> (lines: Vec<Vec<char>>)
    ensures
        lines@.len() == lines_of(v@).len(),
        forall|k: int| 0 <= k < lines@.len() ==> #[trigger] lines@[k]@ == lines_of(v@)[k],
{
    let mut lines: Vec<Vec<char>> = Vec::new();
    let ghost done: Seq<Seq<char>> = seq![];
    let mut start: usize = 0;
    let mut i: usize = 0;
    assert(v@.skip(0) =~= v@);
    while i < v.len()
        invariant
            start <= i <= v@.len(),
            lines@.len() == done.len(),
            forall|k: int| 0 <= k < lines@.len() ==> #[trigger] lines@[k]@ == done[k],
            lines_of(v@) == done + lines_of(v@.skip(start as int)),
            forall|k: int| start <= k < i ==> v@[k] != '\n',
        decreases v@.len() - i,
    {
        if v[i] == '\n' {
            proof {
                lemma_lines_step(v@, start as int, i as int);
            }
            let mut end = i;
            if end > start && v[end - 1] == '\r' {
                end = end - 1;
            }
            let line = sub_vec(v, start, end);
            assert(line@ == strip_cr(v@.subrange(start as int, i as int))) by {
                let l = v@.subrange(start as int, i as int);
                if l.len() > 0 && l.last() == '\r' {
                    assert(l.drop_last() =~= v@.subrange(start as int, i - 1));
                }
            }
            lines.push(line);
            proof {
                assert((done + seq![strip_cr(v@.subrange(start as int, i as int))]) + lines_of(
                    v@.skip(i + 1),
                ) =~= done + (seq![strip_cr(v@.subrange(start as int, i as int))] + lines_of(
                    v@.skip(i + 1),
                )));
                done = done.push(strip_cr(v@.subrange(start as int, i as int)));
            }
            start = i + 1;
        }
        i = i + 1;
    }
    proof {
        lemma_lines_last(v@, start as int);
    }
    if start < v.len() {
        let line = sub_vec(v, start, v.len());
        assert(line@ =~= v@.skip(start as int));
        lines.push(line);
        proof {
            done = done.push(v@.skip(start as int));
        }
    }
    assert(lines_of(v@) =~= done);
    lines
}

// ── Decimal numbers ─────────────────────────────────────────────────────────

/// The decimal digit character for `d` (below ten).
pub open spec fn digit_char(d: nat) -> char {
    ((d + 48) as u32) as char
}

/// The decimal representation of `n`, without leading zeros.
pub open spec fn decimal(n: nat) -> Seq<char>
    decreases n,
{
    if n < 10 {
        seq![digit_char(n)]
    } else {
        decimal(n / 10).push(digit_char(n % 10))
    }
}

/// Appends the decimal representation of `n` to `out`.
pub fn push_decimal(out: &mut Vec<char>, n: usize)
    ensures
        final(out)@ == old(out)@ + decimal(n as nat),
    decreases n,
{
    if n >= 10 {
        push_decimal(out, n / 10);
    }
    let d = (n % 10) as u8;
    let c = (d + 48) as char;
    assert(c == digit_char((n % 10) as nat));
    out.push(c);
    proof {
        if n >= 10 {
            assert(decimal(n as nat) == decimal((n / 10) as nat).push(digit_char((n % 10) as nat)));
        } else {
            assert(decimal(n as nat) == seq![digit_char(n as nat)]);
        }
    }
    assert(final(out)@ =~= old(out)@ + decimal(n as nat));
}

/// Appends the characters of `b` to `a`.
pub fn append_chars(a: &mut Vec<char>, b: &Vec<char>)
    ensures
        final(a)@ == old(a)@ + b@,
{
    let mut i: usize = 0;
    while i < b.len()
        invariant
            i <= b@.len(),
            a@ == old(a)@ + b@.take(i as int),
        decreases b@.len() - i,
    {
        a.push(b[i]);
        assert(b@.take(i + 1) =~= b@.take(i as int).push(b@[i as int]));
        assert(a@ =~= old(a)@ + b@.take(i + 1));
        i = i + 1;
    }
    assert(b@.take(b@.len() as int) =~= b@);
}

/// Appends the characters of `s` to `a`.
pub fn append_str(a: &mut Vec<char>, s: &str)
    ensures
        final(a)@ == old(a)@ + s@,
{
    let v = chars_of(s);
    append_chars(a, &v);
}

} // verus!
