//! Character and line utilities shared by the whole pipeline: whitespace
//! classification, trimming, splitting text into lines and joining lines back,
//! decimal formatting of counters, and the small text transforms of the chat
//! model (log whitespace trimming, title casing, content hashing).

use vstd::prelude::*;
use vstd::std_specs::iter::IteratorSpec;
use crate::strings::push_char;
use crate::strings::lowercase;
use crate::strings::char_uppercase;
use crate::strings::lower_of;
use crate::strings::char_upper_of;

verus! {

broadcast use vstd::string::group_string_axioms;

/// The Unicode `White_Space` characters, the set that `char::is_whitespace`
/// recognizes.
pub open spec fn is_ws_char(c: char) -> bool {
    ||| c == '\u{0009}'
    ||| c == '\u{000A}'
    ||| c == '\u{000B}'
    ||| c == '\u{000C}'
    ||| c == '\u{000D}'
    ||| c == '\u{0020}'
    ||| c == '\u{0085}'
    ||| c == '\u{00A0}'
    ||| c == '\u{1680}'
    ||| (c >= '\u{2000}' && c <= '\u{200A}')
    ||| c == '\u{2028}'
    ||| c == '\u{2029}'
    ||| c == '\u{202F}'
    ||| c == '\u{205F}'
    ||| c == '\u{3000}'
}

/// Decides whether `c` carries the Unicode `White_Space` property.
pub fn is_space_char(c: char) -> (r: bool)
    ensures
        r == is_ws_char(c),
{
    c == '\u{0009}' || c == '\u{000A}' || c == '\u{000B}' || c == '\u{000C}' || c == '\u{000D}'
        || c == '\u{0020}' || c == '\u{0085}' || c == '\u{00A0}' || c == '\u{1680}'
        || (c >= '\u{2000}' && c <= '\u{200A}') || c == '\u{2028}' || c == '\u{2029}'
        || c == '\u{202F}' || c == '\u{205F}' || c == '\u{3000}'
}

/// First index at or after `i` whose character is not whitespace (or the
/// length of `s` when only whitespace follows).
pub open spec fn skip_ws_from(s: Seq<char>, i: int) -> int
    decreases s.len() - i,
        when 0 <= i <= s.len()
{
    if i >= s.len() {
        i
    } else if !is_ws_char(s[i]) {
        i
    } else {
        skip_ws_from(s, i + 1)
    }
}

pub proof fn lemma_skip_ws_from(s: Seq<char>, i: int)
    requires
        0 <= i <= s.len(),
    ensures
        i <= skip_ws_from(s, i) <= s.len(),
        forall|p: int| i <= p < skip_ws_from(s, i) ==> is_ws_char(s[p]),
        skip_ws_from(s, i) < s.len() ==> !is_ws_char(s[skip_ws_from(s, i)]),
    decreases s.len() - i,
{
    if i < s.len() && is_ws_char(s[i]) {
        lemma_skip_ws_from(s, i + 1);
    }
}

/// `skip_ws_from` is determined by the characters alone: a whitespace run up
/// to `k` followed by a non-whitespace character (or the end) pins it.
pub proof fn lemma_skip_ws_char(s: Seq<char>, i: int, k: int)
    requires
        0 <= i <= k <= s.len(),
        forall|p: int| i <= p < k ==> is_ws_char(s[p]),
        k < s.len() ==> !is_ws_char(s[k]),
    ensures
        skip_ws_from(s, i) == k,
    decreases k - i,
{
    if i < k {
        lemma_skip_ws_char(s, i + 1, k);
    }
}

/// Index just past the trailing whitespace run that starts the search at `i`.
pub open spec fn end_ws_from(s: Seq<char>, i: int) -> int
    decreases i,
        when 0 <= i <= s.len()
{
    if i <= 0 {
        0
    } else if !is_ws_char(s[i - 1]) {
        i
    } else {
        end_ws_from(s, i - 1)
    }
}

pub proof fn lemma_end_ws_from(s: Seq<char>, i: int)
    requires
        0 <= i <= s.len(),
    ensures
        0 <= end_ws_from(s, i) <= i,
        forall|p: int| end_ws_from(s, i) <= p < i ==> is_ws_char(s[p]),
        end_ws_from(s, i) > 0 ==> !is_ws_char(s[end_ws_from(s, i) - 1]),
    decreases i,
{
    if i > 0 && is_ws_char(s[i - 1]) {
        lemma_end_ws_from(s, i - 1);
    }
}

/// `end_ws_from` is determined by the characters alone: a whitespace run from
/// `k` to `i` preceded by a non-whitespace character (or the start) pins it.
pub proof fn lemma_end_ws_char(s: Seq<char>, i: int, k: int)
    requires
        0 <= k <= i <= s.len(),
        forall|p: int| k <= p < i ==> is_ws_char(s[p]),
        k > 0 ==> !is_ws_char(s[k - 1]),
    ensures
        end_ws_from(s, i) == k,
    decreases i - k,
{
    if k < i {
        lemma_end_ws_char(s, i - 1, k);
    }
}

/// `end_ws_from` only looks below its start index, so it transfers between
/// sequences that agree there.
pub proof fn lemma_end_ws_prefix(a: Seq<char>, b: Seq<char>, i: int)
    requires
        0 <= i <= a.len(),
        i <= b.len(),
        forall|p: int| 0 <= p < i ==> a[p] == b[p],
    ensures
        end_ws_from(a, i) == end_ws_from(b, i),
    decreases i,
{
    if i > 0 && is_ws_char(a[i - 1]) {
        lemma_end_ws_prefix(a, b, i - 1);
    }
}

/// `s` without its leading whitespace.
pub open spec fn trim_start_spec(s: Seq<char>) -> Seq<char> {
    s.skip(skip_ws_from(s, 0))
}

/// `s` without its trailing whitespace.
pub open spec fn trim_end_spec(s: Seq<char>) -> Seq<char> {
    s.take(end_ws_from(s, s.len() as int))
}

/// `s` without leading and trailing whitespace.
pub open spec fn trim_spec(s: Seq<char>) -> Seq<char> {
    trim_start_spec(trim_end_spec(s))
}

/// Every character of `s` is whitespace.
pub open spec fn all_ws(s: Seq<char>) -> bool {
    forall|i: int| 0 <= i < s.len() ==> is_ws_char(s[i])
}

/// First index of the whitespace-trimmed content of `l`.
pub fn first_content_index(l: &Vec<char>) -> (k: usize)
    ensures
        k as int == skip_ws_from(l@, 0),
        k <= l@.len(),
{
    let n = l.len();
    let mut k: usize = 0;
    while k < n && is_space_char(l[k])
        invariant
            0 <= k <= n,
            n == l@.len(),
            skip_ws_from(l@, 0) == skip_ws_from(l@, k as int),
        decreases n - k,
    {
        k = k + 1;
    }
    k
}

/// Index just past the whitespace-trimmed content of `l`.
pub fn last_content_index(l: &Vec<char>) -> (k: usize)
    ensures
        k as int == end_ws_from(l@, l@.len() as int),
        k <= l@.len(),
{
    let mut k: usize = l.len();
    while k > 0 && is_space_char(l[k - 1])
        invariant
            0 <= k <= l@.len(),
            end_ws_from(l@, l@.len() as int) == end_ws_from(l@, k as int),
        decreases k,
    {
        k = k - 1;
    }
    k
}

/// Decides whether every character of `l[from..to]` is whitespace.
pub fn all_space_range(l: &Vec<char>, from: usize, to: usize) -> (r: bool)
    requires
        from <= to <= l@.len(),
    ensures
        r == all_ws(l@.subrange(from as int, to as int)),
{
    let mut i: usize = from;
    while i < to
        invariant
            from <= i <= to <= l@.len(),
            forall|p: int| from <= p < i ==> is_ws_char(l@[p]),
        decreases to - i,
    {
        if !is_space_char(l[i]) {
            assert(!is_ws_char(l@.subrange(from as int, to as int)[i - from]));
            return false;
        }
        i = i + 1;
    }
    assert forall|p: int| 0 <= p < to - from implies is_ws_char(
        l@.subrange(from as int, to as int)[p],
    ) by {
        assert(l@.subrange(from as int, to as int)[p] == l@[from + p]);
    }
    true
}

/// A copy of `l[from..to]`.
pub fn copy_range(l: &Vec<char>, from: usize, to: usize) -> (r: Vec<char>)
    requires
        from <= to <= l@.len(),
    ensures
        r@ == l@.subrange(from as int, to as int),
{
    let mut r: Vec<char> = Vec::new();
    let mut p: usize = from;
    while p < to
        invariant
            from <= p <= to <= l@.len(),
            r@ == l@.subrange(from as int, p as int),
        decreases to - p,
    {
        r.push(l[p]);
        assert(l@.subrange(from as int, p as int).push(l@[p as int]) =~= l@.subrange(
            from as int,
            p + 1,
        ));
        p = p + 1;
    }
    r
}

/// The bounds of the whitespace-trimmed content of `l`: `trim_spec(l@)` is
/// `l@` between the two returned indices.
pub fn trim_bounds(l: &Vec<char>) -> (r: (usize, usize))
    ensures
        r.0 <= r.1 <= l@.len(),
        trim_spec(l@) == l@.subrange(r.0 as int, r.1 as int),
{
    let b = last_content_index(l);
    proof {
        lemma_end_ws_from(l@, l@.len() as int);
    }
    let mut a: usize = 0;
    while a < b && is_space_char(l[a])
        invariant
            0 <= a <= b <= l@.len(),
            b as int == end_ws_from(l@, l@.len() as int),
            forall|p: int| 0 <= p < a ==> is_ws_char(l@[p]),
        decreases b - a,
    {
        a = a + 1;
    }
    proof {
        let t = l@.take(b as int);
        assert forall|p: int| 0 <= p < a implies is_ws_char(t[p]) by {
            assert(t[p] == l@[p]);
        }
        if (a as int) < t.len() {
            assert(t[a as int] == l@[a as int]);
        }
        lemma_skip_ws_char(t, 0, a as int);
        assert(trim_spec(l@) == t.skip(a as int));
        assert(t.skip(a as int) =~= l@.subrange(a as int, b as int));
    }
    (a, b)
}

/// The characters of `s`, as a vector.
pub fn chars_of(s: &str) -> (r: Vec<char>)
    ensures
        r@ == s@,
{
    let mut it = s.chars();
    let mut out: Vec<char> = Vec::new();
    loop
        invariant
            out@ + it.remaining() == s@,
            it.obeys_prophetic_iter_laws(),
            it.decrease() is Some,
        ensures
            out@ == s@,
        decreases it.decrease()->0,
    {
        match it.next() {
            Some(c) => {
                out.push(c);
            },
            None => {
                assert(out@ =~= out@ + it.remaining());
                break ;
            },
        }
    }
    out
}

/// A `String` holding exactly the characters of `v`.
pub fn chars_to_string(v: &Vec<char>) -> (r: String)
    ensures
        r@ == v@,
{
    let mut out = String::new();
    let mut i: usize = 0;
    while i < v.len()
        invariant
            i <= v@.len(),
            out@ == v@.take(i as int),
        decreases v@.len() - i,
    {
        push_char(&mut out, v[i]);
        assert(v@.take(i as int).push(v@[i as int]) =~= v@.take(i + 1));
        i = i + 1;
    }
    assert(v@.take(v@.len() as int) =~= v@);
    out
}

/// Appends the characters of `s` to `out`.
pub fn push_str_chars(out: &mut Vec<char>, s: &str)
    ensures
        final(out)@ == old(out)@ + s@,
{
    let v = chars_of(s);
    let mut i: usize = 0;
    while i < v.len()
        invariant
            i <= v@.len(),
            v@ == s@,
            out@ == old(out)@ + v@.take(i as int),
        decreases v@.len() - i,
    {
        out.push(v[i]);
        assert(v@.take(i as int).push(v@[i as int]) =~= v@.take(i + 1));
        i = i + 1;
    }
    assert(old(out)@ + v@.take(v@.len() as int) =~= old(out)@ + v@);
}

/// A line with one trailing carriage return removed, the way `str::lines`
/// treats a piece that ended at a newline.
pub open spec fn strip_cr(l: Seq<char>) -> Seq<char> {
    if l.len() > 0 && l[l.len() - 1] == '\r' {
        l.drop_last()
    } else {
        l
    }
}

/// Index of the first newline at or after `i` (or the length of `s`).
pub open spec fn find_nl(s: Seq<char>, i: int) -> int
    decreases s.len() - i,
        when 0 <= i <= s.len()
{
    if i >= s.len() {
        i
    } else if s[i] == '\n' {
        i
    } else {
        find_nl(s, i + 1)
    }
}

pub proof fn lemma_find_nl(s: Seq<char>, i: int)
    requires
        0 <= i <= s.len(),
    ensures
        i <= find_nl(s, i) <= s.len(),
        forall|p: int| i <= p < find_nl(s, i) ==> s[p] != '\n',
        find_nl(s, i) < s.len() ==> s[find_nl(s, i)] == '\n',
    decreases s.len() - i,
{
    if i < s.len() && s[i] != '\n' {
        lemma_find_nl(s, i + 1);
    }
}

/// The lines of `s[i..]`, split the way `str::lines` splits: pieces end at a
/// newline, a piece that ended at a newline loses one trailing carriage
/// return, and a final newline produces no empty last line.
pub open spec fn lines_from(s: Seq<char>, i: int) -> Seq<Seq<char>>
    decreases s.len() - i,
        when 0 <= i <= s.len()
        via lines_from_decreases
{
    if i >= s.len() {
        Seq::empty()
    } else {
        let j = find_nl(s, i);
        if j >= s.len() {
            seq![s.subrange(i, s.len() as int)]
        } else {
            seq![strip_cr(s.subrange(i, j))] + lines_from(s, j + 1)
        }
    }
}

#[via_fn]
proof fn lines_from_decreases(s: Seq<char>, i: int) {
    lemma_find_nl(s, i);
}

/// The lines of `s`.
pub open spec fn lines_spec(s: Seq<char>) -> Seq<Seq<char>> {
    lines_from(s, 0)
}

/// `find_nl` is determined by the characters alone.
pub proof fn lemma_find_nl_char(s: Seq<char>, i: int, k: int)
    requires
        0 <= i <= k <= s.len(),
        forall|p: int| i <= p < k ==> s[p] != '\n',
        k < s.len() ==> s[k] == '\n',
    ensures
        find_nl(s, i) == k,
    decreases k - i,
{
    if i < k {
        lemma_find_nl_char(s, i + 1, k);
    }
}

/// The line at `i` is the line of the text with its first `i` characters cut.
pub proof fn lemma_lines_from_skip(s: Seq<char>, i: int)
    requires
        0 <= i <= s.len(),
    ensures
        lines_from(s, i) == lines_spec(s.skip(i)),
    decreases s.len() - i,
{
    let t = s.skip(i);
    if i >= s.len() {
        assert(t.len() == 0);
    } else {
        let j = find_nl(s, i);
        lemma_find_nl(s, i);
        let jt = find_nl(t, 0);
        assert forall|p: int| 0 <= p < j - i implies t[p] != '\n' by {
            assert(t[p] == s[i + p]);
        }
        if j < s.len() {
            assert(t[j - i] == s[j]);
        }
        lemma_find_nl_char(t, 0, j - i);
        if j >= s.len() {
            assert(t.subrange(0, t.len() as int) =~= s.subrange(i, s.len() as int));
        } else {
            assert(t.subrange(0, j - i) =~= s.subrange(i, j));
            lemma_lines_from_skip(s, j + 1);
            lemma_lines_from_skip(t, j - i + 1);
            assert(t.skip(j - i + 1) =~= s.skip(j + 1));
        }
    }
}

/// No character of `l` is a newline.
pub open spec fn no_nl(l: Seq<char>) -> bool {
    forall|i: int| 0 <= i < l.len() ==> l[i] != '\n'
}

/// Lines never hold a newline.
pub proof fn lemma_lines_no_nl(s: Seq<char>, i: int)
    requires
        0 <= i <= s.len(),
    ensures
        forall|q: int|
            0 <= q < lines_from(s, i).len() ==> #[trigger] no_nl(lines_from(s, i)[q]),
    decreases s.len() - i,
{
    if i < s.len() {
        let j = find_nl(s, i);
        lemma_find_nl(s, i);
        if j >= s.len() {
            assert(no_nl(s.subrange(i, s.len() as int)));
        } else {
            assert(no_nl(s.subrange(i, j)));
            assert(no_nl(strip_cr(s.subrange(i, j))));
            lemma_lines_no_nl(s, j + 1);
            assert forall|q: int| 0 <= q < lines_from(s, i).len() implies #[trigger] no_nl(
                lines_from(s, i)[q],
            ) by {
                if q > 0 {
                    assert(lines_from(s, i)[q] == lines_from(s, j + 1)[q - 1]);
                }
            }
        }
    }
}

/// The line ends with a carriage return.
pub open spec fn ends_cr(l: Seq<char>) -> bool {
    l.len() > 0 && l[l.len() - 1] == '\r'
}

/// What splitting re-makes of a joined line sequence: every line but the last
/// loses one trailing carriage return, and an empty last line disappears.
pub open spec fn relined(ls: Seq<Seq<char>>) -> Seq<Seq<char>> {
    if ls.len() == 0 {
        ls
    } else {
        let m = Seq::new(
            ls.len(),
            |i: int|
                if i < ls.len() - 1 {
                    strip_cr(ls[i])
                } else {
                    ls[i]
                },
        );
        if m.last().len() == 0 {
            m.drop_last()
        } else {
            m
        }
    }
}

/// Splitting a joined line sequence yields `relined` of it.
pub proof fn lemma_lines_join(ls: Seq<Seq<char>>)
    requires
        forall|i: int| 0 <= i < ls.len() ==> #[trigger] no_nl(ls[i]),
    ensures
        lines_spec(join_lines(ls)) == relined(ls),
    decreases ls.len(),
{
    if ls.len() == 0 {
        assert(lines_spec(join_lines(ls)) =~= relined(ls));
    } else if ls.len() == 1 {
        let l = ls[0];
        assert(no_nl(l));
        assert(join_lines(ls) == l);
        if l.len() == 0 {
            assert(lines_spec(l) =~= relined(ls));
        } else {
            lemma_find_nl_char(l, 0, l.len() as int);
            assert(l.subrange(0, l.len() as int) =~= l);
            assert(lines_spec(l) =~= seq![l]);
            assert(relined(ls) =~= seq![l]);
        }
    } else {
        let l = ls[0];
        let rest = ls.drop_first();
        let s = join_lines(ls);
        assert(no_nl(l));
        assert(s == l + seq!['\n'] + join_lines(rest));
        assert(s.len() > l.len());
        assert forall|p: int| 0 <= p < l.len() implies s[p] != '\n' by {
            assert(s[p] == l[p]);
        }
        assert(s[l.len() as int] == '\n');
        lemma_find_nl_char(s, 0, l.len() as int);
        assert(s.subrange(0, l.len() as int) =~= l);
        lemma_lines_from_skip(s, l.len() as int + 1);
        assert(s.skip(l.len() as int + 1) =~= join_lines(rest));
        assert forall|i: int| 0 <= i < rest.len() implies #[trigger] no_nl(rest[i]) by {
            assert(rest[i] == ls[i + 1]);
        }
        lemma_lines_join(rest);
        assert(lines_spec(s) == seq![strip_cr(l)] + relined(rest));
        assert(seq![strip_cr(l)] + relined(rest) =~= relined(ls));
    }
}

/// Lines joined with single newlines, the way `[..].join("\n")` joins them.
pub open spec fn join_lines(ls: Seq<Seq<char>>) -> Seq<char>
    decreases ls.len(),
{
    if ls.len() == 0 {
        Seq::empty()
    } else if ls.len() == 1 {
        ls[0]
    } else {
        ls[0] + seq!['\n'] + join_lines(ls.drop_first())
    }
}

pub proof fn lemma_join_push(ls: Seq<Seq<char>>, l: Seq<char>)
    ensures
        ls.len() == 0 ==> join_lines(ls.push(l)) == l,
        ls.len() > 0 ==> join_lines(ls.push(l)) == join_lines(ls) + seq!['\n'] + l,
    decreases ls.len(),
{
    if ls.len() == 0 {
        assert(join_lines(ls.push(l)) == ls.push(l)[0]);
        assert(ls.push(l)[0] == l);
    } else if ls.len() == 1 {
        assert(ls.push(l).drop_first() =~= seq![l]);
        assert(join_lines(seq![l]) == l);
        assert(join_lines(ls) == ls[0]);
    } else {
        assert(ls.push(l).drop_first() =~= ls.drop_first().push(l));
        lemma_join_push(ls.drop_first(), l);
        assert(ls.push(l)[0] == ls[0]);
        assert(join_lines(ls.push(l)) == ls[0] + seq!['\n'] + (join_lines(ls.drop_first()) + seq![
            '\n',
        ] + l));
        assert(ls[0] + seq!['\n'] + (join_lines(ls.drop_first()) + seq!['\n'] + l) =~= (ls[0]
            + seq!['\n'] + join_lines(ls.drop_first())) + seq!['\n'] + l);
    }
}

/// Splits `v` into lines the way `str::lines` does.
pub fn split_lines(v: &Vec<char>) -> (r: Vec<Vec<char>>)
    ensures
        r.deep_view() == lines_spec(v@),
{
    let n = v.len();
    let mut r: Vec<Vec<char>> = Vec::new();
    let mut pos: usize = 0;
    while pos < n
        invariant
            pos <= n,
            n == v@.len(),
            lines_spec(v@) == r.deep_view() + lines_from(v@, pos as int),
        decreases n - pos,
    {
        let ghost prev = r.deep_view();
        let mut j: usize = pos;
        while j < n && v[j] != '\n'
            invariant
                pos <= j <= n,
                n == v@.len(),
                find_nl(v@, pos as int) == find_nl(v@, j as int),
            decreases n - j,
        {
            j = j + 1;
        }
        assert(j as int == find_nl(v@, pos as int));
        let end: usize = if j < n && j > pos && v[j - 1] == '\r' {
            j - 1
        } else {
            j
        };
        let mut line: Vec<char> = Vec::new();
        let mut p: usize = pos;
        while p < end
            invariant
                pos <= p <= end <= n,
                n == v@.len(),
                line@ == v@.subrange(pos as int, p as int),
            decreases end - p,
        {
            line.push(v[p]);
            assert(v@.subrange(pos as int, p as int).push(v@[p as int]) =~= v@.subrange(
                pos as int,
                p + 1,
            ));
            p = p + 1;
        }
        if j < n {
            assert(line@ =~= strip_cr(v@.subrange(pos as int, j as int)));
        } else {
            assert(line@ =~= v@.subrange(pos as int, n as int));
        }
        r.push(line);
        assert(r.deep_view() =~~= prev.push(line@));
        if j < n {
            assert(lines_from(v@, pos as int) == seq![line@] + lines_from(v@, j + 1));
            assert(prev + lines_from(v@, pos as int) =~= prev.push(line@) + lines_from(v@, j + 1));
            pos = j + 1;
        } else {
            assert(lines_from(v@, pos as int) == seq![line@]);
            assert(prev + lines_from(v@, pos as int) =~= prev.push(line@) + lines_from(
                v@,
                n as int,
            ));
            pos = n;
        }
    }
    assert(lines_from(v@, n as int) =~= Seq::<Seq<char>>::empty());
    assert(r.deep_view() =~= r.deep_view() + lines_from(v@, n as int));
    r
}

/// Joins lines with single newlines, the way `[..].join("\n")` does.
pub fn join_line_vecs(ls: &Vec<Vec<char>>) -> (r: Vec<char>)
    ensures
        r@ == join_lines(ls.deep_view()),
{
    let mut out: Vec<char> = Vec::new();
    let mut i: usize = 0;
    while i < ls.len()
        invariant
            i <= ls@.len(),
            out@ == join_lines(ls.deep_view().take(i as int)),
        decreases ls@.len() - i,
    {
        let ghost before = out@;
        if i > 0 {
            out.push('\n');
        }
        let line = &ls[i];
        assert(line@ == ls.deep_view()[i as int]);
        let mut p: usize = 0;
        while p < line.len()
            invariant
                p <= line@.len(),
                out@ == before + (if i > 0 {
                    seq!['\n']
                } else {
                    Seq::<char>::empty()
                }) + line@.take(p as int),
            decreases line@.len() - p,
        {
            out.push(line[p]);
            assert(line@.take(p as int).push(line@[p as int]) =~= line@.take(p + 1));
            p = p + 1;
        }
        assert(line@.take(line@.len() as int) =~= line@);
        proof {
            lemma_join_push(ls.deep_view().take(i as int), ls.deep_view()[i as int]);
            assert(ls.deep_view().take(i as int).push(ls.deep_view()[i as int]) =~= ls.deep_view()
                .take(i + 1));
            if i == 0 {
                assert(out@ =~= join_lines(ls.deep_view().take(i + 1)));
            } else {
                assert(out@ =~= join_lines(ls.deep_view().take(i + 1)));
            }
        }
        i = i + 1;
    }
    assert(ls.deep_view().take(ls@.len() as int) =~= ls.deep_view());
    out
}

/// The decimal digit character for `d`.
pub open spec fn digit_char(d: int) -> char {
    ((48 + d) as u32) as char
}

/// The decimal representation of a non-negative integer.
pub open spec fn dec_str(n: int) -> Seq<char>
    decreases n,
        when n >= 0
{
    if n < 10 {
        seq![digit_char(n)]
    } else {
        dec_str(n / 10).push(digit_char(n % 10))
    }
}

/// Appends the decimal representation of `n` to `out`.
pub fn push_decimal(out: &mut Vec<char>, n: u64)
    ensures
        final(out)@ == old(out)@ + dec_str(n as int),
    decreases n,
{
    if n < 10 {
        let d: u8 = 48 + (n as u8);
        out.push(d as char);
        assert(out@ =~= old(out)@ + dec_str(n as int));
    } else {
        push_decimal(out, n / 10);
        let d: u8 = 48 + ((n % 10) as u8);
        out.push(d as char);
        assert(out@ =~= old(out)@ + dec_str(n as int));
    }
}

/// The characters that log-content trimming removes from the tail.
pub open spec fn is_chat_tail_char(c: char) -> bool {
    c == ' ' || c == '\t' || c == '\n' || c == '\r'
}

/// The characters that log-content trimming removes from the head: line
/// breaks only, so that leading indentation survives.
pub open spec fn is_chat_head_char(c: char) -> bool {
    c == '\n' || c == '\r'
}

/// Index just past the content once trailing spaces, tabs and line breaks
/// are removed, searching down from `i`.
pub open spec fn chat_tail_end(s: Seq<char>, i: int) -> int
    decreases i,
        when 0 <= i <= s.len()
{
    if i <= 0 {
        0
    } else if !is_chat_tail_char(s[i - 1]) {
        i
    } else {
        chat_tail_end(s, i - 1)
    }
}

/// First index at or after `i` that is not a leading line break.
pub open spec fn chat_head_from(s: Seq<char>, i: int) -> int
    decreases s.len() - i,
        when 0 <= i <= s.len()
{
    if i >= s.len() {
        i
    } else if !is_chat_head_char(s[i]) {
        i
    } else {
        chat_head_from(s, i + 1)
    }
}

/// Log-content trimming: all trailing whitespace and line breaks go; of the
/// leading characters only line breaks go.
pub open spec fn trim_chat_spec(s: Seq<char>) -> Seq<char> {
    let t = s.take(chat_tail_end(s, s.len() as int));
    t.skip(chat_head_from(t, 0))
}

/// Trims excess whitespace typical in logs: trailing spaces, tabs and line
/// breaks, and leading line breaks (leading spaces and tabs stay, since they
/// may be meaningful code indentation).
pub fn trim_chat_whitespace(input: &str) -> (r: String)
    ensures
        r@ == trim_chat_spec(input@),
{
    let v = chars_of(input);
    let mut b: usize = v.len();
    while b > 0 && (v[b - 1] == ' ' || v[b - 1] == '\t' || v[b - 1] == '\n' || v[b - 1] == '\r')
        invariant
            0 <= b <= v@.len(),
            chat_tail_end(v@, v@.len() as int) == chat_tail_end(v@, b as int),
        decreases b,
    {
        b = b - 1;
    }
    assert(b as int == chat_tail_end(v@, v@.len() as int));
    let ghost t = v@.take(b as int);
    let mut a: usize = 0;
    while a < b && (v[a] == '\n' || v[a] == '\r')
        invariant
            0 <= a <= b <= v@.len(),
            t == v@.take(b as int),
            chat_head_from(t, 0) == chat_head_from(t, a as int),
        decreases b - a,
    {
        a = a + 1;
    }
    assert(a as int == chat_head_from(t, 0));
    let mut out: Vec<char> = Vec::new();
    let mut p: usize = a;
    while p < b
        invariant
            a <= p <= b <= v@.len(),
            out@ == v@.subrange(a as int, p as int),
        decreases b - p,
    {
        out.push(v[p]);
        assert(v@.subrange(a as int, p as int).push(v@[p as int]) =~= v@.subrange(a as int, p + 1));
        p = p + 1;
    }
    assert(out@ =~= trim_chat_spec(v@));
    chars_to_string(&out)
}

/// The title-cased form of a label: the first character upper-cased, the rest
/// lower-cased.
pub open spec fn title_case_spec(s: Seq<char>) -> Seq<char> {
    if s.len() == 0 {
        Seq::empty()
    } else {
        char_upper_of(s[0]) + lower_of(s.skip(1))
    }
}

/// Title-cases a label: upper-cases the first character, lower-cases the
/// rest.
pub fn title_case(s: &str) -> (r: String)
    ensures
        r@ == title_case_spec(s@),
{
    let v = chars_of(s);
    if v.len() == 0 {
        let r = String::new();
        assert(r@ =~= title_case_spec(s@));
        return r;
    }
    let mut out = char_uppercase(v[0]);
    let mut rest: Vec<char> = Vec::new();
    let mut p: usize = 1;
    while p < v.len()
        invariant
            1 <= p <= v@.len(),
            rest@ == v@.subrange(1, p as int),
        decreases v@.len() - p,
    {
        rest.push(v[p]);
        assert(v@.subrange(1, p as int).push(v@[p as int]) =~= v@.subrange(1, p + 1));
        p = p + 1;
    }
    assert(rest@ =~= v@.skip(1));
    let rest_s = chars_to_string(&rest);
    let low = lowercase(rest_s.as_str());
    out.append(low.as_str());
    out
}

/// One round of the 64-bit FNV-1a hash.
pub open spec fn fnv_step(h: u64, b: u8) -> u64 {
    vstd::wrapping::u64_specs::wrapping_mul(h ^ (b as u64), 0x100000001b3)
}

/// The 64-bit FNV-1a hash of `bytes[i..]` continued from state `h`.
pub open spec fn fnv1a_from(bytes: Seq<u8>, i: int, h: u64) -> u64
    decreases bytes.len() - i,
        when 0 <= i <= bytes.len()
{
    if i >= bytes.len() {
        h
    } else {
        fnv1a_from(bytes, i + 1, fnv_step(h, bytes[i]))
    }
}

/// The 64-bit FNV-1a hash of a byte sequence.
pub open spec fn fnv1a(bytes: Seq<u8>) -> u64 {
    fnv1a_from(bytes, 0, 0xcbf29ce484222325)
}

/// A stable short digest of a text, for cache keys: the 64-bit FNV-1a hash of
/// its UTF-8 bytes.
pub fn short_hash(s: &str) -> (r: u64)
    ensures
        r == fnv1a(vstd::utf8::encode_utf8(s@)),
{
    let bytes = s.as_bytes();
    let mut h: u64 = 0xcbf29ce484222325;
    let mut i: usize = 0;
    while i < bytes.len()
        invariant
            0 <= i <= bytes@.len(),
            bytes@ == vstd::utf8::encode_utf8(s@),
            fnv1a(vstd::utf8::encode_utf8(s@)) == fnv1a_from(bytes@, i as int, h),
        decreases bytes@.len() - i,
    {
        h = (h ^ (bytes[i] as u64)).wrapping_mul(0x100000001b3);
        i = i + 1;
    }
    h
}

} // verus!
