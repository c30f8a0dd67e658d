//! The fence sanitizer: a two-state, line-oriented machine that defuses stray
//! triple-backtick sequences in untrusted chat text and closes unterminated
//! code fences, so that downstream Markdown rendering cannot be corrupted.

use vstd::prelude::*;
use crate::textops::all_space_range;
use crate::textops::all_ws;
use crate::textops::chars_of;
use crate::textops::chars_to_string;
use crate::textops::copy_range;
use crate::textops::first_content_index;
use crate::textops::is_ws_char;
use crate::textops::is_space_char;
use crate::textops::ends_cr;
use crate::textops::end_ws_from;
use crate::textops::join_line_vecs;
use crate::textops::join_lines;
use crate::textops::lemma_end_ws_char;
use crate::textops::lemma_end_ws_from;
use crate::textops::lemma_end_ws_prefix;
use crate::textops::lemma_lines_join;
use crate::textops::lemma_lines_no_nl;
use crate::textops::lemma_skip_ws_char;
use crate::textops::lemma_skip_ws_from;
use crate::textops::lines_spec;
use crate::textops::no_nl;
use crate::textops::relined;
use crate::textops::skip_ws_from;
use crate::textops::strip_cr;
use crate::textops::split_lines;
use crate::textops::trim_bounds;
use crate::textops::trim_spec;
use crate::strings::is_unicode_alnum;
use crate::strings::is_alnum_char;

verus! {

/// A bare fence delimiter line.
pub open spec fn backticks3() -> Seq<char> {
    seq!['`', '`', '`']
}

/// A defused backtick triple: a zero-width space splits the run so a Markdown
/// renderer no longer sees a fence, while a reader sees the same text.
pub open spec fn broken_ticks() -> Seq<char> {
    seq!['`', '`', '\u{200B}', '`']
}

/// Characters allowed in a language tag after an opening fence.
pub open spec fn is_lang_char(c: char) -> bool {
    is_unicode_alnum(c) || c == '_' || c == '+' || c == '-' || c == '.' || c == '#'
}

/// A non-empty token of language-tag characters.
pub open spec fn lang_ok(lang: Seq<char>) -> bool {
    lang.len() > 0 && forall|i: int| 0 <= i < lang.len() ==> is_lang_char(lang[i])
}

/// The whitespace-trimmed start of the line begins with three backticks.
pub open spec fn starts_trip(l: Seq<char>) -> bool {
    let k = skip_ws_from(l, 0);
    k + 3 <= l.len() && l[k] == '`' && l[k + 1] == '`' && l[k + 2] == '`'
}

/// A genuine fence opener: three backticks followed by nothing, whitespace,
/// or a single language tag token.
pub open spec fn is_opener(l: Seq<char>) -> bool {
    starts_trip(l) && (all_ws(l.skip(skip_ws_from(l, 0) + 3)) || lang_ok(
        trim_spec(l.skip(skip_ws_from(l, 0) + 3)),
    ))
}

/// A closing fence: the trimmed line is exactly three backticks.
pub open spec fn is_closer(l: Seq<char>) -> bool {
    trim_spec(l) == backticks3()
}

/// The line ends with three backticks.
pub open spec fn ends3(l: Seq<char>) -> bool {
    l.len() >= 3 && l[l.len() - 3] == '`' && l[l.len() - 2] == '`' && l[l.len() - 1] == '`'
}

/// The line with its leading backtick triple split by a zero-width space.
pub open spec fn defuse_head(l: Seq<char>) -> Seq<char> {
    let k = skip_ws_from(l, 0);
    l.take(k) + broken_ticks() + l.skip(k + 3)
}

/// The line with its trailing backtick triple split by a zero-width space.
pub open spec fn defuse_tail(l: Seq<char>) -> Seq<char> {
    l.take(l.len() - 3) + broken_ticks()
}

/// What the sanitizer emits for one line in the given state.
pub open spec fn san_line(l: Seq<char>, in_fence: bool) -> Seq<char> {
    if in_fence {
        l
    } else if is_opener(l) {
        l
    } else if starts_trip(l) {
        defuse_head(l)
    } else if ends3(l) {
        defuse_tail(l)
    } else {
        l
    }
}

/// The sanitizer state after one line.
pub open spec fn san_next(l: Seq<char>, in_fence: bool) -> bool {
    if in_fence {
        !is_closer(l)
    } else {
        is_opener(l)
    }
}

/// The lines the sanitizer emits for `ls`, starting in the given state.
pub open spec fn san_emit(ls: Seq<Seq<char>>, in_fence: bool) -> Seq<Seq<char>>
    decreases ls.len(),
{
    if ls.len() == 0 {
        Seq::empty()
    } else {
        seq![san_line(ls[0], in_fence)] + san_emit(ls.drop_first(), san_next(ls[0], in_fence))
    }
}

/// The sanitizer state after all of `ls`.
pub open spec fn san_final(ls: Seq<Seq<char>>, in_fence: bool) -> bool
    decreases ls.len(),
{
    if ls.len() == 0 {
        in_fence
    } else {
        san_final(ls.drop_first(), san_next(ls[0], in_fence))
    }
}

/// What the machine emits for `ls` from the given state, plus a synthetic
/// closing fence when the final state is still inside one.
pub open spec fn san_close(ls: Seq<Seq<char>>, st: bool) -> Seq<Seq<char>> {
    if san_final(ls, st) {
        san_emit(ls, st).push(backticks3())
    } else {
        san_emit(ls, st)
    }
}

/// The full sanitized line sequence: what the machine emits, plus a synthetic
/// closing fence when the input left a fence open.
pub open spec fn san_lines(ls: Seq<Seq<char>>) -> Seq<Seq<char>> {
    san_close(ls, false)
}

/// The sanitized form of a whole text.
pub open spec fn sanitize_spec(s: Seq<char>) -> Seq<char> {
    join_lines(san_lines(lines_spec(s)))
}

/// Appending a line runs the machine one step further.
pub proof fn lemma_san_push(ls: Seq<Seq<char>>, l: Seq<char>, st: bool)
    ensures
        san_emit(ls.push(l), st) == san_emit(ls, st).push(san_line(l, san_final(ls, st))),
        san_final(ls.push(l), st) == san_next(l, san_final(ls, st)),
    decreases ls.len(),
{
    if ls.len() == 0 {
        assert(ls.push(l)[0] == l);
        assert(ls.push(l).drop_first() =~= Seq::<Seq<char>>::empty());
        assert(san_emit(Seq::<Seq<char>>::empty(), san_next(l, st))
            == Seq::<Seq<char>>::empty());
        assert(san_final(Seq::<Seq<char>>::empty(), san_next(l, st)) == san_next(l, st));
        assert(san_emit(ls, st) == Seq::<Seq<char>>::empty());
        assert(san_final(ls, st) == st);
        assert(san_emit(ls.push(l), st) =~= san_emit(ls, st).push(san_line(l, st)));
    } else {
        assert(ls.push(l)[0] == ls[0]);
        assert(ls.push(l).drop_first() =~= ls.drop_first().push(l));
        lemma_san_push(ls.drop_first(), l, san_next(ls[0], st));
        assert(san_emit(ls.push(l), st) =~= san_emit(ls, st).push(
            san_line(l, san_final(ls, st)),
        ));
    }
}

/// Decides whether the trimmed start of the line begins with three backticks.
pub fn starts_trip_exec(l: &Vec<char>) -> (r: bool)
    ensures
        r == starts_trip(l@),
{
    let n = l.len();
    let k = first_content_index(l);
    if n - k < 3 {
        return false;
    }
    l[k] == '`' && l[k + 1] == '`' && l[k + 2] == '`'
}

/// The bounds of the whitespace-trimmed content of `l[from..]`.
pub fn trim_bounds_from(l: &Vec<char>, from: usize) -> (r: (usize, usize))
    requires
        from <= l@.len(),
    ensures
        from <= r.0 <= r.1 <= l@.len(),
        trim_spec(l@.skip(from as int)) == l@.subrange(r.0 as int, r.1 as int),
{
    let ghost rest = l@.skip(from as int);
    let n = l.len();
    let mut e: usize = n;
    while e > from && is_space_char(l[e - 1])
        invariant
            from <= e <= n,
            n == l@.len(),
            forall|p: int| e <= p < n ==> is_ws_char(l@[p]),
        decreases e,
    {
        e = e - 1;
    }
    proof {
        assert forall|p: int| e - from <= p < rest.len() implies is_ws_char(rest[p]) by {
            assert(rest[p] == l@[from + p]);
        }
        if e > from {
            assert(rest[e - from - 1] == l@[e - 1]);
        }
        lemma_end_ws_char(rest, rest.len() as int, e - from);
    }
    let mut a: usize = from;
    while a < e && is_space_char(l[a])
        invariant
            from <= a <= e <= n,
            n == l@.len(),
            forall|p: int| from <= p < a ==> is_ws_char(l@[p]),
        decreases e - a,
    {
        a = a + 1;
    }
    proof {
        let t = rest.take(e - from);
        assert forall|p: int| 0 <= p < a - from implies is_ws_char(t[p]) by {
            assert(t[p] == l@[from + p]);
        }
        if a < e {
            assert(t[a - from] == l@[a as int]);
        }
        lemma_skip_ws_char(t, 0, a - from);
        assert(trim_spec(rest) == t.skip(a - from));
        assert(t.skip(a - from) =~= l@.subrange(a as int, e as int));
    }
    (a, e)
}

/// Decides whether the line is a genuine fence opener.
#[verifier::loop_isolation(false)]
pub fn is_opener_exec(l: &Vec<char>) -> (r: bool)
    ensures
        r == is_opener(l@),
{
    let n = l.len();
    let k = first_content_index(l);
    if n - k < 3 {
        return false;
    }
    if !(l[k] == '`' && l[k + 1] == '`' && l[k + 2] == '`') {
        return false;
    }
    let ghost rest = l@.skip(k + 3);
    if all_space_range(l, k + 3, n) {
        assert(l@.subrange(k + 3, n as int) =~= rest);
        return true;
    }
    assert(l@.subrange(k + 3, n as int) =~= rest);
    let (a, e) = trim_bounds_from(l, k + 3);
    if a == e {
        assert(trim_spec(rest).len() == 0);
        return false;
    }
    let mut p: usize = a;
    while p < e
        invariant
            a <= p <= e <= l@.len(),
            forall|q: int| a <= q < p ==> is_lang_char(l@[q]),
        decreases e - p,
    {
        let c = l[p];
        if !(is_alnum_char(c) || c == '_' || c == '+' || c == '-' || c == '.' || c == '#') {
            assert(!is_lang_char(l@.subrange(a as int, e as int)[p - a]));
            return false;
        }
        p = p + 1;
    }
    assert forall|q: int| 0 <= q < e - a implies is_lang_char(
        l@.subrange(a as int, e as int)[q],
    ) by {
        assert(l@.subrange(a as int, e as int)[q] == l@[a + q]);
    }
    true
}

/// Decides whether the line is a closing fence.
pub fn is_closer_exec(l: &Vec<char>) -> (r: bool)
    ensures
        r == is_closer(l@),
{
    let (a, b) = trim_bounds(l);
    let r = b - a == 3 && l[a] == '`' && l[a + 1] == '`' && l[a + 2] == '`';
    proof {
        let t = l@.subrange(a as int, b as int);
        assert(backticks3().len() == 3);
        assert(backticks3()[0] == '`');
        assert(backticks3()[1] == '`');
        assert(backticks3()[2] == '`');
        if b - a == 3 {
            assert(t[0] == l@[a as int]);
            assert(t[1] == l@[a as int + 1]);
            assert(t[2] == l@[a as int + 2]);
            if r {
                assert(t =~= backticks3());
            }
        }
    }
    r
}

/// Decides whether the line ends with three backticks.
pub fn ends3_exec(l: &Vec<char>) -> (r: bool)
    ensures
        r == ends3(l@),
{
    let n = l.len();
    n >= 3 && l[n - 3] == '`' && l[n - 2] == '`' && l[n - 1] == '`'
}

/// Builds `defuse_head(l@)`.
fn defuse_head_exec(l: &Vec<char>, k: usize) -> (r: Vec<char>)
    requires
        k as int == skip_ws_from(l@, 0),
        k + 3 <= l@.len(),
    ensures
        r@ == defuse_head(l@),
{
    let n = l.len();
    let mut d = copy_range(l, 0, k);
    d.push('`');
    d.push('`');
    d.push('\u{200B}');
    d.push('`');
    assert(d@ =~= l@.take(k as int) + broken_ticks());
    let mut p: usize = k + 3;
    while p < n
        invariant
            k + 3 <= p <= n,
            n == l@.len(),
            d@ == l@.take(k as int) + broken_ticks() + l@.subrange(k + 3, p as int),
        decreases n - p,
    {
        d.push(l[p]);
        assert(d@ =~= l@.take(k as int) + broken_ticks() + l@.subrange(k + 3, p + 1));
        p = p + 1;
    }
    assert(l@.subrange(k + 3, n as int) =~= l@.skip(k + 3));
    d
}

/// Builds `defuse_tail(l@)`.
fn defuse_tail_exec(l: &Vec<char>) -> (r: Vec<char>)
    requires
        l@.len() >= 3,
    ensures
        r@ == defuse_tail(l@),
{
    let n = l.len();
    let mut d = copy_range(l, 0, n - 3);
    d.push('`');
    d.push('`');
    d.push('\u{200B}');
    d.push('`');
    assert(d@ =~= defuse_tail(l@));
    d
}

/// Neutralizes stray triple-backtick sequences in chat text so they cannot
/// open an unintended Markdown code fence, and appends a closing fence when
/// an opened fence reaches the end of the text unterminated.
pub fn sanitize_chat_markdown(input: &str) -> (r: String)
    ensures
        r@ == sanitize_spec(input@),
{
    let v = chars_of(input);
    let lines = split_lines(&v);
    let ghost ld = lines.deep_view();
    let mut out: Vec<Vec<char>> = Vec::new();
    let mut in_fence = false;
    let mut i: usize = 0;
    while i < lines.len()
        invariant
            i <= ld.len(),
            ld == lines.deep_view(),
            lines@.len() == ld.len(),
            out.deep_view() == san_emit(ld.take(i as int), false),
            in_fence == san_final(ld.take(i as int), false),
        decreases ld.len() - i,
    {
        let ghost prev = out.deep_view();
        let ghost st = in_fence;
        let line = &lines[i];
        assert(line@ == ld[i as int]);
        if in_fence {
            let closer = is_closer_exec(line);
            let copy = copy_range(line, 0, line.len());
            assert(copy@ =~= line@);
            out.push(copy);
            in_fence = !closer;
        } else {
            if is_opener_exec(line) {
                let copy = copy_range(line, 0, line.len());
                assert(copy@ =~= line@);
                out.push(copy);
                in_fence = true;
            } else if starts_trip_exec(line) {
                let k = first_content_index(line);
                let d = defuse_head_exec(line, k);
                out.push(d);
            } else if ends3_exec(line) {
                let d = defuse_tail_exec(line);
                out.push(d);
            } else {
                let copy = copy_range(line, 0, line.len());
                assert(copy@ =~= line@);
                out.push(copy);
            }
        }
        proof {
            assert(ld.take(i + 1) =~= ld.take(i as int).push(ld[i as int]));
            lemma_san_push(ld.take(i as int), ld[i as int], false);
            assert(out.deep_view() =~~= prev.push(san_line(ld[i as int], st)));
        }
        i = i + 1;
    }
    assert(ld.take(ld.len() as int) =~= ld);
    if in_fence {
        let closer: Vec<char> = vec!['`', '`', '`'];
        assert(closer@ =~= backticks3());
        let ghost prev = out.deep_view();
        out.push(closer);
        assert(out.deep_view() =~~= prev.push(backticks3()));
    }
    assert(out.deep_view() == san_lines(ld));
    let joined = join_line_vecs(&out);
    chars_to_string(&joined)
}

/// A bare backtick-triple line is a closing fence and is not whitespace.
proof fn lemma_backticks_closer()
    ensures
        is_closer(backticks3()),
        no_nl(backticks3()),
        backticks3().len() == 3,
{
    let b = backticks3();
    assert(b.len() == 3 && b[0] == '`' && b[1] == '`' && b[2] == '`');
    assert(!is_ws_char('`'));
    lemma_end_ws_char(b, 3, 3);
    let t = b.take(3);
    assert(t =~= b);
    lemma_skip_ws_char(t, 0, 0);
    assert(t.skip(0) =~= b);
}

/// The empty line is no fence delimiter at all: it changes no machine state.
proof fn lemma_empty_line_neutral()
    ensures
        !is_opener(Seq::<char>::empty()),
        !is_closer(Seq::<char>::empty()),
        forall|st: bool| san_next(Seq::<char>::empty(), st) == st,
{
    let e = Seq::<char>::empty();
    assert(!starts_trip(e));
    assert(end_ws_from(e, 0) == 0);
    assert(trim_spec(e) =~= e);
    assert(backticks3().len() == 3);
}

/// A head-defused line no longer starts with a backtick triple.
proof fn lemma_defuse_head_shape(l: Seq<char>)
    requires
        starts_trip(l),
    ensures
        !starts_trip(defuse_head(l)),
        no_nl(l) ==> no_nl(defuse_head(l)),
    decreases 0int,
{
    let k = skip_ws_from(l, 0);
    lemma_skip_ws_from(l, 0);
    let d = defuse_head(l);
    assert(l.take(k).len() == k);
    assert(broken_ticks()[0] == '`' && broken_ticks()[1] == '`' && broken_ticks()[2]
        == '\u{200B}' && broken_ticks()[3] == '`');
    assert(d.len() == l.len() + 1);
    assert forall|p: int| 0 <= p < k implies is_ws_char(d[p]) by {
        assert(d[p] == l.take(k)[p]);
    }
    assert(d[k] == '`');
    assert(!is_ws_char('`'));
    lemma_skip_ws_char(d, 0, k);
    assert(d[k + 2] == '\u{200B}');
    if no_nl(l) {
        assert forall|p: int| 0 <= p < d.len() implies d[p] != '\n' by {
            if p < k {
                assert(d[p] == l[p]);
            } else if p < k + 4 {
                assert(d[p] == broken_ticks()[p - k]);
            } else {
                assert(d[p] == l[p - 1]);
            }
        }
    }
}

/// A tail-defused line neither starts nor ends with a backtick triple.
proof fn lemma_defuse_tail_shape(l: Seq<char>)
    requires
        ends3(l),
        !starts_trip(l),
    ensures
        !starts_trip(defuse_tail(l)),
        !ends3(defuse_tail(l)),
        no_nl(l) ==> no_nl(defuse_tail(l)),
{
    let n = l.len() as int;
    let d = defuse_tail(l);
    assert(broken_ticks()[0] == '`' && broken_ticks()[1] == '`' && broken_ticks()[2]
        == '\u{200B}' && broken_ticks()[3] == '`');
    assert(l.take(n - 3).len() == n - 3);
    assert(d.len() == n + 1);
    assert(d[n - 1] == broken_ticks()[2]);
    assert(!ends3(d));
    let k = skip_ws_from(l, 0);
    lemma_skip_ws_from(l, 0);
    assert(!is_ws_char('`'));
    assert(k <= n - 3) by {
        if k > n - 3 {
            assert(is_ws_char(l[n - 3]));
        }
    }
    assert(k < n - 3) by {
        if k == n - 3 {
            assert(starts_trip(l));
        }
    }
    assert forall|p: int| 0 <= p < k implies is_ws_char(d[p]) by {
        assert(d[p] == l.take(n - 3)[p]);
        assert(d[p] == l[p]);
    }
    assert(d[k] == l[k]);
    lemma_skip_ws_char(d, 0, k);
    if k + 3 <= n - 3 {
        assert(d[k] == l[k] && d[k + 1] == l[k + 1] && d[k + 2] == l[k + 2]);
        assert(!starts_trip(d));
    } else if k == n - 5 {
        assert(d[k] == l[k] && d[k + 1] == l[k + 1] && d[k + 2] == broken_ticks()[0]);
        if l[k] == '`' && l[k + 1] == '`' {
            assert(l[k + 2] == l[n - 3] && l[n - 3] == '`');
            assert(starts_trip(l));
        }
        assert(!starts_trip(d));
    } else {
        assert(k == n - 4);
        assert(d[k] == l[k] && d[k + 1] == broken_ticks()[0] && d[k + 2] == broken_ticks()[1]);
        if l[k] == '`' {
            assert(l[k + 1] == l[n - 3] && l[k + 2] == l[n - 2]);
            assert(starts_trip(l));
        }
        assert(!starts_trip(d));
    }
    if no_nl(l) {
        assert forall|p: int| 0 <= p < d.len() implies d[p] != '\n' by {
            if p < n - 3 {
                assert(d[p] == l[p]);
            } else {
                assert(d[p] == broken_ticks()[p - (n - 3)]);
            }
        }
    }
}

/// One sanitizer step is stable: re-running the machine on the emitted line
/// keeps the state transition, and keeps the line itself unless a head defuse
/// left a backtick triple at the tail.
proof fn lemma_step_stable(l: Seq<char>, st: bool)
    ensures
        san_next(san_line(l, st), st) == san_next(l, st),
        no_nl(l) ==> no_nl(san_line(l, st)),
        (!st && !is_opener(l) && starts_trip(l) && ends3(defuse_head(l))) || san_line(
            san_line(l, st),
            st,
        ) == san_line(l, st),
{
    if !st && !is_opener(l) {
        if starts_trip(l) {
            lemma_defuse_head_shape(l);
            let d = defuse_head(l);
            assert(!is_opener(d));
        } else if ends3(l) {
            lemma_defuse_tail_shape(l);
            let d = defuse_tail(l);
            assert(!is_opener(d));
        }
    }
}

/// No line that the machine emits for a fence-safe input introduces a newline.
proof fn lemma_san_emit_no_nl(ls: Seq<Seq<char>>, st: bool)
    requires
        forall|i: int| 0 <= i < ls.len() ==> #[trigger] no_nl(ls[i]),
    ensures
        forall|i: int|
            0 <= i < san_emit(ls, st).len() ==> #[trigger] no_nl(san_emit(ls, st)[i]),
    decreases ls.len(),
{
    if ls.len() > 0 {
        let rest = ls.drop_first();
        assert forall|i: int| 0 <= i < rest.len() implies #[trigger] no_nl(rest[i]) by {
            assert(rest[i] == ls[i + 1]);
        }
        lemma_san_emit_no_nl(rest, san_next(ls[0], st));
        assert(no_nl(ls[0]));
        lemma_step_stable(ls[0], st);
        assert forall|i: int| 0 <= i < san_emit(ls, st).len() implies #[trigger] no_nl(
            san_emit(ls, st)[i],
        ) by {
            if i > 0 {
                assert(san_emit(ls, st)[i] == san_emit(rest, san_next(ls[0], st))[i - 1]);
            }
        }
    }
}

/// No head defuse along the run of the machine leaves a backtick triple at
/// the end of its line; such a line would be defused again on a second pass.
pub open spec fn defuse_safe(ls: Seq<Seq<char>>, st: bool) -> bool
    decreases ls.len(),
{
    if ls.len() == 0 {
        true
    } else {
        (!st && !is_opener(ls[0]) && starts_trip(ls[0]) ==> !ends3(defuse_head(ls[0])))
            && defuse_safe(ls.drop_first(), san_next(ls[0], st))
    }
}

/// Running the machine over its own closed output ends outside any fence, and
/// for defuse-safe input emits every line unchanged.
proof fn lemma_pass2(ls: Seq<Seq<char>>, st: bool)
    ensures
        san_final(san_close(ls, st), st) == false,
        defuse_safe(ls, st) ==> san_emit(san_close(ls, st), st) == san_close(ls, st),
    decreases ls.len(),
{
    if ls.len() == 0 {
        if st {
            lemma_backticks_closer();
            let b = backticks3();
            assert(san_close(ls, st) =~= seq![b]);
            assert(seq![b][0] == b);
            assert(seq![b].drop_first() =~= Seq::<Seq<char>>::empty());
            assert(san_line(b, true) == b);
            assert(san_next(b, true) == false);
            assert(san_emit(Seq::<Seq<char>>::empty(), false) =~= Seq::<Seq<char>>::empty());
            assert(san_final(Seq::<Seq<char>>::empty(), false) == false);
            assert(san_emit(seq![b], true) == seq![san_line(b, true)] + san_emit(
                seq![b].drop_first(),
                san_next(b, true),
            ));
            assert(san_emit(seq![b], true) =~= seq![b]);
            assert(san_final(seq![b], true) == false);
        } else {
            assert(san_close(ls, st) =~= Seq::<Seq<char>>::empty());
        }
    } else {
        let l = ls[0];
        let rest = ls.drop_first();
        let st1 = san_next(l, st);
        let e = san_line(l, st);
        lemma_pass2(rest, st1);
        lemma_step_stable(l, st);
        assert(san_final(ls, st) == san_final(rest, st1));
        assert(san_emit(ls, st) == seq![e] + san_emit(rest, st1));
        let c = san_close(ls, st);
        let crest = san_close(rest, st1);
        assert(c =~= seq![e] + crest);
        assert(c.len() > 0 && c[0] == e);
        assert(c.drop_first() =~= crest);
        assert(san_final(c, st) == san_final(crest, san_next(e, st)));
        assert(san_next(e, st) == st1);
        if defuse_safe(ls, st) {
            assert(san_line(e, st) == e);
            assert(san_emit(c, st) == seq![san_line(e, st)] + san_emit(crest, st1));
            assert(seq![e] + crest =~= c);
        }
    }
}

/// Fence balance: in the sanitized text, every fence that is opened is also
/// closed. Running the fence machine over the lines of the sanitized text
/// from outside any fence ends outside any fence.
pub proof fn lemma_sanitize_fence_balance(x: Seq<char>)
    ensures
        san_final(lines_spec(sanitize_spec(x)), false) == false,
{
    let ls = lines_spec(x);
    let ll = san_lines(ls);
    lemma_pass2(ls, false);
    lemma_lines_no_nl(x, 0);
    lemma_san_emit_no_nl(ls, false);
    lemma_backticks_closer();
    assert forall|i: int| 0 <= i < ll.len() implies #[trigger] no_nl(ll[i]) by {
        if san_final(ls, false) && i == ll.len() - 1 {
            assert(ll[i] == backticks3());
        } else {
            assert(ll[i] == san_emit(ls, false)[i]);
        }
    }
    lemma_lines_join(ll);
    if ll.len() == 0 {
        assert(relined(ll) =~= ll);
    } else {
        let m = Seq::new(
            ll.len(),
            |i: int|
                if i < ll.len() - 1 {
                    strip_cr(ll[i])
                } else {
                    ll[i]
                },
        );
        assert(m.len() == ll.len());
        assert forall|i: int| 0 <= i < ll.len() implies is_opener(m[i]) == is_opener(ll[i])
            && is_closer(m[i]) == is_closer(ll[i]) by {
            lemma_strip_cr_class(ll[i]);
        }
        lemma_san_final_pointwise(ll, m, false);
        if m.last().len() == 0 {
            let md = m.drop_last();
            assert(md.push(m.last()) =~= m);
            lemma_san_push(md, m.last(), false);
            lemma_empty_line_neutral();
            assert(san_final(m, false) == san_final(md, false));
            assert(relined(ll) == md);
        } else {
            assert(relined(ll) == m);
        }
    }
}

/// The machine's state transitions look only at opener and closer status, so
/// they agree on line sequences that agree on those.
proof fn lemma_san_final_pointwise(a: Seq<Seq<char>>, b: Seq<Seq<char>>, st: bool)
    requires
        a.len() == b.len(),
        forall|i: int|
            0 <= i < a.len() ==> is_opener(#[trigger] b[i]) == is_opener(a[i]) && is_closer(
                b[i],
            ) == is_closer(a[i]),
    ensures
        san_final(a, st) == san_final(b, st),
    decreases a.len(),
{
    if a.len() > 0 {
        assert(is_opener(b[0]) == is_opener(a[0]) && is_closer(b[0]) == is_closer(a[0]));
        assert(san_next(a[0], st) == san_next(b[0], st));
        let ar = a.drop_first();
        let br = b.drop_first();
        assert forall|i: int|
            0 <= i < ar.len() implies is_opener(#[trigger] br[i]) == is_opener(ar[i])
            && is_closer(br[i]) == is_closer(ar[i]) by {
            assert(br[i] == b[i + 1] && ar[i] == a[i + 1]);
        }
        lemma_san_final_pointwise(ar, br, san_next(a[0], st));
    }
}

/// Removing one trailing carriage return changes neither opener nor closer
/// status of a line: the carriage return is whitespace that trimming removes.
proof fn lemma_strip_cr_class(l: Seq<char>)
    ensures
        is_opener(strip_cr(l)) == is_opener(l),
        is_closer(strip_cr(l)) == is_closer(l),
{
    if ends_cr(l) {
        let n = l.len() as int;
        let m = l.drop_last();
        assert(strip_cr(l) == m);
        assert(is_ws_char('\r'));
        assert(!is_ws_char('`'));
        lemma_trim_drop_ws(l);
        let k = skip_ws_from(l, 0);
        lemma_skip_ws_from(l, 0);
        if k == n {
            assert(is_ws_char(l[n - 1]));
            lemma_skip_ws_char(m, 0, n - 1);
            assert(!starts_trip(l) && !starts_trip(m));
        } else {
            assert(k <= n - 2) by {
                assert(l[n - 1] == '\r');
            }
            assert(m[k] == l[k]);
            lemma_skip_ws_char(m, 0, k);
            if k + 3 <= n - 1 {
                assert(m[k] == l[k] && m[k + 1] == l[k + 1] && m[k + 2] == l[k + 2]);
                assert(starts_trip(m) == starts_trip(l));
                if starts_trip(l) {
                    let rl = l.skip(k + 3);
                    let rm = m.skip(k + 3);
                    assert(rm =~= rl.drop_last());
                    assert(rl.len() > 0 && rl[rl.len() - 1] == '\r');
                    assert(all_ws(rl) == all_ws(rm)) by {
                        if all_ws(rm) {
                            assert forall|p: int| 0 <= p < rl.len() implies is_ws_char(
                                rl[p],
                            ) by {
                                if p < rl.len() - 1 {
                                    assert(rl[p] == rm[p]);
                                }
                            }
                        } else {
                            let p = choose|p: int| 0 <= p < rm.len() && !is_ws_char(rm[p]);
                            assert(rl[p] == rm[p]);
                        }
                    }
                    lemma_trim_drop_ws(rl);
                    assert(trim_spec(rl) == trim_spec(rm));
                }
            } else {
                assert(k + 3 > n - 1);
                assert(l[n - 1] == '\r');
                if k + 3 <= n {
                    assert(l[k + 2] == l[n - 1]);
                    assert(!starts_trip(l));
                } else {
                    assert(!starts_trip(l));
                }
                assert(!starts_trip(m));
            }
        }
    }
}

/// Trimming ignores one trailing whitespace character.
proof fn lemma_trim_drop_ws(l: Seq<char>)
    requires
        l.len() > 0,
        is_ws_char(l[l.len() - 1]),
    ensures
        trim_spec(l.drop_last()) == trim_spec(l),
{
    let n = l.len() as int;
    let m = l.drop_last();
    assert(end_ws_from(l, n) == end_ws_from(l, n - 1));
    lemma_end_ws_prefix(l, m, n - 1);
    lemma_end_ws_from(m, n - 1);
    let e = end_ws_from(m, n - 1);
    assert(l.take(e) =~= m.take(e));
}

/// Idempotence: sanitizing already-sanitized text changes nothing. This holds
/// whenever the first pass did not emit, outside a fence, a head-defused line
/// that still ends with a backtick triple, did not emit a carriage return at
/// the end of a non-final line, and did not end with an empty line that the
/// joining of lines would drop.
pub proof fn lemma_sanitize_idempotent(x: Seq<char>)
    requires
        defuse_safe(lines_spec(x), false),
        forall|i: int|
            0 <= i < san_lines(lines_spec(x)).len() - 1 ==> !ends_cr(
                #[trigger] san_lines(lines_spec(x))[i],
            ),
        san_lines(lines_spec(x)).len() >= 2 ==> san_lines(lines_spec(x)).last().len() > 0,
    ensures
        sanitize_spec(sanitize_spec(x)) == sanitize_spec(x),
{
    let ls = lines_spec(x);
    let ll = san_lines(ls);
    let y = sanitize_spec(x);
    lemma_pass2(ls, false);
    lemma_lines_no_nl(x, 0);
    lemma_san_emit_no_nl(ls, false);
    lemma_backticks_closer();
    assert forall|i: int| 0 <= i < ll.len() implies #[trigger] no_nl(ll[i]) by {
        if san_final(ls, false) && i == ll.len() - 1 {
            assert(ll[i] == backticks3());
        } else {
            assert(ll[i] == san_emit(ls, false)[i]);
        }
    }
    lemma_lines_join(ll);
    if ll.len() == 0 || (ll.len() == 1 && ll[0].len() == 0) {
        assert(y =~= Seq::<char>::empty());
        assert(lines_spec(y) =~= Seq::<Seq<char>>::empty());
        assert(san_final(Seq::<Seq<char>>::empty(), false) == false);
        assert(san_lines(lines_spec(y)) =~= Seq::<Seq<char>>::empty());
        assert(sanitize_spec(y) =~= y);
    } else {
        let m = Seq::new(
            ll.len(),
            |i: int|
                if i < ll.len() - 1 {
                    strip_cr(ll[i])
                } else {
                    ll[i]
                },
        );
        assert forall|i: int| 0 <= i < ll.len() implies m[i] == ll[i] by {
            if i < ll.len() - 1 {
                assert(!ends_cr(ll[i]));
            }
        }
        assert(m =~= ll);
        if ll.len() == 1 {
            assert(ll[0].len() > 0);
        }
        assert(m.last().len() > 0);
        assert(relined(ll) == ll);
        assert(lines_spec(y) == ll);
        assert(san_final(ll, false) == false);
        assert(san_close(ll, false) == san_emit(ll, false));
        assert(san_emit(ll, false) == ll);
        assert(sanitize_spec(y) == join_lines(ll));
    }
}

} // verus!
