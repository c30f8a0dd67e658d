//! The export renderers: a Markdown document and a self-contained HTML
//! document rendered from a normalized conversation. HTML output escapes
//! every text block and converts sanitized code fences into `<pre><code>`
//! blocks.

use vstd::prelude::*;
use crate::model::Conversation;
use crate::model::ConversationView;
use crate::model::Role;
use crate::model::RoleView;
use crate::model::TurnView;
use crate::sanitize::is_closer;
use crate::sanitize::is_closer_exec;
use crate::sanitize::sanitize_chat_markdown;
use crate::sanitize::sanitize_spec;
use crate::sanitize::starts_trip;
use crate::sanitize::starts_trip_exec;
use crate::sanitize::trim_bounds_from;
use crate::textops::chars_of;
use crate::textops::chars_to_string;
use crate::textops::copy_range;
use crate::textops::first_content_index;
use crate::textops::lines_spec;
use crate::textops::push_str_chars;
use crate::textops::skip_ws_from;
use crate::textops::split_lines;
use crate::textops::title_case;
use crate::textops::title_case_spec;
use crate::textops::trim_spec;

verus! {

/// What HTML escaping makes of one character: the five escaped characters
/// become entities, every other character stands unchanged.
pub open spec fn escape_char(c: char) -> Seq<char> {
    if c == '&' {
        "&amp;"@
    } else if c == '<' {
        "&lt;"@
    } else if c == '>' {
        "&gt;"@
    } else if c == '"' {
        "&quot;"@
    } else if c == '\\' {
        "&#92;"@
    } else {
        seq![c]
    }
}

/// The HTML escaping of `s[i..]`.
pub open spec fn escape_from(s: Seq<char>, i: int) -> Seq<char>
    decreases s.len() - i,
        when 0 <= i <= s.len()
{
    if i >= s.len() {
        Seq::empty()
    } else {
        escape_char(s[i]) + escape_from(s, i + 1)
    }
}

/// The HTML escaping of a whole text.
pub open spec fn html_escape_spec(s: Seq<char>) -> Seq<char> {
    escape_from(s, 0)
}

/// Appends the HTML escaping of `v` to `out`.
fn push_escaped(out: &mut Vec<char>, v: &Vec<char>)
    ensures
        final(out)@ == old(out)@ + html_escape_spec(v@),
{
    let mut i: usize = 0;
    while i < v.len()
        invariant
            i <= v@.len(),
            out@ + escape_from(v@, i as int) == old(out)@ + html_escape_spec(v@),
        decreases v@.len() - i,
    {
        let ghost before = out@;
        let c = v[i];
        if c == '&' {
            push_str_chars(out, "&amp;");
        } else if c == '<' {
            push_str_chars(out, "&lt;");
        } else if c == '>' {
            push_str_chars(out, "&gt;");
        } else if c == '"' {
            push_str_chars(out, "&quot;");
        } else if c == '\\' {
            push_str_chars(out, "&#92;");
        } else {
            out.push(c);
            assert(out@ =~= before + seq![c]);
        }
        assert(out@ == before + escape_char(v@[i as int]));
        assert(before + escape_char(v@[i as int]) + escape_from(v@, i + 1) =~= before + (
        escape_char(v@[i as int]) + escape_from(v@, i + 1)));
        i = i + 1;
    }
}

/// Escapes `& < > " \` into HTML entities; no other character is altered.
pub fn html_escape(s: &str) -> (r: String)
    ensures
        r@ == html_escape_spec(s@),
{
    let v = chars_of(s);
    let mut out: Vec<char> = Vec::new();
    push_escaped(&mut out, &v);
    chars_to_string(&out)
}

/// The HTML that opens a code block for a fence-opening line: a `<pre><code>`
/// with a language class when the line carried a language tag.
pub open spec fn fence_open_piece(l: Seq<char>) -> Seq<char> {
    let lang = trim_spec(l.skip(skip_ws_from(l, 0) + 3));
    if lang.len() == 0 {
        "<pre><code>"@
    } else {
        "<pre><code class=\"language-"@ + html_escape_spec(lang) + "\">"@
    }
}

/// The fence-aware HTML conversion of the lines from `i` on: text lines are
/// escaped and newline-terminated, a line whose trimmed start is three
/// backticks opens a code block, a bare backtick-triple line closes it, and a
/// block still open at the end is force-closed.
pub open spec fn html_fence_from(lines: Seq<Seq<char>>, i: int, in_fence: bool) -> Seq<char>
    decreases lines.len() - i,
        when 0 <= i <= lines.len()
{
    if i >= lines.len() {
        if in_fence {
            "</code></pre>\n"@
        } else {
            Seq::empty()
        }
    } else {
        let l = lines[i];
        if !in_fence {
            if starts_trip(l) {
                fence_open_piece(l) + html_fence_from(lines, i + 1, true)
            } else {
                html_escape_spec(l) + seq!['\n'] + html_fence_from(lines, i + 1, false)
            }
        } else {
            if is_closer(l) {
                "</code></pre>\n"@ + html_fence_from(lines, i + 1, false)
            } else {
                html_escape_spec(l) + seq!['\n'] + html_fence_from(lines, i + 1, true)
            }
        }
    }
}

/// The fence-aware HTML conversion of a whole text.
pub open spec fn text_to_html_spec(s: Seq<char>) -> Seq<char> {
    html_fence_from(lines_spec(s), 0, false)
}

/// Converts text with Markdown-like fences into HTML: lines outside a fence
/// are escaped with newlines kept, fence delimiters become `<pre><code>`
/// blocks (with a language class when a tag was given), and an unterminated
/// trailing fence is force-closed.
pub fn text_to_html_with_fences(s: &str) -> (r: String)
    ensures
        r@ == text_to_html_spec(s@),
{
    let v = chars_of(s);
    let lines = split_lines(&v);
    let ghost ld = lines.deep_view();
    let mut out: Vec<char> = Vec::new();
    let mut in_fence = false;
    let mut i: usize = 0;
    while i < lines.len()
        invariant
            i <= ld.len(),
            ld == lines.deep_view(),
            lines@.len() == ld.len(),
            out@ + html_fence_from(ld, i as int, in_fence) == html_fence_from(ld, 0, false),
        decreases ld.len() - i,
    {
        let ghost before = out@;
        let ghost st = in_fence;
        let line = &lines[i];
        assert(line@ == ld[i as int]);
        let ghost piece: Seq<char>;
        if !in_fence {
            if starts_trip_exec(line) {
                let n = line.len();
                let k = first_content_index(line);
                assert(k as int + 3 <= n as int);
                let (a, b) = trim_bounds_from(line, k + 3);
                if a == b {
                    push_str_chars(&mut out, "<pre><code>");
                } else {
                    push_str_chars(&mut out, "<pre><code class=\"language-");
                    let lang = copy_range(line, a, b);
                    push_escaped(&mut out, &lang);
                    push_str_chars(&mut out, "\">");
                }
                proof {
                    piece = fence_open_piece(line@);
                    assert(out@ =~= before + piece);
                }
                in_fence = true;
            } else {
                push_escaped_line(&mut out, line);
                proof {
                    piece = html_escape_spec(line@) + seq!['\n'];
                }
            }
        } else {
            if is_closer_exec(line) {
                push_str_chars(&mut out, "</code></pre>\n");
                proof {
                    piece = "</code></pre>\n"@;
                }
                in_fence = false;
            } else {
                push_escaped_line(&mut out, line);
                proof {
                    piece = html_escape_spec(line@) + seq!['\n'];
                }
            }
        }
        proof {
            assert(out@ == before + piece);
            assert(html_fence_from(ld, i as int, st) == piece + html_fence_from(
                ld,
                i + 1,
                in_fence,
            ));
            assert(before + piece + html_fence_from(ld, i + 1, in_fence) =~= before + (piece
                + html_fence_from(ld, i + 1, in_fence)));
        }
        i = i + 1;
    }
    if in_fence {
        push_str_chars(&mut out, "</code></pre>\n");
    }
    assert(out@ =~= html_fence_from(ld, 0, false));
    chars_to_string(&out)
}

/// Appends the escaped line and a newline to `out`.
fn push_escaped_line(out: &mut Vec<char>, line: &Vec<char>)
    ensures
        final(out)@ == old(out)@ + html_escape_spec(line@) + seq!['\n'],
{
    push_escaped(out, line);
    out.push('\n');
    assert(out@ =~= old(out)@ + html_escape_spec(line@) + seq!['\n']);
}

/// The display label of a role: the fixed names, or the title-cased stored
/// string of an unrecognized role.
pub open spec fn role_label(r: RoleView) -> Seq<char> {
    match r {
        RoleView::User => "User"@,
        RoleView::Assistant => "Assistant"@,
        RoleView::System => "System"@,
        RoleView::Other(s) => title_case_spec(s),
    }
}

/// Appends the display label of `role` to `out`.
fn push_role_label(out: &mut Vec<char>, role: &Role)
    ensures
        final(out)@ == old(out)@ + role_label(role@),
{
    match role {
        Role::User => push_str_chars(out, "User"),
        Role::Assistant => push_str_chars(out, "Assistant"),
        Role::System => push_str_chars(out, "System"),
        Role::Other(r) => {
            let lab = title_case(r.as_str());
            push_str_chars(out, lab.as_str());
        },
    }
}

/// One turn rendered as Markdown.
pub open spec fn md_turn(t: TurnView) -> Seq<char> {
    "**"@ + role_label(t.role) + "**  \n"@ + t.content + "\n\n"@
}

/// The turns from `i` on rendered as Markdown.
pub open spec fn md_turns_from(ts: Seq<TurnView>, i: int) -> Seq<char>
    decreases ts.len() - i,
        when 0 <= i <= ts.len()
{
    if i >= ts.len() {
        Seq::empty()
    } else {
        md_turn(ts[i]) + md_turns_from(ts, i + 1)
    }
}

/// A conversation rendered as Markdown: an optional raw `# System` section,
/// then each turn as a bold role label and its content.
pub open spec fn to_markdown_spec(c: ConversationView) -> Seq<char> {
    (match c.system {
        Some(s) => "# System\n"@ + s + "\n\n---\n\n"@,
        None => Seq::<char>::empty(),
    }) + md_turns_from(c.turns, 0)
}

/// Renders the conversation as a Markdown document: the system section is
/// emitted raw (Markdown consumers tolerate fences), each turn as
/// `**Role**  \ncontent\n\n`.
pub fn to_markdown(conv: &Conversation) -> (r: String)
    ensures
        r@ == to_markdown_spec(conv@),
{
    let mut out: Vec<char> = Vec::new();
    match &conv.system {
        Some(sys) => {
            push_str_chars(&mut out, "# System\n");
            push_str_chars(&mut out, sys.as_str());
            push_str_chars(&mut out, "\n\n---\n\n");
        },
        None => {},
    }
    let ghost head = out@;
    let ghost tv = conv@.turns;
    let mut i: usize = 0;
    while i < conv.turns.len()
        invariant
            i <= tv.len(),
            tv == conv@.turns,
            conv.turns@.len() == tv.len(),
            out@ + md_turns_from(tv, i as int) == head + md_turns_from(tv, 0),
        decreases tv.len() - i,
    {
        let ghost before = out@;
        let turn = &conv.turns[i];
        assert(turn@ == tv[i as int]);
        push_str_chars(&mut out, "**");
        push_role_label(&mut out, &turn.role);
        push_str_chars(&mut out, "**  \n");
        push_str_chars(&mut out, turn.content.as_str());
        push_str_chars(&mut out, "\n\n");
        proof {
            assert(out@ == before + "**"@ + role_label(tv[i as int].role) + "**  \n"@
                + tv[i as int].content + "\n\n"@);
            assert(before + "**"@ + role_label(tv[i as int].role) + "**  \n"@
                + tv[i as int].content + "\n\n"@ + md_turns_from(tv, i + 1) =~= before + (md_turn(
                tv[i as int],
            ) + md_turns_from(tv, i + 1)));
        }
        i = i + 1;
    }
    assert(md_turns_from(tv, tv.len() as int) =~= Seq::<char>::empty());
    assert(out@ =~= head + md_turns_from(tv, 0));
    assert(out@ =~= to_markdown_spec(conv@));
    chars_to_string(&out)
}

/// The embedded stylesheet and document head; only color tokens depend on the
/// theme.
pub open spec fn html_head(dark: bool) -> Seq<char> {
    "<!DOCTYPE html><html lang=\"en\"><head><meta charset=\"utf-8\">\n"@
        + "<meta name=\"viewport\" content=\"width=device-width, initial-scale=1\">\n"@
        + "<title>Chat Export</title>\n<style>\n"@ + "body { background:"@ + (if dark {
        "#121212"@
    } else {
        "#ffffff"@
    }) + "; color:"@ + (if dark {
        "#eaeaea"@
    } else {
        "#222222"@
    })
        + "; font: 14px/1.5 -apple-system, BlinkMacSystemFont, 'Segoe UI', Roboto, 'Noto Sans', 'Hiragino Sans', 'Yu Gothic UI', Arial, sans-serif; margin:0; }\n"@
        + ".container{ max-width: 940px; margin:24px auto; padding:0 16px;}\n"@
        + ".system{ border:1px solid rgba(127,127,127,0.25); border-radius:8px; padding:10px 12px; margin-bottom:10px;}\n"@
        + ".row{ display:flex; align-items:flex-start; gap:8px; margin:10px 0; }\n.bubble{ border-radius:14px; padding:10px 12px; max-width:800px; display:inline-block; overflow-wrap:anywhere; word-break:break-word; white-space:pre-wrap; box-sizing:border-box; }\n.assist .bubble{ background:"@
        + (if dark {
        "#2d2d2d"@
    } else {
        "#f6f6f6"@
    }) + "; }\n.user .bubble{ background:"@ + (if dark {
        "#14503c"@
    } else {
        "#dbf7e6"@
    }) + "; }\n"@
        + ".avatar{ width:28px; height:28px; border-radius:50%; display:flex; align-items:center; justify-content:center; font-weight:600; font-size:14px; }\n.user .avatar{ background:"@
        + (if dark {
        "#30c878"@
    } else {
        "#10a37f"@
    }) + "; color:#ffffff; }\n.assist .avatar{ background:"@ + (if dark {
        "#646464"@
    } else {
        "#c8c8c8"@
    }) + "; color:"@ + (if dark {
        "#ffffff"@
    } else {
        "#000000"@
    }) + "; }\n"@ + ".assist{ justify-content:flex-start;}\n"@
        + ".user{ justify-content:flex-end;}\n"@ + ".content{ }\n"@
        + ".role{ font-weight:600; margin-bottom:6px; opacity:0.8;}\n"@
        + ".bubble pre, .system pre{ background: rgba(127,127,127,0.15); border:1px solid rgba(127,127,127,0.25); border-radius:8px; padding:10px; overflow:auto; white-space:pre; margin:8px 0 0 0; }\n"@
        + ".bubble code{ font-family: ui-monospace, SFMono-Regular, Menlo, Monaco, Consolas, \"Liberation Mono\", \"Courier New\", monospace; font-size: 0.95em; }\n"@
        + "</style></head><body><div class=\"container\">\n"@
}

/// A text block as it appears in the HTML body: sanitized, then fence-aware
/// converted, inside a content division.
pub open spec fn html_content_div(c: Seq<char>) -> Seq<char> {
    "<div class=\"content\">"@ + text_to_html_spec(sanitize_spec(c)) + "</div>\n"@
}

/// The system card, when a system preamble is present.
pub open spec fn html_system(sys: Option<Seq<char>>) -> Seq<char> {
    match sys {
        Some(s) => "<div class=\"system\">\n<div class=\"role\">System</div>\n"@
            + html_content_div(s) + "</div>\n"@,
        None => Seq::<char>::empty(),
    }
}

/// One turn as an HTML row: user turns put the bubble before the avatar,
/// everything else the avatar first; system and unrecognized roles carry a
/// role badge in the bubble.
pub open spec fn html_turn(t: TurnView) -> Seq<char> {
    match t.role {
        RoleView::User => "<div class=\"row user\">\n"@ + "<div class=\"bubble\">\n"@
            + html_content_div(t.content) + "</div>\n"@ + "<div class=\"avatar\">"@
            + html_escape_spec("U"@) + "</div>\n"@ + "</div>\n"@,
        RoleView::Assistant => "<div class=\"row assist\">\n"@ + "<div class=\"avatar\">"@
            + html_escape_spec("A"@) + "</div>\n"@ + "<div class=\"bubble\">\n"@
            + html_content_div(t.content) + "</div>\n"@ + "</div>\n"@,
        RoleView::System => "<div class=\"row assist\">\n"@ + "<div class=\"avatar\">"@
            + html_escape_spec("S"@) + "</div>\n"@ + "<div class=\"bubble\">\n"@
            + "<div class=\"role\">"@ + html_escape_spec("System"@) + "</div>\n"@
            + html_content_div(t.content) + "</div>\n"@ + "</div>\n"@,
        RoleView::Other(r) => "<div class=\"row assist\">\n"@ + "<div class=\"avatar\">"@
            + html_escape_spec("?"@) + "</div>\n"@ + "<div class=\"bubble\">\n"@
            + "<div class=\"role\">"@ + html_escape_spec(title_case_spec(r)) + "</div>\n"@
            + html_content_div(t.content) + "</div>\n"@ + "</div>\n"@,
    }
}

/// The turns from `i` on as HTML rows.
pub open spec fn html_turns_from(ts: Seq<TurnView>, i: int) -> Seq<char>
    decreases ts.len() - i,
        when 0 <= i <= ts.len()
{
    if i >= ts.len() {
        Seq::empty()
    } else {
        html_turn(ts[i]) + html_turns_from(ts, i + 1)
    }
}

/// The whole HTML document for a conversation.
pub open spec fn to_html_spec(c: ConversationView, dark: bool) -> Seq<char> {
    html_head(dark) + html_system(c.system) + html_turns_from(c.turns, 0)
        + "</div></body></html>\n"@
}

/// Appends one sanitized, fence-converted content division to `out`.
fn push_content_div(out: &mut Vec<char>, content: &String)
    ensures
        final(out)@ == old(out)@ + html_content_div(content@),
{
    push_str_chars(out, "<div class=\"content\">");
    let sanitized = sanitize_chat_markdown(content.as_str());
    let converted = text_to_html_with_fences(sanitized.as_str());
    push_str_chars(out, converted.as_str());
    push_str_chars(out, "</div>\n");
    assert(out@ =~= old(out)@ + html_content_div(content@));
}

/// Renders the conversation as a self-contained HTML document with an
/// embedded stylesheet. Every text block is sanitized and escaped; code
/// fences become `<pre><code>` blocks. The theme flag only switches CSS color
/// tokens, not structure.
pub fn to_html(conv: &Conversation, dark: bool) -> (r: String)
    ensures
        r@ == to_html_spec(conv@, dark),
{
    let mut out: Vec<char> = Vec::new();
    push_str_chars(&mut out, "<!DOCTYPE html><html lang=\"en\"><head><meta charset=\"utf-8\">\n");
    push_str_chars(&mut out, "<meta name=\"viewport\" content=\"width=device-width, initial-scale=1\">\n");
    push_str_chars(&mut out, "<title>Chat Export</title>\n<style>\n");
    push_str_chars(&mut out, "body { background:");
    push_str_chars(&mut out, if dark { "#121212" } else { "#ffffff" });
    push_str_chars(&mut out, "; color:");
    push_str_chars(&mut out, if dark { "#eaeaea" } else { "#222222" });
    push_str_chars(
        &mut out,
        "; font: 14px/1.5 -apple-system, BlinkMacSystemFont, 'Segoe UI', Roboto, 'Noto Sans', 'Hiragino Sans', 'Yu Gothic UI', Arial, sans-serif; margin:0; }\n",
    );
    push_str_chars(&mut out, ".container{ max-width: 940px; margin:24px auto; padding:0 16px;}\n");
    push_str_chars(
        &mut out,
        ".system{ border:1px solid rgba(127,127,127,0.25); border-radius:8px; padding:10px 12px; margin-bottom:10px;}\n",
    );
    push_str_chars(
        &mut out,
        ".row{ display:flex; align-items:flex-start; gap:8px; margin:10px 0; }\n.bubble{ border-radius:14px; padding:10px 12px; max-width:800px; display:inline-block; overflow-wrap:anywhere; word-break:break-word; white-space:pre-wrap; box-sizing:border-box; }\n.assist .bubble{ background:",
    );
    push_str_chars(&mut out, if dark { "#2d2d2d" } else { "#f6f6f6" });
    push_str_chars(&mut out, "; }\n.user .bubble{ background:");
    push_str_chars(&mut out, if dark { "#14503c" } else { "#dbf7e6" });
    push_str_chars(&mut out, "; }\n");
    push_str_chars(
        &mut out,
        ".avatar{ width:28px; height:28px; border-radius:50%; display:flex; align-items:center; justify-content:center; font-weight:600; font-size:14px; }\n.user .avatar{ background:",
    );
    push_str_chars(&mut out, if dark { "#30c878" } else { "#10a37f" });
    push_str_chars(&mut out, "; color:#ffffff; }\n.assist .avatar{ background:");
    push_str_chars(&mut out, if dark { "#646464" } else { "#c8c8c8" });
    push_str_chars(&mut out, "; color:");
    push_str_chars(&mut out, if dark { "#ffffff" } else { "#000000" });
    push_str_chars(&mut out, "; }\n");
    push_str_chars(&mut out, ".assist{ justify-content:flex-start;}\n");
    push_str_chars(&mut out, ".user{ justify-content:flex-end;}\n");
    push_str_chars(&mut out, ".content{ }\n");
    push_str_chars(&mut out, ".role{ font-weight:600; margin-bottom:6px; opacity:0.8;}\n");
    push_str_chars(
        &mut out,
        ".bubble pre, .system pre{ background: rgba(127,127,127,0.15); border:1px solid rgba(127,127,127,0.25); border-radius:8px; padding:10px; overflow:auto; white-space:pre; margin:8px 0 0 0; }\n",
    );
    push_str_chars(
        &mut out,
        ".bubble code{ font-family: ui-monospace, SFMono-Regular, Menlo, Monaco, Consolas, \"Liberation Mono\", \"Courier New\", monospace; font-size: 0.95em; }\n",
    );
    push_str_chars(&mut out, "</style></head><body><div class=\"container\">\n");
    assert(out@ =~= html_head(dark));
    match &conv.system {
        Some(sys) => {
            let ghost before = out@;
            push_str_chars(&mut out, "<div class=\"system\">\n<div class=\"role\">System</div>\n");
            push_content_div(&mut out, sys);
            push_str_chars(&mut out, "</div>\n");
            assert(out@ =~= before + html_system(conv@.system));
        },
        None => {},
    }
    let ghost head = out@;
    assert(head == html_head(dark) + html_system(conv@.system));
    let ghost tv = conv@.turns;
    let mut i: usize = 0;
    while i < conv.turns.len()
        invariant
            i <= tv.len(),
            tv == conv@.turns,
            conv.turns@.len() == tv.len(),
            out@ + html_turns_from(tv, i as int) == head + html_turns_from(tv, 0),
        decreases tv.len() - i,
    {
        let ghost before = out@;
        let turn = &conv.turns[i];
        assert(turn@ == tv[i as int]);
        push_html_turn(&mut out, turn);
        proof {
            assert(html_turns_from(tv, i as int) == html_turn(tv[i as int]) + html_turns_from(
                tv,
                i + 1,
            ));
            assert(before + html_turn(tv[i as int]) + html_turns_from(tv, i + 1) =~= before + (
            html_turn(tv[i as int]) + html_turns_from(tv, i + 1)));
        }
        i = i + 1;
    }
    assert(html_turns_from(tv, tv.len() as int) =~= Seq::<char>::empty());
    assert(out@ =~= head + html_turns_from(tv, 0));
    push_str_chars(&mut out, "</div></body></html>\n");
    assert(out@ =~= to_html_spec(conv@, dark));
    chars_to_string(&out)
}

/// Appends one turn's HTML row to `out`.
#[verifier::rlimit(60)]
fn push_html_turn(out: &mut Vec<char>, turn: &crate::model::Turn)
    ensures
        final(out)@ == old(out)@ + html_turn(turn@),
{
    match &turn.role {
            Role::User => {
                push_str_chars(out, "<div class=\"row user\">\n");
                push_str_chars(out, "<div class=\"bubble\">\n");
                push_content_div(out, &turn.content);
                push_str_chars(out, "</div>\n");
                push_str_chars(out, "<div class=\"avatar\">");
                let e = html_escape("U");
                push_str_chars(out, e.as_str());
                push_str_chars(out, "</div>\n");
                push_str_chars(out, "</div>\n");
            },
            Role::Assistant => {
                push_str_chars(out, "<div class=\"row assist\">\n");
                push_str_chars(out, "<div class=\"avatar\">");
                let e = html_escape("A");
                push_str_chars(out, e.as_str());
                push_str_chars(out, "</div>\n");
                push_str_chars(out, "<div class=\"bubble\">\n");
                push_content_div(out, &turn.content);
                push_str_chars(out, "</div>\n");
                push_str_chars(out, "</div>\n");
            },
            Role::System => {
                push_str_chars(out, "<div class=\"row assist\">\n");
                push_str_chars(out, "<div class=\"avatar\">");
                let e = html_escape("S");
                push_str_chars(out, e.as_str());
                push_str_chars(out, "</div>\n");
                push_str_chars(out, "<div class=\"bubble\">\n");
                push_str_chars(out, "<div class=\"role\">");
                let b = html_escape("System");
                push_str_chars(out, b.as_str());
                push_str_chars(out, "</div>\n");
                push_content_div(out, &turn.content);
                push_str_chars(out, "</div>\n");
                push_str_chars(out, "</div>\n");
            },
            Role::Other(r) => {
                push_str_chars(out, "<div class=\"row assist\">\n");
                push_str_chars(out, "<div class=\"avatar\">");
                let e = html_escape("?");
                push_str_chars(out, e.as_str());
                push_str_chars(out, "</div>\n");
                push_str_chars(out, "<div class=\"bubble\">\n");
                push_str_chars(out, "<div class=\"role\">");
                let lab = title_case(r.as_str());
                let b = html_escape(lab.as_str());
                push_str_chars(out, b.as_str());
                push_str_chars(out, "</div>\n");
                push_content_div(out, &turn.content);
                push_str_chars(out, "</div>\n");
                push_str_chars(out, "</div>\n");
            },
        }
    assert(out@ =~= old(out)@ + html_turn(turn@));
}

} // verus!
