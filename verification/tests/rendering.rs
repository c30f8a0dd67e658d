use chatlog::export::html_escape;
use chatlog::export::text_to_html_with_fences;
use chatlog::export::to_html;
use chatlog::export::to_markdown;
use chatlog::model::Conversation;
use chatlog::model::Role;
use chatlog::model::Turn;
use chatlog::sanitize::sanitize_chat_markdown;
use chatlog::textops::short_hash;
use chatlog::textops::title_case;
use chatlog::textops::trim_chat_whitespace;

fn conv(system: Option<&str>, turns: Vec<(Role, &str)>) -> Conversation {
    Conversation {
        system: system.map(|s| s.to_string()),
        turns: turns
            .into_iter()
            .map(|(role, c)| Turn { role, content: c.to_string() })
            .collect(),
        warnings: Vec::new(),
    }
}

#[test]
fn sanitize_idempotent_on_samples() {
    let samples = [
        "hello world",
        "```python\nprint(1)\n```\nafter",
        "```python\nprint(1)",
        "a ```\nb",
        "``` not a fence.",
        "text```",
        "```\nraw\n```",
        "one\r\ntwo\r\n",
        "",
    ];
    for s in samples {
        let once = sanitize_chat_markdown(s);
        let twice = sanitize_chat_markdown(&once);
        assert_eq!(once, twice, "sanitizer not idempotent on {s:?}");
    }
}

#[test]
fn sanitize_closes_unterminated_fence() {
    assert_eq!(sanitize_chat_markdown("```python\nprint(1)"), "```python\nprint(1)\n```");
}

#[test]
fn sanitize_fence_balance_on_samples() {
    let samples = ["```py\nx", "```\na\n```\n```", "plain", "```a\n```\n```b\ncode"];
    for s in samples {
        let out = sanitize_chat_markdown(s);
        let mut in_fence = false;
        for line in out.lines() {
            let t = line.trim_start();
            if in_fence {
                if t.starts_with("```") && t.trim() == "```" {
                    in_fence = false;
                }
            } else if t.starts_with("```") {
                in_fence = true;
            }
        }
        assert!(!in_fence, "unbalanced fences in {out:?}");
    }
}

#[test]
fn sanitize_defuses_narrative_fence_start() {
    assert_eq!(sanitize_chat_markdown("``` code block."), "``\u{200b}` code block.");
}

#[test]
fn sanitize_defuses_trailing_backticks() {
    assert_eq!(sanitize_chat_markdown("see the code```"), "see the code``\u{200b}`");
}

#[test]
fn sanitize_accepts_language_tags() {
    assert_eq!(sanitize_chat_markdown("```c++\nx\n```"), "```c++\nx\n```");
    assert_eq!(sanitize_chat_markdown("```f#\nx\n```"), "```f#\nx\n```");
}

#[test]
fn sanitize_passes_fence_content_through() {
    let s = "```\nthis ``` stays\nend```\n```";
    assert_eq!(sanitize_chat_markdown(s), s);
}

#[test]
fn html_escape_covers_the_five_characters() {
    assert_eq!(html_escape("a&b<c>\"d\\e'f"), "a&amp;b&lt;c&gt;&quot;d&#92;e'f");
}

#[test]
fn fences_become_pre_code_blocks() {
    let sanitized = sanitize_chat_markdown("```python\nprint(1)");
    let html = text_to_html_with_fences(&sanitized);
    assert_eq!(html, "<pre><code class=\"language-python\">print(1)\n</code></pre>\n");
}

#[test]
fn fence_without_language_has_no_class() {
    let html = text_to_html_with_fences("```\nx\n```");
    assert_eq!(html, "<pre><code>x\n</code></pre>\n");
}

#[test]
fn unterminated_html_fence_is_force_closed() {
    let html = text_to_html_with_fences("```rust\nlet x = 1;");
    assert_eq!(html, "<pre><code class=\"language-rust\">let x = 1;\n</code></pre>\n");
}

#[test]
fn text_lines_are_escaped_and_newline_preserved() {
    let html = text_to_html_with_fences("a<b\nc&d");
    assert_eq!(html, "a&lt;b\nc&amp;d\n");
}

#[test]
fn markdown_export_template() {
    let c = conv(None, vec![(Role::User, "hi"), (Role::Other("tool".to_string()), "out")]);
    assert_eq!(to_markdown(&c), "**User**  \nhi\n\n**Tool**  \nout\n\n");
}

#[test]
fn markdown_export_system_section() {
    let c = conv(Some("sys"), vec![]);
    assert_eq!(to_markdown(&c), "# System\nsys\n\n---\n\n");
}

#[test]
fn html_export_structure() {
    let c = conv(Some("rules"), vec![(Role::User, "q"), (Role::Assistant, "```py\na=1\n```")]);
    let html = to_html(&c, true);
    assert!(html.starts_with("<!DOCTYPE html>"));
    assert!(html.ends_with("</div></body></html>\n"));
    assert!(html.contains("<div class=\"system\">"));
    assert!(html.contains("<div class=\"row user\">"));
    assert!(html.contains("<div class=\"row assist\">"));
    assert!(html.contains("<pre><code class=\"language-py\">a=1\n</code></pre>"));
}

#[test]
fn html_export_escapes_content() {
    let c = conv(None, vec![(Role::User, "<script>&\"\\")]);
    let html = to_html(&c, false);
    assert!(html.contains("&lt;script&gt;&amp;&quot;&#92;"));
    assert!(!html.contains("<script>"));
}

#[test]
fn html_export_theme_switches_colors() {
    let c = conv(None, vec![]);
    let dark = to_html(&c, true);
    let light = to_html(&c, false);
    assert!(dark.contains("background:#121212"));
    assert!(light.contains("background:#ffffff"));
}

#[test]
fn html_export_badges_unknown_roles() {
    let c = conv(None, vec![(Role::Other("critic".to_string()), "x")]);
    let html = to_html(&c, true);
    assert!(html.contains("<div class=\"role\">Critic</div>"));
}

#[test]
fn title_case_examples() {
    assert_eq!(title_case("assistant"), "Assistant");
    assert_eq!(title_case("aBC dEF"), "Abc def");
    assert_eq!(title_case(""), "");
}

#[test]
fn trim_chat_whitespace_examples() {
    assert_eq!(trim_chat_whitespace("\r\n  code\n\n"), "  code");
    assert_eq!(trim_chat_whitespace("abc \t\n"), "abc");
    assert_eq!(trim_chat_whitespace(" abc"), " abc");
}

#[test]
fn short_hash_is_fnv1a() {
    assert_eq!(short_hash(""), 0xcbf29ce484222325);
    assert_eq!(short_hash("a"), 0xaf63dc4c8601ec8c);
    assert_ne!(short_hash("a"), short_hash("b"));
}
