use chatlog::model::LoadError;
use chatlog::model::Role;
use chatlog::normalize::normalize;
use chatlog::parse::detect_and_parse;
use chatlog::parse::load_from_bytes;
use chatlog::parse::parse_json;
use chatlog::parse::parse_jsonl;
use chatlog::parse::parse_jsonl_with_errors;
use chatlog::export::to_markdown;
use chatlog::model::RawRecord;

fn rec(role: &str, content: &str) -> RawRecord {
    RawRecord { role: role.to_string(), content: content.to_string() }
}

#[test]
fn end_to_end_array_example() {
    let input = br#"[{"role":"system","content":"Be terse."},{"role":"user","content":"Hi"},{"role":"assistant","content":"Hello!"}]"#;
    let conv = load_from_bytes(input).unwrap();
    assert_eq!(conv.system.as_deref(), Some("Be terse."));
    assert_eq!(conv.turns.len(), 2);
    assert!(matches!(conv.turns[0].role, Role::User));
    assert_eq!(conv.turns[0].content, "Hi");
    assert!(matches!(conv.turns[1].role, Role::Assistant));
    assert_eq!(conv.turns[1].content, "Hello!");
    assert!(conv.warnings.is_empty());
    let md = to_markdown(&conv);
    assert!(md.starts_with("# System\nBe terse.\n\n---\n\n**User**  \nHi\n\n**Assistant**  \nHello!\n\n"));
}

#[test]
fn non_utf8_is_fatal() {
    let r = load_from_bytes(&[0xff, 0xfe, 0x20]);
    assert!(matches!(r, Err(LoadError::NonUtf8)));
    assert_eq!(LoadError::NonUtf8.message(), "Non-UTF8 file");
}

#[test]
fn malformed_array_is_fatal() {
    let r = load_from_bytes(b"[{\"role\":\"user\"}]");
    assert!(matches!(r, Err(LoadError::ArrayParse)));
    assert_eq!(LoadError::ArrayParse.message(), "JSON array parse error");
}

#[test]
fn array_with_extra_fields_is_tolerated() {
    let conv = load_from_bytes(br#"[{"role":"user","content":"x","id":7}]"#).unwrap();
    assert_eq!(conv.turns.len(), 1);
    assert_eq!(conv.turns[0].content, "x");
}

#[test]
fn array_with_wrong_type_is_fatal() {
    let r = parse_json(r#"[{"role":"user","content":3}]"#);
    assert!(matches!(r, Err(LoadError::ArrayParse)));
}

#[test]
fn jsonl_detection_heuristic_misdetects_leading_bracket() {
    // JSONL whose first line happens to start with '[' is treated as one JSON
    // array, by design; here that array parse fails fatally.
    let input = b"[1,2]\n{\"role\":\"user\",\"content\":\"x\"}";
    let r = load_from_bytes(input);
    assert!(matches!(r, Err(LoadError::ArrayParse)));
}

#[test]
fn partial_jsonl_tolerance_counts_failures() {
    let input = b"{\"role\":\"user\",\"content\":\"a\"}\nnot json\n{\"role\":\"assistant\",\"content\":\"b\"}\n{broken\n";
    let conv = load_from_bytes(input).unwrap();
    assert!(conv.system.is_none());
    assert_eq!(conv.turns.len(), 2);
    assert_eq!(conv.turns[0].content, "a");
    assert_eq!(conv.turns[1].content, "b");
    assert_eq!(conv.warnings, vec!["2 JSONL line(s) failed to parse".to_string()]);
}

#[test]
fn jsonl_blank_lines_are_skipped_silently() {
    let input = b"\n{\"role\":\"user\",\"content\":\"a\"}\n\n   \n{\"role\":\"assistant\",\"content\":\"b\"}\n";
    let conv = load_from_bytes(input).unwrap();
    assert_eq!(conv.turns.len(), 2);
    assert!(conv.warnings.is_empty());
}

#[test]
fn jsonl_parser_reports_count_and_order() {
    let (recs, failed) = parse_jsonl_with_errors(
        "{\"role\":\"user\",\"content\":\"1\"}\nxx\n{\"role\":\"user\",\"content\":\"2\"}",
    );
    assert_eq!(failed, 1);
    assert_eq!(recs.len(), 2);
    assert_eq!(recs[0].content, "1");
    assert_eq!(recs[1].content, "2");
    let silent = parse_jsonl("{\"role\":\"user\",\"content\":\"1\"}\nxx");
    assert_eq!(silent.len(), 1);
}

#[test]
fn oversize_input_is_processed_with_warning() {
    let mut input = Vec::new();
    let line = b"{\"role\":\"user\",\"content\":\"aaaaaaaaaaaaaaaaaaaaaaaaaaaaaaaaaaaaaaaa\"}\n";
    while input.len() <= 20 * 1024 * 1024 {
        input.extend_from_slice(line);
    }
    let conv = load_from_bytes(&input).unwrap();
    assert!(!conv.turns.is_empty());
    assert_eq!(conv.warnings, vec!["File larger than ~20MB".to_string()]);
}

#[test]
fn role_case_insensitive() {
    let conv = normalize(vec![rec("USER", "a"), rec("User", "b"), rec("user", "c"), rec("ASSISTANT", "d")]);
    assert!(matches!(conv.turns[0].role, Role::User));
    assert!(matches!(conv.turns[1].role, Role::User));
    assert!(matches!(conv.turns[2].role, Role::User));
    assert!(matches!(conv.turns[3].role, Role::Assistant));
}

#[test]
fn unknown_role_is_preserved_verbatim() {
    let conv = normalize(vec![rec("Tool-Output", "x")]);
    match &conv.turns[0].role {
        Role::Other(label) => assert_eq!(label, "Tool-Output"),
        _ => panic!("expected Other role"),
    }
}

#[test]
fn order_preservation() {
    let conv = normalize(vec![rec("user", "1"), rec("assistant", "2"), rec("user", "3"), rec("judge", "4")]);
    let contents: Vec<&str> = conv.turns.iter().map(|t| t.content.as_str()).collect();
    assert_eq!(contents, vec!["1", "2", "3", "4"]);
}

#[test]
fn system_demotion() {
    let conv = normalize(vec![rec("system", "first"), rec("SYSTEM", "second"), rec("user", "hi")]);
    assert_eq!(conv.system.as_deref(), Some("first"));
    assert_eq!(conv.turns.len(), 2);
    match &conv.turns[0].role {
        Role::Other(label) => assert_eq!(label, "System (extra)"),
        _ => panic!("expected demoted system role"),
    }
    assert_eq!(conv.turns[0].content, "second");
}

#[test]
fn empty_content_placeholder() {
    let conv = normalize(vec![rec("user", ""), rec("user", " \t \n"), rec("user", "\u{00a0}")]);
    assert_eq!(conv.turns[0].content, "(empty)");
    assert_eq!(conv.turns[1].content, "(empty)");
    assert_eq!(conv.turns[2].content, "(empty)");
}

#[test]
fn content_trimming_keeps_indentation() {
    let conv = normalize(vec![rec("user", "\r\n\n  indented code  \n\n")]);
    assert_eq!(conv.turns[0].content, "  indented code");
}

#[test]
fn detect_and_parse_array_mode_has_no_warnings() {
    let (recs, warnings) = detect_and_parse("  [ {\"role\":\"user\",\"content\":\"x\"} ]").unwrap();
    assert_eq!(recs.len(), 1);
    assert!(warnings.is_empty());
}
