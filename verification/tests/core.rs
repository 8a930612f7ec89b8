use logscope::message::{extract_text_content, get_messages, has_text_content, Content, MessageContent};
use logscope::search::{create_preview, search_messages, SearchResult};
use logscope::session::calculate_session_stats;
use logscope::tree::{ProjectDir, SessionFile};
use logscope::ext::TextBlock;

fn s(x: &str) -> String {
    x.to_string()
}

#[test]
fn round_trip_plain_user_message() {
    let lines = vec![s(r#"{"type":"user","message":{"role":"user","content":"hello"}}"#)];
    let msgs = get_messages(&lines);
    assert_eq!(msgs.len(), 1);
    assert_eq!(msgs[0].msg_type.as_deref(), Some("user"));
    let text = extract_text_content(&msgs[0].message);
    assert_eq!(text, "hello");
}

#[test]
fn blank_text_block_is_not_listed() {
    let lines = vec![s(
        r#"{"type":"user","message":{"role":"user","content":[{"type":"text","text":"  "}]}}"#,
    )];
    let msgs = get_messages(&lines);
    assert_eq!(msgs.len(), 0);
}

#[test]
fn nonblank_text_block_is_listed() {
    let lines = vec![s(
        r#"{"type":"assistant","message":{"role":"assistant","content":[{"type":"tool_use","name":"Edit"},{"type":"text","text":"done"}]}}"#,
    )];
    let msgs = get_messages(&lines);
    assert_eq!(msgs.len(), 1);
    assert_eq!(extract_text_content(&msgs[0].message), "done");
}

#[test]
fn legacy_schema_user_line_is_synthesized() {
    let lines = vec![
        s(r#"{"type":"user","timestamp":"2024-01-02T03:04:05Z","content":"from the old shape"}"#),
        s(r#"{"type":"assistant","content":"ignored legacy assistant"}"#),
    ];
    let msgs = get_messages(&lines);
    assert_eq!(msgs.len(), 1);
    assert_eq!(msgs[0].timestamp.as_deref(), Some("2024-01-02T03:04:05Z"));
    assert_eq!(extract_text_content(&msgs[0].message), "from the old shape");
}

#[test]
fn unparseable_lines_are_skipped_silently() {
    let lines = vec![s("not json at all"), s(""), s("   "), s(r#"{"type":"summary"}"#)];
    let msgs = get_messages(&lines);
    assert_eq!(msgs.len(), 0);
}

#[test]
fn message_listing_keeps_file_order() {
    let lines = vec![
        s(r#"{"type":"user","message":{"role":"user","content":"first"}}"#),
        s(r#"{"type":"assistant","message":{"role":"assistant","content":"second"}}"#),
    ];
    let msgs = get_messages(&lines);
    assert_eq!(msgs.len(), 2);
    assert_eq!(extract_text_content(&msgs[0].message), "first");
    assert_eq!(extract_text_content(&msgs[1].message), "second");
}

#[test]
fn session_stats_count_messages_and_tokens() {
    let lines = vec![
        s(r#"{"type":"user","message":{"role":"user","content":"hi"}}"#),
        s(r#"{"message":{"usage":{"input_tokens":10,"output_tokens":5}}}"#),
        s(r#"{"type":"noise"}"#),
    ];
    let (input, output, count) = calculate_session_stats(&lines);
    assert_eq!(input, 10);
    assert_eq!(output, 5);
    assert_eq!(count, 1);
}

#[test]
fn token_usage_counts_without_qualifying_type() {
    // The usage line has no "type" at all; it still contributes tokens but
    // no message.
    let lines = vec![s(r#"{"message":{"usage":{"input_tokens":7,"output_tokens":3}}}"#)];
    let (input, output, count) = calculate_session_stats(&lines);
    assert_eq!((input, output, count), (7, 3, 0));
}

#[test]
fn usage_defaults_missing_counters_to_zero() {
    let lines = vec![s(r#"{"message":{"usage":{"output_tokens":4}}}"#)];
    let (input, output, _) = calculate_session_stats(&lines);
    assert_eq!((input, output), (0, 4));
}

#[test]
fn stats_are_invariant_under_line_reordering() {
    let mut lines = vec![
        s(r#"{"type":"user","message":{"role":"user","content":"a"}}"#),
        s(r#"{"message":{"usage":{"input_tokens":1,"output_tokens":2}}}"#),
        s(r#"{"type":"assistant","message":{"role":"assistant","content":"b"}}"#),
        s(r#"{"message":{"usage":{"input_tokens":30,"output_tokens":40}}}"#),
    ];
    let forward = calculate_session_stats(&lines);
    lines.reverse();
    let backward = calculate_session_stats(&lines);
    assert_eq!(forward, backward);
}

#[test]
fn has_text_content_rules() {
    assert!(!has_text_content(&None));
    assert!(!has_text_content(&Some(MessageContent { role: None, content: None })));
    assert!(!has_text_content(&Some(MessageContent {
        role: None,
        content: Some(Content::Text("   ".to_string())),
    })));
    assert!(has_text_content(&Some(MessageContent {
        role: None,
        content: Some(Content::Text("x".to_string())),
    })));
    assert!(!has_text_content(&Some(MessageContent {
        role: None,
        content: Some(Content::Blocks(vec![TextBlock { kind: s("image"), text: Some(s("hi")) }])),
    })));
    assert!(has_text_content(&Some(MessageContent {
        role: None,
        content: Some(Content::Blocks(vec![
            TextBlock { kind: s("text"), text: Some(s("hi")) },
        ])),
    })));
}

#[test]
fn extract_joins_text_blocks_with_newlines() {
    let mc = Some(MessageContent {
        role: None,
        content: Some(Content::Blocks(vec![
            TextBlock { kind: s("text"), text: Some(s("one")) },
            TextBlock { kind: s("tool_use"), text: None },
            TextBlock { kind: s("text"), text: Some(s("two")) },
        ])),
    });
    assert_eq!(extract_text_content(&mc), "one\ntwo");
}

#[test]
fn preview_window_has_both_ellipses() {
    // 31 characters of left context, the match, then a long right side: the
    // window starts after position 0 and stops before the end, so both
    // markers appear and the match sits inside the snippet.
    let text = format!("{}foo{}", "x".repeat(31), "y".repeat(90));
    let p = create_preview(&text, "foo", 100);
    assert!(p.starts_with("..."));
    assert!(p.ends_with("..."));
    assert!(p.contains("foo"));
    // 30 characters of left context and 70 past the match are kept.
    assert_eq!(p, format!("...{}foo{}...", "x".repeat(30), "y".repeat(70)));
}

#[test]
fn preview_window_at_text_start_has_no_left_marker() {
    let text = format!("{}foo{}", "x".repeat(30), "y".repeat(90));
    let p = create_preview(&text, "foo", 100);
    assert!(!p.starts_with("..."));
    assert!(p.ends_with("..."));
    assert_eq!(p, format!("{}foo{}...", "x".repeat(30), "y".repeat(70)));
}

#[test]
fn preview_collapses_newlines_and_falls_back_without_match() {
    let text = "line one\nline two with needle inside";
    let p = create_preview(text, "needle", 100);
    assert!(!p.contains('\n'));
    assert!(p.contains("needle"));

    let long = "z".repeat(150);
    let fallback = create_preview(&long, "absent", 100);
    assert_eq!(fallback, format!("{}...", "z".repeat(100)));
    let short = create_preview("tiny", "absent", 100);
    assert_eq!(short, "tiny");
}

fn session_with_lines(name: &str, lines: Vec<String>) -> SessionFile {
    SessionFile { name: s(name), path: format!("/p/{}", name), lines: Some(lines) }
}

#[test]
fn search_finds_case_insensitive_matches() {
    let line = s(r#"{"type":"user","uuid":"u1","timestamp":"2024-03-04T05:06:07Z","message":{"role":"user","content":"Please FIND this"}}"#);
    let tree = vec![ProjectDir {
        dir_name: s("-home-me-proj"),
        path: s("/projects/-home-me-proj"),
        sessions: vec![session_with_lines("a.jsonl", vec![line])],
    }];
    let results: Vec<SearchResult> = search_messages("find", &tree);
    assert_eq!(results.len(), 1);
    assert_eq!(results[0].project_name, "home/me/proj");
    assert_eq!(results[0].session_id, "a");
    assert_eq!(results[0].message_uuid, "u1");
    assert_eq!(results[0].role, "user");
    assert_eq!(results[0].timestamp, "2024-03-04T05:06:07Z");
    assert!(results[0].content_preview.contains("FIND"));
}

#[test]
fn search_skips_non_message_lines_and_structural_hits() {
    // The query appears only in JSON structure (a field name), not in the
    // flattened text, so the authoritative check rejects the line.
    let line = s(r#"{"type":"user","needle":"x","message":{"role":"user","content":"clean"}}"#);
    let tree = vec![ProjectDir {
        dir_name: s("p"),
        path: s("/p"),
        sessions: vec![session_with_lines("a.jsonl", vec![line])],
    }];
    assert_eq!(search_messages("needle", &tree).len(), 0);
}

#[test]
fn search_caps_at_hundred_most_recent() {
    let mut lines = Vec::new();
    for i in 0..150u32 {
        lines.push(format!(
            r#"{{"type":"user","timestamp":"2024-01-01T{:02}:{:02}:00Z","message":{{"role":"user","content":"foo number {}"}}}}"#,
            i / 60,
            i % 60,
            i
        ));
    }
    let tree = vec![ProjectDir {
        dir_name: s("p"),
        path: s("/p"),
        sessions: vec![session_with_lines("a.jsonl", lines)],
    }];
    let results = search_messages("foo", &tree);
    assert_eq!(results.len(), 100);
    // Newest first, and the 50 oldest matches were dropped.
    assert_eq!(results[0].timestamp, "2024-01-01T02:29:00Z");
    assert_eq!(results[99].timestamp, "2024-01-01T00:50:00Z");
    for w in results.windows(2) {
        assert!(w[0].timestamp >= w[1].timestamp);
    }
}
