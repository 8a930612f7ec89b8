use logscope::context::{context_window, get_session_context, parse_git_log};
use logscope::dashboard::get_dashboard_stats;
use logscope::projects::{get_projects, is_jsonl_name, project_name_from_dir, DirListing};
use logscope::session::{file_stem, get_sessions, SessionSource};
use logscope::tree::{ProjectDir, SessionFile};

fn s(x: &str) -> String {
    x.to_string()
}

#[test]
fn jsonl_names_and_stems() {
    assert!(is_jsonl_name("a.jsonl"));
    assert!(is_jsonl_name("a.b.jsonl"));
    assert!(!is_jsonl_name(".jsonl"));
    assert!(!is_jsonl_name("a.json"));
    assert!(!is_jsonl_name("jsonl"));
    assert_eq!(file_stem("abc.jsonl"), "abc");
    assert_eq!(file_stem("a.b.jsonl"), "a.b");
}

#[test]
fn project_names_restore_separators() {
    assert_eq!(project_name_from_dir("-home-me-my-project"), "home/me/my/project");
    assert_eq!(project_name_from_dir("plain"), "plain");
}

#[test]
fn projects_excluded_without_transcripts() {
    let listings = vec![
        DirListing { name: s("-b-dir"), path: s("/r/-b-dir"), files: vec![s("x.jsonl")] },
        DirListing { name: s("-a-empty"), path: s("/r/-a-empty"), files: vec![s("notes.txt")] },
    ];
    let projects = get_projects(&listings, &None);
    assert_eq!(projects.len(), 1);
    assert_eq!(projects[0].name, "b/dir");
    assert_eq!(projects[0].session_count, 1);
}

#[test]
fn legacy_transcripts_become_synthetic_project() {
    let listings = vec![DirListing {
        name: s("-z"),
        path: s("/r/-z"),
        files: vec![s("x.jsonl")],
    }];
    let with = get_projects(
        &listings,
        &Some(DirListing { name: s("transcripts"), path: s("/t"), files: vec![s("y.jsonl")] }),
    );
    assert_eq!(with.len(), 2);
    // Sorted by name ascending: "OpenCode Sessions" before "z".
    assert_eq!(with[0].name, "OpenCode Sessions");
    assert_eq!(with[0].path, "/t");
    assert_eq!(with[1].name, "z");

    let without = get_projects(
        &listings,
        &Some(DirListing { name: s("transcripts"), path: s("/t"), files: vec![s("y.txt")] }),
    );
    assert_eq!(without.len(), 1);
}

#[test]
fn sessions_need_a_message_and_sort_newest_first() {
    let msg = s(r#"{"type":"user","message":{"role":"user","content":"hi"}}"#);
    let noise = s(r#"{"message":{"usage":{"input_tokens":9,"output_tokens":9}}}"#);
    let sources = vec![
        SessionSource {
            name: s("old.jsonl"),
            path: s("/p/old.jsonl"),
            size: 10,
            modified: 100,
            lines: vec![msg.clone()],
        },
        SessionSource {
            name: s("noisy.jsonl"),
            path: s("/p/noisy.jsonl"),
            size: 20,
            modified: 300,
            lines: vec![noise],
        },
        SessionSource {
            name: s("new.jsonl"),
            path: s("/p/new.jsonl"),
            size: 30,
            modified: 200,
            lines: vec![msg],
        },
    ];
    let sessions = get_sessions(&sources);
    assert_eq!(sessions.len(), 2);
    assert_eq!(sessions[0].id, "new");
    assert_eq!(sessions[0].modified, 200);
    assert_eq!(sessions[1].id, "old");
}

#[test]
fn dashboard_on_empty_tree_is_all_zero() {
    let stats = get_dashboard_stats(&vec![]);
    assert_eq!(stats.total_input_tokens, 0);
    assert_eq!(stats.total_output_tokens, 0);
    assert_eq!(stats.total_sessions, 0);
    assert_eq!(stats.total_messages, 0);
    assert!(stats.daily_stats.is_empty());
    assert!(stats.hourly_activity.is_empty());
    assert!(stats.project_stats.is_empty());
    assert_eq!(stats.estimated_cost_micros, 0);
    assert_eq!(stats.session_duration_total_secs, 0);
    assert_eq!(stats.sessions_with_duration, 0);
}

fn dash_tree(lines: Vec<String>) -> Vec<ProjectDir> {
    vec![ProjectDir {
        dir_name: s("-home-p"),
        path: s("/r/-home-p"),
        sessions: vec![SessionFile { name: s("a.jsonl"), path: s("/r/a.jsonl"), lines: Some(lines) }],
    }]
}

#[test]
fn dashboard_aggregates_tokens_days_and_hours() {
    // 2024-01-01 is a Monday; hour 10.
    let lines = vec![
        s(r#"{"type":"user","timestamp":"2024-01-01T10:30:00Z","message":{"role":"user","content":"hi","usage":{"input_tokens":10,"output_tokens":5}}}"#),
        s(r#"{"type":"assistant","timestamp":"2024-01-01T10:45:00Z","message":{"role":"assistant","content":"yo"}}"#),
        s(r#"{"timestamp":"2024-01-02T00:00:00Z","message":{"usage":{"input_tokens":1,"output_tokens":2}}}"#),
    ];
    let stats = get_dashboard_stats(&dash_tree(lines));
    assert_eq!(stats.total_input_tokens, 11);
    assert_eq!(stats.total_output_tokens, 7);
    assert_eq!(stats.total_messages, 2);
    assert_eq!(stats.total_sessions, 1);
    // Two daily buckets, sorted by date: the usage-only line creates the
    // second day's entry with zero messages.
    assert_eq!(stats.daily_stats.len(), 2);
    assert_eq!(stats.daily_stats[0].date, "2024-01-01");
    assert_eq!(stats.daily_stats[0].input_tokens, 10);
    assert_eq!(stats.daily_stats[0].output_tokens, 5);
    assert_eq!(stats.daily_stats[0].message_count, 2);
    assert_eq!(stats.daily_stats[0].session_count, 0);
    assert_eq!(stats.daily_stats[1].date, "2024-01-02");
    assert_eq!(stats.daily_stats[1].input_tokens, 1);
    assert_eq!(stats.daily_stats[1].message_count, 0);
    // One hourly bucket: Monday (day 0), hour 10, two events.
    assert_eq!(stats.hourly_activity.len(), 1);
    assert_eq!(stats.hourly_activity[0].day, 0);
    assert_eq!(stats.hourly_activity[0].hour, 10);
    assert_eq!(stats.hourly_activity[0].count, 2);
    // Project stats carry the project's totals under its restored name.
    assert_eq!(stats.project_stats.len(), 1);
    assert_eq!(stats.project_stats[0].name, "home/p");
    assert_eq!(stats.project_stats[0].total_input_tokens, 11);
    assert_eq!(stats.project_stats[0].session_count, 1);
    // Cost in micro-dollars: 3 per input token, 15 per output token.
    assert_eq!(stats.estimated_cost_micros, 11 * 3 + 7 * 15);
    // The session spans 15 minutes.
    assert_eq!(stats.session_duration_total_secs, 900);
    assert_eq!(stats.sessions_with_duration, 1);
}

#[test]
fn single_timestamp_session_has_no_duration() {
    let lines = vec![s(
        r#"{"type":"user","timestamp":"2024-01-01T10:30:00Z","message":{"role":"user","content":"hi"}}"#,
    )];
    let stats = get_dashboard_stats(&dash_tree(lines));
    assert_eq!(stats.sessions_with_duration, 0);
    assert_eq!(stats.session_duration_total_secs, 0);
}

#[test]
fn backwards_session_has_no_duration() {
    let lines = vec![
        s(r#"{"type":"user","timestamp":"2024-01-01T11:00:00Z","message":{"role":"user","content":"a"}}"#),
        s(r#"{"type":"user","timestamp":"2024-01-01T10:00:00Z","message":{"role":"user","content":"b"}}"#),
    ];
    let stats = get_dashboard_stats(&dash_tree(lines));
    assert_eq!(stats.sessions_with_duration, 0);
    assert_eq!(stats.session_duration_total_secs, 0);
}

#[test]
fn unreadable_session_still_counts_as_session() {
    let tree = vec![ProjectDir {
        dir_name: s("p"),
        path: s("/p"),
        sessions: vec![SessionFile { name: s("a.jsonl"), path: s("/p/a.jsonl"), lines: None }],
    }];
    let stats = get_dashboard_stats(&tree);
    assert_eq!(stats.total_sessions, 1);
    assert_eq!(stats.total_messages, 0);
    assert_eq!(stats.project_stats.len(), 1);
}

#[test]
fn projects_sorted_by_total_tokens_descending() {
    let usage_big = s(r#"{"message":{"usage":{"input_tokens":100,"output_tokens":0}}}"#);
    let usage_small = s(r#"{"message":{"usage":{"input_tokens":1,"output_tokens":0}}}"#);
    let tree = vec![
        ProjectDir {
            dir_name: s("small"),
            path: s("/small"),
            sessions: vec![SessionFile {
                name: s("a.jsonl"),
                path: s("/small/a.jsonl"),
                lines: Some(vec![usage_small]),
            }],
        },
        ProjectDir {
            dir_name: s("big"),
            path: s("/big"),
            sessions: vec![SessionFile {
                name: s("b.jsonl"),
                path: s("/big/b.jsonl"),
                lines: Some(vec![usage_big]),
            }],
        },
    ];
    let stats = get_dashboard_stats(&tree);
    assert_eq!(stats.project_stats.len(), 2);
    assert_eq!(stats.project_stats[0].name, "big");
    assert_eq!(stats.project_stats[1].name, "small");
}

#[test]
fn context_collects_file_changes_for_recognized_tools() {
    let lines = vec![
        r#"{"timestamp":"2024-05-06T07:08:09Z","message":{"content":[
            {"type":"tool_use","name":"Edit","input":{"file_path":"/a.rs"}},
            {"type":"tool_use","name":"mcp_write","input":{"filePath":"/b.rs"}},
            {"type":"tool_use","name":"Bash","input":{"command":"ls"}},
            {"type":"text","text":"hi"}]}}"#
            .replace('\n', " "),
    ];
    let ctx = get_session_context(&lines, "home/p", &None);
    assert_eq!(ctx.project_path, "/home/p");
    assert_eq!(ctx.file_changes.len(), 2);
    assert_eq!(ctx.file_changes[0].file_path, "/a.rs");
    assert_eq!(ctx.file_changes[0].action, "Edit");
    assert_eq!(ctx.file_changes[0].timestamp, "2024-05-06T07:08:09Z");
    assert_eq!(ctx.file_changes[1].file_path, "/b.rs");
    assert_eq!(ctx.file_changes[1].action, "mcp_write");
    assert!(ctx.git_commits.is_empty());
}

#[test]
fn context_window_is_min_and_max_timestamp() {
    let lines = vec![
        s(r#"{"timestamp":"2024-01-05T00:00:00Z"}"#),
        s(r#"{"timestamp":"2024-01-02T00:00:00Z"}"#),
        s(r#"{"timestamp":"2024-01-09T00:00:00Z"}"#),
    ];
    let w = context_window(&lines).unwrap();
    assert_eq!(w.0, "2024-01-02T00:00:00Z");
    assert_eq!(w.1, "2024-01-09T00:00:00Z");
}

#[test]
fn no_timestamps_means_no_window_and_no_commits() {
    let lines = vec![s(r#"{"type":"user"}"#), s("garbage")];
    assert!(context_window(&lines).is_none());
    let ctx = get_session_context(&lines, "p", &None);
    assert!(ctx.git_commits.is_empty());
    assert!(ctx.file_changes.is_empty());
}

#[test]
fn git_log_parses_headers_and_files() {
    let lines = vec![
        s("abc123|fix the bug|2024-01-01T10:00:00+02:00"),
        s("src/main.rs"),
        s("  src/lib.rs  "),
        s(""),
        s("def456|subject|with|bars|2024-01-02T11:00:00Z"),
        s("one.txt"),
    ];
    let commits = parse_git_log(&lines);
    assert_eq!(commits.len(), 2);
    assert_eq!(commits[0].hash, "abc123");
    assert_eq!(commits[0].message, "fix the bug");
    assert_eq!(commits[0].timestamp, "2024-01-01T10:00:00+02:00");
    assert_eq!(commits[0].files, vec!["src/main.rs".to_string(), "src/lib.rs".to_string()]);
    // Everything after the second separator belongs to the timestamp.
    assert_eq!(commits[1].message, "subject");
    assert_eq!(commits[1].timestamp, "with|bars|2024-01-02T11:00:00Z");
    assert_eq!(commits[1].files, vec!["one.txt".to_string()]);
}

#[test]
fn git_log_malformed_header_drops_following_files() {
    let lines = vec![s("onlyonebar|text"), s("orphan.txt"), s("h|m|t")];
    let commits = parse_git_log(&lines);
    assert_eq!(commits.len(), 1);
    assert_eq!(commits[0].hash, "h");
    assert!(commits[0].files.is_empty());
}
