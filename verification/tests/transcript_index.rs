use memory_orchestrator::path::{normalize_path_components, parent_of, precedes, same};
use memory_orchestrator::transcript_index::{
    choose_transcript, parse_agent_transcript_file_name, parse_main_session_file_name,
    read_transcript_content, scan_agent_file, scan_main_session_file, scan_transcript_dir,
    tail_truncate, TranscriptMeta, TASK_TYPE_AGENT, TASK_TYPE_MAIN_SESSION,
};
use memory_orchestrator::uuid_text::is_uuid;

const SESSION_ID: &str = "550e8400-e29b-41d4-a716-446655440000";
const OTHER_SESSION_ID: &str = "660e8400-e29b-41d4-a716-446655440000";

#[test]
fn transcript_index_scans_main_and_subagent_transcripts() {
    let main_name = format!("{SESSION_ID}.jsonl");
    let main_path = format!("/p/{main_name}");
    let agent_path = format!("/p/{SESSION_ID}/subagents/workflows/run-1/agent-a12345678.jsonl");
    assert!(is_uuid(SESSION_ID));
    let main = scan_main_session_file(&main_name, main_path.clone(), 3, 1).unwrap();
    let agent =
        scan_agent_file(SESSION_ID, "agent-a12345678.jsonl", agent_path.clone(), 3, 1).unwrap();
    let metas = scan_transcript_dir(vec![main, agent]);
    assert_eq!(metas.len(), 2);

    let main_meta = metas.iter().find(|meta| meta.path == main_path).unwrap();
    assert_eq!(main_meta.session_id.as_deref(), Some(SESSION_ID));
    assert_eq!(main_meta.task_id, None);
    assert_eq!(main_meta.task_type.as_deref(), Some(TASK_TYPE_MAIN_SESSION));

    let agent_meta = metas.iter().find(|meta| meta.path == agent_path).unwrap();
    assert_eq!(agent_meta.session_id.as_deref(), Some(SESSION_ID));
    assert_eq!(agent_meta.task_id.as_deref(), Some("a12345678"));
    assert_eq!(agent_meta.task_type.as_deref(), Some(TASK_TYPE_AGENT));
    assert_eq!(metas[0].path, agent_path);
}

#[test]
fn transcript_index_empty_dir_returns_empty() {
    assert!(scan_transcript_dir(Vec::new()).is_empty());
}

#[test]
fn transcript_index_skips_damaged_and_unmatched_files() {
    assert!(scan_main_session_file("not-a-session.jsonl", "/p/x".to_string(), 3, 1).is_none());
    let txt = format!("{SESSION_ID}.txt");
    assert!(scan_main_session_file(&txt, "/p/x".to_string(), 3, 1).is_none());
    let empty = format!("{SESSION_ID}.jsonl");
    assert!(scan_main_session_file(&empty, "/p/x".to_string(), 0, 1).is_none());
    assert!(!is_uuid("not-a-session"));
    assert!(scan_agent_file(OTHER_SESSION_ID, "agent-.jsonl", "/p/x".to_string(), 3, 1).is_none());
    assert!(parse_agent_transcript_file_name("task-1.jsonl").is_none());
}

#[test]
fn transcript_index_records_mtime_and_size() {
    let name = format!("{SESSION_ID}.jsonl");
    let meta = scan_main_session_file(&name, format!("/p/{name}"), 16, 1_700_000_123_000).unwrap();
    assert_eq!(meta.size_bytes, 16);
    assert_eq!(meta.mtime_ms, 1_700_000_123_000);
}

#[test]
fn transcript_index_normalizes_paths() {
    assert_eq!(normalize_path_components("/p/./nested/../a.jsonl"), "/p/a.jsonl");
    assert_eq!(normalize_path_components("./x//y/"), "x/y");
    assert_eq!(normalize_path_components("/../.."), "/");
    assert_eq!(normalize_path_components("../a"), "a");
    assert_eq!(normalize_path_components(""), "");
}

#[test]
fn transcript_index_accepts_topic_session_files() {
    let name = format!("{SESSION_ID}-topic-review%2Fnotes.jsonl");
    let meta = scan_main_session_file(&name, format!("/p/{name}"), 3, 1).unwrap();
    assert_eq!(meta.session_id.as_deref(), Some(SESSION_ID));
    assert_eq!(meta.task_type.as_deref(), Some(TASK_TYPE_MAIN_SESSION));
    assert!(parse_main_session_file_name(&format!("{SESSION_ID}-topic-.jsonl")).is_none());
}

#[test]
fn read_transcript_content_extracts_user_and_assistant_text() {
    let lines = [
        r#"{"type":"user","message":{"role":"user","content":"hello worker"},"isSidechain":false}"#,
        r#"{"type":"assistant","message":{"role":"assistant","content":[{"type":"thinking","thinking":"hmm"},{"type":"text","text":"hi there"}]},"isSidechain":false}"#,
    ];
    let out = read_transcript_content(&lines.join("\n"), 10_000);
    assert!(out.contains("user: hello worker"), "got: {out}");
    assert!(out.contains("assistant: hi there"), "got: {out}");
    assert!(!out.contains("hmm"), "thinking must be excluded: {out}");
    assert_eq!(out, "user: hello worker\n\nassistant: hi there");
}

#[test]
fn read_transcript_content_skips_sidechain_and_bad_lines() {
    let lines = [
        r#"{"type":"user","message":{"role":"user","content":"keep me"},"isSidechain":false}"#,
        r#"{"type":"assistant","message":{"role":"assistant","content":"subagent noise"},"isSidechain":true}"#,
        r#"not json at all"#,
        r#"{"type":"summary","summary":"x"}"#,
    ];
    let out = read_transcript_content(&lines.join("\n"), 10_000);
    assert!(out.contains("keep me"));
    assert!(!out.contains("subagent noise"), "sidechain excluded");
    assert!(!out.contains("summary"));
}

#[test]
fn read_transcript_content_missing_file_is_empty() {
    assert_eq!(read_transcript_content("", 1000), "");
}

#[test]
fn read_transcript_content_tail_truncates_keeping_recent() {
    let mut lines = Vec::new();
    for i in 0..50 {
        lines.push(format!(
            r#"{{"type":"user","message":{{"role":"user","content":"turn-{i:04}"}},"isSidechain":false}}"#
        ));
    }
    let out = read_transcript_content(&lines.join("\n"), 120);
    assert!(out.chars().count() <= 120, "len {}", out.chars().count());
    assert!(out.contains("…[earlier turns truncated]…"), "marker: {out}");
    assert!(out.contains("turn-0049"), "recent kept: {out}");
    assert!(!out.contains("turn-0000"), "oldest dropped: {out}");
}

#[test]
fn role_falls_back_to_the_record_type() {
    let line = r#"{"type":"user","message":{"content":[{"type":"text","text":"a"},{"type":"text","text":""},{"type":"text","text":"b"}]}}"#;
    assert_eq!(read_transcript_content(line, 100), "user: a b");
    let system = r#"{"type":"user","message":{"role":"system","content":"x"}}"#;
    assert_eq!(read_transcript_content(system, 100), "");
}

#[test]
fn tail_is_the_end_of_the_text() {
    assert_eq!(tail_truncate("short", 5), "short");
    let text = "a".repeat(40) + &"b".repeat(10);
    let marker = "…[earlier turns truncated]…\n\n";
    let n = marker.chars().count();
    assert_eq!(tail_truncate(&text, n + 10), format!("{marker}{}", "b".repeat(10)));
    assert_eq!(tail_truncate(&text, 3), marker);
}

fn meta(path: &str, mtime_ms: u64, session: Option<&str>) -> TranscriptMeta {
    TranscriptMeta {
        path: path.to_string(),
        mtime_ms,
        size_bytes: 1,
        session_id: session.map(|s| s.to_string()),
        task_id: None,
        task_type: None,
    }
}

#[test]
fn paths_order_by_component() {
    let metas = scan_transcript_dir(vec![
        meta("/p/a-b", 1, None),
        meta("/p/a/b", 2, None),
        meta("/p/a", 3, None),
    ]);
    let order: Vec<&str> = metas.iter().map(|m| m.path.as_str()).collect();
    assert_eq!(order, vec!["/p/a", "/p/a/b", "/p/a-b"]);
    assert!(precedes("/p/a/b", "/p/a-b"));
    assert!(same("/p//a/./b/", "/p/a/b"));
    assert!(!same("./a", "a"));
    assert_eq!(parent_of("/a//b/./c/"), "/a//b");
    assert_eq!(parent_of("/a"), "/");
    assert_eq!(parent_of("//a"), "/");
}

#[test]
fn the_session_is_preferred_and_the_last_of_equals() {
    let metas = vec![
        meta("/a", 9, None),
        meta("/b", 5, Some("s")),
        meta("/c", 5, Some("s")),
        meta("/d", 9, Some("t")),
    ];
    assert_eq!(choose_transcript(&metas, &Some("s".to_string())), Some(2));
    assert_eq!(choose_transcript(&metas, &Some("x".to_string())), Some(3));
    assert_eq!(choose_transcript(&metas, &None), Some(3));
    assert_eq!(choose_transcript(&Vec::new(), &None), None);
}
