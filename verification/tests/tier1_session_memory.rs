use memory_orchestrator::table::Table;
use memory_orchestrator::tier::imagination_documents::MemoryOutputLanguage;
use memory_orchestrator::tier::tier1_session_memory::{
    build_consolidation_messages, clean_llm_output, notes_of_outcome, notes_output, sanitize_turn_id,
    session_snapshot_path, write_degraded_session_note, SessionMemoryGate, SessionMemoryGateInput,
    SessionMemoryGateOutput, SessionMemoryProcessError, SessionMemoryProcessInput,
    SessionMemoryProcessor, Tier1SessionState, LLM_CALL_TIMEOUT_MS, TIER1_CONSOLIDATION_PROMPT,
    TRANSCRIPT_COMPACT_MAX_CHARS,
};
use memory_orchestrator::tier::{
    CallOutcome, LlmCallParams, LlmCallResultPayload, LlmUsage, MemoryTier, TierGate,
};
use memory_orchestrator::transcript_index::{
    choose_transcript, read_transcript_content, TranscriptMeta,
};

fn flags_enabled() -> Table<bool> {
    let mut m = Table::new();
    m.put("auto_session_memory".to_string(), true);
    m
}

fn flags_disabled() -> Table<bool> {
    Table::new()
}

fn input(
    agent_type: &str,
    flags: Table<bool>,
    token_count: u64,
    tool_calls: u32,
    has_tool_in_last: bool,
) -> SessionMemoryGateInput {
    SessionMemoryGateInput {
        agent_type: agent_type.to_string(),
        session_key: "sess-1".to_string(),
        current_token_count: token_count,
        tool_calls_since_last_update: tool_calls,
        has_tool_calls_in_last_turn: has_tool_in_last,
        feature_flags: flags,
    }
}

fn at_tokens(tokens: u64) -> Tier1SessionState {
    Tier1SessionState {
        tokens_at_last_extraction: tokens,
        extraction_in_progress: false,
        extraction_started_at_ms: 0,
    }
}

fn process_input(session_key: &str, turn_id: &str, memory_dir: &str) -> SessionMemoryProcessInput {
    SessionMemoryProcessInput {
        session_key: session_key.to_string(),
        turn_id: turn_id.to_string(),
        memory_dir: memory_dir.to_string(),
        gate_payload: SessionMemoryGateOutput { messages: Vec::new(), token_count_at_trigger: 25_000 },
        transcript_dir: None,
        current_session_id: None,
        model_hint: None,
        params: LlmCallParams::default(),
        prior_note: None,
    }
}

fn reply(req_id: &str, response: Option<&str>, error: Option<&str>) -> LlmCallResultPayload {
    LlmCallResultPayload {
        req_id: req_id.to_string(),
        response: response.map(|s| s.to_string()),
        usage: Some(LlmUsage { input_tokens: 100, output_tokens: 50 }),
        error: error.map(|s| s.to_string()),
    }
}

#[test]
fn gate1_subagent_rejected() {
    let mut gate = SessionMemoryGate::new();
    let decision = gate.evaluate_gate(input("subagent", flags_enabled(), 50_000, 10, false)).unwrap();
    assert!(!decision.should_trigger);
    assert_eq!(decision.skip_reason.as_deref(), Some("non_main_agent"));
}

#[test]
fn tier1_session_memory_gate2_feature_disabled() {
    let mut gate = SessionMemoryGate::new();
    let decision = gate.evaluate_gate(input("", flags_disabled(), 50_000, 10, false)).unwrap();
    assert!(!decision.should_trigger);
    assert_eq!(decision.skip_reason.as_deref(), Some("feature_disabled"));
}

#[test]
fn gate3_init_threshold_unmet() {
    let mut gate = SessionMemoryGate::new();
    let decision = gate.evaluate_gate(input("", flags_enabled(), 5_000, 10, false)).unwrap();
    assert!(!decision.should_trigger);
    assert_eq!(decision.skip_reason.as_deref(), Some("init_threshold_unmet"));
}

#[test]
fn gate4_token_growth_unmet_after_init() {
    let mut gate = SessionMemoryGate::new();
    let first = gate.evaluate_gate(input("", flags_enabled(), 10_000, 10, false)).unwrap();
    assert!(first.should_trigger);

    let mut input2 = input("", flags_enabled(), 12_000, 10, false);
    input2.session_key = "sess-2".to_string();
    let _ = gate.evaluate_gate(input2).unwrap();

    let mut input3 = input("", flags_enabled(), 13_000, 10, false);
    input3.session_key = "sess-2".to_string();
    let third = gate.evaluate_gate(input3).unwrap();
    assert!(third.should_trigger);

    gate.set_state("sess-3", at_tokens(20_000));
    let mut input4 = input("", flags_enabled(), 23_000, 10, false);
    input4.session_key = "sess-3".to_string();
    let fourth = gate.evaluate_gate(input4).unwrap();
    assert!(!fourth.should_trigger);
    assert_eq!(fourth.skip_reason.as_deref(), Some("token_growth_unmet"));
}

#[test]
fn gate5_tool_call_window_not_drained_and_last_has_tools() {
    let mut gate = SessionMemoryGate::new();
    gate.set_state("sess-4", at_tokens(10_000));
    let mut inp = input("", flags_enabled(), 20_000, 2, true);
    inp.session_key = "sess-4".to_string();
    let d = gate.evaluate_gate(inp).unwrap();
    assert!(!d.should_trigger);
    assert_eq!(d.skip_reason.as_deref(), Some("tool_call_window_not_drained"));
}

#[test]
fn tier1_session_memory_all_gates_pass_returns_payload() {
    let mut gate = SessionMemoryGate::new();
    gate.set_state("sess-pass", at_tokens(20_000));
    let mut inp = input("", flags_enabled(), 30_000, 5, false);
    inp.session_key = "sess-pass".to_string();
    let d = gate.evaluate_gate(inp).unwrap();
    assert!(d.should_trigger);
    let payload = d.payload.expect("payload");
    assert_eq!(payload.token_count_at_trigger, 30_000);
    assert!(payload.messages.is_empty());
}

#[test]
fn tool_calls_may_be_few_when_the_last_turn_had_none() {
    let mut gate = SessionMemoryGate::new();
    gate.set_state("sess-1", at_tokens(10_000));
    let d = gate.evaluate_gate(input("", flags_enabled(), 15_000, 0, false)).unwrap();
    assert!(d.should_trigger);
    let e = gate.evaluate_gate(input("", flags_enabled(), 15_000, 3, true)).unwrap();
    assert!(e.should_trigger);
    let f = gate.evaluate_gate(input("", flags_enabled(), 14_999, 3, false)).unwrap();
    assert_eq!(f.skip_reason.as_deref(), Some("token_growth_unmet"));
}

#[test]
fn first_crossing_sets_the_baseline() {
    let mut gate = SessionMemoryGate::new();
    let check = gate.check_and_promote_initialized("s", 9_999);
    assert!(!check.initialized);
    assert_eq!(gate.state("s").tokens_at_last_extraction, 0);
    let check = gate.check_and_promote_initialized("s", 12_000);
    assert!(check.initialized);
    assert_eq!(check.tokens_at_last_extraction, 7_000);
    assert_eq!(gate.state("s").tokens_at_last_extraction, 7_000);
    assert_eq!(gate.state("other").tokens_at_last_extraction, 0);
}

#[test]
fn processor_roundtrip_writes_session_and_snapshot() {
    let mut processor: SessionMemoryProcessor<u32> =
        SessionMemoryProcessor::new(SessionMemoryGate::new());
    let inp = process_input("sess-rt", "turn-1", "/m");
    let request = processor.begin(&inp, "", "", 1_700, 7).unwrap();
    assert_eq!(request.req_id, "tier1-1-1700");
    assert_eq!(request.tier, MemoryTier::Session);
    assert!(request.phase.is_none());
    assert_eq!(request.messages.len(), 2);
    assert!(processor.gate().state("sess-rt").extraction_in_progress);
    assert_eq!(processor.gate().state("sess-rt").extraction_started_at_ms, 1_700);

    let result = reply(&request.req_id, Some("# Session\n\nUpdated notes."), None);
    assert_eq!(processor.deliver_result(&result), Some(7));
    assert_eq!(processor.deliver_result(&result), None);
    let notes = notes_of_outcome(CallOutcome::Reply(result), "/m", "turn-1").unwrap();
    assert_eq!(notes.content, "# Session\n\nUpdated notes.");
    assert_eq!(notes.session_md_path, "/m/SESSION.md");
    assert_eq!(notes.snapshot_path, "/m/.session-turn-1.md");
    processor.end("sess-rt", &request.req_id, Some(inp.gate_payload.token_count_at_trigger));
    let output = notes_output(request.req_id, notes);
    assert_eq!(output.req_id, "tier1-1-1700");
    assert_eq!(output.session_md_bytes, 25);
    let usage = output.usage.unwrap();
    assert_eq!((usage.input_tokens, usage.output_tokens), (100, 50));
    let state = processor.gate().state("sess-rt");
    assert!(!state.extraction_in_progress);
    assert_eq!(state.tokens_at_last_extraction, 25_000);
}

#[test]
fn bytes_of_notes_are_counted_not_characters() {
    let result = reply("r", Some("速记"), None);
    let notes = notes_of_outcome(CallOutcome::Reply(result), "/m", "t").unwrap();
    assert_eq!(notes_output("r".to_string(), notes).session_md_bytes, 6);
}

#[test]
fn processor_timeout_drops_pending_and_releases_guard() {
    let mut processor: SessionMemoryProcessor<u32> =
        SessionMemoryProcessor::new(SessionMemoryGate::new());
    let inp = process_input("sess-timeout", "turn-2", "/m");
    let request = processor.begin(&inp, "", "", 5, 1).unwrap();
    match processor.begin(&inp, "", "", 6, 2) {
        Err(SessionMemoryProcessError::Write(m)) => {
            assert_eq!(m, "extraction already in progress for this session")
        }
        other => panic!("expected a refusal, got {:?}", other.is_ok()),
    }
    match notes_of_outcome(CallOutcome::Elapsed, "/m", "turn-2") {
        Err(SessionMemoryProcessError::Timeout(ms)) => assert_eq!(ms, LLM_CALL_TIMEOUT_MS),
        _ => panic!("expected a timeout"),
    }
    match notes_of_outcome(CallOutcome::Closed, "/m", "turn-2") {
        Err(SessionMemoryProcessError::Shutdown) => {}
        _ => panic!("expected a shutdown"),
    }
    processor.end("sess-timeout", &request.req_id, None);
    let state = processor.gate().state("sess-timeout");
    assert!(!state.extraction_in_progress);
    assert_eq!(state.tokens_at_last_extraction, 0);
    let late = reply(&request.req_id, Some("late"), None);
    assert_eq!(processor.deliver_result(&late), None);
}

#[test]
fn tier1_session_memory_processor_llm_error_result_returns_llm_failure() {
    let result = reply("r", None, Some("rate limited"));
    match notes_of_outcome(CallOutcome::Reply(result), "/m", "t") {
        Err(SessionMemoryProcessError::LlmFailure(msg)) => assert_eq!(msg, "rate limited"),
        _ => panic!("expected a failure"),
    }
    match notes_of_outcome(CallOutcome::Reply(reply("r", None, None)), "/m", "t") {
        Err(SessionMemoryProcessError::LlmFailure(msg)) => assert_eq!(msg, "empty response"),
        _ => panic!("expected a failure"),
    }
    match notes_of_outcome(CallOutcome::Reply(reply("r", Some("```\n\n```"), None)), "/m", "t") {
        Err(SessionMemoryProcessError::Write(msg)) => {
            assert_eq!(msg, "LLM returned empty session notes; not writing")
        }
        _ => panic!("expected a refusal"),
    }
}

#[test]
fn tier1_session_memory_deliver_unknown_req_id_returns_false() {
    let mut processor: SessionMemoryProcessor<u32> =
        SessionMemoryProcessor::new(SessionMemoryGate::new());
    let delivered = processor.deliver_result(&reply("unknown", Some("hi"), None));
    assert!(delivered.is_none());
}

#[test]
fn g3b_delta_suffix_injected_only_with_prior_note() {
    let plain = build_consolidation_messages("/m", "", &None, "");
    assert!(!plain[0].content.contains("PREVIOUS NOTE FOR THIS SESSION"));

    let note = Some("旧速记：修复了做梦水位线".to_string());
    let delta = build_consolidation_messages("/m", "", &note, "");
    assert!(delta[0].content.contains("PREVIOUS NOTE FOR THIS SESSION"));
    assert!(delta[0].content.contains("旧速记：修复了做梦水位线"));
    assert!(delta[0].content.contains("UPDATED COMPLETE note"));
    assert!(delta[0].content.starts_with(plain[0].content.as_str()));

    let blank = build_consolidation_messages("/m", "", &Some("   ".to_string()), "");
    assert!(!blank[0].content.contains("PREVIOUS NOTE FOR THIS SESSION"));
}

fn user_line(text: &str) -> String {
    format!(
        r#"{{"type":"user","message":{{"role":"user","content":"{text}"}},"isSidechain":false}}"#
    )
}

fn assistant_line(text: &str) -> String {
    format!(
        r#"{{"type":"assistant","message":{{"role":"assistant","content":[{{"type":"text","text":"{text}"}}]}},"isSidechain":false}}"#
    )
}

#[test]
fn g3d_degraded_note_writes_metadata_and_skips_trivial() {
    let trivial = [
        user_line("修一下这个渲染问题"),
        assistant_line("好的，已修复"),
        user_line("谢谢"),
    ]
    .join("\n");
    assert!(write_degraded_session_note(&trivial, "sess-a", MemoryOutputLanguage::Zh).is_none());

    let transcript = [
        user_line("帮我审计记忆系统的做梦水位线语义"),
        assistant_line("已定位到 lock mtime 语义"),
        user_line("撞帽积压要留给下一轮消费不能丢"),
        assistant_line("已按最旧优先消费实现"),
        user_line("最后把陈旧度标注也加上并跑全量测试"),
        r#"{"type":"user","message":{"role":"user","content":"sidechain noise"},"isSidechain":true}"#
            .to_string(),
    ]
    .join("\n");
    let body = write_degraded_session_note(&transcript, "sess-a", MemoryOutputLanguage::Zh).unwrap();
    assert!(body.contains("degraded: true"));
    assert!(body.contains("session: sess-a"));
    assert!(body.contains("会话速记（降级"));
    assert!(body.contains("做梦水位线"));
    assert!(!body.contains("sidechain noise"));

    let en = write_degraded_session_note(&transcript, "sess-en", MemoryOutputLanguage::En).unwrap();
    assert!(en.contains("Session note (degraded"));
    assert_eq!(
        en,
        "---\ntype: session-note\ndegraded: true\nsession: sess-en\n---\n# Session note (degraded — no model consolidation)\n\n- 3 user messages / 2 assistant replies\n- Topic leads:\n  - 帮我审计记忆系统的做梦水位线语义\n  - 撞帽积压要留给下一轮消费不能丢\n  - 最后把陈旧度标注也加上并跑全量测试\n\n> The LLM lane was unavailable when this note was generated; it was built directly from transcript metadata. The next dream cycle re-reads the raw transcript and is unaffected.\n"
    );
}

#[test]
fn long_topics_are_cut_and_counted() {
    let long = "x".repeat(90);
    let transcript = [
        user_line(&long),
        user_line("12345678"),
        user_line("1234567"),
        user_line("second prompt"),
        user_line("third prompt"),
        user_line("fourth prompt"),
        user_line("fifth prompt, not shown"),
    ]
    .join("\n");
    let note = write_degraded_session_note(&transcript, "s", MemoryOutputLanguage::Zh).unwrap();
    assert!(note.contains(&format!("  - {}…\n  - 12345678\n  - second prompt\n", "x".repeat(80))));
    assert!(note.contains("- 用户消息 7 条 / 助手回复 0 条\n"));
    assert!(note.contains("  - fourth prompt\n\n> 生成时 LLM 通道不可用"));
    assert!(!note.contains("not shown"));
    let few_bytes = [user_line("12345678"), user_line("12345678"), user_line("12345678")].join("\n");
    assert!(write_degraded_session_note(&few_bytes, "s", MemoryOutputLanguage::Zh).is_none());
}

#[test]
fn clean_llm_output_strips_fences() {
    assert_eq!(clean_llm_output("hello"), "hello");
    assert_eq!(clean_llm_output("```markdown\nhello\n```"), "hello");
    assert_eq!(clean_llm_output("```\nhi\n```"), "hi");
    assert_eq!(clean_llm_output("  ```markdown\n# h\n\nbody\n```  "), "# h\n\nbody");
}

#[test]
fn sanitize_turn_id_replaces_unsafe() {
    assert_eq!(sanitize_turn_id("turn-abc.123"), "turn-abc.123");
    assert_eq!(sanitize_turn_id("../etc/passwd"), ".._etc_passwd");
    assert_eq!(sanitize_turn_id("a b c"), "a_b_c");
}

#[test]
fn snapshot_path_is_sanitized() {
    assert_eq!(session_snapshot_path("/m", "a/b"), "/m/.session-a_b.md");
    assert_eq!(session_snapshot_path("/m/", "t"), "/m/.session-t.md");
}

#[test]
fn tier1_session_memory_tier_gate_trait_decision_shape_round_trip() {
    let mut gate = SessionMemoryGate::new();
    let d = gate.evaluate_gate(input("subagent", flags_enabled(), 50_000, 10, false)).unwrap();
    assert_eq!(d.should_trigger, false);
    assert_eq!(d.skip_reason.as_deref(), Some("non_main_agent"));
    assert!(d.payload.is_none());
}

#[test]
fn process_injects_session_notes_and_transcript_not_metadata() {
    let lines = [
        r#"{"type":"user","message":{"role":"user","content":"please ship feature X"},"isSidechain":false}"#,
        r#"{"type":"assistant","message":{"role":"assistant","content":[{"type":"text","text":"on it shipping X now"}]},"isSidechain":false}"#,
    ];
    let session_id = "550e8400-e29b-41d4-a716-446655440000";
    let metas = vec![TranscriptMeta {
        path: format!("/t/{session_id}.jsonl"),
        mtime_ms: 1,
        size_bytes: 10,
        session_id: Some(session_id.to_string()),
        task_id: None,
        task_type: None,
    }];
    assert_eq!(choose_transcript(&metas, &Some(session_id.to_string())), Some(0));
    let transcript = read_transcript_content(&lines.join("\n"), TRANSCRIPT_COMPACT_MAX_CHARS);
    let mut processor: SessionMemoryProcessor<u32> =
        SessionMemoryProcessor::new(SessionMemoryGate::new());
    let inp = process_input("sess-content", "turn-content", "/memory");
    let request = processor
        .begin(&inp, "## Goals\n- ship feature X", &transcript, 0, 0)
        .unwrap();
    let messages = request.messages;
    assert_eq!(messages.len(), 2);
    let system = &messages[0].content;
    assert!(!system.contains("{{current_notes}}"), "system: {system}");
    assert!(!system.contains("{{notes_path}}"), "system: {system}");
    assert!(system.contains("ship feature X"), "notes missing: {system}");
    assert!(system.contains("/memory/SESSION.md"));
    assert!(TIER1_CONSOLIDATION_PROMPT.contains("{{notes_path}}"));
    let user = &messages[1].content;
    assert!(user.contains("please ship feature X"), "user transcript: {user}");
    assert!(user.contains("on it shipping X now"), "user transcript: {user}");
}

#[test]
fn process_degrades_without_transcript_dir() {
    let mut processor: SessionMemoryProcessor<u32> =
        SessionMemoryProcessor::new(SessionMemoryGate::new());
    let inp = process_input("sess-degraded", "turn-degraded", "/memory");
    let request = processor.begin(&inp, "## Notes\n- keep me", "", 0, 0).unwrap();
    assert_eq!(request.messages.len(), 2);
    assert!(request.messages[0].content.contains("keep me"));
    assert!(request.messages[1].content.contains("no recent transcript"));
}
