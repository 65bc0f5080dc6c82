use memory_orchestrator::table::Table;
use memory_orchestrator::tier::tier2_extract_memories::{
    append_to_memory_index, blocks_of_outcome, build_existing_manifest, extraction_output, hex_encode,
    index_is_oversized, listed, md_extension, memory_filename_of, parse_extraction_blocks,
    plan_extraction, sanitize_name, BlockFacts, ExistingMemory, ExtractGate, ExtractGateInput,
    ExtractGateOutput, ExtractProcessError, ExtractProcessInput, ExtractProcessor,
    Tier2SessionState, LLM_CALL_TIMEOUT_MS, MEMORY_MD_INDEX_MAX_LINES,
    MIN_TURNS_BETWEEN_EXTRACTIONS, TIER2_EXTRACT_PROMPT,
};
use memory_orchestrator::tier::{
    CallOutcome, LlmCallParams, LlmCallResultPayload, LlmMessage, LlmUsage, MemoryTier, TierGate,
};

fn flags_enabled() -> Table<bool> {
    let mut m = Table::new();
    m.put("auto_extract_memories".to_string(), true);
    m
}

fn flags_disabled() -> Table<bool> {
    Table::new()
}

fn input(
    session_key: &str,
    is_remote: bool,
    flags: Table<bool>,
    visible_count: u32,
) -> ExtractGateInput {
    ExtractGateInput {
        is_remote,
        session_key: session_key.to_string(),
        visible_message_count: visible_count,
        recent_messages_summary: "u: hi\na: hello".to_string(),
        feature_flags: flags,
    }
}

fn state(turns: u64, busy: bool) -> Tier2SessionState {
    Tier2SessionState {
        turns_since_last_extraction: turns,
        extraction_in_progress: busy,
        extraction_started_at_ms: 0,
    }
}

fn process_input(session_key: &str, messages: Vec<LlmMessage>) -> ExtractProcessInput {
    ExtractProcessInput {
        session_key: session_key.to_string(),
        memory_dir: "/memory".to_string(),
        gate_payload: ExtractGateOutput { messages, visible_message_count_at_trigger: 2 },
        model_hint: None,
        params: LlmCallParams::default(),
    }
}

fn reply(response: Option<&str>, error: Option<&str>) -> CallOutcome {
    CallOutcome::Reply(LlmCallResultPayload {
        req_id: "r".to_string(),
        response: response.map(|s| s.to_string()),
        usage: Some(LlmUsage { input_tokens: 100, output_tokens: 50 }),
        error: error.map(|s| s.to_string()),
    })
}

#[test]
fn gate1_remote_mode_rejected() {
    let mut gate = ExtractGate::new();
    let d = gate.evaluate_gate(input("sess-1", true, flags_enabled(), 5)).unwrap();
    assert!(!d.should_trigger);
    assert_eq!(d.skip_reason.as_deref(), Some("remote_mode"));
}

#[test]
fn tier2_extract_memories_gate2_feature_disabled() {
    let mut gate = ExtractGate::new();
    let d = gate.evaluate_gate(input("sess-2", false, flags_disabled(), 5)).unwrap();
    assert!(!d.should_trigger);
    assert_eq!(d.skip_reason.as_deref(), Some("feature_disabled"));
    let mut off = Table::new();
    off.put("AUTO_MEMORY".to_string(), false);
    assert!(!ExtractGate::is_feature_enabled(&off));
    off.put("AUTO_MEMORY".to_string(), true);
    assert!(ExtractGate::is_feature_enabled(&off));
}

#[test]
fn gate3_no_visible_messages() {
    let mut gate = ExtractGate::new();
    let d = gate.evaluate_gate(input("sess-3", false, flags_enabled(), 0)).unwrap();
    assert!(!d.should_trigger);
    assert_eq!(d.skip_reason.as_deref(), Some("no_visible_messages"));
}

#[test]
fn gate4_extraction_in_progress_skipped() {
    let mut gate = ExtractGate::new();
    gate.set_state("sess-4", state(0, true));
    let d = gate.evaluate_gate(input("sess-4", false, flags_enabled(), 5)).unwrap();
    assert!(!d.should_trigger);
    assert_eq!(d.skip_reason.as_deref(), Some("extraction_in_progress"));
    assert_eq!(gate.state("sess-4").turns_since_last_extraction, 0);
}

#[test]
fn gate6_turn_throttle_first_call_unmet() {
    let mut gate = ExtractGate::new();
    let d = gate.evaluate_gate(input("sess-5", false, flags_enabled(), 5)).unwrap();
    assert!(!d.should_trigger);
    assert_eq!(d.skip_reason.as_deref(), Some("turn_throttle_unmet"));
}

#[test]
fn gate6_turn_throttle_third_call_passes() {
    let mut gate = ExtractGate::new();
    for _ in 0..2 {
        let _ = gate.evaluate_gate(input("sess-6", false, flags_enabled(), 5)).unwrap();
    }
    let d = gate.evaluate_gate(input("sess-6", false, flags_enabled(), 5)).unwrap();
    assert!(d.should_trigger);
    let payload = d.payload.expect("payload");
    assert_eq!(payload.visible_message_count_at_trigger, 5);
    assert_eq!(payload.messages.len(), 2);
    assert_eq!(payload.messages[0].role, "system");
    assert!(payload.messages[0].content.contains("memory extraction"));
    assert!(payload.messages[0].content.contains("{{existing_manifest}}"));
    assert!(!payload.messages[0].content.contains("{{new_message_count}}"));
    assert_eq!(payload.messages[1].content, "Recent messages (compacted):\n\nu: hi\na: hello");
}

#[test]
fn tier2_extract_memories_all_gates_pass_returns_payload() {
    let mut gate = ExtractGate::new();
    gate.set_state("sess-pass", state((MIN_TURNS_BETWEEN_EXTRACTIONS - 1) as u64, false));
    let d = gate.evaluate_gate(input("sess-pass", false, flags_enabled(), 10)).unwrap();
    assert!(d.should_trigger);
    let p = d.payload.unwrap();
    assert_eq!(p.visible_message_count_at_trigger, 10);
}

#[test]
fn parser_single_block_with_index_line() {
    let raw = r#"---
name: project_demo
type: project
description: A demo project
---

This is the body of the demo project memory.

It has multiple paragraphs.

- [Demo Project](project_demo.md) — Sample memory hook"#;
    let blocks = parse_extraction_blocks(raw);
    assert_eq!(blocks.len(), 1);
    let b = &blocks[0];
    assert_eq!(b.name, "project_demo");
    assert_eq!(b.kind, "project");
    assert!(b.full_content.contains("name: project_demo"));
    assert!(b.full_content.contains("This is the body"));
    assert!(b.full_content.contains("multiple paragraphs"));
    assert!(b.index_line.starts_with("- [Demo Project]"));
}

#[test]
fn parser_multi_block() {
    let raw = r#"---
name: user_pref
type: user
description: User preference
---

User prefers concise output.

- [User Pref](user_pref.md) — concise output

---
name: feedback_test
type: feedback
description: Test feedback
---

Always run tests before commit.

- [Test First](feedback_test.md) — run tests"#;
    let blocks = parse_extraction_blocks(raw);
    assert_eq!(blocks.len(), 2);
    assert_eq!(blocks[0].name, "user_pref");
    assert_eq!(blocks[1].name, "feedback_test");
    assert!(blocks[0].index_line.contains("user_pref.md"));
    assert!(blocks[1].index_line.contains("feedback_test.md"));
}

#[test]
fn parser_empty_output_returns_empty() {
    assert_eq!(parse_extraction_blocks("").len(), 0);
    assert_eq!(parse_extraction_blocks("   \n  \n").len(), 0);
}

#[test]
fn parser_strips_markdown_fences() {
    let raw = "```markdown\n---\nname: x\ntype: user\n---\n\nBody.\n```";
    let blocks = parse_extraction_blocks(raw);
    assert_eq!(blocks.len(), 1);
    assert_eq!(blocks[0].name, "x");
}

#[test]
fn fenced_replies_are_read_as_bare_ones() {
    let bare = "- [X](x.md) — hook\n---\nname: x\ntype: user\n---\n\nBody.";
    let expected = parse_extraction_blocks(bare);
    assert_eq!(expected.len(), 1);
    for raw in [format!("```markdown\n{bare}\n```"), format!("  ```\n{bare}\n```\n")] {
        let blocks = parse_extraction_blocks(&raw);
        assert_eq!(blocks.len(), 1);
        assert_eq!(blocks[0].name, expected[0].name);
        assert_eq!(blocks[0].kind, expected[0].kind);
        assert_eq!(blocks[0].full_content, expected[0].full_content);
        assert_eq!(blocks[0].index_line, expected[0].index_line);
    }
}

#[test]
fn sanitize_name_replaces_unsafe() {
    assert_eq!(sanitize_name("ok_name-1.2"), "ok_name-1.2");
    assert_eq!(sanitize_name("../etc/passwd"), ".._etc_passwd");
    assert_eq!(sanitize_name("with space"), "with_space");
    let once = sanitize_name("ünï/code");
    assert_eq!(sanitize_name(&once), once);
}

#[test]
fn manifest_lists_existing_memories_via_adapter() {
    assert!(!listed("MEMORY.md"));
    assert!(listed("user_pref.md"));
    assert!(md_extension("a.md"));
    assert!(!md_extension(".md"));
    assert!(!md_extension("a.txt"));
    let memories = vec![
        ExistingMemory {
            file_name: "user_pref.md".to_string(),
            file_stem: "user_pref".to_string(),
            name_hint: Some("user_pref".to_string()),
            raw_type: Some("user".to_string()),
        },
        ExistingMemory {
            file_name: "feedback_quick.md".to_string(),
            file_stem: "feedback_quick".to_string(),
            name_hint: None,
            raw_type: None,
        },
        ExistingMemory {
            file_name: "MEMORY.md".to_string(),
            file_stem: "MEMORY".to_string(),
            name_hint: None,
            raw_type: None,
        },
    ];
    let manifest = build_existing_manifest(&memories);
    assert!(manifest.contains("user_pref"));
    assert!(manifest.contains("feedback_quick"));
    assert!(!manifest.contains("MEMORY.md"));
}

#[test]
fn processor_roundtrip_writes_block_and_index() {
    let mut processor: ExtractProcessor<u32> = ExtractProcessor::new(ExtractGate::new());
    let messages = vec![
        LlmMessage { role: "system".to_string(), content: TIER2_EXTRACT_PROMPT.to_string() },
        LlmMessage { role: "user".to_string(), content: "u: hi\na: hello".to_string() },
    ];
    let request = processor
        .begin(process_input("sess-rt", messages), "- existing", 42, 9)
        .unwrap();
    assert_eq!(request.req_id, "tier2-1-42");
    assert_eq!(request.tier, MemoryTier::Extract);
    assert!(request.messages[0].content.contains("- existing"));
    assert!(!request.messages[0].content.contains("{{existing_manifest}}"));
    assert_eq!(request.messages[1].content, "u: hi\na: hello");
    let response_body = r#"---
name: project_foo
type: project
description: Foo project
---

Foo project notes.

- [Foo Project](project_foo.md) — Foo project hook"#;
    let (blocks, usage) = blocks_of_outcome(reply(Some(response_body), None)).unwrap();
    let facts = vec![BlockFacts { body_digest: vec![1, 2], importance: 3 }];
    let plan = plan_extraction(&blocks, &facts, &Vec::new(), "/memory");
    assert_eq!(plan.importance_delta, 3);
    let index = append_to_memory_index("", &plan.index_lines).unwrap();
    assert!(index.contains("Foo project hook"));
    assert!(index.contains("project_foo.md"));
    processor.end("sess-rt", &request.req_id, true);
    let output = extraction_output(&plan, request.req_id, usage, "/memory");
    assert_eq!(output.req_id, "tier2-1-42");
    assert_eq!(output.blocks_parsed, 1);
    assert_eq!(output.blocks_written, 1);
    assert_eq!(output.blocks_deduped, 0);
    assert_eq!(output.written_paths, vec!["/memory/project_foo.md".to_string()]);
    assert_eq!(output.memory_md_path.as_deref(), Some("/memory/MEMORY.md"));
    assert_eq!(output.usage.unwrap().input_tokens, 100);
    assert!(plan.writes[0].content.contains("name: project_foo"));
    assert!(plan.writes[0].content.contains("Foo project notes"));
    let s = processor.gate().state("sess-rt");
    assert_eq!(s.turns_since_last_extraction, 0);
    assert!(!s.extraction_in_progress);
}

#[test]
fn processor_dedups_against_existing_body_hash() {
    let response = r#"---
name: project_foo_v2
type: project
description: duplicate body
---

Foo project notes.

- [Foo v2](project_foo_v2.md) — dup hook"#;
    let (blocks, usage) = blocks_of_outcome(reply(Some(response), None)).unwrap();
    let facts = vec![BlockFacts { body_digest: vec![0xab, 0x01], importance: 9 }];
    assert_eq!(hex_encode(&vec![0xab, 0x01]), "ab01");
    let plan = plan_extraction(&blocks, &facts, &vec!["ab01".to_string()], "/memory");
    let output = extraction_output(&plan, "r".to_string(), usage, "/memory");
    assert_eq!(output.blocks_parsed, 1);
    assert_eq!(output.blocks_written, 0);
    assert_eq!(output.blocks_deduped, 1);
    assert!(output.written_paths.is_empty());
    assert!(output.memory_md_path.is_none());
    assert_eq!(plan.importance_delta, 0);
}

#[test]
fn tier2_extract_memories_processor_llm_error_result_returns_llm_failure() {
    match blocks_of_outcome(reply(None, Some("rate limited"))) {
        Err(ExtractProcessError::LlmFailure(msg)) => assert_eq!(msg, "rate limited"),
        _ => panic!("expected a failure"),
    }
    match blocks_of_outcome(CallOutcome::Elapsed) {
        Err(ExtractProcessError::Timeout(ms)) => assert_eq!(ms, LLM_CALL_TIMEOUT_MS),
        _ => panic!("expected a timeout"),
    }
}

#[test]
fn processor_empty_output_promotes_counter_no_write() {
    let mut gate = ExtractGate::new();
    gate.set_state("sess-empty", state(7, false));
    let mut processor: ExtractProcessor<u32> = ExtractProcessor::new(gate);
    let request = processor.begin(process_input("sess-empty", Vec::new()), "", 0, 0).unwrap();
    let (blocks, _) = blocks_of_outcome(reply(Some(""), None)).unwrap();
    let plan = plan_extraction(&blocks, &Vec::new(), &Vec::new(), "/memory");
    let output = extraction_output(&plan, request.req_id.clone(), None, "/memory");
    assert_eq!(output.blocks_parsed, 0);
    assert_eq!(output.blocks_written, 0);
    processor.end("sess-empty", &request.req_id, true);
    assert_eq!(processor.gate().state("sess-empty").turns_since_last_extraction, 0);
}

#[test]
fn processor_shutdown_drops_pending_and_releases_guard() {
    let mut processor: ExtractProcessor<u32> = ExtractProcessor::new(ExtractGate::new());
    let request = processor.begin(process_input("sess-shutdown", Vec::new()), "", 0, 5).unwrap();
    assert!(matches!(
        blocks_of_outcome(CallOutcome::Closed),
        Err(ExtractProcessError::Shutdown)
    ));
    processor.end("sess-shutdown", &request.req_id, false);
    assert!(!processor.gate().state("sess-shutdown").extraction_in_progress);
    assert!(processor.begin(process_input("sess-shutdown", Vec::new()), "", 1, 6).is_ok());
}

#[test]
fn processor_concurrent_extraction_returns_busy() {
    let mut gate = ExtractGate::new();
    gate.set_state("sess-busy", state(0, true));
    let mut processor: ExtractProcessor<u32> = ExtractProcessor::new(gate);
    let result = processor.begin(process_input("sess-busy", Vec::new()), "", 0, 0);
    assert!(matches!(result, Err(ExtractProcessError::Busy)));
    assert!(processor.begin(process_input("sess-free", Vec::new()), "", 0, 0).is_ok());
}

#[test]
fn tier2_extract_memories_deliver_unknown_req_id_returns_false() {
    let mut processor: ExtractProcessor<u32> = ExtractProcessor::new(ExtractGate::new());
    let delivered = processor.deliver_result(&LlmCallResultPayload {
        req_id: "unknown".to_string(),
        response: Some("hi".to_string()),
        usage: None,
        error: None,
    });
    assert!(delivered.is_none());
}

#[test]
fn append_to_memory_index_dedups() {
    let lines = vec![
        "- [Existing](existing.md) — pre".to_string(),
        "- [New](new.md) — hook".to_string(),
    ];
    let content = append_to_memory_index("- [Existing](existing.md) — pre\n", &lines).unwrap();
    let occurrences = content.matches("- [Existing]").count();
    assert_eq!(occurrences, 1);
    assert!(content.contains("- [New](new.md) — hook"));
    assert!(append_to_memory_index(&content, &lines).is_none());
}

#[test]
fn append_to_memory_index_creates_if_missing() {
    let lines = vec!["- [First](first.md) — hook".to_string()];
    let content = append_to_memory_index("", &lines).unwrap();
    assert_eq!(content, "- [First](first.md) — hook\n");
    assert_eq!(
        append_to_memory_index("no newline", &lines).unwrap(),
        "no newline\n- [First](first.md) — hook\n"
    );
}

#[test]
fn oversized_index_is_noticed() {
    let line = "x\n";
    assert!(!index_is_oversized(&line.repeat(MEMORY_MD_INDEX_MAX_LINES)));
    assert!(index_is_oversized(&line.repeat(MEMORY_MD_INDEX_MAX_LINES + 1)));
}

#[test]
fn memory_files_are_named_after_blocks() {
    assert_eq!(memory_filename_of("project_foo"), "project_foo.md");
    assert_eq!(memory_filename_of("a/b"), "a_b.md");
}

#[test]
fn tier2_extract_memories_tier_gate_trait_decision_shape_round_trip() {
    let mut gate = ExtractGate::new();
    let d = gate.evaluate_gate(input("sess-rt-shape", true, flags_enabled(), 5)).unwrap();
    assert_eq!(d.should_trigger, false);
    assert_eq!(d.skip_reason.as_deref(), Some("remote_mode"));
}

#[test]
fn blocks_without_a_name_are_dropped() {
    let raw = "---\ntype: user\n---\nnameless\n---\nname: kept\ntype: user\n---\nbody";
    let blocks = parse_extraction_blocks(raw);
    assert_eq!(blocks.len(), 1);
    assert_eq!(blocks[0].name, "kept");
    assert!(blocks[0].full_content.starts_with("---"));
    assert!(blocks[0].full_content.ends_with("body\n"));
}

#[test]
fn written_blocks_are_read_back() {
    let raw = "- [T](a.md) \u{2014} hook\n---\nname: a\r\r\n type: user\n---\n\n\n- [x](y.md) z\nbody  \n\n---\nname: b\n---\n";
    let blocks = parse_extraction_blocks(raw);
    assert_eq!(blocks.len(), 2);
    for b in &blocks {
        let again = parse_extraction_blocks(&b.full_content);
        assert_eq!(again.len(), 1);
        assert_eq!(again[0].name, b.name);
        assert_eq!(again[0].kind, b.kind);
    }
}
