use memory_orchestrator::tier::daily_events::{
    record_parse_failure, record_theme_skipped_no_evidence,
};
use memory_orchestrator::tier::dream_calls::{
    build_phase4_messages, extract_first_json_value, ids_json_of, parse_phase0_json,
    parse_phase1_json, parse_phase2_json, parse_phase3_block, parse_phase4_json, DreamFileScan,
    TIER3_DREAM_PHASE0_PROMPT, TIER3_DREAM_PHASE1_ORIENT_PROMPT, TIER3_DREAM_PHASE2_GATHER_PROMPT,
    TIER3_DREAM_PHASE3_CONSOLIDATE_PROMPT, TIER3_DREAM_PHASE4_PRUNE_PROMPT,
};
use memory_orchestrator::tier::dream_files::{
    aged_fragments, auto_promote_insights, dreams_dir_has_duplicate_body, dreams_dir_overlaps,
    sanitize_name, scan_dreams_files, scan_insight_frontmatter, theme_filename,
    theme_filename_with, vocabulary_overlap, wants_pruning_call, AutoPromoteTier, BodyDigest,
    BodyWords, ListedFile, WrittenInsight, FRAGMENT_STALE_MS,
};
use memory_orchestrator::tier::dream_run::{DreamRun, DreamStage};
use memory_orchestrator::tier::tier2_extract_memories::append_to_memory_index;
use memory_orchestrator::tier::tier3_auto_dream::{
    settle_consolidate_lock, AutoDreamGate, AutoDreamGateError, AutoDreamGateInput, DreamGateStep,
    DreamProcessError, DreamProcessor, DreamReply, LockAttempt, LockSettlement, DEFAULT_MIN_HOURS,
    DEFAULT_MIN_SESSIONS, LLM_CALL_TIMEOUT_MS, SESSION_SCAN_INTERVAL_MS,
};
use memory_orchestrator::tier::{
    CallOutcome, GateDecision, LlmCallParams, LlmCallResultPayload, LlmMessage, LlmUsage, MemoryTier,
};

const NOW: u64 = 1_700_000_000_000;

fn insight(file_name: &str, confidence: &str) -> WrittenInsight {
    WrittenInsight {
        file_name: file_name.to_string(),
        raw: format!(
            "---\ntype: insight\nname: theme-x\ndescription: 用户偏好洞察\nconfidence: {confidence}\n---\n\nbody\n"
        ),
    }
}

#[test]
fn auto_promote_high_only_indexes_high_confidence_into_memory_md() {
    let insights = vec![insight("insight_a.md", "high"), insight("insight_b.md", "medium")];
    let lines = auto_promote_insights("", AutoPromoteTier::High, &insights);
    assert_eq!(lines.len(), 1);
    let index = append_to_memory_index("", &lines).unwrap();
    assert!(index.contains("(dreams/insight_a.md)"));
    assert!(!index.contains("insight_b.md"));
    assert!(index.contains("自动晋级"));
    assert_eq!(
        lines[0],
        "- [用户偏好洞察](dreams/insight_a.md) — 梦境洞察（high·自动晋级）"
    );
}

#[test]
fn auto_promote_off_writes_nothing_and_dedups_on_rerun() {
    let insights = vec![insight("insight_a.md", "high")];
    assert_eq!(auto_promote_insights("", AutoPromoteTier::Off, &insights).len(), 0);
    let mut index = String::new();
    for _ in 0..2 {
        let lines = auto_promote_insights(&index, AutoPromoteTier::Medium, &insights);
        if let Some(next) = append_to_memory_index(&index, &lines) {
            index = next;
        }
    }
    assert_eq!(index.matches("insight_a.md").count(), 1);
    assert!(auto_promote_insights(&index, AutoPromoteTier::Medium, &insights).is_empty());
    let more = vec![insight("insight_a.md", "high"), insight("insight_c.md", "high")];
    assert_eq!(auto_promote_insights(&index, AutoPromoteTier::High, &more).len(), 1);
}

#[test]
fn auto_promote_tier_parse_and_admits() {
    assert_eq!(AutoPromoteTier::parse("HIGH"), Some(AutoPromoteTier::High));
    assert_eq!(AutoPromoteTier::parse("off"), Some(AutoPromoteTier::Off));
    assert_eq!(AutoPromoteTier::parse("bogus"), None);
    assert!(AutoPromoteTier::High.admits("high"));
    assert!(!AutoPromoteTier::High.admits("medium"));
    assert!(AutoPromoteTier::Medium.admits("medium"));
    assert!(!AutoPromoteTier::Off.admits("high"));
    assert_eq!(AutoPromoteTier::default(), AutoPromoteTier::High);
}

#[test]
fn insight_titles_fall_back() {
    let named = WrittenInsight {
        file_name: "f.md".to_string(),
        raw: "---\nname: theme\nconfidence: high\n---\n".to_string(),
    };
    let bare = WrittenInsight {
        file_name: "g.md".to_string(),
        raw: "---\nconfidence: high\n---\n".to_string(),
    };
    let lines = auto_promote_insights("", AutoPromoteTier::High, &vec![named, bare]);
    assert!(lines[0].starts_with("- [theme](dreams/f.md)"));
    assert!(lines[1].starts_with("- [g.md](dreams/g.md)"));
    let head = scan_insight_frontmatter("no front matter");
    assert_eq!(head, (String::new(), String::new(), String::new()));
}

fn input(memory_dir: &str, touched: u32, forced: bool) -> AutoDreamGateInput {
    AutoDreamGateInput {
        memory_dir: memory_dir.to_string(),
        touched_session_count: touched,
        forced,
        forced_skip_lock: false,
        min_hours_override: 0,
        importance_pressure: false,
        min_sessions_override: 0,
        instance_key: String::new(),
    }
}

fn skip_of(step: DreamGateStep) -> Option<String> {
    match step {
        DreamGateStep::Skip(reason) => Some(reason),
        _ => None,
    }
}

#[test]
fn gate1_time_unmet_blocks() {
    let mut gate = AutoDreamGate::new();
    let step = gate.evaluate_gate(&input("/m", 99, false), Ok(NOW), NOW).unwrap();
    assert_eq!(skip_of(step).as_deref(), Some("time_gate_unmet"));
    let almost = NOW + DEFAULT_MIN_HOURS * 3_600_000 - 1;
    let step = gate.evaluate_gate(&input("/m", 99, false), Ok(NOW), almost).unwrap();
    assert_eq!(skip_of(step).as_deref(), Some("time_gate_unmet"));
    let step = gate.evaluate_gate(&input("/m", 99, false), Ok(NOW), almost + 1).unwrap();
    assert!(matches!(step, DreamGateStep::AcquireLock));
}

#[test]
fn gate1_time_satisfied_when_lock_absent() {
    let mut gate = AutoDreamGate::new();
    let inp = input("/m", DEFAULT_MIN_SESSIONS, false);
    let step = gate.evaluate_gate(&inp, Ok(0), NOW).unwrap();
    assert!(matches!(step, DreamGateStep::AcquireLock));
    let decision = gate
        .decide(&inp, "/m/.lock".to_string(), 42, LockAttempt::Acquired(0))
        .unwrap();
    assert!(decision.should_trigger);
    let payload = decision.payload.unwrap();
    assert_eq!(payload.lock_path, "/m/.lock");
    assert_eq!(payload.holder_pid, 42);
    assert_eq!(payload.touched_session_count_at_trigger, DEFAULT_MIN_SESSIONS);
}

#[test]
fn gate2_scan_throttled_blocks_repeat() {
    let mut gate = AutoDreamGate::new();
    let inp = input("/m", DEFAULT_MIN_SESSIONS, false);
    let _ = gate.evaluate_gate(&inp, Ok(0), NOW).unwrap();
    let step = gate.evaluate_gate(&inp, Ok(0), NOW + 1).unwrap();
    assert_eq!(skip_of(step).as_deref(), Some("scan_throttled"));
    let step = gate.evaluate_gate(&inp, Ok(0), NOW + SESSION_SCAN_INTERVAL_MS).unwrap();
    assert!(matches!(step, DreamGateStep::AcquireLock));
}

#[test]
fn gate3_session_count_unmet_blocks() {
    let mut gate = AutoDreamGate::new();
    let step = gate
        .evaluate_gate(&input("/m", DEFAULT_MIN_SESSIONS - 1, false), Ok(0), NOW)
        .unwrap();
    assert_eq!(skip_of(step).as_deref(), Some("session_count_unmet"));
}

#[test]
fn gate4_lock_held_skipped_when_a_running_holder_exists() {
    let mut gate = AutoDreamGate::new();
    let inp = input("/m", DEFAULT_MIN_SESSIONS, false);
    let held: GateDecision<_> = gate.decide(&inp, String::new(), 1, LockAttempt::Held).unwrap();
    assert_eq!(held.skip_reason.as_deref(), Some("lock_held"));
    let _ = gate.decide(&inp, String::new(), 1, LockAttempt::Acquired(0)).unwrap();
    let step = gate.evaluate_gate(&inp, Ok(0), NOW).unwrap();
    assert_eq!(skip_of(step).as_deref(), Some("dream_in_progress"));
    gate.release("", "/m");
    assert!(!gate.state("/m").dream_in_progress);
}

#[test]
fn gate_reports_lock_errors() {
    let mut gate = AutoDreamGate::new();
    let inp = input("/m", 9, false);
    match gate.evaluate_gate(&inp, Err("denied".to_string()), NOW) {
        Err(AutoDreamGateError::LockAcquire(m)) => assert_eq!(m, "denied"),
        _ => panic!("expected an error"),
    }
    match gate.decide(&inp, String::new(), 1, LockAttempt::Failed("broken".to_string())) {
        Err(AutoDreamGateError::LockAcquire(m)) => assert_eq!(m, "broken"),
        _ => panic!("expected an error"),
    }
}

#[test]
fn forced_skips_time_scan_session_gates() {
    let mut gate = AutoDreamGate::new();
    let step = gate.evaluate_gate(&input("/m", 0, true), Ok(NOW), NOW).unwrap();
    assert!(matches!(step, DreamGateStep::AcquireLock));
    assert_eq!(gate.state("/m").last_session_scan_at_ms, 0);
}

#[test]
fn forced_with_skip_lock_passes_even_when_lock_acquire_would_fail() {
    let mut gate = AutoDreamGate::new();
    let mut inp = input("/m", 0, true);
    inp.forced_skip_lock = true;
    let step = gate.evaluate_gate(&inp, Ok(NOW), NOW).unwrap();
    assert!(matches!(step, DreamGateStep::WithoutLock(LockAttempt::Acquired(NOW))));
}

#[test]
fn instance_key_overrides_memory_dir() {
    let mut gate = AutoDreamGate::new();
    let mut inp = input("/m", DEFAULT_MIN_SESSIONS, false);
    inp.instance_key = "custom-key".to_string();
    let _ = gate.evaluate_gate(&inp, Ok(0), NOW).unwrap();
    assert!(gate.state("custom-key").last_session_scan_at_ms > 0);
    assert_eq!(gate.state("/m").last_session_scan_at_ms, 0);
}

#[test]
fn w6_importance_pressure_bypasses_time_gate_only() {
    let mut gate = AutoDreamGate::new();
    let mut off = input("/m", 5, false);
    off.instance_key = "w6-pressure-off".to_string();
    let step = gate.evaluate_gate(&off, Ok(NOW), NOW).unwrap();
    assert_eq!(skip_of(step).as_deref(), Some("time_gate_unmet"));
    let mut on = input("/m", 5, false);
    on.instance_key = "w6-pressure-on".to_string();
    on.importance_pressure = true;
    let step = gate.evaluate_gate(&on, Ok(NOW), NOW).unwrap();
    assert!(matches!(step, DreamGateStep::AcquireLock));
    let mut few = input("/m", 0, false);
    few.instance_key = "w6-pressure-few".to_string();
    few.importance_pressure = true;
    let step = gate.evaluate_gate(&few, Ok(NOW), NOW).unwrap();
    assert_eq!(skip_of(step).as_deref(), Some("session_count_unmet"));
}

#[test]
fn tier3_auto_dream_tier_gate_trait_decision_shape_round_trip() {
    let mut gate = AutoDreamGate::new();
    let step = gate.evaluate_gate(&input("/m", 0, false), Ok(0), NOW).unwrap();
    assert_eq!(skip_of(step).as_deref(), Some("session_count_unmet"));
}

#[test]
fn process_success_releases_lock_with_fresh_mtime_and_is_reacquirable() {
    let mut run = new_run();
    assert!(run.accept_reflection(reply(1, r#"{"still_valid_ids":[],"stale_ids":[],"notes":""}"#)));
    assert!(run.accept_themes(reply(2, r#"{"themes":[]}"#)));
    let out = run.finish(Vec::new());
    assert_eq!(out.phases_completed, vec!["phase0", "phase1", "phase4"]);
    // A completion at 0 is one at the time that it is recorded.
    assert_eq!(
        settle_consolidate_lock(Some(7), 7, 7, true, None, 1_700_000_000_000),
        LockSettlement::Complete(0)
    );
    assert_eq!(
        settle_consolidate_lock(Some(7), 7, 7, true, Some(1234), 1_700_000_000_000),
        LockSettlement::Complete(1234)
    );
}

#[test]
fn process_failure_rolls_lock_back_to_prior_mtime_and_is_reacquirable() {
    let mut processor: DreamProcessor<u32> = DreamProcessor::new(AutoDreamGate::new());
    let request = processor.open_call("phase0", Vec::new(), None, LlmCallParams::default(), NOW, 3);
    let outcome = CallOutcome::Reply(LlmCallResultPayload {
        req_id: request.req_id.clone(),
        response: None,
        usage: None,
        error: Some("rate limited".to_string()),
    });
    let result = processor.close_call(request.req_id, outcome);
    assert!(matches!(result, Err(DreamProcessError::LlmFailure(_))));
    assert_eq!(
        settle_consolidate_lock(Some(7), 7, 7, result.is_ok(), None, 1_700_000_000_000),
        LockSettlement::Rollback(1_700_000_000_000)
    );
    assert_eq!(
        settle_consolidate_lock(Some(7), 7, 7, false, Some(1234), 99),
        LockSettlement::Rollback(99)
    );
}

#[test]
fn process_does_not_clobber_lock_when_we_are_not_the_holder() {
    assert_eq!(settle_consolidate_lock(Some(8), 7, 7, true, None, 0), LockSettlement::Leave);
    assert_eq!(settle_consolidate_lock(Some(7), 7, 9, true, None, 0), LockSettlement::Leave);
    assert_eq!(settle_consolidate_lock(None, 7, 7, true, None, 0), LockSettlement::Leave);
}

#[test]
fn phase0_parser_extracts_valid_and_stale_ids() {
    let raw = r#"{
  "still_valid_ids": ["insight_a", "insight_b"],
  "stale_ids": ["insight_c"],
  "notes": "consolidated"
}"#;
    let r = parse_phase0_json(raw).unwrap();
    assert_eq!(r.still_valid_ids, vec!["insight_a", "insight_b"]);
    assert_eq!(r.stale_ids, vec!["insight_c"]);
    assert_eq!(r.notes, "consolidated");
}

#[test]
fn phase0_parser_handles_fenced_output() {
    let raw = "```json\n{\"still_valid_ids\":[],\"stale_ids\":[],\"notes\":\"\"}\n```";
    let r = parse_phase0_json(raw).unwrap();
    assert!(r.still_valid_ids.is_empty());
    assert!(r.stale_ids.is_empty());
}

#[test]
fn phase0_parser_returns_none_on_invalid() {
    assert!(parse_phase0_json("not json").is_none());
}

#[test]
fn phase1_parser_extracts_themes() {
    let raw = r#"{"themes":[{"id":"t_alpha","label":"Alpha","rationale":"r1"},{"id":"t_beta","label":"Beta"}]}"#;
    let themes = parse_phase1_json(raw).unwrap();
    assert_eq!(themes.len(), 2);
    assert_eq!(themes[0].id, "t_alpha");
    assert_eq!(themes[1].label, "Beta");
}

#[test]
fn phase1_parser_empty_themes_array() {
    let themes = parse_phase1_json(r#"{"themes":[]}"#).unwrap();
    assert!(themes.is_empty());
}

#[test]
fn phase2_parser_extracts_evidence() {
    let raw = r#"{"evidence_refs":[{"source":"sess-1","snippet":"quote one","weight":0.8},{"source":"sess-2","snippet":"quote two","weight":0.3}]}"#;
    let e = parse_phase2_json(raw).unwrap();
    assert_eq!(e.len(), 2);
    assert_eq!(f64::from_bits(e[0].weight), 0.8);
    assert_eq!(e[1].snippet, "quote two");
}

#[test]
fn phase3_parser_extracts_block_with_confidence() {
    let raw = "---\nname: t_alpha\ntype: insight\ndescription: alpha\nconfidence: high\n---\n\nBody paragraph.\n\nSecond paragraph.";
    let b = parse_phase3_block(raw).unwrap();
    assert_eq!(b.confidence, "high");
    assert!(b.full_content.contains("name: t_alpha"));
    assert!(b.full_content.contains("Body paragraph"));
}

#[test]
fn phase3_parser_defaults_confidence_to_medium() {
    let raw = "---\nname: x\ntype: insight\n---\n\nBody.";
    let b = parse_phase3_block(raw).unwrap();
    assert_eq!(b.confidence, "medium");
}

#[test]
fn phase3_parser_returns_none_when_no_frontmatter() {
    assert!(parse_phase3_block("just text").is_none());
}

#[test]
fn phase4_parser_extracts_delete_ids() {
    let raw = r#"{"delete_ids":["f1","f2"]}"#;
    let ids = parse_phase4_json(raw).unwrap();
    assert_eq!(ids, vec!["f1", "f2"]);
}

#[test]
fn json_is_found_inside_prose() {
    let raw = "Sure! Here it is: {\"delete_ids\": [\"a}\"]} hope it helps {";
    assert_eq!(
        extract_first_json_value(raw).as_deref(),
        Some("{\"delete_ids\": [\"a}\"]}")
    );
    assert_eq!(parse_phase4_json(raw).unwrap(), vec!["a}"]);
}

fn listed(name: &str, mtime_ms: u64) -> ListedFile {
    ListedFile { name: name.to_string(), path: format!("/m/dreams/{name}"), mtime_ms }
}

#[test]
fn scan_returns_empty_when_dir_absent() {
    assert!(scan_dreams_files(&Vec::new(), "insight_").is_empty());
}

#[test]
fn scan_filters_by_prefix_and_extension() {
    let files = vec![
        listed("insight_beta.md", 2),
        listed("insight_alpha.md", 1),
        listed("fragment_gamma.md", 3),
        listed("other.txt", 4),
    ];
    let insights = scan_dreams_files(&files, "insight_");
    assert_eq!(insights.len(), 2);
    assert_eq!(insights[0].id, "alpha");
    assert_eq!(insights[1].id, "beta");
    let fragments = scan_dreams_files(&files, "fragment_");
    assert_eq!(fragments.len(), 1);
    assert_eq!(fragments[0].id, "gamma");
}

fn reply(n: u32, response: &str) -> DreamReply {
    DreamReply {
        req_id: format!("r{n}"),
        response: response.to_string(),
        usage: Some(LlmUsage { input_tokens: 10, output_tokens: n }),
    }
}

fn new_run() -> DreamRun {
    DreamRun::new(
        "/m".to_string(),
        "sessions".to_string(),
        "manifest".to_string(),
        String::new(),
    )
}

const REFLECTION: &str = r#"{"still_valid_ids":[],"stale_ids":["gone"],"notes":""}"#;
const EVIDENCE: &str = r#"{"evidence_refs":[{"source":"s","snippet":"q","weight":0.5}]}"#;

#[test]
fn processor_full_pipeline_writes_insight_and_runs_phase4() {
    let mut run = new_run();
    assert!(run.accept_reflection(reply(1, REFLECTION)));
    assert!(run.accept_themes(reply(2, r#"{"themes":[{"id":"theme_alpha","label":"Alpha"}]}"#)));
    assert_eq!(run.stage, DreamStage::Gather);
    assert!(run.gather_messages()[0].content.contains("theme_alpha"));
    assert!(run.accept_evidence(reply(3, EVIDENCE)));
    assert_eq!(run.stage, DreamStage::Consolidate);
    let messages = run.consolidate_messages(&vec!["0.50".to_string()]);
    assert!(messages[0].content.contains("theme_alpha"));
    let block = "---\nname: theme_alpha\ntype: insight\nconfidence: high\n---\n\nBody.";
    assert!(run.accept_block(reply(4, block)));
    let candidate = run.candidate.clone().unwrap();
    assert!(candidate.path.starts_with("/m/dreams/insight_theme_alpha_"));
    assert!(!candidate.is_fragment);
    run.record_stored(false);
    assert_eq!(run.stage, DreamStage::Prune);
    let fragments = vec![DreamFileScan {
        id: "gone".to_string(),
        path: "/m/dreams/fragment_gone.md".to_string(),
        mtime_ms: NOW,
    }];
    assert!(run.prune_messages(&fragments, NOW).is_some());
    let (pruned, readable) =
        run.accept_prune(reply(5, r#"{"delete_ids":["gone","unknown"]}"#), &fragments, NOW);
    assert!(readable);
    assert_eq!(pruned.len(), 1);
    let out = run.finish(vec![pruned[0].path.clone()]);
    assert_eq!(out.phases_completed, vec!["phase0", "phase1", "phase2", "phase3", "phase4"]);
    assert_eq!(out.insight_paths.len(), 1);
    assert!(out.fragment_paths.is_empty());
    assert_eq!(out.pruned_paths, vec!["/m/dreams/fragment_gone.md"]);
    assert_eq!(out.req_ids, vec!["r1", "r2", "r3", "r4", "r5"]);
    assert_eq!(out.theme_ids, vec!["theme_alpha"]);
    let usage = out.aggregate_usage.unwrap();
    assert_eq!((usage.input_tokens, usage.output_tokens), (50, 15));
    assert_eq!(out.parse_failures, 0);
}

#[test]
fn processor_no_themes_skips_phase2_3_runs_phase4_only() {
    let mut run = new_run();
    run.accept_reflection(reply(1, REFLECTION));
    assert!(run.accept_themes(reply(2, r#"{"themes":[]}"#)));
    assert_eq!(run.stage, DreamStage::Prune);
    assert!(run.prune_messages(&Vec::new(), NOW).is_none());
    let out = run.finish(Vec::new());
    assert_eq!(out.phases_completed, vec!["phase0", "phase1", "phase4"]);
    assert!(out.theme_ids.is_empty());
}

#[test]
fn processor_low_confidence_block_lands_as_fragment() {
    let mut run = DreamRun::new(
        "/m".to_string(),
        "u: hi\na: hi".to_string(),
        String::new(),
        String::new(),
    );
    assert!(run.accept_reflection(reply(1, r#"{"still_valid_ids":[],"stale_ids":[],"notes":""}"#)));
    assert!(run.accept_themes(reply(2, r#"{"themes":[{"id":"weak_theme","label":"Weak"}]}"#)));
    assert!(run.accept_evidence(reply(
        3,
        r#"{"evidence_refs":[{"source":"sess-1","snippet":"tiny","weight":0.2}]}"#,
    )));
    assert!(run.accept_block(reply(
        4,
        "---\nname: weak_theme\ntype: insight\ndescription: weak\nconfidence: low\n---\n\nWeak body.",
    )));
    let path = run.candidate.as_ref().unwrap().path.clone();
    run.record_stored(false);
    let fresh = vec![DreamFileScan { id: "weak_theme".to_string(), path: path.clone(), mtime_ms: NOW }];
    assert!(run.prune_messages(&fresh, NOW).is_none());
    assert!(run.prune_by_age(&fresh, NOW).is_empty());
    let out = run.finish(Vec::new());
    assert!(out.insight_paths.is_empty());
    assert_eq!(out.fragment_paths.len(), 1);
    assert_eq!(out.fragment_paths[0], path);
    assert!(path.starts_with("/m/dreams/fragment_weak_theme"));
    assert_eq!(out.req_ids.len(), 4);
}

#[test]
fn themes_without_evidence_are_skipped_honestly() {
    let mut run = new_run();
    run.accept_reflection(reply(1, REFLECTION));
    run.accept_themes(reply(2, r#"{"themes":[{"id":"a","label":"A"},{"id":"b","label":"B"}]}"#));
    assert!(run.accept_evidence(reply(3, r#"{"evidence_refs":[]}"#)));
    assert_eq!(run.stage, DreamStage::Gather);
    assert!(!run.accept_evidence(reply(4, "garbage")));
    assert_eq!(run.stage, DreamStage::Prune);
    let out = run.finish(Vec::new());
    assert_eq!(out.themes_skipped_no_evidence, 1);
    assert_eq!(out.parse_failures, 1);
    assert!(out.insight_paths.is_empty() && out.fragment_paths.is_empty());
    assert_eq!(out.phases_completed, vec!["phase0", "phase1", "phase2", "phase4"]);
}

#[test]
fn redundant_memories_are_not_reported() {
    let mut run = new_run();
    run.accept_reflection(reply(1, REFLECTION));
    run.accept_themes(reply(2, r#"{"themes":[{"id":"a","label":"A"}]}"#));
    run.accept_evidence(reply(3, EVIDENCE));
    run.accept_block(reply(4, "---\nname: a\nconfidence: high\n---\n\nBody."));
    run.record_stored(true);
    let out = run.finish(Vec::new());
    assert!(out.insight_paths.is_empty());
    assert!(out.fragment_paths.is_empty());
}

#[test]
fn parse_failures_are_counted_and_daily_logged() {
    let mut run = new_run();
    let mut logged = Vec::new();
    let phase = run.stage.phase();
    assert!(!run.accept_reflection(reply(1, "definitely not json")));
    logged.push(record_parse_failure("/p", phase, NOW, run.tally.parse_failures));
    let phase = run.stage.phase();
    assert!(!run.accept_themes(reply(2, "still not json")));
    logged.push(record_parse_failure("/p", phase, NOW, run.tally.parse_failures));
    assert_eq!(run.stage, DreamStage::Prune);
    assert_eq!(run.stage.phase(), "phase4");
    let out = run.finish(Vec::new());
    assert_eq!(out.phases_completed, vec!["phase0", "phase1", "phase4"]);
    assert_eq!(out.parse_failures, 2);
    assert_eq!(logged[0].kind, "memory.dream.parse_failure");
    assert_eq!(logged[1].kind, "memory.dream.parse_failure");
    assert_eq!(logged[0].payload, vec![("phase".to_string(), "phase0".to_string())]);
    assert_eq!(logged[1].payload, vec![("phase".to_string(), "phase1".to_string())]);
    assert_ne!(logged[0].event_id, logged[1].event_id);
}

#[test]
fn clean_run_reports_zero_parse_failures() {
    let mut run = new_run();
    run.accept_reflection(reply(1, REFLECTION));
    run.accept_themes(reply(2, r#"{"themes":[]}"#));
    assert_eq!(run.finish(Vec::new()).parse_failures, 0);
}

#[test]
fn processor_phase0_llm_failure_propagates() {
    let mut processor: DreamProcessor<u32> = DreamProcessor::new(AutoDreamGate::new());
    let request = processor.open_call("phase0", Vec::new(), None, LlmCallParams::default(), NOW, 3);
    let outcome = CallOutcome::Reply(LlmCallResultPayload {
        req_id: request.req_id.clone(),
        response: None,
        usage: None,
        error: Some("upstream down".to_string()),
    });
    match processor.close_call(request.req_id, outcome) {
        Err(DreamProcessError::LlmFailure(m)) => assert_eq!(m, "upstream down"),
        _ => panic!("expected a failure"),
    }
    match processor.close_call("x".to_string(), CallOutcome::Elapsed) {
        Err(DreamProcessError::Timeout(ms)) => assert_eq!(ms, LLM_CALL_TIMEOUT_MS),
        _ => panic!("expected a timeout"),
    }
    match processor.close_call("x".to_string(), CallOutcome::Closed) {
        Err(DreamProcessError::Shutdown) => {}
        _ => panic!("expected a shutdown"),
    }
}

#[test]
fn processor_deliver_unknown_req_id_returns_false() {
    let mut processor: DreamProcessor<u32> = DreamProcessor::new(AutoDreamGate::new());
    let r = processor.deliver_result(&LlmCallResultPayload {
        req_id: "unknown-tier3".to_string(),
        response: Some("hi".to_string()),
        usage: None,
        error: None,
    });
    assert!(r.is_none());
}

#[test]
fn req_id_uses_tier3_prefix_with_phase() {
    let mut processor: DreamProcessor<u32> = DreamProcessor::new(AutoDreamGate::new());
    let messages = vec![LlmMessage { role: "user".to_string(), content: "hi".to_string() }];
    let request =
        processor.open_call("phaseX", messages, None, LlmCallParams::default(), NOW, 0);
    assert!(request.req_id.starts_with("tier3-phaseX-"), "got: {}", request.req_id);
    assert_eq!(request.req_id, format!("tier3-phaseX-1-{NOW}"));
    assert_eq!(request.tier, MemoryTier::Dream);
    assert_eq!(request.phase.as_deref(), Some("phaseX"));
    let next = processor.open_call("phaseX", Vec::new(), None, LlmCallParams::default(), NOW, 1);
    assert_ne!(next.req_id, request.req_id);
}

fn fragment(id: &str, mtime_ms: u64) -> DreamFileScan {
    DreamFileScan { id: id.to_string(), path: format!("/m/dreams/fragment_{id}.md"), mtime_ms }
}

#[test]
fn phase4_age_based_prunes_old_fragments_without_llm_delete_id() {
    let fragments = vec![
        fragment("old", NOW - FRAGMENT_STALE_MS - 1),
        fragment("young", NOW - FRAGMENT_STALE_MS),
        fragment("unknown", 0),
    ];
    let aged = aged_fragments(&fragments, NOW);
    assert_eq!(aged.len(), 1);
    assert_eq!(aged[0].id, "old");
    assert!(wants_pruning_call(&fragments, &Vec::new(), NOW));
    assert!(!wants_pruning_call(&vec![fragment("young", NOW)], &Vec::new(), NOW));
    assert!(!wants_pruning_call(&Vec::new(), &vec!["x".to_string()], NOW));
    let mut run = new_run();
    run.accept_reflection(reply(1, REFLECTION));
    run.accept_themes(reply(2, r#"{"themes":[]}"#));
    let (pruned, readable) = run.accept_prune(reply(3, r#"{"delete_ids":[]}"#), &fragments, NOW);
    assert!(readable);
    assert_eq!(pruned.len(), 1);
    assert_eq!(pruned[0].id, "old");
}

#[test]
fn stale_and_named_fragments_are_pruned_once() {
    let fragments = vec![
        fragment("old", NOW - FRAGMENT_STALE_MS - 1),
        fragment("named", NOW),
        fragment("kept", NOW),
    ];
    let mut run = new_run();
    run.accept_reflection(reply(1, REFLECTION));
    run.accept_themes(reply(2, r#"{"themes":[]}"#));
    let ids = r#"{"delete_ids":["named","old","named","absent"]}"#;
    let (pruned, _) = run.accept_prune(reply(3, ids), &fragments, NOW);
    let names: Vec<&str> = pruned.iter().map(|f| f.id.as_str()).collect();
    assert_eq!(names, vec!["old", "named"]);
}

#[test]
fn stages_belong_to_phases() {
    assert_eq!(DreamStage::Reflect.phase(), "phase0");
    assert_eq!(DreamStage::Orient.phase(), "phase1");
    assert_eq!(DreamStage::Gather.phase(), "phase2");
    assert_eq!(DreamStage::Consolidate.phase(), "phase3");
    assert_eq!(DreamStage::Store.phase(), "phase3");
    assert_eq!(DreamStage::Prune.phase(), "phase4");
}

#[test]
fn stale_ids_are_shown_as_json() {
    let ids = vec!["a\"b".to_string(), "c".to_string()];
    assert_eq!(ids_json_of(&ids), r#"["a\"b","c"]"#);
    assert_eq!(ids_json_of(&Vec::new()), "[]");
    assert_eq!(
        ids_json_of(&vec!["\u{8}\t\n\u{c}\r\\".to_string(), "\u{1}\u{1f}\u{7f}é/".to_string()]),
        "[\"\\b\\t\\n\\f\\r\\\\\",\"\\u0001\\u001f\u{7f}é/\"]"
    );
    let messages = build_phase4_messages(&ids_json_of(&ids), &vec![fragment("x", 1)]);
    assert!(messages[0].content.contains(r#"["a\"b","c"]"#));
}

fn body(name: &str, digest: Vec<u8>) -> BodyDigest {
    BodyDigest { name: name.to_string(), path: format!("/m/dreams/{name}"), digest }
}

#[test]
fn w6_dreams_duplicate_body_detection() {
    let files = vec![body("insight_existing.md", vec![1, 2, 3])];
    assert!(dreams_dir_has_duplicate_body(&files, "/m/dreams/insight_other.md", &vec![1, 2, 3]));
    assert!(!dreams_dir_has_duplicate_body(
        &files,
        "/m/dreams/insight_existing.md",
        &vec![1, 2, 3]
    ));
    assert!(!dreams_dir_has_duplicate_body(&files, "/m/dreams/insight_other.md", &vec![1, 2, 4]));
    let other = vec![body("notes.txt", vec![1, 2, 3])];
    assert!(!dreams_dir_has_duplicate_body(&other, "/m/dreams/insight_other.md", &vec![1, 2, 3]));
}

fn words(s: &str) -> Vec<String> {
    s.split_whitespace().map(|w| w.to_string()).collect()
}

#[test]
fn vocabularies_are_compared_as_sets() {
    let a = words("a b c d e f g h i j k l l l");
    let b = words("a b c d e f g h i j k m n");
    assert_eq!(vocabulary_overlap(&a, &b), Some((11, 14)));
    assert_eq!(vocabulary_overlap(&a, &a), Some((12, 12)));
    assert_eq!(vocabulary_overlap(&words("a b c"), &b), None);
    assert_eq!(vocabulary_overlap(&b, &words("a a a a a a a a a a a a")), None);
}

#[test]
fn near_duplicates_are_sought_among_other_memory_files() {
    let file = |name: &str, text: &str| BodyWords {
        name: name.to_string(),
        path: format!("/m/dreams/{name}"),
        words: words(text),
    };
    let files = vec![
        file("insight_new.md", "a b c d e f g h i j k l"),
        file("insight_a.md", "a b c d e f g h i j k l m"),
        file("notes.txt", "a b c d e f g h i j k l"),
        file("insight_short.md", "a b c"),
        file("insight_b.md", "n o p q r s t u v w x y z"),
    ];
    let new = words("a b c d e f g h i j k l");
    let target = "/m//dreams/insight_new.md";
    let found = dreams_dir_overlaps(&files, target, &new, 0.85_f64.to_bits());
    assert_eq!(found, vec![(12, 13), (0, 25)]);
    assert!(found.iter().any(|p| p.0 as f64 / p.1 as f64 >= 0.85));
    assert!(dreams_dir_overlaps(&files, target, &new, 1.0_f64.to_bits()).is_empty());
    assert!(dreams_dir_overlaps(&files, target, &words("a b"), 0.5_f64.to_bits()).is_empty());
}

#[test]
fn theme_filename_appends_short_hash_and_disambiguates_sanitize_collisions() {
    assert_eq!(
        theme_filename("insight_", "theme_alpha"),
        theme_filename("insight_", "theme_alpha")
    );
    let a = theme_filename("insight_", "a/b");
    let b = theme_filename("insight_", "a b");
    assert_eq!(sanitize_name("a/b"), sanitize_name("a b"), "collision premise");
    assert_ne!(a, b, "sanitize-colliding theme ids must get distinct files");
    assert!(a.starts_with("insight_a_b_"), "got: {a}");
    assert!(a.ends_with(".md"));
    let hash_part = a.strip_prefix("insight_a_b_").and_then(|s| s.strip_suffix(".md")).unwrap();
    assert_eq!(hash_part.len(), 8, "8-hex short hash, got: {hash_part}");
    assert!(hash_part.chars().all(|c| c.is_ascii_hexdigit()));
    assert!(theme_filename("fragment_", "weak_theme").starts_with("fragment_weak_theme_"));
    assert_eq!(
        theme_filename_with("insight_", "x y", &vec![0x0a, 0xff, 0x00, 0x10, 0x99]),
        "insight_x_y_0aff0010.md"
    );
}

#[test]
fn theme_hash_is_the_sha256_prefix() {
    assert_eq!(theme_filename("insight_", "abc"), "insight_abc_ba7816bf.md");
}

#[test]
fn prompt_templates_have_required_placeholders() {
    assert!(TIER3_DREAM_PHASE0_PROMPT.contains("{{prior_insights}}"));
    assert!(TIER3_DREAM_PHASE1_ORIENT_PROMPT.contains("{{session_summary}}"));
    assert!(TIER3_DREAM_PHASE1_ORIENT_PROMPT.contains("{{memdir_summary}}"));
    assert!(TIER3_DREAM_PHASE2_GATHER_PROMPT.contains("{{theme_id}}"));
    assert!(TIER3_DREAM_PHASE2_GATHER_PROMPT.contains("{{session_excerpts}}"));
    assert!(TIER3_DREAM_PHASE3_CONSOLIDATE_PROMPT.contains("{{theme_id}}"));
    assert!(TIER3_DREAM_PHASE3_CONSOLIDATE_PROMPT.contains("{{evidence_list}}"));
    assert!(TIER3_DREAM_PHASE4_PRUNE_PROMPT.contains("{{stale_ids}}"));
    assert!(TIER3_DREAM_PHASE4_PRUNE_PROMPT.contains("{{fragment_list}}"));
}

#[test]
fn prompt_templates_carry_no_brand_literals() {
    let banned = ["gpt-", "deepseek", "qwen", "gemini", "anthropic", "openai"];
    for prompt in [
        TIER3_DREAM_PHASE0_PROMPT,
        TIER3_DREAM_PHASE1_ORIENT_PROMPT,
        TIER3_DREAM_PHASE2_GATHER_PROMPT,
        TIER3_DREAM_PHASE3_CONSOLIDATE_PROMPT,
        TIER3_DREAM_PHASE4_PRUNE_PROMPT,
    ] {
        let lower = prompt.to_lowercase();
        for b in banned {
            assert!(!lower.contains(b), "prompt contains banned brand literal {b:?}");
        }
    }
}

#[test]
fn sanitize_name_replaces_unsafe_chars() {
    assert_eq!(sanitize_name("ok_id"), "ok_id");
    assert_eq!(sanitize_name("ok-1.2"), "ok-1.2");
    assert_eq!(sanitize_name("../etc/passwd"), ".._etc_passwd");
    assert_eq!(sanitize_name("with space"), "with_space");
}

#[test]
fn dream_events_name_their_cause() {
    let event = record_parse_failure("/p", "phase2", 1_700, 3);
    assert_eq!(event.event_id, "tier3-dream-parse-failure-phase2-1700-3");
    assert_eq!(event.kind, "memory.dream.parse_failure");
    assert_eq!(event.session_id, "tier3-dream");
    assert_eq!(event.transcript_path, "/p/tier3-dream.jsonl");
    assert_eq!(event.occurred_at_ms, 1_700);
    assert_eq!(event.payload, vec![("phase".to_string(), "phase2".to_string())]);
    let skipped = record_theme_skipped_no_evidence("/p", "themeA", 5, 1);
    assert_eq!(skipped.event_id, "tier3-dream-no-evidence-5-1");
    assert_eq!(skipped.kind, "memory.dream.theme_skipped_no_evidence");
    assert_eq!(skipped.payload, vec![("theme_id".to_string(), "themeA".to_string())]);
}
