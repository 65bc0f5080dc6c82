use memory_orchestrator::table::Table;
use memory_orchestrator::turn_end::{evaluate_turn_end, TurnEndStage};
use memory_orchestrator::turn_evaluator::{
    dream_gate_flags, dream_work, evaluate_dream_run_now, evaluate_extract_run_now,
    extract_gate_flags, extract_work, next_trigger_id, requested_kinds, runner_work_key,
    saves_cursor, settings_in_force,
    trigger_id_with, validate_absolute_clean_path, validate_canonical_uuid,
    validate_evaluate_recovery_inputs, validate_trigger_subject, DreamGateFindings,
    DreamNowFindings, DreamRunNowRequest, DreamSettings, DurableRunnerWork, ExtractFindings, ExtractRunNowRequest,
    RunnerDetails, RunnerKind, RunnerRecoveryLocator, TurnEndEvaluateRequest,
    RUNNER_RECOVERY_SCHEMA_VERSION,
};

const SESSION_ID: &str = "550e8400-e29b-41d4-a716-446655440000";
const OTHER_SESSION: &str = "660e8400-e29b-41d4-a716-446655440000";
const LAST_ASSISTANT_ID: &str = "770e8400-e29b-41d4-a716-446655440000";

fn request(kinds: Vec<RunnerKind>) -> TurnEndEvaluateRequest {
    let mut counts = Table::new();
    counts.put("user".to_owned(), 1);
    counts.put("assistant".to_owned(), 1);
    let mut flags = Table::new();
    flags.put("EXTRACT_MEMORIES".to_owned(), true);
    flags.put("auto_memory_enabled".to_owned(), true);
    flags.put("auto_dream_enabled".to_owned(), true);
    TurnEndEvaluateRequest {
        recovery_schema_version: RUNNER_RECOVERY_SCHEMA_VERSION,
        session_id: SESSION_ID.to_owned(),
        current_session_id: SESSION_ID.to_owned(),
        last_assistant_uuid: LAST_ASSISTANT_ID.to_owned(),
        project_cwd: "/dir".to_owned(),
        transcript_path: format!("/dir/{SESSION_ID}.jsonl"),
        memory_dir: "/dir/memory".to_owned(),
        team_memory_dir: None,
        message_counts: counts,
        feature_flags: flags,
        requested_kinds: kinds,
        now_ms: 1_700_200_000_000,
    }
}

fn extract_findings() -> ExtractFindings {
    ExtractFindings {
        previous_cursor_uuid: None,
        last_assistant_uuid: LAST_ASSISTANT_ID.to_owned(),
        new_message_count: 2,
        total_model_visible: Some(2),
    }
}

fn extract(request: &TurnEndEvaluateRequest) -> DurableRunnerWork {
    let id = next_trigger_id(RunnerKind::Extract);
    extract_work(request, extract_findings(), &id).unwrap()
}

fn dream_findings() -> DreamGateFindings {
    DreamGateFindings {
        lock_token: "token".to_owned(),
        prior_mtime_ms: 5,
        session_ids: vec![OTHER_SESSION.to_owned()],
        sessions_since_last_consolidation: 1,
        last_consolidated_at_ms: 0,
        hours_since_last_consolidation: 30,
        min_hours: 24,
        min_sessions: 1,
    }
}

#[test]
fn a_turn_asks_and_registers_in_order() {
    let mut turn = evaluate_turn_end(request(Vec::new())).ok().unwrap();
    assert_eq!(turn.project_state_dir, "/dir");
    assert_eq!(turn.stage, TurnEndStage::AskDream);
    assert!(turn.dream_flags().auto_memory_enabled);
    turn.dream_answered(Some(dream_findings()), &next_trigger_id(RunnerKind::Dream));
    assert_eq!(turn.stage, TurnEndStage::RegisterDream);
    assert_eq!(turn.lock_to_restore(), Some(5));
    assert!(turn.work.as_ref().unwrap().validate().is_ok());
    turn.registered();
    assert_eq!(turn.stage, TurnEndStage::AskExtract);
    assert!(turn.extract_flags().enabled);
    turn.extract_answered(Some(extract_findings()), &next_trigger_id(RunnerKind::Extract));
    assert_eq!(turn.stage, TurnEndStage::RegisterExtract);
    assert_eq!(turn.lock_to_restore(), None);
    turn.registered();
    assert_eq!(turn.stage, TurnEndStage::Done);
    let triggers = turn.finish().triggers;
    let kinds: Vec<RunnerKind> = triggers.iter().map(|t| t.kind).collect();
    assert_eq!(kinds, vec![RunnerKind::Dream, RunnerKind::Extract]);
    assert!(triggers[0].lock_token.is_some());
    assert!(triggers[1].lock_token.is_none());
}

#[test]
fn nothing_due_gives_no_runner() {
    let mut turn = evaluate_turn_end(request(vec![RunnerKind::Dream])).ok().unwrap();
    turn.dream_answered(None, &next_trigger_id(RunnerKind::Dream));
    assert_eq!(turn.stage, TurnEndStage::Done);
    assert!(turn.finish().triggers.is_empty());
    let mut turn = evaluate_turn_end(request(vec![RunnerKind::Extract])).ok().unwrap();
    assert_eq!(turn.stage, TurnEndStage::AskExtract);
    turn.extract_answered(None, &next_trigger_id(RunnerKind::Extract));
    assert!(turn.finish().triggers.is_empty());
    let mut bad = request(Vec::new());
    bad.project_cwd = String::new();
    assert_eq!(
        evaluate_turn_end(bad).err().unwrap().message,
        "project_cwd must be absolute"
    );
}

#[test]
fn turn_evaluator_returns_only_requested_extract_trigger() {
    let q = request(vec![RunnerKind::Extract]);
    let kinds = requested_kinds(&q.requested_kinds);
    assert!(kinds.extract && !kinds.dream);
    let both = requested_kinds(&Vec::new());
    assert!(both.extract && both.dream);
    let work = extract(&q);
    assert_eq!(work.trigger.kind, RunnerKind::Extract);
    assert_eq!(
        work.trigger.runner_payload.last_assistant_uuid.as_deref(),
        Some(LAST_ASSISTANT_ID)
    );
    assert!(work.trigger.lock_token.is_none());
}

#[test]
fn turn_evaluator_returns_dream_trigger_with_lock_when_gate_passes() {
    let q = request(vec![RunnerKind::Dream]);
    let findings = DreamGateFindings {
        lock_token: "token".to_owned(),
        prior_mtime_ms: 5,
        session_ids: vec![OTHER_SESSION.to_owned()],
        sessions_since_last_consolidation: 1,
        last_consolidated_at_ms: 0,
        hours_since_last_consolidation: 30,
        min_hours: 24,
        min_sessions: 1,
    };
    let id = next_trigger_id(RunnerKind::Dream);
    let work = dream_work(&q, findings, &id).unwrap();
    assert_eq!(work.trigger.kind, RunnerKind::Dream);
    assert_eq!(work.trigger.lock_token.as_deref(), Some("token"));
    match &work.trigger.runner_payload.details {
        RunnerDetails::Dream { sessions_since_last_consolidation, prior_mtime_ms, .. } => {
            assert_eq!(*sessions_since_last_consolidation, 1);
            assert_eq!(*prior_mtime_ms, 5);
        }
        _ => panic!("expected a dream"),
    }
    assert_eq!(work.trigger.runner_payload.transcript_dir.as_deref(), Some("/dir"));
    assert_eq!(work.pending.kind, "dream");
    assert!(work.validate().is_ok());
}

#[test]
fn turn_evaluator_registers_pending_trigger_for_completion() {
    let work = extract(&request(vec![RunnerKind::Extract]));
    assert_eq!(work.pending.trigger_id, work.trigger.trigger_id);
    assert_eq!(work.pending.kind, "extract");
    assert_eq!(work.pending.registered_at_ms, 1_700_200_000_000);
    assert_eq!(work.pending.extract_total_model_visible, Some(2));
}

#[test]
fn durable_runner_work_persists_exact_versioned_recovery_locator() {
    let work = extract(&request(vec![RunnerKind::Extract]));
    assert!(work.validate().is_ok());
    let r = &work.recovery;
    assert_eq!(r.recovery_schema_version, RUNNER_RECOVERY_SCHEMA_VERSION);
    assert_eq!(r.trigger_id, work.trigger.trigger_id);
    assert_eq!(r.kind, RunnerKind::Extract);
    assert_eq!(r.session_id, SESSION_ID);
    assert_eq!(r.current_session_id, SESSION_ID);
    assert_eq!(r.context_leaf_uuid, LAST_ASSISTANT_ID);
    assert_eq!(r.project_cwd, "/dir");
    assert_eq!(r.transcript_path, format!("/dir/{SESSION_ID}.jsonl"));
    assert_eq!(r.memory_dir, "/dir/memory");
    assert_eq!(r.project_state_dir, "/dir");
    assert_eq!(
        runner_work_key(&work.trigger.trigger_id),
        format!("runner:{}", work.trigger.trigger_id)
    );
}

fn rejection(q: &TurnEndEvaluateRequest) -> String {
    validate_evaluate_recovery_inputs(q).err().unwrap().message
}

#[test]
fn invalid_recovery_authority_is_rejected_before_gate_or_cursor_mutation() {
    assert_eq!(validate_evaluate_recovery_inputs(&request(Vec::new())).unwrap(), "/dir");

    let mut wrong_schema = request(vec![RunnerKind::Extract]);
    wrong_schema.recovery_schema_version = RUNNER_RECOVERY_SCHEMA_VERSION + 1;
    assert_eq!(rejection(&wrong_schema), "unsupported runner recovery_schema_version 2");

    let mut invalid_uuid = request(vec![RunnerKind::Extract]);
    invalid_uuid.last_assistant_uuid = "not-a-uuid".to_owned();
    assert_eq!(rejection(&invalid_uuid), "last_assistant_uuid must be a UUID");

    let mut relative_cwd = request(vec![RunnerKind::Extract]);
    relative_cwd.project_cwd = "relative/project".to_owned();
    assert_eq!(rejection(&relative_cwd), "project_cwd must be absolute");

    let mut wrong_transcript = request(vec![RunnerKind::Extract]);
    wrong_transcript.transcript_path = "/dir/different-session.jsonl".to_owned();
    assert_eq!(rejection(&wrong_transcript), "transcript_path filename must match session_id");

    let mut traversing_memory = request(vec![RunnerKind::Extract]);
    traversing_memory.memory_dir = "/dir/nested/../memory".to_owned();
    assert_eq!(
        rejection(&traversing_memory),
        "memory_dir must not contain '.' or '..' components"
    );

    let mut team = request(vec![RunnerKind::Extract]);
    team.team_memory_dir = Some("team".to_owned());
    assert_eq!(rejection(&team), "team_memory_dir must be absolute");

    let mut top = request(vec![RunnerKind::Extract]);
    top.memory_dir = "/memory".to_owned();
    assert_eq!(
        rejection(&top),
        "project_state_dir must not be empty, root-only, or contain NUL"
    );
}

#[test]
fn durable_work_validation_detects_cross_field_locator_tampering() {
    let mut work = extract(&request(vec![RunnerKind::Extract]));
    work.recovery.context_leaf_uuid = OTHER_SESSION.to_owned();
    assert_eq!(
        work.validate().err().unwrap().message,
        "extract assistant UUID does not match recovery locator"
    );
}

#[test]
fn locators_of_relative_directories_are_refused() {
    let id = next_trigger_id(RunnerKind::Dream);
    let mut q = request(Vec::new());
    for dir in ["", "memory", "state/memory"] {
        q.memory_dir = dir.to_owned();
        let e = RunnerRecoveryLocator::from_evaluate_request(&q, &id, RunnerKind::Dream);
        assert_eq!(e.err().unwrap().message, "memory_dir must be absolute");
    }
    q.memory_dir = "/dir/memory".to_owned();
    let l = RunnerRecoveryLocator::from_evaluate_request(&q, &id, RunnerKind::Dream).ok().unwrap();
    assert_eq!(l.project_state_dir, "/dir");
}

#[test]
fn an_extraction_up_to_another_message_is_faulty() {
    let mut turn = evaluate_turn_end(request(vec![RunnerKind::Extract])).ok().unwrap();
    let mut found = extract_findings();
    found.last_assistant_uuid = OTHER_SESSION.to_owned();
    turn.extract_answered(Some(found), &next_trigger_id(RunnerKind::Extract));
    assert_eq!(
        turn.work.as_ref().unwrap().validate().err().unwrap().message,
        "extract assistant UUID does not match recovery locator"
    );
}

#[test]
fn every_disagreement_is_named() {
    let fresh = || extract(&request(vec![RunnerKind::Extract]));
    let fault = |w: &DurableRunnerWork| w.validate().err().unwrap().message;

    let mut w = fresh();
    w.pending.trigger_id = "extract:x".to_owned();
    assert_eq!(fault(&w), "pending trigger_id does not match durable trigger");
    let mut w = fresh();
    w.pending.kind = "dream".to_owned();
    assert_eq!(fault(&w), "pending runner kind does not match durable trigger");
    let mut w = fresh();
    w.pending.session_id = OTHER_SESSION.to_owned();
    assert_eq!(fault(&w), "pending session_id does not match recovery locator");
    let mut w = fresh();
    w.pending.memory_dir = "/elsewhere".to_owned();
    assert_eq!(fault(&w), "pending paths do not match recovery locator");
    let mut w = fresh();
    w.pending.memory_dir = "/dir//memory/".to_owned();
    assert!(w.validate().is_ok());
    let mut w = fresh();
    w.trigger.trigger_id = trigger_id_with(RunnerKind::Extract, OTHER_SESSION);
    assert_eq!(fault(&w), "recovery locator subject does not match durable trigger");
    let mut w = fresh();
    w.trigger.runner_payload.memory_dir = None;
    assert_eq!(fault(&w), "runner payload is missing memory_dir");
    let mut w = fresh();
    w.trigger.runner_payload.memory_dir = Some("/x".to_owned());
    assert_eq!(fault(&w), "runner payload memory_dir does not match recovery locator");
    let mut w = fresh();
    w.trigger.runner_payload.last_assistant_uuid = None;
    assert_eq!(fault(&w), "extract runner payload is missing last_assistant_uuid");
    let mut w = fresh();
    w.recovery.project_state_dir = "/other".to_owned();
    assert_eq!(fault(&w), "project_state_dir must be the direct parent of memory_dir");
}

#[test]
fn ids_and_paths_are_checked() {
    assert!(validate_canonical_uuid("id", SESSION_ID).is_none());
    assert_eq!(
        validate_canonical_uuid("id", &SESSION_ID.to_uppercase()).unwrap(),
        "id must use canonical lowercase hyphenated UUID form"
    );
    assert_eq!(
        validate_canonical_uuid("id", "550e8400e29b41d4a716446655440000").unwrap(),
        "id must use canonical lowercase hyphenated UUID form"
    );
    assert_eq!(
        validate_canonical_uuid("id", "{550e8400-e29b-41d4-a716-446655440000}").unwrap(),
        "id must use canonical lowercase hyphenated UUID form"
    );
    assert_eq!(
        validate_canonical_uuid("id", "URN:uuid:550e8400-e29b-41d4-a716-446655440000").unwrap(),
        "id must use canonical lowercase hyphenated UUID form"
    );
    assert_eq!(
        validate_canonical_uuid("id", "{550e8400e29b41d4a716446655440000}").unwrap(),
        "id must be a UUID"
    );
    assert_eq!(validate_canonical_uuid("id", "").unwrap(), "id must be a UUID");
    assert!(validate_absolute_clean_path("p", "/a/b").is_none());
    assert_eq!(
        validate_absolute_clean_path("p", "/").unwrap(),
        "p must not be empty, root-only, or contain NUL"
    );
    assert_eq!(
        validate_absolute_clean_path("p", "/a\0b").unwrap(),
        "p must not be empty, root-only, or contain NUL"
    );
    assert_eq!(validate_absolute_clean_path("p", "").unwrap(), "p must be absolute");
    assert_eq!(
        validate_trigger_subject("dream:x", RunnerKind::Extract).unwrap(),
        "trigger_id kind prefix mismatch"
    );
    assert_eq!(
        validate_trigger_subject("dream:x", RunnerKind::Dream).unwrap(),
        "trigger_id UUID must be a UUID"
    );
}

#[test]
fn fresh_trigger_ids_are_valid_and_distinct() {
    let a = next_trigger_id(RunnerKind::Dream);
    let b = next_trigger_id(RunnerKind::Dream);
    assert_ne!(a, b);
    assert!(a.starts_with("dream:"));
    assert_eq!(a.len(), "dream:".len() + 36);
    assert!(validate_trigger_subject(&a, RunnerKind::Dream).is_none());
    assert_eq!(RunnerKind::Dream.as_str(), "dream");
    assert_eq!(RunnerKind::Extract.as_str(), "extract");
}

#[test]
fn unreadable_settings_keep_dreams_off() {
    let default = DreamSettings { enabled: true, min_hours: 24, min_sessions: 5 };
    let stored = DreamSettings { enabled: true, min_hours: 6, min_sessions: 2 };
    assert_eq!(settings_in_force(Ok(Some(stored)), default), Some(stored));
    assert_eq!(settings_in_force(Ok(None), default), None);
    assert_eq!(
        settings_in_force(Err("corrupt".to_string()), default),
        Some(DreamSettings { enabled: false, ..default })
    );
}

#[test]
fn cursors_are_saved_where_they_changed() {
    assert!(!saves_cursor("{\"turns\":1}", "{\"turns\":1}"));
    assert!(saves_cursor("{\"turns\":1}", "{\"turns\":2}"));
}

#[test]
fn flags_have_their_defaults() {
    let none: Table<bool> = Table::new();
    let d = dream_gate_flags(&none);
    assert!(!d.force && !d.kairos_active && !d.remote_mode && d.auto_memory_enabled);
    let e = extract_gate_flags(&none);
    assert!(!e.enabled && e.auto_memory_enabled && !e.has_memory_writes_since_cursor);
    let mut some = Table::new();
    some.put("KAIROS".to_owned(), true);
    some.put("auto_memory_enabled".to_owned(), false);
    some.put("memory_write_since_cursor".to_owned(), true);
    assert!(dream_gate_flags(&some).kairos_active);
    assert!(!dream_gate_flags(&some).auto_memory_enabled);
    assert!(extract_gate_flags(&some).has_memory_writes_since_cursor);
}

fn dream_now_request() -> DreamRunNowRequest {
    DreamRunNowRequest {
        session_id: SESSION_ID.to_owned(),
        current_session_id: SESSION_ID.to_owned(),
        memory_dir: "/dir/memory".to_owned(),
        now_ms: 1_700_200_000_000,
    }
}

fn dream_now_findings(prior_mtime_ms: Option<u64>) -> DreamNowFindings {
    DreamNowFindings {
        project_state_dir: "/dir".to_owned(),
        last_consolidated_at_ms: 1_700_200_000_000 - 7_200_001,
        prior_mtime_ms,
        session_ids: vec![OTHER_SESSION.to_owned()],
        lock_token: "tok".to_owned(),
        registered_at_ms: 8,
    }
}

#[test]
fn evaluate_dream_run_now_bypasses_gates_and_returns_trigger() {
    let plan = evaluate_dream_run_now(
        &dream_now_request(),
        dream_now_findings(Some(3)),
        "dream:id".to_owned(),
    );
    assert_eq!(plan.response.triggers.len(), 1);
    let t = &plan.response.triggers[0];
    assert_eq!(t.kind, RunnerKind::Dream);
    assert!(t.lock_token.is_some());
    assert_eq!(plan.response.gate_skip_reason, None);
    assert_eq!(t.runner_payload.force, Some(true));
    match &t.runner_payload.details {
        RunnerDetails::Dream {
            hours_since_last_consolidation,
            min_hours,
            min_sessions,
            sessions_since_last_consolidation,
            ..
        } => {
            assert_eq!(*hours_since_last_consolidation, 2);
            assert_eq!((*min_hours, *min_sessions), (0, 0));
            assert_eq!(*sessions_since_last_consolidation, 1);
        }
        _ => panic!("expected a dream"),
    }
    assert_eq!(plan.pending.unwrap().registered_at_ms, 8);
}

#[test]
fn evaluate_dream_run_now_returns_lock_held_when_lock_busy() {
    let first = evaluate_dream_run_now(
        &dream_now_request(),
        dream_now_findings(Some(3)),
        "dream:first".to_owned(),
    );
    assert_eq!(first.response.triggers.len(), 1);
    let plan = evaluate_dream_run_now(
        &dream_now_request(),
        dream_now_findings(None),
        "dream:id".to_owned(),
    );
    assert!(plan.response.triggers.is_empty());
    assert_eq!(plan.response.gate_skip_reason.as_deref(), Some("lock_held"));
    assert!(plan.pending.is_none());
}

fn extract_now_request(counts: &[(&str, u64)]) -> ExtractRunNowRequest {
    let mut message_counts = Table::new();
    for (k, v) in counts {
        message_counts.put(k.to_string(), *v);
    }
    ExtractRunNowRequest {
        session_id: SESSION_ID.to_owned(),
        last_assistant_uuid: LAST_ASSISTANT_ID.to_owned(),
        memory_dir: "/dir/memory".to_owned(),
        team_memory_dir: None,
        message_counts,
        now_ms: 1_700_200_000_000,
    }
}

#[test]
fn evaluate_extract_run_now_bypasses_gates_and_returns_trigger() {
    let q = extract_now_request(&[("user", 1), ("assistant", 1), ("total", 2)]);
    let plan =
        evaluate_extract_run_now(&q, "/dir".to_owned(), None, 4, "extract:id".to_owned());
    assert_eq!(plan.response.triggers.len(), 1);
    let t = &plan.response.triggers[0];
    assert_eq!(t.kind, RunnerKind::Extract);
    assert!(t.lock_token.is_none());
    assert_eq!(plan.response.gate_skip_reason, None);
    assert_eq!(t.runner_payload.last_assistant_uuid.as_deref(), Some(LAST_ASSISTANT_ID));
    assert_eq!(t.runner_payload.force, Some(true));
    match &t.runner_payload.details {
        RunnerDetails::Extract { new_message_count, .. } => assert_eq!(*new_message_count, 2),
        _ => panic!("expected an extraction"),
    }
    assert_eq!(plan.pending.unwrap().extract_total_model_visible, Some(2));

    let q = extract_now_request(&[("assistant", 7)]);
    let plan = evaluate_extract_run_now(&q, "/dir".to_owned(), None, 4, "e".to_owned());
    match &plan.response.triggers[0].runner_payload.details {
        RunnerDetails::Extract { new_message_count, .. } => assert_eq!(*new_message_count, 7),
        _ => panic!("expected an extraction"),
    }
    assert_eq!(plan.pending.unwrap().extract_total_model_visible, None);
}

#[test]
fn evaluate_extract_run_now_returns_no_assistant_uuid_short_circuit() {
    let mut q = extract_now_request(&[("total", 2)]);
    q.last_assistant_uuid = String::new();
    let plan =
        evaluate_extract_run_now(&q, "/dir".to_owned(), None, 4, "extract:id".to_owned());
    assert!(plan.response.triggers.is_empty());
    assert_eq!(plan.response.gate_skip_reason.as_deref(), Some("no_assistant_uuid"));
    assert!(plan.pending.is_none());
}
