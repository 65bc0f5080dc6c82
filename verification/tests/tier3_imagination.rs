use memory_orchestrator::tier::daily_events::{
    record_all_layers_parse_failed, record_report_index_upsert_failed,
};
use memory_orchestrator::tier::imagination_calls::{
    build_hypgen_messages, build_l2_messages_with_evidence, build_l3_messages, parse_l1_json,
    parse_l2_json, parse_l3_json,
};
use memory_orchestrator::tier::imagination_documents::{
    append_meta_review, build_report_messages, cap_previous_report, hypothesis_hash, latest_report,
    meta_review_tail, render_imagined_md, render_meta_review, render_refuted_md, render_report_md,
    report_file_name, upsert_report_link_in_memory_md, MemoryOutputLanguage, ScoreTexts,
    HYPGEN_META_REVIEW_TAIL, META_REVIEW_MAX_LINES, REPORT_MAX_PREV_CHARS,
};
use memory_orchestrator::tier::imagination_evidence::{
    decode_watch_listing_evidence, derive_evidence_queries, derive_statement_filenames,
    external_evidence_to_refs, EVIDENCE_CONTENT_MAX_CHARS,
};
use memory_orchestrator::tier::imagination_files::{
    format_labeled_files, is_reflection_file, meta_review_path, most_recent_session_snapshot,
    prune_refuted_dir, read_recent_session, read_refuted_summaries, refuted_dir,
    select_corpus_files, select_refuted, CorpusKind, ReadFile, TimedFile, REFUTED_MAX_FILES,
};
use memory_orchestrator::tier::imagination_run::{
    candidates, generated_hypotheses, sweep_review, variant_tally, ImaginationDeed, ImaginationRun,
    ImaginationStage,
};
use memory_orchestrator::tier::tier3_imagination::{
    iso8601_expiry_from_ms, iso8601_expiry_from_now, parse_hypgen_json, promotion_verdict,
    verdict_outcome, AtomVerdict, AtomVerdictKind, FourDimensionScores, ImaginationEvidenceRef,
    ImaginationGate, ImaginationGateInput, ImaginationHypothesis, ImaginationProcessError,
    ImaginationProcessOutput, ImaginationProcessor, ImaginationReply, PromotionVerdict,
    SweepMetaReview, SynthesisInputs, ToolCall, ToolCallResultPayload, ToolEvidence, ToolKind,
    ToolOutcome, WatchContext, EVOLUTION_REPORT_SYSTEM_PROMPT_EN, EXPIRE_THRESHOLD, L1_WEIGHT,
    L2_WEIGHT, L3_WEIGHT, LLM_CALL_TIMEOUT_MS, PROMOTION_THRESHOLD,
};
use memory_orchestrator::tier::{
    CallOutcome, LlmCallParams, LlmCallResultPayload, LlmUsage, MemoryTier, TierGate,
};

type Processor = ImaginationProcessor<u32, u32>;

fn bits(x: f64) -> u64 {
    x.to_bits()
}

fn value(b: u64) -> f64 {
    f64::from_bits(b)
}

fn sample_hypothesis() -> ImaginationHypothesis {
    ImaginationHypothesis {
        statement: "Users prefer markdown over JSON for in-app docs.".to_string(),
        atoms: vec![
            "Users prefer markdown.".to_string(),
            "JSON is dispreferred for in-app docs.".to_string(),
        ],
        evidence_refs: vec![ImaginationEvidenceRef {
            id: "sess-1".to_string(),
            snippet: "user says: markdown reads nicer than json".to_string(),
        }],
        context: "Recent dev preferences telemetry".to_string(),
    }
}

fn sample_tool_calls() -> Vec<ToolCall> {
    vec![
        ToolCall {
            kind: ToolKind::WebSearch,
            query: Some("latest rust release".to_string()),
            url: None,
            id: None,
            path: None,
            root: None,
        },
        ToolCall {
            kind: ToolKind::WebFetch,
            query: None,
            url: Some("https://example.com/rust".to_string()),
            id: None,
            path: None,
            root: None,
        },
    ]
}

fn sample_external_evidence() -> Vec<ToolEvidence> {
    vec![
        ToolEvidence {
            source_url: "https://example.org/fresh".to_string(),
            fetched_at_ms: 1_700_000_000_000,
            content: "Authoritative fresh fact backing the hypothesis.".to_string(),
            title: Some("Fresh Source".to_string()),
        },
        ToolEvidence {
            source_url: "https://example.org/second".to_string(),
            fetched_at_ms: 1_700_000_000_999,
            content: "A second corroborating external snippet.".to_string(),
            title: None,
        },
    ]
}

fn texts(l1: f64, l2: f64, l3: f64, total: f64) -> ScoreTexts {
    ScoreTexts {
        final_confidence: format!("{total:.4}"),
        l1_plausibility: format!("{l1:.4}"),
        l2_novelty: format!("{l2:.4}"),
        l2_consistency: format!("{l2:.4}"),
        l2_groundedness: format!("{l2:.4}"),
        l2_actionability: format!("{l2:.4}"),
        l3_atomic_aggregate: format!("{l3:.4}"),
    }
}

fn reply(id: &str, response: &str) -> ImaginationReply {
    ImaginationReply {
        req_id: id.to_string(),
        response: response.to_string(),
        usage: Some(LlmUsage { input_tokens: 3, output_tokens: 2 }),
    }
}

fn output(verdict: PromotionVerdict) -> ImaginationProcessOutput {
    ImaginationProcessOutput {
        l1_plausibility: 0,
        l2_scores: FourDimensionScores::neutral(),
        l3_atomic_aggregate: 0,
        l3_atom_verdicts: Vec::new(),
        final_confidence: 0,
        verdict,
        imagined_path: None,
        req_ids: Vec::new(),
        aggregate_usage: None,
    }
}

#[test]
fn evolution_report_writes_dated_file_and_feeds_previous_report() {
    let inputs = SynthesisInputs {
        reflections: "## reflect.md\n\n用户偏好暗色主题".to_string(),
        dreams: String::new(),
        recent_session: String::new(),
        refuted: String::new(),
        meta_review: String::new(),
    };
    let names = vec!["evolution-2026-01-01.md".to_string()];
    let label = latest_report(&names).unwrap();
    let messages = build_report_messages(
        &inputs,
        "",
        &label,
        &cap_previous_report("old report body"),
        MemoryOutputLanguage::Zh,
    );
    let user_msg = &messages.last().unwrap().content;
    assert!(user_msg.contains("old report body"));
    assert!(user_msg.contains("用户偏好暗色主题"));
    assert!(user_msg.contains("## Previous report (evolution-2026-01-01.md)\n"));
    assert!(user_msg.contains("(review queue empty)"));

    let now = 1_767_225_600_000;
    assert_eq!(report_file_name("2026-01-01"), "evolution-2026-01-01.md");
    let body = render_report_md("  ## 用户习惯归纳\n- 偏好暗色主题 \n", now, MemoryOutputLanguage::Zh);
    assert!(body.starts_with("---\ntype: report\n"));
    assert!(body.contains("## 用户习惯归纳"));
    assert_eq!(
        body,
        "---\ntype: report\nname: evolution-2026-01-01\ndescription: 自我进化报告 2026-01-01（习惯归纳/问题/外部佐证/整改建议/上期回顾）\ncreated_at_ms: 1767225600000\n---\n\n## 用户习惯归纳\n- 偏好暗色主题\n"
    );
    let en = build_report_messages(&inputs, "", "none", "", MemoryOutputLanguage::En);
    assert_eq!(en[0].content, EVOLUTION_REPORT_SYSTEM_PROMPT_EN);
    assert!(render_report_md("x", now, MemoryOutputLanguage::En)
        .contains("description: Self-evolution report 2026-01-01 (habits/issues/evidence/actions/follow-up)\n"));
}

#[test]
fn read_previous_report_picks_latest_and_handles_absence() {
    assert!(latest_report(&Vec::new()).is_none());
    let names = vec![
        "evolution-2026-01-01.md".to_string(),
        "evolution-2026-03-05.md".to_string(),
        "notes.md".to_string(),
        "evolution-2026-02-05.md".to_string(),
        "evolution-2027.txt".to_string(),
    ];
    assert_eq!(latest_report(&names).as_deref(), Some("evolution-2026-03-05.md"));
    assert_eq!(cap_previous_report("mar"), "mar");
    let long = "x".repeat(REPORT_MAX_PREV_CHARS + 1);
    let capped = cap_previous_report(&long);
    assert_eq!(capped, format!("{}\n…(truncated)", "x".repeat(REPORT_MAX_PREV_CHARS)));
    let wide = "中".repeat(REPORT_MAX_PREV_CHARS / 3 + 1);
    assert_eq!(
        cap_previous_report(&wide),
        format!("{}\n…(truncated)", "中".repeat(REPORT_MAX_PREV_CHARS / 3))
    );
    let askew = format!("a{}", "记".repeat(3000));
    assert_eq!(
        cap_previous_report(&askew),
        format!("a{}\n…(truncated)", "记".repeat(REPORT_MAX_PREV_CHARS / 3 - 1))
    );
}

#[test]
fn report_link_upsert_creates_memory_md_when_missing() {
    assert_eq!(
        upsert_report_link_in_memory_md("", "2026-07-09").unwrap(),
        "- [进化报告 2026-07-09](reports/evolution-2026-07-09.md) — 做梦与想象的自我进化结论\n"
    );
}

#[test]
fn report_link_upsert_replaces_existing_line_without_accumulating() {
    let existing = "# Memory Index\n\
             - [进化报告 2020-01-01](reports/evolution-2020-01-01.md) — 做梦与想象的自我进化结论\n\
             - [用户偏好](user_pref.md) — 偏好暗色主题\n\
             - [进化报告 2020-02-02](reports/evolution-2020-02-02.md) — 做梦与想象的自我进化结论\n";
    let index = upsert_report_link_in_memory_md(existing, "2026-07-09").unwrap();
    assert_eq!(
        index,
        "# Memory Index\n\
             - [进化报告 2026-07-09](reports/evolution-2026-07-09.md) — 做梦与想象的自我进化结论\n\
             - [用户偏好](user_pref.md) — 偏好暗色主题\n"
    );
    assert_eq!(index.matches("- [进化报告 ").count(), 1, "never accumulates");
    assert!(upsert_report_link_in_memory_md(&index, "2026-07-09").is_none());
}

#[test]
fn gate_always_triggers_when_enabled() {
    let mut gate = ImaginationGate::new();
    let decision = gate
        .evaluate_gate(ImaginationGateInput { memory_dir: "/m".to_string(), enabled: true })
        .unwrap();
    assert!(decision.should_trigger);
    let payload = decision.payload.unwrap();
    assert_eq!(payload.review_queue_dir, "/m/imagination/review-queue");
}

#[test]
fn gate_skips_when_disabled() {
    let mut gate = ImaginationGate::new();
    let decision = gate
        .evaluate_gate(ImaginationGateInput { memory_dir: "/m".to_string(), enabled: false })
        .unwrap();
    assert!(!decision.should_trigger);
    assert_eq!(decision.skip_reason.as_deref(), Some("feature_disabled"));
}

#[test]
fn l1_parser_extracts_plausibility() {
    let raw = r#"{"plausibility": 0.75, "reasoning": "ok"}"#;
    assert_eq!(parse_l1_json(raw), Some(bits(0.75)));
}

#[test]
fn l1_parser_handles_fenced_output() {
    let raw = "```json\n{\"plausibility\":0.3,\"reasoning\":\"x\"}\n```";
    assert_eq!(parse_l1_json(raw), Some(bits(0.3)));
}

#[test]
fn l1_parser_clamps_out_of_range() {
    let raw = r#"{"plausibility": 1.5, "reasoning": "x"}"#;
    assert_eq!(parse_l1_json(raw), Some(bits(1.0)));
    let raw_low = r#"{"plausibility": -0.1, "reasoning": "x"}"#;
    assert_eq!(parse_l1_json(raw_low), Some(bits(0.0)));
}

#[test]
fn l1_parser_returns_none_on_invalid() {
    assert!(parse_l1_json("not json").is_none());
    assert!(parse_l1_json(r#"{"other":1.0}"#).is_none());
}

#[test]
fn l2_parser_extracts_four_dimensions() {
    let raw = r#"{"novelty":0.8,"consistency":0.6,"groundedness":0.4,"actionability":0.9,"notes":"x"}"#;
    let s = parse_l2_json(raw).unwrap();
    assert!((value(s.novelty) - 0.8).abs() < 1e-9);
    assert!((value(s.consistency) - 0.6).abs() < 1e-9);
    assert!((value(s.groundedness) - 0.4).abs() < 1e-9);
    assert!((value(s.actionability) - 0.9).abs() < 1e-9);
}

#[test]
fn l2_neutral_is_half() {
    let s = FourDimensionScores::neutral();
    let avg = (value(s.novelty)
        + value(s.consistency)
        + value(s.groundedness)
        + value(s.actionability))
        / 4.0;
    assert!((avg - 0.5).abs() < 1e-9);
}

#[test]
fn l3_parser_supported_verdict() {
    let raw = r#"{"verdict":"supported","confidence":0.9,"citing_evidence_ids":["e1","e2"]}"#;
    let v = parse_l3_json(raw).unwrap();
    assert_eq!(v.verdict, AtomVerdictKind::Supported);
    assert!((value(v.confidence) - 0.9).abs() < 1e-9);
    assert_eq!(v.citing_evidence_ids, vec!["e1", "e2"]);
}

#[test]
fn l3_parser_refuted_verdict() {
    let raw = r#"{"verdict":"refuted","confidence":0.6,"citing_evidence_ids":["e1"]}"#;
    let v = parse_l3_json(raw).unwrap();
    assert_eq!(v.verdict, AtomVerdictKind::Refuted);
}

#[test]
fn l3_parser_inconclusive_verdict() {
    let raw = r#"{"verdict":"inconclusive","confidence":0.0,"citing_evidence_ids":[]}"#;
    let v = parse_l3_json(raw).unwrap();
    assert_eq!(v.verdict, AtomVerdictKind::Inconclusive);
}

#[test]
fn l3_parser_rejects_unknown_verdict() {
    let raw = r#"{"verdict":"maybe","confidence":0.5}"#;
    assert!(parse_l3_json(raw).is_none());
}

#[test]
fn l4_fusion_weights_sum_to_one() {
    assert!((value(L1_WEIGHT) + value(L2_WEIGHT) + value(L3_WEIGHT) - 1.0).abs() < 1e-9);
}

#[test]
fn l4_fusion_formula_constants_match_doc() {
    assert!((value(L1_WEIGHT) - 0.3).abs() < 1e-9);
    assert!((value(L2_WEIGHT) - 0.4).abs() < 1e-9);
    assert!((value(L3_WEIGHT) - 0.3).abs() < 1e-9);
    assert_eq!(L1_WEIGHT, bits(0.3));
    assert_eq!(L2_WEIGHT, bits(0.4));
    assert_eq!(PROMOTION_THRESHOLD, bits(0.7));
    assert_eq!(EXPIRE_THRESHOLD, bits(0.5));
}

#[test]
fn l4_fusion_computes_weighted_sum() {
    let l1: f64 = 0.8;
    let l2_avg: f64 = 0.6;
    let l3: f64 = 0.4;
    let expected: f64 = l1 * value(L1_WEIGHT) + l2_avg * value(L2_WEIGHT) + l3 * value(L3_WEIGHT);
    assert!((expected - 0.6).abs() < 1e-9);
}

#[test]
fn l5_at_promotion_threshold_yields_review_queue_high() {
    assert_eq!(promotion_verdict(false, PROMOTION_THRESHOLD), PromotionVerdict::ReviewQueueHigh);
}

#[test]
fn l5_just_above_promotion_threshold_is_high() {
    assert_eq!(promotion_verdict(false, bits(0.71)), PromotionVerdict::ReviewQueueHigh);
}

#[test]
fn l5_just_below_promotion_threshold_is_pending() {
    assert_eq!(promotion_verdict(false, bits(0.69)), PromotionVerdict::Pending);
}

#[test]
fn l5_at_expire_threshold_is_pending_not_expired() {
    assert_eq!(promotion_verdict(false, EXPIRE_THRESHOLD), PromotionVerdict::Pending);
}

#[test]
fn l5_below_expire_threshold_is_expired() {
    assert_eq!(promotion_verdict(false, bits(0.49)), PromotionVerdict::Expired);
    assert_eq!(promotion_verdict(true, bits(0.99)), PromotionVerdict::Expired);
    assert_eq!(promotion_verdict(false, bits(f64::NAN)), PromotionVerdict::Expired);
}

#[test]
fn iso8601_expiry_format_matches_rfc3339_basic() {
    let start_ms: u64 = 1_779_408_000_000;
    let expiry = iso8601_expiry_from_ms(start_ms);
    assert!(expiry.ends_with('Z'), "expected Z suffix: {}", expiry);
    assert!(expiry.contains('T'), "expected T separator: {}", expiry);
    assert_eq!(expiry.len(), 20, "expected RFC 3339 basic length 20: {}", expiry);
    assert_eq!(iso8601_expiry_from_now().len(), 20);
    assert!(iso8601_expiry_from_now().as_str() > "2020-01-01T00:00:00Z");
}

#[test]
fn iso8601_expiry_advances_14_days_from_input() {
    let start_ms: u64 = 1_767_225_600_000;
    let expiry = iso8601_expiry_from_ms(start_ms);
    assert!(
        expiry.starts_with("2026-01-15T"),
        "expected 2026-01-15 prefix, got {}",
        expiry
    );
    assert_eq!(expiry, "2026-01-15T00:00:00Z");
}

#[test]
fn hypothesis_hash_is_deterministic() {
    let h1 = sample_hypothesis();
    let h2 = sample_hypothesis();
    assert_eq!(hypothesis_hash(&h1), hypothesis_hash(&h2));
}

#[test]
fn hypothesis_hash_differs_for_different_statements() {
    let mut h1 = sample_hypothesis();
    let mut h2 = sample_hypothesis();
    h1.statement = "A".to_string();
    h2.statement = "B".to_string();
    assert_ne!(hypothesis_hash(&h1), hypothesis_hash(&h2));
}

#[test]
fn hypothesis_hash_is_16_hex_chars() {
    let h = sample_hypothesis();
    let hash = hypothesis_hash(&h);
    assert_eq!(hash.len(), 32, "hash: {}", hash);
    assert!(hash.chars().all(|c| c.is_ascii_hexdigit()));
    let mut abc = sample_hypothesis();
    abc.statement = "abc".to_string();
    assert_eq!(hypothesis_hash(&abc), "ba7816bf8f01cfea414140de5dae2223");
}

#[test]
fn rendered_md_contains_required_frontmatter_fields() {
    let h = sample_hypothesis();
    let body = render_imagined_md(
        &h,
        &texts(0.6, 0.5, 0.5, 0.55),
        &Vec::new(),
        &Vec::new(),
        "medium",
        &Vec::new(),
        0,
    );
    assert!(body.starts_with("---\n"));
    assert!(body.contains("type: imagined\n"));
    assert!(body.contains("confidence: medium\n"));
    assert!(body.contains("status: pending-review\n"));
    assert!(body.contains("expiry: 1970-01-15T00:00:00Z\n"));
    assert!(body.contains("final_confidence: 0.5500\n"));
    assert!(body.contains("l1_plausibility: 0.6000\n"));
    assert!(body.contains("l2_novelty: 0.5000\n"));
    assert!(body.contains("l3_atomic_aggregate: 0.5000\n"));
    assert!(body.contains("# Hypothesis\n"));
    assert!(body.contains("Users prefer markdown over JSON"));
    assert!(body.contains("# Evidence refs\n\n- [sess-1] user says: markdown reads nicer than json\n\n"));
}

#[test]
fn rendered_md_includes_atom_verdicts_when_present() {
    let h = sample_hypothesis();
    let verdicts = vec![AtomVerdict {
        atom: "claim X".to_string(),
        verdict: AtomVerdictKind::Supported,
        confidence: bits(0.9),
        citing_evidence_ids: vec!["e1".to_string()],
    }];
    let body = render_imagined_md(
        &h,
        &texts(0.6, 0.5, 0.8, 0.7),
        &verdicts,
        &vec!["0.90".to_string()],
        "high",
        &Vec::new(),
        0,
    );
    assert!(body.contains("# Atomic verdicts"));
    assert!(body.contains("[supported, conf 0.90] claim X"));
}

#[test]
fn rendered_md_includes_evidence_sources_frontmatter() {
    let h = sample_hypothesis();
    let external = sample_external_evidence();
    let body = render_imagined_md(
        &h,
        &texts(0.6, 0.5, 0.5, 0.55),
        &Vec::new(),
        &Vec::new(),
        "medium",
        &external,
        0,
    );
    assert!(body.contains("evidence_sources:"));
    assert!(body.contains("url: 'https://example.org/fresh'"));
    assert!(body.contains("fetched_at_ms: 1700000000000"));
    assert!(body.contains("url: 'https://example.org/second'"));
    assert!(body.contains("fetched_at_ms: 1700000000999"));
    assert!(body.contains("# External evidence (gathered)"));
    assert!(body.contains("Authoritative fresh fact"));
    assert!(body.contains("- Fresh Source — https://example.org/fresh (fetched 1700000000000 ms)\n"));
    assert!(body.contains("- https://example.org/second (fetched 1700000000999 ms)\n"));
}

#[test]
fn rendered_md_omits_evidence_sources_when_external_empty() {
    let h = sample_hypothesis();
    let body = render_imagined_md(
        &h,
        &texts(0.6, 0.5, 0.5, 0.55),
        &Vec::new(),
        &Vec::new(),
        "medium",
        &Vec::new(),
        0,
    );
    assert!(!body.contains("evidence_sources:"));
    assert!(!body.contains("# External evidence"));
}

#[test]
fn quotes_in_urls_are_doubled() {
    let mut external = sample_external_evidence();
    external[0].source_url = "https://e/it's".to_string();
    let body = render_imagined_md(
        &sample_hypothesis(),
        &texts(0.0, 0.0, 0.0, 0.0),
        &Vec::new(),
        &Vec::new(),
        "high",
        &external,
        0,
    );
    assert!(body.contains("  - url: 'https://e/it''s'\n"));
}

#[test]
fn full_pipeline_high_confidence_writes_review_queue_high() {
    let mut hypothesis = sample_hypothesis();
    hypothesis.atoms = vec!["single atom".to_string()];
    let mut run = ImaginationRun::new(hypothesis, None);
    assert_eq!(run.stage, ImaginationStage::Plausibility);
    run.accept_plausibility(reply("a", r#"{"plausibility":0.9,"reasoning":"ok"}"#));
    assert_eq!(run.evidence_calls().len(), 1);
    run.accept_evidence(Vec::new());
    run.accept_dimensions(reply(
        "b",
        r#"{"novelty":0.9,"consistency":0.9,"groundedness":0.9,"actionability":0.9,"notes":"x"}"#,
    ));
    assert!(run.claim_messages()[0].content.contains("single atom"));
    assert!(run.claim_messages()[0].content.contains("sess-1"));
    run.accept_claim(reply(
        "c",
        r#"{"verdict":"supported","confidence":1.0,"citing_evidence_ids":["e1"]}"#,
    ));
    assert_eq!(run.stage, ImaginationStage::Conclude);
    let s = run.scores();
    let avg = (value(s.novelty)
        + value(s.consistency)
        + value(s.groundedness)
        + value(s.actionability))
        / 4.0;
    let fused = value(run.plausibility()) * 0.3 + avg * 0.4 + 1.0 * 0.3;
    let conclusion = run.conclude(bits(fused), "/m", "/m/imagination/review-queue");
    assert_eq!(conclusion.verdict, PromotionVerdict::ReviewQueueHigh);
    let path = match &conclusion.deed {
        ImaginationDeed::WriteDraft { path, label } => {
            assert_eq!(label, "high");
            path.clone()
        }
        _ => panic!("expected a draft"),
    };
    assert!(path.starts_with("/m/imagination/review-queue/imagined_"));
    let out = run.finish(bits(1.0), conclusion);
    assert!((value(out.l1_plausibility) - 0.9).abs() < 1e-9);
    assert!((value(out.l3_atomic_aggregate) - 1.0).abs() < 1e-9);
    assert!((value(out.final_confidence) - 0.93).abs() < 1e-9);
    assert_eq!(out.verdict, PromotionVerdict::ReviewQueueHigh);
    assert_eq!(out.imagined_path, Some(path));
    assert_eq!(out.req_ids, vec!["a", "b", "c"]);
    assert_eq!(out.l3_atom_verdicts.len(), 1);
    assert_eq!(out.l3_atom_verdicts[0].atom, "single atom");
    let usage = out.aggregate_usage.unwrap();
    assert_eq!((usage.input_tokens, usage.output_tokens), (9, 6));
}

fn concluded(l1: &str, l2: &str, l3: &str, fused: f64) -> (ImaginationDeed, PromotionVerdict) {
    let mut run = ImaginationRun::new(sample_hypothesis(), None);
    run.accept_plausibility(reply("a", l1));
    run.accept_evidence(Vec::new());
    run.accept_dimensions(reply("b", l2));
    run.accept_claim(reply("c", l3));
    run.accept_claim(reply("d", l3));
    let c = run.conclude_named(bits(fused), "/m", "/q", "cafe");
    (c.deed, c.verdict)
}

#[test]
fn full_pipeline_low_confidence_expires_no_write() {
    let mut hypothesis = sample_hypothesis();
    hypothesis.atoms = vec!["single atom".to_string()];
    let mut run = ImaginationRun::new(hypothesis, None);
    run.accept_plausibility(reply("a", r#"{"plausibility":0.1,"reasoning":"x"}"#));
    run.accept_evidence(Vec::new());
    run.accept_dimensions(reply(
        "b",
        r#"{"novelty":0.1,"consistency":0.1,"groundedness":0.1,"actionability":0.1,"notes":"x"}"#,
    ));
    run.accept_claim(reply(
        "c",
        r#"{"verdict":"refuted","confidence":1.0,"citing_evidence_ids":["e1"]}"#,
    ));
    let s = run.scores();
    let avg = (value(s.novelty)
        + value(s.consistency)
        + value(s.groundedness)
        + value(s.actionability))
        / 4.0;
    let fused = value(run.plausibility()) * 0.3 + avg * 0.4 + 0.0 * 0.3;
    assert!((fused - 0.07).abs() < 1e-9);
    let body = render_refuted_md(
        &run.hypothesis,
        "0.07",
        &run.verdicts,
        &vec!["1.00".to_string()],
        77,
    );
    let conclusion = run.conclude_named(bits(fused), "/m", "/m/imagination/review-queue", "cafe");
    assert_eq!(conclusion.verdict, PromotionVerdict::Expired);
    match &conclusion.deed {
        ImaginationDeed::WriteRefuted { path } => {
            assert_eq!(path, "/m/imagination/refuted/refuted_cafe.md")
        }
        _ => panic!("expected a refuted hypothesis"),
    }
    let out = run.finish(bits(0.0), conclusion);
    assert_eq!(out.verdict, PromotionVerdict::Expired);
    assert!(out.imagined_path.is_none());
    assert!(body.contains("status: refuted"));
    assert!(body.contains("- [refuted, conf 1.00] single atom\n"));
    let (_, written) = body.split_once("---\n\n").unwrap();
    assert!(!read_refuted_summaries(&vec![written.to_string()]).is_empty());
}

#[test]
fn all_layers_parse_failure_expires_without_write_and_daily_logs() {
    let (deed, verdict) = concluded("x", "y", "z", 0.5);
    assert_eq!(verdict, PromotionVerdict::Expired);
    match deed {
        ImaginationDeed::NoteUnread => {}
        _ => panic!("expected a note"),
    }
    let statement = "Users prefer markdown over JSON for in-app docs.";
    let event = record_all_layers_parse_failed("/p", statement, 7);
    assert_eq!(event.kind, "memory.imagination.all_layers_parse_failed");
    assert_eq!(event.event_id, "tier3-imagination-memory.imagination.all_layers_parse_failed-7");
    assert_eq!(event.transcript_path, "/p/tier3-imagination.jsonl");
    assert_eq!(event.payload, vec![("statement".to_string(), statement.to_string())]);
    let long = record_all_layers_parse_failed("/p", &"长".repeat(200), 7);
    assert_eq!(long.payload[0].1, "长".repeat(160));
}

#[test]
fn evolution_report_upserts_latest_link_into_memory_md() {
    let name = report_file_name("2026-07-09");
    let index = upsert_report_link_in_memory_md("", "2026-07-09").unwrap();
    assert!(index.contains(&format!("(reports/{name})")), "{index}");
    assert!(index.contains("- [进化报告 "));
    assert!(index.contains("做梦与想象的自我进化结论"));
}

#[test]
fn failed_report_link_is_logged() {
    let event = record_report_index_upsert_failed("/p", "2026-01-02", "denied", 9);
    assert_eq!(event.session_id, "tier3-imagination");
    assert_eq!(event.event_id, "tier3-imagination-memory.report.index_upsert_failed-9");
    assert_eq!(
        event.payload,
        vec![
            ("date".to_string(), "2026-01-02".to_string()),
            ("error".to_string(), "denied".to_string())
        ]
    );
}

#[test]
fn single_parsed_layer_prevents_forced_expiry() {
    let (deed, verdict) = concluded(
        "x",
        "y",
        r#"{"verdict":"inconclusive","confidence":0.0,"citing_evidence_ids":[]}"#,
        0.5,
    );
    assert_eq!(verdict, PromotionVerdict::Pending);
    assert!(matches!(deed, ImaginationDeed::WriteDraft { .. }));
}

#[test]
fn full_pipeline_mid_confidence_writes_pending() {
    let (deed, verdict) = concluded(r#"{"plausibility":0.6}"#, "y", "z", 0.6);
    assert_eq!(verdict, PromotionVerdict::Pending);
    match deed {
        ImaginationDeed::WriteDraft { path, label } => {
            assert_eq!(path, "/q/imagined_cafe.md");
            assert_eq!(label, "medium");
        }
        _ => panic!("expected a draft"),
    }
}

#[test]
fn unread_claims_are_inconclusive() {
    let mut run = ImaginationRun::new(sample_hypothesis(), None);
    run.accept_plausibility(reply("a", "x"));
    run.accept_evidence(Vec::new());
    run.accept_dimensions(reply("b", "x"));
    run.accept_claim(reply("c", "x"));
    assert_eq!(run.stage, ImaginationStage::Claims);
    assert_eq!(run.verdicts[0].verdict, AtomVerdictKind::Inconclusive);
    assert_eq!(run.verdicts[0].atom, "Users prefer markdown.");
    assert_eq!(run.plausibility(), bits(0.5));
    assert_eq!(run.scores(), FourDimensionScores::neutral());
}

#[test]
fn hypotheses_without_claims_conclude_at_once() {
    let mut h = sample_hypothesis();
    h.atoms = Vec::new();
    let mut run = ImaginationRun::new(h, None);
    run.accept_plausibility(reply("a", "x"));
    run.accept_evidence(Vec::new());
    run.accept_dimensions(reply("b", "x"));
    assert_eq!(run.stage, ImaginationStage::Conclude);
}

#[test]
fn fused_scores_are_clamped() {
    let mut run = ImaginationRun::new(sample_hypothesis(), None);
    run.accept_plausibility(reply("a", r#"{"plausibility":1.0}"#));
    let c = run.conclude(bits(1.25), "/m", "/q");
    assert_eq!(value(c.final_confidence), 1.0);
    let c = run.conclude(bits(-3.0), "/m", "/q");
    assert_eq!(value(c.final_confidence), 0.0);
}

#[test]
fn deliver_result_returns_false_for_unknown_req_id() {
    let mut processor: Processor = ImaginationProcessor::new(ImaginationGate::new());
    let delivered = processor.deliver_result(&LlmCallResultPayload {
        req_id: "unknown".to_string(),
        response: Some("{}".to_string()),
        usage: None,
        error: None,
    });
    assert!(delivered.is_none());
}

#[test]
fn req_id_uses_tier3_imagination_prefix() {
    let mut processor: Processor = ImaginationProcessor::new(ImaginationGate::new());
    let request = processor.open_call("l1", Vec::new(), None, LlmCallParams::default(), 9, 4);
    assert!(request.req_id.starts_with("tier3-imagination-l1-"), "req_id={}", request.req_id);
    assert_eq!(request.req_id, "tier3-imagination-l1-1-9");
    assert_eq!(request.phase.as_deref(), Some("l1"));
    let result = LlmCallResultPayload {
        req_id: request.req_id,
        response: None,
        usage: None,
        error: None,
    };
    assert_eq!(processor.deliver_result(&result), Some(4));
}

#[test]
fn failed_calls_end_an_imagination() {
    let mut processor: Processor = ImaginationProcessor::new(ImaginationGate::new());
    match processor.close_call("x".to_string(), CallOutcome::Elapsed) {
        Err(ImaginationProcessError::Timeout(ms)) => assert_eq!(ms, LLM_CALL_TIMEOUT_MS),
        _ => panic!("expected a timeout"),
    }
    match processor.close_call("x".to_string(), CallOutcome::Closed) {
        Err(ImaginationProcessError::Shutdown) => {}
        _ => panic!("expected a shutdown"),
    }
    let empty = LlmCallResultPayload {
        req_id: "x".to_string(),
        response: None,
        usage: None,
        error: None,
    };
    match processor.close_call("x".to_string(), CallOutcome::Reply(empty)) {
        Err(ImaginationProcessError::LlmFailure(m)) => assert_eq!(m, "empty response"),
        _ => panic!("expected a failure"),
    }
}

#[test]
fn hypgen_parser_extracts_candidates() {
    let raw = r#"{"hypotheses":[
            {"statement":"S1","atoms":["a1","a2"],"evidence_refs":[{"id":"m1","snippet":"q1"}]},
            {"statement":"S2","atoms":["b1"],"evidence_refs":[]}
        ]}"#;
    let out = parse_hypgen_json(raw);
    assert_eq!(out.len(), 2);
    assert_eq!(out[0].statement, "S1");
    assert_eq!(out[0].atoms, vec!["a1".to_string(), "a2".to_string()]);
    assert_eq!(out[0].evidence_refs.len(), 1);
    assert_eq!(out[0].evidence_refs[0].id, "m1");
    assert_eq!(out[1].statement, "S2");
    assert_eq!(out[1].atoms, vec!["b1".to_string()]);
    assert!(out[1].evidence_refs.is_empty());
}

#[test]
fn hypgen_parser_handles_fenced_output() {
    let raw = "```json\n{\"hypotheses\":[{\"statement\":\"X\"}]}\n```";
    let out = parse_hypgen_json(raw);
    assert_eq!(out.len(), 1);
    assert_eq!(out[0].statement, "X");
    assert_eq!(out[0].atoms, vec!["X".to_string()]);
}

#[test]
fn hypgen_parser_bad_json_yields_empty_no_panic() {
    assert!(parse_hypgen_json("not json").is_empty());
    assert!(parse_hypgen_json("").is_empty());
    assert!(parse_hypgen_json("{}").is_empty());
    assert!(parse_hypgen_json(r#"{"hypotheses":"oops"}"#).is_empty());
    assert!(parse_hypgen_json(r#"{"hypotheses":[{"statement":"  "}]}"#).is_empty());
}

#[test]
fn hypgen_parser_skips_evidence_without_id() {
    let raw = r#"{"hypotheses":[{"statement":"S","atoms":["a"],"evidence_refs":[
            {"snippet":"orphan"},
            {"id":"ok","snippet":"good"}
        ]}]}"#;
    let out = parse_hypgen_json(raw);
    assert_eq!(out.len(), 1);
    assert_eq!(out[0].evidence_refs.len(), 1);
    assert_eq!(out[0].evidence_refs[0].id, "ok");
}

#[test]
fn read_synthesis_inputs_missing_dir_is_empty_no_panic() {
    assert!(format_labeled_files(&Vec::new()).is_empty());
    assert!(read_recent_session(&None, &None).is_empty());
    assert!(read_refuted_summaries(&Vec::new()).is_empty());
    assert!(render_meta_review(&Vec::new()).is_empty());
    assert!(meta_review_tail("").is_empty());
}

fn named(name: &str, body: &str) -> ReadFile {
    ReadFile { name: name.to_string(), body: Some(body.to_string()) }
}

#[test]
fn read_synthesis_inputs_reads_and_excludes_index_files() {
    let names: Vec<String> =
        ["user_topic.md", "another.md", "MEMORY.md", "SESSION.md", ".session-abc.md", "x.txt"]
            .iter()
            .map(|s| s.to_string())
            .collect();
    let chosen = select_corpus_files(CorpusKind::Reflections, &names);
    assert_eq!(chosen, vec!["another.md", "user_topic.md"]);
    assert!(is_reflection_file("a.md"));
    assert!(!is_reflection_file("a.txt"));
    let dreams: Vec<String> =
        ["insight_x.md", "fragment_y.md"].iter().map(|s| s.to_string()).collect();
    assert_eq!(select_corpus_files(CorpusKind::Insights, &dreams), vec!["insight_x.md"]);
    let files = vec![
        named("another.md", " second-reflection \n"),
        named("blank.md", "  \n"),
        ReadFile { name: "gone.md".to_string(), body: None },
        named("user_topic.md", "reflection-about-topic"),
    ];
    assert_eq!(
        format_labeled_files(&files),
        "## another.md\n\nsecond-reflection\n\n## user_topic.md\n\nreflection-about-topic"
    );
    let session = read_recent_session(
        &Some("session-current-content".to_string()),
        &Some(named(".session-abc.md", "snapshot-content")),
    );
    assert_eq!(
        session,
        "## SESSION.md\n\nsession-current-content\n\n## Recent session snapshot (.session-abc.md)\n\nsnapshot-content"
    );
}

#[test]
fn snapshots_keep_their_end_and_notes_their_beginning() {
    let long = format!("{}{}", "h".repeat(9_000), "尾".repeat(8_000));
    let session =
        read_recent_session(&None, &Some(named(".session-x.md", &format!("  {long}\n\n"))));
    assert_eq!(
        session,
        format!("## Recent session snapshot (.session-x.md)\n\n{}", "尾".repeat(8_000))
    );
    let notes = read_recent_session(&Some(long), &None);
    assert!(notes.starts_with("## SESSION.md\n\nhhh"));
    assert!(!notes.contains('尾'));
    assert!(read_recent_session(&None, &Some(named(".session-x.md", " \n"))).is_empty());
}

#[test]
fn corpus_is_sorted_and_capped() {
    let names: Vec<String> = (0..20).rev().map(|i| format!("q{i:02}.md")).collect();
    let queue = select_corpus_files(CorpusKind::Queue, &names);
    assert_eq!(queue.len(), 12);
    assert_eq!(queue[0], "q00.md");
    assert_eq!(queue[11], "q11.md");
}

fn timed(name: &str, mtime_ms: u64) -> TimedFile {
    TimedFile { name: name.to_string(), path: format!("/d/{name}"), mtime_ms }
}

#[test]
fn latest_snapshot_wins_and_the_first_of_equals() {
    let files = vec![
        timed("notes.md", 99),
        timed(".session-a.md", 5),
        timed(".session-b.md", 7),
        timed(".session-c.md", 7),
    ];
    assert_eq!(most_recent_session_snapshot(&files), Some(2));
    assert_eq!(most_recent_session_snapshot(&vec![timed("notes.md", 1)]), None);
}

#[test]
fn generate_hypotheses_includes_disk_corpus_and_parses_candidates() {
    let inputs = SynthesisInputs {
        reflections: "KNOWN_REFLECTION_MARKER".to_string(),
        dreams: "KNOWN_DREAM_MARKER".to_string(),
        recent_session: "KNOWN_SESSION_MARKER".to_string(),
        refuted: String::new(),
        meta_review: String::new(),
    };
    let messages = build_hypgen_messages(&inputs, "");
    let mut processor: Processor = ImaginationProcessor::new(ImaginationGate::new());
    let request = processor.open_call("hypgen", messages, None, LlmCallParams::default(), 0, 0);
    let sys = &request.messages[0].content;
    assert!(sys.contains("KNOWN_REFLECTION_MARKER"), "reflections missing");
    assert!(sys.contains("KNOWN_DREAM_MARKER"), "dreams missing");
    assert!(sys.contains("KNOWN_SESSION_MARKER"), "session missing");
    assert!(!sys.contains("{{reflections}}"));
    assert!(!sys.contains("{{dreams}}"));
    assert!(!sys.contains("{{recent_session}}"));
    assert!(!sys.contains("{{refuted}}"));
    assert!(!sys.contains("{{meta_review}}"));
    assert!(sys.contains("(no refuted hypotheses yet)"));
    assert!(sys.contains("(no prior sweeps)"));
    assert_eq!(request.phase.as_deref(), Some("hypgen"));
    let generated = generated_hypotheses(
        reply(
            &request.req_id,
            r#"{"hypotheses":[
                    {"statement":"Markdown beats JSON for docs","atoms":["users prefer markdown"],"evidence_refs":[{"id":"reflect_one.md","snippet":"q"}]}
                ]}"#,
        ),
        "hypgen/v0".to_string(),
    );
    assert_eq!(generated.hypotheses.len(), 1);
    assert_eq!(generated.hypotheses[0].statement, "Markdown beats JSON for docs");
    assert_eq!(generated.hypotheses[0].atoms, vec!["users prefer markdown".to_string()]);
    assert!(generated.req_id.starts_with("tier3-imagination-hypgen-"));
    assert_eq!(generated.variant_id, "hypgen/v0");
}

#[test]
fn w6_refuted_write_read_and_prune_roundtrip() {
    let mut hypothesis = sample_hypothesis();
    hypothesis.statement = "用户可能更偏好暗色主题".to_string();
    let body = render_refuted_md(&hypothesis, "0.21", &Vec::new(), &Vec::new(), 77);
    assert_eq!(
        body,
        "---\ntype: imagined\nstatus: refuted\nconfidence_value: 0.21\ncreated_at_ms: 77\n---\n\n用户可能更偏好暗色主题\n"
    );
    assert_eq!(refuted_dir("/m"), "/m/imagination/refuted");
    let summaries = read_refuted_summaries(&vec![
        "\n\n用户可能更偏好暗色主题\n- [refuted, conf 0.10] x\n".to_string(),
        "  \n".to_string(),
    ]);
    assert_eq!(summaries, "- 用户可能更偏好暗色主题");
    let files: Vec<TimedFile> = (0..(REFUTED_MAX_FILES as u64 + 5))
        .map(|i| timed(&format!("refuted_{i}.md"), 1000 - i))
        .collect();
    let dropped = prune_refuted_dir(&files);
    assert_eq!(dropped.len(), 5);
    assert_eq!(dropped[0], "/d/refuted_54.md");
    assert!(files.len() - dropped.len() <= REFUTED_MAX_FILES);
    assert!(prune_refuted_dir(&files[0..50].to_vec()).is_empty());
    let shown = select_refuted(&files);
    assert_eq!(shown.len(), 20);
    assert_eq!(shown[0], "/d/refuted_0.md");
}

#[test]
fn w6_meta_review_appends_caps_and_renders_tail() {
    assert_eq!(meta_review_path("/m"), "/m/imagination/meta-review.jsonl");
    let mut raw = String::new();
    for index in 0..(META_REVIEW_MAX_LINES + 10) {
        raw = append_meta_review(&raw, &format!("{{\"ts_ms\":{index}}}"));
    }
    assert_eq!(
        raw.lines().filter(|l| !l.trim().is_empty()).count(),
        META_REVIEW_MAX_LINES
    );
    let tail = meta_review_tail(&raw);
    assert_eq!(tail.len(), HYPGEN_META_REVIEW_TAIL);
    assert_eq!(tail[2], "{\"ts_ms\":109}");
    let review = SweepMetaReview {
        ts_ms: 7,
        candidates: 5,
        queued_high: 1,
        queued_medium: 1,
        expired: 3,
    };
    assert_eq!(
        render_meta_review(&vec![review, review]),
        "- sweep@7: 5 candidates → 1 high, 1 medium, 3 expired\n- sweep@7: 5 candidates → 1 high, 1 medium, 3 expired"
    );
}

#[test]
fn generated_hypotheses_are_capped() {
    let items: Vec<String> =
        (0..6).map(|i| format!(r#"{{"statement":"s{i}","atoms":["a"]}}"#)).collect();
    let raw = format!(r#"{{"hypotheses":[{}]}}"#, items.join(","));
    assert_eq!(parse_hypgen_json(&raw).len(), 6);
    let generated = generated_hypotheses(reply("r", &raw), String::new());
    assert_eq!(generated.hypotheses.len(), 5);
    assert_eq!(generated.hypotheses[4].statement, "s4");
}

#[test]
fn generate_hypotheses_bad_llm_json_yields_empty_no_panic() {
    let generated = generated_hypotheses(reply("r", "this is not json at all"), String::new());
    assert!(generated.hypotheses.is_empty());
}

#[test]
fn process_generated_runs_pipeline_per_candidate() {
    let outputs = vec![
        output(PromotionVerdict::ReviewQueueHigh),
        output(PromotionVerdict::Pending),
        output(PromotionVerdict::Expired),
        output(PromotionVerdict::Expired),
    ];
    let review = sweep_review(&outputs, 12);
    assert_eq!(review.candidates, 4);
    assert_eq!((review.queued_high, review.queued_medium, review.expired), (1, 1, 2));
    assert_eq!(review.ts_ms, 12);
    assert_eq!(variant_tally(&outputs), (1, 2));
    let many: Vec<ImaginationHypothesis> = (0..7).map(|_| sample_hypothesis()).collect();
    assert_eq!(candidates(many).len(), 5);
}

#[test]
fn process_generated_empty_generation_yields_no_outputs() {
    assert!(candidates(Vec::new()).is_empty());
    assert_eq!(variant_tally(&Vec::new()), (0, 0));
    assert_eq!(sweep_review(&Vec::new(), 0).candidates, 0);
}

#[test]
fn verdict_outcome_maps_high_win_expired_loss_pending_neutral() {
    assert_eq!(verdict_outcome(PromotionVerdict::ReviewQueueHigh), Some(true));
    assert_eq!(verdict_outcome(PromotionVerdict::Expired), Some(false));
    assert_eq!(verdict_outcome(PromotionVerdict::Pending), None);
}

#[test]
fn build_hypgen_messages_appends_variant_addendum_to_system() {
    let inputs = SynthesisInputs::default();
    let base = build_hypgen_messages(&inputs, "");
    assert_eq!(base[0].role, "system");
    let base_sys = base[0].content.clone();
    assert!(!base_sys.contains("TESTMARKER-XYZ"));
    let addendum = "\nStyle emphasis for this sweep: TESTMARKER-XYZ.";
    let with = build_hypgen_messages(&inputs, addendum);
    assert!(with[0].content.starts_with(base_sys.as_str()));
    assert!(with[0].content.ends_with(addendum));
    assert_eq!(base[1].content, with[1].content);
}

fn assert_impl<T: TierGate>(_: &T) -> bool {
    true
}

#[test]
fn imagination_gate_implements_tier_gate_trait() {
    let gate = ImaginationGate::new();
    assert!(assert_impl(&gate));
}

#[test]
fn gather_evidence_emits_tool_request_frame() {
    let mut processor: Processor = ImaginationProcessor::new(ImaginationGate::new());
    let req = processor.open_tools(sample_tool_calls(), 3, 11).unwrap();
    assert!(req.req_id.starts_with("tier3-imagination-evidence-"));
    assert_eq!(req.tier, MemoryTier::Dream);
    assert_eq!(req.calls.len(), 2);
    assert_eq!(req.calls[0].kind, ToolKind::WebSearch);
    assert_eq!(req.calls[0].query.as_deref(), Some("latest rust release"));
    assert_eq!(req.calls[1].kind, ToolKind::WebFetch);
    assert_eq!(req.calls[1].url.as_deref(), Some("https://example.com/rust"));
    let result = ToolCallResultPayload {
        req_id: req.req_id.clone(),
        evidence: Vec::new(),
        error: None,
    };
    assert_eq!(processor.deliver_tool_result(&result), Some(11));
    assert!(processor.close_tools(&req.req_id, ToolOutcome::Reply(result), false).is_empty());
}

#[test]
fn gather_evidence_resolves_with_delivered_evidence() {
    let mut processor: Processor = ImaginationProcessor::new(ImaginationGate::new());
    let req = processor.open_tools(sample_tool_calls(), 3, 11).unwrap();
    let result = ToolCallResultPayload {
        req_id: req.req_id.clone(),
        evidence: vec![ToolEvidence {
            source_url: "https://example.com/a".to_string(),
            fetched_at_ms: 42,
            content: "fresh fact".to_string(),
            title: Some("A".to_string()),
        }],
        error: None,
    };
    let evidence = processor.close_tools(&req.req_id, ToolOutcome::Reply(result), false);
    assert_eq!(evidence.len(), 1);
    assert_eq!(evidence[0].source_url, "https://example.com/a");
    assert_eq!(evidence[0].fetched_at_ms, 42);
    assert_eq!(evidence[0].content, "fresh fact");
}

#[test]
fn gather_evidence_empty_calls_returns_empty_without_emit() {
    let mut processor: Processor = ImaginationProcessor::new(ImaginationGate::new());
    assert!(processor.open_tools(Vec::new(), 3, 11).is_none());
    let next = processor.open_tools(sample_tool_calls(), 3, 11).unwrap();
    assert_eq!(next.req_id, "tier3-imagination-evidence-1-3");
}

#[test]
fn gather_evidence_shutdown_fail_soft_returns_empty() {
    let mut processor: Processor = ImaginationProcessor::new(ImaginationGate::new());
    let req = processor.open_tools(sample_tool_calls(), 3, 11).unwrap();
    assert!(processor.close_tools(&req.req_id, ToolOutcome::Closed, true).is_empty());
    assert!(processor.close_tools(&req.req_id, ToolOutcome::Elapsed, false).is_empty());
    let late = ToolCallResultPayload { req_id: req.req_id, evidence: Vec::new(), error: None };
    assert!(processor.deliver_tool_result(&late).is_none());
}

#[test]
fn derive_statement_filenames_extracts_relative_tokens_only() {
    let names = derive_statement_filenames(
        "The loader in src/config.rs mishandles dream-config.json, see \
             https://example.com/x.md and /etc/passwd.txt plus ../../evil.rs \
             and src\\util\\helper.rs.",
    );
    assert_eq!(
        names,
        vec![
            "src/config.rs".to_string(),
            "dream-config.json".to_string(),
            "src/util/helper.rs".to_string(),
        ],
        "relative filename tokens only — URLs / absolute / traversal rejected"
    );
    assert!(derive_statement_filenames("no filenames here at all").is_empty());
}

fn watched_run(statement: &str) -> ImaginationRun {
    let mut h = sample_hypothesis();
    h.statement = statement.to_string();
    let watch = WatchContext { root: "D:/watched".to_string(), focus: Some("架构演进".to_string()) };
    ImaginationRun::new(h, Some(watch))
}

#[test]
fn gather_evidence_with_watch_context_emits_probe_calls() {
    let run = watched_run("check src/config.rs and notes.md for drift");
    let calls = run.evidence_calls();
    assert_eq!(calls.len(), 4);
    assert_eq!(calls[0].kind, ToolKind::WebSearch);
    let listdir = &calls[1];
    assert_eq!(listdir.kind, ToolKind::ListDir);
    assert_eq!(listdir.id.as_deref(), Some("watch-listdir-1"));
    assert_eq!(listdir.root.as_deref(), Some("D:/watched"));
    assert_eq!(listdir.path.as_deref(), Some("D:/watched"));
    let rf1 = &calls[2];
    assert_eq!(rf1.kind, ToolKind::ReadFile);
    assert_eq!(rf1.id.as_deref(), Some("watch-readfile-1"));
    assert!(rf1.path.as_deref().unwrap().ends_with("config.rs"), "path: {:?}", rf1.path);
    assert_eq!(rf1.root.as_deref(), Some("D:/watched"));
    let rf2 = &calls[3];
    assert_eq!(rf2.kind, ToolKind::ReadFile);
    assert!(rf2.path.as_deref().unwrap().ends_with("notes.md"));
    let result = ToolCallResultPayload {
        req_id: "r".to_string(),
        evidence: vec![
            ToolEvidence {
                source_url: "D:/watched".to_string(),
                fetched_at_ms: 10,
                content: r#"{"entries":["src/","notes.md"]}"#.to_string(),
                title: None,
            },
            ToolEvidence {
                source_url: "D:/watched/src/config.rs".to_string(),
                fetched_at_ms: 11,
                content: "fn resolve() { /* drift */ }".to_string(),
                title: None,
            },
        ],
        error: None,
    };
    let mut processor: Processor = ImaginationProcessor::new(ImaginationGate::new());
    let evidence = processor.close_tools("r", ToolOutcome::Reply(result), true);
    assert_eq!(evidence.len(), 2);
    assert_eq!(evidence[0].content, "src/\nnotes.md");
    assert!(evidence[1].content.contains("drift"));
}

#[test]
fn listings_say_when_they_are_empty_or_cut() {
    let listing = |content: &str| {
        let evidence = vec![ToolEvidence {
            source_url: "D:/w".to_string(),
            fetched_at_ms: 0,
            content: content.to_string(),
            title: None,
        }];
        decode_watch_listing_evidence(&evidence)[0].content.clone()
    };
    assert_eq!(listing(r#"{"entries":[]}"#), "(empty directory)");
    assert_eq!(listing(r#"{"entries":["a"],"truncated":true}"#), "a\n…（清单被截断）");
    assert_eq!(listing(r#"{"entries":["a","b"],"truncated":false}"#), "a\nb");
    for kept in [
        r#"{"other":1}"#,
        r#"{"entries":["a",1]}"#,
        r#"{"entries":[1]}"#,
        r#"{"entries":["a"],"name":"n"}"#,
        r#"{"entries":["a"],"truncated":"yes"}"#,
        r#"{"truncated":true}"#,
    ] {
        assert_eq!(listing(kept), kept);
    }
    assert_eq!(listing("{broken"), "{broken");
}

#[test]
fn gather_evidence_watch_without_filenames_derives_listdir_only() {
    let run = watched_run("   ");
    let calls = run.evidence_calls();
    assert_eq!(calls.len(), 1);
    assert_eq!(calls[0].kind, ToolKind::ListDir);
}

#[test]
fn gather_evidence_without_watch_context_is_unchanged() {
    let run = ImaginationRun::new(sample_hypothesis(), None);
    for call in run.evidence_calls() {
        assert_eq!(call.kind, ToolKind::WebSearch);
        assert!(call.id.is_none());
        assert!(call.path.is_none());
        assert!(call.root.is_none());
    }
}

#[test]
fn deliver_tool_result_unknown_req_id_is_noop() {
    let mut processor: Processor = ImaginationProcessor::new(ImaginationGate::new());
    let delivered = processor.deliver_tool_result(&ToolCallResultPayload {
        req_id: "no-such-req".to_string(),
        evidence: Vec::new(),
        error: None,
    });
    assert!(delivered.is_none(), "unknown req_id is a no-op");
}

#[test]
fn derive_evidence_queries_minimal_web_search_for_statement() {
    let h = sample_hypothesis();
    let queries = derive_evidence_queries(&h);
    assert_eq!(queries.len(), 1, "minimal-start = exactly one web_search");
    assert_eq!(queries[0].kind, ToolKind::WebSearch);
    assert_eq!(queries[0].query.as_deref(), Some(h.statement.trim()));
    assert!(queries[0].url.is_none());
}

#[test]
fn derive_evidence_queries_empty_statement_yields_no_queries() {
    let mut h = sample_hypothesis();
    h.statement = "   ".to_string();
    assert!(derive_evidence_queries(&h).is_empty());
}

#[test]
fn external_evidence_to_refs_uses_source_url_as_id() {
    let refs = external_evidence_to_refs(&sample_external_evidence());
    assert_eq!(refs.len(), 2);
    assert_eq!(refs[0].id, "https://example.org/fresh");
    assert_eq!(refs[0].snippet, "Authoritative fresh fact backing the hypothesis.");
    assert_eq!(refs[1].id, "https://example.org/second");
}

#[test]
fn external_evidence_to_refs_truncates_long_content() {
    let long = "x".repeat(EVIDENCE_CONTENT_MAX_CHARS + 500);
    let evidence = vec![ToolEvidence {
        source_url: "https://e".to_string(),
        fetched_at_ms: 1,
        content: long,
        title: None,
    }];
    let refs = external_evidence_to_refs(&evidence);
    assert_eq!(refs[0].snippet.chars().count(), EVIDENCE_CONTENT_MAX_CHARS + 2);
    assert!(refs[0].snippet.ends_with(" …"));
}

#[test]
fn build_l2_messages_prefers_external_evidence() {
    let h = sample_hypothesis();
    let external = sample_external_evidence();
    let msgs = build_l2_messages_with_evidence(&h, &external);
    let sys = &msgs[0].content;
    assert!(sys.contains("https://example.org/fresh"));
    assert!(sys.contains("Authoritative fresh fact"));
    assert!(sys.contains("Fresh Source"), "title prefixed when present");
    assert!(!sys.contains("sess-1"), "internal ref id must be displaced");
}

#[test]
fn build_l2_messages_falls_back_to_internal_refs_when_external_empty() {
    let h = sample_hypothesis();
    let msgs = build_l2_messages_with_evidence(&h, &Vec::new());
    let sys = &msgs[0].content;
    assert!(sys.contains("sess-1"));
    assert!(sys.contains("markdown reads nicer than json"));
}

#[test]
fn process_with_external_evidence_feeds_scoring_and_writes_sources() {
    let mut run = ImaginationRun::new(sample_hypothesis(), None);
    run.accept_plausibility(reply("a", "x"));
    run.accept_evidence(sample_external_evidence());
    assert!(run.dimensions_messages()[0].content.contains("https://example.org/fresh"));
    run.accept_dimensions(reply("b", "x"));
    let claim = &run.claim_messages()[0].content;
    assert!(claim.contains("https://example.org/fresh"));
    assert!(!claim.contains("sess-1"));
    let direct = build_l3_messages("Users prefer markdown.", &run.claim_refs());
    assert_eq!(&direct[0].content, claim);
}

#[test]
fn process_without_external_evidence_falls_back_no_sources_no_panic() {
    let mut run = ImaginationRun::new(sample_hypothesis(), None);
    run.accept_plausibility(reply("a", "x"));
    run.accept_evidence(Vec::new());
    assert!(run.dimensions_messages()[0].content.contains("sess-1"));
    run.accept_dimensions(reply("b", "x"));
    assert!(run.claim_messages()[0].content.contains("sess-1"));
}
