//! Imagination: hypotheses about what the memory holds are scored in layers, and those that score well
//! enough wait for review.

use vstd::prelude::*;
use vstd::string::StringExecFns;
use crate::path;
use crate::score;
use crate::table::Table;
use crate::text;
use crate::tier;
use crate::tier::imagination_evidence;
use crate::tier::{
    CallDesk, CallFailure, CallFailureView, CallOutcome, GateDecision, LlmCallParams,
    LlmCallRequestPayload, LlmCallResultPayload, LlmMessage, LlmUsage, MemoryTier, TierGate,
};

pub use crate::tier::imagination_calls::{
    parse_hypgen_json, AtomVerdict, AtomVerdictKind, FourDimensionScores, SynthesisInputs,
    VerdictView, TIER3_IMAGINATION_HYPOTHESIS_GEN_PROMPT, TIER3_IMAGINATION_L1_SELFRAG_PROMPT,
    TIER3_IMAGINATION_L2_FOUR_DIMENSIONS_PROMPT, TIER3_IMAGINATION_L3_ATOMIC_VERIFY_PROMPT,
};
pub use crate::tier::imagination_documents::{
    iso8601_expiry_from_ms, iso8601_expiry_from_now, SweepMetaReview,
    EVOLUTION_REPORT_SYSTEM_PROMPT, EVOLUTION_REPORT_SYSTEM_PROMPT_EN, REVIEW_EXPIRY_DAYS,
};
pub use crate::tier::imagination_evidence::{
    HypothesisView, ImaginationEvidenceRef, ImaginationHypothesis, RefView, ToolCall,
    ToolCallRequestPayload, ToolCallResultPayload, ToolEvidence, ToolEvidenceView, ToolKind,
    ToolOutcome, WatchContext, TOOL_CALL_TIMEOUT_MS,
};
pub use crate::tier::tier3_auto_dream::LlmUsageWire;

verus! {

/// The bit pattern of 0.7: a hypothesis that scores so high is shown first.
pub const PROMOTION_THRESHOLD: u64 = 0x3FE6_6666_6666_6666;

/// The bit pattern of 0.5: a hypothesis that scores lower is dropped.
pub const EXPIRE_THRESHOLD: u64 = 0x3FE0_0000_0000_0000;

/// The bit pattern of 0.3, the weight of the first layer.
pub const L1_WEIGHT: u64 = 0x3FD3_3333_3333_3333;

/// The bit pattern of 0.4, the weight of the second layer.
pub const L2_WEIGHT: u64 = 0x3FD9_9999_9999_999A;

/// The bit pattern of 0.3, the weight of the third layer.
pub const L3_WEIGHT: u64 = 0x3FD3_3333_3333_3333;

/// How long the result of a model call is waited for.
pub const LLM_CALL_TIMEOUT_MS: u64 = 60_000;

/// How the layers are fused.
pub const TIER3_IMAGINATION_L4_FUSION_FORMULA: &'static str = "final_confidence = L1 * 0.3 + L2.avg * 0.4 + L3 * 0.3";

/// What becomes of a hypothesis.
pub const TIER3_IMAGINATION_L5_PROMOTION_RULES: &'static str = r#"
- final_confidence >= 0.7 → review queue (confidence: high, status: pending-review)
- 0.5 <= final_confidence < 0.7 → review queue (confidence: medium, status: pending-review)
- final_confidence < 0.5 → expire (no write, log only)
"#;

/// How many hypotheses of one generation are scored.
pub const HYPGEN_MAX_CANDIDATES: usize = 5;

/// How many characters of a statement are noted where nothing could be read about it.
pub const SNIPPET_CHARS: usize = 160;

// ---------------------------------------------------------------------------
// The tier gate
// ---------------------------------------------------------------------------

#[derive(Debug, Clone)]
pub struct ImaginationGateInput {
    pub memory_dir: String,
    pub enabled: bool,
}

#[derive(Debug, Clone)]
pub struct ImaginationGateOutput {
    pub review_queue_dir: String,
}

#[derive(Debug, Clone)]
pub enum ImaginationGateError {
    Io(String),
}

/// A gate that triggers whenever imagination is switched on.
#[derive(Debug, Clone, Copy)]
pub struct ImaginationGate;

impl Default for ImaginationGate {
    fn default() -> (r: Self) {
        ImaginationGate
    }
}

/// Where drafts wait for review.
pub open spec fn review_queue(memory_dir: Seq<char>) -> Seq<char> {
    path::under(path::under(memory_dir, "imagination"@), "review-queue"@)
}

/// See [`review_queue`].
pub fn review_queue_dir(memory_dir: &str) -> (r: String)
    ensures
        r@ == review_queue(memory_dir@),
{
    let dir = path::child(memory_dir, "imagination");
    path::child(dir.as_str(), "review-queue")
}

impl ImaginationGate {
    pub fn new() -> (r: Self)
        ensures
            r == ImaginationGate,
    {
        ImaginationGate
    }

    /// Triggers with the review queue unless imagination is switched off.
    pub fn decide(&self, input: &ImaginationGateInput) -> (r: GateDecision<ImaginationGateOutput>)
        ensures
            !input.enabled ==> r.skips("feature_disabled"@),
            input.enabled ==> r.triggers() && r.payload->0.review_queue_dir@ == review_queue(
                input.memory_dir@,
            ),
    {
        if !input.enabled {
            return GateDecision::skip("feature_disabled");
        }
        GateDecision::trigger(
            ImaginationGateOutput { review_queue_dir: review_queue_dir(input.memory_dir.as_str()) },
        )
    }
}

impl TierGate for ImaginationGate {
    type GateInput = ImaginationGateInput;

    type GateOutput = ImaginationGateOutput;

    type Error = ImaginationGateError;

    fn evaluate_gate(&mut self, input: ImaginationGateInput) -> (r: Result<
        GateDecision<ImaginationGateOutput>,
        ImaginationGateError,
    >)
        ensures
            r is Ok,
            !input.enabled ==> r->Ok_0.skips("feature_disabled"@),
            input.enabled ==> r->Ok_0.triggers() && r->Ok_0.payload->0.review_queue_dir@
                == review_queue(input.memory_dir@),
            *final(self) == *old(self),
    {
        Ok(self.decide(&input))
    }
}

// ---------------------------------------------------------------------------
// Verdicts
// ---------------------------------------------------------------------------

/// What becomes of a hypothesis.
#[derive(Debug, Clone, Copy, PartialEq, Eq, Structural)]
pub enum PromotionVerdict {
    /// It waits for review with high confidence.
    ReviewQueueHigh,
    /// It waits for review with medium confidence.
    Pending,
    /// It is dropped.
    Expired,
}

/// What becomes of a hypothesis with the given confidence. One about which no layer could be read is
/// dropped.
pub open spec fn verdict_for(nothing_read: bool, final_confidence: u64) -> PromotionVerdict {
    if nothing_read {
        PromotionVerdict::Expired
    } else if score::at_least(final_confidence, PROMOTION_THRESHOLD) {
        PromotionVerdict::ReviewQueueHigh
    } else if score::at_least(final_confidence, EXPIRE_THRESHOLD) {
        PromotionVerdict::Pending
    } else {
        PromotionVerdict::Expired
    }
}

/// See [`verdict_for`].
pub fn promotion_verdict(nothing_read: bool, final_confidence: u64) -> (r: PromotionVerdict)
    ensures
        r == verdict_for(nothing_read, final_confidence),
{
    if nothing_read {
        PromotionVerdict::Expired
    } else if score::reaches(final_confidence, PROMOTION_THRESHOLD) {
        PromotionVerdict::ReviewQueueHigh
    } else if score::reaches(final_confidence, EXPIRE_THRESHOLD) {
        PromotionVerdict::Pending
    } else {
        PromotionVerdict::Expired
    }
}

/// The higher, the better.
pub open spec fn standing(v: PromotionVerdict) -> int {
    match v {
        PromotionVerdict::ReviewQueueHigh => 2,
        PromotionVerdict::Pending => 1,
        PromotionVerdict::Expired => 0,
    }
}

/// More confidence never makes for a worse verdict.
pub proof fn confidence_never_hurts(a: u64, b: u64)
    requires
        score::at_least(a, b),
    ensures
        standing(verdict_for(false, a)) >= standing(verdict_for(false, b)),
{
}

/// How a verdict counts for the prompt that the hypothesis came of: as a win, as a loss, or not at all.
pub open spec fn outcome_of_verdict(verdict: PromotionVerdict) -> Option<bool> {
    match verdict {
        PromotionVerdict::ReviewQueueHigh => Some(true),
        PromotionVerdict::Expired => Some(false),
        PromotionVerdict::Pending => None,
    }
}

/// See [`outcome_of_verdict`].
pub fn verdict_outcome(verdict: PromotionVerdict) -> (r: Option<bool>)
    ensures
        r == outcome_of_verdict(verdict),
{
    match verdict {
        PromotionVerdict::ReviewQueueHigh => Some(true),
        PromotionVerdict::Expired => Some(false),
        PromotionVerdict::Pending => None,
    }
}

// ---------------------------------------------------------------------------
// Inputs and outputs
// ---------------------------------------------------------------------------

/// A hypothesis to be scored.
#[derive(Debug, Clone)]
pub struct ImaginationProcessInput {
    pub memory_dir: String,
    pub gate_payload: ImaginationGateOutput,
    pub hypothesis: ImaginationHypothesis,
    pub model_hint: Option<String>,
    pub params: LlmCallParams,
    pub watch_context: Option<WatchContext>,
}

/// Hypotheses to be generated and scored.
#[derive(Debug, Clone)]
pub struct ImaginationGeneratedInput {
    pub memory_dir: String,
    pub gate_payload: ImaginationGateOutput,
    pub model_hint: Option<String>,
    pub params: LlmCallParams,
    pub watch_context: Option<WatchContext>,
}

/// What was generated, and under which variant of the prompt.
#[derive(Debug, Clone)]
pub struct GeneratedHypotheses {
    pub hypotheses: Vec<ImaginationHypothesis>,
    pub req_id: String,
    pub aggregate_usage: Option<LlmUsageWire>,
    pub variant_id: String,
}

/// What came of the hypotheses of one generation.
#[derive(Debug, Clone)]
pub struct ImaginationGeneratedOutput {
    pub generation_req_id: String,
    pub generation_usage: Option<LlmUsageWire>,
    pub outputs: Vec<ImaginationProcessOutput>,
}

/// What came of a hypothesis. Scores are bit patterns of doubles.
#[derive(Debug, Clone)]
pub struct ImaginationProcessOutput {
    pub l1_plausibility: u64,
    pub l2_scores: FourDimensionScores,
    pub l3_atomic_aggregate: u64,
    pub l3_atom_verdicts: Vec<AtomVerdict>,
    pub final_confidence: u64,
    pub verdict: PromotionVerdict,
    pub imagined_path: Option<String>,
    pub req_ids: Vec<String>,
    pub aggregate_usage: Option<LlmUsageWire>,
}

#[derive(Debug, Clone)]
pub enum ImaginationProcessError {
    Io(String),
    Write(String),
    Timeout(u64),
    LlmFailure(String),
    Shutdown,
    InvalidOutput(String),
}

/// The error that a failed call ends an imagination with.
pub open spec fn is_call_error(e: ImaginationProcessError, f: CallFailureView) -> bool {
    match f {
        CallFailureView::Elapsed => e == ImaginationProcessError::Timeout(LLM_CALL_TIMEOUT_MS),
        CallFailureView::Closed => e is Shutdown,
        CallFailureView::Failed(m) => e matches ImaginationProcessError::LlmFailure(t) && t@ == m,
    }
}

/// The reply to a call.
#[derive(Debug, Clone)]
pub struct ImaginationReply {
    pub req_id: String,
    pub response: String,
    pub usage: Option<LlmUsage>,
}

// ---------------------------------------------------------------------------
// Calls
// ---------------------------------------------------------------------------

/// The prefix of the identifiers of the calls of a layer.
pub open spec fn layer_prefix(layer: Seq<char>) -> Seq<char> {
    "tier3-imagination-"@ + layer + "-"@
}

fn layer_prefix_of(layer: &str) -> (r: String)
    ensures
        r@ == layer_prefix(layer@),
{
    let mut prefix = "tier3-imagination-".to_owned();
    prefix.append(layer);
    prefix.append("-");
    prefix
}

/// Makes the calls of imaginations. `S` is where the result of a model call is awaited, `T` where that of
/// tool calls is.
pub struct ImaginationProcessor<S, T> {
    pub gate: ImaginationGate,
    pub desk: CallDesk<S>,
    pub tool_pending: Table<T>,
}

impl<S, T> ImaginationProcessor<S, T> {
    pub fn new(gate: ImaginationGate) -> (r: Self)
        ensures
            r.gate == gate,
            r.desk.pending@ == Map::<Seq<char>, S>::empty(),
            r.desk.req_id_counter == 0,
            r.tool_pending@ == Map::<Seq<char>, T>::empty(),
    {
        ImaginationProcessor { gate, desk: CallDesk::new(), tool_pending: Table::new() }
    }

    pub fn gate(&self) -> (r: &ImaginationGate)
        ensures
            *r == self.gate,
    {
        &self.gate
    }

    /// Hands out where the result of a model call is awaited; `None` where no such call is pending.
    pub fn deliver_result(&mut self, result: &LlmCallResultPayload) -> (r: Option<S>)
        ensures
            r is Some <==> old(self).desk.pending@.contains_key(result.req_id@),
            r matches Some(s) ==> s == old(self).desk.pending@[result.req_id@],
            final(self).desk.pending@ == old(self).desk.pending@.remove(result.req_id@),
            final(self).desk.req_id_counter == old(self).desk.req_id_counter,
            final(self).tool_pending == old(self).tool_pending,
            final(self).gate == old(self).gate,
    {
        self.desk.close(result.req_id.as_str())
    }

    /// Hands out where the result of tool calls is awaited; `None` where no such calls are pending.
    pub fn deliver_tool_result(&mut self, result: &ToolCallResultPayload) -> (r: Option<T>)
        ensures
            r is Some <==> old(self).tool_pending@.contains_key(result.req_id@),
            r matches Some(s) ==> s == old(self).tool_pending@[result.req_id@],
            final(self).tool_pending@ == old(self).tool_pending@.remove(result.req_id@),
            final(self).desk == old(self).desk,
            final(self).gate == old(self).gate,
    {
        self.tool_pending.take(result.req_id.as_str())
    }

    /// Opens the call of a layer.
    pub fn open_call(
        &mut self,
        layer: &str,
        messages: Vec<LlmMessage>,
        model_hint: Option<String>,
        params: LlmCallParams,
        now_ms: u64,
        slot: S,
    ) -> (r: LlmCallRequestPayload)
        ensures
            final(self).gate == old(self).gate,
            final(self).tool_pending == old(self).tool_pending,
            final(self).desk.req_id_counter == tier::next_number(old(self).desk.req_id_counter),
            final(self).desk.pending@ == old(self).desk.pending@.insert(r.req_id@, slot),
            r.req_id@ == tier::call_id(
                layer_prefix(layer@),
                final(self).desk.req_id_counter,
                now_ms,
            ),
            r.tier == MemoryTier::Dream,
            text::opt_view(r.phase) == Some(layer@),
            r.messages == messages,
            r.model_hint == model_hint,
            r.params == params,
    {
        let prefix = layer_prefix_of(layer);
        self.desk.open(
            prefix.as_str(),
            MemoryTier::Dream,
            Some(layer.to_owned()),
            messages,
            model_hint,
            params,
            now_ms,
            slot,
        )
    }

    /// Closes a call: the reply, or the error that the imagination ends with.
    pub fn close_call(&mut self, req_id: String, outcome: CallOutcome) -> (r: Result<
        ImaginationReply,
        ImaginationProcessError,
    >)
        ensures
            final(self).gate == old(self).gate,
            final(self).tool_pending == old(self).tool_pending,
            final(self).desk.pending@ == old(self).desk.pending@.remove(req_id@),
            final(self).desk.req_id_counter == old(self).desk.req_id_counter,
            match tier::response_of(outcome) {
                Ok(p) => r matches Ok(q) && q.req_id == req_id && q.response@ == p.0 && q.usage
                    == p.1,
                Err(f) => r matches Err(e) && is_call_error(e, f),
            },
    {
        let _ = self.desk.close(req_id.as_str());
        match tier::take_response(outcome) {
            Ok(p) => Ok(ImaginationReply { req_id, response: p.0, usage: p.1 }),
            Err(CallFailure::Elapsed) => Err(ImaginationProcessError::Timeout(LLM_CALL_TIMEOUT_MS)),
            Err(CallFailure::Closed) => Err(ImaginationProcessError::Shutdown),
            Err(CallFailure::Failed(m)) => Err(ImaginationProcessError::LlmFailure(m)),
        }
    }

    /// Opens tool calls that gather evidence; `None`, with nothing changed, where there is none to make.
    pub fn open_tools(&mut self, calls: Vec<ToolCall>, now_ms: u64, slot: T) -> (r: Option<
        ToolCallRequestPayload,
    >)
        ensures
            calls@.len() == 0 ==> r is None && *final(self) == *old(self),
            calls@.len() > 0 ==> {
                &&& r matches Some(p)
                &&& p.req_id@ == tier::call_id(
                    layer_prefix("evidence"@),
                    final(self).desk.req_id_counter,
                    now_ms,
                )
                &&& p.tier == MemoryTier::Dream
                &&& p.calls == calls
                &&& final(self).tool_pending@ == old(self).tool_pending@.insert(p.req_id@, slot)
                &&& final(self).desk.req_id_counter == tier::next_number(
                    old(self).desk.req_id_counter,
                )
                &&& final(self).desk.pending == old(self).desk.pending
                &&& final(self).gate == old(self).gate
            },
    {
        if calls.len() == 0 {
            return None;
        }
        let prefix = layer_prefix_of("evidence");
        let req_id = self.desk.next_req_id(prefix.as_str(), now_ms);
        self.tool_pending.put(req_id.clone(), slot);
        Some(ToolCallRequestPayload { req_id, tier: MemoryTier::Dream, calls })
    }

    /// Closes tool calls: the evidence that came of them, none where no result came.
    pub fn close_tools(&mut self, req_id: &str, outcome: ToolOutcome, watched: bool) -> (r: Vec<
        ToolEvidence,
    >)
        ensures
            imagination_evidence::tool_evidence_views(r@) == imagination_evidence::gathered(
                outcome,
                watched,
            ),
            final(self).tool_pending@ == old(self).tool_pending@.remove(req_id@),
            final(self).desk == old(self).desk,
            final(self).gate == old(self).gate,
    {
        let _ = self.tool_pending.take(req_id);
        imagination_evidence::evidence_of_outcome(outcome, watched)
    }
}

/// What becomes of a hypothesis goes by its confidence: from 0.7 on it is queued first, from 0.5 on it is queued, and below
/// that, or without any number, it is dropped.
pub proof fn verdicts_go_by_the_thresholds(confidence: u64)
    ensures
        verdict_for(true, confidence) == PromotionVerdict::Expired,
        verdict_for(false, confidence) == PromotionVerdict::ReviewQueueHigh <==> score::at_least(
            confidence,
            0x3FE6_6666_6666_6666,
        ),
        verdict_for(false, confidence) == PromotionVerdict::Pending <==> score::at_least(
            confidence,
            0x3FE0_0000_0000_0000,
        ) && !score::at_least(confidence, 0x3FE6_6666_6666_6666),
        0x3FE6_6666_6666_6666 <= confidence <= 0x7FF0_0000_0000_0000 ==> verdict_for(
            false,
            confidence,
        ) == PromotionVerdict::ReviewQueueHigh,
        0x3FE0_0000_0000_0000 <= confidence < 0x3FE6_6666_6666_6666 ==> verdict_for(
            false,
            confidence,
        ) == PromotionVerdict::Pending,
        confidence < 0x3FE0_0000_0000_0000 ==> verdict_for(false, confidence)
            == PromotionVerdict::Expired,
        confidence > 0x7FF0_0000_0000_0000 ==> verdict_for(false, confidence)
            == PromotionVerdict::Expired,
{
}

/// A prompt wins with what is queued first and loses with what is dropped; what merely waits says nothing of it.
pub proof fn prompts_win_and_lose_by_verdicts()
    ensures
        outcome_of_verdict(PromotionVerdict::ReviewQueueHigh) == Some(true),
        outcome_of_verdict(PromotionVerdict::Expired) == Some(false),
        outcome_of_verdict(PromotionVerdict::Pending) is None,
{
}

/// How a call without a response ends an imagination.
pub proof fn failed_calls_end_imaginations(e: ImaginationProcessError, message: Seq<char>)
    ensures
        is_call_error(e, CallFailureView::Elapsed) <==> e == ImaginationProcessError::Timeout(60_000),
        is_call_error(e, CallFailureView::Closed) <==> e == ImaginationProcessError::Shutdown,
        is_call_error(e, CallFailureView::Failed(message)) <==> (e matches
            ImaginationProcessError::LlmFailure(t) && t@ == message),
{
}

/// Drafts wait below the memory directory.
pub proof fn drafts_wait_in_the_queue(memory_dir: Seq<char>)
    requires
        memory_dir.len() > 0,
        memory_dir.last() != '/',
    ensures
        review_queue(memory_dir) == memory_dir + "/imagination/review-queue"@,
{
    reveal_strlit("/");
    reveal_strlit("imagination");
    reveal_strlit("review-queue");
    reveal_strlit("/imagination/review-queue");
    let inner = memory_dir + "/"@ + "imagination"@;
    assert(inner.last() == 'n');
    assert(review_queue(memory_dir) =~= memory_dir + "/imagination/review-queue"@);
}

/// The calls of a layer are named by it: those of different layers begin differently.
pub proof fn calls_are_named_by_their_layer(a: Seq<char>, b: Seq<char>)
    ensures
        text::starts_with(layer_prefix(a), "tier3-imagination-"@ + a),
        text::ends_with(layer_prefix(a), "-"@),
        layer_prefix(a) == layer_prefix(b) ==> a == b,
{
    reveal_strlit("tier3-imagination-");
    reveal_strlit("-");
    let s = layer_prefix(a);
    let t = layer_prefix(b);
    let n = "tier3-imagination-"@.len() as int;
    assert(s.subrange(0, n + a.len()) =~= "tier3-imagination-"@ + a);
    assert(s.subrange(s.len() - 1, s.len() as int) =~= "-"@);
    assert(s.subrange(n, s.len() - 1) =~= a);
    assert(t.subrange(n, t.len() - 1) =~= b);
}

} // verus!
