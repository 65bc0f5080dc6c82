//! Session notes: when they are taken, what the model is asked for, and where its answer goes.

use vstd::prelude::*;
use vstd::string::StringExecFns;
use crate::json;
use crate::json::{Json, JsonView};
use crate::path;
use crate::table::Table;
use crate::text;
use crate::tier;
use crate::tier::imagination_documents::MemoryOutputLanguage;
use crate::tier::tier2_extract_memories;
use crate::tier::{
    CallDesk, CallFailure, CallFailureView, CallOutcome, GateDecision, LlmCallParams,
    LlmCallRequestPayload, LlmCallResultPayload, LlmMessage, MemoryTier, MessageView, TierGate,
};
use crate::transcript_index;

pub use crate::tier::tier2_extract_memories::LlmUsageWire;

verus! {

/// How many tokens a session must hold before notes are taken for the first time.
pub const MIN_TOKENS_TO_INIT: u64 = 10000;

/// By how many tokens a session must grow between notes.
pub const MIN_TOKENS_BETWEEN_UPDATE: u64 = 5000;

/// How many tool calls must lie between notes, unless the last turn made none.
pub const TOOL_CALLS_BETWEEN_UPDATES: u32 = 3;

/// How long the result of a model call is waited for.
pub const LLM_CALL_TIMEOUT_MS: u64 = 30_000;

/// Prompt of an update of the notes.
pub const TIER1_CONSOLIDATION_PROMPT: &'static str = r#"You are maintaining session notes for an ongoing assistant turn.

You will be given:
1. The path to the session notes file at `{{notes_path}}`.
2. The current notes content (may be empty for a fresh session).
3. A compact transcript of the recent conversation turns.

Your task is to produce the COMPLETE updated session notes content as plain markdown.

Guidelines:
- Preserve any existing section headers and their italic descriptions.
- Add or refine sections as the conversation reveals new intent, decisions, or open questions.
- Keep each section concise; prefer bullet points over prose where appropriate.
- Do NOT include any external commentary, code fences, or LLM disclaimers in your output.
- If the new transcript adds nothing useful, return the current notes verbatim.

Output ONLY the updated session notes content, ready to be written verbatim to `{{notes_path}}`.

--- CURRENT NOTES ---
{{current_notes}}
--- END CURRENT NOTES ---"#;

/// What is put behind the prompt where the session has a note already.
pub const TIER1_DELTA_SUFFIX: &'static str = r#"

--- PREVIOUS NOTE FOR THIS SESSION ---
{{prior_note}}
--- END PREVIOUS NOTE ---

An earlier note for THIS session already exists (above) and the transcript has
grown since it was written. Produce the UPDATED COMPLETE note: keep everything
from the previous note that is still true, fold in only what is NEW in the
transcript, resolve contradictions in favor of the newer transcript, and do
not restate unchanged content in different words."#;

// ---------------------------------------------------------------------------
// The tier gate
// ---------------------------------------------------------------------------

/// What is known when a turn ends. An agent type that is not empty is that of a subagent.
pub struct SessionMemoryGateInput {
    pub agent_type: String,
    pub session_key: String,
    pub current_token_count: u64,
    pub tool_calls_since_last_update: u32,
    pub has_tool_calls_in_last_turn: bool,
    pub feature_flags: Table<bool>,
}

/// What the tier gate hands on: the token count at which it triggered. The messages are put together from what is
/// on disk, so there are none yet.
#[derive(Debug, Clone)]
pub struct SessionMemoryGateOutput {
    pub messages: Vec<LlmMessage>,
    pub token_count_at_trigger: u64,
}

#[derive(Debug, Clone)]
pub enum SessionMemoryGateError {
    Io(String),
}

/// State of one session. A token count of 0 says that the session has not grown to the first threshold yet.
#[derive(Debug, Clone, Copy, PartialEq, Eq, Structural)]
pub struct Tier1SessionState {
    pub tokens_at_last_extraction: u64,
    pub extraction_in_progress: bool,
    pub extraction_started_at_ms: u64,
}

/// The state of a session that was never heard of.
pub open spec fn fresh_session() -> Tier1SessionState {
    Tier1SessionState {
        tokens_at_last_extraction: 0,
        extraction_in_progress: false,
        extraction_started_at_ms: 0,
    }
}

pub open spec fn session_in(
    sessions: Map<Seq<char>, Tier1SessionState>,
    key: Seq<char>,
) -> Tier1SessionState {
    if sessions.contains_key(key) {
        sessions[key]
    } else {
        fresh_session()
    }
}

/// Whether any of the flags that switch session notes on is set.
pub open spec fn notes_enabled(flags: Map<Seq<char>, bool>) -> bool {
    ||| tier2_extract_memories::flag_set(flags, "auto_session_memory"@)
    ||| tier2_extract_memories::flag_set(flags, "auto_memory_enabled"@)
    ||| tier2_extract_memories::flag_set(flags, "AUTO_MEMORY"@)
}

/// The state of a session once its token count has been looked at: the first time that the count is high
/// enough, the session starts as if the last notes had been taken one update ago.
pub open spec fn promoted(state: Tier1SessionState, tokens: u64) -> Tier1SessionState {
    if state.tokens_at_last_extraction == 0 && tokens >= MIN_TOKENS_TO_INIT {
        Tier1SessionState {
            tokens_at_last_extraction: (tokens - MIN_TOKENS_BETWEEN_UPDATE) as u64,
            ..state
        }
    } else {
        state
    }
}

/// Whether the session has ever grown to the first threshold.
pub open spec fn is_initialized(state: Tier1SessionState) -> bool {
    state.tokens_at_last_extraction != 0
}

/// Whether the session has grown enough since the last notes.
pub open spec fn has_grown(state: Tier1SessionState, tokens: u64) -> bool {
    tokens - state.tokens_at_last_extraction >= MIN_TOKENS_BETWEEN_UPDATE
}

/// Whether the work of the agent is at a point where notes may be taken.
pub open spec fn is_settled(input: SessionMemoryGateInput) -> bool {
    ||| input.tool_calls_since_last_update >= TOOL_CALLS_BETWEEN_UPDATES
    ||| !input.has_tool_calls_in_last_turn
}

/// Why the tier gate skips, for an input and the session's state; `None` where it triggers.
pub open spec fn skip_reason(input: SessionMemoryGateInput, state: Tier1SessionState) -> Option<
    Seq<char>,
> {
    let after = promoted(state, input.current_token_count);
    if input.agent_type@.len() > 0 {
        Some("non_main_agent"@)
    } else if !notes_enabled(input.feature_flags@) {
        Some("feature_disabled"@)
    } else if !is_initialized(after) {
        Some("init_threshold_unmet"@)
    } else if !has_grown(after, input.current_token_count) {
        Some("token_growth_unmet"@)
    } else if !is_settled(input) {
        Some("tool_call_window_not_drained"@)
    } else {
        None
    }
}

/// The state of a session after an evaluation of the tier gate.
pub open spec fn after_evaluation(
    input: SessionMemoryGateInput,
    state: Tier1SessionState,
) -> Tier1SessionState {
    if input.agent_type@.len() > 0 || !notes_enabled(input.feature_flags@) {
        state
    } else {
        promoted(state, input.current_token_count)
    }
}

/// The tier gate in front of the session notes; it keeps the state of each session.
pub struct SessionMemoryGate {
    sessions: Table<Tier1SessionState>,
}

impl View for SessionMemoryGate {
    type V = Map<Seq<char>, Tier1SessionState>;

    closed spec fn view(&self) -> Map<Seq<char>, Tier1SessionState> {
        self.sessions@
    }
}

impl Default for SessionMemoryGate {
    fn default() -> (r: Self)
        ensures
            forall|k: Seq<char>| #[trigger] r.session(k) == fresh_session(),
    {
        SessionMemoryGate::new()
    }
}

/// Whether the session counts as started, and since which token count.
#[derive(Debug, Clone, Copy, PartialEq, Eq, Structural)]
pub struct InitCheck {
    pub initialized: bool,
    pub tokens_at_last_extraction: u64,
}

impl SessionMemoryGate {
    /// The state of a session.
    pub open spec fn session(self, key: Seq<char>) -> Tier1SessionState {
        session_in(self@, key)
    }

    /// Whether only the session called `key` may differ between the two.
    pub open spec fn same_but(self, other: Self, key: Seq<char>) -> bool {
        forall|k: Seq<char>| k != key ==> #[trigger] self.session(k) == other.session(k)
    }

    pub fn new() -> (r: Self)
        ensures
            forall|k: Seq<char>| #[trigger] r.session(k) == fresh_session(),
    {
        SessionMemoryGate { sessions: Table::new() }
    }

    /// The state of a session.
    pub fn state(&self, session_key: &str) -> (r: Tier1SessionState)
        ensures
            r == self.session(session_key@),
    {
        match self.sessions.get(session_key) {
            Some(s) => *s,
            None => Tier1SessionState {
                tokens_at_last_extraction: 0,
                extraction_in_progress: false,
                extraction_started_at_ms: 0,
            },
        }
    }

    /// Gives a session a state.
    pub fn set_state(&mut self, session_key: &str, state: Tier1SessionState)
        ensures
            final(self).session(session_key@) == state,
            final(self).same_but(*old(self), session_key@),
    {
        self.sessions.put(session_key.to_owned(), state);
    }

    /// Whether any of the flags that switch session notes on is set.
    pub fn is_feature_enabled(flags: &Table<bool>) -> (r: bool)
        ensures
            r == notes_enabled(flags@),
    {
        tier2_extract_memories::is_set(flags, "auto_session_memory")
            || tier2_extract_memories::is_set(flags, "auto_memory_enabled")
            || tier2_extract_memories::is_set(flags, "AUTO_MEMORY")
    }

    /// Looks at the token count of a session. See [`promoted`].
    pub fn check_and_promote_initialized(
        &mut self,
        session_key: &str,
        current_token_count: u64,
    ) -> (r: InitCheck)
        ensures
            final(self).session(session_key@) == promoted(
                old(self).session(session_key@),
                current_token_count,
            ),
            final(self).same_but(*old(self), session_key@),
            r.initialized == is_initialized(final(self).session(session_key@)),
            r.tokens_at_last_extraction == final(self).session(
                session_key@,
            ).tokens_at_last_extraction,
    {
        let state = self.state(session_key);
        if state.tokens_at_last_extraction != 0 {
            return InitCheck {
                initialized: true,
                tokens_at_last_extraction: state.tokens_at_last_extraction,
            };
        }
        if current_token_count < MIN_TOKENS_TO_INIT {
            return InitCheck { initialized: false, tokens_at_last_extraction: 0 };
        }
        let baseline: u64 = current_token_count - MIN_TOKENS_BETWEEN_UPDATE;
        self.set_state(
            session_key,
            Tier1SessionState { tokens_at_last_extraction: baseline, ..state },
        );
        InitCheck { initialized: true, tokens_at_last_extraction: baseline }
    }
}

impl TierGate for SessionMemoryGate {
    type GateInput = SessionMemoryGateInput;

    type GateOutput = SessionMemoryGateOutput;

    type Error = SessionMemoryGateError;

    fn evaluate_gate(&mut self, input: SessionMemoryGateInput) -> (r: Result<
        GateDecision<SessionMemoryGateOutput>,
        SessionMemoryGateError,
    >)
        ensures
            r is Ok,
            ({
                let state = old(self).session(input.session_key@);
                let d = r->Ok_0;
                &&& match skip_reason(input, state) {
                    Some(reason) => d.skips(reason),
                    None => d.triggers() && d.payload->0.messages@.len() == 0
                        && d.payload->0.token_count_at_trigger == input.current_token_count,
                }
                &&& final(self).session(input.session_key@) == after_evaluation(input, state)
                &&& final(self).same_but(*old(self), input.session_key@)
            }),
    {
        if !input.agent_type.as_str().is_empty() {
            return Ok(GateDecision::skip("non_main_agent"));
        }
        if !SessionMemoryGate::is_feature_enabled(&input.feature_flags) {
            return Ok(GateDecision::skip("feature_disabled"));
        }
        let check = self.check_and_promote_initialized(
            input.session_key.as_str(),
            input.current_token_count,
        );
        if !check.initialized {
            return Ok(GateDecision::skip("init_threshold_unmet"));
        }
        let grown = input.current_token_count >= check.tokens_at_last_extraction
            && input.current_token_count - check.tokens_at_last_extraction
            >= MIN_TOKENS_BETWEEN_UPDATE;
        if !grown {
            return Ok(GateDecision::skip("token_growth_unmet"));
        }
        if input.tool_calls_since_last_update < TOOL_CALLS_BETWEEN_UPDATES
            && input.has_tool_calls_in_last_turn {
            return Ok(GateDecision::skip("tool_call_window_not_drained"));
        }
        Ok(
            GateDecision::trigger(
                SessionMemoryGateOutput {
                    messages: Vec::new(),
                    token_count_at_trigger: input.current_token_count,
                },
            ),
        )
    }
}

/// A session whose notes were just taken is left alone until it has grown by an update; how its tools are
/// used does not matter before.
pub proof fn notes_are_spaced_by_growth(
    input: SessionMemoryGateInput,
    state: Tier1SessionState,
    taken_at: u64,
)
    requires
        taken_at > 0,
        input.current_token_count < taken_at + MIN_TOKENS_BETWEEN_UPDATE,
    ensures
        skip_reason(input, Tier1SessionState { tokens_at_last_extraction: taken_at, ..state }) is Some,
{
}

/// The tier gate triggers the first time that a session of the main agent reaches the first threshold with its
/// tools at rest, and never below it.
pub proof fn first_notes_come_at_the_threshold(input: SessionMemoryGateInput, state: Tier1SessionState)
    requires
        state.tokens_at_last_extraction == 0,
        input.agent_type@.len() == 0,
        notes_enabled(input.feature_flags@),
    ensures
        input.current_token_count < MIN_TOKENS_TO_INIT ==> skip_reason(input, state) == Some(
            "init_threshold_unmet"@,
        ),
        input.current_token_count >= MIN_TOKENS_TO_INIT ==> (skip_reason(input, state) is None
            <==> is_settled(input)),
{
}

// ---------------------------------------------------------------------------
// Messages
// ---------------------------------------------------------------------------

/// Where the notes of the running session stand.
pub open spec fn notes_path(memory_dir: Seq<char>) -> Seq<char> {
    path::under(memory_dir, "SESSION.md"@)
}

/// The prompt of an update of the notes. Where the session has a note already, the update builds on it.
pub open spec fn consolidation_prompt(
    memory_dir: Seq<char>,
    current_notes: Seq<char>,
    prior_note: Option<Seq<char>>,
) -> Seq<char> {
    let base = text::replace(
        text::replace(TIER1_CONSOLIDATION_PROMPT@, "{{notes_path}}"@, notes_path(memory_dir)),
        "{{current_notes}}"@,
        current_notes,
    );
    match prior_note {
        Some(note) => if text::is_blank(note) {
            base
        } else {
            base + text::replace(TIER1_DELTA_SUFFIX@, "{{prior_note}}"@, note)
        },
        None => base,
    }
}

/// What the user says in an update of the notes: the transcript, or that there is none.
pub open spec fn transcript_message(transcript: Seq<char>) -> Seq<char> {
    if text::is_blank(transcript) {
        "(no recent transcript available for this session)"@
    } else {
        "--- RECENT TRANSCRIPT ---\n"@ + transcript + "\n--- END TRANSCRIPT ---"@
    }
}

/// The messages of an update of the notes.
pub open spec fn consolidation_messages(
    memory_dir: Seq<char>,
    current_notes: Seq<char>,
    prior_note: Option<Seq<char>>,
    transcript: Seq<char>,
) -> Seq<MessageView> {
    tier::dialogue(
        consolidation_prompt(memory_dir, current_notes, prior_note),
        transcript_message(transcript),
    )
}

/// See [`consolidation_messages`].
pub fn build_consolidation_messages(
    memory_dir: &str,
    current_notes: &str,
    prior_note: &Option<String>,
    transcript: &str,
) -> (r: Vec<LlmMessage>)
    ensures
        tier::message_views(r@) == consolidation_messages(
            memory_dir@,
            current_notes@,
            text::opt_view(*prior_note),
            transcript@,
        ),
{
    proof {
        reveal_strlit("{{notes_path}}");
        reveal_strlit("{{current_notes}}");
        reveal_strlit("{{prior_note}}");
    }
    let file = path::child(memory_dir, "SESSION.md");
    let first = text::replaced(TIER1_CONSOLIDATION_PROMPT, "{{notes_path}}", file.as_str());
    let mut system = text::replaced(first.as_str(), "{{current_notes}}", current_notes);
    if let Some(note) = prior_note {
        if !text::blank(note.as_str()) {
            let suffix = text::replaced(TIER1_DELTA_SUFFIX, "{{prior_note}}", note.as_str());
            system.append(suffix.as_str());
        }
    }
    let user = if text::blank(transcript) {
        "(no recent transcript available for this session)".to_owned()
    } else {
        let mut u = "--- RECENT TRANSCRIPT ---\n".to_owned();
        u.append(transcript);
        u.append("\n--- END TRANSCRIPT ---");
        u
    };
    tier::dialogue_of(system, user)
}

/// A note of the same session only adds to the prompt.
pub proof fn prior_note_only_extends_the_prompt(
    memory_dir: Seq<char>,
    current_notes: Seq<char>,
    note: Seq<char>,
)
    ensures
        ({
            let base = consolidation_prompt(memory_dir, current_notes, None);
            let with_note = consolidation_prompt(memory_dir, current_notes, Some(note));
            &&& with_note.len() >= base.len()
            &&& with_note.take(base.len() as int) == base
            &&& text::is_blank(note) ==> with_note == base
        }),
{
    let base = consolidation_prompt(memory_dir, current_notes, None);
    assert(consolidation_prompt(memory_dir, current_notes, Some(note)).take(base.len() as int)
        =~= base);
}

/// The notes in a reply, without a fence around them.
pub open spec fn cleaned(raw: Seq<char>) -> Seq<char> {
    let s = text::trim(raw);
    match text::strip_prefix(s, "```markdown\n"@) {
        Some(rest) => text::trim(tier2_extract_memories::before_last_fence(rest)),
        None => match text::strip_prefix(s, "```\n"@) {
            Some(rest) => text::trim(tier2_extract_memories::before_last_fence(rest)),
            None => text::trim(s),
        },
    }
}

/// See [`cleaned`].
pub fn clean_llm_output(raw: &str) -> (r: String)
    ensures
        r@ == cleaned(raw@),
{
    let s = text::trimmed(raw);
    let body = match text::without_prefix(s.as_str(), "```markdown\n") {
        Some(rest) => tier2_extract_memories::cut_fence(rest),
        None => match text::without_prefix(s.as_str(), "```\n") {
            Some(rest) => tier2_extract_memories::cut_fence(rest),
            None => s,
        },
    };
    text::trimmed(body.as_str())
}

/// A turn id as it can stand in a file name. See [`text::sanitized`].
pub fn sanitize_turn_id(raw: &str) -> (r: String)
    ensures
        r@ == text::sanitized(raw@),
{
    text::sanitized_of(raw)
}

/// Where the snapshot of a turn stands.
pub open spec fn snapshot_path(memory_dir: Seq<char>, turn_id: Seq<char>) -> Seq<char> {
    path::under(memory_dir, ".session-"@ + text::sanitized(turn_id) + ".md"@)
}

/// See [`snapshot_path`].
pub fn session_snapshot_path(memory_dir: &str, turn_id: &str) -> (r: String)
    ensures
        r@ == snapshot_path(memory_dir@, turn_id@),
{
    let mut name = ".session-".to_owned();
    let turn = sanitize_turn_id(turn_id);
    name.append(turn.as_str());
    name.append(".md");
    path::child(memory_dir, name.as_str())
}

/// A snapshot stands directly in the memory directory: its name holds no slash.
pub proof fn snapshots_stay_in_the_memory_dir(turn_id: Seq<char>)
    ensures
        !(".session-"@ + text::sanitized(turn_id) + ".md"@).contains('/'),
{
    reveal_strlit(".session-");
    reveal_strlit(".md");
    let a = ".session-"@;
    let b = text::sanitized(turn_id);
    let c = ".md"@;
    let name = a + b + c;
    assert forall|i: int| 0 <= i < name.len() implies name[i] != '/' by {
        if i < a.len() {
            assert(name[i] == a[i]);
        } else if i < a.len() + b.len() {
            assert(name[i] == b[i - a.len()]);
            assert(b[i - a.len()] == text::safe_char(turn_id[i - a.len()]));
        } else {
            assert(name[i] == c[i - a.len() - b.len()]);
        }
    }
}

// ---------------------------------------------------------------------------
// Taking notes
// ---------------------------------------------------------------------------

/// Notes to be taken.
#[derive(Debug, Clone)]
pub struct SessionMemoryProcessInput {
    pub session_key: String,
    pub turn_id: String,
    pub memory_dir: String,
    pub gate_payload: SessionMemoryGateOutput,
    pub transcript_dir: Option<String>,
    pub current_session_id: Option<String>,
    pub model_hint: Option<String>,
    pub params: LlmCallParams,
    pub prior_note: Option<String>,
}

/// Notes that were taken.
#[derive(Debug, Clone)]
pub struct SessionMemoryProcessOutput {
    pub req_id: String,
    pub session_md_path: String,
    pub snapshot_path: String,
    pub session_md_bytes: usize,
    pub usage: Option<LlmUsageWire>,
}

/// Why notes could not be taken.
#[derive(Debug, Clone)]
pub enum SessionMemoryProcessError {
    Io(String),
    Write(String),
    Timeout(u64),
    LlmFailure(String),
    Shutdown,
}

/// The error that a failed call ends with.
pub open spec fn is_call_error(e: SessionMemoryProcessError, f: CallFailureView) -> bool {
    match f {
        CallFailureView::Elapsed => e == SessionMemoryProcessError::Timeout(LLM_CALL_TIMEOUT_MS),
        CallFailureView::Closed => e is Shutdown,
        CallFailureView::Failed(m) => e matches SessionMemoryProcessError::LlmFailure(t) && t@ == m,
    }
}

/// The state of a session while its notes are taken.
pub open spec fn taking_notes(state: Tier1SessionState, now_ms: u64) -> Tier1SessionState {
    Tier1SessionState { extraction_in_progress: true, extraction_started_at_ms: now_ms, ..state }
}

/// The state of a session once the taking of notes has ended; where it succeeded, growth counts from the
/// token count that triggered it.
pub open spec fn notes_ended(state: Tier1SessionState, taken_at: Option<u64>) -> Tier1SessionState {
    Tier1SessionState {
        tokens_at_last_extraction: match taken_at {
            Some(tokens) => tokens,
            None => state.tokens_at_last_extraction,
        },
        extraction_in_progress: false,
        extraction_started_at_ms: 0,
    }
}

/// Whether the request is the one that an update of the notes makes.
pub open spec fn is_notes_request(
    q: LlmCallRequestPayload,
    req_id: Seq<char>,
    input: SessionMemoryProcessInput,
    current_notes: Seq<char>,
    transcript: Seq<char>,
) -> bool {
    &&& q.req_id@ == req_id
    &&& q.tier == MemoryTier::Session
    &&& q.phase is None
    &&& tier::message_views(q.messages@) == consolidation_messages(
        input.memory_dir@,
        current_notes,
        text::opt_view(input.prior_note),
        transcript,
    )
    &&& q.model_hint == input.model_hint
    &&& q.params == input.params
}

/// Takes notes: for one session at most one update at a time, each around one model call. `S` is where the
/// result of a call is awaited.
pub struct SessionMemoryProcessor<S> {
    pub gate: SessionMemoryGate,
    pub desk: CallDesk<S>,
}

impl<S> SessionMemoryProcessor<S> {
    pub fn new(gate: SessionMemoryGate) -> (r: Self)
        ensures
            r.gate == gate,
            r.desk.pending@ == Map::<Seq<char>, S>::empty(),
            r.desk.req_id_counter == 0,
    {
        SessionMemoryProcessor { gate, desk: CallDesk::new() }
    }

    pub fn gate(&self) -> (r: &SessionMemoryGate)
        ensures
            *r == self.gate,
    {
        &self.gate
    }

    /// Hands out where the result of a call is awaited; `None` where no such call is pending.
    pub fn deliver_result(&mut self, result: &LlmCallResultPayload) -> (r: Option<S>)
        ensures
            r is Some <==> old(self).desk.pending@.contains_key(result.req_id@),
            r matches Some(s) ==> s == old(self).desk.pending@[result.req_id@],
            final(self).desk.pending@ == old(self).desk.pending@.remove(result.req_id@),
            final(self).desk.req_id_counter == old(self).desk.req_id_counter,
            final(self).gate == old(self).gate,
    {
        self.desk.close(result.req_id.as_str())
    }

    /// Starts an update of the notes: marks the session as busy and returns the call to be made, its result
    /// awaited in `slot`. Refuses where the session is busy.
    pub fn begin(
        &mut self,
        input: &SessionMemoryProcessInput,
        current_notes: &str,
        transcript: &str,
        now_ms: u64,
        slot: S,
    ) -> (r: Result<LlmCallRequestPayload, SessionMemoryProcessError>)
        ensures
            ({
                let key = input.session_key@;
                let state = old(self).gate.session(key);
                match r {
                    Err(e) => {
                        &&& state.extraction_in_progress
                        &&& *final(self) == *old(self)
                        &&& e matches SessionMemoryProcessError::Write(m)
                        &&& m@ == "extraction already in progress for this session"@
                    },
                    Ok(q) => {
                        &&& !state.extraction_in_progress
                        &&& final(self).gate.session(key) == taking_notes(state, now_ms)
                        &&& final(self).gate.same_but(old(self).gate, key)
                        &&& final(self).desk.req_id_counter == tier::next_number(
                            old(self).desk.req_id_counter,
                        )
                        &&& final(self).desk.pending@ == old(self).desk.pending@.insert(
                            q.req_id@,
                            slot,
                        )
                        &&& is_notes_request(
                            q,
                            tier::call_id("tier1-"@, final(self).desk.req_id_counter, now_ms),
                            *input,
                            current_notes@,
                            transcript@,
                        )
                    },
                }
            }),
    {
        let state = self.gate.state(input.session_key.as_str());
        if state.extraction_in_progress {
            return Err(
                SessionMemoryProcessError::Write(
                    "extraction already in progress for this session".to_owned(),
                ),
            );
        }
        self.gate.set_state(
            input.session_key.as_str(),
            Tier1SessionState {
                extraction_in_progress: true,
                extraction_started_at_ms: now_ms,
                ..state
            },
        );
        let messages = build_consolidation_messages(
            input.memory_dir.as_str(),
            current_notes,
            &input.prior_note,
            transcript,
        );
        Ok(
            self.desk.open(
                "tier1-",
                MemoryTier::Session,
                None,
                messages,
                input.model_hint.clone(),
                input.params,
                now_ms,
                slot,
            ),
        )
    }

    /// Ends an update of the notes and drops the call if it is still pending. `taken_at` is the token count
    /// that triggered the update, where it succeeded.
    pub fn end(&mut self, session_key: &str, req_id: &str, taken_at: Option<u64>)
        ensures
            final(self).gate.session(session_key@) == notes_ended(
                old(self).gate.session(session_key@),
                taken_at,
            ),
            final(self).gate.same_but(old(self).gate, session_key@),
            final(self).desk.pending@ == old(self).desk.pending@.remove(req_id@),
            final(self).desk.req_id_counter == old(self).desk.req_id_counter,
    {
        let _ = self.desk.close(req_id);
        let state = self.gate.state(session_key);
        let tokens: u64 = match taken_at {
            Some(tokens) => tokens,
            None => state.tokens_at_last_extraction,
        };
        self.gate.set_state(
            session_key,
            Tier1SessionState {
                tokens_at_last_extraction: tokens,
                extraction_in_progress: false,
                extraction_started_at_ms: 0,
            },
        );
    }
}

/// While notes are taken the session is busy; when that ends it is free again, and a failure leaves it as it
/// was.
pub proof fn one_update_at_a_time(state: Tier1SessionState, now_ms: u64, taken_at: Option<u64>)
    ensures
        taking_notes(state, now_ms).extraction_in_progress,
        !notes_ended(taking_notes(state, now_ms), taken_at).extraction_in_progress,
        taken_at matches Some(tokens) ==> notes_ended(
            taking_notes(state, now_ms),
            taken_at,
        ).tokens_at_last_extraction == tokens,
        !state.extraction_in_progress && state.extraction_started_at_ms == 0 ==> notes_ended(
            taking_notes(state, now_ms),
            None,
        ) == state,
{
}

/// Notes that are ready to be written: to the file of the session, and to the snapshot of the turn.
#[derive(Debug, Clone)]
pub struct SessionNotes {
    pub content: String,
    pub session_md_path: String,
    pub snapshot_path: String,
    pub usage: Option<LlmUsageWire>,
}

/// The notes that a call brought, or the error that the update ends with. Notes without content are not
/// written.
pub fn notes_of_outcome(outcome: CallOutcome, memory_dir: &str, turn_id: &str) -> (r: Result<
    SessionNotes,
    SessionMemoryProcessError,
>)
    ensures
        match tier::response_of(outcome) {
            Ok(p) => if text::is_blank(cleaned(p.0)) {
                r matches Err(SessionMemoryProcessError::Write(m)) && m@
                    == "LLM returned empty session notes; not writing"@
            } else {
                &&& r matches Ok(n)
                &&& n.content@ == cleaned(p.0)
                &&& n.session_md_path@ == notes_path(memory_dir@)
                &&& n.snapshot_path@ == snapshot_path(memory_dir@, turn_id@)
                &&& n.usage == match p.1 {
                    Some(u) => Some(
                        LlmUsageWire {
                            input_tokens: u.input_tokens,
                            output_tokens: u.output_tokens,
                        },
                    ),
                    None => None,
                }
            },
            Err(f) => r matches Err(e) && is_call_error(e, f),
        },
{
    match tier::take_response(outcome) {
        Ok(p) => {
            let content = clean_llm_output(p.0.as_str());
            if text::blank(content.as_str()) {
                return Err(
                    SessionMemoryProcessError::Write(
                        "LLM returned empty session notes; not writing".to_owned(),
                    ),
                );
            }
            let usage = match p.1 {
                Some(u) => Some(
                    LlmUsageWire { input_tokens: u.input_tokens, output_tokens: u.output_tokens },
                ),
                None => None,
            };
            Ok(
                SessionNotes {
                    content,
                    session_md_path: path::child(memory_dir, "SESSION.md"),
                    snapshot_path: session_snapshot_path(memory_dir, turn_id),
                    usage,
                },
            )
        },
        Err(CallFailure::Elapsed) => Err(SessionMemoryProcessError::Timeout(LLM_CALL_TIMEOUT_MS)),
        Err(CallFailure::Closed) => Err(SessionMemoryProcessError::Shutdown),
        Err(CallFailure::Failed(m)) => Err(SessionMemoryProcessError::LlmFailure(m)),
    }
}

/// The report on notes that were written.
pub fn notes_output(req_id: String, notes: SessionNotes) -> (r: SessionMemoryProcessOutput)
    ensures
        r.req_id == req_id,
        r.session_md_path == notes.session_md_path,
        r.snapshot_path == notes.snapshot_path,
        r.session_md_bytes == vstd::utf8::encode_utf8(notes.content@).len(),
        r.usage == notes.usage,
{
    let session_md_bytes: usize = notes.content.as_str().as_bytes().len();
    SessionMemoryProcessOutput {
        req_id,
        session_md_path: notes.session_md_path,
        snapshot_path: notes.snapshot_path,
        session_md_bytes,
        usage: notes.usage,
    }
}

// ---------------------------------------------------------------------------
// Notes without a model
// ---------------------------------------------------------------------------

/// How many prompts of substance, and how many bytes of prompts, make a session worth a note.
pub const MIN_SUBSTANTIVE_PROMPTS: usize = 3;

pub const MIN_USER_BYTES: usize = 50;

/// How many characters make a prompt one of substance.
pub const SUBSTANTIVE_MIN_CHARS: usize = 8;

/// How many prompts are shown, and how much of each.
pub const TOPIC_CAP: usize = 5;

pub const TOPIC_MAX_CHARS: usize = 80;

/// The records in the first `n` lines of a transcript; a line that is no record is passed over.
pub open spec fn records_in(ls: Seq<Seq<char>>, n: int) -> Seq<JsonView>
    decreases n,
{
    if n <= 0 {
        Seq::empty()
    } else {
        match json::json_of(ls[n - 1]) {
            Some(v) => records_in(ls, n - 1).push(v),
            None => records_in(ls, n - 1),
        }
    }
}

/// What is said in a record of the main conversation; empty where nothing is.
pub open spec fn said_in(v: JsonView) -> Seq<char> {
    if json::is_true(json::member(v, "isSidechain"@)) {
        Seq::empty()
    } else {
        match json::member(v, "message"@) {
            Some(message) => text::trim(
                transcript_index::message_text(json::member(message, "content"@)),
            ),
            None => Seq::empty(),
        }
    }
}

/// What the user says in the first `n` records.
pub open spec fn prompts_in(records: Seq<JsonView>, n: int) -> Seq<Seq<char>>
    decreases n,
{
    if n <= 0 {
        Seq::empty()
    } else {
        let v = records[n - 1];
        if json::text_or_empty(v, "type"@) == "user"@ && said_in(v).len() > 0 {
            prompts_in(records, n - 1).push(said_in(v))
        } else {
            prompts_in(records, n - 1)
        }
    }
}

/// How often the assistant speaks in the first `n` records.
pub open spec fn replies_in(records: Seq<JsonView>, n: int) -> nat
    decreases n,
{
    if n <= 0 {
        0
    } else {
        let v = records[n - 1];
        if json::text_or_empty(v, "type"@) == "assistant"@ && said_in(v).len() > 0 {
            replies_in(records, n - 1) + 1
        } else {
            replies_in(records, n - 1)
        }
    }
}

/// The prompts of substance among the first `n`.
pub open spec fn substantive(prompts: Seq<Seq<char>>, n: int) -> Seq<Seq<char>>
    decreases n,
{
    if n <= 0 {
        Seq::empty()
    } else if prompts[n - 1].len() >= SUBSTANTIVE_MIN_CHARS {
        substantive(prompts, n - 1).push(prompts[n - 1])
    } else {
        substantive(prompts, n - 1)
    }
}

/// The length of the first `n` prompts in bytes.
pub open spec fn byte_length(prompts: Seq<Seq<char>>, n: int) -> nat
    decreases n,
{
    if n <= 0 {
        0
    } else {
        byte_length(prompts, n - 1) + vstd::utf8::encode_utf8(prompts[n - 1]).len()
    }
}

/// A prompt as a line of the note.
pub open spec fn topic_line(prompt: Seq<char>) -> Seq<char> {
    "  - "@ + text::take_chars(prompt, TOPIC_MAX_CHARS as int) + if prompt.len() > TOPIC_MAX_CHARS {
        "…"@
    } else {
        Seq::empty()
    }
}

pub open spec fn topic_lines(prompts: Seq<Seq<char>>) -> Seq<Seq<char>> {
    let n = if prompts.len() > TOPIC_CAP {
        TOPIC_CAP as nat
    } else {
        prompts.len()
    };
    Seq::new(n, |i: int| topic_line(prompts[i]))
}

/// The text of a note without a model.
pub open spec fn degraded_text(
    prompts: Seq<Seq<char>>,
    replies: nat,
    topics: Seq<char>,
    session_id: Seq<char>,
    language: MemoryOutputLanguage,
) -> Seq<char> {
    let head = "---\ntype: session-note\ndegraded: true\nsession: "@ + session_id + "\n---\n"@;
    match language {
        MemoryOutputLanguage::Zh => head + "# 会话速记（降级 · 未经模型提炼）\n\n- 用户消息 "@
            + text::decimal(prompts.len()) + " 条 / 助手回复 "@ + text::decimal(replies)
            + " 条\n- 主题线索：\n"@ + topics
            + "\n\n> 生成时 LLM 通道不可用，本速记由转写元数据直接生成；下次做梦会重读原始转写，不受此降级影响。\n"@,
        MemoryOutputLanguage::En => head
            + "# Session note (degraded — no model consolidation)\n\n- "@ + text::decimal(
            prompts.len(),
        ) + " user messages / "@ + text::decimal(replies) + " assistant replies\n- Topic leads:\n"@
            + topics
            + "\n\n> The LLM lane was unavailable when this note was generated; it was built directly from transcript metadata. The next dream cycle re-reads the raw transcript and is unaffected.\n"@,
    }
}

/// Whether a session is worth a note.
pub open spec fn is_worth_noting(prompts: Seq<Seq<char>>) -> bool {
    let n = prompts.len() as int;
    substantive(prompts, n).len() >= MIN_SUBSTANTIVE_PROMPTS && byte_length(prompts, n)
        >= MIN_USER_BYTES
}

/// The note on a session that is made from its records alone; none where the session is trivial.
pub open spec fn degraded_note(
    records: Seq<JsonView>,
    session_id: Seq<char>,
    language: MemoryOutputLanguage,
) -> Option<Seq<char>> {
    let prompts = prompts_in(records, records.len() as int);
    if !is_worth_noting(prompts) {
        None
    } else {
        Some(
            degraded_text(
                prompts,
                replies_in(records, records.len() as int),
                text::join(topic_lines(substantive(prompts, prompts.len() as int)), "\n"@),
                session_id,
                language,
            ),
        )
    }
}

fn said_of(v: &Json) -> (r: String)
    ensures
        r@ == said_in(v@),
{
    let aside = match v.get("isSidechain") {
        Some(j) => j.truth(),
        None => false,
    };
    if aside {
        return String::new();
    }
    match v.get("message") {
        Some(message) => {
            let whole = transcript_index::extract_message_text(message.get("content"));
            text::trimmed(whole.as_str())
        },
        None => String::new(),
    }
}

fn topics_of(prompts: &Vec<String>) -> (r: String)
    ensures
        r@ == text::join(
            topic_lines(
                substantive(text::views(prompts@), prompts@.len() as int),
            ),
            "\n"@,
        ),
{
    let ghost all = text::views(prompts@);
    let mut lines: Vec<String> = Vec::new();
    let ghost mut chosen: Seq<Seq<char>> = Seq::empty();
    assert(text::views(lines@) =~= topic_lines(chosen));
    let mut i: usize = 0;
    while i < prompts.len()
        invariant
            i <= prompts@.len(),
            all == text::views(prompts@),
            chosen == substantive(all, i as int),
            text::views(lines@) == topic_lines(chosen),
        decreases prompts@.len() - i,
    {
        assert(all[i as int] == prompts@[i as int]@);
        let v = text::chars_of(prompts[i].as_str());
        if v.len() >= SUBSTANTIVE_MIN_CHARS {
            let ghost before = chosen;
            proof {
                chosen = chosen.push(all[i as int]);
                assert(text::views(lines@).len() == lines@.len());
            }
            if lines.len() < TOPIC_CAP {
                let mut line = "  - ".to_owned();
                let cut = text::first_chars(prompts[i].as_str(), TOPIC_MAX_CHARS);
                line.append(cut.as_str());
                if v.len() > TOPIC_MAX_CHARS {
                    line.append("…");
                } else {
                    assert(line@ + Seq::<char>::empty() =~= line@);
                }
                proof {
                    text::lemma_views_push(lines@, line);
                    assert(line@ == topic_line(all[i as int]));
                    assert(topic_lines(chosen) =~= topic_lines(before).push(line@));
                }
                lines.push(line);
            } else {
                assert(topic_lines(chosen) =~= topic_lines(before));
            }
        }
        i = i + 1;
    }
    text::joined(&lines, "\n")
}

fn worth_noting(prompts: &Vec<String>) -> (r: bool)
    ensures
        r == is_worth_noting(text::views(prompts@)),
{
    let ghost all = text::views(prompts@);
    let mut count: usize = 0;
    let mut bytes: usize = 0;
    let mut i: usize = 0;
    while i < prompts.len()
        invariant
            i <= prompts@.len(),
            all == text::views(prompts@),
            count <= i,
            count == substantive(all, i as int).len(),
            bytes == byte_length(all, i as int) || bytes == usize::MAX && byte_length(
                all,
                i as int,
            ) >= usize::MAX,
        decreases prompts@.len() - i,
    {
        assert(all[i as int] == prompts@[i as int]@);
        let v = text::chars_of(prompts[i].as_str());
        if v.len() >= SUBSTANTIVE_MIN_CHARS {
            count = count + 1;
        }
        let n: usize = prompts[i].as_str().as_bytes().len();
        assert(n == vstd::utf8::encode_utf8(all[i as int]).len());
        bytes = bytes.saturating_add(n);
        i = i + 1;
    }
    count >= MIN_SUBSTANTIVE_PROMPTS && bytes >= MIN_USER_BYTES
}

/// See [`degraded_note`].
pub fn note_from_records(
    records: &Vec<Json>,
    session_id: &str,
    language: MemoryOutputLanguage,
) -> (r: Option<String>)
    ensures
        text::opt_view(r) == degraded_note(json::item_views(records@), session_id@, language),
{
    let ghost all = json::item_views(records@);
    let mut prompts: Vec<String> = Vec::new();
    assert(text::views(prompts@) =~= Seq::empty());
    let mut replies: usize = 0;
    let mut i: usize = 0;
    while i < records.len()
        invariant
            i <= records@.len(),
            all == json::item_views(records@),
            text::views(prompts@) == prompts_in(all, i as int),
            replies <= i,
            replies == replies_in(all, i as int),
        decreases records@.len() - i,
    {
        assert(all[i as int] == records@[i as int]@);
        let said = said_of(&records[i]);
        if !said.as_str().is_empty() {
            let kind = json::member_text(&records[i], "type");
            proof {
                reveal_strlit("user");
                reveal_strlit("assistant");
                assert("user"@.len() != "assistant"@.len());
            }
            if text::same(kind.as_str(), "user") {
                proof {
                    text::lemma_views_push(prompts@, said);
                }
                prompts.push(said);
            } else if text::same(kind.as_str(), "assistant") {
                replies = replies + 1;
            }
        }
        i = i + 1;
    }
    assert(text::views(prompts@).len() == prompts@.len());
    if !worth_noting(&prompts) {
        return None;
    }
    let topics = topics_of(&prompts);
    let count = text::decimal_of(prompts.len() as u64);
    let answered = text::decimal_of(replies as u64);
    let mut out = "---\ntype: session-note\ndegraded: true\nsession: ".to_owned();
    out.append(session_id);
    out.append("\n---\n");
    match language {
        MemoryOutputLanguage::Zh => {
            out.append("# 会话速记（降级 · 未经模型提炼）\n\n- 用户消息 ");
            out.append(count.as_str());
            out.append(" 条 / 助手回复 ");
            out.append(answered.as_str());
            out.append(" 条\n- 主题线索：\n");
            out.append(topics.as_str());
            out.append(
                "\n\n> 生成时 LLM 通道不可用，本速记由转写元数据直接生成；下次做梦会重读原始转写，不受此降级影响。\n",
            );
        },
        MemoryOutputLanguage::En => {
            out.append("# Session note (degraded — no model consolidation)\n\n- ");
            out.append(count.as_str());
            out.append(" user messages / ");
            out.append(answered.as_str());
            out.append(" assistant replies\n- Topic leads:\n");
            out.append(topics.as_str());
            out.append(
                "\n\n> The LLM lane was unavailable when this note was generated; it was built directly from transcript metadata. The next dream cycle re-reads the raw transcript and is unaffected.\n",
            );
        },
    }
    Some(out)
}

/// The note on a session that is made from its transcript alone; none where the session is trivial.
pub fn write_degraded_session_note(raw: &str, session_id: &str, language: MemoryOutputLanguage) -> (r:
    Option<String>)
    ensures
        text::opt_view(r) == degraded_note(
            records_in(text::lines(raw@), text::lines(raw@).len() as int),
            session_id@,
            language,
        ),
{
    let ls = text::lines_of(raw);
    let ghost all = text::views(ls@);
    let mut records: Vec<Json> = Vec::new();
    assert(json::item_views(records@) =~= Seq::empty());
    let mut i: usize = 0;
    while i < ls.len()
        invariant
            i <= ls@.len(),
            all == text::views(ls@),
            json::item_views(records@) == records_in(all, i as int),
        decreases ls@.len() - i,
    {
        assert(all[i as int] == ls@[i as int]@);
        if let Some(v) = json::parse_json(ls[i].as_str()) {
            let ghost before = records@;
            let ghost view = v@;
            records.push(v);
            assert(json::item_views(records@) =~= json::item_views(before).push(view));
        }
        i = i + 1;
    }
    note_from_records(&records, session_id, language)
}

/// How many characters of a transcript go into an update of the notes.
pub const TRANSCRIPT_COMPACT_MAX_CHARS: usize = 12_000;

// ---------------------------------------------------------------------------
// What session notes promise
// ---------------------------------------------------------------------------

/// A reply that does not begin with a fence is only trimmed: whatever fences stand inside it, and whatever follows
/// them, is kept.
pub proof fn ordinary_replies_are_kept(raw: Seq<char>)
    requires
        !text::starts_with(text::trim(raw), "```markdown\n"@),
        !text::starts_with(text::trim(raw), "```\n"@),
    ensures
        cleaned(raw) == text::trim(raw),
{
    text::lemma_trim_ends(raw);
}

/// A reply inside a fence is what stands in the fence, trimmed; a fence that is not ended goes to the end of the
/// reply.
pub proof fn fenced_notes_are_unwrapped(
    raw: Seq<char>,
    opening: Seq<char>,
    notes: Seq<char>,
    tail: Seq<char>,
)
    requires
        opening == "```markdown\n"@ || opening == "```\n"@,
        text::trim(raw) == opening + notes + "\n```"@ + tail && !text::contains(
            "```"@ + tail,
            "\n```"@,
        ) || text::trim(raw) == opening + notes && !text::contains(notes, "\n```"@),
    ensures
        cleaned(raw) == text::trim(notes),
{
    reveal_strlit("```markdown\n");
    reveal_strlit("```\n");
    let t = text::trim(raw);
    let n = opening.len() as int;
    let rest = t.subrange(n, t.len() as int);
    assert(t.subrange(0, n) =~= opening);
    tier2_extract_memories::fences_end_at_the_last_mark(notes, tail);
    if t == opening + notes + "\n```"@ + tail && !text::contains("```"@ + tail, "\n```"@) {
        assert(rest =~= notes + "\n```"@ + tail);
    } else {
        assert(rest =~= notes);
    }
    if opening == "```\n"@ {
        assert(t[3] == '\n');
        if text::starts_with(t, "```markdown\n"@) {
            assert(t.subrange(0, 12)[3] == 'm');
        }
    }
}

/// Notes are taken exactly for the main agent, where one of the three flags that switch them on is set, the session has
/// either just grown to ten thousand tokens or grown by five thousand since the last notes, and the agent has made
/// three tool calls since, or none in its last turn.
pub proof fn notes_are_due_exactly_when(input: SessionMemoryGateInput, state: Tier1SessionState)
    ensures
        skip_reason(input, state) is None <==> {
            let flags = input.feature_flags@;
            let tokens = input.current_token_count;
            let last = state.tokens_at_last_extraction;
            &&& input.agent_type@.len() == 0
            &&& exists|k: Seq<char>| #[trigger]
                flags.contains_key(k) && flags[k] && (k == "auto_session_memory"@ || k
                    == "auto_memory_enabled"@ || k == "AUTO_MEMORY"@)
            &&& (if last == 0 {
                tokens >= 10_000
            } else {
                tokens >= last + 5_000
            })
            &&& input.tool_calls_since_last_update >= 3 || !input.has_tool_calls_in_last_turn
        },
{
    let flags = input.feature_flags@;
    if notes_enabled(flags) {
        if tier2_extract_memories::flag_set(flags, "auto_session_memory"@) {
            assert(flags.contains_key("auto_session_memory"@));
        } else if tier2_extract_memories::flag_set(flags, "auto_memory_enabled"@) {
            assert(flags.contains_key("auto_memory_enabled"@));
        } else {
            assert(flags.contains_key("AUTO_MEMORY"@));
        }
    }
}

/// Why notes are not taken: the first thing that stands against them is named.
pub proof fn skipped_notes_are_explained(input: SessionMemoryGateInput, state: Tier1SessionState)
    ensures
        ({
            let tokens = input.current_token_count;
            let last = state.tokens_at_last_extraction;
            let r = skip_reason(input, state);
            let on = input.agent_type@.len() == 0 && notes_enabled(input.feature_flags@);
            &&& input.agent_type@.len() > 0 ==> r == Some("non_main_agent"@)
            &&& input.agent_type@.len() == 0 && !notes_enabled(input.feature_flags@) ==> r == Some(
                "feature_disabled"@,
            )
            &&& on && last == 0 && tokens < 10_000 ==> r == Some("init_threshold_unmet"@)
            &&& on && last != 0 && tokens < last + 5_000 ==> r == Some("token_growth_unmet"@)
            &&& on && r is Some && (last == 0 && tokens >= 10_000 || last != 0 && tokens >= last
                + 5_000) ==> r == Some("tool_call_window_not_drained"@)
        }),
{
}

/// Evaluating the tier gate only ever notes that a session has grown to the first threshold: as if notes had been
/// taken five thousand tokens ago.
pub proof fn evaluations_only_start_sessions(input: SessionMemoryGateInput, state: Tier1SessionState)
    ensures
        ({
            let after = after_evaluation(input, state);
            let starts = input.agent_type@.len() == 0 && notes_enabled(input.feature_flags@)
                && state.tokens_at_last_extraction == 0 && input.current_token_count >= 10_000;
            &&& after.extraction_in_progress == state.extraction_in_progress
            &&& after.extraction_started_at_ms == state.extraction_started_at_ms
            &&& after.tokens_at_last_extraction == (if starts {
                input.current_token_count - 5_000
            } else {
                state.tokens_at_last_extraction as int
            })
        }),
        promoted(promoted(state, input.current_token_count), input.current_token_count) == promoted(
            state,
            input.current_token_count,
        ),
        fresh_session().tokens_at_last_extraction == 0,
        !fresh_session().extraction_in_progress,
{
}

/// Taking notes leaves the token count alone; its end frees the session, and growth counts from the trigger only where
/// notes were taken.
pub proof fn growth_counts_from_the_last_notes(
    state: Tier1SessionState,
    now_ms: u64,
    taken_at: Option<u64>,
)
    ensures
        taking_notes(state, now_ms).tokens_at_last_extraction == state.tokens_at_last_extraction,
        taking_notes(state, now_ms).extraction_started_at_ms == now_ms,
        notes_ended(state, taken_at).tokens_at_last_extraction == (if taken_at is Some {
            taken_at->0
        } else {
            state.tokens_at_last_extraction
        }),
        notes_ended(state, taken_at).extraction_started_at_ms == 0,
{
}

/// How a call without a response ends an update of the notes.
pub proof fn failed_calls_end_updates(e: SessionMemoryProcessError, message: Seq<char>)
    ensures
        is_call_error(e, CallFailureView::Elapsed) <==> e == SessionMemoryProcessError::Timeout(
            30_000,
        ),
        is_call_error(e, CallFailureView::Closed) <==> e == SessionMemoryProcessError::Shutdown,
        is_call_error(e, CallFailureView::Failed(message)) <==> (e matches
            SessionMemoryProcessError::LlmFailure(t) && t@ == message),
{
}

/// Notes go to one file of the memory directory, and a copy of them to the snapshot of the turn beside it.
pub proof fn notes_have_their_files(memory_dir: Seq<char>, turn_id: Seq<char>)
    requires
        memory_dir.len() > 0,
        memory_dir.last() != '/',
    ensures
        notes_path(memory_dir) == memory_dir + "/SESSION.md"@,
        snapshot_path(memory_dir, turn_id) == memory_dir + "/.session-"@ + text::sanitized(turn_id)
            + ".md"@,
{
    reveal_strlit("/");
    reveal_strlit("SESSION.md");
    reveal_strlit("/SESSION.md");
    reveal_strlit(".session-");
    reveal_strlit("/.session-");
    assert(notes_path(memory_dir) =~= memory_dir + "/SESSION.md"@);
    assert(snapshot_path(memory_dir, turn_id) =~= memory_dir + "/.session-"@ + text::sanitized(
        turn_id,
    ) + ".md"@);
}

/// The model is told what was said where anything was, and what was said is told unchanged.
pub proof fn transcripts_are_shown_whole(
    memory_dir: Seq<char>,
    notes: Seq<char>,
    prior: Option<Seq<char>>,
    transcript: Seq<char>,
)
    ensures
        ({
            let ms = consolidation_messages(memory_dir, notes, prior, transcript);
            &&& ms.len() == 2
            &&& ms[0].role == "system"@
            &&& ms[1].role == "user"@
            &&& !text::is_blank(transcript) ==> text::contains(ms[1].content, transcript)
            &&& ms[0].content == consolidation_messages(
                memory_dir,
                notes,
                prior,
                Seq::empty(),
            )[0].content
        }),
{
    if !text::is_blank(transcript) {
        text::lemma_contains_tail(
            "--- RECENT TRANSCRIPT ---\n"@,
            transcript,
            "\n--- END TRANSCRIPT ---"@,
        );
    }
}

/// A note of the same session that is not blank is shown behind the prompt, between its marks.
pub proof fn prior_notes_are_built_on(memory_dir: Seq<char>, notes: Seq<char>, note: Seq<char>)
    requires
        !text::is_blank(note),
    ensures
        consolidation_prompt(memory_dir, notes, Some(note)) == consolidation_prompt(
            memory_dir,
            notes,
            None,
        ) + text::replace(TIER1_DELTA_SUFFIX@, "{{prior_note}}"@, note),
        consolidation_prompt(memory_dir, notes, None) == text::replace(
            text::replace(
                TIER1_CONSOLIDATION_PROMPT@,
                "{{notes_path}}"@,
                path::under(memory_dir, "SESSION.md"@),
            ),
            "{{current_notes}}"@,
            notes,
        ),
{
}

proof fn lemma_substantive(prompts: Seq<Seq<char>>, n: int)
    requires
        0 <= n <= prompts.len(),
    ensures
        substantive(prompts, n) == prompts.take(n).filter(|p: Seq<char>| p.len() >= 8),
    decreases n,
{
    reveal(Seq::filter);
    if n > 0 {
        lemma_substantive(prompts, n - 1);
        assert(prompts.take(n).drop_last() =~= prompts.take(n - 1));
    }
}

proof fn lemma_prefixes(records: Seq<JsonView>, v: JsonView, n: int)
    requires
        0 <= n <= records.len(),
    ensures
        prompts_in(records.push(v), n) == prompts_in(records, n),
        replies_in(records.push(v), n) == replies_in(records, n),
    decreases n,
{
    if n > 0 {
        lemma_prefixes(records, v, n - 1);
        assert(records.push(v)[n - 1] == records[n - 1]);
    }
}

/// A session gets a note without a model exactly where the user gave three prompts of at least eight characters and at
/// least fifty bytes of prompts in all.
pub proof fn trivial_sessions_get_no_note(
    records: Seq<JsonView>,
    session_id: Seq<char>,
    language: MemoryOutputLanguage,
)
    ensures
        ({
            let prompts = prompts_in(records, records.len() as int);
            degraded_note(records, session_id, language) is Some <==> prompts.filter(
                |p: Seq<char>| p.len() >= 8,
            ).len() >= 3 && byte_length(prompts, prompts.len() as int) >= 50
        }),
{
    let prompts = prompts_in(records, records.len() as int);
    lemma_substantive(prompts, prompts.len() as int);
    assert(prompts.take(prompts.len() as int) =~= prompts);
}

/// One record more of a transcript: what the user says in it is a prompt, what the assistant says in it is a reply,
/// and nothing else counts.
pub proof fn records_count_for_their_speaker(records: Seq<JsonView>, v: JsonView)
    ensures
        ({
            let n = records.len() as int;
            let more = records.push(v);
            let kind = json::text_or_empty(v, "type"@);
            let speaks = said_in(v).len() > 0;
            &&& prompts_in(more, n + 1) == (if speaks && kind == "user"@ {
                prompts_in(records, n).push(said_in(v))
            } else {
                prompts_in(records, n)
            })
            &&& replies_in(more, n + 1) == (if speaks && kind == "assistant"@ {
                replies_in(records, n) + 1
            } else {
                replies_in(records, n)
            })
        }),
        json::member(v, "isSidechain"@) == Some(JsonView::Bool(true)) ==> said_in(v).len() == 0,
        json::member(v, "message"@) is None ==> said_in(v).len() == 0,
        json::member(v, "isSidechain"@) != Some(JsonView::Bool(true)) && json::member(v, "message"@)
            is Some ==> said_in(v) == text::trim(
            transcript_index::message_text(
                json::member(json::member(v, "message"@)->0, "content"@),
            ),
        ),
{
    lemma_prefixes(records, v, records.len() as int);
}

/// The note shows the session, how many prompts and replies there were, and as topics the first five prompts of
/// substance, each cut to eighty characters.
pub proof fn notes_show_the_first_topics(
    records: Seq<JsonView>,
    session_id: Seq<char>,
    language: MemoryOutputLanguage,
    i: int,
)
    requires
        degraded_note(records, session_id, language) is Some,
        ({
            let prompts = prompts_in(records, records.len() as int);
            0 <= i < prompts.filter(|p: Seq<char>| p.len() >= 8).len() && i < 5
        }),
    ensures
        ({
            let note = degraded_note(records, session_id, language)->0;
            let prompts = prompts_in(records, records.len() as int);
            let topics = prompts.filter(|p: Seq<char>| p.len() >= 8);
            let lines = topic_lines(topics);
            &&& lines.len() == if topics.len() < 5 {
                topics.len() as int
            } else {
                5
            }
            &&& lines[i] == "  - "@ + (if topics[i].len() <= 80 {
                topics[i]
            } else {
                topics[i].take(80) + "…"@
            })
            &&& text::contains(note, text::join(lines, "\n"@))
            &&& text::contains(note, "session: "@ + session_id + "\n"@)
            &&& text::contains(note, "degraded: true\n"@)
            &&& text::contains(note, text::decimal(prompts.len()))
            &&& text::contains(
                note,
                text::decimal(replies_in(records, records.len() as int)),
            )
        }),
{
    let prompts = prompts_in(records, records.len() as int);
    let replies = text::decimal(replies_in(records, records.len() as int));
    let count = text::decimal(prompts.len());
    lemma_substantive(prompts, prompts.len() as int);
    assert(prompts.take(prompts.len() as int) =~= prompts);
    let topics = prompts.filter(|p: Seq<char>| p.len() >= 8);
    let lines = topic_lines(topics);
    let shown = text::join(lines, "\n"@);
    let note = degraded_note(records, session_id, language)->0;
    let p = topics[i];
    if p.len() <= 80 {
        assert("  - "@ + p + Seq::<char>::empty() =~= "  - "@ + p);
    } else {
        assert(p.subrange(0, 80) =~= p.take(80));
        assert("  - "@ + p.take(80) + "…"@ =~= "  - "@ + (p.take(80) + "…"@));
    }
    reveal_strlit("---\ntype: session-note\ndegraded: true\nsession: ");
    reveal_strlit("session: ");
    reveal_strlit("degraded: true\n");
    reveal_strlit("\n---\n");
    reveal_strlit("\n");
    let start = "---\ntype: session-note\ndegraded: true\nsession: "@;
    let head = start + session_id + "\n---\n"@;
    let named = "session: "@ + session_id + "\n"@;
    assert(start.subrange(38, 47) =~= "session: "@);
    assert(start.subrange(23, 38) =~= "degraded: true\n"@);
    assert(head =~= start.subrange(0, 38) + named + head.skip((47 + session_id.len() + 1) as int));
    text::lemma_contains_tail(
        start.subrange(0, 38),
        named,
        head.skip((47 + session_id.len() + 1) as int),
    );
    assert(head =~= start.subrange(0, 23) + "degraded: true\n"@ + head.skip(38));
    text::lemma_contains_tail(start.subrange(0, 23), "degraded: true\n"@, head.skip(38));
    match language {
        MemoryOutputLanguage::Zh => {
            let a = "# 会话速记（降级 · 未经模型提炼）\n\n- 用户消息 "@;
            let b = " 条 / 助手回复 "@;
            let c = " 条\n- 主题线索：\n"@;
            let d =
                "\n\n> 生成时 LLM 通道不可用，本速记由转写元数据直接生成；下次做梦会重读原始转写，不受此降级影响。\n"@;
            assert(note =~= head + (a + count + b + replies + c + shown + d));
            text::lemma_contains_prefix(head, a + count + b + replies + c + shown + d, named);
            text::lemma_contains_prefix(
                head,
                a + count + b + replies + c + shown + d,
                "degraded: true\n"@,
            );
            assert(note =~= (head + a) + count + (b + replies + c + shown + d));
            text::lemma_contains_tail(head + a, count, b + replies + c + shown + d);
            assert(note =~= (head + a + count + b) + replies + (c + shown + d));
            text::lemma_contains_tail(head + a + count + b, replies, c + shown + d);
            assert(note =~= (head + a + count + b + replies + c) + shown + d);
            text::lemma_contains_tail(head + a + count + b + replies + c, shown, d);
        },
        MemoryOutputLanguage::En => {
            let a = "# Session note (degraded — no model consolidation)\n\n- "@;
            let b = " user messages / "@;
            let c = " assistant replies\n- Topic leads:\n"@;
            let d =
                "\n\n> The LLM lane was unavailable when this note was generated; it was built directly from transcript metadata. The next dream cycle re-reads the raw transcript and is unaffected.\n"@;
            assert(note =~= head + (a + count + b + replies + c + shown + d));
            text::lemma_contains_prefix(head, a + count + b + replies + c + shown + d, named);
            text::lemma_contains_prefix(
                head,
                a + count + b + replies + c + shown + d,
                "degraded: true\n"@,
            );
            assert(note =~= (head + a) + count + (b + replies + c + shown + d));
            text::lemma_contains_tail(head + a, count, b + replies + c + shown + d);
            assert(note =~= (head + a + count + b) + replies + (c + shown + d));
            text::lemma_contains_tail(head + a + count + b, replies, c + shown + d);
            assert(note =~= (head + a + count + b + replies + c) + shown + d);
            text::lemma_contains_tail(head + a + count + b + replies + c, shown, d);
        },
    }
}

/// The records of a transcript come in the order of their lines, and a line that is no record is passed over.
pub proof fn records_come_in_order(ls: Seq<Seq<char>>, x: Seq<char>)
    ensures
        records_in(Seq::empty(), 0).len() == 0,
        json::json_of(x) is None ==> records_in(ls.push(x), ls.len() as int + 1) == records_in(
            ls,
            ls.len() as int,
        ),
        json::json_of(x) matches Some(v) ==> records_in(ls.push(x), ls.len() as int + 1) == records_in(
            ls,
            ls.len() as int,
        ).push(v),
{
    lemma_records_front(ls, x, ls.len() as int);
}

proof fn lemma_records_front(ls: Seq<Seq<char>>, x: Seq<char>, n: int)
    requires
        n <= ls.len(),
    ensures
        records_in(ls.push(x), n) == records_in(ls, n),
    decreases n,
{
    if n > 0 {
        lemma_records_front(ls, x, n - 1);
    }
}

/// Every prompt counts with its bytes.
pub proof fn bytes_are_added_up(prompts: Seq<Seq<char>>, x: Seq<char>)
    ensures
        byte_length(Seq::empty(), 0) == 0,
        byte_length(prompts.push(x), prompts.len() as int + 1) == byte_length(
            prompts,
            prompts.len() as int,
        ) + vstd::utf8::encode_utf8(x).len(),
{
    lemma_bytes_front(prompts, x, prompts.len() as int);
}

proof fn lemma_bytes_front(prompts: Seq<Seq<char>>, x: Seq<char>, n: int)
    requires
        n <= prompts.len(),
    ensures
        byte_length(prompts.push(x), n) == byte_length(prompts, n),
    decreases n,
{
    if n > 0 {
        lemma_bytes_front(prompts, x, n - 1);
    }
}

/// A note that is made without a model says so, names its session, and counts the messages of the user and the replies of
/// the assistant before it lists the topics.
pub proof fn notes_count_both_speakers(
    prompts: Seq<Seq<char>>,
    replies: nat,
    topics: Seq<char>,
    session_id: Seq<char>,
)
    ensures
        ({
            let head = "---\ntype: session-note\ndegraded: true\nsession: "@ + session_id + "\n---\n"@;
            &&& text::starts_with(
                degraded_text(prompts, replies, topics, session_id, MemoryOutputLanguage::En),
                head + "# Session note (degraded — no model consolidation)\n\n- "@ + text::decimal(
                    prompts.len(),
                ) + " user messages / "@ + text::decimal(replies)
                    + " assistant replies\n- Topic leads:\n"@ + topics + "\n\n"@,
            )
            &&& text::starts_with(
                degraded_text(prompts, replies, topics, session_id, MemoryOutputLanguage::Zh),
                head + "# 会话速记（降级 · 未经模型提炼）\n\n- 用户消息 "@ + text::decimal(
                    prompts.len(),
                ) + " 条 / 助手回复 "@ + text::decimal(replies) + " 条\n- 主题线索：\n"@ + topics
                    + "\n\n"@,
            )
        }),
{
    reveal_strlit("\n\n");
    reveal_strlit(
        "\n\n> The LLM lane was unavailable when this note was generated; it was built directly from transcript metadata. The next dream cycle re-reads the raw transcript and is unaffected.\n",
    );
    reveal_strlit(
        "\n\n> 生成时 LLM 通道不可用，本速记由转写元数据直接生成；下次做梦会重读原始转写，不受此降级影响。\n",
    );
    let head = "---\ntype: session-note\ndegraded: true\nsession: "@ + session_id + "\n---\n"@;
    let en = head + "# Session note (degraded — no model consolidation)\n\n- "@ + text::decimal(
        prompts.len(),
    ) + " user messages / "@ + text::decimal(replies) + " assistant replies\n- Topic leads:\n"@
        + topics + "\n\n"@;
    let zh = head + "# 会话速记（降级 · 未经模型提炼）\n\n- 用户消息 "@ + text::decimal(prompts.len())
        + " 条 / 助手回复 "@ + text::decimal(replies) + " 条\n- 主题线索：\n"@ + topics + "\n\n"@;
    assert(degraded_text(
        prompts,
        replies,
        topics,
        session_id,
        MemoryOutputLanguage::En,
    ).subrange(0, en.len() as int) =~= en);
    assert(degraded_text(
        prompts,
        replies,
        topics,
        session_id,
        MemoryOutputLanguage::Zh,
    ).subrange(0, zh.len() as int) =~= zh);
}

/// Notes are asked for on behalf of the session, with what the input says of the model, and with the notes, the prior note
/// and the transcript that were given.
pub proof fn notes_are_asked_for_the_session(
    q: LlmCallRequestPayload,
    req_id: Seq<char>,
    input: SessionMemoryProcessInput,
    current_notes: Seq<char>,
    transcript: Seq<char>,
)
    requires
        is_notes_request(q, req_id, input, current_notes, transcript),
    ensures
        q.req_id@ == req_id,
        q.tier == MemoryTier::Session,
        q.phase is None,
        q.model_hint == input.model_hint,
        q.params == input.params,
        q.messages@.len() == 2,
        q.messages@[0]@ == consolidation_messages(
            input.memory_dir@,
            current_notes,
            text::opt_view(input.prior_note),
            transcript,
        )[0],
        q.messages@[1]@ == consolidation_messages(
            input.memory_dir@,
            current_notes,
            text::opt_view(input.prior_note),
            transcript,
        )[1],
{
    let views = tier::message_views(q.messages@);
    assert(views.len() == q.messages@.len());
    assert(views.len() == 2);
    assert(views[0] == q.messages@[0]@);
    assert(views[1] == q.messages@[1]@);
}

/// What changes for one session changes for no other.
pub proof fn other_sessions_stay(a: SessionMemoryGate, b: SessionMemoryGate, key: Seq<char>, other: Seq<char>)
    requires
        a.same_but(b, key),
        other != key,
    ensures
        a.session(other) == b.session(other),
{
}

/// A session is as it was last left; one that was never heard of has seen no tokens and has no update under way.
pub proof fn unknown_sessions_start_afresh(
    sessions: Map<Seq<char>, Tier1SessionState>,
    key: Seq<char>,
    state: Tier1SessionState,
)
    ensures
        session_in(sessions.insert(key, state), key) == state,
        session_in(sessions.remove(key), key).tokens_at_last_extraction == 0,
        !session_in(sessions.remove(key), key).extraction_in_progress,
        session_in(sessions.remove(key), key).extraction_started_at_ms == 0,
{
}

/// A transcript that is blank is said to be missing.
pub proof fn missing_transcripts_are_said(
    memory_dir: Seq<char>,
    notes: Seq<char>,
    prior: Option<Seq<char>>,
    transcript: Seq<char>,
)
    ensures
        text::trim(transcript).len() == 0 ==> consolidation_messages(
            memory_dir,
            notes,
            prior,
            transcript,
        )[1].content == "(no recent transcript available for this session)"@,
{
}

} // verus!
