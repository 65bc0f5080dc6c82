//! Dreams: the periodic consolidation of recent sessions into insights. A gate decides when one is
//! due; a run takes it through its phases, one model call after the other.

use vstd::prelude::*;
use vstd::string::StringExecFns;
use crate::table::Table;
use crate::text;
use crate::tier;
use crate::tier::{
    CallDesk, CallFailure, CallFailureView, CallOutcome, GateDecision, LlmCallParams,
    LlmCallRequestPayload, LlmCallResultPayload, LlmMessage, LlmUsage, MemoryTier,
};

verus! {

/// The least number of hours from one dream to the next.
pub const DEFAULT_MIN_HOURS: u64 = 24;

/// The least time from one look at the sessions to the next.
pub const SESSION_SCAN_INTERVAL_MS: u64 = 10 * 60 * 1000;

/// The least number of sessions touched since the last dream.
pub const DEFAULT_MIN_SESSIONS: u32 = 5;

/// How long the result of a model call is waited for.
pub const LLM_CALL_TIMEOUT_MS: u64 = 60_000;

/// One hour.
pub const HOUR_MS: u64 = 60 * 60 * 1000;

// ---------------------------------------------------------------------------
// The tier gate
// ---------------------------------------------------------------------------

/// What is known when a dream could begin. An override of zero means the default; without an
/// instance key the memory directory is the key.
#[derive(Debug, Clone)]
pub struct AutoDreamGateInput {
    pub memory_dir: String,
    pub touched_session_count: u32,
    pub forced: bool,
    pub forced_skip_lock: bool,
    pub min_hours_override: u64,
    pub importance_pressure: bool,
    pub min_sessions_override: u32,
    pub instance_key: String,
}

/// What the tier gate hands to the dream.
#[derive(Debug, Clone)]
pub struct AutoDreamGateOutput {
    pub lock_path: String,
    pub holder_pid: u32,
    /// When the last dream ended; 0 before the first.
    pub prior_mtime_ms: u64,
    pub touched_session_count_at_trigger: u32,
}

/// Why the tier gate could not be evaluated.
#[derive(Debug, Clone)]
pub enum AutoDreamGateError {
    Io(String),
    LockAcquire(String),
}

/// The state of one instance.
#[derive(Debug, Clone, Copy, PartialEq, Eq, Structural)]
pub struct AutoDreamInstanceState {
    /// When the sessions were last looked at; 0 if never.
    pub last_session_scan_at_ms: u64,
    pub dream_in_progress: bool,
}

pub open spec fn fresh_instance() -> AutoDreamInstanceState {
    AutoDreamInstanceState { last_session_scan_at_ms: 0, dream_in_progress: false }
}

/// The key of the instance that an input is about.
pub open spec fn key_of(instance_key: Seq<char>, memory_dir: Seq<char>) -> Seq<char> {
    if instance_key.len() == 0 {
        memory_dir
    } else {
        instance_key
    }
}

pub open spec fn min_interval_ms(input: AutoDreamGateInput) -> int {
    let hours = if input.min_hours_override > 0 {
        input.min_hours_override
    } else {
        DEFAULT_MIN_HOURS
    };
    if hours * HOUR_MS > u64::MAX {
        u64::MAX as int
    } else {
        hours * HOUR_MS
    }
}

pub open spec fn min_sessions(input: AutoDreamGateInput) -> u32 {
    if input.min_sessions_override > 0 {
        input.min_sessions_override
    } else {
        DEFAULT_MIN_SESSIONS
    }
}

/// The time from `from` to `to`; none where `to` comes first.
pub open spec fn elapsed(from: u64, to: u64) -> int {
    if to >= from {
        to - from
    } else {
        0
    }
}

/// Whether the last dream is too recent. The first dream never waits, and pressure lifts the wait.
pub open spec fn too_soon(input: AutoDreamGateInput, prior_mtime_ms: u64, now_ms: u64) -> bool {
    prior_mtime_ms != 0 && elapsed(prior_mtime_ms, now_ms) < min_interval_ms(input)
        && !input.importance_pressure
}

/// Whether the sessions were looked at too recently.
pub open spec fn scanned_recently(state: AutoDreamInstanceState, now_ms: u64) -> bool {
    state.last_session_scan_at_ms != 0 && elapsed(state.last_session_scan_at_ms, now_ms)
        < SESSION_SCAN_INTERVAL_MS
}

/// What comes next in the evaluation of the tier gate.
#[derive(Debug, Clone)]
pub enum DreamGateStep {
    /// The dream is skipped, for the given reason.
    Skip(String),
    /// The lock has to be acquired.
    AcquireLock,
    /// The dream may begin without the lock: it is decided on as after the given attempt.
    WithoutLock(LockAttempt),
}

pub enum DreamGateStepView {
    Skip(Seq<char>),
    AcquireLock,
    WithoutLock(LockAttempt),
}

impl View for DreamGateStep {
    type V = DreamGateStepView;

    open spec fn view(&self) -> DreamGateStepView {
        match *self {
            DreamGateStep::Skip(r) => DreamGateStepView::Skip(r@),
            DreamGateStep::AcquireLock => DreamGateStepView::AcquireLock,
            DreamGateStep::WithoutLock(attempt) => DreamGateStepView::WithoutLock(attempt),
        }
    }
}

/// Whether the evaluation gets as far as looking at the sessions.
pub open spec fn looks_at_sessions(
    input: AutoDreamGateInput,
    state: AutoDreamInstanceState,
    prior_mtime_ms: u64,
    now_ms: u64,
) -> bool {
    &&& !state.dream_in_progress
    &&& !input.forced
    &&& !too_soon(input, prior_mtime_ms, now_ms)
    &&& !scanned_recently(state, now_ms)
}

/// What comes next, given when the last dream ended.
pub open spec fn gate_step(
    input: AutoDreamGateInput,
    state: AutoDreamInstanceState,
    prior_mtime_ms: u64,
    now_ms: u64,
) -> DreamGateStepView {
    if state.dream_in_progress {
        DreamGateStepView::Skip("dream_in_progress"@)
    } else if !input.forced && too_soon(input, prior_mtime_ms, now_ms) {
        DreamGateStepView::Skip("time_gate_unmet"@)
    } else if !input.forced && scanned_recently(state, now_ms) {
        DreamGateStepView::Skip("scan_throttled"@)
    } else if !input.forced && input.touched_session_count < min_sessions(input) {
        DreamGateStepView::Skip("session_count_unmet"@)
    } else if input.forced && input.forced_skip_lock {
        DreamGateStepView::WithoutLock(LockAttempt::Acquired(prior_mtime_ms))
    } else {
        DreamGateStepView::AcquireLock
    }
}

/// The state of the instance after that step: a look at the sessions is noted even where the dream is
/// then skipped.
pub open spec fn after_step(
    input: AutoDreamGateInput,
    state: AutoDreamInstanceState,
    prior_mtime_ms: u64,
    now_ms: u64,
) -> AutoDreamInstanceState {
    if looks_at_sessions(input, state, prior_mtime_ms, now_ms) {
        AutoDreamInstanceState { last_session_scan_at_ms: now_ms, ..state }
    } else {
        state
    }
}

/// How the attempt to acquire the lock ended.
#[derive(Debug, Clone)]
pub enum LockAttempt {
    /// It was acquired; with it comes when the last dream ended.
    Acquired(u64),
    /// Somebody else holds it.
    Held,
    /// It could not be tried.
    Failed(String),
}

/// The tier gate in front of a dream; it keeps the state of each instance.
pub struct AutoDreamGate {
    instances: Table<AutoDreamInstanceState>,
}

impl View for AutoDreamGate {
    type V = Map<Seq<char>, AutoDreamInstanceState>;

    closed spec fn view(&self) -> Map<Seq<char>, AutoDreamInstanceState> {
        self.instances@
    }
}

impl AutoDreamGate {
    /// The state of an instance.
    pub open spec fn instance(self, key: Seq<char>) -> AutoDreamInstanceState {
        if self@.contains_key(key) {
            self@[key]
        } else {
            fresh_instance()
        }
    }

    /// Whether only the instance called `key` may differ between the two.
    pub open spec fn same_but(self, other: Self, key: Seq<char>) -> bool {
        forall|k: Seq<char>| k != key ==> #[trigger] self.instance(k) == other.instance(k)
    }

    pub fn new() -> (r: Self)
        ensures
            forall|k: Seq<char>| #[trigger] r.instance(k) == fresh_instance(),
    {
        AutoDreamGate { instances: Table::new() }
    }

    /// The state of an instance.
    pub fn state(&self, key: &str) -> (r: AutoDreamInstanceState)
        ensures
            r == self.instance(key@),
    {
        match self.instances.get(key) {
            Some(s) => *s,
            None => AutoDreamInstanceState {
                last_session_scan_at_ms: 0,
                dream_in_progress: false,
            },
        }
    }

    /// Gives an instance a state.
    pub fn set_state(&mut self, key: &str, state: AutoDreamInstanceState)
        ensures
            final(self).instance(key@) == state,
            final(self).same_but(*old(self), key@),
    {
        self.instances.put(key.to_owned(), state);
    }

    /// See [`key_of`].
    pub fn resolve_instance_key(instance_key: &str, memory_dir: &str) -> (r: String)
        ensures
            r@ == key_of(instance_key@, memory_dir@),
    {
        if instance_key.is_empty() {
            memory_dir.to_owned()
        } else {
            instance_key.to_owned()
        }
    }

    /// Evaluates the tier gate as far as the lock. `prior` is when the last dream ended, or why that could
    /// not be read.
    pub fn evaluate_gate(
        &mut self,
        input: &AutoDreamGateInput,
        prior: Result<u64, String>,
        now_ms: u64,
    ) -> (r: Result<DreamGateStep, AutoDreamGateError>)
        ensures
            ({
                let key = key_of(input.instance_key@, input.memory_dir@);
                let state = old(self).instance(key);
                &&& final(self).same_but(*old(self), key)
                &&& match prior {
                    Ok(p) => {
                        &&& r matches Ok(step) && step@ == gate_step(*input, state, p, now_ms)
                        &&& final(self).instance(key) == after_step(*input, state, p, now_ms)
                    },
                    Err(e) => {
                        &&& final(self).instance(key) == state
                        &&& if state.dream_in_progress {
                            r matches Ok(step) && step@ == DreamGateStepView::Skip(
                                "dream_in_progress"@,
                            )
                        } else {
                            r matches Err(AutoDreamGateError::LockAcquire(m)) && m == e
                        }
                    },
                }
            }),
    {
        let key = AutoDreamGate::resolve_instance_key(
            input.instance_key.as_str(),
            input.memory_dir.as_str(),
        );
        let state = self.state(key.as_str());
        if state.dream_in_progress {
            return Ok(DreamGateStep::Skip("dream_in_progress".to_owned()));
        }
        let prior_mtime_ms: u64 = match prior {
            Ok(p) => p,
            Err(e) => return Err(AutoDreamGateError::LockAcquire(e)),
        };
        if !input.forced {
            let hours: u64 = if input.min_hours_override > 0 {
                input.min_hours_override
            } else {
                DEFAULT_MIN_HOURS
            };
            let interval: u64 = match hours.checked_mul(HOUR_MS) {
                Some(ms) => ms,
                None => u64::MAX,
            };
            if prior_mtime_ms != 0 && now_ms.saturating_sub(prior_mtime_ms) < interval
                && !input.importance_pressure {
                return Ok(DreamGateStep::Skip("time_gate_unmet".to_owned()));
            }
            if state.last_session_scan_at_ms != 0 && now_ms.saturating_sub(
                state.last_session_scan_at_ms,
            ) < SESSION_SCAN_INTERVAL_MS {
                return Ok(DreamGateStep::Skip("scan_throttled".to_owned()));
            }
            self.set_state(
                key.as_str(),
                AutoDreamInstanceState { last_session_scan_at_ms: now_ms, ..state },
            );
            let needed: u32 = if input.min_sessions_override > 0 {
                input.min_sessions_override
            } else {
                DEFAULT_MIN_SESSIONS
            };
            if input.touched_session_count < needed {
                return Ok(DreamGateStep::Skip("session_count_unmet".to_owned()));
            }
        }
        if input.forced && input.forced_skip_lock {
            Ok(DreamGateStep::WithoutLock(LockAttempt::Acquired(prior_mtime_ms)))
        } else {
            Ok(DreamGateStep::AcquireLock)
        }
    }

    /// Decides once the lock was tried: a dream that got it is under way from here on.
    pub fn decide(
        &mut self,
        input: &AutoDreamGateInput,
        lock_path: String,
        holder_pid: u32,
        attempt: LockAttempt,
    ) -> (r: Result<GateDecision<AutoDreamGateOutput>, AutoDreamGateError>)
        ensures
            ({
                let key = key_of(input.instance_key@, input.memory_dir@);
                let state = old(self).instance(key);
                &&& final(self).same_but(*old(self), key)
                &&& match attempt {
                    LockAttempt::Acquired(prior) => {
                        &&& final(self).instance(key) == (AutoDreamInstanceState {
                            dream_in_progress: true,
                            ..state
                        })
                        &&& r matches Ok(d) && d.triggers() && d.payload->0.lock_path == lock_path
                            && d.payload->0.holder_pid == holder_pid && d.payload->0.prior_mtime_ms
                            == prior && d.payload->0.touched_session_count_at_trigger
                            == input.touched_session_count
                    },
                    LockAttempt::Held => {
                        &&& final(self).instance(key) == state
                        &&& r matches Ok(d) && d.skips("lock_held"@)
                    },
                    LockAttempt::Failed(e) => {
                        &&& final(self).instance(key) == state
                        &&& r matches Err(AutoDreamGateError::LockAcquire(m)) && m == e
                    },
                }
            }),
    {
        match attempt {
            LockAttempt::Failed(e) => Err(AutoDreamGateError::LockAcquire(e)),
            LockAttempt::Held => Ok(GateDecision::skip("lock_held")),
            LockAttempt::Acquired(prior_mtime_ms) => {
                let key = AutoDreamGate::resolve_instance_key(
                    input.instance_key.as_str(),
                    input.memory_dir.as_str(),
                );
                let state = self.state(key.as_str());
                self.set_state(
                    key.as_str(),
                    AutoDreamInstanceState { dream_in_progress: true, ..state },
                );
                Ok(
                    GateDecision::trigger(
                        AutoDreamGateOutput {
                            lock_path,
                            holder_pid,
                            prior_mtime_ms,
                            touched_session_count_at_trigger: input.touched_session_count,
                        },
                    ),
                )
            },
        }
    }

    /// Marks the dream of an instance as over.
    pub fn release(&mut self, instance_key: &str, memory_dir: &str)
        ensures
            ({
                let key = key_of(instance_key@, memory_dir@);
                &&& final(self).same_but(*old(self), key)
                &&& final(self).instance(key) == (AutoDreamInstanceState {
                    dream_in_progress: false,
                    ..old(self).instance(key)
                })
            }),
    {
        let key = AutoDreamGate::resolve_instance_key(instance_key, memory_dir);
        let state = self.state(key.as_str());
        self.set_state(
            key.as_str(),
            AutoDreamInstanceState { dream_in_progress: false, ..state },
        );
    }
}

/// A forced dream is held up by nothing but a dream under way and the lock.
pub proof fn forced_skips_all_gates_but_the_lock(
    input: AutoDreamGateInput,
    state: AutoDreamInstanceState,
    prior_mtime_ms: u64,
    now_ms: u64,
)
    requires
        input.forced,
        !state.dream_in_progress,
    ensures
        gate_step(input, state, prior_mtime_ms, now_ms) == (if input.forced_skip_lock {
            DreamGateStepView::WithoutLock(LockAttempt::Acquired(prior_mtime_ms))
        } else {
            DreamGateStepView::AcquireLock
        }),
        after_step(input, state, prior_mtime_ms, now_ms) == state,
{
}

/// Pressure lifts the wait since the last dream and nothing else: with it, the tier gate decides as it would
/// if there had been no dream before. A forced dream, which does not wait, is decided on as without it.
pub proof fn pressure_lifts_only_the_wait(
    input: AutoDreamGateInput,
    state: AutoDreamInstanceState,
    prior_mtime_ms: u64,
    now_ms: u64,
)
    requires
        input.importance_pressure,
    ensures
        gate_step(input, state, prior_mtime_ms, now_ms) == gate_step(
            AutoDreamGateInput { importance_pressure: false, ..input },
            state,
            if input.forced {
                prior_mtime_ms
            } else {
                0
            },
            now_ms,
        ),
{
}

/// A second evaluation within the scan interval is throttled, whatever came of the first.
pub proof fn scans_are_throttled(
    input: AutoDreamGateInput,
    state: AutoDreamInstanceState,
    prior_mtime_ms: u64,
    now_ms: u64,
    later_ms: u64,
)
    requires
        looks_at_sessions(input, state, prior_mtime_ms, now_ms),
        0 < now_ms <= later_ms < now_ms + SESSION_SCAN_INTERVAL_MS,
        !too_soon(input, prior_mtime_ms, later_ms),
    ensures
        gate_step(
            input,
            after_step(input, state, prior_mtime_ms, now_ms),
            prior_mtime_ms,
            later_ms,
        ) == DreamGateStepView::Skip("scan_throttled"@),
{
}

// ---------------------------------------------------------------------------
// The lock afterwards
// ---------------------------------------------------------------------------

/// What is done with the lock when a dream is over.
#[derive(Debug, Clone, Copy, PartialEq, Eq, Structural)]
pub enum LockSettlement {
    /// The lock is not ours: it stays as it is.
    Leave,
    /// The dream is recorded as completed at the given time; 0 means now.
    Complete(u64),
    /// The time of the last dream is restored.
    Rollback(u64),
}

/// What is done with the lock: it is settled only by the process that holds it. Success moves the time
/// of the last dream on to what was consumed, failure puts it back.
pub open spec fn settlement(
    current_holder: Option<u32>,
    holder_pid: u32,
    own_pid: u32,
    succeeded: bool,
    consumed_watermark_ms: Option<u64>,
    prior_mtime_ms: u64,
) -> LockSettlement {
    if current_holder != Some(holder_pid) || holder_pid != own_pid {
        LockSettlement::Leave
    } else if succeeded {
        LockSettlement::Complete(
            match consumed_watermark_ms {
                Some(w) => w,
                None => 0,
            },
        )
    } else {
        LockSettlement::Rollback(prior_mtime_ms)
    }
}

/// A lock that another process holds, or that was taken for another process, is never touched; one that is ours is
/// always settled.
pub proof fn only_own_locks_are_settled(
    current_holder: Option<u32>,
    holder_pid: u32,
    own_pid: u32,
    succeeded: bool,
    consumed_watermark_ms: Option<u64>,
    prior_mtime_ms: u64,
)
    ensures
        settlement(
            current_holder,
            holder_pid,
            own_pid,
            succeeded,
            consumed_watermark_ms,
            prior_mtime_ms,
        ) == LockSettlement::Leave <==> !(current_holder == Some(own_pid) && holder_pid == own_pid),
{
}

/// See [`settlement`]. `current_holder` is who holds the lock now, as far as that can be read.
pub fn settle_consolidate_lock(
    current_holder: Option<u32>,
    holder_pid: u32,
    own_pid: u32,
    succeeded: bool,
    consumed_watermark_ms: Option<u64>,
    prior_mtime_ms: u64,
) -> (r: LockSettlement)
    ensures
        r == settlement(
            current_holder,
            holder_pid,
            own_pid,
            succeeded,
            consumed_watermark_ms,
            prior_mtime_ms,
        ),
{
    let ours = match current_holder {
        Some(pid) => pid == holder_pid && pid == own_pid,
        None => false,
    };
    if !ours {
        LockSettlement::Leave
    } else if succeeded {
        LockSettlement::Complete(
            match consumed_watermark_ms {
                Some(w) => w,
                None => 0,
            },
        )
    } else {
        LockSettlement::Rollback(prior_mtime_ms)
    }
}

// ---------------------------------------------------------------------------
// Calls
// ---------------------------------------------------------------------------

/// A dream to be run.
#[derive(Debug, Clone)]
pub struct DreamProcessInput {
    pub memory_dir: String,
    pub gate_payload: AutoDreamGateOutput,
    pub recent_sessions_summary: String,
    pub memdir_manifest: String,
    pub model_hint: Option<String>,
    pub params: LlmCallParams,
    pub instance_key: String,
    pub consumed_watermark_ms: Option<u64>,
}

/// What a dream did.
#[derive(Debug, Clone)]
pub struct DreamProcessOutput {
    pub phases_completed: Vec<String>,
    pub insight_paths: Vec<String>,
    pub fragment_paths: Vec<String>,
    pub pruned_paths: Vec<String>,
    pub req_ids: Vec<String>,
    pub aggregate_usage: Option<LlmUsageWire>,
    pub theme_ids: Vec<String>,
    pub parse_failures: u32,
    pub themes_skipped_no_evidence: u32,
}

/// Token usage as it is reported.
#[derive(Debug, Clone, Copy, PartialEq, Eq, Structural)]
pub struct LlmUsageWire {
    pub input_tokens: u32,
    pub output_tokens: u32,
}

/// Why a dream failed.
#[derive(Debug, Clone)]
pub enum DreamProcessError {
    Io(String),
    Write(String),
    Timeout(u64),
    LlmFailure(String),
    Shutdown,
    InvalidOutput(String),
}

/// The error that a failed call ends a dream with.
pub open spec fn is_call_error(e: DreamProcessError, f: CallFailureView) -> bool {
    match f {
        CallFailureView::Elapsed => e == DreamProcessError::Timeout(LLM_CALL_TIMEOUT_MS),
        CallFailureView::Closed => e is Shutdown,
        CallFailureView::Failed(m) => e matches DreamProcessError::LlmFailure(t) && t@ == m,
    }
}

/// The reply to a call of a dream.
#[derive(Debug, Clone)]
pub struct DreamReply {
    pub req_id: String,
    pub response: String,
    pub usage: Option<LlmUsage>,
}

/// The prefix of the identifiers of the calls of a phase.
pub open spec fn phase_prefix(phase: Seq<char>) -> Seq<char> {
    "tier3-"@ + phase + "-"@
}

/// Makes the calls of dreams. `S` is where the result of a call is awaited.
pub struct DreamProcessor<S> {
    pub gate: AutoDreamGate,
    pub desk: CallDesk<S>,
}

impl<S> DreamProcessor<S> {
    pub fn new(gate: AutoDreamGate) -> (r: Self)
        ensures
            r.gate == gate,
            r.desk.pending@ == Map::<Seq<char>, S>::empty(),
            r.desk.req_id_counter == 0,
    {
        DreamProcessor { gate, desk: CallDesk::new() }
    }

    pub fn gate(&self) -> (r: &AutoDreamGate)
        ensures
            *r == self.gate,
    {
        &self.gate
    }

    /// Hands out where the result of a call is awaited; `None` where no such call is pending.
    pub fn deliver_result(&mut self, result: &LlmCallResultPayload) -> (r: Option<S>)
        ensures
            r is Some <==> old(self).desk.pending@.contains_key(result.req_id@),
            r matches Some(s) ==> s == old(self).desk.pending@[result.req_id@],
            final(self).desk.pending@ == old(self).desk.pending@.remove(result.req_id@),
            final(self).desk.req_id_counter == old(self).desk.req_id_counter,
            final(self).gate == old(self).gate,
    {
        self.desk.close(result.req_id.as_str())
    }

    /// Opens the call of a phase.
    pub fn open_call(
        &mut self,
        phase: &str,
        messages: Vec<LlmMessage>,
        model_hint: Option<String>,
        params: LlmCallParams,
        now_ms: u64,
        slot: S,
    ) -> (r: LlmCallRequestPayload)
        ensures
            final(self).gate == old(self).gate,
            final(self).desk.req_id_counter == tier::next_number(old(self).desk.req_id_counter),
            final(self).desk.pending@ == old(self).desk.pending@.insert(r.req_id@, slot),
            r.req_id@ == tier::call_id(
                phase_prefix(phase@),
                final(self).desk.req_id_counter,
                now_ms,
            ),
            r.tier == MemoryTier::Dream,
            text::opt_view(r.phase) == Some(phase@),
            r.messages == messages,
            r.model_hint == model_hint,
            r.params == params,
    {
        let mut prefix = "tier3-".to_owned();
        prefix.append(phase);
        prefix.append("-");
        self.desk.open(
            prefix.as_str(),
            MemoryTier::Dream,
            Some(phase.to_owned()),
            messages,
            model_hint,
            params,
            now_ms,
            slot,
        )
    }

    /// Closes a call: the reply, or the error that the dream ends with.
    pub fn close_call(&mut self, req_id: String, outcome: CallOutcome) -> (r: Result<
        DreamReply,
        DreamProcessError,
    >)
        ensures
            final(self).gate == old(self).gate,
            final(self).desk.pending@ == old(self).desk.pending@.remove(req_id@),
            final(self).desk.req_id_counter == old(self).desk.req_id_counter,
            match tier::response_of(outcome) {
                Ok(p) => r matches Ok(q) && q.req_id == req_id && q.response@ == p.0 && q.usage
                    == p.1,
                Err(f) => r matches Err(e) && is_call_error(e, f),
            },
    {
        let _ = self.desk.close(req_id.as_str());
        match tier::take_response(outcome) {
            Ok(p) => Ok(DreamReply { req_id, response: p.0, usage: p.1 }),
            Err(CallFailure::Elapsed) => Err(DreamProcessError::Timeout(LLM_CALL_TIMEOUT_MS)),
            Err(CallFailure::Closed) => Err(DreamProcessError::Shutdown),
            Err(CallFailure::Failed(m)) => Err(DreamProcessError::LlmFailure(m)),
        }
    }
}

// ---------------------------------------------------------------------------
// Counting
// ---------------------------------------------------------------------------

/// The sum, up to the largest number.
pub open spec fn capped_sum(a: u32, b: u32) -> u32 {
    if a + b > u32::MAX {
        u32::MAX
    } else {
        (a + b) as u32
    }
}

/// What a dream counts.
#[derive(Debug, Clone, Copy, PartialEq, Eq, Structural)]
pub struct DreamTally {
    pub input_tokens: u32,
    pub output_tokens: u32,
    pub parse_failures: u32,
    pub themes_skipped_no_evidence: u32,
    pub phase3_calls: u32,
}

/// The tally with the usage of one more call.
pub open spec fn with_usage(t: DreamTally, usage: Option<LlmUsage>) -> DreamTally {
    match usage {
        Some(u) => DreamTally {
            input_tokens: capped_sum(t.input_tokens, u.input_tokens),
            output_tokens: capped_sum(t.output_tokens, u.output_tokens),
            ..t
        },
        None => t,
    }
}

pub open spec fn with_parse_failure(t: DreamTally) -> DreamTally {
    DreamTally { parse_failures: capped_sum(t.parse_failures, 1), ..t }
}

pub open spec fn with_skipped_theme(t: DreamTally) -> DreamTally {
    DreamTally { themes_skipped_no_evidence: capped_sum(t.themes_skipped_no_evidence, 1), ..t }
}

pub open spec fn with_phase3_call(t: DreamTally) -> DreamTally {
    DreamTally { phase3_calls: capped_sum(t.phase3_calls, 1), ..t }
}

/// Adds the usage of one more call.
pub fn accumulate_usage(usage: Option<LlmUsage>, tally: &mut DreamTally)
    ensures
        *final(tally) == with_usage(*old(tally), usage),
{
    if let Some(u) = usage {
        tally.input_tokens = tally.input_tokens.saturating_add(u.input_tokens);
        tally.output_tokens = tally.output_tokens.saturating_add(u.output_tokens);
    }
}

/// The usage that is reported; none where no token was used.
pub open spec fn reported_usage(input_tokens: u32, output_tokens: u32) -> Option<LlmUsageWire> {
    if input_tokens == 0 && output_tokens == 0 {
        None
    } else {
        Some(LlmUsageWire { input_tokens, output_tokens })
    }
}

/// See [`reported_usage`].
pub fn build_usage_wire(input_tokens: u32, output_tokens: u32) -> (r: Option<LlmUsageWire>)
    ensures
        r == reported_usage(input_tokens, output_tokens),
{
    if input_tokens == 0 && output_tokens == 0 {
        None
    } else {
        Some(LlmUsageWire { input_tokens, output_tokens })
    }
}

// ---------------------------------------------------------------------------
// What the tier gate and the counts promise
// ---------------------------------------------------------------------------

/// How long a dream waits for is set by the user: with an override of `hours`, a dream that nothing else holds up is
/// too soon exactly where a last dream is recorded and less than that many hours have passed since. Without an
/// override a day has to pass. An interval that no number can hold counts as the longest that one can.
pub proof fn dreams_wait_for_the_set_interval(
    input: AutoDreamGateInput,
    state: AutoDreamInstanceState,
    prior_mtime_ms: u64,
    now_ms: u64,
)
    requires
        !state.dream_in_progress,
        !input.forced,
        !input.importance_pressure,
    ensures
        ({
            let early = DreamGateStepView::Skip("time_gate_unmet"@);
            let h = input.min_hours_override as int;
            &&& h > 0 && h * 3_600_000 <= u64::MAX ==> (gate_step(
                input,
                state,
                prior_mtime_ms,
                now_ms,
            ) == early <==> prior_mtime_ms != 0 && now_ms < prior_mtime_ms + h * 3_600_000)
            &&& h == 0 ==> (gate_step(input, state, prior_mtime_ms, now_ms) == early
                <==> prior_mtime_ms != 0 && now_ms < prior_mtime_ms + 86_400_000)
            &&& h * 3_600_000 > u64::MAX && prior_mtime_ms != 0 ==> gate_step(
                input,
                state,
                prior_mtime_ms,
                now_ms,
            ) == early
        }),
{
    lemma_reasons();
    let h = input.min_hours_override as int;
    assert(h > 0 ==> h * 3_600_000 > 0);
}

/// The reasons of the tier gate are told apart.
proof fn lemma_reasons()
    ensures
        "dream_in_progress"@ != "time_gate_unmet"@,
        "scan_throttled"@ != "time_gate_unmet"@,
        "session_count_unmet"@ != "time_gate_unmet"@,
        "session_count_unmet"@ != "scan_throttled"@,
        "dream_in_progress"@ != "scan_throttled"@,
        "dream_in_progress"@ != "session_count_unmet"@,
{
    reveal_strlit("dream_in_progress");
    reveal_strlit("time_gate_unmet");
    reveal_strlit("scan_throttled");
    reveal_strlit("session_count_unmet");
    assert("dream_in_progress"@.len() == 17);
    assert("time_gate_unmet"@.len() == 15);
    assert("scan_throttled"@.len() == 14);
    assert("session_count_unmet"@.len() == 19);
}

/// A dream that is not forced goes for the lock exactly where none is under way, the wait is over or lifted, the
/// sessions were not looked at within the last ten minutes, and as many of them were touched as the user asks for, or
/// five.
pub proof fn dreams_begin_exactly_when_due(
    input: AutoDreamGateInput,
    state: AutoDreamInstanceState,
    prior_mtime_ms: u64,
    now_ms: u64,
)
    requires
        !input.forced,
        input.min_hours_override * 3_600_000 <= u64::MAX,
    ensures
        ({
            let hours: int = if input.min_hours_override == 0 {
                24
            } else {
                input.min_hours_override as int
            };
            let sessions: int = if input.min_sessions_override == 0 {
                5
            } else {
                input.min_sessions_override as int
            };
            let scan = state.last_session_scan_at_ms;
            let waited = prior_mtime_ms == 0 || now_ms >= prior_mtime_ms + hours * 3_600_000
                || input.importance_pressure;
            let rested = scan == 0 || now_ms >= scan + 600_000;
            let step = gate_step(input, state, prior_mtime_ms, now_ms);
            &&& step == DreamGateStepView::AcquireLock <==> !state.dream_in_progress && waited
                && rested && input.touched_session_count >= sessions
            &&& step == DreamGateStepView::Skip("dream_in_progress"@) <==> state.dream_in_progress
            &&& step == DreamGateStepView::Skip("scan_throttled"@) <==> !state.dream_in_progress
                && waited && !rested
            &&& step == DreamGateStepView::Skip("session_count_unmet"@)
                <==> !state.dream_in_progress && waited && rested && input.touched_session_count
                < sessions
            &&& after_step(input, state, prior_mtime_ms, now_ms).last_session_scan_at_ms == (
            if !state.dream_in_progress && waited && rested {
                now_ms
            } else {
                scan
            })
            &&& after_step(input, state, prior_mtime_ms, now_ms).dream_in_progress
                == state.dream_in_progress
        }),
{
    lemma_reasons();
    let h = input.min_hours_override as int;
    assert(h > 0 ==> h * 3_600_000 > 0);
}

/// A forced dream keeps the time of the last one where it goes without the lock, and notes no look at the sessions.
pub proof fn forced_dreams_only_respect_a_dream_under_way(
    input: AutoDreamGateInput,
    state: AutoDreamInstanceState,
    prior_mtime_ms: u64,
    now_ms: u64,
)
    requires
        input.forced,
    ensures
        ({
            let step = gate_step(input, state, prior_mtime_ms, now_ms);
            &&& state.dream_in_progress ==> step == DreamGateStepView::Skip("dream_in_progress"@)
            &&& !state.dream_in_progress && !input.forced_skip_lock ==> step
                == DreamGateStepView::AcquireLock
            &&& !state.dream_in_progress && input.forced_skip_lock ==> step
                == DreamGateStepView::WithoutLock(LockAttempt::Acquired(prior_mtime_ms))
            &&& after_step(input, state, prior_mtime_ms, now_ms) == state
        }),
{
}

/// Instances are told apart by their key, and by their memory directory where they have none.
pub proof fn instances_are_told_apart(key: Seq<char>, memory_dir: Seq<char>, other: Seq<char>)
    ensures
        key.len() > 0 ==> key_of(key, memory_dir) == key && key_of(key, other) == key,
        key_of(Seq::empty(), memory_dir) == memory_dir,
        memory_dir != other ==> key_of(Seq::empty(), memory_dir) != key_of(Seq::empty(), other),
        !fresh_instance().dream_in_progress && fresh_instance().last_session_scan_at_ms == 0,
{
}

/// A lock that is ours is completed after success, at what was consumed or at the present, and put back to the time of
/// the last dream after a failure; any other lock is left alone.
pub proof fn own_locks_are_completed_or_put_back(
    own_pid: u32,
    holder: Option<u32>,
    taken_by: u32,
    watermark_ms: Option<u64>,
    prior_mtime_ms: u64,
)
    ensures
        settlement(Some(own_pid), own_pid, own_pid, true, watermark_ms, prior_mtime_ms)
            == LockSettlement::Complete(
            if watermark_ms is Some {
                watermark_ms->0
            } else {
                0
            },
        ),
        settlement(Some(own_pid), own_pid, own_pid, false, watermark_ms, prior_mtime_ms)
            == LockSettlement::Rollback(prior_mtime_ms),
        holder != Some(own_pid) || taken_by != own_pid ==> forall|succeeded: bool|
            #[trigger] settlement(
                holder,
                taken_by,
                own_pid,
                succeeded,
                watermark_ms,
                prior_mtime_ms,
            ) == LockSettlement::Leave,
{
}

/// How a call without a response ends a dream.
pub proof fn failed_calls_end_dreams(e: DreamProcessError, message: Seq<char>)
    ensures
        is_call_error(e, CallFailureView::Elapsed) <==> e == DreamProcessError::Timeout(60_000),
        is_call_error(e, CallFailureView::Closed) <==> e == DreamProcessError::Shutdown,
        is_call_error(e, CallFailureView::Failed(message)) <==> (e matches
            DreamProcessError::LlmFailure(t) && t@ == message),
{
}

/// What a dream counts is added up: tokens as each call reports them, every other count by one, each up to what a
/// number can hold, and each without touching the others.
pub proof fn counts_are_added_up(t: DreamTally, used: LlmUsage)
    ensures
        ({
            let u = with_usage(t, Some(used));
            &&& t.input_tokens + used.input_tokens <= u32::MAX ==> u.input_tokens == t.input_tokens
                + used.input_tokens
            &&& t.input_tokens + used.input_tokens > u32::MAX ==> u.input_tokens == u32::MAX
            &&& t.output_tokens + used.output_tokens <= u32::MAX ==> u.output_tokens
                == t.output_tokens + used.output_tokens
            &&& t.output_tokens + used.output_tokens > u32::MAX ==> u.output_tokens == u32::MAX
            &&& u.parse_failures == t.parse_failures
            &&& u.themes_skipped_no_evidence == t.themes_skipped_no_evidence
            &&& u.phase3_calls == t.phase3_calls
        }),
        with_usage(t, None) == t,
        t.parse_failures < u32::MAX ==> with_parse_failure(t) == (DreamTally {
            parse_failures: (t.parse_failures + 1) as u32,
            ..t
        }),
        t.themes_skipped_no_evidence < u32::MAX ==> with_skipped_theme(t) == (DreamTally {
            themes_skipped_no_evidence: (t.themes_skipped_no_evidence + 1) as u32,
            ..t
        }),
        t.phase3_calls < u32::MAX ==> with_phase3_call(t) == (DreamTally {
            phase3_calls: (t.phase3_calls + 1) as u32,
            ..t
        }),
{
}

/// Usage is reported where any token was used, and as it was counted.
pub proof fn usage_is_reported_as_counted(input_tokens: u32, output_tokens: u32)
    ensures
        reported_usage(input_tokens, output_tokens) is None <==> input_tokens == 0 && output_tokens
            == 0,
        reported_usage(input_tokens, output_tokens) matches Some(u) ==> u.input_tokens
            == input_tokens && u.output_tokens == output_tokens,
{
}

/// What changes for one instance changes for no other.
pub proof fn other_instances_stay(a: AutoDreamGate, b: AutoDreamGate, key: Seq<char>, other: Seq<char>)
    requires
        a.same_but(b, key),
        other != key,
    ensures
        a.instance(other) == b.instance(other),
{
}

/// The calls of a phase are named by it: those of different phases begin differently.
pub proof fn calls_are_named_by_their_phase(a: Seq<char>, b: Seq<char>)
    ensures
        text::starts_with(phase_prefix(a), "tier3-"@ + a),
        text::ends_with(phase_prefix(a), "-"@),
        phase_prefix(a) == phase_prefix(b) ==> a == b,
{
    reveal_strlit("tier3-");
    reveal_strlit("-");
    let s = phase_prefix(a);
    let t = phase_prefix(b);
    assert(s.subrange(0, ("tier3-"@ + a).len() as int) =~= "tier3-"@ + a);
    assert(s.subrange(s.len() - 1, s.len() as int) =~= "-"@);
    assert(s.subrange(6, s.len() - 1) =~= a);
    assert(t.subrange(6, t.len() - 1) =~= b);
}

/// An instance is as it was last left; one that was never heard of was never scanned and has no dream under way.
pub proof fn unknown_instances_start_afresh(g: AutoDreamGate, key: Seq<char>)
    ensures
        g@.contains_key(key) ==> g.instance(key) == g@[key],
        !g@.contains_key(key) ==> g.instance(key).last_session_scan_at_ms == 0 && !g.instance(
            key,
        ).dream_in_progress,
{
}

} // verus!
