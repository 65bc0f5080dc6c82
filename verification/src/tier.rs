//! What the memory tiers share: gate decisions and the shapes of a model call that travels over
//! the wire and comes back later.

use vstd::prelude::*;
use vstd::string::StringExecFns;
use crate::table::Table;
use crate::text;

pub mod daily_events;
pub mod dream_calls;
pub mod dream_files;
pub mod dream_run;
pub mod imagination_calls;
pub mod imagination_documents;
pub mod imagination_evidence;
pub mod imagination_files;
pub mod imagination_run;
pub mod tier1_session_memory;
pub mod tier2_extract_memories;
pub mod tier3_auto_dream;
pub mod tier3_imagination;

verus! {

/// The tier on whose behalf a call is made.
#[derive(Debug, Clone, Copy, PartialEq, Eq, Hash, Structural)]
pub enum MemoryTier {
    /// Notes of one session.
    Session,
    /// Memories extracted per query.
    Extract,
    /// Insights consolidated per day.
    Dream,
}

/// What a gate decided. `payload` is there exactly when the tier gate triggers, `skip_reason` exactly
/// when it does not.
#[derive(Debug, Clone)]
pub struct GateDecision<T> {
    pub should_trigger: bool,
    pub payload: Option<T>,
    pub skip_reason: Option<String>,
}

impl<T> GateDecision<T> {
    /// Whether this is the decision to skip for the given reason.
    pub open spec fn skips(self, reason: Seq<char>) -> bool {
        !self.should_trigger && self.payload is None && text::opt_view(self.skip_reason) == Some(reason)
    }

    /// Whether this is a decision to trigger.
    pub open spec fn triggers(self) -> bool {
        self.should_trigger && self.payload is Some && self.skip_reason is None
    }

    pub fn skip(reason: &str) -> (r: Self)
        ensures
            r.skips(reason@),
    {
        GateDecision { should_trigger: false, payload: None, skip_reason: Some(reason.to_owned()) }
    }

    pub fn trigger(payload: T) -> (r: Self)
        ensures
            r.triggers(),
            r.payload == Some(payload),
    {
        GateDecision { should_trigger: true, payload: Some(payload), skip_reason: None }
    }
}

/// A deterministic gate in front of one tier.
pub trait TierGate {
    type GateInput;
    type GateOutput;
    type Error;

    fn evaluate_gate(&mut self, input: Self::GateInput) -> Result<
        GateDecision<Self::GateOutput>,
        Self::Error,
    >;
}

/// One message of a model call.
#[derive(Debug, Clone)]
pub struct LlmMessage {
    pub role: String,
    pub content: String,
}

pub struct MessageView {
    pub role: Seq<char>,
    pub content: Seq<char>,
}

impl View for LlmMessage {
    type V = MessageView;

    open spec fn view(&self) -> MessageView {
        MessageView { role: self.role@, content: self.content@ }
    }
}

pub open spec fn message_views(v: Seq<LlmMessage>) -> Seq<MessageView> {
    Seq::new(v.len(), |i: int| v[i]@)
}

/// A system message followed by a user message.
pub open spec fn dialogue(system: Seq<char>, user: Seq<char>) -> Seq<MessageView> {
    seq![
        MessageView { role: "system"@, content: system },
        MessageView { role: "user"@, content: user },
    ]
}

/// See [`dialogue`].
pub fn dialogue_of(system: String, user: String) -> (r: Vec<LlmMessage>)
    ensures
        message_views(r@) == dialogue(system@, user@),
{
    let first = LlmMessage { role: "system".to_owned(), content: system };
    let second = LlmMessage { role: "user".to_owned(), content: user };
    let mut out: Vec<LlmMessage> = Vec::new();
    out.push(first);
    out.push(second);
    assert(message_views(out@) =~= dialogue(system@, user@));
    out
}

/// Sampling parameters; what is absent is left to the caller's defaults. The temperature is the
/// bit pattern of a single-precision number.
#[derive(Debug, Clone, Copy, PartialEq, Eq, Structural)]
pub struct LlmCallParams {
    pub temperature: Option<u32>,
    pub max_tokens: Option<u32>,
}

impl Default for LlmCallParams {
    fn default() -> (r: Self)
        ensures
            r.temperature is None,
            r.max_tokens is None,
    {
        LlmCallParams { temperature: None, max_tokens: None }
    }
}

/// A model call to be made. `req_id` ties the result to it.
#[derive(Debug, Clone)]
pub struct LlmCallRequestPayload {
    pub req_id: String,
    pub tier: MemoryTier,
    pub phase: Option<String>,
    pub messages: Vec<LlmMessage>,
    pub model_hint: Option<String>,
    pub params: LlmCallParams,
}

/// Tokens that one call used.
#[derive(Debug, Clone, Copy, PartialEq, Eq, Structural)]
pub struct LlmUsage {
    pub input_tokens: u32,
    pub output_tokens: u32,
}

/// The result of a model call.
#[derive(Debug, Clone)]
pub struct LlmCallResultPayload {
    pub req_id: String,
    pub response: Option<String>,
    pub usage: Option<LlmUsage>,
    pub error: Option<String>,
}

/// How waiting for the result of a call ended.
#[derive(Debug, Clone)]
pub enum CallOutcome {
    /// The result came.
    Reply(LlmCallResultPayload),
    /// No result came in time.
    Elapsed,
    /// The waiting side was told that no result will come.
    Closed,
}

/// Why a call brought no response.
#[derive(Debug, Clone)]
pub enum CallFailure {
    Elapsed,
    Closed,
    Failed(String),
}

pub enum CallFailureView {
    Elapsed,
    Closed,
    Failed(Seq<char>),
}

impl View for CallFailure {
    type V = CallFailureView;

    open spec fn view(&self) -> CallFailureView {
        match *self {
            CallFailure::Elapsed => CallFailureView::Elapsed,
            CallFailure::Closed => CallFailureView::Closed,
            CallFailure::Failed(m) => CallFailureView::Failed(m@),
        }
    }
}

/// The response text and the usage of a call, or why there is none. An error message that came
/// with the result wins over a response.
pub open spec fn response_of(outcome: CallOutcome) -> Result<
    (Seq<char>, Option<LlmUsage>),
    CallFailureView,
> {
    match outcome {
        CallOutcome::Elapsed => Err(CallFailureView::Elapsed),
        CallOutcome::Closed => Err(CallFailureView::Closed),
        CallOutcome::Reply(result) => match (result.error, result.response) {
            (Some(e), _) => Err(CallFailureView::Failed(e@)),
            (None, Some(text)) => Ok((text@, result.usage)),
            (None, None) => Err(CallFailureView::Failed("empty response"@)),
        },
    }
}

/// See [`response_of`].
pub fn take_response(outcome: CallOutcome) -> (r: Result<(String, Option<LlmUsage>), CallFailure>)
    ensures
        r matches Ok(p) ==> response_of(outcome) == Ok::<
            (Seq<char>, Option<LlmUsage>),
            CallFailureView,
        >((p.0@, p.1)),
        r matches Err(e) ==> response_of(outcome) == Err::<
            (Seq<char>, Option<LlmUsage>),
            CallFailureView,
        >(e@),
{
    match outcome {
        CallOutcome::Elapsed => Err(CallFailure::Elapsed),
        CallOutcome::Closed => Err(CallFailure::Closed),
        CallOutcome::Reply(result) => {
            if let Some(e) = result.error {
                return Err(CallFailure::Failed(e));
            }
            match result.response {
                Some(text) => Ok((text, result.usage)),
                None => Err(CallFailure::Failed("empty response".to_owned())),
            }
        },
    }
}

// ---------------------------------------------------------------------------
// Pending calls
// ---------------------------------------------------------------------------

/// The number after `n`, starting over behind the largest.
pub open spec fn next_number(n: u64) -> u64 {
    if n == u64::MAX {
        0
    } else {
        (n + 1) as u64
    }
}

/// The identifier of the `n`-th call.
pub open spec fn call_id(prefix: Seq<char>, n: u64, now_ms: u64) -> Seq<char> {
    prefix + text::decimal(n as nat) + "-"@ + text::decimal(now_ms as nat)
}

/// The calls whose results are awaited. `S` is where the result of a call is awaited.
pub struct CallDesk<S> {
    pub pending: Table<S>,
    pub req_id_counter: u64,
}

impl<S> CallDesk<S> {
    pub fn new() -> (r: Self)
        ensures
            r.pending@ == Map::<Seq<char>, S>::empty(),
            r.req_id_counter == 0,
    {
        CallDesk { pending: Table::new(), req_id_counter: 0 }
    }

    /// A fresh identifier.
    pub fn next_req_id(&mut self, prefix: &str, now_ms: u64) -> (r: String)
        ensures
            final(self).req_id_counter == next_number(old(self).req_id_counter),
            final(self).pending == old(self).pending,
            r@ == call_id(prefix@, final(self).req_id_counter, now_ms),
    {
        self.req_id_counter = self.req_id_counter.wrapping_add(1);
        let mut out = prefix.to_owned();
        let n = text::decimal_of(self.req_id_counter);
        out.append(n.as_str());
        out.append("-");
        let ms = text::decimal_of(now_ms);
        out.append(ms.as_str());
        out
    }

    /// Opens a call: its result is awaited in `slot`.
    pub fn open(
        &mut self,
        prefix: &str,
        tier: MemoryTier,
        phase: Option<String>,
        messages: Vec<LlmMessage>,
        model_hint: Option<String>,
        params: LlmCallParams,
        now_ms: u64,
        slot: S,
    ) -> (r: LlmCallRequestPayload)
        ensures
            final(self).req_id_counter == next_number(old(self).req_id_counter),
            final(self).pending@ == old(self).pending@.insert(r.req_id@, slot),
            r.req_id@ == call_id(prefix@, final(self).req_id_counter, now_ms),
            r.tier == tier,
            r.phase == phase,
            r.messages == messages,
            r.model_hint == model_hint,
            r.params == params,
    {
        let req_id = self.next_req_id(prefix, now_ms);
        self.pending.put(req_id.clone(), slot);
        LlmCallRequestPayload { req_id, tier, phase, messages, model_hint, params }
    }

    /// Takes a call off the desk and hands out where its result is awaited; `None` where no such call
    /// is pending, as for a result that comes too late.
    pub fn close(&mut self, req_id: &str) -> (r: Option<S>)
        ensures
            r is Some <==> old(self).pending@.contains_key(req_id@),
            r matches Some(s) ==> s == old(self).pending@[req_id@],
            final(self).pending@ == old(self).pending@.remove(req_id@),
            r is None ==> final(self).pending@ == old(self).pending@,
            final(self).req_id_counter == old(self).req_id_counter,
    {
        self.pending.take(req_id)
    }
}

/// A result is handed out once: the call is pending from when it is opened until its result comes, and a second
/// result for it finds nothing. Other calls are left alone.
pub proof fn results_are_delivered_once<S>(pending: Map<Seq<char>, S>, req_id: Seq<char>, slot: S)
    ensures
        pending.insert(req_id, slot).contains_key(req_id),
        pending.insert(req_id, slot)[req_id] == slot,
        !pending.insert(req_id, slot).remove(req_id).contains_key(req_id),
        forall|other: Seq<char>|
            other != req_id ==> (#[trigger] pending.insert(req_id, slot).remove(req_id).contains_key(
                other,
            ) <==> pending.contains_key(other)),
{
}

pub proof fn lemma_decimal_digits(n: nat)
    ensures
        text::decimal(n).len() > 0,
        forall|i: int| 0 <= i < text::decimal(n).len() ==> #[trigger] text::decimal(n)[i] != '-',
    decreases n,
{
    if n >= 10 {
        lemma_decimal_digits(n / 10);
    }
}

pub proof fn lemma_decimal_injective(m: nat, n: nat)
    requires
        text::decimal(m) == text::decimal(n),
    ensures
        m == n,
    decreases m,
{
    lemma_decimal_digits(m / 10);
    lemma_decimal_digits(n / 10);
    assert(text::decimal(m).last() == text::hex_digit((m % 10) as int));
    assert(text::decimal(n).last() == text::hex_digit((n % 10) as int));
    assert(m % 10 == n % 10);
    if m < 10 {
        if n >= 10 {
            assert(text::decimal(n).len() >= 2);
        }
    } else {
        if n < 10 {
            assert(text::decimal(m).len() >= 2);
        } else {
            assert(text::decimal(m).drop_last() =~= text::decimal(m / 10));
            assert(text::decimal(n).drop_last() =~= text::decimal(n / 10));
            lemma_decimal_injective(m / 10, n / 10);
        }
    }
}

/// Two calls of the same kind with different numbers have different identifiers, whenever they are
/// made.
pub proof fn call_ids_are_distinct(prefix: Seq<char>, m: u64, n: u64, t: u64, u: u64)
    requires
        m != n,
    ensures
        call_id(prefix, m, t) != call_id(prefix, n, u),
{
    reveal_strlit("-");
    let a = call_id(prefix, m, t);
    let b = call_id(prefix, n, u);
    let dm = text::decimal(m as nat);
    let dn = text::decimal(n as nat);
    lemma_decimal_digits(m as nat);
    lemma_decimal_digits(n as nat);
    if a == b {
        let k = prefix.len() as int;
        if dm.len() < dn.len() {
            assert(a[k + dm.len()] == '-');
            assert(b[k + dm.len()] == dn[dm.len() as int]);
        } else if dn.len() < dm.len() {
            assert(b[k + dn.len()] == '-');
            assert(a[k + dn.len()] == dm[dn.len() as int]);
        } else {
            assert forall|i: int| 0 <= i < dm.len() implies dm[i] == dn[i] by {
                assert(a[k + i] == dm[i]);
                assert(b[k + i] == dn[i]);
            }
            assert(dm =~= dn);
            lemma_decimal_injective(m as nat, n as nat);
        }
    }
}

// ---------------------------------------------------------------------------
// What a call promises
// ---------------------------------------------------------------------------

/// A call succeeds exactly where a result came with a response and without an error, and then with that response and that
/// usage. The error of a result is passed on; a result without either is an empty response.
pub proof fn errors_win_over_responses(outcome: CallOutcome)
    ensures
        response_of(outcome) is Ok <==> (outcome matches CallOutcome::Reply(result) && result.error
            is None && result.response is Some),
        outcome matches CallOutcome::Reply(result) ==> {
            &&& (result.error matches Some(e) ==> response_of(outcome) == Err::<
                (Seq<char>, Option<LlmUsage>),
                CallFailureView,
            >(CallFailureView::Failed(e@)))
            &&& (result.error is None ==> (result.response matches Some(text) ==> response_of(outcome)
                == Ok::<(Seq<char>, Option<LlmUsage>), CallFailureView>((text@, result.usage))))
            &&& (result.error is None && result.response is None ==> response_of(outcome) == Err::<
                (Seq<char>, Option<LlmUsage>),
                CallFailureView,
            >(CallFailureView::Failed("empty response"@)))
        },
        outcome is Elapsed ==> response_of(outcome) == Err::<
            (Seq<char>, Option<LlmUsage>),
            CallFailureView,
        >(CallFailureView::Elapsed),
        outcome is Closed ==> response_of(outcome) == Err::<
            (Seq<char>, Option<LlmUsage>),
            CallFailureView,
        >(CallFailureView::Closed),
{
}

/// Calls are numbered on, and the number behind the largest is none. An identifier begins with its prefix and the number,
/// and ends with the time.
pub proof fn calls_are_numbered_on(n: u64, prefix: Seq<char>, now_ms: u64)
    ensures
        n < u64::MAX ==> next_number(n) == n + 1,
        next_number(u64::MAX) == 0,
        text::starts_with(call_id(prefix, n, now_ms), prefix + text::decimal(n as nat)),
        text::ends_with(call_id(prefix, n, now_ms), "-"@ + text::decimal(now_ms as nat)),
        call_id(prefix, n, now_ms).len() == prefix.len() + text::decimal(n as nat).len() + 1
            + text::decimal(now_ms as nat).len(),
{
    reveal_strlit("-");
    let id = call_id(prefix, n, now_ms);
    let head = prefix + text::decimal(n as nat);
    let tail = "-"@ + text::decimal(now_ms as nat);
    assert(id =~= head + tail);
    assert(id.subrange(0, head.len() as int) =~= head);
    assert(id.subrange(id.len() - tail.len(), id.len() as int) =~= tail);
}

/// A request to a model is made of the instructions and then what they are about.
pub proof fn instructions_come_first(system: Seq<char>, user: Seq<char>)
    ensures
        dialogue(system, user).len() == 2,
        dialogue(system, user)[0].role == "system"@,
        dialogue(system, user)[0].content == system,
        dialogue(system, user)[1].role == "user"@,
        dialogue(system, user)[1].content == user,
{
}

/// A decision to skip triggers nothing, carries nothing, and says why.
pub proof fn skipped_decisions_say_why<T>(d: GateDecision<T>, reason: Seq<char>)
    requires
        d.skips(reason),
    ensures
        !d.should_trigger,
        d.payload is None,
        d.skip_reason is Some,
        d.skip_reason->0@ == reason,
{
}

} // verus!
