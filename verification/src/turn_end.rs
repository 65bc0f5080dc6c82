//! The evaluation of a turn that has ended, step by step: each step says what to ask of the outside, and takes
//! the answer.

use vstd::prelude::*;
use crate::path;
use crate::text;
use crate::turn_evaluator;
use crate::turn_evaluator::{
    DreamGateFindings, DreamGateFlags, DurableRunnerWork, ExtractFindings, ExtractGateFlags,
    InvalidRecovery, RequestedKinds, RunnerKind, TurnEndEvaluateRequest, TurnEndEvaluateResponse,
    TurnEndTrigger,
};

verus! {

/// What is to be done next.
#[derive(Debug, Clone, Copy, PartialEq, Eq, Structural)]
pub enum TurnEndStage {
    /// Whether a dream is due is to be asked.
    AskDream,
    /// The runner of a dream is to be registered.
    RegisterDream,
    /// Whether an extraction is due is to be asked.
    AskExtract,
    /// The runner of an extraction is to be registered.
    RegisterExtract,
    /// Nothing is left.
    Done,
}

/// A turn under evaluation.
pub struct TurnEnd {
    pub request: TurnEndEvaluateRequest,
    pub project_state_dir: String,
    pub wants: RequestedKinds,
    pub stage: TurnEndStage,
    /// The runner that is to be registered.
    pub work: Option<DurableRunnerWork>,
    /// The runners that were registered.
    pub triggers: Vec<TurnEndTrigger>,
}

/// Whether a request asks for a kind; one that names no kind asks for both.
pub open spec fn asks_for(q: TurnEndEvaluateRequest, kind: RunnerKind) -> bool {
    q.requested_kinds@.len() == 0 || q.requested_kinds@.contains(kind)
}

/// What is done first.
pub open spec fn first_stage(q: TurnEndEvaluateRequest) -> TurnEndStage {
    if asks_for(q, RunnerKind::Dream) {
        TurnEndStage::AskDream
    } else {
        stage_after_dream(q)
    }
}

/// What is done once the dream is settled.
pub open spec fn stage_after_dream(q: TurnEndEvaluateRequest) -> TurnEndStage {
    if asks_for(q, RunnerKind::Extract) {
        TurnEndStage::AskExtract
    } else {
        TurnEndStage::Done
    }
}

/// Whether `w` is the runner of a dream, with what the request and the findings say of it.
pub open spec fn is_dream_work(
    w: DurableRunnerWork,
    q: TurnEndEvaluateRequest,
    f: DreamGateFindings,
    trigger_id: Seq<char>,
) -> bool {
    &&& w.recovery@ == turn_evaluator::locator_for(q, trigger_id, RunnerKind::Dream)
    &&& turn_evaluator::is_dream_trigger(w.trigger, q, f, trigger_id)
    &&& turn_evaluator::is_dream_pending(
        w.pending,
        trigger_id,
        q.session_id@,
        q.memory_dir@,
        path::parent(q.memory_dir@),
        f.lock_token@,
        f.prior_mtime_ms,
        q.now_ms,
    )
}

/// Whether `w` is the runner of an extraction, with what the request and the findings say of it.
pub open spec fn is_extract_work(
    w: DurableRunnerWork,
    q: TurnEndEvaluateRequest,
    f: ExtractFindings,
    trigger_id: Seq<char>,
) -> bool {
    &&& w.recovery@ == turn_evaluator::locator_for(q, trigger_id, RunnerKind::Extract)
    &&& turn_evaluator::is_extract_trigger(w.trigger, q, f, trigger_id)
    &&& turn_evaluator::is_extract_pending(
        w.pending,
        trigger_id,
        q.session_id@,
        q.memory_dir@,
        path::parent(q.memory_dir@),
        f.last_assistant_uuid@,
        f.total_model_visible,
        q.now_ms,
    )
}

/// Whether the runners are a dream at most, and an extraction at most behind it, each only where it was asked
/// for, and each in the memory directory of the request; the dream with the token of the lock that it holds, the
/// extraction, which holds none, without.
pub open spec fn in_order(triggers: Seq<TurnEndTrigger>, q: TurnEndEvaluateRequest) -> bool {
    &&& triggers.len() <= 2
    &&& triggers.len() == 2 ==> triggers[0].kind == RunnerKind::Dream && triggers[1].kind
        == RunnerKind::Extract
    &&& forall|i: int|
        0 <= i < triggers.len() ==> asks_for(q, (#[trigger] triggers[i]).kind) && text::opt_view(
            triggers[i].runner_payload.memory_dir,
        ) == Some(q.memory_dir@) && holds_lock(triggers[i])
}

/// Whether the runner has the token of a lock exactly where it is a dream.
pub open spec fn holds_lock(t: TurnEndTrigger) -> bool {
    t.lock_token is Some <==> t.kind == RunnerKind::Dream
}

impl TurnEnd {
    /// The invariant of the evaluation.
    pub open spec fn wf(self) -> bool {
        &&& turn_evaluator::request_fault(self.request) is None
        &&& self.project_state_dir@ == path::parent(self.request.memory_dir@)
        &&& self.wants.dream == asks_for(self.request, RunnerKind::Dream)
        &&& self.wants.extract == asks_for(self.request, RunnerKind::Extract)
        &&& in_order(self.triggers@, self.request)
        &&& match self.stage {
            TurnEndStage::AskDream => self.wants.dream && self.triggers@.len() == 0
                && self.work is None,
            TurnEndStage::RegisterDream => {
                &&& self.wants.dream
                &&& self.triggers@.len() == 0
                &&& self.work matches Some(w)
                &&& w.trigger.kind == RunnerKind::Dream
                &&& holds_lock(w.trigger)
                &&& w.pending.prior_mtime_ms is Some
                &&& text::opt_view(w.trigger.runner_payload.memory_dir) == Some(
                    self.request.memory_dir@,
                )
            },
            TurnEndStage::AskExtract => {
                &&& self.wants.extract
                &&& self.triggers@.len() <= 1
                &&& self.triggers@.len() == 1 ==> self.triggers@[0].kind == RunnerKind::Dream
                &&& self.work is None
            },
            TurnEndStage::RegisterExtract => {
                &&& self.wants.extract
                &&& self.triggers@.len() <= 1
                &&& self.triggers@.len() == 1 ==> self.triggers@[0].kind == RunnerKind::Dream
                &&& self.work matches Some(w)
                &&& w.trigger.kind == RunnerKind::Extract
                &&& holds_lock(w.trigger)
                &&& w.pending.prior_mtime_ms is None
                &&& text::opt_view(w.trigger.runner_payload.memory_dir) == Some(
                    self.request.memory_dir@,
                )
            },
            TurnEndStage::Done => self.work is None,
        }
    }

    /// Whether both evaluate the same request.
    pub open spec fn same_turn(self, other: Self) -> bool {
        &&& self.request == other.request
        &&& self.project_state_dir == other.project_state_dir
        &&& self.wants == other.wants
    }

    fn stage_after_dream(&self) -> (r: TurnEndStage)
        requires
            self.wf(),
        ensures
            r == stage_after_dream(self.request),
    {
        if self.wants.extract {
            TurnEndStage::AskExtract
        } else {
            TurnEndStage::Done
        }
    }

    /// What the question whether a dream is due depends on.
    pub fn dream_flags(&self) -> (r: DreamGateFlags)
        ensures
            r.force == turn_evaluator::flag_or(self.request.feature_flags@, "force_dream"@, false),
            r.kairos_active == turn_evaluator::flag_or(
                self.request.feature_flags@,
                "KAIROS"@,
                false,
            ),
            r.remote_mode == turn_evaluator::flag_or(
                self.request.feature_flags@,
                "remote_mode"@,
                false,
            ),
            r.auto_memory_enabled == turn_evaluator::flag_or(
                self.request.feature_flags@,
                "auto_memory_enabled"@,
                true,
            ),
    {
        turn_evaluator::dream_gate_flags(&self.request.feature_flags)
    }

    /// What the question whether an extraction is due depends on.
    pub fn extract_flags(&self) -> (r: ExtractGateFlags)
        ensures
            r.enabled == turn_evaluator::flag_or(
                self.request.feature_flags@,
                "EXTRACT_MEMORIES"@,
                false,
            ),
            r.auto_memory_enabled == turn_evaluator::flag_or(
                self.request.feature_flags@,
                "auto_memory_enabled"@,
                true,
            ),
            r.remote_mode == turn_evaluator::flag_or(
                self.request.feature_flags@,
                "remote_mode"@,
                false,
            ),
            r.has_memory_writes_since_cursor == turn_evaluator::flag_or(
                self.request.feature_flags@,
                "memory_write_since_cursor"@,
                false,
            ),
    {
        turn_evaluator::extract_gate_flags(&self.request.feature_flags)
    }

    /// Takes the answer whether a dream is due: what was found where it is, `None` where it is not. A dream that
    /// is due is to be registered under `trigger_id`.
    pub fn dream_answered(&mut self, found: Option<DreamGateFindings>, trigger_id: &str)
        requires
            old(self).wf(),
            old(self).stage == TurnEndStage::AskDream,
            turn_evaluator::subject_fault(trigger_id@, RunnerKind::Dream) is None,
        ensures
            final(self).wf(),
            final(self).same_turn(*old(self)),
            final(self).triggers == old(self).triggers,
            match found {
                None => final(self).stage == stage_after_dream(old(self).request),
                Some(f) => {
                    &&& final(self).stage == TurnEndStage::RegisterDream
                    &&& is_dream_work(final(self).work->0, old(self).request, f, trigger_id@)
                    &&& turn_evaluator::work_fault(final(self).work->0) is None
                },
            },
    {
        match found {
            None => {
                self.stage = self.stage_after_dream();
            },
            Some(f) => {
                if let Ok(w) = turn_evaluator::dream_work(&self.request, f, trigger_id) {
                    self.work = Some(w);
                }
                self.stage = TurnEndStage::RegisterDream;
            },
        }
    }

    /// Takes the answer whether an extraction is due: what was found where it is, `None` where it is not. An
    /// extraction that is due is to be registered under `trigger_id`.
    pub fn extract_answered(&mut self, found: Option<ExtractFindings>, trigger_id: &str)
        requires
            old(self).wf(),
            old(self).stage == TurnEndStage::AskExtract,
            turn_evaluator::subject_fault(trigger_id@, RunnerKind::Extract) is None,
        ensures
            final(self).wf(),
            final(self).same_turn(*old(self)),
            final(self).triggers == old(self).triggers,
            match found {
                None => final(self).stage == TurnEndStage::Done,
                Some(f) => {
                    &&& final(self).stage == TurnEndStage::RegisterExtract
                    &&& is_extract_work(final(self).work->0, old(self).request, f, trigger_id@)
                    &&& turn_evaluator::work_fault(final(self).work->0)
                        == if f.last_assistant_uuid@ == old(self).request.last_assistant_uuid@ {
                        None
                    } else {
                        Some("extract assistant UUID does not match recovery locator"@)
                    }
                },
            },
    {
        match found {
            None => {
                self.stage = TurnEndStage::Done;
            },
            Some(f) => {
                if let Ok(w) = turn_evaluator::extract_work(&self.request, f, trigger_id) {
                    self.work = Some(w);
                }
                self.stage = TurnEndStage::RegisterExtract;
            },
        }
    }

    /// Notes that the runner was registered.
    pub fn registered(&mut self)
        requires
            old(self).wf(),
            old(self).work is Some,
        ensures
            final(self).wf(),
            final(self).same_turn(*old(self)),
            final(self).triggers@ == old(self).triggers@.push(old(self).work->0.trigger),
            final(self).work is None,
            final(self).stage == match old(self).stage {
                TurnEndStage::RegisterDream => stage_after_dream(old(self).request),
                _ => TurnEndStage::Done,
            },
    {
        let next = match self.stage {
            TurnEndStage::RegisterDream => self.stage_after_dream(),
            _ => TurnEndStage::Done,
        };
        let mut work: Option<DurableRunnerWork> = None;
        std::mem::swap(&mut work, &mut self.work);
        if let Some(w) = work {
            self.triggers.push(w.trigger);
        }
        self.stage = next;
    }

    /// What the lock is to be set back to where the runner could not be registered: a dream has taken the lock,
    /// an extraction has not.
    pub fn lock_to_restore(&self) -> (r: Option<u64>)
        requires
            self.wf(),
        ensures
            r == match self.stage {
                TurnEndStage::RegisterDream => self.work->0.pending.prior_mtime_ms,
                _ => None,
            },
            self.stage == TurnEndStage::RegisterDream ==> r is Some,
    {
        match self.stage {
            TurnEndStage::RegisterDream => match &self.work {
                Some(w) => w.pending.prior_mtime_ms,
                None => None,
            },
            _ => None,
        }
    }

    /// The runners of the turn, once nothing is left.
    pub fn finish(self) -> (r: TurnEndEvaluateResponse)
        requires
            self.wf(),
            self.stage == TurnEndStage::Done,
        ensures
            r.triggers == self.triggers,
            in_order(r.triggers@, self.request),
    {
        TurnEndEvaluateResponse { triggers: self.triggers }
    }
}

/// Starts the evaluation of a turn. A request at which anything is wrong is refused before anything is asked.
pub fn evaluate_turn_end(request: TurnEndEvaluateRequest) -> (r: Result<TurnEnd, InvalidRecovery>)
    ensures
        match turn_evaluator::request_fault(request) {
            Some(m) => r matches Err(e) && e.message@ == m,
            None => {
                &&& r matches Ok(t)
                &&& t.wf()
                &&& t.request == request
                &&& t.stage == first_stage(request)
                &&& t.triggers@.len() == 0
            },
        },
{
    let project_state_dir = match turn_evaluator::validate_evaluate_recovery_inputs(&request) {
        Ok(dir) => dir,
        Err(e) => {
            return Err(e);
        },
    };
    let wants = turn_evaluator::requested_kinds(&request.requested_kinds);
    let stage = if wants.dream {
        TurnEndStage::AskDream
    } else if wants.extract {
        TurnEndStage::AskExtract
    } else {
        TurnEndStage::Done
    };
    Ok(TurnEnd { request, project_state_dir, wants, stage, work: None, triggers: Vec::new() })
}

/// A turn starts at most one runner of each kind, none that was not asked for, and the dream first.
pub proof fn one_runner_of_each_kind(t: TurnEnd)
    requires
        t.wf(),
    ensures
        t.triggers@.len() <= 2,
        forall|i: int, j: int|
            0 <= i < j < t.triggers@.len() ==> (#[trigger] t.triggers@[i]).kind == RunnerKind::Dream
                && (#[trigger] t.triggers@[j]).kind == RunnerKind::Extract,
        forall|i: int|
            0 <= i < t.triggers@.len() ==> asks_for(t.request, (#[trigger] t.triggers@[i]).kind),
{
}

/// Of the runners of a turn the dream holds a lock, and the extraction does not.
pub proof fn only_dreams_hold_locks(t: TurnEnd, i: int)
    requires
        t.wf(),
        0 <= i < t.triggers@.len(),
    ensures
        t.triggers@[i].kind == RunnerKind::Dream ==> t.triggers@[i].lock_token is Some,
        t.triggers@[i].kind == RunnerKind::Extract ==> t.triggers@[i].lock_token is None,
{
    assert(holds_lock(t.triggers@[i]));
}

// ---------------------------------------------------------------------------
// What the end of a turn promises
// ---------------------------------------------------------------------------

/// A request that names no kind asks for both, and one that names kinds for these alone. The dream is asked about first,
/// the extraction behind it, and a turn always begins with a question.
pub proof fn turns_ask_for_what_is_named(q: TurnEndEvaluateRequest)
    ensures
        q.requested_kinds@.len() == 0 ==> first_stage(q) == TurnEndStage::AskDream
            && stage_after_dream(q) == TurnEndStage::AskExtract,
        first_stage(q) == TurnEndStage::AskDream <==> q.requested_kinds@.len() == 0
            || q.requested_kinds@.contains(RunnerKind::Dream),
        first_stage(q) == TurnEndStage::AskExtract <==> q.requested_kinds@.len() > 0
            && !q.requested_kinds@.contains(RunnerKind::Dream),
        first_stage(q) != TurnEndStage::Done,
        stage_after_dream(q) == TurnEndStage::AskExtract <==> q.requested_kinds@.len() == 0
            || q.requested_kinds@.contains(RunnerKind::Extract),
        stage_after_dream(q) == TurnEndStage::Done <==> q.requested_kinds@.len() > 0
            && !q.requested_kinds@.contains(RunnerKind::Extract),
{
    let kinds = q.requested_kinds@;
    if kinds.len() > 0 && !kinds.contains(RunnerKind::Dream) {
        assert(kinds.contains(kinds[0]));
        assert(kinds[0] == RunnerKind::Extract);
    }
}

/// The runner of a dream holds the lock that the tier gate took, is told what the tier gate found, and can be given up: what
/// is awaited of it names the same lock and the time that the lock is set back to.
pub proof fn dreams_carry_their_lock(
    w: DurableRunnerWork,
    q: TurnEndEvaluateRequest,
    f: DreamGateFindings,
    trigger_id: Seq<char>,
)
    requires
        is_dream_work(w, q, f, trigger_id),
    ensures
        w.trigger.kind == RunnerKind::Dream,
        w.trigger.trigger_id@ == trigger_id,
        w.pending.trigger_id@ == trigger_id,
        w.recovery.trigger_id@ == trigger_id,
        w.recovery.kind == RunnerKind::Dream,
        w.pending.kind@ == "dream"@,
        w.trigger.lock_token matches Some(token) && token@ == f.lock_token@,
        w.pending.lock_token matches Some(token) && token@ == f.lock_token@,
        w.pending.prior_mtime_ms == Some(f.prior_mtime_ms),
        w.pending.registered_at_ms == q.now_ms,
        w.pending.session_id@ == q.session_id@,
        w.recovery.session_id@ == q.session_id@,
        w.recovery.current_session_id@ == q.current_session_id@,
        w.recovery.context_leaf_uuid@ == q.last_assistant_uuid@,
        w.recovery.project_cwd@ == q.project_cwd@,
        w.recovery.transcript_path@ == q.transcript_path@,
        w.recovery.memory_dir@ == q.memory_dir@,
        w.pending.memory_dir@ == q.memory_dir@,
        w.trigger.runner_payload.memory_dir matches Some(dir) && dir@ == q.memory_dir@,
        w.trigger.runner_payload.project_state_dir matches Some(dir) && dir@
            == w.recovery.project_state_dir@,
        w.trigger.runner_payload.transcript_dir matches Some(dir) && dir@
            == w.recovery.project_state_dir@,
        w.pending.project_state_dir@ == w.recovery.project_state_dir@,
        w.recovery.project_state_dir@ == path::parent(q.memory_dir@),
        w.pending.extract_last_assistant_uuid is None,
        w.trigger.runner_payload.force is None,
        w.trigger.runner_payload.details matches turn_evaluator::RunnerDetails::Dream {
            session_ids,
            sessions_since_last_consolidation,
            last_consolidated_at_ms,
            hours_since_last_consolidation,
            prior_mtime_ms,
            min_hours,
            min_sessions,
        } && session_ids@ == f.session_ids@ && sessions_since_last_consolidation
            == f.sessions_since_last_consolidation && last_consolidated_at_ms
            == f.last_consolidated_at_ms && hours_since_last_consolidation
            == f.hours_since_last_consolidation && prior_mtime_ms == f.prior_mtime_ms && min_hours
            == f.min_hours && min_sessions == f.min_sessions,
{
    assert(w.recovery@.trigger_id == trigger_id);
}

/// The runner of an extraction holds no lock, and is told and awaited up to the message that was found, with the counts of
/// that message.
pub proof fn extractions_carry_their_message(
    w: DurableRunnerWork,
    q: TurnEndEvaluateRequest,
    f: ExtractFindings,
    trigger_id: Seq<char>,
)
    requires
        is_extract_work(w, q, f, trigger_id),
    ensures
        w.trigger.kind == RunnerKind::Extract,
        w.trigger.trigger_id@ == trigger_id,
        w.pending.trigger_id@ == trigger_id,
        w.recovery.trigger_id@ == trigger_id,
        w.recovery.kind == RunnerKind::Extract,
        w.pending.kind@ == "extract"@,
        w.trigger.lock_token is None,
        w.pending.lock_token is None,
        w.pending.prior_mtime_ms is None,
        w.pending.registered_at_ms == q.now_ms,
        w.pending.session_id@ == q.session_id@,
        w.recovery.session_id@ == q.session_id@,
        w.recovery.context_leaf_uuid@ == q.last_assistant_uuid@,
        w.recovery.memory_dir@ == q.memory_dir@,
        w.pending.memory_dir@ == q.memory_dir@,
        w.pending.project_state_dir@ == path::parent(q.memory_dir@),
        w.recovery.project_state_dir@ == path::parent(q.memory_dir@),
        w.trigger.runner_payload.memory_dir matches Some(dir) && dir@ == q.memory_dir@,
        w.trigger.runner_payload.last_assistant_uuid matches Some(id) && id@
            == f.last_assistant_uuid@,
        w.pending.extract_last_assistant_uuid matches Some(id) && id@ == f.last_assistant_uuid@,
        w.pending.extract_total_model_visible == f.total_model_visible,
        w.trigger.runner_payload.force is None,
        w.trigger.runner_payload.details matches turn_evaluator::RunnerDetails::Extract {
            team_memory_dir,
            previous_cursor_uuid,
            new_message_count,
            team_memory_enabled,
            skip_index,
        } && text::opt_view(team_memory_dir) == text::opt_view(q.team_memory_dir)
            && previous_cursor_uuid == f.previous_cursor_uuid && new_message_count
            == f.new_message_count && (team_memory_enabled <==> (q.feature_flags@.contains_key(
            "team_memory_enabled"@,
        ) && q.feature_flags@["team_memory_enabled"@])) && (skip_index <==> (
        q.feature_flags@.contains_key("skip_index"@) && q.feature_flags@["skip_index"@])),
{
    assert(w.recovery@.trigger_id == trigger_id);
}

/// A turn under evaluation belongs to a sound request and to the directory that its memory stands in. What it wants is what
/// the request names, and every runner it has started works on the memory of the request.
pub proof fn turns_keep_to_their_request(t: TurnEnd)
    requires
        t.wf(),
    ensures
        turn_evaluator::request_fault(t.request) is None,
        t.project_state_dir@ == path::parent(t.request.memory_dir@),
        t.wants.dream <==> t.request.requested_kinds@.len() == 0
            || t.request.requested_kinds@.contains(RunnerKind::Dream),
        t.wants.extract <==> t.request.requested_kinds@.len() == 0
            || t.request.requested_kinds@.contains(RunnerKind::Extract),
        forall|i: int|
            0 <= i < t.triggers@.len() ==> {
                &&& (#[trigger] t.triggers@[i]).runner_payload.memory_dir is Some
                &&& t.triggers@[i].runner_payload.memory_dir->0@ == t.request.memory_dir@
                &&& (t.triggers@[i].lock_token is Some <==> t.triggers@[i].kind == RunnerKind::Dream)
                &&& (t.triggers@[i].kind == RunnerKind::Dream ==> t.wants.dream)
                &&& (t.triggers@[i].kind == RunnerKind::Extract ==> t.wants.extract)
            },
{
}

/// While a runner is to be registered it is there, of the kind that was asked about, and works on the memory of the request;
/// at any other time there is none. A dream is asked about only before anything was started, an extraction only behind a
/// dream at most.
pub proof fn runners_wait_to_be_registered(t: TurnEnd)
    requires
        t.wf(),
    ensures
        t.work is Some <==> t.stage == TurnEndStage::RegisterDream || t.stage
            == TurnEndStage::RegisterExtract,
        t.stage == TurnEndStage::RegisterDream ==> t.work->0.trigger.kind == RunnerKind::Dream
            && t.work->0.trigger.lock_token is Some && t.work->0.pending.prior_mtime_ms is Some,
        t.stage == TurnEndStage::RegisterExtract ==> t.work->0.trigger.kind == RunnerKind::Extract
            && t.work->0.trigger.lock_token is None && t.work->0.pending.prior_mtime_ms is None,
        t.work matches Some(w) ==> w.trigger.runner_payload.memory_dir matches Some(dir) && dir@
            == t.request.memory_dir@,
        t.stage == TurnEndStage::AskDream || t.stage == TurnEndStage::RegisterDream
            ==> t.triggers@.len() == 0 && t.wants.dream,
        t.stage == TurnEndStage::AskExtract || t.stage == TurnEndStage::RegisterExtract
            ==> t.triggers@.len() <= 1 && t.wants.extract && forall|i: int|
            0 <= i < t.triggers@.len() ==> (#[trigger] t.triggers@[i]).kind == RunnerKind::Dream,
{
}

/// A step in the evaluation of a turn changes neither the request nor what follows from it.
pub proof fn steps_stay_with_their_turn(a: TurnEnd, b: TurnEnd)
    requires
        a.same_turn(b),
    ensures
        a.request == b.request,
        a.project_state_dir == b.project_state_dir,
        a.wants == b.wants,
{
}

} // verus!
