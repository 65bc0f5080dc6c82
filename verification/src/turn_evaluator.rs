//! What runs when a turn ends: which runners are asked for, what each is given, and what is kept so that one
//! can be taken up again after a restart.

use vstd::prelude::*;
use vstd::string::StringExecFns;
use crate::path;
use crate::table::Table;
use crate::text;
use crate::uuid_text;
use crate::uuid_text::UuidFault;

verus! {

/// The version of what is kept for a restart.
pub const RUNNER_RECOVERY_SCHEMA_VERSION: u64 = 1;

pub const HOUR_MS: u64 = 3_600_000;

/// What a runner does.
#[derive(Debug, Clone, Copy, PartialEq, Eq, Structural)]
pub enum RunnerKind {
    Dream,
    Extract,
}

/// The name of a kind.
pub open spec fn kind_name(kind: RunnerKind) -> Seq<char> {
    match kind {
        RunnerKind::Dream => "dream"@,
        RunnerKind::Extract => "extract"@,
    }
}

impl RunnerKind {
    /// See [`kind_name`].
    pub fn as_str(self) -> (r: &'static str)
        ensures
            r@ == kind_name(self),
    {
        match self {
            RunnerKind::Dream => "dream",
            RunnerKind::Extract => "extract",
        }
    }
}

/// What a runner is told besides paths.
#[derive(Debug, Clone)]
pub enum RunnerDetails {
    Dream {
        session_ids: Vec<String>,
        sessions_since_last_consolidation: usize,
        last_consolidated_at_ms: u64,
        hours_since_last_consolidation: u64,
        prior_mtime_ms: u64,
        min_hours: u64,
        min_sessions: u64,
    },
    Extract {
        team_memory_dir: Option<String>,
        previous_cursor_uuid: Option<String>,
        new_message_count: u64,
        team_memory_enabled: bool,
        skip_index: bool,
    },
}

/// What a runner is told. A text that is absent was not told, or was no text.
#[derive(Debug, Clone)]
pub struct RunnerPayload {
    pub memory_dir: Option<String>,
    pub project_state_dir: Option<String>,
    pub transcript_dir: Option<String>,
    pub last_assistant_uuid: Option<String>,
    pub details: RunnerDetails,
    pub force: Option<bool>,
}

/// A runner to be started.
#[derive(Debug, Clone)]
pub struct TurnEndTrigger {
    pub trigger_id: String,
    pub kind: RunnerKind,
    pub lock_token: Option<String>,
    pub runner_payload: RunnerPayload,
}

/// A runner whose completion is awaited.
#[derive(Debug, Clone)]
pub struct PendingRunner {
    pub trigger_id: String,
    pub kind: String,
    pub session_id: String,
    pub memory_dir: String,
    pub project_state_dir: String,
    pub lock_token: Option<String>,
    pub prior_mtime_ms: Option<u64>,
    pub extract_last_assistant_uuid: Option<String>,
    pub extract_total_model_visible: Option<u64>,
    pub registered_at_ms: u64,
}

/// A turn that has ended.
pub struct TurnEndEvaluateRequest {
    pub recovery_schema_version: u64,
    pub session_id: String,
    pub current_session_id: String,
    pub last_assistant_uuid: String,
    pub project_cwd: String,
    pub transcript_path: String,
    pub memory_dir: String,
    pub team_memory_dir: Option<String>,
    pub message_counts: Table<u64>,
    pub feature_flags: Table<bool>,
    pub requested_kinds: Vec<RunnerKind>,
    pub now_ms: u64,
}

#[derive(Debug, Clone)]
pub struct TurnEndEvaluateResponse {
    pub triggers: Vec<TurnEndTrigger>,
}

/// A dream that the user asks for.
#[derive(Debug, Clone)]
pub struct DreamRunNowRequest {
    pub session_id: String,
    pub current_session_id: String,
    pub memory_dir: String,
    pub now_ms: u64,
}

/// An extraction that the user asks for.
pub struct ExtractRunNowRequest {
    pub session_id: String,
    pub last_assistant_uuid: String,
    pub memory_dir: String,
    pub team_memory_dir: Option<String>,
    pub message_counts: Table<u64>,
    pub now_ms: u64,
}

/// What came of a request of the user: a runner, or why there is none.
#[derive(Debug, Clone)]
pub struct RunNowResponse {
    pub triggers: Vec<TurnEndTrigger>,
    pub gate_skip_reason: Option<String>,
}

/// What is wrong with something that is kept for a restart.
#[derive(Debug, Clone)]
pub struct InvalidRecovery {
    pub message: String,
}

/// Whether the outcome of a validation is the given one.
pub open spec fn found(r: Result<(), InvalidRecovery>, fault: Option<Seq<char>>) -> bool {
    match fault {
        Some(m) => r matches Err(e) && e.message@ == m,
        None => r is Ok,
    }
}

fn verdict(fault: Option<String>) -> (r: Result<(), InvalidRecovery>)
    ensures
        found(r, text::opt_view(fault)),
{
    match fault {
        Some(message) => Err(InvalidRecovery { message }),
        None => Ok(()),
    }
}

// ---------------------------------------------------------------------------
// Validation of single values
// ---------------------------------------------------------------------------

/// The first fault, or else the second.
pub open spec fn first_of(a: Option<Seq<char>>, b: Option<Seq<char>>) -> Option<Seq<char>> {
    if a is Some {
        a
    } else {
        b
    }
}

/// What is wrong with a version.
pub open spec fn version_fault(version: u64) -> Option<Seq<char>> {
    if version == RUNNER_RECOVERY_SCHEMA_VERSION {
        None
    } else {
        Some("unsupported runner recovery_schema_version "@ + text::decimal(version as nat))
    }
}

fn check_version(version: u64) -> (r: Option<String>)
    ensures
        text::opt_view(r) == version_fault(version),
{
    if version == RUNNER_RECOVERY_SCHEMA_VERSION {
        None
    } else {
        let mut m = "unsupported runner recovery_schema_version ".to_owned();
        let n = text::decimal_of(version);
        m.append(n.as_str());
        Some(m)
    }
}

/// What is wrong with a text that should be a canonical UUID.
pub open spec fn id_fault(label: Seq<char>, raw: Seq<char>) -> Option<Seq<char>> {
    match uuid_text::uuid_fault(raw) {
        Some(UuidFault::NotAUuid) => Some(label + " must be a UUID"@),
        Some(UuidFault::NotCanonical) => Some(
            label + " must use canonical lowercase hyphenated UUID form"@,
        ),
        None => None,
    }
}

/// See [`id_fault`].
pub fn validate_canonical_uuid(label: &str, raw: &str) -> (r: Option<String>)
    ensures
        text::opt_view(r) == id_fault(label@, raw@),
{
    match uuid_text::fault_of(raw) {
        Some(UuidFault::NotAUuid) => {
            let mut m = label.to_owned();
            m.append(" must be a UUID");
            Some(m)
        },
        Some(UuidFault::NotCanonical) => {
            let mut m = label.to_owned();
            m.append(" must use canonical lowercase hyphenated UUID form");
            Some(m)
        },
        None => None,
    }
}

/// What is wrong with a path that should be absolute and lead nowhere back.
pub open spec fn path_fault(label: Seq<char>, p: Seq<char>) -> Option<Seq<char>> {
    if !path::is_absolute(p) {
        Some(label + " must be absolute"@)
    } else if p.contains('\0') || path::components(p).len() < 2 {
        Some(label + " must not be empty, root-only, or contain NUL"@)
    } else if path::components(p).contains(".."@) {
        Some(label + " must not contain '.' or '..' components"@)
    } else {
        None
    }
}

fn holds_nul(p: &str) -> (r: bool)
    ensures
        r == p@.contains('\0'),
{
    let v = text::chars_of(p);
    let mut i: usize = 0;
    while i < v.len()
        invariant
            i <= v@.len(),
            v@ == p@,
            forall|k: int| 0 <= k < i ==> v@[k] != '\0',
        decreases v@.len() - i,
    {
        if v[i] == '\0' {
            assert(p@[i as int] == '\0');
            return true;
        }
        i = i + 1;
    }
    false
}

fn leads_back(cs: &Vec<String>) -> (r: bool)
    ensures
        r == text::views(cs@).contains(".."@),
{
    let ghost all = text::views(cs@);
    let mut i: usize = 0;
    while i < cs.len()
        invariant
            i <= cs@.len(),
            all == text::views(cs@),
            forall|k: int| 0 <= k < i ==> all[k] != ".."@,
        decreases cs@.len() - i,
    {
        assert(all[i as int] == cs@[i as int]@);
        if text::same(cs[i].as_str(), "..") {
            assert(all.contains(all[i as int]));
            return true;
        }
        i = i + 1;
    }
    false
}

/// See [`path_fault`].
pub fn validate_absolute_clean_path(label: &str, p: &str) -> (r: Option<String>)
    ensures
        text::opt_view(r) == path_fault(label@, p@),
{
    let mut m = label.to_owned();
    if !path::starts_at_root(p) {
        m.append(" must be absolute");
        return Some(m);
    }
    let cs = path::components_of(p);
    assert(text::views(cs@).len() == cs@.len());
    if holds_nul(p) || cs.len() < 2 {
        m.append(" must not be empty, root-only, or contain NUL");
        return Some(m);
    }
    if leads_back(&cs) {
        m.append(" must not contain '.' or '..' components");
        return Some(m);
    }
    None
}

/// What is wrong with the identifier of a runner: its kind, a colon and a canonical UUID.
pub open spec fn subject_fault(trigger_id: Seq<char>, kind: RunnerKind) -> Option<Seq<char>> {
    match text::strip_prefix(trigger_id, kind_name(kind) + ":"@) {
        Some(raw) => id_fault("trigger_id UUID"@, raw),
        None => Some("trigger_id kind prefix mismatch"@),
    }
}

/// See [`subject_fault`].
pub fn validate_trigger_subject(trigger_id: &str, kind: RunnerKind) -> (r: Option<String>)
    ensures
        text::opt_view(r) == subject_fault(trigger_id@, kind),
{
    let mut prefix = kind.as_str().to_owned();
    prefix.append(":");
    match text::without_prefix(trigger_id, prefix.as_str()) {
        Some(raw) => validate_canonical_uuid("trigger_id UUID", raw.as_str()),
        None => Some("trigger_id kind prefix mismatch".to_owned()),
    }
}

/// What is wrong with the name of a transcript.
pub open spec fn transcript_fault(transcript_path: Seq<char>, session_id: Seq<char>) -> Option<
    Seq<char>,
> {
    if path::last_component(transcript_path) == Some(session_id + ".jsonl"@) {
        None
    } else {
        Some("transcript_path filename must match session_id"@)
    }
}

fn check_transcript(transcript_path: &str, session_id: &str) -> (r: Option<String>)
    ensures
        text::opt_view(r) == transcript_fault(transcript_path@, session_id@),
{
    let mut name = session_id.to_owned();
    name.append(".jsonl");
    let cs = path::components_of(transcript_path);
    let ghost all = text::views(cs@);
    assert(all.len() == cs@.len());
    let n: usize = cs.len();
    if n != 0 {
        assert(all.last() == cs@[n - 1]@);
        if text::same(cs[n - 1].as_str(), name.as_str()) {
            return None;
        }
    }
    Some("transcript_path filename must match session_id".to_owned())
}

/// What is wrong with a path that a runner was told.
pub open spec fn told_path_fault(
    told: Option<Seq<char>>,
    key: Seq<char>,
    expected: Seq<char>,
) -> Option<Seq<char>> {
    match told {
        None => Some("runner payload is missing "@ + key),
        Some(raw) => if path::same_path(raw, expected) {
            None
        } else {
            Some("runner payload "@ + key + " does not match recovery locator"@)
        },
    }
}

/// See [`told_path_fault`].
pub fn require_payload_path(told: &Option<String>, key: &str, expected: &str) -> (r: Option<String>)
    ensures
        text::opt_view(r) == told_path_fault(text::opt_view(*told), key@, expected@),
{
    match told {
        None => {
            let mut m = "runner payload is missing ".to_owned();
            m.append(key);
            Some(m)
        },
        Some(raw) => if path::same(raw.as_str(), expected) {
            None
        } else {
            let mut m = "runner payload ".to_owned();
            m.append(key);
            m.append(" does not match recovery locator");
            Some(m)
        },
    }
}

// ---------------------------------------------------------------------------
// The locator
// ---------------------------------------------------------------------------

/// Where a runner is found again after a restart.
#[derive(Debug, Clone)]
pub struct RunnerRecoveryLocator {
    pub recovery_schema_version: u64,
    pub trigger_id: String,
    pub kind: RunnerKind,
    pub session_id: String,
    pub current_session_id: String,
    pub context_leaf_uuid: String,
    pub project_cwd: String,
    pub transcript_path: String,
    pub memory_dir: String,
    pub project_state_dir: String,
}

pub struct LocatorView {
    pub recovery_schema_version: u64,
    pub trigger_id: Seq<char>,
    pub kind: RunnerKind,
    pub session_id: Seq<char>,
    pub current_session_id: Seq<char>,
    pub context_leaf_uuid: Seq<char>,
    pub project_cwd: Seq<char>,
    pub transcript_path: Seq<char>,
    pub memory_dir: Seq<char>,
    pub project_state_dir: Seq<char>,
}

impl View for RunnerRecoveryLocator {
    type V = LocatorView;

    open spec fn view(&self) -> LocatorView {
        LocatorView {
            recovery_schema_version: self.recovery_schema_version,
            trigger_id: self.trigger_id@,
            kind: self.kind,
            session_id: self.session_id@,
            current_session_id: self.current_session_id@,
            context_leaf_uuid: self.context_leaf_uuid@,
            project_cwd: self.project_cwd@,
            transcript_path: self.transcript_path@,
            memory_dir: self.memory_dir@,
            project_state_dir: self.project_state_dir@,
        }
    }
}

/// The first thing that is wrong with a locator.
pub open spec fn locator_fault(l: LocatorView) -> Option<Seq<char>> {
    let ids = first_of(
        version_fault(l.recovery_schema_version),
        first_of(
            subject_fault(l.trigger_id, l.kind),
            first_of(
                id_fault("session_id"@, l.session_id),
                first_of(
                    id_fault("current_session_id"@, l.current_session_id),
                    id_fault("context_leaf_uuid"@, l.context_leaf_uuid),
                ),
            ),
        ),
    );
    let paths = first_of(
        path_fault("project_cwd"@, l.project_cwd),
        first_of(
            path_fault("transcript_path"@, l.transcript_path),
            first_of(
                path_fault("memory_dir"@, l.memory_dir),
                path_fault("project_state_dir"@, l.project_state_dir),
            ),
        ),
    );
    let relations = if !path::same_path(path::parent(l.memory_dir), l.project_state_dir) {
        Some("project_state_dir must be the direct parent of memory_dir"@)
    } else {
        transcript_fault(l.transcript_path, l.session_id)
    };
    first_of(ids, first_of(paths, relations))
}

impl RunnerRecoveryLocator {
    fn id_faults(&self) -> (r: Option<String>)
        ensures
            text::opt_view(r) == first_of(
                version_fault(self.recovery_schema_version),
                first_of(
                    subject_fault(self.trigger_id@, self.kind),
                    first_of(
                        id_fault("session_id"@, self.session_id@),
                        first_of(
                            id_fault("current_session_id"@, self.current_session_id@),
                            id_fault("context_leaf_uuid"@, self.context_leaf_uuid@),
                        ),
                    ),
                ),
            ),
    {
        let version = check_version(self.recovery_schema_version);
        if version.is_some() {
            return version;
        }
        let subject = validate_trigger_subject(self.trigger_id.as_str(), self.kind);
        if subject.is_some() {
            return subject;
        }
        let session = validate_canonical_uuid("session_id", self.session_id.as_str());
        if session.is_some() {
            return session;
        }
        let current = validate_canonical_uuid(
            "current_session_id",
            self.current_session_id.as_str(),
        );
        if current.is_some() {
            return current;
        }
        validate_canonical_uuid("context_leaf_uuid", self.context_leaf_uuid.as_str())
    }

    fn path_faults(&self) -> (r: Option<String>)
        ensures
            text::opt_view(r) == first_of(
                path_fault("project_cwd"@, self.project_cwd@),
                first_of(
                    path_fault("transcript_path"@, self.transcript_path@),
                    first_of(
                        path_fault("memory_dir"@, self.memory_dir@),
                        path_fault("project_state_dir"@, self.project_state_dir@),
                    ),
                ),
            ),
    {
        let cwd = validate_absolute_clean_path("project_cwd", self.project_cwd.as_str());
        if cwd.is_some() {
            return cwd;
        }
        let transcript = validate_absolute_clean_path(
            "transcript_path",
            self.transcript_path.as_str(),
        );
        if transcript.is_some() {
            return transcript;
        }
        let memory = validate_absolute_clean_path("memory_dir", self.memory_dir.as_str());
        if memory.is_some() {
            return memory;
        }
        validate_absolute_clean_path("project_state_dir", self.project_state_dir.as_str())
    }

    fn fault(&self) -> (r: Option<String>)
        ensures
            text::opt_view(r) == locator_fault(self@),
    {
        let ids = self.id_faults();
        if ids.is_some() {
            return ids;
        }
        let paths = self.path_faults();
        if paths.is_some() {
            return paths;
        }
        let parent = path::parent_of(self.memory_dir.as_str());
        if !path::same(parent.as_str(), self.project_state_dir.as_str()) {
            return Some(
                "project_state_dir must be the direct parent of memory_dir".to_owned(),
            );
        }
        check_transcript(self.transcript_path.as_str(), self.session_id.as_str())
    }

    /// Checks the locator: the first thing that is wrong with it, if any. See [`locator_fault`].
    pub fn validate(&self) -> (r: Result<(), InvalidRecovery>)
        ensures
            found(r, locator_fault(self@)),
    {
        verdict(self.fault())
    }
}

// ---------------------------------------------------------------------------
// What is kept of a runner
// ---------------------------------------------------------------------------

/// A runner as it is kept for a restart.
#[derive(Debug, Clone)]
pub struct DurableRunnerWork {
    pub recovery: RunnerRecoveryLocator,
    pub trigger: TurnEndTrigger,
    pub pending: PendingRunner,
}

/// What is wrong between the parts of what is kept.
pub open spec fn mismatch_fault(w: DurableRunnerWork) -> Option<Seq<char>> {
    if w.recovery.trigger_id@ != w.trigger.trigger_id@ || w.recovery.kind != w.trigger.kind {
        Some("recovery locator subject does not match durable trigger"@)
    } else if w.pending.trigger_id@ != w.trigger.trigger_id@ {
        Some("pending trigger_id does not match durable trigger"@)
    } else if w.pending.kind@ != kind_name(w.trigger.kind) {
        Some("pending runner kind does not match durable trigger"@)
    } else if w.pending.session_id@ != w.recovery.session_id@ {
        Some("pending session_id does not match recovery locator"@)
    } else if !path::same_path(w.pending.memory_dir@, w.recovery.memory_dir@) || !path::same_path(
        w.pending.project_state_dir@,
        w.recovery.project_state_dir@,
    ) {
        Some("pending paths do not match recovery locator"@)
    } else {
        None
    }
}

/// What is wrong with what a runner was told.
pub open spec fn told_fault(w: DurableRunnerWork) -> Option<Seq<char>> {
    let p = w.trigger.runner_payload;
    let memory = told_path_fault(
        text::opt_view(p.memory_dir),
        "memory_dir"@,
        w.recovery.memory_dir@,
    );
    let rest = match w.trigger.kind {
        RunnerKind::Dream => first_of(
            told_path_fault(
                text::opt_view(p.project_state_dir),
                "project_state_dir"@,
                w.recovery.project_state_dir@,
            ),
            first_of(
                told_path_fault(
                    text::opt_view(p.transcript_dir),
                    "transcript_dir"@,
                    w.recovery.project_state_dir@,
                ),
                if w.pending.extract_last_assistant_uuid is Some {
                    Some("dream pending state must not contain extract cursor identity"@)
                } else {
                    None
                },
            ),
        ),
        RunnerKind::Extract => match text::opt_view(p.last_assistant_uuid) {
            None => Some("extract runner payload is missing last_assistant_uuid"@),
            Some(id) => if id != w.recovery.context_leaf_uuid@ || text::opt_view(
                w.pending.extract_last_assistant_uuid,
            ) != Some(w.recovery.context_leaf_uuid@) {
                Some("extract assistant UUID does not match recovery locator"@)
            } else {
                None
            },
        },
    };
    first_of(memory, rest)
}

/// The first thing that is wrong with what is kept of a runner.
pub open spec fn work_fault(w: DurableRunnerWork) -> Option<Seq<char>> {
    first_of(
        locator_fault(w.recovery@),
        first_of(
            subject_fault(w.trigger.trigger_id@, w.trigger.kind),
            first_of(mismatch_fault(w), told_fault(w)),
        ),
    )
}

impl DurableRunnerWork {
    fn mismatch(&self) -> (r: Option<String>)
        ensures
            text::opt_view(r) == mismatch_fault(*self),
    {
        if !text::same(self.recovery.trigger_id.as_str(), self.trigger.trigger_id.as_str())
            || self.recovery.kind != self.trigger.kind {
            return Some("recovery locator subject does not match durable trigger".to_owned());
        }
        if !text::same(self.pending.trigger_id.as_str(), self.trigger.trigger_id.as_str()) {
            return Some("pending trigger_id does not match durable trigger".to_owned());
        }
        if !text::same(self.pending.kind.as_str(), self.trigger.kind.as_str()) {
            return Some("pending runner kind does not match durable trigger".to_owned());
        }
        if !text::same(self.pending.session_id.as_str(), self.recovery.session_id.as_str()) {
            return Some("pending session_id does not match recovery locator".to_owned());
        }
        if !path::same(self.pending.memory_dir.as_str(), self.recovery.memory_dir.as_str())
            || !path::same(
            self.pending.project_state_dir.as_str(),
            self.recovery.project_state_dir.as_str(),
        ) {
            return Some("pending paths do not match recovery locator".to_owned());
        }
        None
    }

    fn told(&self) -> (r: Option<String>)
        ensures
            text::opt_view(r) == told_fault(*self),
    {
        let p = &self.trigger.runner_payload;
        let memory = require_payload_path(
            &p.memory_dir,
            "memory_dir",
            self.recovery.memory_dir.as_str(),
        );
        if memory.is_some() {
            return memory;
        }
        match self.trigger.kind {
            RunnerKind::Dream => {
                let state = require_payload_path(
                    &p.project_state_dir,
                    "project_state_dir",
                    self.recovery.project_state_dir.as_str(),
                );
                if state.is_some() {
                    return state;
                }
                let transcripts = require_payload_path(
                    &p.transcript_dir,
                    "transcript_dir",
                    self.recovery.project_state_dir.as_str(),
                );
                if transcripts.is_some() {
                    return transcripts;
                }
                if self.pending.extract_last_assistant_uuid.is_some() {
                    Some(
                        "dream pending state must not contain extract cursor identity".to_owned(),
                    )
                } else {
                    None
                }
            },
            RunnerKind::Extract => {
                let leaf = self.recovery.context_leaf_uuid.as_str();
                match &p.last_assistant_uuid {
                    None => Some(
                        "extract runner payload is missing last_assistant_uuid".to_owned(),
                    ),
                    Some(id) => {
                        let same_pending = match &self.pending.extract_last_assistant_uuid {
                            Some(own) => text::same(own.as_str(), leaf),
                            None => false,
                        };
                        if !text::same(id.as_str(), leaf) || !same_pending {
                            Some(
                                "extract assistant UUID does not match recovery locator".to_owned(),
                            )
                        } else {
                            None
                        }
                    },
                }
            },
        }
    }

    /// Checks what is kept of a runner: the first thing that is wrong with it, if any. See [`work_fault`].
    pub fn validate(&self) -> (r: Result<(), InvalidRecovery>)
        ensures
            found(r, work_fault(*self)),
    {
        let locator = self.recovery.fault();
        if locator.is_some() {
            return verdict(locator);
        }
        let subject = validate_trigger_subject(
            self.trigger.trigger_id.as_str(),
            self.trigger.kind,
        );
        if subject.is_some() {
            return verdict(subject);
        }
        let mismatch = self.mismatch();
        if mismatch.is_some() {
            return verdict(mismatch);
        }
        verdict(self.told())
    }
}

// ---------------------------------------------------------------------------
// The request
// ---------------------------------------------------------------------------

/// The first thing that is wrong with a request.
pub open spec fn request_fault(q: TurnEndEvaluateRequest) -> Option<Seq<char>> {
    let ids = first_of(
        version_fault(q.recovery_schema_version),
        first_of(
            id_fault("session_id"@, q.session_id@),
            first_of(
                id_fault("current_session_id"@, q.current_session_id@),
                id_fault("last_assistant_uuid"@, q.last_assistant_uuid@),
            ),
        ),
    );
    let paths = first_of(
        path_fault("project_cwd"@, q.project_cwd@),
        first_of(
            path_fault("transcript_path"@, q.transcript_path@),
            first_of(
                path_fault("memory_dir"@, q.memory_dir@),
                match q.team_memory_dir {
                    Some(dir) => path_fault("team_memory_dir"@, dir@),
                    None => None,
                },
            ),
        ),
    );
    let relations = first_of(
        transcript_fault(q.transcript_path@, q.session_id@),
        path_fault("project_state_dir"@, path::parent(q.memory_dir@)),
    );
    first_of(ids, first_of(paths, relations))
}

fn request_id_faults(q: &TurnEndEvaluateRequest) -> (r: Option<String>)
    ensures
        text::opt_view(r) == first_of(
            version_fault(q.recovery_schema_version),
            first_of(
                id_fault("session_id"@, q.session_id@),
                first_of(
                    id_fault("current_session_id"@, q.current_session_id@),
                    id_fault("last_assistant_uuid"@, q.last_assistant_uuid@),
                ),
            ),
        ),
{
    let version = check_version(q.recovery_schema_version);
    if version.is_some() {
        return version;
    }
    let session = validate_canonical_uuid("session_id", q.session_id.as_str());
    if session.is_some() {
        return session;
    }
    let current = validate_canonical_uuid("current_session_id", q.current_session_id.as_str());
    if current.is_some() {
        return current;
    }
    validate_canonical_uuid("last_assistant_uuid", q.last_assistant_uuid.as_str())
}

fn request_path_faults(q: &TurnEndEvaluateRequest) -> (r: Option<String>)
    ensures
        text::opt_view(r) == first_of(
            path_fault("project_cwd"@, q.project_cwd@),
            first_of(
                path_fault("transcript_path"@, q.transcript_path@),
                first_of(
                    path_fault("memory_dir"@, q.memory_dir@),
                    match q.team_memory_dir {
                        Some(dir) => path_fault("team_memory_dir"@, dir@),
                        None => None,
                    },
                ),
            ),
        ),
{
    let cwd = validate_absolute_clean_path("project_cwd", q.project_cwd.as_str());
    if cwd.is_some() {
        return cwd;
    }
    let transcript = validate_absolute_clean_path("transcript_path", q.transcript_path.as_str());
    if transcript.is_some() {
        return transcript;
    }
    let memory = validate_absolute_clean_path("memory_dir", q.memory_dir.as_str());
    if memory.is_some() {
        return memory;
    }
    match &q.team_memory_dir {
        Some(dir) => validate_absolute_clean_path("team_memory_dir", dir.as_str()),
        None => None,
    }
}

/// Checks a request and returns the directory that its memory directory stands in. See [`request_fault`].
pub fn validate_evaluate_recovery_inputs(q: &TurnEndEvaluateRequest) -> (r: Result<
    String,
    InvalidRecovery,
>)
    ensures
        match request_fault(*q) {
            Some(m) => r matches Err(e) && e.message@ == m,
            None => r matches Ok(dir) && dir@ == path::parent(q.memory_dir@),
        },
{
    if let Some(message) = request_id_faults(q) {
        return Err(InvalidRecovery { message });
    }
    if let Some(message) = request_path_faults(q) {
        return Err(InvalidRecovery { message });
    }
    if let Some(message) = check_transcript(q.transcript_path.as_str(), q.session_id.as_str()) {
        return Err(InvalidRecovery { message });
    }
    let dir = path::parent_of(q.memory_dir.as_str());
    if let Some(message) = validate_absolute_clean_path("project_state_dir", dir.as_str()) {
        return Err(InvalidRecovery { message });
    }
    Ok(dir)
}

/// The kinds that a request asks for.
#[derive(Debug, Clone, Copy, PartialEq, Eq, Structural)]
pub struct RequestedKinds {
    pub dream: bool,
    pub extract: bool,
}

/// The kinds that are asked for; both where none is named.
pub fn requested_kinds(kinds: &Vec<RunnerKind>) -> (r: RequestedKinds)
    ensures
        r.dream == (kinds@.len() == 0 || kinds@.contains(RunnerKind::Dream)),
        r.extract == (kinds@.len() == 0 || kinds@.contains(RunnerKind::Extract)),
{
    if kinds.len() == 0 {
        return RequestedKinds { dream: true, extract: true };
    }
    let mut dream = false;
    let mut extract = false;
    let mut i: usize = 0;
    while i < kinds.len()
        invariant
            i <= kinds@.len(),
            dream == kinds@.take(i as int).contains(RunnerKind::Dream),
            extract == kinds@.take(i as int).contains(RunnerKind::Extract),
        decreases kinds@.len() - i,
    {
        proof {
            let t = kinds@.take(i as int);
            let k = kinds@[i as int];
            let longer = kinds@.take(i + 1);
            assert(longer =~= t.push(k));
            assert forall|x: RunnerKind| longer.contains(x) <==> t.contains(x) || x == k by {
                if t.contains(x) {
                    let j = choose|j: int| 0 <= j < t.len() && t[j] == x;
                    assert(longer[j] == x);
                }
                if x == k {
                    assert(longer[i as int] == x);
                }
                if longer.contains(x) && x != k {
                    let j = choose|j: int| 0 <= j < longer.len() && longer[j] == x;
                    assert(t[j] == x);
                }
            }
        }
        match kinds[i] {
            RunnerKind::Dream => {
                dream = true;
            },
            RunnerKind::Extract => {
                extract = true;
            },
        }
        i = i + 1;
    }
    assert(kinds@.take(kinds@.len() as int) =~= kinds@);
    RequestedKinds { dream, extract }
}

/// Whether a flag is set; one that is not given is as `default` says.
pub open spec fn flag_or(flags: Map<Seq<char>, bool>, name: Seq<char>, default: bool) -> bool {
    if flags.contains_key(name) {
        flags[name]
    } else {
        default
    }
}

/// See [`flag_or`].
pub fn flag_default(flags: &Table<bool>, name: &str, default: bool) -> (r: bool)
    ensures
        r == flag_or(flags@, name@, default),
{
    match flags.get(name) {
        Some(b) => *b,
        None => default,
    }
}

/// Whether a flag is given and set.
pub fn flag(flags: &Table<bool>, name: &str) -> (r: bool)
    ensures
        r == flag_or(flags@, name@, false),
{
    flag_default(flags, name, false)
}

/// The flags that the tier gate of a dream looks at.
#[derive(Debug, Clone, Copy, PartialEq, Eq, Structural)]
pub struct DreamGateFlags {
    pub force: bool,
    pub kairos_active: bool,
    pub remote_mode: bool,
    pub auto_memory_enabled: bool,
}

pub fn dream_gate_flags(flags: &Table<bool>) -> (r: DreamGateFlags)
    ensures
        r.force == flag_or(flags@, "force_dream"@, false),
        r.kairos_active == flag_or(flags@, "KAIROS"@, false),
        r.remote_mode == flag_or(flags@, "remote_mode"@, false),
        r.auto_memory_enabled == flag_or(flags@, "auto_memory_enabled"@, true),
{
    DreamGateFlags {
        force: flag(flags, "force_dream"),
        kairos_active: flag(flags, "KAIROS"),
        remote_mode: flag(flags, "remote_mode"),
        auto_memory_enabled: flag_default(flags, "auto_memory_enabled", true),
    }
}

/// The flags that the tier gate of an extraction looks at.
#[derive(Debug, Clone, Copy, PartialEq, Eq, Structural)]
pub struct ExtractGateFlags {
    pub enabled: bool,
    pub auto_memory_enabled: bool,
    pub remote_mode: bool,
    pub has_memory_writes_since_cursor: bool,
}

pub fn extract_gate_flags(flags: &Table<bool>) -> (r: ExtractGateFlags)
    ensures
        r.enabled == flag_or(flags@, "EXTRACT_MEMORIES"@, false),
        r.auto_memory_enabled == flag_or(flags@, "auto_memory_enabled"@, true),
        r.remote_mode == flag_or(flags@, "remote_mode"@, false),
        r.has_memory_writes_since_cursor == flag_or(flags@, "memory_write_since_cursor"@, false),
{
    ExtractGateFlags {
        enabled: flag(flags, "EXTRACT_MEMORIES"),
        auto_memory_enabled: flag_default(flags, "auto_memory_enabled", true),
        remote_mode: flag(flags, "remote_mode"),
        has_memory_writes_since_cursor: flag(flags, "memory_write_since_cursor"),
    }
}

/// The settings of dreams that are stored for a project.
#[derive(Debug, Clone, Copy, PartialEq, Eq, Structural)]
pub struct DreamSettings {
    pub enabled: bool,
    pub min_hours: u64,
    pub min_sessions: u64,
}

/// The stored settings that the tier gate of a dream goes by when a turn ends, `None` where none are stored.
/// Settings that could not be read never let a dream begin: the default ones stand in for them, disabled.
pub fn settings_in_force(
    read: Result<Option<DreamSettings>, String>,
    default: DreamSettings,
) -> (r: Option<DreamSettings>)
    ensures
        r == match read {
            Ok(stored) => stored,
            Err(_) => Some(DreamSettings { enabled: false, ..default }),
        },
{
    match read {
        Ok(stored) => stored,
        Err(_) => Some(DreamSettings { enabled: false, ..default }),
    }
}

/// Whether the cursor of a project, given as it is stored, is saved after it was asked whether an extraction is
/// due: only where that has changed it.
pub fn saves_cursor(before: &str, after: &str) -> (r: bool)
    ensures
        r == (before@ != after@),
{
    !text::same(before, after)
}

// ---------------------------------------------------------------------------
// Runners
// ---------------------------------------------------------------------------

/// The identifier of a runner, given a UUID.
pub open spec fn trigger_id_of(kind: RunnerKind, uuid: Seq<char>) -> Seq<char> {
    kind_name(kind) + ":"@ + uuid
}

/// See [`trigger_id_of`].
pub fn trigger_id_with(kind: RunnerKind, uuid: &str) -> (r: String)
    ensures
        r@ == trigger_id_of(kind, uuid@),
{
    let mut out = kind.as_str().to_owned();
    out.append(":");
    out.append(uuid);
    out
}

/// An identifier for a new runner: its kind and a random UUID.
pub fn next_trigger_id(kind: RunnerKind) -> (r: String)
    ensures
        exists|uuid: Seq<char>|
            uuid_text::is_canonical(uuid) && r@ == #[trigger] trigger_id_of(kind, uuid),
        subject_fault(r@, kind) is None,
{
    let uuid = uuid_text::random_uuid();
    let r = trigger_id_with(kind, uuid.as_str());
    proof {
        fresh_ids_are_valid(kind, uuid@);
        assert(r@ == trigger_id_of(kind, uuid@));
    }
    r
}

/// An identifier made of a kind and a canonical UUID is valid for that kind.
pub proof fn fresh_ids_are_valid(kind: RunnerKind, uuid: Seq<char>)
    requires
        uuid_text::is_canonical(uuid),
    ensures
        subject_fault(trigger_id_of(kind, uuid), kind) is None,
{
    let p = kind_name(kind) + ":"@;
    let id = trigger_id_of(kind, uuid);
    assert(id.subrange(0, p.len() as int) =~= p);
    assert(id.subrange(p.len() as int, id.len() as int) =~= uuid);
    assert(uuid_text::accepted(uuid) == Some(uuid));
}

/// Under which key a runner is kept.
pub open spec fn work_key(trigger_id: Seq<char>) -> Seq<char> {
    "runner:"@ + trigger_id
}

/// See [`work_key`].
pub fn runner_work_key(trigger_id: &str) -> (r: String)
    ensures
        r@ == work_key(trigger_id@),
{
    let mut out = "runner:".to_owned();
    out.append(trigger_id);
    out
}

/// Different runners are kept under different keys.
pub proof fn work_keys_are_distinct(a: Seq<char>, b: Seq<char>)
    requires
        work_key(a) == work_key(b),
    ensures
        a == b,
{
    let n = "runner:"@.len() as int;
    assert(work_key(a).skip(n) =~= a);
    assert(work_key(b).skip(n) =~= b);
}

/// What the tier gate of a dream found when it let the dream through.
#[derive(Debug, Clone)]
pub struct DreamGateFindings {
    pub lock_token: String,
    pub prior_mtime_ms: u64,
    pub session_ids: Vec<String>,
    pub sessions_since_last_consolidation: usize,
    pub last_consolidated_at_ms: u64,
    pub hours_since_last_consolidation: u64,
    pub min_hours: u64,
    pub min_sessions: u64,
}

/// What the cursor of an extraction found when it let the extraction through.
#[derive(Debug, Clone)]
pub struct ExtractFindings {
    pub previous_cursor_uuid: Option<String>,
    pub last_assistant_uuid: String,
    pub new_message_count: u64,
    pub total_model_visible: Option<u64>,
}

/// The locator of a runner of a request.
pub open spec fn locator_for(
    q: TurnEndEvaluateRequest,
    trigger_id: Seq<char>,
    kind: RunnerKind,
) -> LocatorView {
    LocatorView {
        recovery_schema_version: q.recovery_schema_version,
        trigger_id,
        kind,
        session_id: q.session_id@,
        current_session_id: q.current_session_id@,
        context_leaf_uuid: q.last_assistant_uuid@,
        project_cwd: q.project_cwd@,
        transcript_path: q.transcript_path@,
        memory_dir: q.memory_dir@,
        project_state_dir: path::parent(q.memory_dir@),
    }
}

/// In the locator of a runner of a valid request nothing can be wrong but the identifier.
pub proof fn valid_requests_give_valid_locators(
    q: TurnEndEvaluateRequest,
    trigger_id: Seq<char>,
    kind: RunnerKind,
)
    requires
        request_fault(q) is None,
    ensures
        locator_fault(locator_for(q, trigger_id, kind)) == subject_fault(trigger_id, kind),
{
    assert(id_fault("last_assistant_uuid"@, q.last_assistant_uuid@) is None);
    assert(id_fault("context_leaf_uuid"@, q.last_assistant_uuid@) is None);
}

impl RunnerRecoveryLocator {
    /// The locator of a runner of a request, if it is valid.
    pub fn from_evaluate_request(q: &TurnEndEvaluateRequest, trigger_id: &str, kind: RunnerKind) -> (r:
        Result<RunnerRecoveryLocator, InvalidRecovery>)
        ensures
            match locator_fault(locator_for(*q, trigger_id@, kind)) {
                None => r matches Ok(l) && l@ == locator_for(*q, trigger_id@, kind),
                Some(m) => r matches Err(e) && e.message@ == m,
            },
    {
        // Nothing stands above a relative path; such a locator is refused whatever is told of it.
        let project_state_dir = if path::starts_at_root(q.memory_dir.as_str()) {
            path::parent_of(q.memory_dir.as_str())
        } else {
            String::new()
        };
        let l = RunnerRecoveryLocator {
            recovery_schema_version: q.recovery_schema_version,
            trigger_id: trigger_id.to_owned(),
            kind,
            session_id: q.session_id.clone(),
            current_session_id: q.current_session_id.clone(),
            context_leaf_uuid: q.last_assistant_uuid.clone(),
            project_cwd: q.project_cwd.clone(),
            transcript_path: q.transcript_path.clone(),
            memory_dir: q.memory_dir.clone(),
            project_state_dir,
        };
        match l.validate() {
            Ok(()) => Ok(l),
            Err(e) => Err(e),
        }
    }
}

/// A dream as a runner of a request.
pub open spec fn is_dream_trigger(
    t: TurnEndTrigger,
    q: TurnEndEvaluateRequest,
    f: DreamGateFindings,
    trigger_id: Seq<char>,
) -> bool {
    let p = t.runner_payload;
    let state_dir = path::parent(q.memory_dir@);
    &&& t.trigger_id@ == trigger_id
    &&& t.kind == RunnerKind::Dream
    &&& text::opt_view(t.lock_token) == Some(f.lock_token@)
    &&& text::opt_view(p.memory_dir) == Some(q.memory_dir@)
    &&& text::opt_view(p.project_state_dir) == Some(state_dir)
    &&& text::opt_view(p.transcript_dir) == Some(state_dir)
    &&& p.last_assistant_uuid is None
    &&& p.force is None
    &&& p.details == RunnerDetails::Dream {
        session_ids: f.session_ids,
        sessions_since_last_consolidation: f.sessions_since_last_consolidation,
        last_consolidated_at_ms: f.last_consolidated_at_ms,
        hours_since_last_consolidation: f.hours_since_last_consolidation,
        prior_mtime_ms: f.prior_mtime_ms,
        min_hours: f.min_hours,
        min_sessions: f.min_sessions,
    }
}

/// What is awaited of a dream.
pub open spec fn is_dream_pending(
    p: PendingRunner,
    trigger_id: Seq<char>,
    session_id: Seq<char>,
    memory_dir: Seq<char>,
    project_state_dir: Seq<char>,
    lock_token: Seq<char>,
    prior_mtime_ms: u64,
    registered_at_ms: u64,
) -> bool {
    &&& p.trigger_id@ == trigger_id
    &&& p.kind@ == "dream"@
    &&& p.session_id@ == session_id
    &&& p.memory_dir@ == memory_dir
    &&& p.project_state_dir@ == project_state_dir
    &&& text::opt_view(p.lock_token) == Some(lock_token)
    &&& p.prior_mtime_ms == Some(prior_mtime_ms)
    &&& p.extract_last_assistant_uuid is None
    &&& p.extract_total_model_visible is None
    &&& p.registered_at_ms == registered_at_ms
}

/// What is awaited of an extraction.
pub open spec fn is_extract_pending(
    p: PendingRunner,
    trigger_id: Seq<char>,
    session_id: Seq<char>,
    memory_dir: Seq<char>,
    project_state_dir: Seq<char>,
    last_assistant_uuid: Seq<char>,
    total_model_visible: Option<u64>,
    registered_at_ms: u64,
) -> bool {
    &&& p.trigger_id@ == trigger_id
    &&& p.kind@ == "extract"@
    &&& p.session_id@ == session_id
    &&& p.memory_dir@ == memory_dir
    &&& p.project_state_dir@ == project_state_dir
    &&& p.lock_token is None
    &&& p.prior_mtime_ms is None
    &&& text::opt_view(p.extract_last_assistant_uuid) == Some(last_assistant_uuid)
    &&& p.extract_total_model_visible == total_model_visible
    &&& p.registered_at_ms == registered_at_ms
}

/// An extraction as a runner of a request.
pub open spec fn is_extract_trigger(
    t: TurnEndTrigger,
    q: TurnEndEvaluateRequest,
    f: ExtractFindings,
    trigger_id: Seq<char>,
) -> bool {
    let p = t.runner_payload;
    &&& t.trigger_id@ == trigger_id
    &&& t.kind == RunnerKind::Extract
    &&& t.lock_token is None
    &&& text::opt_view(p.memory_dir) == Some(q.memory_dir@)
    &&& p.project_state_dir is None
    &&& p.transcript_dir is None
    &&& text::opt_view(p.last_assistant_uuid) == Some(f.last_assistant_uuid@)
    &&& p.force is None
    &&& p.details matches RunnerDetails::Extract {
        team_memory_dir,
        previous_cursor_uuid,
        new_message_count,
        team_memory_enabled,
        skip_index,
    }
    &&& text::opt_view(team_memory_dir) == text::opt_view(q.team_memory_dir)
    &&& previous_cursor_uuid == f.previous_cursor_uuid
    &&& new_message_count == f.new_message_count
    &&& team_memory_enabled == flag_or(q.feature_flags@, "team_memory_enabled"@, false)
    &&& skip_index == flag_or(q.feature_flags@, "skip_index"@, false)
}

/// The runner of a dream that the tier gate let through, with all that is kept of it.
pub fn dream_work(q: &TurnEndEvaluateRequest, findings: DreamGateFindings, trigger_id: &str) -> (r:
    Result<DurableRunnerWork, InvalidRecovery>)
    requires
        request_fault(*q) is None,
    ensures
        match subject_fault(trigger_id@, RunnerKind::Dream) {
            Some(m) => r matches Err(e) && e.message@ == m,
            None => {
                &&& r matches Ok(w)
                &&& w.recovery@ == locator_for(*q, trigger_id@, RunnerKind::Dream)
                &&& is_dream_trigger(w.trigger, *q, findings, trigger_id@)
                &&& is_dream_pending(
                    w.pending,
                    trigger_id@,
                    q.session_id@,
                    q.memory_dir@,
                    path::parent(q.memory_dir@),
                    findings.lock_token@,
                    findings.prior_mtime_ms,
                    q.now_ms,
                )
                &&& work_fault(w) is None
            },
        },
{
    proof {
        valid_requests_give_valid_locators(*q, trigger_id@, RunnerKind::Dream);
    }
    let recovery = match RunnerRecoveryLocator::from_evaluate_request(
        q,
        trigger_id,
        RunnerKind::Dream,
    ) {
        Ok(l) => l,
        Err(e) => {
            return Err(e);
        },
    };
    let state_dir = recovery.project_state_dir.clone();
    let pending = PendingRunner {
        trigger_id: trigger_id.to_owned(),
        kind: "dream".to_owned(),
        session_id: q.session_id.clone(),
        memory_dir: q.memory_dir.clone(),
        project_state_dir: state_dir.clone(),
        lock_token: Some(findings.lock_token.clone()),
        prior_mtime_ms: Some(findings.prior_mtime_ms),
        extract_last_assistant_uuid: None,
        extract_total_model_visible: None,
        registered_at_ms: q.now_ms,
    };
    let trigger = TurnEndTrigger {
        trigger_id: trigger_id.to_owned(),
        kind: RunnerKind::Dream,
        lock_token: Some(findings.lock_token),
        runner_payload: RunnerPayload {
            memory_dir: Some(q.memory_dir.clone()),
            project_state_dir: Some(state_dir.clone()),
            transcript_dir: Some(state_dir),
            last_assistant_uuid: None,
            details: RunnerDetails::Dream {
                session_ids: findings.session_ids,
                sessions_since_last_consolidation: findings.sessions_since_last_consolidation,
                last_consolidated_at_ms: findings.last_consolidated_at_ms,
                hours_since_last_consolidation: findings.hours_since_last_consolidation,
                prior_mtime_ms: findings.prior_mtime_ms,
                min_hours: findings.min_hours,
                min_sessions: findings.min_sessions,
            },
            force: None,
        },
    };
    Ok(DurableRunnerWork { recovery, trigger, pending })
}

/// The runner of an extraction that the cursor let through, with all that is kept of it.
pub fn extract_work(q: &TurnEndEvaluateRequest, findings: ExtractFindings, trigger_id: &str) -> (r:
    Result<DurableRunnerWork, InvalidRecovery>)
    requires
        request_fault(*q) is None,
    ensures
        match subject_fault(trigger_id@, RunnerKind::Extract) {
            Some(m) => r matches Err(e) && e.message@ == m,
            None => {
                &&& r matches Ok(w)
                &&& w.recovery@ == locator_for(*q, trigger_id@, RunnerKind::Extract)
                &&& is_extract_trigger(w.trigger, *q, findings, trigger_id@)
                &&& is_extract_pending(
                    w.pending,
                    trigger_id@,
                    q.session_id@,
                    q.memory_dir@,
                    path::parent(q.memory_dir@),
                    findings.last_assistant_uuid@,
                    findings.total_model_visible,
                    q.now_ms,
                )
                &&& work_fault(w) == if findings.last_assistant_uuid@ == q.last_assistant_uuid@ {
                    None
                } else {
                    Some("extract assistant UUID does not match recovery locator"@)
                }
            },
        },
{
    proof {
        valid_requests_give_valid_locators(*q, trigger_id@, RunnerKind::Extract);
    }
    let recovery = match RunnerRecoveryLocator::from_evaluate_request(
        q,
        trigger_id,
        RunnerKind::Extract,
    ) {
        Ok(l) => l,
        Err(e) => {
            return Err(e);
        },
    };
    let pending = PendingRunner {
        trigger_id: trigger_id.to_owned(),
        kind: "extract".to_owned(),
        session_id: q.session_id.clone(),
        memory_dir: q.memory_dir.clone(),
        project_state_dir: recovery.project_state_dir.clone(),
        lock_token: None,
        prior_mtime_ms: None,
        extract_last_assistant_uuid: Some(findings.last_assistant_uuid.clone()),
        extract_total_model_visible: findings.total_model_visible,
        registered_at_ms: q.now_ms,
    };
    let trigger = TurnEndTrigger {
        trigger_id: trigger_id.to_owned(),
        kind: RunnerKind::Extract,
        lock_token: None,
        runner_payload: RunnerPayload {
            memory_dir: Some(q.memory_dir.clone()),
            project_state_dir: None,
            transcript_dir: None,
            last_assistant_uuid: Some(findings.last_assistant_uuid),
            details: RunnerDetails::Extract {
                team_memory_dir: q.team_memory_dir.clone(),
                previous_cursor_uuid: findings.previous_cursor_uuid,
                new_message_count: findings.new_message_count,
                team_memory_enabled: flag(&q.feature_flags, "team_memory_enabled"),
                skip_index: flag(&q.feature_flags, "skip_index"),
            },
            force: None,
        },
    };
    Ok(DurableRunnerWork { recovery, trigger, pending })
}

// ---------------------------------------------------------------------------
// Runners that the user asks for
// ---------------------------------------------------------------------------

/// What came of a request of the user, and what is awaited of the runner if there is one.
#[derive(Debug, Clone)]
pub struct RunNowPlan {
    pub response: RunNowResponse,
    pub pending: Option<PendingRunner>,
}

/// Whether a plan is to run nothing, for the given reason.
pub open spec fn declines(p: RunNowPlan, reason: Seq<char>) -> bool {
    &&& p.response.triggers@.len() == 0
    &&& text::opt_view(p.response.gate_skip_reason) == Some(reason)
    &&& p.pending is None
}

fn declined(reason: &str) -> (r: RunNowPlan)
    ensures
        declines(r, reason@),
{
    RunNowPlan {
        response: RunNowResponse {
            triggers: Vec::new(),
            gate_skip_reason: Some(reason.to_owned()),
        },
        pending: None,
    }
}

fn planned(trigger: TurnEndTrigger, pending: PendingRunner) -> (r: RunNowPlan)
    ensures
        r.response.triggers@ == seq![trigger],
        r.response.gate_skip_reason is None,
        r.pending == Some(pending),
{
    let mut triggers: Vec<TurnEndTrigger> = Vec::new();
    triggers.push(trigger);
    assert(triggers@ =~= seq![trigger]);
    RunNowPlan {
        response: RunNowResponse { triggers, gate_skip_reason: None },
        pending: Some(pending),
    }
}

/// What is known when the user asks for a dream. Without `prior_mtime_ms` the lock is held by someone else.
#[derive(Debug, Clone)]
pub struct DreamNowFindings {
    pub project_state_dir: String,
    pub last_consolidated_at_ms: u64,
    pub prior_mtime_ms: Option<u64>,
    pub session_ids: Vec<String>,
    pub lock_token: String,
    pub registered_at_ms: u64,
}

/// How many full hours lie between two points in time; none where the clock went back.
pub open spec fn hours_between(from_ms: u64, to_ms: u64) -> int {
    if to_ms < from_ms {
        0
    } else {
        (to_ms - from_ms) / (HOUR_MS as int)
    }
}

/// Whether this is the plan for a dream that the user asks for.
pub open spec fn plans_dream(
    r: RunNowPlan,
    q: DreamRunNowRequest,
    findings: DreamNowFindings,
    trigger_id: Seq<char>,
) -> bool {
    match findings.prior_mtime_ms {
        None => declines(r, "lock_held"@),
        Some(prior) => {
            let t = r.response.triggers@[0];
            let p = t.runner_payload;
            &&& r.response.triggers@.len() == 1
            &&& r.response.gate_skip_reason is None
            &&& t.trigger_id@ == trigger_id
            &&& t.kind == RunnerKind::Dream
            &&& text::opt_view(t.lock_token) == Some(findings.lock_token@)
            &&& text::opt_view(p.memory_dir) == Some(q.memory_dir@)
            &&& text::opt_view(p.project_state_dir) == Some(findings.project_state_dir@)
            &&& text::opt_view(p.transcript_dir) == Some(findings.project_state_dir@)
            &&& p.last_assistant_uuid is None
            &&& p.force == Some(true)
            &&& p.details matches RunnerDetails::Dream {
                session_ids,
                sessions_since_last_consolidation,
                last_consolidated_at_ms,
                hours_since_last_consolidation,
                prior_mtime_ms,
                min_hours,
                min_sessions,
            }
            &&& session_ids == findings.session_ids
            &&& sessions_since_last_consolidation == findings.session_ids@.len()
            &&& last_consolidated_at_ms == findings.last_consolidated_at_ms
            &&& hours_since_last_consolidation == hours_between(
                findings.last_consolidated_at_ms,
                q.now_ms,
            )
            &&& prior_mtime_ms == prior
            &&& min_hours == 0
            &&& min_sessions == 0
            &&& r.pending is Some
            &&& is_dream_pending(
                r.pending->0,
                trigger_id,
                q.session_id@,
                q.memory_dir@,
                findings.project_state_dir@,
                findings.lock_token@,
                prior,
                findings.registered_at_ms,
            )
        },
    }
}

/// A dream that the user asks for: it runs unless the lock is held, whatever the flags say. See [`plans_dream`].
pub fn evaluate_dream_run_now(
    q: &DreamRunNowRequest,
    findings: DreamNowFindings,
    trigger_id: String,
) -> (r: RunNowPlan)
    ensures
        plans_dream(r, *q, findings, trigger_id@),
{
    let prior: u64 = match findings.prior_mtime_ms {
        Some(prior) => prior,
        None => {
            return declined("lock_held");
        },
    };
    let elapsed: u64 = if q.now_ms < findings.last_consolidated_at_ms {
        0
    } else {
        q.now_ms - findings.last_consolidated_at_ms
    };
    let pending = PendingRunner {
        trigger_id: trigger_id.clone(),
        kind: "dream".to_owned(),
        session_id: q.session_id.clone(),
        memory_dir: q.memory_dir.clone(),
        project_state_dir: findings.project_state_dir.clone(),
        lock_token: Some(findings.lock_token.clone()),
        prior_mtime_ms: Some(prior),
        extract_last_assistant_uuid: None,
        extract_total_model_visible: None,
        registered_at_ms: findings.registered_at_ms,
    };
    let sessions: usize = findings.session_ids.len();
    let trigger = TurnEndTrigger {
        trigger_id,
        kind: RunnerKind::Dream,
        lock_token: Some(findings.lock_token),
        runner_payload: RunnerPayload {
            memory_dir: Some(q.memory_dir.clone()),
            project_state_dir: Some(findings.project_state_dir.clone()),
            transcript_dir: Some(findings.project_state_dir),
            last_assistant_uuid: None,
            details: RunnerDetails::Dream {
                session_ids: findings.session_ids,
                sessions_since_last_consolidation: sessions,
                last_consolidated_at_ms: findings.last_consolidated_at_ms,
                hours_since_last_consolidation: elapsed / HOUR_MS,
                prior_mtime_ms: prior,
                min_hours: 0,
                min_sessions: 0,
            },
            force: Some(true),
        },
    };
    planned(trigger, pending)
}

/// The lock that dreams of one memory directory exclude each other with: whether it is held, and when the last dream
/// ended.
pub struct DreamLockView {
    pub held: bool,
    pub mtime_ms: u64,
}

impl DreamLockView {
    /// What an attempt to take the lock finds: when the last dream ended, `None` where the lock is held.
    pub open spec fn answer(self) -> Option<u64> {
        if self.held {
            None
        } else {
            Some(self.mtime_ms)
        }
    }

    /// The lock after an attempt to take it. Whoever held it before, it is held then, and is until the dream is
    /// completed or the lock set back.
    pub open spec fn attempted(self) -> DreamLockView {
        DreamLockView { held: true, ..self }
    }
}

/// Of two dreams that the user asks for in a row, with the lock free at first and nothing completed in between, the
/// first runs and is awaited, and the second is declined and registers nothing.
pub proof fn second_dream_is_declined(
    lock: DreamLockView,
    first: RunNowPlan,
    q1: DreamRunNowRequest,
    findings1: DreamNowFindings,
    id1: Seq<char>,
    second: RunNowPlan,
    q2: DreamRunNowRequest,
    findings2: DreamNowFindings,
    id2: Seq<char>,
)
    requires
        !lock.held,
        findings1.prior_mtime_ms == lock.answer(),
        findings2.prior_mtime_ms == lock.attempted().answer(),
        plans_dream(first, q1, findings1, id1),
        plans_dream(second, q2, findings2, id2),
    ensures
        first.response.triggers@.len() == 1,
        first.response.triggers@[0].kind == RunnerKind::Dream,
        first.response.triggers@[0].lock_token is Some,
        first.response.triggers@[0].runner_payload.force == Some(true),
        first.response.triggers@[0].runner_payload.details matches RunnerDetails::Dream {
            min_hours,
            min_sessions,
            ..
        } && min_hours == 0 && min_sessions == 0,
        first.response.gate_skip_reason is None,
        first.pending is Some,
        declines(second, "lock_held"@),
{
}

/// How many messages are new: all that are counted, or else those of the assistant.
pub open spec fn new_messages(counts: Map<Seq<char>, u64>) -> u64 {
    if counts.contains_key("total"@) {
        counts["total"@]
    } else if counts.contains_key("assistant"@) {
        counts["assistant"@]
    } else {
        0
    }
}

/// How many messages the model sees, if they are counted.
pub open spec fn total_messages(counts: Map<Seq<char>, u64>) -> Option<u64> {
    if counts.contains_key("total"@) {
        Some(counts["total"@])
    } else {
        None
    }
}

/// An extraction that the user asks for: it runs unless there is nothing to extract up to, whatever the flags
/// say.
pub fn evaluate_extract_run_now(
    q: &ExtractRunNowRequest,
    project_state_dir: String,
    previous_cursor_uuid: Option<String>,
    registered_at_ms: u64,
    trigger_id: String,
) -> (r: RunNowPlan)
    ensures
        q.last_assistant_uuid@.len() == 0 ==> declines(r, "no_assistant_uuid"@),
        q.last_assistant_uuid@.len() > 0 ==> {
            let t = r.response.triggers@[0];
            let p = t.runner_payload;
            &&& r.response.triggers@.len() == 1
            &&& r.response.gate_skip_reason is None
            &&& t.trigger_id == trigger_id
            &&& t.kind == RunnerKind::Extract
            &&& t.lock_token is None
            &&& text::opt_view(p.memory_dir) == Some(q.memory_dir@)
            &&& p.project_state_dir is None
            &&& p.transcript_dir is None
            &&& text::opt_view(p.last_assistant_uuid) == Some(q.last_assistant_uuid@)
            &&& p.force == Some(true)
            &&& p.details matches RunnerDetails::Extract {
                team_memory_dir,
                previous_cursor_uuid: previous,
                new_message_count,
                team_memory_enabled,
                skip_index,
            }
            &&& text::opt_view(team_memory_dir) == text::opt_view(q.team_memory_dir)
            &&& previous == previous_cursor_uuid
            &&& new_message_count == new_messages(q.message_counts@)
            &&& !team_memory_enabled
            &&& !skip_index
            &&& r.pending is Some
            &&& is_extract_pending(
                r.pending->0,
                trigger_id@,
                q.session_id@,
                q.memory_dir@,
                project_state_dir@,
                q.last_assistant_uuid@,
                total_messages(q.message_counts@),
                registered_at_ms,
            )
        },
{
    if q.last_assistant_uuid.as_str().is_empty() {
        return declined("no_assistant_uuid");
    }
    let total: Option<u64> = match q.message_counts.get("total") {
        Some(n) => Some(*n),
        None => None,
    };
    let count: u64 = match total {
        Some(n) => n,
        None => match q.message_counts.get("assistant") {
            Some(n) => *n,
            None => 0,
        },
    };
    let pending = PendingRunner {
        trigger_id: trigger_id.clone(),
        kind: "extract".to_owned(),
        session_id: q.session_id.clone(),
        memory_dir: q.memory_dir.clone(),
        project_state_dir,
        lock_token: None,
        prior_mtime_ms: None,
        extract_last_assistant_uuid: Some(q.last_assistant_uuid.clone()),
        extract_total_model_visible: total,
        registered_at_ms,
    };
    let trigger = TurnEndTrigger {
        trigger_id,
        kind: RunnerKind::Extract,
        lock_token: None,
        runner_payload: RunnerPayload {
            memory_dir: Some(q.memory_dir.clone()),
            project_state_dir: None,
            transcript_dir: None,
            last_assistant_uuid: Some(q.last_assistant_uuid.clone()),
            details: RunnerDetails::Extract {
                team_memory_dir: q.team_memory_dir.clone(),
                previous_cursor_uuid,
                new_message_count: count,
                team_memory_enabled: false,
                skip_index: false,
            },
            force: Some(true),
        },
    };
    planned(trigger, pending)
}

/// What is kept of a runner is taken up again only where its parts agree: on the runner, on the session, on
/// the directories, and, for an extraction, on the message that it goes up to.
pub proof fn valid_work_agrees(w: DurableRunnerWork)
    requires
        work_fault(w) is None,
    ensures
        w.recovery.trigger_id@ == w.trigger.trigger_id@,
        w.pending.trigger_id@ == w.trigger.trigger_id@,
        w.recovery.session_id@ == w.pending.session_id@,
        path::same_path(w.pending.memory_dir@, w.recovery.memory_dir@),
        path::components(w.recovery.project_state_dir@) == path::components(
            w.recovery.memory_dir@,
        ).drop_last(),
        w.trigger.kind == RunnerKind::Extract ==> text::opt_view(
            w.pending.extract_last_assistant_uuid,
        ) == Some(w.recovery.context_leaf_uuid@),
{
    path::parent_drops_last_component(w.recovery.memory_dir@);
}

// ---------------------------------------------------------------------------
// What the evaluation of a turn promises
// ---------------------------------------------------------------------------

/// The first version is the only one that is supported.
pub proof fn only_the_first_version_is_supported(version: u64)
    ensures
        version_fault(version) is None <==> version == 1,
        version != 1 ==> version_fault(version) == Some(
            "unsupported runner recovery_schema_version "@ + text::decimal(version as nat),
        ),
{
}

/// A path has to begin at the root, to name something below it, and to lead nowhere back; the first of these that it does
/// not do is what is wrong with it.
pub proof fn paths_are_absolute_and_clean(label: Seq<char>, p: Seq<char>)
    ensures
        path_fault(label, p) is None <==> p.len() > 0 && p[0] == '/' && !p.contains('\0')
            && path::components(p).len() >= 2 && !path::components(p).contains(".."@),
        !(p.len() > 0 && p[0] == '/') ==> path_fault(label, p) == Some(label + " must be absolute"@),
        p.len() > 0 && p[0] == '/' && (p.contains('\0') || path::components(p).len() < 2)
            ==> path_fault(label, p) == Some(
            label + " must not be empty, root-only, or contain NUL"@,
        ),
        p.len() > 0 && p[0] == '/' && !p.contains('\0') && path::components(p).len() >= 2
            && path::components(p).contains(".."@) ==> path_fault(label, p) == Some(
            label + " must not contain '.' or '..' components"@,
        ),
{
}

/// An identifier has to be a UUID in canonical form.
pub proof fn ids_are_canonical(label: Seq<char>, raw: Seq<char>)
    ensures
        id_fault(label, raw) is None <==> uuid_text::uuid_fault(raw) is None,
        uuid_text::uuid_fault(raw) == Some(UuidFault::NotAUuid) ==> id_fault(label, raw) == Some(
            label + " must be a UUID"@,
        ),
        uuid_text::uuid_fault(raw) == Some(UuidFault::NotCanonical) ==> id_fault(label, raw) == Some(
            label + " must use canonical lowercase hyphenated UUID form"@,
        ),
{
}

/// The identifier of a runner is its kind, a colon and a UUID in canonical form; a runner of one kind is none of the other.
pub proof fn runners_are_named_by_their_kind(trigger_id: Seq<char>)
    ensures
        subject_fault(trigger_id, RunnerKind::Dream) is None <==> trigger_id.len() >= 6
            && trigger_id.take(6) == "dream:"@ && uuid_text::uuid_fault(trigger_id.skip(6)) is None,
        subject_fault(trigger_id, RunnerKind::Extract) is None <==> trigger_id.len() >= 8
            && trigger_id.take(8) == "extract:"@ && uuid_text::uuid_fault(trigger_id.skip(8)) is None,
        !text::starts_with(trigger_id, "dream:"@) ==> subject_fault(trigger_id, RunnerKind::Dream)
            == Some("trigger_id kind prefix mismatch"@),
        !text::starts_with(trigger_id, "extract:"@) ==> subject_fault(
            trigger_id,
            RunnerKind::Extract,
        ) == Some("trigger_id kind prefix mismatch"@),
{
    reveal_strlit("dream");
    reveal_strlit("extract");
    reveal_strlit(":");
    reveal_strlit("dream:");
    reveal_strlit("extract:");
    assert("dream"@ + ":"@ =~= "dream:"@);
    assert("extract"@ + ":"@ =~= "extract:"@);
    if trigger_id.len() >= 6 {
        assert(trigger_id.take(6) =~= trigger_id.subrange(0, 6));
        assert(trigger_id.skip(6) =~= trigger_id.subrange(6, trigger_id.len() as int));
    }
    if trigger_id.len() >= 8 {
        assert(trigger_id.take(8) =~= trigger_id.subrange(0, 8));
        assert(trigger_id.skip(8) =~= trigger_id.subrange(8, trigger_id.len() as int));
    }
}

/// The identifier of a new runner is told by its kind: no two kinds share one, and two runners of a kind share one only with
/// the same UUID.
pub proof fn runner_ids_are_distinct(a: Seq<char>, b: Seq<char>, kind: RunnerKind)
    ensures
        trigger_id_of(RunnerKind::Dream, a) != trigger_id_of(RunnerKind::Extract, b),
        trigger_id_of(kind, a) == trigger_id_of(kind, b) ==> a == b,
{
    reveal_strlit("dream");
    reveal_strlit("extract");
    assert(trigger_id_of(RunnerKind::Dream, a)[0] == 'd');
    assert(trigger_id_of(RunnerKind::Extract, b)[0] == 'e');
    let head = kind_name(kind) + ":"@;
    let s = trigger_id_of(kind, a);
    let t = trigger_id_of(kind, b);
    assert(s.skip(head.len() as int) =~= a);
    assert(t.skip(head.len() as int) =~= b);
}

/// A transcript is named by its session.
pub proof fn transcripts_are_named_by_their_session(p: Seq<char>, session_id: Seq<char>)
    ensures
        transcript_fault(p, session_id) is None <==> path::last_component(p) == Some(
            session_id + ".jsonl"@,
        ),
        transcript_fault(p, session_id) is Some ==> transcript_fault(p, session_id) == Some(
            "transcript_path filename must match session_id"@,
        ),
{
}

/// A runner has to be told each of its directories, and those that its locator names.
pub proof fn runners_are_told_their_directories(
    told: Option<Seq<char>>,
    key: Seq<char>,
    expected: Seq<char>,
)
    ensures
        told_path_fault(told, key, expected) is None <==> told is Some && path::components(told->0)
            == path::components(expected),
        told is None ==> told_path_fault(told, key, expected) == Some(
            "runner payload is missing "@ + key,
        ),
        told is Some && path::components(told->0) != path::components(expected) ==> told_path_fault(
            told,
            key,
            expected,
        ) == Some("runner payload "@ + key + " does not match recovery locator"@),
{
}

/// What is wrong with a locator is the first of its checks that fails: the version, the identifiers, the paths, and how they
/// go together.
pub proof fn locators_are_checked_in_order(l: LocatorView, checks: Seq<Option<Seq<char>>>)
    requires
        checks == seq![
            version_fault(l.recovery_schema_version),
            subject_fault(l.trigger_id, l.kind),
            id_fault("session_id"@, l.session_id),
            id_fault("current_session_id"@, l.current_session_id),
            id_fault("context_leaf_uuid"@, l.context_leaf_uuid),
            path_fault("project_cwd"@, l.project_cwd),
            path_fault("transcript_path"@, l.transcript_path),
            path_fault("memory_dir"@, l.memory_dir),
            path_fault("project_state_dir"@, l.project_state_dir),
            if path::components(path::parent(l.memory_dir)) == path::components(l.project_state_dir) {
                None
            } else {
                Some("project_state_dir must be the direct parent of memory_dir"@)
            },
            transcript_fault(l.transcript_path, l.session_id),
        ],
    ensures
        locator_fault(l) is None <==> forall|i: int| 0 <= i < 11 ==> #[trigger] checks[i] is None,
        locator_fault(l) is Some ==> exists|i: int|
            0 <= i < 11 && #[trigger] checks[i] == locator_fault(l) && forall|j: int|
                0 <= j < i ==> #[trigger] checks[j] is None,
{
    let fault = locator_fault(l);
    if checks[0] is Some {
        assert(checks[0] == fault);
    } else if checks[1] is Some {
        assert(checks[1] == fault);
    } else if checks[2] is Some {
        assert(checks[2] == fault);
    } else if checks[3] is Some {
        assert(checks[3] == fault);
    } else if checks[4] is Some {
        assert(checks[4] == fault);
    } else if checks[5] is Some {
        assert(checks[5] == fault);
    } else if checks[6] is Some {
        assert(checks[6] == fault);
    } else if checks[7] is Some {
        assert(checks[7] == fault);
    } else if checks[8] is Some {
        assert(checks[8] == fault);
    } else if checks[9] is Some {
        assert(checks[9] == fault);
    } else if checks[10] is Some {
        assert(checks[10] == fault);
    }
}

/// What is wrong with a request is the first of its checks that fails: the version, the identifiers, the paths, and how they
/// go together. The directory of the team is looked at only where there is one.
pub proof fn requests_are_checked_in_order(q: TurnEndEvaluateRequest, checks: Seq<Option<Seq<char>>>)
    requires
        checks == seq![
            version_fault(q.recovery_schema_version),
            id_fault("session_id"@, q.session_id@),
            id_fault("current_session_id"@, q.current_session_id@),
            id_fault("last_assistant_uuid"@, q.last_assistant_uuid@),
            path_fault("project_cwd"@, q.project_cwd@),
            path_fault("transcript_path"@, q.transcript_path@),
            path_fault("memory_dir"@, q.memory_dir@),
            if q.team_memory_dir is Some {
                path_fault("team_memory_dir"@, q.team_memory_dir->0@)
            } else {
                None
            },
            transcript_fault(q.transcript_path@, q.session_id@),
            path_fault("project_state_dir"@, path::parent(q.memory_dir@)),
        ],
    ensures
        request_fault(q) is None <==> forall|i: int| 0 <= i < 10 ==> #[trigger] checks[i] is None,
        request_fault(q) is Some ==> exists|i: int|
            0 <= i < 10 && #[trigger] checks[i] == request_fault(q) && forall|j: int|
                0 <= j < i ==> #[trigger] checks[j] is None,
{
    let fault = request_fault(q);
    if checks[0] is Some {
        assert(checks[0] == fault);
    } else if checks[1] is Some {
        assert(checks[1] == fault);
    } else if checks[2] is Some {
        assert(checks[2] == fault);
    } else if checks[3] is Some {
        assert(checks[3] == fault);
    } else if checks[4] is Some {
        assert(checks[4] == fault);
    } else if checks[5] is Some {
        assert(checks[5] == fault);
    } else if checks[6] is Some {
        assert(checks[6] == fault);
    } else if checks[7] is Some {
        assert(checks[7] == fault);
    } else if checks[8] is Some {
        assert(checks[8] == fault);
    } else if checks[9] is Some {
        assert(checks[9] == fault);
    }
}

/// What is kept of a runner is sound exactly where its locator is, the identifier fits the kind, the parts agree, and the
/// runner was told what the locator says.
pub proof fn sound_work_agrees_throughout(w: DurableRunnerWork)
    ensures
        work_fault(w) is None <==> {
            &&& locator_fault(w.recovery@) is None
            &&& subject_fault(w.trigger.trigger_id@, w.trigger.kind) is None
            &&& w.recovery.trigger_id@ == w.trigger.trigger_id@
            &&& w.recovery.kind == w.trigger.kind
            &&& w.pending.trigger_id@ == w.trigger.trigger_id@
            &&& w.pending.kind@ == (match w.trigger.kind {
                RunnerKind::Dream => "dream"@,
                RunnerKind::Extract => "extract"@,
            })
            &&& w.pending.session_id@ == w.recovery.session_id@
            &&& path::components(w.pending.memory_dir@) == path::components(w.recovery.memory_dir@)
            &&& path::components(w.pending.project_state_dir@) == path::components(
                w.recovery.project_state_dir@,
            )
            &&& w.trigger.runner_payload.memory_dir is Some
            &&& path::components(w.trigger.runner_payload.memory_dir->0@) == path::components(
                w.recovery.memory_dir@,
            )
            &&& w.trigger.kind == RunnerKind::Dream ==> {
                &&& w.trigger.runner_payload.project_state_dir is Some
                &&& path::components(w.trigger.runner_payload.project_state_dir->0@)
                    == path::components(w.recovery.project_state_dir@)
                &&& w.trigger.runner_payload.transcript_dir is Some
                &&& path::components(w.trigger.runner_payload.transcript_dir->0@)
                    == path::components(w.recovery.project_state_dir@)
                &&& w.pending.extract_last_assistant_uuid is None
            }
            &&& w.trigger.kind == RunnerKind::Extract ==> {
                &&& w.trigger.runner_payload.last_assistant_uuid is Some
                &&& w.trigger.runner_payload.last_assistant_uuid->0@ == w.recovery.context_leaf_uuid@
                &&& w.pending.extract_last_assistant_uuid is Some
                &&& w.pending.extract_last_assistant_uuid->0@ == w.recovery.context_leaf_uuid@
            }
        },
{
}

/// What is wrong between the parts of what is kept, and with what the runner was told, is the first of these checks that fails.
pub proof fn parts_are_compared_in_order(w: DurableRunnerWork, checks: Seq<Option<Seq<char>>>)
    requires
        checks == seq![
            locator_fault(w.recovery@),
            subject_fault(w.trigger.trigger_id@, w.trigger.kind),
            if w.recovery.trigger_id@ == w.trigger.trigger_id@ && w.recovery.kind == w.trigger.kind {
                None
            } else {
                Some("recovery locator subject does not match durable trigger"@)
            },
            if w.pending.trigger_id@ == w.trigger.trigger_id@ {
                None
            } else {
                Some("pending trigger_id does not match durable trigger"@)
            },
            if w.pending.kind@ == kind_name(w.trigger.kind) {
                None
            } else {
                Some("pending runner kind does not match durable trigger"@)
            },
            if w.pending.session_id@ == w.recovery.session_id@ {
                None
            } else {
                Some("pending session_id does not match recovery locator"@)
            },
            if path::same_path(w.pending.memory_dir@, w.recovery.memory_dir@) && path::same_path(
                w.pending.project_state_dir@,
                w.recovery.project_state_dir@,
            ) {
                None
            } else {
                Some("pending paths do not match recovery locator"@)
            },
            told_path_fault(
                text::opt_view(w.trigger.runner_payload.memory_dir),
                "memory_dir"@,
                w.recovery.memory_dir@,
            ),
            if w.trigger.kind == RunnerKind::Dream {
                told_path_fault(
                    text::opt_view(w.trigger.runner_payload.project_state_dir),
                    "project_state_dir"@,
                    w.recovery.project_state_dir@,
                )
            } else if w.trigger.runner_payload.last_assistant_uuid is None {
                Some("extract runner payload is missing last_assistant_uuid"@)
            } else {
                None
            },
            if w.trigger.kind == RunnerKind::Dream {
                told_path_fault(
                    text::opt_view(w.trigger.runner_payload.transcript_dir),
                    "transcript_dir"@,
                    w.recovery.project_state_dir@,
                )
            } else if text::opt_view(w.trigger.runner_payload.last_assistant_uuid) == Some(
                w.recovery.context_leaf_uuid@,
            ) && text::opt_view(w.pending.extract_last_assistant_uuid) == Some(
                w.recovery.context_leaf_uuid@,
            ) {
                None
            } else {
                Some("extract assistant UUID does not match recovery locator"@)
            },
            if w.trigger.kind == RunnerKind::Dream && w.pending.extract_last_assistant_uuid is Some {
                Some("dream pending state must not contain extract cursor identity"@)
            } else {
                None
            },
        ],
    ensures
        work_fault(w) is None <==> forall|i: int| 0 <= i < 11 ==> #[trigger] checks[i] is None,
        work_fault(w) is Some ==> exists|i: int|
            0 <= i < 11 && #[trigger] checks[i] == work_fault(w) && forall|j: int|
                0 <= j < i ==> #[trigger] checks[j] is None,
{
    let fault = work_fault(w);
    if checks[0] is Some {
        assert(checks[0] == fault);
    } else if checks[1] is Some {
        assert(checks[1] == fault);
    } else if checks[2] is Some {
        assert(checks[2] == fault);
    } else if checks[3] is Some {
        assert(checks[3] == fault);
    } else if checks[4] is Some {
        assert(checks[4] == fault);
    } else if checks[5] is Some {
        assert(checks[5] == fault);
    } else if checks[6] is Some {
        assert(checks[6] == fault);
    } else if checks[7] is Some {
        assert(checks[7] == fault);
    } else if checks[8] is Some {
        assert(checks[8] == fault);
    } else if checks[9] is Some {
        assert(checks[9] == fault);
    } else if checks[10] is Some {
        assert(checks[10] == fault);
    }
}

/// A flag counts as it is given; one that is not given counts as agreed.
pub proof fn flags_count_as_given(flags: Map<Seq<char>, bool>, name: Seq<char>, value: bool, default: bool)
    ensures
        flag_or(flags.insert(name, value), name, default) == value,
        flag_or(flags.remove(name), name, default) == default,
{
}

/// Full hours are counted: the next one only once it is over.
pub proof fn full_hours_are_counted(from_ms: u64, to_ms: u64)
    ensures
        from_ms <= to_ms ==> hours_between(from_ms, to_ms) * 3_600_000 <= to_ms - from_ms < (
        hours_between(from_ms, to_ms) + 1) * 3_600_000,
        from_ms > to_ms ==> hours_between(from_ms, to_ms) == 0,
{
}

/// The total counts, if it is given; else the messages of the assistant do, and without either nothing is new. Only the
/// total tells how many messages the model sees.
pub proof fn totals_count_first(counts: Map<Seq<char>, u64>, total: u64, assistant: u64)
    ensures
        new_messages(counts.insert("total"@, total)) == total,
        total_messages(counts.insert("total"@, total)) == Some(total),
        !counts.contains_key("total"@) ==> new_messages(counts.insert("assistant"@, assistant))
            == assistant,
        !counts.contains_key("total"@) ==> total_messages(counts) is None,
        !counts.contains_key("total"@) && !counts.contains_key("assistant"@) ==> new_messages(counts)
            == 0,
{
    reveal_strlit("total");
    reveal_strlit("assistant");
    assert("total"@.len() != "assistant"@.len());
    assert(!counts.contains_key("total"@) ==> !counts.insert("assistant"@, assistant).contains_key(
        "total"@,
    ));
}

/// A dream that the user asks for runs exactly where the lock could be taken. It is forced, waits for no interval and no
/// sessions, and is told of all sessions and of the full hours since the last dream.
pub proof fn asked_dreams_run_unless_locked(
    r: RunNowPlan,
    q: DreamRunNowRequest,
    findings: DreamNowFindings,
    trigger_id: Seq<char>,
)
    requires
        plans_dream(r, q, findings, trigger_id),
    ensures
        r.response.triggers@.len() == (if findings.prior_mtime_ms is Some {
            1nat
        } else {
            0nat
        }),
        r.pending is Some <==> findings.prior_mtime_ms is Some,
        findings.prior_mtime_ms is None ==> (r.response.gate_skip_reason matches Some(reason)
            && reason@ == "lock_held"@),
        findings.prior_mtime_ms is Some ==> {
            let t = r.response.triggers@[0];
            &&& r.response.gate_skip_reason is None
            &&& t.kind == RunnerKind::Dream
            &&& t.trigger_id@ == trigger_id
            &&& t.runner_payload.force == Some(true)
            &&& t.runner_payload.memory_dir is Some && t.runner_payload.memory_dir->0@
                == q.memory_dir@
            &&& t.lock_token is Some && t.lock_token->0@ == findings.lock_token@
            &&& t.runner_payload.details matches RunnerDetails::Dream {
                session_ids,
                sessions_since_last_consolidation,
                last_consolidated_at_ms,
                hours_since_last_consolidation,
                prior_mtime_ms,
                min_hours,
                min_sessions,
            }
            &&& session_ids@ == findings.session_ids@
            &&& sessions_since_last_consolidation == findings.session_ids@.len()
            &&& last_consolidated_at_ms == findings.last_consolidated_at_ms
            &&& (findings.last_consolidated_at_ms <= q.now_ms ==> hours_since_last_consolidation
                == (q.now_ms - findings.last_consolidated_at_ms) / 3_600_000)
            &&& prior_mtime_ms == findings.prior_mtime_ms->0
            &&& min_hours == 0
            &&& min_sessions == 0
            &&& r.pending->0.kind@ == "dream"@
            &&& r.pending->0.trigger_id@ == trigger_id
            &&& r.pending->0.session_id@ == q.session_id@
            &&& r.pending->0.memory_dir@ == q.memory_dir@
            &&& r.pending->0.project_state_dir@ == findings.project_state_dir@
            &&& r.pending->0.lock_token is Some && r.pending->0.lock_token->0@
                == findings.lock_token@
            &&& r.pending->0.prior_mtime_ms == findings.prior_mtime_ms
            &&& r.pending->0.extract_last_assistant_uuid is None
            &&& r.pending->0.registered_at_ms == findings.registered_at_ms
        },
{
}

/// What is awaited of an extraction names the message that it goes up to, and no lock.
pub proof fn extractions_are_awaited_up_to_their_message(
    p: PendingRunner,
    trigger_id: Seq<char>,
    session_id: Seq<char>,
    memory_dir: Seq<char>,
    project_state_dir: Seq<char>,
    last_assistant_uuid: Seq<char>,
    total_model_visible: Option<u64>,
    registered_at_ms: u64,
)
    requires
        is_extract_pending(
            p,
            trigger_id,
            session_id,
            memory_dir,
            project_state_dir,
            last_assistant_uuid,
            total_model_visible,
            registered_at_ms,
        ),
    ensures
        p.kind@ == "extract"@,
        p.trigger_id@ == trigger_id,
        p.session_id@ == session_id,
        p.memory_dir@ == memory_dir,
        p.project_state_dir@ == project_state_dir,
        p.lock_token is None,
        p.prior_mtime_ms is None,
        p.extract_last_assistant_uuid is Some,
        p.extract_last_assistant_uuid->0@ == last_assistant_uuid,
        p.extract_total_model_visible == total_model_visible,
        p.registered_at_ms == registered_at_ms,
{
}

/// A plan that declines says why, starts nothing and awaits nothing.
pub proof fn declined_plans_start_nothing(p: RunNowPlan, reason: Seq<char>)
    requires
        declines(p, reason),
    ensures
        p.response.triggers@.len() == 0,
        p.response.gate_skip_reason is Some,
        p.response.gate_skip_reason->0@ == reason,
        p.pending is None,
{
}

/// A validation succeeds exactly where nothing is wrong, and else says what is.
pub proof fn validations_report_the_fault(r: Result<(), InvalidRecovery>, fault: Option<Seq<char>>)
    requires
        found(r, fault),
    ensures
        r is Ok <==> fault is None,
        r matches Err(e) ==> fault == Some(e.message@),
{
}

} // verus!
