//! Transcripts of sessions: which files are transcripts, in which order they come, and what is said in
//! them.

use vstd::prelude::*;
use vstd::string::StringExecFns;
use crate::json;
use crate::json::{Json, JsonView};
use crate::path;
use crate::text;
use crate::uuid_text;

verus! {

pub const TASK_TYPE_AGENT: &'static str = "AgentTask";

pub const TASK_TYPE_MAIN_SESSION: &'static str = "MainSessionTask";

/// What stands in place of turns that were left out.
pub const EARLIER_MARKER: &'static str = "…[earlier turns truncated]…\n\n";

/// A transcript.
#[derive(Debug, Clone)]
pub struct TranscriptMeta {
    pub path: String,
    pub mtime_ms: u64,
    pub size_bytes: u64,
    pub session_id: Option<String>,
    pub task_id: Option<String>,
    pub task_type: Option<String>,
}

pub struct TranscriptView {
    pub path: Seq<char>,
    pub mtime_ms: u64,
    pub size_bytes: u64,
    pub session_id: Option<Seq<char>>,
    pub task_id: Option<Seq<char>>,
    pub task_type: Option<Seq<char>>,
}

impl View for TranscriptMeta {
    type V = TranscriptView;

    open spec fn view(&self) -> TranscriptView {
        TranscriptView {
            path: self.path@,
            mtime_ms: self.mtime_ms,
            size_bytes: self.size_bytes,
            session_id: text::opt_view(self.session_id),
            task_id: text::opt_view(self.task_id),
            task_type: text::opt_view(self.task_type),
        }
    }
}

pub open spec fn transcript_views(v: Seq<TranscriptMeta>) -> Seq<TranscriptView> {
    Seq::new(v.len(), |i: int| v[i]@)
}

// ---------------------------------------------------------------------------
// File names
// ---------------------------------------------------------------------------

/// The session whose main transcript has the given file name: a UUID, or a UUID with a topic behind it.
pub open spec fn main_session(name: Seq<char>) -> Option<Seq<char>> {
    match text::strip_suffix(name, ".jsonl"@) {
        Some(stem) => if uuid_text::is_hyphenated(stem) {
            Some(stem)
        } else {
            match text::split_once(stem, "-topic-"@) {
                Some(p) => if uuid_text::is_hyphenated(p.0) && p.1.len() > 0 {
                    Some(p.0)
                } else {
                    None
                },
                None => None,
            }
        },
        None => None,
    }
}

/// See [`main_session`].
pub fn parse_main_session_file_name(file_name: &str) -> (r: Option<String>)
    ensures
        text::opt_view(r) == main_session(file_name@),
{
    let stem = match text::without_suffix(file_name, ".jsonl") {
        Some(stem) => stem,
        None => {
            return None;
        },
    };
    if uuid_text::is_uuid(stem.as_str()) {
        return Some(stem);
    }
    match text::cut_first(stem.as_str(), "-topic-") {
        Some(p) => if uuid_text::is_uuid(p.0.as_str()) && !p.1.as_str().is_empty() {
            Some(p.0)
        } else {
            None
        },
        None => None,
    }
}

/// The task whose transcript has the given file name.
pub open spec fn agent_task(name: Seq<char>) -> Option<Seq<char>> {
    match text::strip_prefix(name, "agent-"@) {
        Some(rest) => match text::strip_suffix(rest, ".jsonl"@) {
            Some(stem) => if stem.len() == 0 {
                None
            } else {
                Some(stem)
            },
            None => None,
        },
        None => None,
    }
}

/// See [`agent_task`].
pub fn parse_agent_transcript_file_name(file_name: &str) -> (r: Option<String>)
    ensures
        text::opt_view(r) == agent_task(file_name@),
{
    match text::without_prefix(file_name, "agent-") {
        Some(rest) => match text::without_suffix(rest.as_str(), ".jsonl") {
            Some(stem) => if stem.as_str().is_empty() {
                None
            } else {
                Some(stem)
            },
            None => None,
        },
        None => None,
    }
}

/// Every session that a file name tells is a UUID.
pub proof fn main_sessions_are_uuids(name: Seq<char>)
    ensures
        main_session(name) matches Some(id) ==> uuid_text::is_hyphenated(id),
{
}

/// The transcript of a main session; none where the file is no such transcript, or empty.
pub open spec fn main_transcript(name: Seq<char>, path: Seq<char>, size: u64, mtime_ms: u64) -> Option<
    TranscriptView,
> {
    match main_session(name) {
        Some(id) => if size == 0 {
            None
        } else {
            Some(
                TranscriptView {
                    path,
                    mtime_ms,
                    size_bytes: size,
                    session_id: Some(id),
                    task_id: None,
                    task_type: Some(TASK_TYPE_MAIN_SESSION@),
                },
            )
        },
        None => None,
    }
}

/// See [`main_transcript`].
pub fn scan_main_session_file(file_name: &str, path: String, size_bytes: u64, mtime_ms: u64) -> (r:
    Option<TranscriptMeta>)
    ensures
        match main_transcript(file_name@, path@, size_bytes, mtime_ms) {
            Some(v) => r matches Some(m) && m@ == v,
            None => r is None,
        },
{
    match parse_main_session_file_name(file_name) {
        Some(id) => if size_bytes == 0 {
            None
        } else {
            Some(
                TranscriptMeta {
                    path,
                    mtime_ms,
                    size_bytes,
                    session_id: Some(id),
                    task_id: None,
                    task_type: Some(TASK_TYPE_MAIN_SESSION.to_owned()),
                },
            )
        },
        None => None,
    }
}

/// The transcript of a task of a session; none where the file is no such transcript, or empty.
pub open spec fn agent_transcript(
    session_id: Seq<char>,
    name: Seq<char>,
    path: Seq<char>,
    size: u64,
    mtime_ms: u64,
) -> Option<TranscriptView> {
    match agent_task(name) {
        Some(task) => if size == 0 {
            None
        } else {
            Some(
                TranscriptView {
                    path,
                    mtime_ms,
                    size_bytes: size,
                    session_id: Some(session_id),
                    task_id: Some(task),
                    task_type: Some(TASK_TYPE_AGENT@),
                },
            )
        },
        None => None,
    }
}

/// See [`agent_transcript`].
pub fn scan_agent_file(
    session_id: &str,
    file_name: &str,
    path: String,
    size_bytes: u64,
    mtime_ms: u64,
) -> (r: Option<TranscriptMeta>)
    ensures
        match agent_transcript(session_id@, file_name@, path@, size_bytes, mtime_ms) {
            Some(v) => r matches Some(m) && m@ == v,
            None => r is None,
        },
{
    match parse_agent_transcript_file_name(file_name) {
        Some(task) => if size_bytes == 0 {
            None
        } else {
            Some(
                TranscriptMeta {
                    path,
                    mtime_ms,
                    size_bytes,
                    session_id: Some(session_id.to_owned()),
                    task_id: Some(task),
                    task_type: Some(TASK_TYPE_AGENT.to_owned()),
                },
            )
        },
        None => None,
    }
}

// ---------------------------------------------------------------------------
// Order
// ---------------------------------------------------------------------------

/// Transcripts ordered by path, with one more among them, behind those of the same path.
pub open spec fn insert_by_path(s: Seq<TranscriptView>, x: TranscriptView) -> Seq<TranscriptView>
    decreases s.len(),
{
    if s.len() == 0 || path::le(s.last().path, x.path) {
        s.push(x)
    } else {
        insert_by_path(s.drop_last(), x).push(s.last())
    }
}

/// Transcripts ordered by path.
pub open spec fn by_path(s: Seq<TranscriptView>) -> Seq<TranscriptView>
    decreases s.len(),
{
    if s.len() == 0 {
        Seq::empty()
    } else {
        insert_by_path(by_path(s.drop_last()), s.last())
    }
}

fn insert_meta(out: &mut Vec<TranscriptMeta>, x: TranscriptMeta)
    ensures
        transcript_views(final(out)@) == insert_by_path(transcript_views(old(out)@), x@),
{
    let ghost all = transcript_views(out@);
    let mut p: usize = out.len();
    assert(all.take(all.len() as int) =~= all);
    assert(insert_by_path(all, x@) + all.skip(all.len() as int) =~= insert_by_path(all, x@));
    while p > 0 && !path::precedes(out[p - 1].path.as_str(), x.path.as_str())
        invariant
            p <= out@.len(),
            all == transcript_views(out@),
            insert_by_path(all, x@) == insert_by_path(all.take(p as int), x@) + all.skip(p as int),
        decreases p,
    {
        proof {
            let t = all.take(p as int);
            assert(t.last() == out@[p - 1]@);
            assert(t.drop_last() =~= all.take(p - 1));
            assert(insert_by_path(t.drop_last(), x@).push(t.last()) + all.skip(p as int)
                =~= insert_by_path(all.take(p - 1), x@) + all.skip(p - 1));
        }
        p = p - 1;
    }
    proof {
        if p > 0 {
            assert(all.take(p as int).last() == out@[p - 1]@);
        }
    }
    let ghost v = x@;
    out.insert(p, x);
    assert(transcript_views(out@) =~= all.take(p as int).push(v) + all.skip(p as int));
}

/// The transcripts that were found, ordered by path.
pub fn scan_transcript_dir(found: Vec<TranscriptMeta>) -> (r: Vec<TranscriptMeta>)
    ensures
        transcript_views(r@) == by_path(transcript_views(found@)),
{
    let ghost all = transcript_views(found@);
    let mut rest = found;
    let mut reversed: Vec<TranscriptMeta> = Vec::new();
    while rest.len() > 0
        invariant
            all.len() == rest@.len() + reversed@.len(),
            forall|i: int| 0 <= i < rest@.len() ==> (#[trigger] rest@[i])@ == all[i],
            forall|i: int|
                0 <= i < reversed@.len() ==> (#[trigger] reversed@[i])@ == all[all.len() - 1 - i],
        decreases rest@.len(),
    {
        if let Some(m) = rest.pop() {
            reversed.push(m);
        }
    }
    let mut out: Vec<TranscriptMeta> = Vec::new();
    assert(transcript_views(out@) =~= by_path(all.take(0)));
    let ghost mut n: int = 0;
    while reversed.len() > 0
        invariant
            n + reversed@.len() == all.len(),
            0 <= n,
            forall|i: int|
                0 <= i < reversed@.len() ==> (#[trigger] reversed@[i])@ == all[all.len() - 1 - i],
            transcript_views(out@) == by_path(all.take(n)),
        decreases reversed@.len(),
    {
        if let Some(m) = reversed.pop() {
            proof {
                assert(m@ == all[n]);
                assert(all.take(n + 1).drop_last() =~= all.take(n));
                assert(all.take(n + 1).last() == all[n]);
                n = n + 1;
            }
            insert_meta(&mut out, m);
        }
    }
    assert(all.take(all.len() as int) =~= all);
    out
}

proof fn lemma_insert_by_path(s: Seq<TranscriptView>, x: TranscriptView)
    requires
        forall|i: int, j: int|
            0 <= i <= j < s.len() ==> path::le(#[trigger] s[i].path, #[trigger] s[j].path),
    ensures
        ({
            let r = insert_by_path(s, x);
            &&& r.len() == s.len() + 1
            &&& r.to_multiset() == s.to_multiset().insert(x)
            &&& forall|i: int, j: int|
                0 <= i <= j < r.len() ==> path::le(#[trigger] r[i].path, #[trigger] r[j].path)
            &&& forall|i: int| 0 <= i < r.len() ==> #[trigger] r[i] == x || s.contains(r[i])
        }),
    decreases s.len(),
{
    broadcast use vstd::seq_lib::group_to_multiset_ensures;

    let r = insert_by_path(s, x);
    if s.len() == 0 || path::le(s.last().path, x.path) {
        assert forall|i: int, j: int| 0 <= i <= j < r.len() implies path::le(
            #[trigger] r[i].path,
            #[trigger] r[j].path,
        ) by {
            path::lemma_le(x.path, x.path, x.path);
            if i < s.len() && j == s.len() {
                assert(path::le(s[i].path, s[s.len() - 1].path));
                path::lemma_le(s[i].path, s[s.len() - 1].path, x.path);
            }
        }
        assert forall|i: int| 0 <= i < r.len() implies #[trigger] r[i] == x || s.contains(
            r[i],
        ) by {
            if i < s.len() {
                assert(s[i] == r[i]);
            }
        }
    } else {
        let d = s.drop_last();
        assert forall|i: int, j: int| 0 <= i <= j < d.len() implies path::le(
            #[trigger] d[i].path,
            #[trigger] d[j].path,
        ) by {
            assert(d[i] == s[i] && d[j] == s[j]);
        }
        lemma_insert_by_path(d, x);
        let m = insert_by_path(d, x);
        assert(s =~= d.push(s.last()));
        assert forall|i: int| 0 <= i < m.len() implies path::le(
            #[trigger] m[i].path,
            s.last().path,
        ) by {
            path::lemma_le(s.last().path, x.path, x.path);
            if m[i] != x {
                assert(d.contains(m[i]));
                let k = choose|k: int| 0 <= k < d.len() && d[k] == m[i];
                assert(s[k] == m[i]);
                assert(path::le(s[k].path, s[s.len() - 1].path));
            }
        }
        assert forall|i: int, j: int| 0 <= i <= j < r.len() implies path::le(
            #[trigger] r[i].path,
            #[trigger] r[j].path,
        ) by {
            path::lemma_le(s.last().path, x.path, x.path);
            if i < m.len() {
                assert(r[i] == m[i]);
                if j < m.len() {
                    assert(r[j] == m[j]);
                }
            }
        }
        assert forall|i: int| 0 <= i < r.len() implies #[trigger] r[i] == x || s.contains(
            r[i],
        ) by {
            if i < m.len() {
                assert(r[i] == m[i]);
                if m[i] != x {
                    assert(d.contains(m[i]));
                    let k = choose|k: int| 0 <= k < d.len() && d[k] == m[i];
                    assert(s[k] == m[i]);
                }
            } else {
                assert(s[s.len() - 1] == r[i]);
            }
        }
        assert(r.to_multiset() =~= s.to_multiset().insert(x));
    }
}

/// Transcripts come out ordered by path, each as often as it was found.
pub proof fn transcripts_are_ordered(s: Seq<TranscriptView>)
    ensures
        by_path(s).to_multiset() == s.to_multiset(),
        forall|i: int, j: int|
            0 <= i <= j < by_path(s).len() ==> path::le(
                #[trigger] by_path(s)[i].path,
                #[trigger] by_path(s)[j].path,
            ),
    decreases s.len(),
{
    broadcast use vstd::seq_lib::group_to_multiset_ensures;

    if s.len() > 0 {
        transcripts_are_ordered(s.drop_last());
        lemma_insert_by_path(by_path(s.drop_last()), s.last());
        assert(s =~= s.drop_last().push(s.last()));
    } else {
        assert(by_path(s) =~= s);
    }
}

/// The index of the transcript that was changed last, among the first `n` ones that belong to the given
/// session, or among all of them; of several, the last.
pub open spec fn latest(s: Seq<TranscriptView>, session: Option<Seq<char>>, n: int) -> Option<int>
    decreases n,
{
    if n <= 0 {
        None
    } else {
        let before = latest(s, session, n - 1);
        if session is Some && s[n - 1].session_id != session {
            before
        } else {
            match before {
                Some(k) => if s[k].mtime_ms > s[n - 1].mtime_ms {
                    Some(k)
                } else {
                    Some(n - 1)
                },
                None => Some(n - 1),
            }
        }
    }
}

/// The transcript of a session; where the session has none, the one that was changed last.
pub open spec fn chosen(s: Seq<TranscriptView>, session: Option<Seq<char>>) -> Option<int> {
    match latest(s, session, s.len() as int) {
        Some(k) => Some(k),
        None => latest(s, None, s.len() as int),
    }
}

fn belongs(m: &TranscriptMeta, session: &Option<String>) -> (r: bool)
    ensures
        r == (text::opt_view(*session) is None || m@.session_id == text::opt_view(*session)),
{
    match session {
        Some(id) => match &m.session_id {
            Some(own) => text::same(own.as_str(), id.as_str()),
            None => false,
        },
        None => true,
    }
}

fn latest_of(metas: &Vec<TranscriptMeta>, session: &Option<String>) -> (r: Option<usize>)
    ensures
        match latest(
            transcript_views(metas@),
            text::opt_view(*session),
            metas@.len() as int,
        ) {
            Some(k) => r matches Some(i) && i == k && i < metas@.len(),
            None => r is None,
        },
{
    let ghost all = transcript_views(metas@);
    let ghost id = text::opt_view(*session);
    let mut best: Option<usize> = None;
    let mut i: usize = 0;
    while i < metas.len()
        invariant
            i <= metas@.len(),
            all == transcript_views(metas@),
            id == text::opt_view(*session),
            match latest(all, id, i as int) {
                Some(k) => best matches Some(b) && b == k && b < i,
                None => best is None,
            },
        decreases metas@.len() - i,
    {
        assert(all[i as int] == metas@[i as int]@);
        if belongs(&metas[i], session) {
            best = match best {
                Some(b) => {
                    assert(all[b as int] == metas@[b as int]@);
                    if metas[b].mtime_ms > metas[i].mtime_ms {
                        Some(b)
                    } else {
                        Some(i)
                    }
                },
                None => Some(i),
            };
        }
        i = i + 1;
    }
    best
}

/// See [`chosen`].
pub fn choose_transcript(metas: &Vec<TranscriptMeta>, current_session_id: &Option<String>) -> (r: Option<
    usize,
>)
    ensures
        match chosen(transcript_views(metas@), text::opt_view(*current_session_id)) {
            Some(k) => r matches Some(i) && i == k && i < metas@.len(),
            None => r is None,
        },
{
    match latest_of(metas, current_session_id) {
        Some(i) => Some(i),
        None => {
            let any: Option<String> = None;
            latest_of(metas, &any)
        },
    }
}

/// The transcript that is chosen belongs to the session if any does, and none of those was changed later.
pub proof fn chosen_transcript_is_latest(s: Seq<TranscriptView>, session: Option<Seq<char>>, n: int)
    requires
        0 <= n <= s.len(),
    ensures
        match latest(s, session, n) {
            Some(k) => 0 <= k < n && (session is Some ==> s[k].session_id == session) && forall|
                i: int,
            |
                0 <= i < n && (session is Some ==> (#[trigger] s[i]).session_id == session)
                    ==> s[i].mtime_ms <= s[k].mtime_ms,
            None => forall|i: int|
                0 <= i < n ==> session is Some && (#[trigger] s[i]).session_id != session,
        },
    decreases n,
{
    if n > 0 {
        chosen_transcript_is_latest(s, session, n - 1);
    }
}

// ---------------------------------------------------------------------------
// Contents
// ---------------------------------------------------------------------------

/// The texts of the first `n` blocks; blocks of another type and empty ones say nothing.
pub open spec fn text_blocks(items: Seq<JsonView>, n: int) -> Seq<Seq<char>>
    decreases n,
{
    if n <= 0 {
        Seq::empty()
    } else {
        let before = text_blocks(items, n - 1);
        if json::as_text(json::member(items[n - 1], "type"@)) != Some("text"@) {
            before
        } else {
            match json::as_text(json::member(items[n - 1], "text"@)) {
                Some(t) => if t.len() == 0 {
                    before
                } else {
                    before.push(t)
                },
                None => before,
            }
        }
    }
}

/// What the content of a message says: a text as it is, or the texts of its blocks.
pub open spec fn message_text(content: Option<JsonView>) -> Seq<char> {
    match content {
        Some(JsonView::Str(s)) => s,
        Some(JsonView::Array(items)) => text::join(text_blocks(items, items.len() as int), " "@),
        _ => Seq::empty(),
    }
}

fn text_of_block(block: &Json) -> (r: Option<String>)
    ensures
        text::opt_view(r) == (if json::as_text(json::member(block@, "type"@)) != Some("text"@) {
            None
        } else {
            match json::as_text(json::member(block@, "text"@)) {
                Some(t) => if t.len() == 0 {
                    None
                } else {
                    Some(t)
                },
                None => None,
            }
        }),
{
    let is_text = match block.get("type") {
        Some(j) => match j.text() {
            Some(t) => text::same(t.as_str(), "text"),
            None => false,
        },
        None => false,
    };
    if !is_text {
        return None;
    }
    match block.get("text") {
        Some(j) => match j.text() {
            Some(t) => if t.as_str().is_empty() {
                None
            } else {
                Some(t.clone())
            },
            None => None,
        },
        None => None,
    }
}

/// See [`message_text`].
pub fn extract_message_text(content: Option<&Json>) -> (r: String)
    ensures
        r@ == message_text(json::opt_json_view(content)),
{
    let value = match content {
        Some(v) => v,
        None => {
            return String::new();
        },
    };
    if let Some(s) = value.text() {
        return s.clone();
    }
    let items = match value.items() {
        Some(items) => items,
        None => {
            return String::new();
        },
    };
    let ghost all = json::item_views(items@);
    let mut parts: Vec<String> = Vec::new();
    assert(text::views(parts@) =~= Seq::empty());
    let mut i: usize = 0;
    while i < items.len()
        invariant
            i <= items@.len(),
            all == json::item_views(items@),
            text::views(parts@) == text_blocks(all, i as int),
        decreases items@.len() - i,
    {
        assert(all[i as int] == items@[i as int]@);
        if let Some(t) = text_of_block(&items[i]) {
            proof {
                text::lemma_views_push(parts@, t);
            }
            parts.push(t);
        }
        i = i + 1;
    }
    text::joined(&parts, " ")
}

/// Who speaks in a record: the role of its message, or else the type of the record.
pub open spec fn role_in(v: JsonView, message: JsonView) -> Seq<char> {
    match json::as_text(json::member(message, "role"@)) {
        Some(role) => role,
        None => json::text_or_empty(v, "type"@),
    }
}

/// The turn that a record holds, if it is one of the user or the assistant in the main conversation.
pub open spec fn turn_in(v: JsonView) -> Option<Seq<char>> {
    if json::is_true(json::member(v, "isSidechain"@)) {
        None
    } else {
        match json::member(v, "message"@) {
            Some(message) => {
                let role = role_in(v, message);
                let said = text::trim(message_text(json::member(message, "content"@)));
                if (role == "user"@ || role == "assistant"@) && said.len() > 0 {
                    Some(role + ": "@ + said)
                } else {
                    None
                }
            },
            None => None,
        }
    }
}

/// See [`turn_in`].
pub fn turn_of(v: &Json) -> (r: Option<String>)
    ensures
        text::opt_view(r) == turn_in(v@),
{
    let aside = match v.get("isSidechain") {
        Some(j) => j.truth(),
        None => false,
    };
    if aside {
        return None;
    }
    match v.get("message") {
        Some(message) => {
            let own = match message.get("role") {
                Some(j) => match j.text() {
                    Some(t) => Some(t.clone()),
                    None => None,
                },
                None => None,
            };
            let role = match own {
                Some(role) => role,
                None => json::member_text(v, "type"),
            };
            if !text::same(role.as_str(), "user") && !text::same(role.as_str(), "assistant") {
                return None;
            }
            let whole = extract_message_text(message.get("content"));
            let said = text::trimmed(whole.as_str());
            if said.as_str().is_empty() {
                return None;
            }
            let mut turn = role;
            turn.append(": ");
            turn.append(said.as_str());
            Some(turn)
        },
        None => None,
    }
}

/// The turns in the first `n` lines of a transcript; a line that is no record says nothing.
pub open spec fn turns_in(ls: Seq<Seq<char>>, n: int) -> Seq<Seq<char>>
    decreases n,
{
    if n <= 0 {
        Seq::empty()
    } else {
        let before = turns_in(ls, n - 1);
        let line = text::trim(ls[n - 1]);
        if line.len() == 0 {
            before
        } else {
            match json::json_of(line) {
                Some(v) => match turn_in(v) {
                    Some(turn) => before.push(turn),
                    None => before,
                },
                None => before,
            }
        }
    }
}

/// A text of at most the given length: the text, or a marker and as much of its end as goes with it. Where the
/// length is less than that of the marker, a longer text becomes the bare marker, which is then too long as well.
pub open spec fn tail_kept(s: Seq<char>, max_chars: int) -> Seq<char> {
    let marker = EARLIER_MARKER@;
    if s.len() <= max_chars {
        s
    } else if max_chars <= marker.len() {
        marker
    } else {
        marker + s.skip(s.len() - (max_chars - marker.len()))
    }
}

/// See [`tail_kept`].
pub fn tail_truncate(s: &str, max_chars: usize) -> (r: String)
    ensures
        r@ == tail_kept(s@, max_chars as int),
{
    let v = text::chars_of(s);
    if v.len() <= max_chars {
        return s.to_owned();
    }
    let marker = text::chars_of(EARLIER_MARKER);
    let keep: usize = if max_chars > marker.len() {
        max_chars - marker.len()
    } else {
        0
    };
    let tail = text::string_of(&v, v.len() - keep, v.len());
    let mut out = EARLIER_MARKER.to_owned();
    out.append(tail.as_str());
    assert(out@ =~= tail_kept(s@, max_chars as int));
    out
}

/// What is kept of a text has the given length at most, if the marker does, and ends as the text does.
pub proof fn tail_fits_and_is_recent(s: Seq<char>, max_chars: int)
    requires
        EARLIER_MARKER@.len() <= max_chars,
    ensures
        tail_kept(s, max_chars).len() <= max_chars,
        s.len() > max_chars ==> {
            let kept = tail_kept(s, max_chars).skip(EARLIER_MARKER@.len() as int);
            kept == s.skip(s.len() - kept.len())
        },
{
    if s.len() > max_chars {
        let m = EARLIER_MARKER@;
        let kept = tail_kept(s, max_chars).skip(m.len() as int);
        if max_chars > m.len() {
            assert(kept =~= s.skip(s.len() - (max_chars - m.len())));
        } else {
            assert(kept =~= s.skip(s.len() as int));
        }
    }
}

/// What is said in a transcript, its end where it is too long.
pub fn read_transcript_content(raw: &str, max_chars: usize) -> (r: String)
    ensures
        r@ == tail_kept(
            text::join(
                turns_in(text::lines(raw@), text::lines(raw@).len() as int),
                "\n\n"@,
            ),
            max_chars as int,
        ),
{
    let ls = text::lines_of(raw);
    let ghost all = text::views(ls@);
    let mut turns: Vec<String> = Vec::new();
    assert(text::views(turns@) =~= Seq::empty());
    let mut i: usize = 0;
    while i < ls.len()
        invariant
            i <= ls@.len(),
            all == text::views(ls@),
            text::views(turns@) == turns_in(all, i as int),
        decreases ls@.len() - i,
    {
        assert(all[i as int] == ls@[i as int]@);
        let line = text::trimmed(ls[i].as_str());
        if !line.as_str().is_empty() {
            if let Some(v) = json::parse_json(line.as_str()) {
                if let Some(turn) = turn_of(&v) {
                    proof {
                        text::lemma_views_push(turns@, turn);
                    }
                    turns.push(turn);
                }
            }
        }
        i = i + 1;
    }
    let joined = text::joined(&turns, "\n\n");
    tail_truncate(joined.as_str(), max_chars)
}

// ---------------------------------------------------------------------------
// What the index of transcripts promises
// ---------------------------------------------------------------------------

proof fn lemma_first_topic(id: Seq<char>, topic: Seq<char>)
    requires
        uuid_text::is_hyphenated(id),
    ensures
        text::find_from(id + "-topic-"@ + topic, "-topic-"@, 0) == Some(36int),
{
    reveal_strlit("-topic-");
    let mark = "-topic-"@;
    let s = id + mark + topic;
    text::lemma_find_from(s, mark, 0);
    assert(s.subrange(36, 43) =~= mark);
    assert(text::matches_at(s, mark, 36));
    assert forall|i: int| 0 <= i < 36 implies !#[trigger] text::matches_at(s, mark, i) by {
        if text::matches_at(s, mark, i) {
            let piece = s.subrange(i, i + 7);
            if i < 35 {
                assert(piece[1] == s[i + 1]);
                assert(mark[1] == 't');
                assert(s[i + 1] == id[i + 1]);
                assert(id[i + 1] == '-' || text::is_ascii_hex(id[i + 1]));
            } else {
                assert(piece[0] == s[35]);
                assert(mark[0] == '-');
                assert(s[35] == id[35]);
                assert(!uuid_text::is_hyphen_index(35));
                assert(text::is_ascii_hex(id[35]));
            }
        }
    }
    let at = text::find_from(s, mark, 0)->0;
    if at > 36 {
        assert(!text::matches_at(s, mark, 36));
    }
}

/// The main transcript of a session is named by its UUID alone, or by its UUID and a topic, and by nothing else.
pub proof fn main_transcripts_are_named_by_their_session(
    name: Seq<char>,
    id: Seq<char>,
    topic: Seq<char>,
)
    ensures
        uuid_text::is_hyphenated(id) && name == id + ".jsonl"@ ==> main_session(name) == Some(id),
        uuid_text::is_hyphenated(id) && topic.len() > 0 && name == id + "-topic-"@ + topic
            + ".jsonl"@ ==> main_session(name) == Some(id),
        main_session(name) == Some(id) ==> uuid_text::is_hyphenated(id) && (name == id + ".jsonl"@
            || exists|t: Seq<char>|
            t.len() > 0 && name == #[trigger] (id + "-topic-"@ + t) + ".jsonl"@),
{
    reveal_strlit(".jsonl");
    reveal_strlit("-topic-");
    if uuid_text::is_hyphenated(id) && name == id + ".jsonl"@ {
        assert(name.subrange(36, 42) =~= ".jsonl"@);
        assert(name.subrange(0, 36) =~= id);
    }
    if uuid_text::is_hyphenated(id) && topic.len() > 0 && name == id + "-topic-"@ + topic + ".jsonl"@ {
        let stem = id + "-topic-"@ + topic;
        assert(name.subrange(stem.len() as int, name.len() as int) =~= ".jsonl"@);
        assert(name.subrange(0, stem.len() as int) =~= stem);
        assert(stem.len() > 36);
        lemma_first_topic(id, topic);
        assert(stem.subrange(0, 36) =~= id);
        assert(stem.subrange(43, stem.len() as int) =~= topic);
    }
    if main_session(name) == Some(id) {
        main_sessions_are_uuids(name);
        let stem = text::strip_suffix(name, ".jsonl"@)->0;
        assert(name =~= stem + ".jsonl"@) by {
            assert(name.subrange(name.len() - 6, name.len() as int) == ".jsonl"@);
            assert(name =~= name.subrange(0, name.len() - 6) + name.subrange(
                name.len() - 6,
                name.len() as int,
            ));
        }
        if !uuid_text::is_hyphenated(stem) {
            text::lemma_find_from(stem, "-topic-"@, 0);
            let at = text::find_from(stem, "-topic-"@, 0)->0;
            let t = stem.subrange(at + 7, stem.len() as int);
            assert(stem =~= stem.subrange(0, at) + stem.subrange(at, at + 7) + t);
            assert(name == (id + "-topic-"@ + t) + ".jsonl"@);
        }
    }
}

/// The transcript of a task is named by the task between `agent-` and `.jsonl`, and by nothing else.
pub proof fn agent_transcripts_are_named_by_their_task(name: Seq<char>, task: Seq<char>)
    ensures
        agent_task(name) == Some(task) <==> task.len() > 0 && name == "agent-"@ + task + ".jsonl"@,
{
    reveal_strlit("agent-");
    reveal_strlit(".jsonl");
    if task.len() > 0 && name == "agent-"@ + task + ".jsonl"@ {
        assert(name.subrange(0, 6) =~= "agent-"@);
        let rest = name.subrange(6, name.len() as int);
        assert(rest =~= task + ".jsonl"@);
        assert(rest.subrange(task.len() as int, rest.len() as int) =~= ".jsonl"@);
        assert(rest.subrange(0, task.len() as int) =~= task);
    }
    if agent_task(name) == Some(task) {
        let rest = name.subrange(6, name.len() as int);
        assert(rest =~= rest.subrange(0, rest.len() - 6) + rest.subrange(
            rest.len() - 6,
            rest.len() as int,
        ));
        assert(name =~= name.subrange(0, 6) + rest);
        assert(name =~= "agent-"@ + task + ".jsonl"@);
    }
}

/// An empty file is no transcript. Any other of a fitting name is one, with its path, its size and its time, and belongs to
/// its session, and the transcript of a task to the task too.
pub proof fn transcripts_belong_to_their_sessions(
    session_id: Seq<char>,
    name: Seq<char>,
    path: Seq<char>,
    size: u64,
    mtime_ms: u64,
)
    ensures
        main_transcript(name, path, size, mtime_ms) is Some <==> size > 0 && main_session(name) is Some,
        agent_transcript(session_id, name, path, size, mtime_ms) is Some <==> size > 0 && agent_task(
            name,
        ) is Some,
        main_transcript(name, path, size, mtime_ms) matches Some(t) ==> t.session_id == main_session(
            name,
        ) && t.task_id is None && t.task_type == Some("MainSessionTask"@) && t.path == path
            && t.size_bytes == size && t.mtime_ms == mtime_ms,
        agent_transcript(session_id, name, path, size, mtime_ms) matches Some(t) ==> t.session_id
            == Some(session_id) && t.task_id == agent_task(name) && t.task_type == Some(
            "AgentTask"@,
        ) && t.path == path && t.size_bytes == size && t.mtime_ms == mtime_ms,
{
}

proof fn lemma_latest_is_last(s: Seq<TranscriptView>, session: Option<Seq<char>>, n: int)
    requires
        0 <= n <= s.len(),
    ensures
        latest(s, session, n) matches Some(k) ==> forall|i: int|
            k < i < n && (session is Some ==> (#[trigger] s[i]).session_id == session)
                ==> s[i].mtime_ms < s[k].mtime_ms,
    decreases n,
{
    if n > 0 {
        lemma_latest_is_last(s, session, n - 1);
        chosen_transcript_is_latest(s, session, n - 1);
    }
}

/// Where a session has transcripts, the one of them that was changed last is chosen; where it has none, or none is given,
/// the one that was changed last of all. Of several that were changed at the same time the last is chosen.
pub proof fn the_transcript_of_the_session_is_chosen(
    s: Seq<TranscriptView>,
    session: Option<Seq<char>>,
)
    ensures
        ({
            let present = session is Some && exists|i: int|
                0 <= i < s.len() && (#[trigger] s[i]).session_id == session;
            &&& chosen(s, session) is Some <==> s.len() > 0
            &&& chosen(s, session) matches Some(k) ==> {
                &&& 0 <= k < s.len()
                &&& present ==> s[k].session_id == session
                &&& present ==> forall|i: int|
                    0 <= i < s.len() && (#[trigger] s[i]).session_id == session ==> s[i].mtime_ms
                        <= s[k].mtime_ms && (s[i].mtime_ms == s[k].mtime_ms ==> i <= k)
                &&& !present ==> forall|i: int|
                    0 <= i < s.len() ==> (#[trigger] s[i]).mtime_ms <= s[k].mtime_ms && (s[i].mtime_ms
                        == s[k].mtime_ms ==> i <= k)
            }
        }),
{
    let n = s.len() as int;
    chosen_transcript_is_latest(s, session, n);
    chosen_transcript_is_latest(s, None, n);
    lemma_latest_is_last(s, session, n);
    lemma_latest_is_last(s, None, n);
    if s.len() > 0 && latest(s, None, n) is None {
        assert(s[0].session_id == s[0].session_id);
    }
    if let Some(k) = latest(s, session, n) {
        if session is Some {
            assert(s[k].session_id == session);
        }
    }
}

proof fn lemma_text_blocks_front(items: Seq<JsonView>, x: JsonView, n: int)
    requires
        n <= items.len(),
    ensures
        text_blocks(items.push(x), n) == text_blocks(items, n),
    decreases n,
{
    if n > 0 {
        lemma_text_blocks_front(items, x, n - 1);
    }
}

/// A message that is a text says that text; one of blocks says the texts of its text blocks in their order, and anything
/// else says nothing. A block of another type, and one without a text, adds nothing.
pub proof fn messages_say_their_text_blocks(items: Seq<JsonView>, x: JsonView, s: Seq<char>)
    ensures
        message_text(Some(JsonView::Str(s))) == s,
        message_text(None).len() == 0,
        ({
            let before = text_blocks(items, items.len() as int);
            let after = text_blocks(items.push(x), items.len() as int + 1);
            &&& message_text(Some(JsonView::Array(items))) == text::join(before, " "@)
            &&& json::member(x, "type"@) != Some(JsonView::Str("text"@)) ==> after == before
            &&& !(json::member(x, "text"@) is Some && json::member(x, "text"@)->0 is Str) ==> after
                == before
            &&& json::member(x, "text"@) == Some(JsonView::Str(Seq::empty())) ==> after == before
            &&& json::member(x, "type"@) == Some(JsonView::Str("text"@)) && json::member(
                x,
                "text"@,
            ) == Some(JsonView::Str(s)) && s.len() > 0 ==> after == before.push(s)
        }),
        text_blocks(Seq::empty(), 0).len() == 0,
{
    lemma_text_blocks_front(items, x, items.len() as int);
    let t = json::member(x, "type"@);
    match t {
        Some(JsonView::Str(k)) => {
            assert(json::as_text(t) == Some(k));
        },
        _ => {},
    }
}

/// A record is a turn exactly where it does not stand aside, has a message of the user or the assistant, and the message
/// says something; the turn then names who speaks and what is said. The role of the message counts before the type of the
/// record.
pub proof fn turns_name_their_speaker(v: JsonView, message: JsonView, said: Seq<char>, role: Seq<char>)
    requires
        json::member(v, "message"@) == Some(message),
        said == text::trim(message_text(json::member(message, "content"@))),
        json::member(message, "role"@) == Some(JsonView::Str(role)) || (!(json::member(
            message,
            "role"@,
        ) is Some && json::member(message, "role"@)->0 is Str) && json::member(v, "type"@) == Some(
            JsonView::Str(role),
        )),
    ensures
        turn_in(v) is Some <==> json::member(v, "isSidechain"@) != Some(JsonView::Bool(true)) && (role
            == "user"@ || role == "assistant"@) && said.len() > 0,
        turn_in(v) matches Some(turn) ==> turn == role + ": "@ + said,
{
}

/// A record without a message is no turn.
pub proof fn records_without_messages_say_nothing(v: JsonView)
    ensures
        json::member(v, "message"@) is None ==> turn_in(v) is None,
{
}

proof fn lemma_turns_front(ls: Seq<Seq<char>>, x: Seq<char>, n: int)
    requires
        n <= ls.len(),
    ensures
        turns_in(ls.push(x), n) == turns_in(ls, n),
    decreases n,
{
    if n > 0 {
        lemma_turns_front(ls, x, n - 1);
    }
}

/// The turns of a transcript come in the order of their lines; a line that is no record, or no turn, is passed over.
pub proof fn turns_come_in_order(ls: Seq<Seq<char>>, x: Seq<char>)
    ensures
        turns_in(Seq::empty(), 0).len() == 0,
        ({
            let before = turns_in(ls, ls.len() as int);
            let after = turns_in(ls.push(x), ls.len() as int + 1);
            &&& text::is_blank(x) ==> after == before
            &&& json::json_of(text::trim(x)) is None ==> after == before
            &&& json::json_of(text::trim(x)) matches Some(v) ==> turn_in(v) is None ==> after == before
            &&& json::json_of(text::trim(x)) matches Some(v) ==> (turn_in(v) matches Some(turn)
                ==> !text::is_blank(x) ==> after == before.push(turn))
        }),
{
    lemma_turns_front(ls, x, ls.len() as int);
}

/// A text that is not too long is kept whole; of a longer one the end is kept behind a mark, so that both together have the
/// given length.
pub proof fn the_end_is_kept(s: Seq<char>, max_chars: int)
    ensures
        s.len() <= max_chars ==> tail_kept(s, max_chars) == s,
        s.len() > max_chars ==> text::starts_with(
            tail_kept(s, max_chars),
            "…[earlier turns truncated]…\n\n"@,
        ),
        s.len() > max_chars && max_chars >= "…[earlier turns truncated]…\n\n"@.len() ==> tail_kept(
            s,
            max_chars,
        ).len() == max_chars && forall|i: int|
            0 <= i < max_chars - "…[earlier turns truncated]…\n\n"@.len() ==> #[trigger] tail_kept(
                s,
                max_chars,
            )[max_chars - 1 - i] == s[s.len() - 1 - i],
{
    let m = "…[earlier turns truncated]…\n\n"@;
    let kept = tail_kept(s, max_chars);
    if s.len() > max_chars {
        assert(kept.subrange(0, m.len() as int) =~= m);
    }
}

} // verus!
