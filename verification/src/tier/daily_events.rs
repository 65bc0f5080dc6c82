//! Events that the dreams and the imagination leave in the log of the day.

use vstd::prelude::*;
use vstd::string::StringExecFns;
use crate::path;
use crate::text;
use crate::tier::tier3_imagination::SNIPPET_CHARS;

verus! {

/// An event of the log, and the transcript that it is booked under. The payload is an object of texts.
#[derive(Debug, Clone)]
pub struct DailyEvent {
    pub session_id: String,
    pub transcript_path: String,
    pub event_id: String,
    pub kind: String,
    pub occurred_at_ms: u64,
    pub payload: Vec<(String, String)>,
}

pub struct DailyEventView {
    pub session_id: Seq<char>,
    pub transcript_path: Seq<char>,
    pub event_id: Seq<char>,
    pub kind: Seq<char>,
    pub occurred_at_ms: u64,
    pub payload: Seq<(Seq<char>, Seq<char>)>,
}

/// The names and values of a payload.
pub open spec fn members(payload: Seq<(String, String)>) -> Seq<(Seq<char>, Seq<char>)> {
    Seq::new(payload.len(), |i: int| (payload[i].0@, payload[i].1@))
}

impl View for DailyEvent {
    type V = DailyEventView;

    open spec fn view(&self) -> DailyEventView {
        DailyEventView {
            session_id: self.session_id@,
            transcript_path: self.transcript_path@,
            event_id: self.event_id@,
            kind: self.kind@,
            occurred_at_ms: self.occurred_at_ms,
            payload: members(self.payload@),
        }
    }
}

/// An event of the given source: it is booked under a transcript of that name that nobody writes.
pub open spec fn booked(
    source: Seq<char>,
    project_state_dir: Seq<char>,
    event_id: Seq<char>,
    kind: Seq<char>,
    occurred_at_ms: u64,
    payload: Seq<(Seq<char>, Seq<char>)>,
) -> DailyEventView {
    DailyEventView {
        session_id: source,
        transcript_path: path::under(project_state_dir, source + ".jsonl"@),
        event_id,
        kind,
        occurred_at_ms,
        payload,
    }
}

fn book(
    source: &str,
    project_state_dir: &str,
    event_id: String,
    kind: &str,
    occurred_at_ms: u64,
    payload: Vec<(String, String)>,
) -> (r: DailyEvent)
    ensures
        r@ == booked(
            source@,
            project_state_dir@,
            event_id@,
            kind@,
            occurred_at_ms,
            members(payload@),
        ),
{
    let mut name = source.to_owned();
    name.append(".jsonl");
    DailyEvent {
        session_id: source.to_owned(),
        transcript_path: path::child(project_state_dir, name.as_str()),
        event_id,
        kind: kind.to_owned(),
        occurred_at_ms,
        payload,
    }
}

fn one_member(name: &str, value: &str) -> (r: Vec<(String, String)>)
    ensures
        members(r@) == seq![(name@, value@)],
{
    let mut out: Vec<(String, String)> = Vec::new();
    out.push((name.to_owned(), value.to_owned()));
    assert(members(out@) =~= seq![(name@, value@)]);
    out
}

/// The event for the `count`-th reply of a dream that could not be read, in the given phase.
pub open spec fn parse_failure_event(
    project_state_dir: Seq<char>,
    phase: Seq<char>,
    occurred_at_ms: u64,
    count: u32,
) -> DailyEventView {
    booked(
        "tier3-dream"@,
        project_state_dir,
        "tier3-dream-parse-failure-"@ + phase + "-"@ + text::decimal(occurred_at_ms as nat) + "-"@
            + text::decimal(count as nat),
        "memory.dream.parse_failure"@,
        occurred_at_ms,
        seq![("phase"@, phase)],
    )
}

/// See [`parse_failure_event`].
pub fn record_parse_failure(
    project_state_dir: &str,
    phase: &str,
    occurred_at_ms: u64,
    count: u32,
) -> (r: DailyEvent)
    ensures
        r@ == parse_failure_event(project_state_dir@, phase@, occurred_at_ms, count),
{
    let mut id = "tier3-dream-parse-failure-".to_owned();
    id.append(phase);
    id.append("-");
    let ms = text::decimal_of(occurred_at_ms);
    id.append(ms.as_str());
    id.append("-");
    let n = text::decimal_of(count as u64);
    id.append(n.as_str());
    book(
        "tier3-dream",
        project_state_dir,
        id,
        "memory.dream.parse_failure",
        occurred_at_ms,
        one_member("phase", phase),
    )
}

/// The event for the `count`-th theme of a dream for which there was no evidence.
pub open spec fn theme_skipped_event(
    project_state_dir: Seq<char>,
    theme_id: Seq<char>,
    occurred_at_ms: u64,
    count: u32,
) -> DailyEventView {
    booked(
        "tier3-dream"@,
        project_state_dir,
        "tier3-dream-no-evidence-"@ + text::decimal(occurred_at_ms as nat) + "-"@ + text::decimal(
            count as nat,
        ),
        "memory.dream.theme_skipped_no_evidence"@,
        occurred_at_ms,
        seq![("theme_id"@, theme_id)],
    )
}

/// See [`theme_skipped_event`].
pub fn record_theme_skipped_no_evidence(
    project_state_dir: &str,
    theme_id: &str,
    occurred_at_ms: u64,
    count: u32,
) -> (r: DailyEvent)
    ensures
        r@ == theme_skipped_event(project_state_dir@, theme_id@, occurred_at_ms, count),
{
    let mut id = "tier3-dream-no-evidence-".to_owned();
    let ms = text::decimal_of(occurred_at_ms);
    id.append(ms.as_str());
    id.append("-");
    let n = text::decimal_of(count as u64);
    id.append(n.as_str());
    book(
        "tier3-dream",
        project_state_dir,
        id,
        "memory.dream.theme_skipped_no_evidence",
        occurred_at_ms,
        one_member("theme_id", theme_id),
    )
}

/// An event of the imagination.
pub open spec fn imagination_event(
    project_state_dir: Seq<char>,
    kind: Seq<char>,
    payload: Seq<(Seq<char>, Seq<char>)>,
    occurred_at_ms: u64,
) -> DailyEventView {
    booked(
        "tier3-imagination"@,
        project_state_dir,
        "tier3-imagination-"@ + kind + "-"@ + text::decimal(occurred_at_ms as nat),
        kind,
        occurred_at_ms,
        payload,
    )
}

/// See [`imagination_event`].
pub fn append_imagination_daily_log(
    project_state_dir: &str,
    kind: &str,
    payload: Vec<(String, String)>,
    occurred_at_ms: u64,
) -> (r: DailyEvent)
    ensures
        r@ == imagination_event(
            project_state_dir@,
            kind@,
            members(payload@),
            occurred_at_ms,
        ),
{
    let mut id = "tier3-imagination-".to_owned();
    id.append(kind);
    id.append("-");
    let ms = text::decimal_of(occurred_at_ms);
    id.append(ms.as_str());
    book("tier3-imagination", project_state_dir, id, kind, occurred_at_ms, payload)
}

/// The event for a hypothesis of which no layer could be read: the beginning of its statement.
pub open spec fn unread_event(
    project_state_dir: Seq<char>,
    statement: Seq<char>,
    occurred_at_ms: u64,
) -> DailyEventView {
    imagination_event(
        project_state_dir,
        "memory.imagination.all_layers_parse_failed"@,
        seq![("statement"@, text::take_chars(statement, SNIPPET_CHARS as int))],
        occurred_at_ms,
    )
}

/// See [`unread_event`].
pub fn record_all_layers_parse_failed(
    project_state_dir: &str,
    statement: &str,
    occurred_at_ms: u64,
) -> (r: DailyEvent)
    ensures
        r@ == unread_event(project_state_dir@, statement@, occurred_at_ms),
{
    let snippet = text::first_chars(statement, SNIPPET_CHARS);
    append_imagination_daily_log(
        project_state_dir,
        "memory.imagination.all_layers_parse_failed",
        one_member("statement", snippet.as_str()),
        occurred_at_ms,
    )
}

/// The event for a report that was written but could not be put into the index.
pub open spec fn upsert_failed_event(
    project_state_dir: Seq<char>,
    date: Seq<char>,
    error: Seq<char>,
    occurred_at_ms: u64,
) -> DailyEventView {
    imagination_event(
        project_state_dir,
        "memory.report.index_upsert_failed"@,
        seq![("date"@, date), ("error"@, error)],
        occurred_at_ms,
    )
}

/// See [`upsert_failed_event`].
pub fn record_report_index_upsert_failed(
    project_state_dir: &str,
    date: &str,
    error: &str,
    occurred_at_ms: u64,
) -> (r: DailyEvent)
    ensures
        r@ == upsert_failed_event(project_state_dir@, date@, error@, occurred_at_ms),
{
    let mut payload = one_member("date", date);
    let ghost before = payload@;
    payload.push(("error".to_owned(), error.to_owned()));
    assert(members(payload@) =~= members(before).push(("error"@, error@)));
    assert(members(payload@) =~= seq![("date"@, date@), ("error"@, error@)]);
    append_imagination_daily_log(
        project_state_dir,
        "memory.report.index_upsert_failed",
        payload,
        occurred_at_ms,
    )
}

// ---------------------------------------------------------------------------
// What the log promises
// ---------------------------------------------------------------------------

/// Events of dreams and of imaginations are booked under transcripts of their own below the state of the project, and at
/// the time at which they occurred.
pub proof fn events_are_booked_under_their_source(
    project_state_dir: Seq<char>,
    phase: Seq<char>,
    theme_id: Seq<char>,
    statement: Seq<char>,
    date: Seq<char>,
    error: Seq<char>,
    occurred_at_ms: u64,
    count: u32,
)
    ensures
        ({
            let a = parse_failure_event(project_state_dir, phase, occurred_at_ms, count);
            let b = theme_skipped_event(project_state_dir, theme_id, occurred_at_ms, count);
            let c = unread_event(project_state_dir, statement, occurred_at_ms);
            let d = upsert_failed_event(project_state_dir, date, error, occurred_at_ms);
            &&& a.session_id == "tier3-dream"@ && b.session_id == "tier3-dream"@
            &&& c.session_id == "tier3-imagination"@ && d.session_id == "tier3-imagination"@
            &&& a.transcript_path == path::under(project_state_dir, "tier3-dream.jsonl"@)
            &&& b.transcript_path == a.transcript_path
            &&& c.transcript_path == path::under(project_state_dir, "tier3-imagination.jsonl"@)
            &&& d.transcript_path == c.transcript_path
            &&& a.kind == "memory.dream.parse_failure"@
            &&& b.kind == "memory.dream.theme_skipped_no_evidence"@
            &&& c.kind == "memory.imagination.all_layers_parse_failed"@
            &&& d.kind == "memory.report.index_upsert_failed"@
            &&& a.occurred_at_ms == occurred_at_ms && b.occurred_at_ms == occurred_at_ms
            &&& c.occurred_at_ms == occurred_at_ms && d.occurred_at_ms == occurred_at_ms
        }),
{
    reveal_strlit("tier3-dream");
    reveal_strlit("tier3-imagination");
    reveal_strlit(".jsonl");
    reveal_strlit("tier3-dream.jsonl");
    reveal_strlit("tier3-imagination.jsonl");
    assert("tier3-dream"@ + ".jsonl"@ =~= "tier3-dream.jsonl"@);
    assert("tier3-imagination"@ + ".jsonl"@ =~= "tier3-imagination.jsonl"@);
}

/// An event says what it is about: the phase, the theme, the first hundred and sixty characters of the statement, or the
/// date and the error.
pub proof fn events_say_what_they_are_about(
    project_state_dir: Seq<char>,
    phase: Seq<char>,
    theme_id: Seq<char>,
    statement: Seq<char>,
    date: Seq<char>,
    error: Seq<char>,
    occurred_at_ms: u64,
    count: u32,
)
    ensures
        ({
            let a = parse_failure_event(project_state_dir, phase, occurred_at_ms, count).payload;
            let b = theme_skipped_event(project_state_dir, theme_id, occurred_at_ms, count).payload;
            let c = unread_event(project_state_dir, statement, occurred_at_ms).payload;
            let d = upsert_failed_event(project_state_dir, date, error, occurred_at_ms).payload;
            &&& a.len() == 1 && a[0] == ("phase"@, phase)
            &&& b.len() == 1 && b[0] == ("theme_id"@, theme_id)
            &&& c.len() == 1 && c[0].0 == "statement"@
            &&& statement.len() <= 160 ==> c[0].1 == statement
            &&& statement.len() > 160 ==> c[0].1 == statement.subrange(0, 160)
            &&& d.len() == 2 && d[0] == ("date"@, date) && d[1] == ("error"@, error)
        }),
{
}

/// Two events of one dream are told apart by their numbers.
pub proof fn dream_events_are_told_apart(
    project_state_dir: Seq<char>,
    phase: Seq<char>,
    theme_id: Seq<char>,
    occurred_at_ms: u64,
    m: u32,
    n: u32,
)
    requires
        m != n,
    ensures
        parse_failure_event(project_state_dir, phase, occurred_at_ms, m).event_id
            != parse_failure_event(project_state_dir, phase, occurred_at_ms, n).event_id,
        theme_skipped_event(project_state_dir, theme_id, occurred_at_ms, m).event_id
            != theme_skipped_event(project_state_dir, theme_id, occurred_at_ms, n).event_id,
{
    let dm = text::decimal(m as nat);
    let dn = text::decimal(n as nat);
    let a = parse_failure_event(project_state_dir, phase, occurred_at_ms, m).event_id;
    let b = parse_failure_event(project_state_dir, phase, occurred_at_ms, n).event_id;
    let c = theme_skipped_event(project_state_dir, theme_id, occurred_at_ms, m).event_id;
    let d = theme_skipped_event(project_state_dir, theme_id, occurred_at_ms, n).event_id;
    let h = "tier3-dream-parse-failure-"@ + phase + "-"@ + text::decimal(occurred_at_ms as nat) + "-"@;
    let k = "tier3-dream-no-evidence-"@ + text::decimal(occurred_at_ms as nat) + "-"@;
    assert(a.len() == h.len() + dm.len());
    assert(b.len() == h.len() + dn.len());
    assert(c.len() == k.len() + dm.len());
    assert(d.len() == k.len() + dn.len());
    if a == b || c == d {
        assert(dm.len() == dn.len());
        assert(a.skip(a.len() - dm.len()) =~= dm);
        assert(b.skip(b.len() - dn.len()) =~= dn);
        assert(c.skip(c.len() - dm.len()) =~= dm);
        assert(d.skip(d.len() - dn.len()) =~= dn);
        crate::tier::lemma_decimal_injective(m as nat, n as nat);
    }
}

} // verus!
