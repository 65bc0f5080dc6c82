//! The documents that an imagination writes: drafts for review, refuted hypotheses, the report on the
//! evolution of the memory, and the ledger of sweeps.

use vstd::prelude::*;
use vstd::string::StringExecFns;
use vstd::utf8;
use crate::calendar;
use crate::clock::now_ms;
use crate::digest;
use crate::text;
use crate::tier;
use crate::tier::dream_calls;
use crate::tier::imagination_calls;
use crate::tier::imagination_calls::{AtomVerdict, SynthesisInputs, VerdictView};
use crate::tier::imagination_evidence;
use crate::tier::imagination_files;
use crate::tier::imagination_evidence::{
    HypothesisView, ImaginationHypothesis, RefView, ToolEvidence, ToolEvidenceView,
};
use crate::tier::LlmMessage;

verus! {

/// For how many days a draft waits for review.
pub const REVIEW_EXPIRY_DAYS: u64 = 14;

/// The same in milliseconds.
pub const REVIEW_EXPIRY_MS: u64 = 1_209_600_000;

/// How many bytes of the previous report are shown.
pub const REPORT_MAX_PREV_CHARS: usize = 6_000;

/// How many sweeps are kept, and how many are shown.
pub const META_REVIEW_MAX_LINES: usize = 100;

pub const HYPGEN_META_REVIEW_TAIL: usize = 3;

/// How many bytes of a digest name a hypothesis.
pub const HASH_BYTES: usize = 16;

/// How a line starts that links to a report.
pub const REPORT_LINK_PREFIX: &'static str = "- [进化报告 ";

/// Prompt of a report in Chinese.
pub const EVOLUTION_REPORT_SYSTEM_PROMPT: &'static str = r#"You are the memory system's evolution-report writer. You receive the user's distilled memory corpus: reflection notes, dream insights, imagination proposals (with confidence and external evidence), and the PREVIOUS evolution report (possibly empty).

Write a concise evolution report in Simplified Chinese, in Markdown, with EXACTLY these five sections (use these headings verbatim):

## 用户习惯归纳
Summarize stable user habits/preferences observable in the corpus. Cite which note each habit comes from (by file label). No speculation.

## 当前问题清单
Concrete recurring problems / friction points found in the corpus. Each item: one line problem + one line evidence.

## 外部佐证
Only list claims that carry external evidence (source URL + retrieved-at timestamp from imagination proposals). Quote the source honestly. If none, write "本期无外部取证。".

## 整改与自我进化建议
Actionable suggestions derived from the above. Mark each as [立即可做] or [需要用户确认]. Suggestions that would修改记忆内容 must always be [需要用户确认].

## 上期建议采纳回顾
Compare the PREVIOUS report's suggestions against the current corpus: adopted / partially adopted / not adopted / no longer relevant. If there is no previous report, write "首期报告，无上期可回顾。".

Rules:
- Ground every statement in the supplied corpus; do NOT invent facts, habits, or sources.
- Keep the whole report under ~120 lines.
- Do not include any YAML frontmatter; the caller adds it."#;

/// Prompt of a report in English.
pub const EVOLUTION_REPORT_SYSTEM_PROMPT_EN: &'static str = r#"You are the memory system's evolution-report writer. You receive the user's distilled memory corpus: reflection notes, dream insights, imagination proposals (with confidence and external evidence), and the PREVIOUS evolution report (possibly empty).

Write a concise evolution report in English, in Markdown, with EXACTLY these five sections (use these headings verbatim):

## User Habit Digest
Summarize stable user habits/preferences observable in the corpus. Cite which note each habit comes from (by file label). No speculation.

## Current Issues
Concrete recurring problems / friction points found in the corpus. Each item: one line problem + one line evidence.

## External Evidence
Only list claims that carry external evidence (source URL + retrieved-at timestamp from imagination proposals). Quote the source honestly. If none, write "No external evidence this period.".

## Remediation & Self-Evolution Suggestions
Actionable suggestions derived from the above. Mark each as [ready-now] or [needs-user-confirmation]. Suggestions that would modify memory content must always be [needs-user-confirmation].

## Previous-Report Follow-up
Compare the PREVIOUS report's suggestions against the current corpus: adopted / partially adopted / not adopted / no longer relevant. If there is no previous report, write "First report; nothing to review.".

Rules:
- Ground every statement in the supplied corpus; do NOT invent facts, habits, or sources.
- Keep the whole report under ~120 lines.
- Do not include any YAML frontmatter; the caller adds it."#;

// ---------------------------------------------------------------------------
// Expiry and names
// ---------------------------------------------------------------------------

/// When a draft that is written at the given time expires.
pub open spec fn expiry_ms(now_ms: u64) -> u64 {
    if now_ms + REVIEW_EXPIRY_DAYS * calendar::DAY_MS > u64::MAX {
        u64::MAX
    } else {
        (now_ms + REVIEW_EXPIRY_DAYS * calendar::DAY_MS) as u64
    }
}

/// When a draft that is written at the given time expires, as text.
pub fn iso8601_expiry_from_ms(now_ms: u64) -> (r: String)
    ensures
        r@ == calendar::iso8601(expiry_ms(now_ms)),
{
    calendar::iso8601_utc(now_ms.saturating_add(REVIEW_EXPIRY_MS))
}

/// When a draft that is written now expires, as text.
pub fn iso8601_expiry_from_now() -> (r: String)
    ensures
        exists|now: u64| r@ == calendar::iso8601(#[trigger] expiry_ms(now)),
{
    let now: u64 = now_ms();
    let r = iso8601_expiry_from_ms(now);
    assert(r@ == calendar::iso8601(expiry_ms(now)));
    r
}

/// The first bytes of a digest in hexadecimal.
pub fn hex_short(digest: &Vec<u8>, n: usize) -> (r: String)
    ensures
        r@ == text::hex(if n < digest@.len() {
            digest@.take(n as int)
        } else {
            digest@
        }),
{
    if n < digest.len() {
        text::hex_of(digest, n)
    } else {
        assert(digest@.take(digest@.len() as int) =~= digest@);
        text::hex_of(digest, digest.len())
    }
}

/// The name of a hypothesis: the first half of the digest of its statement, in hexadecimal.
pub open spec fn statement_hash(statement: Seq<char>) -> Seq<char> {
    text::hex(digest::sha256_of(utf8::encode_utf8(statement)).take(HASH_BYTES as int))
}

/// See [`statement_hash`].
pub fn hypothesis_hash(hypothesis: &ImaginationHypothesis) -> (r: String)
    ensures
        r@ == statement_hash(hypothesis@.statement),
        r@.len() == 2 * HASH_BYTES,
        r@.len() == 32,
        forall|i: int| 0 <= i < r@.len() ==> text::is_ascii_hex(#[trigger] r@[i]),
{
    let d = digest::sha256(hypothesis.statement.as_str().as_bytes());
    proof {
        text::lemma_hex(d@.take(HASH_BYTES as int));
    }
    hex_short(&d, HASH_BYTES)
}

/// The name of the file of a draft, given the name of its hypothesis.
pub open spec fn imagined_name(hash: Seq<char>) -> Seq<char> {
    "imagined_"@ + hash + ".md"@
}

/// See [`imagined_name`].
pub fn imagined_file_name(hash: &str) -> (r: String)
    ensures
        r@ == imagined_name(hash@),
{
    let mut out = "imagined_".to_owned();
    out.append(hash);
    out.append(".md");
    out
}

/// The name of the file of a refuted hypothesis, given the name of the hypothesis.
pub open spec fn refuted_name(hash: Seq<char>) -> Seq<char> {
    "refuted_"@ + hash + ".md"@
}

/// See [`refuted_name`].
pub fn refuted_file_name(hash: &str) -> (r: String)
    ensures
        r@ == refuted_name(hash@),
{
    let mut out = "refuted_".to_owned();
    out.append(hash);
    out.append(".md");
    out
}

// ---------------------------------------------------------------------------
// Drafts
// ---------------------------------------------------------------------------

/// Scores as they are printed.
#[derive(Debug, Clone)]
pub struct ScoreTexts {
    pub final_confidence: String,
    pub l1_plausibility: String,
    pub l2_novelty: String,
    pub l2_consistency: String,
    pub l2_groundedness: String,
    pub l2_actionability: String,
    pub l3_atomic_aggregate: String,
}

/// The lines that carry the scores.
pub open spec fn score_lines(t: ScoreTexts) -> Seq<char> {
    "final_confidence: "@ + t.final_confidence@ + "\nl1_plausibility: "@ + t.l1_plausibility@
        + "\nl2_novelty: "@ + t.l2_novelty@ + "\nl2_consistency: "@ + t.l2_consistency@
        + "\nl2_groundedness: "@ + t.l2_groundedness@ + "\nl2_actionability: "@ + t.l2_actionability@
        + "\nl3_atomic_aggregate: "@ + t.l3_atomic_aggregate@ + "\n"@
}

fn score_lines_of(t: &ScoreTexts) -> (r: String)
    ensures
        r@ == score_lines(*t),
{
    let mut out = "final_confidence: ".to_owned();
    out.append(t.final_confidence.as_str());
    out.append("\nl1_plausibility: ");
    out.append(t.l1_plausibility.as_str());
    out.append("\nl2_novelty: ");
    out.append(t.l2_novelty.as_str());
    out.append("\nl2_consistency: ");
    out.append(t.l2_consistency.as_str());
    out.append("\nl2_groundedness: ");
    out.append(t.l2_groundedness.as_str());
    out.append("\nl2_actionability: ");
    out.append(t.l2_actionability.as_str());
    out.append("\nl3_atomic_aggregate: ");
    out.append(t.l3_atomic_aggregate.as_str());
    out.append("\n");
    out
}

/// One source of external evidence as an item of a YAML list, its address quoted.
pub open spec fn source_item(e: ToolEvidenceView) -> Seq<char> {
    "  - url: '"@ + text::replace(e.source_url, "'"@, "''"@) + "'\n    fetched_at_ms: "@
        + text::decimal(e.fetched_at_ms as nat) + "\n"@
}

pub open spec fn source_items(v: Seq<ToolEvidenceView>) -> Seq<char>
    decreases v.len(),
{
    if v.len() == 0 {
        Seq::empty()
    } else {
        source_items(v.drop_last()) + source_item(v.last())
    }
}

/// The list of the sources of external evidence; nothing where there is none.
pub open spec fn sources_block(v: Seq<ToolEvidenceView>) -> Seq<char> {
    if v.len() == 0 {
        Seq::empty()
    } else {
        "evidence_sources:\n"@ + source_items(v)
    }
}

fn source_item_of(e: &ToolEvidence) -> (r: String)
    ensures
        r@ == source_item(e@),
{
    proof {
        reveal_strlit("'");
    }
    let mut out = "  - url: '".to_owned();
    let url = text::replaced(e.source_url.as_str(), "'", "''");
    out.append(url.as_str());
    out.append("'\n    fetched_at_ms: ");
    let ms = text::decimal_of(e.fetched_at_ms);
    out.append(ms.as_str());
    out.append("\n");
    out
}

fn sources_block_of(evidence: &Vec<ToolEvidence>) -> (r: String)
    ensures
        r@ == sources_block(imagination_evidence::tool_evidence_views(evidence@)),
{
    let ghost all = imagination_evidence::tool_evidence_views(evidence@);
    if evidence.len() == 0 {
        return String::new();
    }
    let mut items = String::new();
    let mut i: usize = 0;
    while i < evidence.len()
        invariant
            i <= evidence@.len(),
            all == imagination_evidence::tool_evidence_views(evidence@),
            items@ == source_items(all.take(i as int)),
        decreases evidence@.len() - i,
    {
        proof {
            assert(all.take(i + 1).drop_last() =~= all.take(i as int));
            assert(all.take(i + 1).last() == evidence@[i as int]@);
        }
        let item = source_item_of(&evidence[i]);
        items.append(item.as_str());
        i = i + 1;
    }
    assert(all.take(all.len() as int) =~= all);
    let mut out = "evidence_sources:\n".to_owned();
    out.append(items.as_str());
    out
}

/// One verdict with its confidence as it is printed.
pub open spec fn verdict_line(v: VerdictView, confidence: Seq<char>) -> Seq<char> {
    "- ["@ + imagination_calls::verdict_name(v.verdict) + ", conf "@ + confidence + "] "@ + v.atom
        + "\n"@
}

/// The first `n` verdicts, one per line.
pub open spec fn verdict_lines(
    v: Seq<VerdictView>,
    confidences: Seq<Seq<char>>,
    n: int,
) -> Seq<char>
    decreases n,
{
    if n <= 0 {
        Seq::empty()
    } else {
        verdict_lines(v, confidences, n - 1) + verdict_line(v[n - 1], confidences[n - 1])
    }
}

fn verdict_lines_of(verdicts: &Vec<AtomVerdict>, confidences: &Vec<String>) -> (r: String)
    requires
        verdicts@.len() == confidences@.len(),
    ensures
        r@ == verdict_lines(
            imagination_calls::verdict_views(verdicts@),
            text::views(confidences@),
            verdicts@.len() as int,
        ),
{
    let ghost vs = imagination_calls::verdict_views(verdicts@);
    let ghost cs = text::views(confidences@);
    let mut out = String::new();
    let mut i: usize = 0;
    while i < verdicts.len()
        invariant
            i <= verdicts@.len(),
            verdicts@.len() == confidences@.len(),
            vs == imagination_calls::verdict_views(verdicts@),
            cs == text::views(confidences@),
            out@ == verdict_lines(vs, cs, i as int),
        decreases verdicts@.len() - i,
    {
        assert(vs[i as int] == verdicts@[i as int]@);
        assert(cs[i as int] == confidences@[i as int]@);
        let mut line = "- [".to_owned();
        line.append(imagination_calls::name_of_verdict(verdicts[i].verdict));
        line.append(", conf ");
        line.append(confidences[i].as_str());
        line.append("] ");
        line.append(verdicts[i].atom.as_str());
        line.append("\n");
        out.append(line.as_str());
        i = i + 1;
    }
    out
}

/// The section on the verdicts; nothing where there is none.
pub open spec fn verdicts_block(v: Seq<VerdictView>, confidences: Seq<Seq<char>>) -> Seq<char> {
    if v.len() == 0 {
        Seq::empty()
    } else {
        "# Atomic verdicts\n\n"@ + verdict_lines(v, confidences, v.len() as int) + "\n"@
    }
}

pub open spec fn ref_items(v: Seq<RefView>) -> Seq<char>
    decreases v.len(),
{
    if v.len() == 0 {
        Seq::empty()
    } else {
        ref_items(v.drop_last()) + ("- ["@ + v.last().id + "] "@ + v.last().snippet + "\n"@)
    }
}

/// The section on what the hypothesis quotes; nothing where it quotes nothing.
pub open spec fn refs_block(v: Seq<RefView>) -> Seq<char> {
    if v.len() == 0 {
        Seq::empty()
    } else {
        "# Evidence refs\n\n"@ + ref_items(v) + "\n"@
    }
}

fn refs_block_of(h: &ImaginationHypothesis) -> (r: String)
    ensures
        r@ == refs_block(h@.evidence_refs),
{
    let ghost all = h@.evidence_refs;
    if h.evidence_refs.len() == 0 {
        return String::new();
    }
    let mut items = String::new();
    let mut i: usize = 0;
    while i < h.evidence_refs.len()
        invariant
            i <= h.evidence_refs@.len(),
            all == h@.evidence_refs,
            items@ == ref_items(all.take(i as int)),
        decreases h.evidence_refs@.len() - i,
    {
        let e = &h.evidence_refs[i];
        proof {
            assert(all.take(i + 1).drop_last() =~= all.take(i as int));
            assert(all.take(i + 1).last() == e@);
        }
        let mut item = "- [".to_owned();
        item.append(e.id.as_str());
        item.append("] ");
        item.append(e.snippet.as_str());
        item.append("\n");
        items.append(item.as_str());
        i = i + 1;
    }
    assert(all.take(all.len() as int) =~= all);
    let mut out = "# Evidence refs\n\n".to_owned();
    out.append(items.as_str());
    out.append("\n");
    out
}

/// The title of a piece of evidence; empty where it has none.
pub open spec fn shown_title(e: ToolEvidenceView) -> Seq<char> {
    match e.title {
        Some(t) => text::trim(t),
        None => Seq::empty(),
    }
}

/// One piece of external evidence: where it was fetched and when, and what it says.
pub open spec fn external_item(e: ToolEvidenceView) -> Seq<char> {
    let title = shown_title(e);
    let head = if title.len() == 0 {
        "- "@ + e.source_url
    } else {
        "- "@ + title + " — "@ + e.source_url
    };
    head + " (fetched "@ + text::decimal(e.fetched_at_ms as nat) + " ms)\n  "@
        + imagination_evidence::shown(e.content) + "\n"@
}

pub open spec fn external_items(v: Seq<ToolEvidenceView>) -> Seq<char>
    decreases v.len(),
{
    if v.len() == 0 {
        Seq::empty()
    } else {
        external_items(v.drop_last()) + external_item(v.last())
    }
}

/// The section on external evidence; nothing where there is none.
pub open spec fn external_block(v: Seq<ToolEvidenceView>) -> Seq<char> {
    if v.len() == 0 {
        Seq::empty()
    } else {
        "# External evidence (gathered)\n\n"@ + external_items(v) + "\n"@
    }
}

fn external_item_of(e: &ToolEvidence) -> (r: String)
    ensures
        r@ == external_item(e@),
{
    let title = match &e.title {
        Some(t) => text::trimmed(t.as_str()),
        None => String::new(),
    };
    let mut out = "- ".to_owned();
    if !title.as_str().is_empty() {
        out.append(title.as_str());
        out.append(" — ");
    }
    out.append(e.source_url.as_str());
    out.append(" (fetched ");
    let ms = text::decimal_of(e.fetched_at_ms);
    out.append(ms.as_str());
    out.append(" ms)\n  ");
    let content = imagination_evidence::truncate_content(e.content.as_str());
    out.append(content.as_str());
    out.append("\n");
    out
}

fn external_block_of(evidence: &Vec<ToolEvidence>) -> (r: String)
    ensures
        r@ == external_block(imagination_evidence::tool_evidence_views(evidence@)),
{
    let ghost all = imagination_evidence::tool_evidence_views(evidence@);
    if evidence.len() == 0 {
        return String::new();
    }
    let mut items = String::new();
    let mut i: usize = 0;
    while i < evidence.len()
        invariant
            i <= evidence@.len(),
            all == imagination_evidence::tool_evidence_views(evidence@),
            items@ == external_items(all.take(i as int)),
        decreases evidence@.len() - i,
    {
        proof {
            assert(all.take(i + 1).drop_last() =~= all.take(i as int));
            assert(all.take(i + 1).last() == evidence@[i as int]@);
        }
        let item = external_item_of(&evidence[i]);
        items.append(item.as_str());
        i = i + 1;
    }
    assert(all.take(all.len() as int) =~= all);
    let mut out = "# External evidence (gathered)\n\n".to_owned();
    out.append(items.as_str());
    out.append("\n");
    out
}

/// The draft of a hypothesis for review: its scores and sources in front, the hypothesis with what was
/// found about it behind.
pub open spec fn imagined_md(
    h: HypothesisView,
    scores: ScoreTexts,
    verdicts: Seq<VerdictView>,
    confidences: Seq<Seq<char>>,
    label: Seq<char>,
    external: Seq<ToolEvidenceView>,
    now_ms: u64,
) -> Seq<char> {
    "---\ntype: imagined\nconfidence: "@ + label + "\nstatus: pending-review\nexpiry: "@
        + calendar::iso8601(expiry_ms(now_ms)) + "\n"@ + score_lines(scores) + sources_block(external)
        + "---\n\n# Hypothesis\n\n"@ + text::trim(h.statement) + "\n\n"@ + verdicts_block(
        verdicts,
        confidences,
    ) + refs_block(h.evidence_refs) + external_block(external)
}

/// See [`imagined_md`]. `confidences` holds the confidence of each verdict as it is printed.
pub fn render_imagined_md(
    hypothesis: &ImaginationHypothesis,
    scores: &ScoreTexts,
    atom_verdicts: &Vec<AtomVerdict>,
    confidences: &Vec<String>,
    confidence_label: &str,
    external_evidence: &Vec<ToolEvidence>,
    now_ms: u64,
) -> (r: String)
    requires
        atom_verdicts@.len() == confidences@.len(),
    ensures
        r@ == imagined_md(
            hypothesis@,
            *scores,
            imagination_calls::verdict_views(atom_verdicts@),
            text::views(confidences@),
            confidence_label@,
            imagination_evidence::tool_evidence_views(external_evidence@),
            now_ms,
        ),
{
    let mut out = "---\ntype: imagined\nconfidence: ".to_owned();
    out.append(confidence_label);
    out.append("\nstatus: pending-review\nexpiry: ");
    let expiry = iso8601_expiry_from_ms(now_ms);
    out.append(expiry.as_str());
    out.append("\n");
    let lines = score_lines_of(scores);
    out.append(lines.as_str());
    let sources = sources_block_of(external_evidence);
    out.append(sources.as_str());
    out.append("---\n\n# Hypothesis\n\n");
    let statement = text::trimmed(hypothesis.statement.as_str());
    out.append(statement.as_str());
    out.append("\n\n");
    let mut verdicts = String::new();
    if atom_verdicts.len() != 0 {
        verdicts.append("# Atomic verdicts\n\n");
        let vl = verdict_lines_of(atom_verdicts, confidences);
        verdicts.append(vl.as_str());
        verdicts.append("\n");
        assert(verdicts@ =~= verdicts_block(
            imagination_calls::verdict_views(atom_verdicts@),
            text::views(confidences@),
        ));
    }
    out.append(verdicts.as_str());
    let refs = refs_block_of(hypothesis);
    out.append(refs.as_str());
    let external = external_block_of(external_evidence);
    out.append(external.as_str());
    out
}

/// The file of a refuted hypothesis.
pub open spec fn refuted_md(
    statement: Seq<char>,
    confidence: Seq<char>,
    verdicts: Seq<VerdictView>,
    confidences: Seq<Seq<char>>,
    now_ms: u64,
) -> Seq<char> {
    "---\ntype: imagined\nstatus: refuted\nconfidence_value: "@ + confidence + "\ncreated_at_ms: "@
        + text::decimal(now_ms as nat) + "\n---\n\n"@ + text::trim(statement) + "\n"@
        + verdict_lines(verdicts, confidences, verdicts.len() as int)
}

/// See [`refuted_md`]. The confidences are given as they are printed.
pub fn render_refuted_md(
    hypothesis: &ImaginationHypothesis,
    final_confidence: &str,
    atom_verdicts: &Vec<AtomVerdict>,
    confidences: &Vec<String>,
    now_ms: u64,
) -> (r: String)
    requires
        atom_verdicts@.len() == confidences@.len(),
    ensures
        r@ == refuted_md(
            hypothesis@.statement,
            final_confidence@,
            imagination_calls::verdict_views(atom_verdicts@),
            text::views(confidences@),
            now_ms,
        ),
{
    let mut out = "---\ntype: imagined\nstatus: refuted\nconfidence_value: ".to_owned();
    out.append(final_confidence);
    out.append("\ncreated_at_ms: ");
    let ms = text::decimal_of(now_ms);
    out.append(ms.as_str());
    out.append("\n---\n\n");
    let statement = text::trimmed(hypothesis.statement.as_str());
    out.append(statement.as_str());
    out.append("\n");
    let lines = verdict_lines_of(atom_verdicts, confidences);
    out.append(lines.as_str());
    out
}

/// The first line of the body of a refuted hypothesis is its statement, where that is one line.
pub proof fn refuted_body_leads_with_statement(statement: Seq<char>, findings: Seq<char>)
    requires
        !text::is_blank(statement),
        !text::trim(statement).contains('\n'),
    ensures
        imagination_files::first_line(
            text::lines(text::trim(statement) + "\n"@ + findings),
            0,
        ) == text::trim(statement),
{
    let t = text::trim(statement);
    text::lemma_trim_ends(statement);
    reveal_strlit("\n");
    let head = t + "\n"@;
    let one = seq![t];
    assert(text::join(one, "\n"@) == t);
    text::lemma_lines_of_joined(one);
    assert(text::without_cr(t) == t);
    assert(text::lines(head)[0] == t);
    text::lemma_lines_concat(head, findings, 0);
    let ls = text::lines(head + findings);
    assert(ls[0] == t);
    assert(text::trim(t) == t);
}

// ---------------------------------------------------------------------------
// The report on the evolution of the memory
// ---------------------------------------------------------------------------

/// The language of headings.
#[derive(Debug, Clone, Copy, PartialEq, Eq, Structural)]
pub enum MemoryOutputLanguage {
    Zh,
    En,
}

/// Whether a file is a report.
pub open spec fn is_report(name: Seq<char>) -> bool {
    text::starts_with(name, "evolution-"@) && text::ends_with(name, ".md"@)
}

/// The last report by name, among the first `n` names.
pub open spec fn last_report(names: Seq<Seq<char>>, n: int) -> Option<Seq<char>>
    decreases n,
{
    if n <= 0 {
        None
    } else {
        let before = last_report(names, n - 1);
        if !is_report(names[n - 1]) {
            before
        } else {
            match before {
                Some(prev) => if text::le(names[n - 1], prev) {
                    Some(prev)
                } else {
                    Some(names[n - 1])
                },
                None => Some(names[n - 1]),
            }
        }
    }
}

/// See [`last_report`].
pub fn latest_report(names: &Vec<String>) -> (r: Option<String>)
    ensures
        text::opt_view(r) == last_report(text::views(names@), names@.len() as int),
{
    let ghost all = text::views(names@);
    let mut best: Option<usize> = None;
    let mut i: usize = 0;
    while i < names.len()
        invariant
            i <= names@.len(),
            all == text::views(names@),
            match best {
                Some(b) => b < i && last_report(all, i as int) == Some(all[b as int]),
                None => last_report(all, i as int) is None,
            },
        decreases names@.len() - i,
    {
        assert(all[i as int] == names@[i as int]@);
        if text::has_prefix(names[i].as_str(), "evolution-") && text::has_suffix(
            names[i].as_str(),
            ".md",
        ) {
            best = match best {
                Some(b) => if text::precedes(names[i].as_str(), names[b].as_str()) {
                    Some(b)
                } else {
                    Some(i)
                },
                None => Some(i),
            };
        }
        i = i + 1;
    }
    match best {
        Some(b) => Some(names[b].clone()),
        None => None,
    }
}

/// The report that is chosen is one, and no other stands behind it.
pub proof fn latest_report_is_last(names: Seq<Seq<char>>, n: int)
    requires
        0 <= n <= names.len(),
    ensures
        last_report(names, n) matches Some(last) ==> is_report(last) && names.contains(last)
            && forall|i: int|
            0 <= i < n && is_report(#[trigger] names[i]) ==> text::le(names[i], last),
        last_report(names, n) is None ==> forall|i: int|
            0 <= i < n ==> !is_report(#[trigger] names[i]),
    decreases n,
{
    if n > 0 {
        latest_report_is_last(names, n - 1);
        let x = names[n - 1];
        text::lemma_le(x, x, x);
        if is_report(x) {
            if let Some(prev) = last_report(names, n - 1) {
                text::lemma_le(x, prev, x);
                if !text::le(x, prev) {
                    assert forall|i: int|
                        0 <= i < n && is_report(#[trigger] names[i]) implies text::le(
                        names[i],
                        x,
                    ) by {
                        if i < n - 1 {
                            text::lemma_le(names[i], prev, x);
                        }
                    }
                }
            }
        }
    }
}

/// The last place at or before byte `i` where a character begins.
pub open spec fn boundary_before(bytes: Seq<u8>, i: int) -> int
    decreases i,
{
    if i <= 0 {
        0
    } else if utf8::is_char_boundary(bytes, i) {
        i
    } else {
        boundary_before(bytes, i - 1)
    }
}

/// As many whole characters of a text as fit into the bytes that a previous report may take.
pub open spec fn report_head(content: Seq<char>) -> Seq<char> {
    let bytes = utf8::encode_utf8(content);
    utf8::decode_utf8(bytes.take(boundary_before(bytes, REPORT_MAX_PREV_CHARS as int)))
}

/// As much of the previous report as is shown, marked where it was cut.
pub open spec fn cut_report(content: Seq<char>) -> Seq<char> {
    if utf8::encode_utf8(content).len() > REPORT_MAX_PREV_CHARS {
        report_head(content) + "\n…(truncated)"@
    } else {
        content
    }
}

proof fn lemma_boundary_before(bytes: Seq<u8>, i: int)
    requires
        utf8::valid_utf8(bytes),
        0 <= i,
    ensures
        0 <= boundary_before(bytes, i) <= i,
        utf8::is_char_boundary(bytes, boundary_before(bytes, i)),
        forall|k: int|
            boundary_before(bytes, i) < k <= i ==> !#[trigger] utf8::is_char_boundary(bytes, k),
    decreases i,
{
    utf8::is_char_boundary_start_end_of_seq(bytes);
    if i > 0 && !utf8::is_char_boundary(bytes, i) {
        lemma_boundary_before(bytes, i - 1);
    }
}

/// A previous report that is too long is cut between two characters: what is shown of it is a beginning of it that
/// fits, and no longer beginning of it does.
pub proof fn reports_are_cut_between_characters(content: Seq<char>)
    requires
        utf8::encode_utf8(content).len() > REPORT_MAX_PREV_CHARS,
    ensures
        report_head(content).is_prefix_of(content),
        utf8::encode_utf8(report_head(content)).len() <= REPORT_MAX_PREV_CHARS,
        forall|k: int|
            utf8::encode_utf8(report_head(content)).len() < k <= REPORT_MAX_PREV_CHARS
                ==> !#[trigger] utf8::is_char_boundary(utf8::encode_utf8(content), k),
{
    let bytes = utf8::encode_utf8(content);
    let n = boundary_before(bytes, REPORT_MAX_PREV_CHARS as int);
    utf8::encode_utf8_valid_utf8(content);
    utf8::encode_utf8_decode_utf8(content);
    lemma_boundary_before(bytes, REPORT_MAX_PREV_CHARS as int);
    utf8::valid_utf8_split(bytes, n);
    utf8::decode_utf8_split(bytes, n);
    utf8::decode_utf8_encode_utf8(bytes.subrange(0, n));
    assert(bytes.take(n) =~= bytes.subrange(0, n));
}

/// See [`cut_report`].
pub fn cap_previous_report(content: &str) -> (r: String)
    ensures
        r@ == cut_report(content@),
{
    if content.as_bytes().len() > REPORT_MAX_PREV_CHARS {
        let ghost bytes = utf8::encode_utf8(content@);
        proof {
            utf8::encode_utf8_valid_utf8(content@);
            utf8::is_char_boundary_start_end_of_seq(bytes);
        }
        let mut n: usize = REPORT_MAX_PREV_CHARS;
        while !content.is_char_boundary(n)
            invariant
                bytes == utf8::encode_utf8(content@),
                utf8::is_char_boundary(bytes, 0),
                n <= REPORT_MAX_PREV_CHARS,
                boundary_before(bytes, n as int) == boundary_before(
                    bytes,
                    REPORT_MAX_PREV_CHARS as int,
                ),
            decreases n,
        {
            n = n - 1;
        }
        let (head, _) = content.split_at(n);
        proof {
            utf8::encode_utf8_decode_utf8(head@);
            assert(utf8::encode_utf8(head@) =~= bytes.take(n as int));
        }
        let mut out = head.to_owned();
        out.append("\n…(truncated)");
        out
    } else {
        content.to_owned()
    }
}

/// The text that a report is written from.
pub open spec fn report_corpus(
    inputs: SynthesisInputs,
    queue: Seq<char>,
    prev_label: Seq<char>,
    prev_report: Seq<char>,
) -> Seq<char> {
    "## Reflection notes\n"@ + dream_calls::or_placeholder(
        inputs.reflections@,
        "(no reflection notes)"@,
    ) + "\n\n## Dream insights\n"@ + dream_calls::or_placeholder(
        inputs.dreams@,
        "(no dream insights)"@,
    ) + "\n\n## Recent session\n"@ + dream_calls::or_placeholder(
        inputs.recent_session@,
        "(no recent session)"@,
    ) + "\n\n## Imagination proposals (review queue)\n"@ + dream_calls::or_placeholder(
        queue,
        "(review queue empty)"@,
    ) + "\n\n## Previous report ("@ + prev_label + ")\n"@ + dream_calls::or_placeholder(
        prev_report,
        "(no previous report)"@,
    )
}

pub open spec fn report_prompt(language: MemoryOutputLanguage) -> Seq<char> {
    match language {
        MemoryOutputLanguage::Zh => EVOLUTION_REPORT_SYSTEM_PROMPT@,
        MemoryOutputLanguage::En => EVOLUTION_REPORT_SYSTEM_PROMPT_EN@,
    }
}

/// The messages that ask for a report. The previous report is given under its label, the word `none`
/// where there is none.
pub fn build_report_messages(
    inputs: &SynthesisInputs,
    queue: &str,
    prev_label: &str,
    prev_report: &str,
    language: MemoryOutputLanguage,
) -> (r: Vec<LlmMessage>)
    ensures
        tier::message_views(r@) == tier::dialogue(
            report_prompt(language),
            report_corpus(*inputs, queue@, prev_label@, prev_report@),
        ),
{
    let mut user = "## Reflection notes\n".to_owned();
    user.append(
        imagination_calls::placeholder_if_empty(
            inputs.reflections.as_str(),
            "(no reflection notes)",
        ),
    );
    user.append("\n\n## Dream insights\n");
    user.append(
        imagination_calls::placeholder_if_empty(inputs.dreams.as_str(), "(no dream insights)"),
    );
    user.append("\n\n## Recent session\n");
    user.append(
        imagination_calls::placeholder_if_empty(
            inputs.recent_session.as_str(),
            "(no recent session)",
        ),
    );
    user.append("\n\n## Imagination proposals (review queue)\n");
    user.append(imagination_calls::placeholder_if_empty(queue, "(review queue empty)"));
    user.append("\n\n## Previous report (");
    user.append(prev_label);
    user.append(")\n");
    user.append(imagination_calls::placeholder_if_empty(prev_report, "(no previous report)"));
    let system = match language {
        MemoryOutputLanguage::Zh => EVOLUTION_REPORT_SYSTEM_PROMPT.to_owned(),
        MemoryOutputLanguage::En => EVOLUTION_REPORT_SYSTEM_PROMPT_EN.to_owned(),
    };
    tier::dialogue_of(system, user)
}

/// The name of the file of the report of a day.
pub open spec fn report_name(date: Seq<char>) -> Seq<char> {
    "evolution-"@ + date + ".md"@
}

/// See [`report_name`].
pub fn report_file_name(date: &str) -> (r: String)
    ensures
        r@ == report_name(date@),
{
    let mut out = "evolution-".to_owned();
    out.append(date);
    out.append(".md");
    out
}

pub open spec fn report_description(date: Seq<char>, language: MemoryOutputLanguage) -> Seq<char> {
    match language {
        MemoryOutputLanguage::Zh => "自我进化报告 "@ + date
            + "（习惯归纳/问题/外部佐证/整改建议/上期回顾）"@,
        MemoryOutputLanguage::En => "Self-evolution report "@ + date
            + " (habits/issues/evidence/actions/follow-up)"@,
    }
}

/// The file of a report that is written at the given time.
pub open spec fn report_md(
    response: Seq<char>,
    now_ms: u64,
    language: MemoryOutputLanguage,
) -> Seq<char> {
    let date = calendar::date_text(calendar::utc_date(now_ms));
    "---\ntype: report\nname: evolution-"@ + date + "\ndescription: "@ + report_description(
        date,
        language,
    ) + "\ncreated_at_ms: "@ + text::decimal(now_ms as nat) + "\n---\n\n"@ + text::trim(response)
        + "\n"@
}

/// See [`report_md`].
pub fn render_report_md(response: &str, now_ms: u64, language: MemoryOutputLanguage) -> (r: String)
    ensures
        r@ == report_md(response@, now_ms, language),
{
    let date = calendar::date_text_of(now_ms);
    let mut out = "---\ntype: report\nname: evolution-".to_owned();
    out.append(date.as_str());
    out.append("\ndescription: ");
    let description = match language {
        MemoryOutputLanguage::Zh => {
            let mut d = "自我进化报告 ".to_owned();
            d.append(date.as_str());
            d.append("（习惯归纳/问题/外部佐证/整改建议/上期回顾）");
            d
        },
        MemoryOutputLanguage::En => {
            let mut d = "Self-evolution report ".to_owned();
            d.append(date.as_str());
            d.append(" (habits/issues/evidence/actions/follow-up)");
            d
        },
    };
    out.append(description.as_str());
    out.append("\ncreated_at_ms: ");
    let ms = text::decimal_of(now_ms);
    out.append(ms.as_str());
    out.append("\n---\n\n");
    let body = text::trimmed(response);
    out.append(body.as_str());
    out.append("\n");
    out
}

/// The line that links to the report of a day.
pub open spec fn link_line(date: Seq<char>) -> Seq<char> {
    REPORT_LINK_PREFIX@ + date + "](reports/evolution-"@ + date
        + ".md) — 做梦与想象的自我进化结论"@
}

pub open spec fn is_link(line: Seq<char>) -> bool {
    text::starts_with(line, REPORT_LINK_PREFIX@)
}

/// Lines in which the first link became `link` and the others are gone, and whether there was one.
pub open spec fn relinked(ls: Seq<Seq<char>>, link: Seq<char>) -> (Seq<Seq<char>>, bool)
    decreases ls.len(),
{
    if ls.len() == 0 {
        (Seq::empty(), false)
    } else {
        let before = relinked(ls.drop_last(), link);
        if !is_link(ls.last()) {
            (before.0.push(ls.last()), before.1)
        } else if before.1 {
            before
        } else {
            (before.0.push(link), true)
        }
    }
}

/// The lines of the index with one link, to the report of the given day: where the first link stood, or
/// at the end.
pub open spec fn linked(ls: Seq<Seq<char>>, link: Seq<char>) -> Seq<Seq<char>> {
    let r = relinked(ls, link);
    if r.1 {
        r.0
    } else {
        r.0.push(link)
    }
}

/// The index with one link.
pub open spec fn linked_index(existing: Seq<char>, date: Seq<char>) -> Seq<char> {
    text::join(linked(text::lines(existing), link_line(date)), "\n"@) + "\n"@
}

/// The index with one link, to the report of the given day; `None` where it is so already.
pub fn upsert_report_link_in_memory_md(existing: &str, date: &str) -> (r: Option<String>)
    ensures
        text::opt_view(r) == if linked_index(existing@, date@) == existing@ {
            None
        } else {
            Some(linked_index(existing@, date@))
        },
{
    let mut link = REPORT_LINK_PREFIX.to_owned();
    link.append(date);
    link.append("](reports/evolution-");
    link.append(date);
    link.append(".md) — 做梦与想象的自我进化结论");
    let ls = text::lines_of(existing);
    let ghost all = text::views(ls@);
    let mut out: Vec<String> = Vec::new();
    assert(text::views(out@) =~= Seq::empty());
    let mut replaced = false;
    let mut i: usize = 0;
    while i < ls.len()
        invariant
            i <= ls@.len(),
            all == text::views(ls@),
            link@ == link_line(date@),
            (text::views(out@), replaced) == relinked(all.take(i as int), link@),
        decreases ls@.len() - i,
    {
        proof {
            assert(all.take(i + 1).drop_last() =~= all.take(i as int));
            assert(all.take(i + 1).last() == ls@[i as int]@);
            text::lemma_views_push(out@, link);
            text::lemma_views_push(out@, ls@[i as int]);
        }
        if text::has_prefix(ls[i].as_str(), REPORT_LINK_PREFIX) {
            if !replaced {
                out.push(link.clone());
                replaced = true;
            }
        } else {
            out.push(ls[i].clone());
        }
        i = i + 1;
    }
    assert(all.take(all.len() as int) =~= all);
    if !replaced {
        proof {
            text::lemma_views_push(out@, link);
        }
        out.push(link);
    }
    let mut content = text::joined(&out, "\n");
    content.append("\n");
    if text::same(content.as_str(), existing) {
        None
    } else {
        Some(content)
    }
}

/// The lines that are no links.
pub open spec fn plain_lines(ls: Seq<Seq<char>>) -> Seq<Seq<char>>
    decreases ls.len(),
{
    if ls.len() == 0 {
        Seq::empty()
    } else if is_link(ls.last()) {
        plain_lines(ls.drop_last())
    } else {
        plain_lines(ls.drop_last()).push(ls.last())
    }
}

/// How many lines are links.
pub open spec fn link_count(ls: Seq<Seq<char>>) -> nat
    decreases ls.len(),
{
    if ls.len() == 0 {
        0
    } else if is_link(ls.last()) {
        link_count(ls.drop_last()) + 1
    } else {
        link_count(ls.drop_last())
    }
}

proof fn lemma_link_line_is_link(date: Seq<char>)
    ensures
        is_link(link_line(date)),
{
    let p = REPORT_LINK_PREFIX@;
    assert(link_line(date).subrange(0, p.len() as int) =~= p);
}

proof fn lemma_push_link(ls: Seq<Seq<char>>, x: Seq<char>)
    ensures
        link_count(ls.push(x)) == link_count(ls) + if is_link(x) {
            1nat
        } else {
            0nat
        },
        plain_lines(ls.push(x)) == if is_link(x) {
            plain_lines(ls)
        } else {
            plain_lines(ls).push(x)
        },
{
    assert(ls.push(x).drop_last() =~= ls);
}

proof fn lemma_relinked(ls: Seq<Seq<char>>, link: Seq<char>)
    requires
        is_link(link),
    ensures
        plain_lines(relinked(ls, link).0) == plain_lines(ls),
        link_count(relinked(ls, link).0) == if relinked(ls, link).1 {
            1nat
        } else {
            0nat
        },
    decreases ls.len(),
{
    if ls.len() > 0 {
        lemma_relinked(ls.drop_last(), link);
        lemma_push_link(relinked(ls.drop_last(), link).0, ls.last());
        lemma_push_link(relinked(ls.drop_last(), link).0, link);
    }
}

/// The index holds exactly one link afterwards, and the other lines stay as they are, in their order.
pub proof fn index_has_one_report_link(ls: Seq<Seq<char>>, date: Seq<char>)
    ensures
        link_count(linked(ls, link_line(date))) == 1,
        plain_lines(linked(ls, link_line(date))) == plain_lines(ls),
{
    let link = link_line(date);
    lemma_link_line_is_link(date);
    lemma_relinked(ls, link);
    lemma_push_link(relinked(ls, link).0, link);
}

proof fn lemma_relinked_again(ls: Seq<Seq<char>>, link: Seq<char>)
    requires
        is_link(link),
    ensures
        relinked(relinked(ls, link).0, link) == relinked(ls, link),
    decreases ls.len(),
{
    if ls.len() > 0 {
        lemma_relinked_again(ls.drop_last(), link);
        let before = relinked(ls.drop_last(), link);
        if !is_link(ls.last()) {
            assert(before.0.push(ls.last()).drop_last() =~= before.0);
        } else if !before.1 {
            assert(before.0.push(link).drop_last() =~= before.0);
        }
    }
}

proof fn lemma_linked_again(ls: Seq<Seq<char>>, link: Seq<char>)
    requires
        is_link(link),
    ensures
        linked(linked(ls, link), link) == linked(ls, link),
{
    lemma_relinked_again(ls, link);
    let r = relinked(ls, link);
    if !r.1 {
        assert(r.0.push(link).drop_last() =~= r.0);
        assert(relinked(r.0.push(link), link) == (r.0.push(link), true));
    }
}

spec fn is_plain(line: Seq<char>) -> bool {
    !line.contains('\n') && text::without_cr(line) == line
}

proof fn lemma_relinked_plain(ls: Seq<Seq<char>>, link: Seq<char>)
    requires
        is_plain(link),
        forall|k: int| 0 <= k < ls.len() ==> is_plain(#[trigger] ls[k]),
    ensures
        forall|k: int|
            0 <= k < relinked(ls, link).0.len() ==> is_plain(#[trigger] relinked(ls, link).0[k]),
    decreases ls.len(),
{
    if ls.len() > 0 {
        let front = ls.drop_last();
        assert forall|k: int| 0 <= k < front.len() implies is_plain(#[trigger] front[k]) by {
            assert(front[k] == ls[k]);
        }
        assert(is_plain(ls[ls.len() - 1]));
        lemma_relinked_plain(front, link);
        let before = relinked(front, link).0;
        let after = relinked(ls, link).0;
        assert forall|k: int| 0 <= k < after.len() implies is_plain(#[trigger] after[k]) by {
            if k < before.len() {
                assert(after[k] == before[k]);
            }
        }
    }
}

/// Linking to the report of the same day again changes nothing, unless a line of the index ends with a
/// carriage return of its own.
pub proof fn linking_is_idempotent(existing: Seq<char>, date: Seq<char>)
    requires
        !date.contains('\n'),
        forall|k: int|
            0 <= k < text::lines(existing).len() ==> text::without_cr(
                #[trigger] text::lines(existing)[k],
            ) == text::lines(existing)[k],
    ensures
        linked_index(linked_index(existing, date), date) == linked_index(existing, date),
{
    let ls = text::lines(existing);
    let link = link_line(date);
    lemma_link_line_is_link(date);
    text::lemma_lines_hold_no_feed(existing, 0);
    assert(is_plain(link)) by {
        reveal_strlit("- [进化报告 ");
        reveal_strlit("](reports/evolution-");
        reveal_strlit(".md) — 做梦与想象的自我进化结论");
        assert(link.last() == '论');
        let a = REPORT_LINK_PREFIX@;
        let b = "](reports/evolution-"@;
        let c = ".md) — 做梦与想象的自我进化结论"@;
        assert forall|k: int| 0 <= k < link.len() implies link[k] != '\n' by {
            let d = date.len() as int;
            if k < a.len() {
                assert(link[k] == a[k]);
            } else if k < a.len() + d {
                assert(link[k] == date[k - a.len()]);
            } else if k < a.len() + d + b.len() {
                assert(link[k] == b[k - a.len() - d]);
            } else if k < a.len() + d + b.len() + d {
                assert(link[k] == date[k - a.len() - d - b.len()]);
            } else {
                assert(link[k] == c[k - a.len() - d - b.len() - d]);
            }
        }
    }
    assert forall|k: int| 0 <= k < ls.len() implies is_plain(#[trigger] ls[k]) by {}
    lemma_relinked_plain(ls, link);
    let out = linked(ls, link);
    assert forall|k: int| 0 <= k < out.len() implies is_plain(#[trigger] out[k]) by {
        if k < relinked(ls, link).0.len() {
            assert(out[k] == relinked(ls, link).0[k]);
        }
    }
    assert(out.len() > 0) by {
        if out.len() == 0 {
            index_has_one_report_link(ls, date);
        }
    }
    text::lemma_lines_of_joined(out);
    assert(text::lines(linked_index(existing, date)) =~= out);
    lemma_linked_again(ls, link);
}

// ---------------------------------------------------------------------------
// The ledger of sweeps
// ---------------------------------------------------------------------------

/// What came of a sweep.
#[derive(Debug, Clone, Copy, PartialEq, Eq, Structural)]
pub struct SweepMetaReview {
    pub ts_ms: u64,
    pub candidates: usize,
    pub queued_high: usize,
    pub queued_medium: usize,
    pub expired: usize,
}

/// The lines that are not blank.
pub open spec fn filled_lines(ls: Seq<Seq<char>>) -> Seq<Seq<char>>
    decreases ls.len(),
{
    if ls.len() == 0 {
        Seq::empty()
    } else if text::is_blank(ls.last()) {
        filled_lines(ls.drop_last())
    } else {
        filled_lines(ls.drop_last()).push(ls.last())
    }
}

/// The last `n` lines, or all of them.
pub open spec fn last_lines(ls: Seq<Seq<char>>, n: int) -> Seq<Seq<char>> {
    if ls.len() > n {
        ls.skip(ls.len() - n)
    } else {
        ls
    }
}

fn filled_lines_of(s: &str) -> (r: Vec<String>)
    ensures
        text::views(r@) == filled_lines(text::lines(s@)),
{
    let ls = text::lines_of(s);
    let ghost all = text::views(ls@);
    let mut out: Vec<String> = Vec::new();
    assert(text::views(out@) =~= Seq::empty());
    let mut i: usize = 0;
    while i < ls.len()
        invariant
            i <= ls@.len(),
            all == text::views(ls@),
            text::views(out@) == filled_lines(all.take(i as int)),
        decreases ls@.len() - i,
    {
        proof {
            assert(all.take(i + 1).drop_last() =~= all.take(i as int));
            assert(all.take(i + 1).last() == ls@[i as int]@);
            text::lemma_views_push(out@, ls@[i as int]);
        }
        if !text::blank(ls[i].as_str()) {
            out.push(ls[i].clone());
        }
        i = i + 1;
    }
    assert(all.take(all.len() as int) =~= all);
    out
}

fn last_lines_of(ls: &Vec<String>, n: usize) -> (r: Vec<String>)
    ensures
        text::views(r@) == last_lines(text::views(ls@), n as int),
{
    let ghost all = text::views(ls@);
    let start: usize = if ls.len() > n {
        ls.len() - n
    } else {
        0
    };
    let mut out: Vec<String> = Vec::new();
    assert(text::views(out@) =~= all.subrange(start as int, start as int));
    let mut i: usize = start;
    while i < ls.len()
        invariant
            start <= i <= ls@.len(),
            all == text::views(ls@),
            text::views(out@) == all.subrange(start as int, i as int),
        decreases ls@.len() - i,
    {
        proof {
            text::lemma_views_push(out@, ls@[i as int]);
            assert(all.subrange(start as int, i + 1) =~= all.subrange(start as int, i as int).push(
                all[i as int],
            ));
        }
        out.push(ls[i].clone());
        i = i + 1;
    }
    assert(all.subrange(start as int, all.len() as int) =~= last_lines(all, n as int));
    out
}

/// The lines of the ledger with one more at the end, the oldest ones gone.
pub open spec fn ledger_lines(existing: Seq<char>, line: Seq<char>) -> Seq<Seq<char>> {
    last_lines(filled_lines(text::lines(existing)).push(line), META_REVIEW_MAX_LINES as int)
}

/// The ledger with one more line.
pub fn append_meta_review(existing: &str, line: &str) -> (r: String)
    ensures
        r@ == text::join(ledger_lines(existing@, line@), "\n"@) + "\n"@,
{
    let mut ls = filled_lines_of(existing);
    let more = line.to_owned();
    proof {
        text::lemma_views_push(ls@, more);
    }
    ls.push(more);
    let kept = last_lines_of(&ls, META_REVIEW_MAX_LINES);
    let mut out = text::joined(&kept, "\n");
    out.append("\n");
    out
}

/// The lines of the ledger that are shown.
pub open spec fn ledger_tail(raw: Seq<char>) -> Seq<Seq<char>> {
    last_lines(filled_lines(text::lines(raw)), HYPGEN_META_REVIEW_TAIL as int)
}

/// See [`ledger_tail`].
pub fn meta_review_tail(raw: &str) -> (r: Vec<String>)
    ensures
        text::views(r@) == ledger_tail(raw@),
{
    let ls = filled_lines_of(raw);
    last_lines_of(&ls, HYPGEN_META_REVIEW_TAIL)
}

/// One sweep as a line.
pub open spec fn sweep_line(v: SweepMetaReview) -> Seq<char> {
    "- sweep@"@ + text::decimal(v.ts_ms as nat) + ": "@ + text::decimal(v.candidates as nat)
        + " candidates → "@ + text::decimal(v.queued_high as nat) + " high, "@ + text::decimal(
        v.queued_medium as nat,
    ) + " medium, "@ + text::decimal(v.expired as nat) + " expired"@
}

pub open spec fn sweep_lines(v: Seq<SweepMetaReview>) -> Seq<Seq<char>> {
    Seq::new(v.len(), |i: int| sweep_line(v[i]))
}

/// Sweeps as text, one per line.
pub fn render_meta_review(reviews: &Vec<SweepMetaReview>) -> (r: String)
    ensures
        r@ == text::join(sweep_lines(reviews@), "\n"@),
{
    let ghost all = sweep_lines(reviews@);
    let mut out: Vec<String> = Vec::new();
    assert(text::views(out@) =~= all.take(0));
    let mut i: usize = 0;
    while i < reviews.len()
        invariant
            i <= reviews@.len(),
            all == sweep_lines(reviews@),
            text::views(out@) == all.take(i as int),
        decreases reviews@.len() - i,
    {
        let v = reviews[i];
        let mut line = "- sweep@".to_owned();
        let ts = text::decimal_of(v.ts_ms);
        line.append(ts.as_str());
        line.append(": ");
        let candidates = text::decimal_of(v.candidates as u64);
        line.append(candidates.as_str());
        line.append(" candidates → ");
        let high = text::decimal_of(v.queued_high as u64);
        line.append(high.as_str());
        line.append(" high, ");
        let medium = text::decimal_of(v.queued_medium as u64);
        line.append(medium.as_str());
        line.append(" medium, ");
        let expired = text::decimal_of(v.expired as u64);
        line.append(expired.as_str());
        line.append(" expired");
        proof {
            text::lemma_views_push(out@, line);
            assert(all.take(i + 1) =~= all.take(i as int).push(all[i as int]));
        }
        out.push(line);
        i = i + 1;
    }
    assert(all.take(all.len() as int) =~= all);
    text::joined(&out, "\n")
}

proof fn lemma_filled_lines(ls: Seq<Seq<char>>)
    requires
        forall|k: int| 0 <= k < ls.len() ==> !(#[trigger] ls[k]).contains('\n'),
    ensures
        forall|k: int|
            0 <= k < filled_lines(ls).len() ==> !(#[trigger] filled_lines(ls)[k]).contains('\n'),
    decreases ls.len(),
{
    if ls.len() > 0 {
        let front = ls.drop_last();
        assert forall|k: int| 0 <= k < front.len() implies !(#[trigger] front[k]).contains(
            '\n',
        ) by {
            assert(front[k] == ls[k]);
        }
        assert(!ls[ls.len() - 1].contains('\n'));
        lemma_filled_lines(front);
        let before = filled_lines(front);
        let after = filled_lines(ls);
        assert forall|k: int| 0 <= k < after.len() implies !(#[trigger] after[k]).contains(
            '\n',
        ) by {
            if k < before.len() {
                assert(after[k] == before[k]);
            }
        }
    }
}

/// The ledger never grows beyond its limit, and what was written last is what is shown last.
pub proof fn ledger_is_capped_and_read_back(existing: Seq<char>, line: Seq<char>)
    requires
        !text::is_blank(line),
        !line.contains('\n'),
        text::without_cr(line) == line,
    ensures
        0 < ledger_lines(existing, line).len() <= META_REVIEW_MAX_LINES,
        ({
            let tail = ledger_tail(text::join(ledger_lines(existing, line), "\n"@) + "\n"@);
            0 < tail.len() <= HYPGEN_META_REVIEW_TAIL && tail.last() == line
        }),
{
    let ls = ledger_lines(existing, line);
    text::lemma_lines_hold_no_feed(existing, 0);
    lemma_filled_lines(text::lines(existing));
    let filled = filled_lines(text::lines(existing));
    assert forall|k: int| 0 <= k < ls.len() implies !(#[trigger] ls[k]).contains('\n') by {
        let all = filled.push(line);
        let off = all.len() - ls.len();
        assert(ls[k] == all[off + k]);
        if off + k < filled.len() {
            assert(!filled[off + k].contains('\n'));
        }
    }
    text::lemma_lines_of_joined(ls);
    let back = text::lines(text::join(ls, "\n"@) + "\n"@);
    assert(ls.last() == line);
    assert(back.last() == line);
    assert(filled_lines(back).last() == line);
}

// ---------------------------------------------------------------------------
// What the documents promise
// ---------------------------------------------------------------------------

/// A draft waits for review for fourteen days.
pub proof fn drafts_wait_for_two_weeks(now_ms: u64)
    ensures
        now_ms + 14 * 24 * 60 * 60 * 1000 <= u64::MAX ==> expiry_ms(now_ms) == now_ms + 14 * 24 * 60 * 60
            * 1000,
        now_ms + 14 * 24 * 60 * 60 * 1000 > u64::MAX ==> expiry_ms(now_ms) == u64::MAX,
{
}

proof fn lemma_hex_take(bytes: Seq<u8>, n: int)
    requires
        0 <= n <= bytes.len(),
    ensures
        text::hex(bytes.take(n)) == text::hex(bytes).take(2 * n),
    decreases bytes.len() - n,
{
    text::lemma_hex(bytes);
    if n == bytes.len() {
        assert(bytes.take(n) =~= bytes);
        assert(text::hex(bytes).take(2 * n) =~= text::hex(bytes));
    } else {
        lemma_hex_take(bytes, n + 1);
        text::lemma_hex(bytes.take(n));
        assert(bytes.take(n + 1).drop_last() =~= bytes.take(n));
        assert(text::hex(bytes).take(2 * n) =~= text::hex(bytes).take(2 * (n + 1)).take(2 * n));
        assert(text::hex(bytes.take(n + 1)).take(2 * n) =~= text::hex(bytes.take(n)));
    }
}

/// A hypothesis is named by the first thirty-two hexadecimal digits of the digest of its statement.
pub proof fn hypotheses_are_named_by_their_digests(statement: Seq<char>)
    requires
        digest::sha256_of(utf8::encode_utf8(statement)).len() == 32,
    ensures
        statement_hash(statement) == text::hex(
            digest::sha256_of(utf8::encode_utf8(statement)),
        ).take(32),
{
    lemma_hex_take(digest::sha256_of(utf8::encode_utf8(statement)), 16);
}

/// Different hypotheses have different files, and a draft never has the file of a refuted one.
pub proof fn documents_have_their_own_files(a: Seq<char>, b: Seq<char>)
    ensures
        imagined_name(a) == imagined_name(b) ==> a == b,
        refuted_name(a) == refuted_name(b) ==> a == b,
        imagined_name(a) != refuted_name(b),
        text::starts_with(imagined_name(a), "imagined_"@),
        text::starts_with(refuted_name(a), "refuted_"@),
        text::ends_with(imagined_name(a), ".md"@),
        text::ends_with(refuted_name(a), ".md"@),
        report_name(a) == report_name(b) ==> a == b,
        is_report(report_name(a)),
{
    reveal_strlit("imagined_");
    reveal_strlit("refuted_");
    reveal_strlit("evolution-");
    reveal_strlit(".md");
    assert(imagined_name(a)[0] == 'i');
    assert(refuted_name(b)[0] == 'r');
    assert(imagined_name(a).subrange(0, 9) =~= "imagined_"@);
    assert(refuted_name(a).subrange(0, 8) =~= "refuted_"@);
    assert(report_name(a).subrange(0, 10) =~= "evolution-"@);
    assert(imagined_name(a).subrange(imagined_name(a).len() - 3, imagined_name(a).len() as int)
        =~= ".md"@);
    assert(refuted_name(a).subrange(refuted_name(a).len() - 3, refuted_name(a).len() as int)
        =~= ".md"@);
    assert(report_name(a).subrange(report_name(a).len() - 3, report_name(a).len() as int) =~= ".md"@);
    assert(imagined_name(a).subrange(9, imagined_name(a).len() - 3) =~= a);
    assert(imagined_name(b).subrange(9, imagined_name(b).len() - 3) =~= b);
    assert(refuted_name(a).subrange(8, refuted_name(a).len() - 3) =~= a);
    assert(refuted_name(b).subrange(8, refuted_name(b).len() - 3) =~= b);
    assert(report_name(a).subrange(10, report_name(a).len() - 3) =~= a);
    assert(report_name(b).subrange(10, report_name(b).len() - 3) =~= b);
}

/// Every score stands behind its own name, once, in a line of its own.
pub proof fn scores_stand_behind_their_names(t: ScoreTexts)
    ensures
        score_lines(t) == text::join(
            seq![
                "final_confidence: "@ + t.final_confidence@,
                "l1_plausibility: "@ + t.l1_plausibility@,
                "l2_novelty: "@ + t.l2_novelty@,
                "l2_consistency: "@ + t.l2_consistency@,
                "l2_groundedness: "@ + t.l2_groundedness@,
                "l2_actionability: "@ + t.l2_actionability@,
                "l3_atomic_aggregate: "@ + t.l3_atomic_aggregate@,
                Seq::empty(),
            ],
            "\n"@,
        ),
{
    reveal_strlit("\n");
    reveal_strlit("l1_plausibility: ");
    reveal_strlit("l2_novelty: ");
    reveal_strlit("l2_consistency: ");
    reveal_strlit("l2_groundedness: ");
    reveal_strlit("l2_actionability: ");
    reveal_strlit("l3_atomic_aggregate: ");
    reveal_strlit("\nl1_plausibility: ");
    reveal_strlit("\nl2_novelty: ");
    reveal_strlit("\nl2_consistency: ");
    reveal_strlit("\nl2_groundedness: ");
    reveal_strlit("\nl2_actionability: ");
    reveal_strlit("\nl3_atomic_aggregate: ");
    assert("\nl1_plausibility: "@ =~= "\n"@ + "l1_plausibility: "@);
    assert("\nl2_novelty: "@ =~= "\n"@ + "l2_novelty: "@);
    assert("\nl2_consistency: "@ =~= "\n"@ + "l2_consistency: "@);
    assert("\nl2_groundedness: "@ =~= "\n"@ + "l2_groundedness: "@);
    assert("\nl2_actionability: "@ =~= "\n"@ + "l2_actionability: "@);
    assert("\nl3_atomic_aggregate: "@ =~= "\n"@ + "l3_atomic_aggregate: "@);
    let p0 = seq!["final_confidence: "@ + t.final_confidence@];
    let p1 = p0.push("l1_plausibility: "@ + t.l1_plausibility@);
    let p2 = p1.push("l2_novelty: "@ + t.l2_novelty@);
    let p3 = p2.push("l2_consistency: "@ + t.l2_consistency@);
    let p4 = p3.push("l2_groundedness: "@ + t.l2_groundedness@);
    let p5 = p4.push("l2_actionability: "@ + t.l2_actionability@);
    let p6 = p5.push("l3_atomic_aggregate: "@ + t.l3_atomic_aggregate@);
    let p7 = p6.push(Seq::<char>::empty());
    lemma_join_push(p0, p1.last(), "\n"@);
    lemma_join_push(p1, p2.last(), "\n"@);
    lemma_join_push(p2, p3.last(), "\n"@);
    lemma_join_push(p3, p4.last(), "\n"@);
    lemma_join_push(p4, p5.last(), "\n"@);
    lemma_join_push(p5, p6.last(), "\n"@);
    lemma_join_push(p6, p7.last(), "\n"@);
    let all = seq![
        "final_confidence: "@ + t.final_confidence@,
        "l1_plausibility: "@ + t.l1_plausibility@,
        "l2_novelty: "@ + t.l2_novelty@,
        "l2_consistency: "@ + t.l2_consistency@,
        "l2_groundedness: "@ + t.l2_groundedness@,
        "l2_actionability: "@ + t.l2_actionability@,
        "l3_atomic_aggregate: "@ + t.l3_atomic_aggregate@,
        Seq::<char>::empty(),
    ];
    assert(all =~= p7);
    let j1 = text::join(p1, "\n"@);
    assert(j1 =~= "final_confidence: "@ + t.final_confidence@ + "\nl1_plausibility: "@
        + t.l1_plausibility@);
    let j2 = text::join(p2, "\n"@);
    assert(j2 =~= j1 + "\nl2_novelty: "@ + t.l2_novelty@);
    let j3 = text::join(p3, "\n"@);
    assert(j3 =~= j2 + "\nl2_consistency: "@ + t.l2_consistency@);
    let j4 = text::join(p4, "\n"@);
    assert(j4 =~= j3 + "\nl2_groundedness: "@ + t.l2_groundedness@);
    let j5 = text::join(p5, "\n"@);
    assert(j5 =~= j4 + "\nl2_actionability: "@ + t.l2_actionability@);
    let j6 = text::join(p6, "\n"@);
    assert(j6 =~= j5 + "\nl3_atomic_aggregate: "@ + t.l3_atomic_aggregate@);
    assert(text::join(p7, "\n"@) =~= j6 + "\n"@);
    assert(score_lines(t) =~= j6 + "\n"@);
}

proof fn lemma_join_push(parts: Seq<Seq<char>>, x: Seq<char>, sep: Seq<char>)
    requires
        parts.len() > 0,
    ensures
        text::join(parts.push(x), sep) == text::join(parts, sep) + sep + x,
{
    assert(parts.push(x).drop_last() =~= parts);
}

/// The sources of a draft are listed in their order, each with its address and its time; without external evidence
/// there is no such list.
pub proof fn sources_are_listed_in_order(v: Seq<ToolEvidenceView>, e: ToolEvidenceView)
    ensures
        sources_block(Seq::empty()).len() == 0,
        v.len() == 0 ==> sources_block(v.push(e)) == "evidence_sources:\n"@ + ("  - url: '"@ + text::replace(
            e.source_url,
            "'"@,
            "''"@,
        ) + "'\n    fetched_at_ms: "@ + text::decimal(e.fetched_at_ms as nat) + "\n"@),
        v.len() > 0 ==> sources_block(v.push(e)) == sources_block(v) + ("  - url: '"@ + text::replace(
            e.source_url,
            "'"@,
            "''"@,
        ) + "'\n    fetched_at_ms: "@ + text::decimal(e.fetched_at_ms as nat) + "\n"@),
{
    assert(v.push(e).drop_last() =~= v);
    if v.len() == 0 {
        assert(source_items(v) =~= Seq::empty());
        assert(source_items(v.push(e)) =~= source_item(e));
    } else {
        assert(sources_block(v.push(e)) =~= sources_block(v) + source_item(e));
    }
}

proof fn lemma_verdict_lines_front(
    v: Seq<VerdictView>,
    confidences: Seq<Seq<char>>,
    x: VerdictView,
    c: Seq<char>,
    n: int,
)
    requires
        n <= v.len(),
        n <= confidences.len(),
    ensures
        verdict_lines(v.push(x), confidences.push(c), n) == verdict_lines(v, confidences, n),
    decreases n,
{
    if n > 0 {
        lemma_verdict_lines_front(v, confidences, x, c, n - 1);
    }
}

/// Every verdict is listed on its claim with its own confidence, behind those before it.
pub proof fn verdicts_are_listed_on_their_claims(
    v: Seq<VerdictView>,
    confidences: Seq<Seq<char>>,
    x: VerdictView,
    c: Seq<char>,
)
    requires
        v.len() == confidences.len(),
    ensures
        verdict_lines(v.push(x), confidences.push(c), v.len() as int + 1) == verdict_lines(
            v,
            confidences,
            v.len() as int,
        ) + ("- ["@ + (match x.verdict {
            imagination_calls::AtomVerdictKind::Supported => "supported"@,
            imagination_calls::AtomVerdictKind::Refuted => "refuted"@,
            imagination_calls::AtomVerdictKind::Inconclusive => "inconclusive"@,
        }) + ", conf "@ + c + "] "@ + x.atom + "\n"@),
        verdicts_block(Seq::empty(), Seq::empty()).len() == 0,
        verdicts_block(v.push(x), confidences.push(c)) == "# Atomic verdicts\n\n"@ + verdict_lines(
            v.push(x),
            confidences.push(c),
            v.len() as int + 1,
        ) + "\n"@,
{
    lemma_verdict_lines_front(v, confidences, x, c, v.len() as int);
}

/// What a hypothesis quotes is listed in its order under its heading; without quotations there is no such section.
pub proof fn quotations_are_listed_in_order(v: Seq<RefView>, e: RefView)
    ensures
        refs_block(Seq::empty()).len() == 0,
        v.len() == 0 ==> refs_block(v.push(e)) == "# Evidence refs\n\n"@ + ("- ["@ + e.id + "] "@
            + e.snippet + "\n"@) + "\n"@,
        ref_items(v.push(e)) == ref_items(v) + ("- ["@ + e.id + "] "@ + e.snippet + "\n"@),
        refs_block(v.push(e)) == "# Evidence refs\n\n"@ + ref_items(v.push(e)) + "\n"@,
{
    assert(v.push(e).drop_last() =~= v);
    if v.len() == 0 {
        assert(ref_items(v) =~= Seq::empty());
        assert(ref_items(v.push(e)) =~= "- ["@ + e.id + "] "@ + e.snippet + "\n"@);
    }
}

/// External evidence is listed in its order under its heading, each piece with its address, its time and what is shown
/// of it, and its title in front where it has one; without any there is no such section.
pub proof fn external_evidence_is_listed_in_order(v: Seq<ToolEvidenceView>, e: ToolEvidenceView)
    ensures
        external_block(Seq::empty()).len() == 0,
        external_block(v.push(e)) == "# External evidence (gathered)\n\n"@ + external_items(v.push(e))
            + "\n"@,
        external_items(Seq::empty()).len() == 0,
        (e.title is None || text::is_blank(e.title->0)) ==> external_items(v.push(e))
            == external_items(v) + ("- "@ + e.source_url + " (fetched "@ + text::decimal(
            e.fetched_at_ms as nat,
        ) + " ms)\n  "@ + imagination_evidence::shown(e.content) + "\n"@),
        (e.title is Some && !text::is_blank(e.title->0)) ==> external_items(v.push(e))
            == external_items(v) + ("- "@ + text::trim(e.title->0) + " — "@ + e.source_url
            + " (fetched "@ + text::decimal(e.fetched_at_ms as nat) + " ms)\n  "@
            + imagination_evidence::shown(e.content) + "\n"@),
{
    assert(v.push(e).drop_last() =~= v);
}

/// A draft begins with its type, its confidence, its state and its expiry, then come the scores; behind the rule stands
/// the hypothesis, and behind that what was found about it.
pub proof fn drafts_are_laid_out(
    h: HypothesisView,
    scores: ScoreTexts,
    verdicts: Seq<VerdictView>,
    confidences: Seq<Seq<char>>,
    label: Seq<char>,
    external: Seq<ToolEvidenceView>,
    now_ms: u64,
)
    ensures
        ({
            let md = imagined_md(h, scores, verdicts, confidences, label, external, now_ms);
            &&& text::starts_with(
                md,
                "---\ntype: imagined\nconfidence: "@ + label
                    + "\nstatus: pending-review\nexpiry: "@ + calendar::iso8601(expiry_ms(now_ms))
                    + "\n"@ + score_lines(scores),
            )
            &&& text::ends_with(
                md,
                sources_block(external) + "---\n\n# Hypothesis\n\n"@ + text::trim(h.statement)
                    + "\n\n"@ + verdicts_block(verdicts, confidences) + refs_block(h.evidence_refs)
                    + external_block(external),
            )
        }),
{
    let md = imagined_md(h, scores, verdicts, confidences, label, external, now_ms);
    let head = "---\ntype: imagined\nconfidence: "@ + label + "\nstatus: pending-review\nexpiry: "@
        + calendar::iso8601(expiry_ms(now_ms)) + "\n"@ + score_lines(scores);
    let tail = sources_block(external) + "---\n\n# Hypothesis\n\n"@ + text::trim(h.statement)
        + "\n\n"@ + verdicts_block(verdicts, confidences) + refs_block(h.evidence_refs)
        + external_block(external);
    assert(md =~= head + tail);
    assert((head + tail).subrange(0, head.len() as int) =~= head);
    assert((head + tail).subrange((head + tail).len() - tail.len(), (head + tail).len() as int)
        =~= tail);
}

/// A refuted hypothesis keeps its confidence and its time in front, its statement behind the rule, and the verdicts
/// behind the statement.
pub proof fn refuted_files_are_laid_out(
    statement: Seq<char>,
    confidence: Seq<char>,
    verdicts: Seq<VerdictView>,
    confidences: Seq<Seq<char>>,
    now_ms: u64,
)
    ensures
        ({
            let md = refuted_md(statement, confidence, verdicts, confidences, now_ms);
            &&& text::starts_with(
                md,
                "---\ntype: imagined\nstatus: refuted\nconfidence_value: "@ + confidence
                    + "\ncreated_at_ms: "@ + text::decimal(now_ms as nat) + "\n---\n\n"@,
            )
            &&& text::ends_with(
                md,
                "\n---\n\n"@ + text::trim(statement) + "\n"@ + verdict_lines(
                    verdicts,
                    confidences,
                    verdicts.len() as int,
                ),
            )
        }),
{
    let md = refuted_md(statement, confidence, verdicts, confidences, now_ms);
    let head = "---\ntype: imagined\nstatus: refuted\nconfidence_value: "@ + confidence
        + "\ncreated_at_ms: "@ + text::decimal(now_ms as nat);
    let rule = "\n---\n\n"@;
    let tail = text::trim(statement) + "\n"@ + verdict_lines(
        verdicts,
        confidences,
        verdicts.len() as int,
    );
    assert(md =~= head + rule + tail);
    assert(md.subrange(0, (head + rule).len() as int) =~= head + rule);
    assert(rule + tail =~= "\n---\n\n"@ + text::trim(statement) + "\n"@ + verdict_lines(
        verdicts,
        confidences,
        verdicts.len() as int,
    ));
    assert(md.subrange(md.len() - (rule + tail).len(), md.len() as int) =~= rule + tail);
}

/// A previous report of up to six thousand bytes is shown whole; of a longer one a beginning is shown that fits into
/// them, and a mark behind it.
pub proof fn previous_reports_are_cut_at_six_thousand(content: Seq<char>)
    ensures
        utf8::encode_utf8(content).len() <= 6000 ==> cut_report(content) == content,
        utf8::encode_utf8(content).len() > 6000 ==> exists|head: Seq<char>|
            {
                &&& #[trigger] head.is_prefix_of(content)
                &&& cut_report(content) == head + "\n…(truncated)"@
                &&& utf8::encode_utf8(head).len() <= 6000
                &&& forall|k: int|
                    utf8::encode_utf8(head).len() < k <= 6000 ==> !#[trigger] utf8::is_char_boundary(
                        utf8::encode_utf8(content),
                        k,
                    )
            },
{
    if utf8::encode_utf8(content).len() > 6000 {
        reports_are_cut_between_characters(content);
        let head = report_head(content);
        assert(head.is_prefix_of(content));
        assert(cut_report(content) == head + "\n…(truncated)"@);
    }
}

/// A report is written from what the memory holds, each part under its heading; where a part is blank, a remark says so.
pub proof fn reports_are_written_from_the_memory(
    inputs: SynthesisInputs,
    queue: Seq<char>,
    prev_label: Seq<char>,
    prev_report: Seq<char>,
)
    ensures
        ({
            let corpus = report_corpus(inputs, queue, prev_label, prev_report);
            let heading = "\n\n## Previous report ("@ + prev_label + ")\n"@;
            &&& text::starts_with(
                corpus,
                "## Reflection notes\n"@ + (if text::is_blank(inputs.reflections@) {
                    "(no reflection notes)"@
                } else {
                    inputs.reflections@
                }) + "\n\n## Dream insights\n"@ + (if text::is_blank(inputs.dreams@) {
                    "(no dream insights)"@
                } else {
                    inputs.dreams@
                }) + "\n\n## Recent session\n"@ + (if text::is_blank(inputs.recent_session@) {
                    "(no recent session)"@
                } else {
                    inputs.recent_session@
                }) + "\n\n## Imagination proposals (review queue)\n"@,
            )
            &&& text::ends_with(
                corpus,
                (if text::is_blank(queue) {
                    "(review queue empty)"@
                } else {
                    queue
                }) + heading + (if text::is_blank(prev_report) {
                    "(no previous report)"@
                } else {
                    prev_report
                }),
            )
        }),
{
    let corpus = report_corpus(inputs, queue, prev_label, prev_report);
    let head = "## Reflection notes\n"@ + (if text::is_blank(inputs.reflections@) {
        "(no reflection notes)"@
    } else {
        inputs.reflections@
    }) + "\n\n## Dream insights\n"@ + (if text::is_blank(inputs.dreams@) {
        "(no dream insights)"@
    } else {
        inputs.dreams@
    }) + "\n\n## Recent session\n"@ + (if text::is_blank(inputs.recent_session@) {
        "(no recent session)"@
    } else {
        inputs.recent_session@
    }) + "\n\n## Imagination proposals (review queue)\n"@;
    let tail = (if text::is_blank(queue) {
        "(review queue empty)"@
    } else {
        queue
    }) + ("\n\n## Previous report ("@ + prev_label + ")\n"@) + (if text::is_blank(prev_report) {
        "(no previous report)"@
    } else {
        prev_report
    });
    assert(corpus =~= head + tail);
    assert(corpus.subrange(0, head.len() as int) =~= head);
    assert(corpus.subrange(corpus.len() - tail.len(), corpus.len() as int) =~= tail);
}

/// A report bears the date and the time of its making in front, and ends with the reply, trimmed.
pub proof fn reports_are_dated(response: Seq<char>, now_ms: u64, language: MemoryOutputLanguage)
    ensures
        ({
            let md = report_md(response, now_ms, language);
            let date = calendar::date_text(calendar::utc_date(now_ms));
            &&& text::starts_with(
                md,
                "---\ntype: report\nname: evolution-"@ + date + "\ndescription: "@
                    + report_description(date, language),
            )
            &&& text::ends_with(
                md,
                "\ncreated_at_ms: "@ + text::decimal(now_ms as nat) + "\n---\n\n"@ + text::trim(
                    response,
                ) + "\n"@,
            )
        }),
{
    let md = report_md(response, now_ms, language);
    let date = calendar::date_text(calendar::utc_date(now_ms));
    let head = "---\ntype: report\nname: evolution-"@ + date + "\ndescription: "@
        + report_description(date, language);
    let tail = "\ncreated_at_ms: "@ + text::decimal(now_ms as nat) + "\n---\n\n"@ + text::trim(
        response,
    ) + "\n"@;
    assert(md =~= head + tail);
    assert(md.subrange(0, head.len() as int) =~= head);
    assert(md.subrange(md.len() - tail.len(), md.len() as int) =~= tail);
}

/// The link to a report shows its date and leads to the file of that date.
pub proof fn links_lead_to_their_reports(date: Seq<char>)
    ensures
        text::starts_with(
            link_line(date),
            "- [进化报告 "@ + date + "](reports/"@ + report_name(date) + ") — "@,
        ),
        is_link(link_line(date)),
{
    reveal_strlit("](reports/evolution-");
    reveal_strlit("](reports/");
    reveal_strlit("evolution-");
    reveal_strlit(".md) — 做梦与想象的自我进化结论");
    reveal_strlit(".md");
    reveal_strlit(") — ");
    let head = "- [进化报告 "@ + date + "](reports/"@ + report_name(date) + ") — "@;
    let rest = ".md) — 做梦与想象的自我进化结论"@;
    assert(rest.subrange(0, 7) =~= ".md"@ + ") — "@);
    assert("](reports/evolution-"@ =~= "](reports/"@ + "evolution-"@);
    assert(link_line(date).subrange(0, head.len() as int) =~= head);
    lemma_link_line_is_link(date);
}

proof fn lemma_relinked_front(ls: Seq<Seq<char>>, link: Seq<char>, k: int)
    requires
        0 <= k <= ls.len(),
        forall|i: int| 0 <= i < k ==> !is_link(#[trigger] ls[i]),
        k < ls.len() ==> is_link(ls[k]),
    ensures
        k == ls.len() ==> relinked(ls, link) == (ls, false),
        k < ls.len() ==> relinked(ls, link).1 && relinked(ls, link).0.len() > k && relinked(
            ls,
            link,
        ).0.take(k) == ls.take(k) && relinked(ls, link).0[k] == link,
    decreases ls.len(),
{
    if ls.len() > 0 {
        let front = ls.drop_last();
        if k == ls.len() {
            assert forall|i: int| 0 <= i < k - 1 implies !is_link(#[trigger] front[i]) by {
                assert(front[i] == ls[i]);
            }
            lemma_relinked_front(front, link, k - 1);
            assert(!is_link(ls[k - 1]));
            assert(front.push(ls.last()) =~= ls);
        } else if k == ls.len() - 1 {
            assert forall|i: int| 0 <= i < k implies !is_link(#[trigger] front[i]) by {
                assert(front[i] == ls[i]);
            }
            lemma_relinked_front(front, link, k);
            assert(relinked(ls, link).0 == front.push(link));
            assert(front.push(link).take(k) =~= ls.take(k));
        } else {
            assert forall|i: int| 0 <= i < k implies !is_link(#[trigger] front[i]) by {
                assert(front[i] == ls[i]);
            }
            lemma_relinked_front(front, link, k);
            let before = relinked(front, link).0;
            assert(front.take(k) =~= ls.take(k));
            if !is_link(ls.last()) {
                assert(before.push(ls.last()).take(k) =~= before.take(k));
            }
        }
    } else {
        assert(relinked(ls, link).0 =~= ls);
    }
}

/// The link stands where the first link stood, with the same lines before it; where there was none it stands at the end.
pub proof fn links_are_put_in_their_place(ls: Seq<Seq<char>>, date: Seq<char>, k: int)
    requires
        0 <= k <= ls.len(),
        forall|i: int| 0 <= i < k ==> !is_link(#[trigger] ls[i]),
        k < ls.len() ==> is_link(ls[k]),
    ensures
        linked(ls, link_line(date)).len() > k,
        linked(ls, link_line(date))[k] == link_line(date),
        linked(ls, link_line(date)).take(k) == ls.take(k),
        k == ls.len() ==> linked(ls, link_line(date)) == ls.push(link_line(date)),
{
    lemma_relinked_front(ls, link_line(date), k);
    if k == ls.len() {
        assert(ls.push(link_line(date)).take(k) =~= ls.take(k));
    }
}

/// The ledger keeps the last hundred lines that are not blank, the new one among them, in their order.
pub proof fn the_ledger_keeps_the_last_hundred(existing: Seq<char>, line: Seq<char>)
    ensures
        ({
            let all = filled_lines(text::lines(existing)).push(line);
            &&& all.len() <= 100 ==> ledger_lines(existing, line) == all
            &&& all.len() > 100 ==> ledger_lines(existing, line) == all.skip(all.len() - 100)
        }),
        ledger_lines(existing, line).last() == line,
        ({
            let all = filled_lines(text::lines(existing));
            &&& all.len() <= 3 ==> ledger_tail(existing) == all
            &&& all.len() > 3 ==> ledger_tail(existing) == all.skip(all.len() - 3)
        }),
{
}

/// Lines that are not blank are kept in their order, and blank ones are passed over.
pub proof fn blank_lines_are_passed_over(ls: Seq<Seq<char>>, line: Seq<char>)
    ensures
        filled_lines(Seq::empty()).len() == 0,
        text::trim(line).len() == 0 ==> filled_lines(ls.push(line)) == filled_lines(ls),
        text::trim(line).len() > 0 ==> filled_lines(ls.push(line)) == filled_lines(ls).push(line),
{
    assert(ls.push(line).drop_last() =~= ls);
}

/// Every sweep is shown in a line with its time and its four counts.
pub proof fn sweeps_are_shown_with_their_counts(v: Seq<SweepMetaReview>, x: SweepMetaReview)
    ensures
        sweep_lines(Seq::empty()).len() == 0,
        sweep_lines(v.push(x)) == sweep_lines(v).push(
            "- sweep@"@ + text::decimal(x.ts_ms as nat) + ": "@ + text::decimal(x.candidates as nat)
                + " candidates → "@ + text::decimal(x.queued_high as nat) + " high, "@
                + text::decimal(x.queued_medium as nat) + " medium, "@ + text::decimal(
                x.expired as nat,
            ) + " expired"@,
        ),
{
    assert(sweep_lines(v.push(x)) =~= sweep_lines(v).push(sweep_line(x)));
}

/// A report is asked for in the language in which it is to be written, and described in that language.
pub proof fn reports_speak_their_language(date: Seq<char>)
    ensures
        report_prompt(MemoryOutputLanguage::Zh) == EVOLUTION_REPORT_SYSTEM_PROMPT@,
        report_prompt(MemoryOutputLanguage::En) == EVOLUTION_REPORT_SYSTEM_PROMPT_EN@,
        text::starts_with(
            report_description(date, MemoryOutputLanguage::En),
            "Self-evolution report "@ + date,
        ),
        text::starts_with(
            report_description(date, MemoryOutputLanguage::Zh),
            "自我进化报告 "@ + date,
        ),
{
    let en = "Self-evolution report "@ + date;
    let zh = "自我进化报告 "@ + date;
    assert(report_description(date, MemoryOutputLanguage::En).subrange(0, en.len() as int) =~= en);
    assert(report_description(date, MemoryOutputLanguage::Zh).subrange(0, zh.len() as int) =~= zh);
}

/// A report is told by its name: `evolution-`, anything, and `.md`.
pub proof fn reports_are_told_by_their_names(name: Seq<char>, middle: Seq<char>)
    ensures
        is_report("evolution-"@ + middle + ".md"@),
        is_report(name) ==> name.len() >= 13 && name == "evolution-"@ + name.subrange(
            10,
            name.len() - 3,
        ) + ".md"@,
{
    reveal_strlit("evolution-");
    reveal_strlit(".md");
    let s = "evolution-"@ + middle + ".md"@;
    assert(s.subrange(0, 10) =~= "evolution-"@);
    assert(s.subrange(s.len() - 3, s.len() as int) =~= ".md"@);
    if is_report(name) {
        let n = name.len() as int;
        let head = name.subrange(0, 10);
        let tail = name.subrange(n - 3, n);
        assert(head == "evolution-"@ && tail == ".md"@);
        assert(tail[0] == name[n - 3] && tail[1] == name[n - 2] && tail[2] == name[n - 1]);
        assert(head[7] == name[7] && head[8] == name[8] && head[9] == name[9]);
        assert(head[7] == 'o' && head[8] == 'n' && head[9] == '-');
        assert(tail[0] == '.' && tail[1] == 'm' && tail[2] == 'd');
        assert(n >= 13);
        assert(name =~= head + name.subrange(10, n - 3) + tail);
    }
}

} // verus!
