//! The model calls of an imagination: the messages of each layer, and what is read from the replies.

use vstd::prelude::*;
use vstd::string::StringExecFns;
use crate::json;
use crate::json::{Json, JsonView};
use crate::score;
use crate::text;
use crate::tier;
use crate::tier::dream_calls;
use crate::tier::imagination_evidence;
use crate::tier::imagination_evidence::{
    HypothesisView, ImaginationEvidenceRef, ImaginationHypothesis, RefView, ToolEvidence,
    ToolEvidenceView,
};
use crate::tier::{LlmMessage, MessageView};

verus! {

/// Plausibility of a hypothesis. Filled in: `{{hypothesis}}`, `{{context}}`.
pub const TIER3_IMAGINATION_L1_SELFRAG_PROMPT: &'static str = r#"You are the imagination self-evaluation agent. Your job is to assess how plausible the given hypothesis is, on its own merits, before any external evidence check.

# Hypothesis under evaluation

{{hypothesis}}

# Supporting context (for orientation only — NOT evidence)

{{context}}

# Output format

Return ONE JSON object (no surrounding markdown) of the form:

{
  "plausibility": <0.0..1.0>,
  "reasoning": "<one-line reasoning summary>"
}

Rules:
- `plausibility` is a single float in [0.0, 1.0].
  0.0 = obviously implausible / contradicts well-known facts.
  0.5 = neutral / cannot decide.
  1.0 = obviously plausible / common-knowledge consistent.
- Self-evaluate WITHOUT inventing supporting evidence. This layer is about a-priori plausibility, not factual verification.
- `reasoning` MUST be under 200 characters."#;

/// Four scores of a hypothesis. Filled in: `{{hypothesis}}`, `{{evidence_summary}}`.
pub const TIER3_IMAGINATION_L2_FOUR_DIMENSIONS_PROMPT: &'static str = r#"You are the imagination four-dimension scoring agent. Score the given hypothesis on four orthogonal dimensions.

# Hypothesis

{{hypothesis}}

# Evidence summary

{{evidence_summary}}

# Output format

Return ONE JSON object (no surrounding markdown) of the form:

{
  "novelty": <0.0..1.0>,
  "consistency": <0.0..1.0>,
  "groundedness": <0.0..1.0>,
  "actionability": <0.0..1.0>,
  "notes": "<one-line notes>"
}

Dimension definitions (strict):
- novelty: is the hypothesis a non-obvious insight? (0=trivial restatement, 1=novel synthesis)
- consistency: does the hypothesis cohere with the supplied evidence? (0=contradicts evidence, 1=fully coheres)
- groundedness: is the hypothesis grounded in concrete evidence? (0=pure speculation, 1=multiple evidence refs)
- actionability: can downstream agents act on this hypothesis? (0=untestable / abstract, 1=immediately actionable)

Rules:
- Each score MUST be a float in [0.0, 1.0].
- Score independently; do NOT average dimensions in your head — the consumer averages downstream.
- `notes` MUST be under 200 characters."#;

/// Verdict on one claim. Filled in: `{{atom}}`, `{{evidence_refs}}`.
pub const TIER3_IMAGINATION_L3_ATOMIC_VERIFY_PROMPT: &'static str = r#"You are the imagination atomic verification agent. Decide whether a single atomic statement is supported by the given evidence.

# Atomic statement

{{atom}}

# Evidence to check against

{{evidence_refs}}

# Output format

Return ONE JSON object (no surrounding markdown) of the form:

{
  "verdict": "supported" | "refuted" | "inconclusive",
  "confidence": <0.0..1.0>,
  "citing_evidence_ids": ["<id>", ...]
}

Verdict semantics (strict):
- "supported": at least one evidence ref affirmatively backs the statement.
- "refuted": at least one evidence ref directly contradicts the statement.
- "inconclusive": neither sufficient affirmation nor contradiction in evidence.

Rules:
- `confidence` is your certainty in the verdict, a float in [0.0, 1.0].
- `citing_evidence_ids` MUST be empty when verdict == "inconclusive".
- Do NOT hallucinate evidence not present in the input."#;

/// Generation of hypotheses. Filled in: `{{reflections}}`, `{{dreams}}`, `{{recent_session}}`,
/// `{{refuted}}`, `{{meta_review}}`.
pub const TIER3_IMAGINATION_HYPOTHESIS_GEN_PROMPT: &'static str = r#"You are the imagination hypothesis-generation agent. Your job is to synthesize NOVEL, non-obvious candidate hypotheses by reflecting over the system's existing memory — its reflections, its dreams, and its recent session activity. These hypotheses are not assertions of fact: they are speculative insights that downstream layers will independently verify against evidence. Your value is in connecting dots ACROSS the three sources that no single source states outright.

# Reflections (consolidated memory notes)

{{reflections}}

# Dreams (prior insights)

{{dreams}}

# Recent session activity

{{recent_session}}

# Previously refuted hypotheses (negative knowledge)

{{refuted}}

# Recent sweep meta-review

{{meta_review}}

# Output format

Return ONE JSON object (no surrounding markdown) of the form:

{
  "hypotheses": [
    {
      "statement": "<one concise speculative insight, plain text>",
      "atoms": ["<atomic claim 1>", "<atomic claim 2>"],
      "evidence_refs": [
        { "id": "<source id, e.g. a memory filename or session marker>", "snippet": "<verbatim quote under 200 chars supporting an atom>" }
      ]
    }
  ]
}

Rules:
- Synthesize NEW insights by combining signals across reflections, dreams, and session — do NOT merely restate any single existing note.
- Each hypothesis MUST be falsifiable: phrase it so downstream evidence checking can support or refute it.
- `atoms` decompose the statement into independently checkable claims (1-4 atoms).
- `evidence_refs` cite the SOURCE text you drew from (verbatim snippets from the inputs above). Cite honestly; do NOT fabricate quotes that are not present in the inputs. An empty list is acceptable when the hypothesis is purely speculative.
- Emit 1-5 hypotheses. Prefer fewer, higher-quality, genuinely novel hypotheses over many trivial ones.
- NEVER regenerate a hypothesis from the refuted list above (or a trivial rephrasing of one) — those already failed verification; negative knowledge is final until new evidence appears in the inputs.
- Use the meta-review section to calibrate: if recent sweeps expired most candidates, generate fewer and more conservative hypotheses this round.
- If the inputs are empty or too thin to synthesize anything novel, return {"hypotheses": []}."#;

// ---------------------------------------------------------------------------
// Messages
// ---------------------------------------------------------------------------

/// The messages that ask how plausible a hypothesis is.
pub open spec fn l1_messages(h: HypothesisView) -> Seq<MessageView> {
    tier::dialogue(
        text::replace(
            text::replace(
                TIER3_IMAGINATION_L1_SELFRAG_PROMPT@,
                "{{hypothesis}}"@,
                h.statement,
            ),
            "{{context}}"@,
            dream_calls::or_placeholder(h.context, "(no supporting context)"@),
        ),
        "Apply the rules and return the plausibility JSON."@,
    )
}

/// See [`l1_messages`].
pub fn build_l1_messages(hypothesis: &ImaginationHypothesis) -> (r: Vec<LlmMessage>)
    ensures
        tier::message_views(r@) == l1_messages(hypothesis@),
{
    proof {
        reveal_strlit("{{hypothesis}}");
        reveal_strlit("{{context}}");
    }
    let context = section_or_placeholder(hypothesis.context.as_str(), "(no supporting context)");
    let first = text::replaced(
        TIER3_IMAGINATION_L1_SELFRAG_PROMPT,
        "{{hypothesis}}",
        hypothesis.statement.as_str(),
    );
    let system = text::replaced(first.as_str(), "{{context}}", context.as_str());
    tier::dialogue_of(system, "Apply the rules and return the plausibility JSON.".to_owned())
}

/// The evidence that scores are asked on: what was gathered, else what the hypothesis quotes.
pub open spec fn l2_evidence(h: HypothesisView, external: Seq<ToolEvidenceView>) -> Seq<char> {
    if external.len() > 0 {
        text::join(imagination_evidence::summary_lines(external), "\n"@)
    } else {
        imagination_evidence::ref_list(h.evidence_refs)
    }
}

/// The messages that ask for the four scores of a hypothesis.
pub open spec fn l2_messages(h: HypothesisView, external: Seq<ToolEvidenceView>) -> Seq<
    MessageView,
> {
    tier::dialogue(
        text::replace(
            text::replace(
                TIER3_IMAGINATION_L2_FOUR_DIMENSIONS_PROMPT@,
                "{{hypothesis}}"@,
                h.statement,
            ),
            "{{evidence_summary}}"@,
            l2_evidence(h, external),
        ),
        "Apply the rules and return the four-dimension JSON."@,
    )
}

/// See [`l2_messages`].
pub fn build_l2_messages_with_evidence(
    hypothesis: &ImaginationHypothesis,
    external_evidence: &Vec<ToolEvidence>,
) -> (r: Vec<LlmMessage>)
    ensures
        tier::message_views(r@) == l2_messages(
            hypothesis@,
            imagination_evidence::tool_evidence_views(external_evidence@),
        ),
{
    proof {
        reveal_strlit("{{hypothesis}}");
        reveal_strlit("{{evidence_summary}}");
    }
    let body = if external_evidence.len() > 0 {
        imagination_evidence::format_external_evidence_summary(external_evidence)
    } else {
        imagination_evidence::ref_list_of(&hypothesis.evidence_refs)
    };
    let first = text::replaced(
        TIER3_IMAGINATION_L2_FOUR_DIMENSIONS_PROMPT,
        "{{hypothesis}}",
        hypothesis.statement.as_str(),
    );
    let system = text::replaced(first.as_str(), "{{evidence_summary}}", body.as_str());
    tier::dialogue_of(system, "Apply the rules and return the four-dimension JSON.".to_owned())
}

/// The messages that ask for the verdict on a claim.
pub open spec fn l3_messages(atom: Seq<char>, refs: Seq<RefView>) -> Seq<MessageView> {
    tier::dialogue(
        text::replace(
            text::replace(TIER3_IMAGINATION_L3_ATOMIC_VERIFY_PROMPT@, "{{atom}}"@, atom),
            "{{evidence_refs}}"@,
            imagination_evidence::ref_list(refs),
        ),
        "Apply the rules and return the verdict JSON."@,
    )
}

/// See [`l3_messages`].
pub fn build_l3_messages(atom: &str, evidence_refs: &Vec<ImaginationEvidenceRef>) -> (r: Vec<
    LlmMessage,
>)
    ensures
        tier::message_views(r@) == l3_messages(
            atom@,
            imagination_evidence::ref_views(evidence_refs@),
        ),
{
    proof {
        reveal_strlit("{{atom}}");
        reveal_strlit("{{evidence_refs}}");
    }
    let body = imagination_evidence::ref_list_of(evidence_refs);
    let first = text::replaced(TIER3_IMAGINATION_L3_ATOMIC_VERIFY_PROMPT, "{{atom}}", atom);
    let system = text::replaced(first.as_str(), "{{evidence_refs}}", body.as_str());
    tier::dialogue_of(system, "Apply the rules and return the verdict JSON.".to_owned())
}

/// What hypotheses are generated from, one section per source; a section without content is blank.
#[derive(Debug, Clone)]
pub struct SynthesisInputs {
    pub reflections: String,
    pub dreams: String,
    pub recent_session: String,
    pub refuted: String,
    pub meta_review: String,
}

impl Default for SynthesisInputs {
    fn default() -> (r: Self)
        ensures
            r.reflections@.len() == 0,
            r.dreams@.len() == 0,
            r.recent_session@.len() == 0,
            r.refuted@.len() == 0,
            r.meta_review@.len() == 0,
    {
        SynthesisInputs {
            reflections: String::new(),
            dreams: String::new(),
            recent_session: String::new(),
            refuted: String::new(),
            meta_review: String::new(),
        }
    }
}

/// A text, or the placeholder where it is blank.
pub fn section_or_placeholder(body: &str, placeholder: &str) -> (r: String)
    ensures
        r@ == dream_calls::or_placeholder(body@, placeholder@),
{
    dream_calls::filled(body, placeholder)
}

/// A text, or the placeholder where it is blank.
pub fn placeholder_if_empty<'a>(s: &'a str, placeholder: &'a str) -> (r: &'a str)
    ensures
        r@ == dream_calls::or_placeholder(s@, placeholder@),
{
    if text::blank(s) {
        placeholder
    } else {
        s
    }
}

/// The prompt of a generation without an addendum.
pub open spec fn hypgen_system(inputs: SynthesisInputs) -> Seq<char> {
    text::replace(
        text::replace(
            text::replace(
                text::replace(
                    text::replace(
                        TIER3_IMAGINATION_HYPOTHESIS_GEN_PROMPT@,
                        "{{reflections}}"@,
                        dream_calls::or_placeholder(inputs.reflections@, "(no reflection notes)"@),
                    ),
                    "{{dreams}}"@,
                    dream_calls::or_placeholder(inputs.dreams@, "(no dream insights)"@),
                ),
                "{{recent_session}}"@,
                dream_calls::or_placeholder(inputs.recent_session@, "(no recent session)"@),
            ),
            "{{refuted}}"@,
            dream_calls::or_placeholder(inputs.refuted@, "(no refuted hypotheses yet)"@),
        ),
        "{{meta_review}}"@,
        dream_calls::or_placeholder(inputs.meta_review@, "(no prior sweeps)"@),
    )
}

/// The messages that ask for hypotheses, the addendum behind the prompt.
pub open spec fn hypgen_messages(inputs: SynthesisInputs, addendum: Seq<char>) -> Seq<MessageView> {
    tier::dialogue(
        hypgen_system(inputs) + addendum,
        "Synthesize candidate hypotheses across the three sources and return the JSON."@,
    )
}

/// An addendum goes behind the prompt and changes nothing else.
pub proof fn addendum_only_extends_the_prompt(inputs: SynthesisInputs, addendum: Seq<char>)
    ensures
        hypgen_messages(inputs, addendum)[0].content == hypgen_messages(
            inputs,
            Seq::empty(),
        )[0].content + addendum,
        hypgen_messages(inputs, addendum)[1] == hypgen_messages(inputs, Seq::empty())[1],
        hypgen_messages(inputs, addendum).len() == 2,
{
    assert(hypgen_system(inputs) + Seq::<char>::empty() =~= hypgen_system(inputs));
}

/// See [`hypgen_messages`].
pub fn build_hypgen_messages(inputs: &SynthesisInputs, addendum: &str) -> (r: Vec<LlmMessage>)
    ensures
        tier::message_views(r@) == hypgen_messages(*inputs, addendum@),
{
    proof {
        reveal_strlit("{{reflections}}");
        reveal_strlit("{{dreams}}");
        reveal_strlit("{{recent_session}}");
        reveal_strlit("{{refuted}}");
        reveal_strlit("{{meta_review}}");
    }
    let reflections = section_or_placeholder(inputs.reflections.as_str(), "(no reflection notes)");
    let dreams = section_or_placeholder(inputs.dreams.as_str(), "(no dream insights)");
    let session = section_or_placeholder(inputs.recent_session.as_str(), "(no recent session)");
    let refuted = section_or_placeholder(
        inputs.refuted.as_str(),
        "(no refuted hypotheses yet)",
    );
    let review = section_or_placeholder(inputs.meta_review.as_str(), "(no prior sweeps)");
    let a = text::replaced(
        TIER3_IMAGINATION_HYPOTHESIS_GEN_PROMPT,
        "{{reflections}}",
        reflections.as_str(),
    );
    let b = text::replaced(a.as_str(), "{{dreams}}", dreams.as_str());
    let c = text::replaced(b.as_str(), "{{recent_session}}", session.as_str());
    let d = text::replaced(c.as_str(), "{{refuted}}", refuted.as_str());
    let mut system = text::replaced(d.as_str(), "{{meta_review}}", review.as_str());
    system.append(addendum);
    tier::dialogue_of(
        system,
        "Synthesize candidate hypotheses across the three sources and return the JSON.".to_owned(),
    )
}

// ---------------------------------------------------------------------------
// Replies
// ---------------------------------------------------------------------------

/// What stands inside a code fence round the whole text; the trimmed text where there is none.
pub open spec fn unfenced(s: Seq<char>) -> Seq<char> {
    let t = text::trim(s);
    match text::strip_prefix(t, "```json\n"@) {
        Some(rest) => crate::tier::tier2_extract_memories::before_last_fence(rest),
        None => match text::strip_prefix(t, "```\n"@) {
            Some(rest) => crate::tier::tier2_extract_memories::before_last_fence(rest),
            None => t,
        },
    }
}

/// See [`unfenced`].
pub fn strip_fences(s: &str) -> (r: String)
    ensures
        r@ == unfenced(s@),
{
    let t = text::trimmed(s);
    match text::without_prefix(t.as_str(), "```json\n") {
        Some(rest) => crate::tier::tier2_extract_memories::cut_fence(rest),
        None => match text::without_prefix(t.as_str(), "```\n") {
            Some(rest) => crate::tier::tier2_extract_memories::cut_fence(rest),
            None => t,
        },
    }
}

/// The JSON value that a reply is, fences aside.
pub open spec fn reply_json(raw: Seq<char>) -> Option<JsonView> {
    json::json_of(unfenced(text::trim(raw)))
}

/// See [`reply_json`].
pub fn read_reply(raw: &str) -> (r: Option<Json>)
    ensures
        r matches Some(j) ==> reply_json(raw@) == Some(j@),
        r is None ==> reply_json(raw@) is None,
{
    let t = strip_fences(text::trimmed(raw).as_str());
    json::parse_json(t.as_str())
}

/// The member called `key` as a score between zero and one.
pub open spec fn score_in(v: JsonView, key: Seq<char>) -> Option<u64> {
    match json::as_number(json::member(v, key)) {
        Some(n) => Some(score::unit_clamped(n)),
        None => None,
    }
}

/// See [`score_in`].
pub fn score_of(v: &Json, key: &str) -> (r: Option<u64>)
    ensures
        r == score_in(v@, key@),
{
    match v.get(key) {
        Some(j) => match j.number() {
            Some(n) => Some(score::clamp_unit(n)),
            None => None,
        },
        None => None,
    }
}

/// The plausibility that a reply carries.
pub open spec fn plausibility_in(raw: Seq<char>) -> Option<u64> {
    match reply_json(raw) {
        Some(v) => score_in(v, "plausibility"@),
        None => None,
    }
}

/// The plausibility in a reply.
pub fn parse_l1_json(raw: &str) -> (r: Option<u64>)
    ensures
        r == plausibility_in(raw@),
{
    match read_reply(raw) {
        Some(v) => score_of(&v, "plausibility"),
        None => None,
    }
}

/// The four scores of a hypothesis.
#[derive(Debug, Clone, Copy, PartialEq, Eq, Structural)]
pub struct FourDimensionScores {
    pub novelty: u64,
    pub consistency: u64,
    pub groundedness: u64,
    pub actionability: u64,
}

impl FourDimensionScores {
    /// The scores that stand for no judgement: one half each.
    pub fn neutral() -> (r: Self)
        ensures
            r == neutral_scores(),
    {
        FourDimensionScores {
            novelty: score::HALF,
            consistency: score::HALF,
            groundedness: score::HALF,
            actionability: score::HALF,
        }
    }
}

pub open spec fn neutral_scores() -> FourDimensionScores {
    FourDimensionScores {
        novelty: score::HALF,
        consistency: score::HALF,
        groundedness: score::HALF,
        actionability: score::HALF,
    }
}

/// The four scores that a JSON value holds; `None` where one of them is missing.
pub open spec fn scores_in(v: JsonView) -> Option<FourDimensionScores> {
    match (
        score_in(v, "novelty"@),
        score_in(v, "consistency"@),
        score_in(v, "groundedness"@),
        score_in(v, "actionability"@),
    ) {
        (Some(novelty), Some(consistency), Some(groundedness), Some(actionability)) => Some(
            FourDimensionScores { novelty, consistency, groundedness, actionability },
        ),
        _ => None,
    }
}

/// See [`scores_in`].
pub fn scores_of(v: &Json) -> (r: Option<FourDimensionScores>)
    ensures
        r == scores_in(v@),
{
    let a = score_of(v, "novelty");
    let b = score_of(v, "consistency");
    let c = score_of(v, "groundedness");
    let d = score_of(v, "actionability");
    match (a, b, c, d) {
        (Some(novelty), Some(consistency), Some(groundedness), Some(actionability)) => Some(
            FourDimensionScores { novelty, consistency, groundedness, actionability },
        ),
        _ => None,
    }
}

/// The scores that a reply carries.
pub open spec fn dimensions_in(raw: Seq<char>) -> Option<FourDimensionScores> {
    match reply_json(raw) {
        Some(v) => scores_in(v),
        None => None,
    }
}

/// The four scores in a reply.
pub fn parse_l2_json(raw: &str) -> (r: Option<FourDimensionScores>)
    ensures
        r == dimensions_in(raw@),
{
    match read_reply(raw) {
        Some(v) => scores_of(&v),
        None => None,
    }
}

/// What was found about a claim.
#[derive(Debug, Clone, Copy, PartialEq, Eq, Structural)]
pub enum AtomVerdictKind {
    Supported,
    Refuted,
    Inconclusive,
}

/// The verdict on a claim. The confidence is the bit pattern of a double.
#[derive(Debug, Clone)]
pub struct AtomVerdict {
    pub atom: String,
    pub verdict: AtomVerdictKind,
    pub confidence: u64,
    pub citing_evidence_ids: Vec<String>,
}

pub struct VerdictView {
    pub atom: Seq<char>,
    pub verdict: AtomVerdictKind,
    pub confidence: u64,
    pub citing_evidence_ids: Seq<Seq<char>>,
}

impl View for AtomVerdict {
    type V = VerdictView;

    open spec fn view(&self) -> VerdictView {
        VerdictView {
            atom: self.atom@,
            verdict: self.verdict,
            confidence: self.confidence,
            citing_evidence_ids: text::views(self.citing_evidence_ids@),
        }
    }
}

pub open spec fn verdict_views(v: Seq<AtomVerdict>) -> Seq<VerdictView> {
    Seq::new(v.len(), |i: int| v[i]@)
}

/// The name of a verdict.
pub open spec fn verdict_name(k: AtomVerdictKind) -> Seq<char> {
    match k {
        AtomVerdictKind::Supported => "supported"@,
        AtomVerdictKind::Refuted => "refuted"@,
        AtomVerdictKind::Inconclusive => "inconclusive"@,
    }
}

/// The verdict with the given name.
pub open spec fn verdict_named(s: Seq<char>) -> Option<AtomVerdictKind> {
    if s == "supported"@ {
        Some(AtomVerdictKind::Supported)
    } else if s == "refuted"@ {
        Some(AtomVerdictKind::Refuted)
    } else if s == "inconclusive"@ {
        Some(AtomVerdictKind::Inconclusive)
    } else {
        None
    }
}

/// A verdict has the name under which it is read.
pub proof fn verdict_names_round_trip(k: AtomVerdictKind)
    ensures
        verdict_named(verdict_name(k)) == Some(k),
{
    reveal_strlit("supported");
    reveal_strlit("refuted");
    reveal_strlit("inconclusive");
    assert("supported"@.len() == 9);
    assert("refuted"@.len() == 7);
    assert("inconclusive"@.len() == 12);
}

/// See [`verdict_name`].
pub fn name_of_verdict(k: AtomVerdictKind) -> (r: &'static str)
    ensures
        r@ == verdict_name(k),
{
    match k {
        AtomVerdictKind::Supported => "supported",
        AtomVerdictKind::Refuted => "refuted",
        AtomVerdictKind::Inconclusive => "inconclusive",
    }
}

/// The verdict that a JSON value holds, the claim still to be filled in; `None` where it names no
/// verdict. Without a confidence it counts as none.
pub open spec fn verdict_in(v: JsonView) -> Option<VerdictView> {
    match json::as_text(json::member(v, "verdict"@)) {
        Some(s) => match verdict_named(s) {
            Some(verdict) => Some(
                VerdictView {
                    atom: Seq::empty(),
                    verdict,
                    confidence: match score_in(v, "confidence"@) {
                        Some(c) => c,
                        None => score::ZERO,
                    },
                    citing_evidence_ids: json::texts_of(json::member(v, "citing_evidence_ids"@)),
                },
            ),
            None => None,
        },
        None => None,
    }
}

/// See [`verdict_in`].
pub fn verdict_of(v: &Json) -> (r: Option<AtomVerdict>)
    ensures
        match verdict_in(v@) {
            Some(x) => r matches Some(y) && y@ == x,
            None => r is None,
        },
{
    let name = match v.get("verdict") {
        Some(j) => match j.text() {
            Some(s) => s,
            None => return None,
        },
        None => return None,
    };
    let verdict = if text::same(name.as_str(), "supported") {
        AtomVerdictKind::Supported
    } else if text::same(name.as_str(), "refuted") {
        AtomVerdictKind::Refuted
    } else if text::same(name.as_str(), "inconclusive") {
        AtomVerdictKind::Inconclusive
    } else {
        return None;
    };
    let confidence = match score_of(v, "confidence") {
        Some(c) => c,
        None => score::ZERO,
    };
    Some(
        AtomVerdict {
            atom: String::new(),
            verdict,
            confidence,
            citing_evidence_ids: json::texts(v.get("citing_evidence_ids")),
        },
    )
}

/// The verdict that a reply carries.
pub open spec fn claim_verdict_in(raw: Seq<char>) -> Option<VerdictView> {
    match reply_json(raw) {
        Some(v) => verdict_in(v),
        None => None,
    }
}

/// The verdict in a reply.
pub fn parse_l3_json(raw: &str) -> (r: Option<AtomVerdict>)
    ensures
        match claim_verdict_in(raw@) {
            Some(x) => r matches Some(y) && y@ == x,
            None => r is None,
        },
{
    match read_reply(raw) {
        Some(v) => verdict_of(&v),
        None => None,
    }
}

/// The claims that a JSON list holds: its texts, trimmed, without the blank ones.
pub open spec fn atoms_in(ts: Seq<Seq<char>>) -> Seq<Seq<char>>
    decreases ts.len(),
{
    if ts.len() == 0 {
        Seq::empty()
    } else if text::is_blank(ts.last()) {
        atoms_in(ts.drop_last())
    } else {
        atoms_in(ts.drop_last()).push(text::trim(ts.last()))
    }
}

/// The quotation that one element holds; `None` where it has no identifier.
pub open spec fn ref_in_item(v: JsonView) -> Option<RefView> {
    match json::as_text(json::member(v, "id"@)) {
        Some(id) => if text::is_blank(id) {
            None
        } else {
            Some(
                RefView {
                    id: text::trim(id),
                    snippet: text::trim(json::text_or_empty(v, "snippet"@)),
                },
            )
        },
        None => None,
    }
}

pub open spec fn refs_upto(items: Seq<JsonView>, n: int) -> Seq<RefView>
    decreases n,
{
    if n <= 0 {
        Seq::empty()
    } else {
        match ref_in_item(items[n - 1]) {
            Some(q) => refs_upto(items, n - 1).push(q),
            None => refs_upto(items, n - 1),
        }
    }
}

pub open spec fn refs_in(v: Option<JsonView>) -> Seq<RefView> {
    match json::as_items(v) {
        Some(items) => refs_upto(items, items.len() as int),
        None => Seq::empty(),
    }
}

/// The hypothesis that one element holds; `None` where its statement is missing or blank. Without
/// claims, the statement is its only claim.
pub open spec fn hypothesis_in_item(v: JsonView) -> Option<HypothesisView> {
    match json::as_text(json::member(v, "statement"@)) {
        Some(s) => if text::is_blank(s) {
            None
        } else {
            let claims = atoms_in(json::texts_of(json::member(v, "atoms"@)));
            Some(
                HypothesisView {
                    statement: text::trim(s),
                    atoms: if claims.len() == 0 {
                        seq![text::trim(s)]
                    } else {
                        claims
                    },
                    evidence_refs: refs_in(json::member(v, "evidence_refs"@)),
                    context: Seq::empty(),
                },
            )
        },
        None => None,
    }
}

pub open spec fn hypotheses_upto(items: Seq<JsonView>, n: int) -> Seq<HypothesisView>
    decreases n,
{
    if n <= 0 {
        Seq::empty()
    } else {
        match hypothesis_in_item(items[n - 1]) {
            Some(h) => hypotheses_upto(items, n - 1).push(h),
            None => hypotheses_upto(items, n - 1),
        }
    }
}

/// The hypotheses that a JSON value holds; none where it has no list of them.
pub open spec fn hypotheses_in(v: JsonView) -> Seq<HypothesisView> {
    match json::as_items(json::member(v, "hypotheses"@)) {
        Some(items) => hypotheses_upto(items, items.len() as int),
        None => Seq::empty(),
    }
}

/// Every hypothesis that is read has a statement that is not blank and at least one claim.
pub proof fn read_hypotheses_are_checkable(items: Seq<JsonView>, n: int)
    requires
        0 <= n <= items.len(),
    ensures
        forall|i: int|
            0 <= i < hypotheses_upto(items, n).len() ==> (#[trigger] hypotheses_upto(
                items,
                n,
            )[i]).atoms.len() > 0 && hypotheses_upto(items, n)[i].statement.len() > 0,
    decreases n,
{
    if n > 0 {
        read_hypotheses_are_checkable(items, n - 1);
        let rest = hypotheses_upto(items, n - 1);
        let all = hypotheses_upto(items, n);
        assert forall|i: int| 0 <= i < all.len() implies (#[trigger] all[i]).atoms.len() > 0
            && all[i].statement.len() > 0 by {
            if i < rest.len() {
                assert(all[i] == rest[i]);
            }
        }
    }
}

fn atoms_of(ts: &Vec<String>) -> (r: Vec<String>)
    ensures
        text::views(r@) == atoms_in(text::views(ts@)),
{
    let ghost all = text::views(ts@);
    let mut out: Vec<String> = Vec::new();
    assert(text::views(out@) =~= Seq::empty());
    let mut i: usize = 0;
    while i < ts.len()
        invariant
            i <= ts@.len(),
            all == text::views(ts@),
            text::views(out@) == atoms_in(all.take(i as int)),
        decreases ts@.len() - i,
    {
        proof {
            assert(all.take(i + 1).drop_last() =~= all.take(i as int));
            assert(all.take(i + 1).last() == ts@[i as int]@);
        }
        if !text::blank(ts[i].as_str()) {
            let t = text::trimmed(ts[i].as_str());
            proof {
                text::lemma_views_push(out@, t);
            }
            out.push(t);
        }
        i = i + 1;
    }
    assert(all.take(all.len() as int) =~= all);
    out
}

fn ref_of_item(v: &Json) -> (r: Option<ImaginationEvidenceRef>)
    ensures
        match ref_in_item(v@) {
            Some(q) => r matches Some(x) && x@ == q,
            None => r is None,
        },
{
    match v.get("id") {
        Some(j) => match j.text() {
            Some(id) => if text::blank(id.as_str()) {
                None
            } else {
                let snippet = json::member_text(v, "snippet");
                Some(
                    ImaginationEvidenceRef {
                        id: text::trimmed(id.as_str()),
                        snippet: text::trimmed(snippet.as_str()),
                    },
                )
            },
            None => None,
        },
        None => None,
    }
}

fn refs_of(v: Option<&Json>) -> (r: Vec<ImaginationEvidenceRef>)
    ensures
        imagination_evidence::ref_views(r@) == refs_in(json::opt_json_view(v)),
{
    let mut out: Vec<ImaginationEvidenceRef> = Vec::new();
    assert(imagination_evidence::ref_views(out@) =~= Seq::empty());
    let items = match v {
        Some(j) => match j.items() {
            Some(items) => items,
            None => return out,
        },
        None => return out,
    };
    let ghost all = json::item_views(items@);
    let mut i: usize = 0;
    while i < items.len()
        invariant
            i <= items@.len(),
            all == json::item_views(items@),
            imagination_evidence::ref_views(out@) == refs_upto(all, i as int),
        decreases items@.len() - i,
    {
        assert(all[i as int] == items@[i as int]@);
        let ghost before = out@;
        if let Some(q) = ref_of_item(&items[i]) {
            out.push(q);
            assert(imagination_evidence::ref_views(out@) =~= imagination_evidence::ref_views(
                before,
            ).push(q@));
        }
        i = i + 1;
    }
    out
}

fn hypothesis_of_item(v: &Json) -> (r: Option<ImaginationHypothesis>)
    ensures
        match hypothesis_in_item(v@) {
            Some(h) => r matches Some(x) && x@ == h,
            None => r is None,
        },
{
    let statement = match v.get("statement") {
        Some(j) => match j.text() {
            Some(s) => if text::blank(s.as_str()) {
                return None;
            } else {
                text::trimmed(s.as_str())
            },
            None => return None,
        },
        None => return None,
    };
    let named = json::texts(v.get("atoms"));
    let mut atoms = atoms_of(&named);
    assert(text::views(atoms@).len() == atoms@.len());
    if atoms.len() == 0 {
        atoms.push(statement.clone());
        assert(text::views(atoms@) =~= seq![statement@]);
    }
    let evidence_refs = refs_of(v.get("evidence_refs"));
    Some(ImaginationHypothesis { statement, atoms, evidence_refs, context: String::new() })
}

/// See [`hypotheses_in`].
pub fn hypotheses_of(v: &Json) -> (r: Vec<ImaginationHypothesis>)
    ensures
        imagination_evidence::hypothesis_views(r@) == hypotheses_in(v@),
{
    let mut out: Vec<ImaginationHypothesis> = Vec::new();
    assert(imagination_evidence::hypothesis_views(out@) =~= Seq::empty());
    let items = match v.get("hypotheses") {
        Some(j) => match j.items() {
            Some(items) => items,
            None => return out,
        },
        None => return out,
    };
    let ghost all = json::item_views(items@);
    let mut i: usize = 0;
    while i < items.len()
        invariant
            i <= items@.len(),
            all == json::item_views(items@),
            hypotheses_in(v@) == hypotheses_upto(all, items@.len() as int),
            imagination_evidence::hypothesis_views(out@) == hypotheses_upto(all, i as int),
        decreases items@.len() - i,
    {
        assert(all[i as int] == items@[i as int]@);
        let ghost before = out@;
        if let Some(h) = hypothesis_of_item(&items[i]) {
            out.push(h);
            assert(imagination_evidence::hypothesis_views(out@)
                =~= imagination_evidence::hypothesis_views(before).push(h@));
        }
        i = i + 1;
    }
    out
}

/// The hypotheses that a reply carries.
pub open spec fn generated_in(raw: Seq<char>) -> Seq<HypothesisView> {
    match reply_json(raw) {
        Some(v) => hypotheses_in(v),
        None => Seq::empty(),
    }
}

/// The hypotheses in a reply; none where nothing can be read from it.
pub fn parse_hypgen_json(raw: &str) -> (r: Vec<ImaginationHypothesis>)
    ensures
        imagination_evidence::hypothesis_views(r@) == generated_in(raw@),
{
    match read_reply(raw) {
        Some(v) => hypotheses_of(&v),
        None => {
            let out: Vec<ImaginationHypothesis> = Vec::new();
            assert(imagination_evidence::hypothesis_views(out@) =~= Seq::empty());
            out
        },
    }
}

// ---------------------------------------------------------------------------
// What the layers promise
// ---------------------------------------------------------------------------

/// A reply without a fence at its beginning is read as it is, trimmed; one inside a fence is read as what the fence
/// holds.
pub proof fn replies_are_read_with_or_without_a_fence(
    raw: Seq<char>,
    opening: Seq<char>,
    inner: Seq<char>,
    tail: Seq<char>,
)
    ensures
        !text::starts_with(text::trim(raw), "```json\n"@) && !text::starts_with(
            text::trim(raw),
            "```\n"@,
        ) ==> reply_json(raw) == json::json_of(text::trim(raw)),
        (opening == "```json\n"@ || opening == "```\n"@) && text::trim(raw) == opening + inner
            + "\n```"@ + tail && !text::contains("```"@ + tail, "\n```"@) ==> reply_json(raw)
            == json::json_of(inner),
{
    let t = text::trim(raw);
    text::lemma_trim_ends(raw);
    reveal_strlit("```json\n");
    reveal_strlit("```\n");
    if (opening == "```json\n"@ || opening == "```\n"@) && t == opening + inner + "\n```"@ + tail
        && !text::contains("```"@ + tail, "\n```"@) {
        let n = opening.len() as int;
        assert(t.subrange(0, n) =~= opening);
        assert(t.subrange(n, t.len() as int) =~= inner + "\n```"@ + tail);
        crate::tier::tier2_extract_memories::fences_end_at_the_last_mark(inner, tail);
        if opening == "```\n"@ {
            assert(t[3] == '\n');
            if text::starts_with(t, "```json\n"@) {
                assert(t.subrange(0, 8)[3] == 'j');
            }
        }
    }
}

/// A number that a reply gives as a score is that score, kept within [0, 1]; anything else is none.
pub proof fn scores_are_the_numbers_given(v: JsonView, key: Seq<char>, n: u64)
    ensures
        json::member(v, key) == Some(JsonView::Number(n)) && n <= 0x3FF0_0000_0000_0000 ==> score_in(
            v,
            key,
        ) == Some(n),
        json::member(v, key) == Some(JsonView::Number(n)) && 0x3FF0_0000_0000_0000 <= n
            <= 0x7FF0_0000_0000_0000 ==> score_in(v, key) == Some(0x3FF0_0000_0000_0000u64),
        json::member(v, key) == Some(JsonView::Number(n)) && 0x8000_0000_0000_0000 < n
            <= 0xFFF0_0000_0000_0000 ==> score_in(v, key) == Some(0u64),
        json::member(v, key) is None || !(json::member(v, key)->0 is Number) ==> score_in(v, key)
            is None,
{
}

/// A reply that names one of the three verdicts is read as that verdict, with the number that it gives as confidence,
/// kept within [0, 1], whichever verdict it is; without a number the confidence is 0. The evidence that it cites is kept.
/// A reply that names no verdict, or another one, is not read.
pub proof fn verdicts_carry_their_confidence(raw: Seq<char>, v: JsonView, name: Seq<char>, n: u64)
    requires
        reply_json(raw) == Some(v),
        json::member(v, "verdict"@) == Some(JsonView::Str(name)),
    ensures
        name == "supported"@ || name == "refuted"@ || name == "inconclusive"@
            <==> claim_verdict_in(raw) is Some,
        claim_verdict_in(raw) matches Some(x) ==> {
            &&& name == "supported"@ ==> x.verdict == AtomVerdictKind::Supported
            &&& name == "refuted"@ ==> x.verdict == AtomVerdictKind::Refuted
            &&& name == "inconclusive"@ ==> x.verdict == AtomVerdictKind::Inconclusive
            &&& json::member(v, "confidence"@) == Some(JsonView::Number(n)) && n
                <= 0x3FF0_0000_0000_0000 ==> x.confidence == n
            &&& json::member(v, "confidence"@) == Some(JsonView::Number(n)) && 0x3FF0_0000_0000_0000
                <= n <= 0x7FF0_0000_0000_0000 ==> x.confidence == 0x3FF0_0000_0000_0000u64
            &&& json::member(v, "confidence"@) == Some(JsonView::Number(n)) && 0x8000_0000_0000_0000
                < n <= 0xFFF0_0000_0000_0000 ==> x.confidence == 0
            &&& json::member(v, "confidence"@) is None ==> x.confidence == 0
            &&& x.citing_evidence_ids == json::texts_of(json::member(v, "citing_evidence_ids"@))
        },
{
    reveal_strlit("supported");
    reveal_strlit("refuted");
    reveal_strlit("inconclusive");
    assert("supported"@.len() == 9);
    assert("refuted"@.len() == 7);
    assert("inconclusive"@.len() == 12);
}

/// Which verdict a reply names makes no difference to anything else that is read from it.
pub proof fn verdicts_differ_in_nothing_else(
    members: Seq<(Seq<char>, JsonView)>,
    i: int,
    a: AtomVerdictKind,
    b: AtomVerdictKind,
)
    requires
        0 <= i < members.len(),
        members[i].0 == "verdict"@,
        forall|m: int| 0 <= m < i ==> (#[trigger] members[m]).0 != "verdict"@,
    ensures
        ({
            let x = verdict_in(
                JsonView::Object(
                    members.update(i, ("verdict"@, JsonView::Str(verdict_name(a)))),
                ),
            );
            let y = verdict_in(
                JsonView::Object(
                    members.update(i, ("verdict"@, JsonView::Str(verdict_name(b)))),
                ),
            );
            x is Some && y is Some && x->0.confidence == y->0.confidence
                && x->0.citing_evidence_ids == y->0.citing_evidence_ids && x->0.verdict == a
                && y->0.verdict == b
        }),
{
    let p = members.update(i, ("verdict"@, JsonView::Str(verdict_name(a))));
    let q = members.update(i, ("verdict"@, JsonView::Str(verdict_name(b))));
    verdict_names_round_trip(a);
    verdict_names_round_trip(b);
    json::members_are_found_by_name(JsonView::Object(p), p, "verdict"@, i);
    json::members_are_found_by_name(JsonView::Object(q), q, "verdict"@, i);
    reveal_strlit("verdict");
    reveal_strlit("confidence");
    reveal_strlit("citing_evidence_ids");
    assert("verdict"@.len() == 7);
    assert("confidence"@.len() == 10);
    assert("citing_evidence_ids"@.len() == 19);
    lemma_same_members(p, q, "confidence"@, i, 0);
    lemma_same_members(p, q, "citing_evidence_ids"@, i, 0);
}

proof fn lemma_same_members(
    p: Seq<(Seq<char>, JsonView)>,
    q: Seq<(Seq<char>, JsonView)>,
    key: Seq<char>,
    i: int,
    k: int,
)
    requires
        p.len() == q.len(),
        0 <= i < p.len(),
        p[i].0 != key,
        q[i].0 != key,
        forall|m: int| 0 <= m < p.len() && m != i ==> p[m] == q[m],
        0 <= k,
    ensures
        json::member_from(p, key, k) == json::member_from(q, key, k),
    decreases p.len() - k,
{
    if k < p.len() {
        lemma_same_members(p, q, key, i, k + 1);
    }
}

/// The plausibility of a reply is the number of that name.
pub proof fn plausibility_is_read_from_its_member(raw: Seq<char>, v: JsonView)
    ensures
        reply_json(raw) == Some(v) ==> plausibility_in(raw) == score_in(v, "plausibility"@),
        reply_json(raw) is None ==> plausibility_in(raw) is None,
{
}

/// The four scores of a reply each come from the member of their own name; where one is missing there are none.
pub proof fn dimensions_are_read_from_their_members(raw: Seq<char>, v: JsonView)
    requires
        reply_json(raw) == Some(v),
    ensures
        dimensions_in(raw) is Some <==> score_in(v, "novelty"@) is Some && score_in(v, "consistency"@)
            is Some && score_in(v, "groundedness"@) is Some && score_in(v, "actionability"@) is Some,
        dimensions_in(raw) matches Some(s) ==> score_in(v, "novelty"@) == Some(s.novelty)
            && score_in(v, "consistency"@) == Some(s.consistency) && score_in(v, "groundedness"@)
            == Some(s.groundedness) && score_in(v, "actionability"@) == Some(s.actionability),
{
}

/// Scores that stand for no judgement are one half each.
pub proof fn no_judgement_is_one_half()
    ensures
        neutral_scores().novelty == 0x3FE0_0000_0000_0000u64,
        neutral_scores().consistency == 0x3FE0_0000_0000_0000u64,
        neutral_scores().groundedness == 0x3FE0_0000_0000_0000u64,
        neutral_scores().actionability == 0x3FE0_0000_0000_0000u64,
{
}

proof fn lemma_lists_grow(items: Seq<JsonView>, x: JsonView, n: int)
    requires
        0 <= n <= items.len(),
    ensures
        hypotheses_upto(items.push(x), n) == hypotheses_upto(items, n),
        refs_upto(items.push(x), n) == refs_upto(items, n),
    decreases n,
{
    if n > 0 {
        lemma_lists_grow(items, x, n - 1);
        assert(items.push(x)[n - 1] == items[n - 1]);
    }
}

/// One element more in a list of hypotheses: it is a hypothesis, in its place, where its statement is not blank. Its
/// claims are those that it names, or its statement where it names none.
pub proof fn hypotheses_are_read_in_order(items: Seq<JsonView>, x: JsonView)
    ensures
        hypotheses_upto(Seq::empty(), 0).len() == 0,
        ({
            let n = items.len() as int;
            let more = hypotheses_upto(items.push(x), n + 1);
            let rest = hypotheses_upto(items, n);
            let claims = atoms_in(json::texts_of(json::member(x, "atoms"@)));
            match json::member(x, "statement"@) {
                Some(JsonView::Str(s)) => if text::is_blank(s) {
                    more == rest
                } else {
                    &&& more.len() == rest.len() + 1
                    &&& more.drop_last() == rest
                    &&& more.last().statement == text::trim(s)
                    &&& claims.len() > 0 ==> more.last().atoms == claims
                    &&& claims.len() == 0 ==> more.last().atoms == seq![text::trim(s)]
                    &&& more.last().evidence_refs == refs_in(json::member(x, "evidence_refs"@))
                    &&& more.last().context.len() == 0
                },
                _ => more == rest,
            }
        }),
{
    lemma_lists_grow(items, x, items.len() as int);
    let rest = hypotheses_upto(items, items.len() as int);
    if hypothesis_in_item(x) is Some {
        assert(rest.push(hypothesis_in_item(x)->0).drop_last() =~= rest);
    }
}

/// Claims are kept in order and trimmed, without the blank ones; quotations likewise, where they say what they quote.
pub proof fn claims_and_quotations_are_kept(
    ts: Seq<Seq<char>>,
    t: Seq<char>,
    items: Seq<JsonView>,
    x: JsonView,
)
    ensures
        atoms_in(Seq::empty()).len() == 0,
        atoms_in(ts.push(t)) == (if text::is_blank(t) {
            atoms_in(ts)
        } else {
            atoms_in(ts).push(text::trim(t))
        }),
        refs_in(Some(JsonView::Array(Seq::empty()))).len() == 0,
        refs_in(None).len() == 0,
        refs_in(Some(JsonView::Array(items.push(x)))) == (match json::member(x, "id"@) {
            Some(JsonView::Str(id)) => if text::is_blank(id) {
                refs_in(Some(JsonView::Array(items)))
            } else {
                refs_in(Some(JsonView::Array(items))).push(
                    RefView {
                        id: text::trim(id),
                        snippet: text::trim(json::text_or_empty(x, "snippet"@)),
                    },
                )
            },
            _ => refs_in(Some(JsonView::Array(items))),
        }),
{
    assert(ts.push(t).drop_last() =~= ts);
    lemma_lists_grow(items, x, items.len() as int);
}

/// The hypotheses of a reply stand under their name; a reply that cannot be read, or holds no such list, has none.
pub proof fn hypotheses_stand_under_their_name(raw: Seq<char>, v: JsonView, items: Seq<JsonView>)
    ensures
        reply_json(raw) == Some(v) && json::member(v, "hypotheses"@) == Some(JsonView::Array(items))
            ==> generated_in(raw) == hypotheses_upto(items, items.len() as int),
        reply_json(raw) is None ==> generated_in(raw).len() == 0,
        reply_json(raw) == Some(v) && json::as_items(json::member(v, "hypotheses"@)) is None
            ==> generated_in(raw).len() == 0,
{
}

/// Every place of a prompt is filled with what it names. Scores are asked on what was gathered, and only where nothing was
/// on what the hypothesis quotes itself.
pub proof fn layers_are_asked_about_the_hypothesis(
    h: HypothesisView,
    external: Seq<ToolEvidenceView>,
    inputs: SynthesisInputs,
)
    ensures
        !text::is_blank(h.context) ==> l1_messages(h)[0].content == text::replace(
            text::replace(
                TIER3_IMAGINATION_L1_SELFRAG_PROMPT@,
                "{{hypothesis}}"@,
                h.statement,
            ),
            "{{context}}"@,
            h.context,
        ),
        l2_messages(h, external)[0].content == text::replace(
            text::replace(
                TIER3_IMAGINATION_L2_FOUR_DIMENSIONS_PROMPT@,
                "{{hypothesis}}"@,
                h.statement,
            ),
            "{{evidence_summary}}"@,
            if external.len() == 0 {
                imagination_evidence::ref_list(h.evidence_refs)
            } else {
                text::join(imagination_evidence::summary_lines(external), "\n"@)
            },
        ),
        !text::is_blank(inputs.reflections@) && !text::is_blank(inputs.dreams@) && !text::is_blank(
            inputs.recent_session@,
        ) && !text::is_blank(inputs.refuted@) && !text::is_blank(inputs.meta_review@)
            ==> hypgen_messages(inputs, Seq::empty())[0].content == text::replace(
            text::replace(
                text::replace(
                    text::replace(
                        text::replace(
                            TIER3_IMAGINATION_HYPOTHESIS_GEN_PROMPT@,
                            "{{reflections}}"@,
                            inputs.reflections@,
                        ),
                        "{{dreams}}"@,
                        inputs.dreams@,
                    ),
                    "{{recent_session}}"@,
                    inputs.recent_session@,
                ),
                "{{refuted}}"@,
                inputs.refuted@,
            ),
            "{{meta_review}}"@,
            inputs.meta_review@,
        ),
{
    addendum_only_extends_the_prompt(inputs, Seq::empty());
    let c = hypgen_system(inputs);
    assert(c + Seq::<char>::empty() =~= c);
}

/// A claim is asked about with its own words and with what is quoted; what is blank is shown as missing in the other
/// questions, and every question ends with what is to be returned.
pub proof fn claims_are_asked_about_with_their_quotations(
    h: HypothesisView,
    external: Seq<ToolEvidenceView>,
    atom: Seq<char>,
    refs: Seq<RefView>,
)
    ensures
        l3_messages(atom, refs)[0].content == text::replace(
            text::replace(TIER3_IMAGINATION_L3_ATOMIC_VERIFY_PROMPT@, "{{atom}}"@, atom),
            "{{evidence_refs}}"@,
            imagination_evidence::ref_list(refs),
        ),
        l3_messages(atom, refs)[1].content == "Apply the rules and return the verdict JSON."@,
        l2_messages(h, external)[1].content == "Apply the rules and return the four-dimension JSON."@,
        l1_messages(h)[1].content == "Apply the rules and return the plausibility JSON."@,
        text::trim(h.context).len() == 0 ==> l1_messages(h)[0].content == text::replace(
            text::replace(
                TIER3_IMAGINATION_L1_SELFRAG_PROMPT@,
                "{{hypothesis}}"@,
                h.statement,
            ),
            "{{context}}"@,
            "(no supporting context)"@,
        ),
{
}

/// Whatever the memory lacks is shown as missing, and the rest as it is; an addendum stands at the end.
pub proof fn syntheses_are_asked_from_what_there_is(inputs: SynthesisInputs, addendum: Seq<char>)
    ensures
        hypgen_messages(inputs, addendum)[0].content == text::replace(
            text::replace(
                text::replace(
                    text::replace(
                        text::replace(
                            TIER3_IMAGINATION_HYPOTHESIS_GEN_PROMPT@,
                            "{{reflections}}"@,
                            if text::trim(inputs.reflections@).len() == 0 {
                                "(no reflection notes)"@
                            } else {
                                inputs.reflections@
                            },
                        ),
                        "{{dreams}}"@,
                        if text::trim(inputs.dreams@).len() == 0 {
                            "(no dream insights)"@
                        } else {
                            inputs.dreams@
                        },
                    ),
                    "{{recent_session}}"@,
                    if text::trim(inputs.recent_session@).len() == 0 {
                        "(no recent session)"@
                    } else {
                        inputs.recent_session@
                    },
                ),
                "{{refuted}}"@,
                if text::trim(inputs.refuted@).len() == 0 {
                    "(no refuted hypotheses yet)"@
                } else {
                    inputs.refuted@
                },
            ),
            "{{meta_review}}"@,
            if text::trim(inputs.meta_review@).len() == 0 {
                "(no prior sweeps)"@
            } else {
                inputs.meta_review@
            },
        ) + addendum,
        hypgen_messages(inputs, addendum)[1].content
            == "Synthesize candidate hypotheses across the three sources and return the JSON."@,
{
}

} // verus!
