//! The model calls of a dream: the messages of each phase, and what is read from the replies.

use vstd::prelude::*;
use vstd::string::StringExecFns;
use crate::frontmatter;
use crate::json;
use crate::json::{Json, JsonView};
use crate::score;
use crate::text;
use crate::tier;
use crate::tier::{LlmMessage, MessageView};

verus! {

/// Reflection on prior insights. Filled in: `{{prior_insights}}`.
pub const TIER3_DREAM_PHASE0_PROMPT: &'static str = r#"You are the dream-consolidation reflection agent. Your job is to evaluate which of the prior dream insights are still valid given recent activity and which have become stale or contradictory.

# Prior insights to evaluate

{{prior_insights}}

# Output format

Return ONE JSON object (no surrounding markdown) of the form:

{
  "still_valid_ids": ["insight_id_1", ...],
  "stale_ids": ["insight_id_2", ...],
  "notes": "<one-line summary of your reasoning>"
}

Rules:
- IDs are the filename stems of the insight files (no `.md`, no `insight_` prefix is stripped — keep them verbatim).
- If you cannot evaluate (e.g. zero prior insights), return both arrays empty.
- Do NOT hallucinate IDs that are not in the input."#;

/// Themes of recent activity. Filled in: `{{session_summary}}`, `{{memdir_summary}}`.
pub const TIER3_DREAM_PHASE1_ORIENT_PROMPT: &'static str = r#"You are the dream-consolidation orientation agent. Identify the top recurring themes from recent activity that warrant deeper consolidation.

# Recent sessions

{{session_summary}}

# Existing memdir manifest

{{memdir_summary}}

# Output format

Return ONE JSON object (no surrounding markdown) of the form:

{
  "themes": [
    {"id": "<snake_case_theme_id>", "label": "<one-line label>", "rationale": "<one-line rationale>"}
  ]
}

Rules:
- Emit 1 to 5 themes. Prefer fewer high-quality themes over many weak ones.
- Theme IDs must be unique snake_case; reuse a memdir name only if the theme is a direct continuation.
- If nothing in recent activity warrants a theme, return an empty `themes` array."#;

/// Evidence for one theme. Filled in: `{{theme_id}}`, `{{theme_label}}`, `{{session_excerpts}}`.
pub const TIER3_DREAM_PHASE2_GATHER_PROMPT: &'static str = r#"You are the dream-consolidation evidence gathering agent. For the given theme, collect the supporting evidence from recent activity.

# Theme

ID: {{theme_id}}
Label: {{theme_label}}

# Session excerpts to mine

{{session_excerpts}}

# Output format

Return ONE JSON object (no surrounding markdown) of the form:

{
  "evidence_refs": [
    {"source": "<session-id-or-memory-file>", "snippet": "<verbatim quote under 200 chars>", "weight": <0..1>}
  ]
}

Rules:
- Emit 0 to 8 evidence refs. Each must be a verbatim quote, not a paraphrase.
- `weight` is the strength of evidence (0=weak, 1=strong); weights below 0.4 mark the theme as "fragment" candidate.
- If no evidence supports the theme, return an empty array — Phase 3 will skip this theme."#;

/// Synthesis of one theme. Filled in: `{{theme_id}}`, `{{theme_label}}`, `{{evidence_list}}`.
pub const TIER3_DREAM_PHASE3_CONSOLIDATE_PROMPT: &'static str = r#"You are the dream-consolidation synthesis agent. Produce a structured insight markdown for the given theme + evidence.

# Theme

ID: {{theme_id}}
Label: {{theme_label}}

# Evidence

{{evidence_list}}

# Output format

Emit EXACTLY one memory block in this form (no surrounding markdown fences):

---
name: {{theme_id}}
type: insight
description: <one-line description under 150 chars>
confidence: <low|medium|high>
---

<full body — durable, multi-paragraph synthesis. Cite the evidence inline by source where relevant.>

Rules:
- Confidence is `high` when evidence weights average >= 0.7; `medium` between 0.4 and 0.7; `low` below 0.4 (which means fragment-class).
- Do NOT include hallucinated facts not present in the evidence.
- If evidence is empty or contradictory, emit a single short block with confidence: low and a body explaining the uncertainty."#;

/// Pruning of fragments. Filled in: `{{stale_ids}}`, `{{fragment_list}}`.
pub const TIER3_DREAM_PHASE4_PRUNE_PROMPT: &'static str = r#"You are the dream-consolidation pruning agent. Select which fragment files should be deleted.

# Stale insight IDs (from Phase 0)

{{stale_ids}}

# Current fragments

{{fragment_list}}

# Output format

Return ONE JSON object (no surrounding markdown) of the form:

{
  "delete_ids": ["fragment_id_1", ...]
}

Rules:
- IDs are filename stems (no `.md`).
- Only mark for deletion fragments that are (a) on the stale_ids list, OR (b) clearly superseded by a newer insight.
- If nothing should be deleted, return an empty array."#;

// ---------------------------------------------------------------------------
// Reading JSON out of a reply
// ---------------------------------------------------------------------------

/// What stands inside a code fence with any language tag; the trimmed text where there is no
/// fence.
pub open spec fn unfenced(s: Seq<char>) -> Seq<char> {
    let t = text::trim(s);
    match text::strip_prefix(t, "```"@) {
        None => t,
        Some(rest) => {
            let body = match text::split_once(rest, "\n"@) {
                Some(p) => p.1,
                None => rest,
            };
            match text::rsplit_once(body, "```"@) {
                Some(p) => text::trim_end(p.0),
                None => body,
            }
        },
    }
}

/// The index of the first opening bracket at or after `i`; the length of the text if there is
/// none.
pub open spec fn first_bracket(s: Seq<char>, i: int) -> int
    decreases s.len() - i,
{
    if i < 0 || i >= s.len() {
        s.len() as int
    } else if s[i] == '{' || s[i] == '[' {
        i
    } else {
        first_bracket(s, i + 1)
    }
}

pub open spec fn closing(open: char) -> char {
    if open == '{' {
        '}'
    } else {
        ']'
    }
}

/// Where the bracket that leaves no bracket of its kind open stands, scanning from `i` with
/// `depth` of them open. Inside a string nothing counts but the quote that ends it; a backslash
/// takes the character behind it along.
pub open spec fn balanced_end(
    s: Seq<char>,
    open: char,
    i: int,
    depth: int,
    in_string: bool,
    escaped: bool,
) -> Option<int>
    decreases s.len() - i,
{
    if i < 0 || i >= s.len() {
        None
    } else if in_string {
        if escaped {
            balanced_end(s, open, i + 1, depth, true, false)
        } else if s[i] == '\\' {
            balanced_end(s, open, i + 1, depth, true, true)
        } else if s[i] == '"' {
            balanced_end(s, open, i + 1, depth, false, false)
        } else {
            balanced_end(s, open, i + 1, depth, true, false)
        }
    } else if s[i] == '"' {
        balanced_end(s, open, i + 1, depth, true, false)
    } else if s[i] == open {
        balanced_end(s, open, i + 1, depth + 1, false, false)
    } else if s[i] == closing(open) {
        if depth <= 1 {
            Some(i)
        } else {
            balanced_end(s, open, i + 1, depth - 1, false, false)
        }
    } else {
        balanced_end(s, open, i + 1, depth, false, false)
    }
}

/// The first balanced bracket expression in a text.
pub open spec fn first_json_value(s: Seq<char>) -> Option<Seq<char>> {
    let start = first_bracket(s, 0);
    if start >= s.len() {
        None
    } else {
        match balanced_end(s, s[start], start, 0, false, false) {
            Some(end) => Some(s.subrange(start, end + 1)),
            None => None,
        }
    }
}

/// What is read from a reply: the whole of it where that is JSON, else the first balanced bracket
/// expression in it.
pub open spec fn lenient_json(raw: Seq<char>) -> Option<JsonView> {
    let t = unfenced(text::trim(raw));
    match json::json_of(t) {
        Some(v) => Some(v),
        None => match first_json_value(t) {
            Some(u) => json::json_of(u),
            None => None,
        },
    }
}

proof fn lemma_first_bracket(s: Seq<char>, i: int)
    ensures
        0 <= i <= s.len() ==> i <= first_bracket(s, i) <= s.len(),
        first_bracket(s, i) < s.len() ==> (s[first_bracket(s, i)] == '{' || s[first_bracket(s, i)]
            == '['),
    decreases s.len() - i,
{
    if 0 <= i < s.len() && !(s[i] == '{' || s[i] == '[') {
        lemma_first_bracket(s, i + 1);
    }
}

proof fn lemma_balanced_end(
    s: Seq<char>,
    open: char,
    i: int,
    depth: int,
    in_string: bool,
    escaped: bool,
)
    requires
        0 <= i,
    ensures
        balanced_end(s, open, i, depth, in_string, escaped) matches Some(e) ==> i <= e < s.len()
            && s[e] == closing(open),
    decreases s.len() - i,
{
    if i < s.len() {
        if in_string {
            lemma_balanced_end(s, open, i + 1, depth, true, false);
            lemma_balanced_end(s, open, i + 1, depth, true, true);
            lemma_balanced_end(s, open, i + 1, depth, false, false);
        } else {
            lemma_balanced_end(s, open, i + 1, depth, true, false);
            lemma_balanced_end(s, open, i + 1, depth + 1, false, false);
            lemma_balanced_end(s, open, i + 1, depth - 1, false, false);
            lemma_balanced_end(s, open, i + 1, depth, false, false);
        }
    }
}

/// The expression that is cut out of a reply stands in it, begins with an opening bracket and ends
/// with the closing bracket of the same kind.
pub proof fn cut_value_is_bracketed(s: Seq<char>)
    ensures
        first_json_value(s) matches Some(v) ==> text::contains(s, v) && v.len() >= 2 && (v[0] == '{'
            || v[0] == '[') && v.last() == closing(v[0]),
{
    let start = first_bracket(s, 0);
    lemma_first_bracket(s, 0);
    if start < s.len() {
        lemma_balanced_end(s, s[start], start, 0, false, false);
        if let Some(end) = balanced_end(s, s[start], start, 0, false, false) {
            let v = s.subrange(start, end + 1);
            assert(text::matches_at(s, v, start));
            assert(v[0] == s[start]);
            assert(v.last() == s[end]);
            assert(end != start);
        }
    }
}

/// See [`unfenced`].
pub fn strip_fences(s: &str) -> (r: String)
    ensures
        r@ == unfenced(s@),
{
    let t = text::trimmed(s);
    match text::without_prefix(t.as_str(), "```") {
        None => t,
        Some(rest) => {
            let body = match text::cut_first(rest.as_str(), "\n") {
                Some(p) => p.1,
                None => rest,
            };
            match text::cut_last(body.as_str(), "```") {
                Some(p) => text::trimmed_end(p.0.as_str()),
                None => body,
            }
        },
    }
}

/// See [`first_json_value`].
pub fn extract_first_json_value(s: &str) -> (r: Option<String>)
    ensures
        text::opt_view(r) == first_json_value(s@),
{
    let v = text::chars_of(s);
    let mut start: usize = 0;
    while start < v.len() && v[start] != '{' && v[start] != '['
        invariant
            v@ == s@,
            start <= v@.len(),
            first_bracket(s@, 0) == first_bracket(s@, start as int),
        decreases v@.len() - start,
    {
        start = start + 1;
    }
    if start >= v.len() {
        return None;
    }
    let open = v[start];
    let close = if open == '{' {
        '}'
    } else {
        ']'
    };
    let mut depth: usize = 0;
    let mut in_string = false;
    let mut escaped = false;
    let mut i: usize = start;
    while i < v.len()
        invariant
            v@ == s@,
            start <= i <= v@.len(),
            start < v@.len(),
            open == v@[start as int],
            open == '{' || open == '[',
            close == closing(open),
            depth <= i - start,
            i == start ==> !in_string && depth == 0,
            i > start ==> depth >= 1,
            first_bracket(s@, 0) == start,
            !in_string ==> !escaped,
            balanced_end(s@, open, start as int, 0, false, false) == balanced_end(
                s@,
                open,
                i as int,
                depth as int,
                in_string,
                escaped,
            ),
        decreases v@.len() - i,
    {
        let c = v[i];
        if in_string {
            if escaped {
                escaped = false;
            } else if c == '\\' {
                escaped = true;
            } else if c == '"' {
                in_string = false;
            }
        } else if c == '"' {
            in_string = true;
        } else if c == open {
            depth = depth + 1;
        } else if c == close {
            depth = depth - 1;
            if depth == 0 {
                return Some(text::string_of(&v, start, i + 1));
            }
        }
        i = i + 1;
    }
    None
}

/// See [`lenient_json`].
pub fn parse_json_lenient(raw: &str) -> (r: Option<Json>)
    ensures
        r matches Some(j) ==> lenient_json(raw@) == Some(j@),
        r is None ==> lenient_json(raw@) is None,
{
    let t = strip_fences(text::trimmed(raw).as_str());
    if let Some(j) = json::parse_json(t.as_str()) {
        return Some(j);
    }
    match extract_first_json_value(t.as_str()) {
        Some(u) => json::parse_json(u.as_str()),
        None => None,
    }
}

// ---------------------------------------------------------------------------
// What the replies hold
// ---------------------------------------------------------------------------

/// A reflection on prior insights.
#[derive(Debug, Clone)]
pub struct Phase0Reflection {
    pub still_valid_ids: Vec<String>,
    pub stale_ids: Vec<String>,
    pub notes: String,
}

pub struct ReflectionView {
    pub still_valid_ids: Seq<Seq<char>>,
    pub stale_ids: Seq<Seq<char>>,
    pub notes: Seq<char>,
}

impl View for Phase0Reflection {
    type V = ReflectionView;

    open spec fn view(&self) -> ReflectionView {
        ReflectionView {
            still_valid_ids: text::views(self.still_valid_ids@),
            stale_ids: text::views(self.stale_ids@),
            notes: self.notes@,
        }
    }
}

impl Default for Phase0Reflection {
    fn default() -> (r: Self)
        ensures
            r@ == empty_reflection(),
    {
        let r = Phase0Reflection {
            still_valid_ids: Vec::new(),
            stale_ids: Vec::new(),
            notes: String::new(),
        };
        assert(r@.still_valid_ids =~= Seq::empty());
        assert(r@.stale_ids =~= Seq::empty());
        r
    }
}

pub open spec fn empty_reflection() -> ReflectionView {
    ReflectionView { still_valid_ids: Seq::empty(), stale_ids: Seq::empty(), notes: Seq::empty() }
}

/// The reflection that a JSON value holds; what is absent or of another type counts as empty.
pub open spec fn reflection_in(v: JsonView) -> ReflectionView {
    ReflectionView {
        still_valid_ids: json::texts_of(json::member(v, "still_valid_ids"@)),
        stale_ids: json::texts_of(json::member(v, "stale_ids"@)),
        notes: json::text_or_empty(v, "notes"@),
    }
}

/// See [`reflection_in`].
pub fn reflection_of(v: &Json) -> (r: Phase0Reflection)
    ensures
        r@ == reflection_in(v@),
{
    Phase0Reflection {
        still_valid_ids: json::texts(v.get("still_valid_ids")),
        stale_ids: json::texts(v.get("stale_ids")),
        notes: json::member_text(v, "notes"),
    }
}

/// The reflection in a reply; `None` where no JSON can be read from it.
pub fn parse_phase0_json(raw: &str) -> (r: Option<Phase0Reflection>)
    ensures
        match lenient_json(raw@) {
            Some(v) => r matches Some(x) && x@ == reflection_in(v),
            None => r is None,
        },
{
    match parse_json_lenient(raw) {
        Some(j) => Some(reflection_of(&j)),
        None => None,
    }
}

/// A theme of recent activity.
#[derive(Debug, Clone)]
pub struct Phase1Theme {
    pub id: String,
    pub label: String,
}

pub struct ThemeView {
    pub id: Seq<char>,
    pub label: Seq<char>,
}

impl View for Phase1Theme {
    type V = ThemeView;

    open spec fn view(&self) -> ThemeView {
        ThemeView { id: self.id@, label: self.label@ }
    }
}

pub open spec fn theme_views(v: Seq<Phase1Theme>) -> Seq<ThemeView> {
    Seq::new(v.len(), |i: int| v[i]@)
}

/// The themes among the elements up to `n`. An element without a textual `id` spoils all of them;
/// one with an empty `id` is left out.
pub open spec fn themes_upto(items: Seq<JsonView>, n: int) -> Option<Seq<ThemeView>>
    decreases n,
{
    if n <= 0 {
        Some(Seq::empty())
    } else {
        match (themes_upto(items, n - 1), json::as_text(json::member(items[n - 1], "id"@))) {
            (Some(rest), Some(id)) => if id.len() == 0 {
                Some(rest)
            } else {
                Some(
                    rest.push(
                        ThemeView { id, label: json::text_or_empty(items[n - 1], "label"@) },
                    ),
                )
            },
            _ => None,
        }
    }
}

/// The themes that a JSON value holds; `None` where it has no list of them.
pub open spec fn themes_in(v: JsonView) -> Option<Seq<ThemeView>> {
    match json::as_items(json::member(v, "themes"@)) {
        Some(items) => themes_upto(items, items.len() as int),
        None => None,
    }
}

proof fn lemma_themes_spoiled(items: Seq<JsonView>, i: int, n: int)
    requires
        0 <= i <= n <= items.len(),
        themes_upto(items, i) is None,
    ensures
        themes_upto(items, n) is None,
    decreases n - i,
{
    if i < n {
        lemma_themes_spoiled(items, i, n - 1);
    }
}

/// See [`themes_in`].
pub fn themes_of(v: &Json) -> (r: Option<Vec<Phase1Theme>>)
    ensures
        match themes_in(v@) {
            Some(ts) => r matches Some(x) && theme_views(x@) == ts,
            None => r is None,
        },
{
    let items = match v.get("themes") {
        Some(j) => match j.items() {
            Some(items) => items,
            None => return None,
        },
        None => return None,
    };
    let ghost all = json::item_views(items@);
    let mut out: Vec<Phase1Theme> = Vec::new();
    assert(theme_views(out@) =~= Seq::empty());
    let mut i: usize = 0;
    while i < items.len()
        invariant
            i <= items@.len(),
            all == json::item_views(items@),
            themes_in(v@) == themes_upto(all, items@.len() as int),
            themes_upto(all, i as int) == Some(theme_views(out@)),
        decreases items@.len() - i,
    {
        assert(all[i as int] == items@[i as int]@);
        let id = match items[i].get("id") {
            Some(j) => match j.text() {
                Some(s) => s.clone(),
                None => {
                    proof {
                        lemma_themes_spoiled(all, i + 1, items@.len() as int);
                    }
                    return None;
                },
            },
            None => {
                proof {
                    lemma_themes_spoiled(all, i + 1, items@.len() as int);
                }
                return None;
            },
        };
        let label = json::member_text(&items[i], "label");
        let ghost before = out@;
        if !id.as_str().is_empty() {
            let theme = Phase1Theme { id, label };
            out.push(theme);
            assert(theme_views(out@) =~= theme_views(before).push(theme@));
        }
        i = i + 1;
    }
    Some(out)
}

/// The themes in a reply; `None` where none can be read from it.
pub fn parse_phase1_json(raw: &str) -> (r: Option<Vec<Phase1Theme>>)
    ensures
        match lenient_json(raw@) {
            Some(v) => match themes_in(v) {
                Some(ts) => r matches Some(x) && theme_views(x@) == ts,
                None => r is None,
            },
            None => r is None,
        },
{
    match parse_json_lenient(raw) {
        Some(j) => themes_of(&j),
        None => None,
    }
}

/// A piece of evidence. The weight is the bit pattern of a double.
#[derive(Debug, Clone)]
pub struct Phase2Evidence {
    pub source: String,
    pub snippet: String,
    pub weight: u64,
}

pub struct EvidenceView {
    pub source: Seq<char>,
    pub snippet: Seq<char>,
    pub weight: u64,
}

impl View for Phase2Evidence {
    type V = EvidenceView;

    open spec fn view(&self) -> EvidenceView {
        EvidenceView { source: self.source@, snippet: self.snippet@, weight: self.weight }
    }
}

pub open spec fn evidence_views(v: Seq<Phase2Evidence>) -> Seq<EvidenceView> {
    Seq::new(v.len(), |i: int| v[i]@)
}

/// The evidence that one element holds. A bare text is a snippet without weight; an element without
/// a snippet holds none.
pub open spec fn evidence_in_item(v: JsonView) -> Option<EvidenceView> {
    let e = match json::as_text(Some(v)) {
        Some(s) => EvidenceView { source: Seq::empty(), snippet: s, weight: score::ZERO },
        None => EvidenceView {
            source: json::text_or_empty(v, "source"@),
            snippet: json::text_or_empty(v, "snippet"@),
            weight: match json::as_number(json::member(v, "weight"@)) {
                Some(w) => w,
                None => score::ZERO,
            },
        },
    };
    if e.snippet.len() == 0 {
        None
    } else {
        Some(e)
    }
}

pub open spec fn evidence_upto(items: Seq<JsonView>, n: int) -> Seq<EvidenceView>
    decreases n,
{
    if n <= 0 {
        Seq::empty()
    } else {
        match evidence_in_item(items[n - 1]) {
            Some(e) => evidence_upto(items, n - 1).push(e),
            None => evidence_upto(items, n - 1),
        }
    }
}

/// The list of evidence of a reply: the value itself where it is an array, else the first array
/// under one of the accepted names.
pub open spec fn evidence_items(v: JsonView) -> Option<Seq<JsonView>> {
    if json::as_items(Some(v)) is Some {
        json::as_items(Some(v))
    } else if json::as_items(json::member(v, "evidence_refs"@)) is Some {
        json::as_items(json::member(v, "evidence_refs"@))
    } else if json::as_items(json::member(v, "evidence"@)) is Some {
        json::as_items(json::member(v, "evidence"@))
    } else {
        json::as_items(json::member(v, "refs"@))
    }
}

/// The evidence that a JSON value holds; `None` where it has no list of it.
pub open spec fn evidence_in(v: JsonView) -> Option<Seq<EvidenceView>> {
    match evidence_items(v) {
        Some(items) => Some(evidence_upto(items, items.len() as int)),
        None => None,
    }
}

fn items_under<'a>(v: &'a Json, key: &str) -> (r: Option<&'a Vec<Json>>)
    ensures
        r matches Some(x) ==> json::as_items(json::member(v@, key@)) == Some(
            json::item_views(x@),
        ),
        r is None ==> json::as_items(json::member(v@, key@)) is None,
{
    match v.get(key) {
        Some(j) => j.items(),
        None => None,
    }
}

fn evidence_of_item(v: &Json) -> (r: Option<Phase2Evidence>)
    ensures
        match evidence_in_item(v@) {
            Some(e) => r matches Some(x) && x@ == e,
            None => r is None,
        },
{
    let e = match v.text() {
        Some(s) => Phase2Evidence {
            source: String::new(),
            snippet: s.clone(),
            weight: score::ZERO,
        },
        None => {
            let weight = match v.get("weight") {
                Some(j) => match j.number() {
                    Some(w) => w,
                    None => score::ZERO,
                },
                None => score::ZERO,
            };
            Phase2Evidence {
                source: json::member_text(v, "source"),
                snippet: json::member_text(v, "snippet"),
                weight,
            }
        },
    };
    if e.snippet.as_str().is_empty() {
        None
    } else {
        Some(e)
    }
}

/// See [`evidence_in`].
pub fn evidence_of(v: &Json) -> (r: Option<Vec<Phase2Evidence>>)
    ensures
        match evidence_in(v@) {
            Some(es) => r matches Some(x) && evidence_views(x@) == es,
            None => r is None,
        },
{
    let items = match v.items() {
        Some(items) => items,
        None => match items_under(v, "evidence_refs") {
            Some(items) => items,
            None => match items_under(v, "evidence") {
                Some(items) => items,
                None => match items_under(v, "refs") {
                    Some(items) => items,
                    None => return None,
                },
            },
        },
    };
    let ghost all = json::item_views(items@);
    let mut out: Vec<Phase2Evidence> = Vec::new();
    assert(evidence_views(out@) =~= Seq::empty());
    let mut i: usize = 0;
    while i < items.len()
        invariant
            i <= items@.len(),
            all == json::item_views(items@),
            evidence_in(v@) == Some(evidence_upto(all, items@.len() as int)),
            evidence_upto(all, i as int) == evidence_views(out@),
        decreases items@.len() - i,
    {
        assert(all[i as int] == items@[i as int]@);
        let ghost before = out@;
        if let Some(e) = evidence_of_item(&items[i]) {
            out.push(e);
            assert(evidence_views(out@) =~= evidence_views(before).push(e@));
        }
        i = i + 1;
    }
    Some(out)
}

/// The evidence in a reply; `None` where none can be read from it.
pub fn parse_phase2_json(raw: &str) -> (r: Option<Vec<Phase2Evidence>>)
    ensures
        match lenient_json(raw@) {
            Some(v) => match evidence_in(v) {
                Some(es) => r matches Some(x) && evidence_views(x@) == es,
                None => r is None,
            },
            None => r is None,
        },
{
    match parse_json_lenient(raw) {
        Some(j) => evidence_of(&j),
        None => None,
    }
}

/// A consolidated memory.
#[derive(Debug, Clone)]
pub struct Phase3Block {
    pub full_content: String,
    pub confidence: String,
}

pub struct Phase3View {
    pub full_content: Seq<char>,
    pub confidence: Seq<char>,
}

impl View for Phase3Block {
    type V = Phase3View;

    open spec fn view(&self) -> Phase3View {
        Phase3View { full_content: self.full_content@, confidence: self.confidence@ }
    }
}

/// The memory in a reply: front matter between rules, its confidence `medium` where it names none,
/// and everything behind it. `None` where the reply does not begin with front matter.
pub open spec fn phase3_block(raw: Seq<char>) -> Option<Phase3View> {
    let t = unfenced(text::trim(raw));
    let ls = text::lines(t);
    let close = frontmatter::next_rule(ls, 1);
    if !text::starts_with(t, "---"@) || close >= ls.len() {
        None
    } else {
        let front = ls.subrange(1, close);
        let named = frontmatter::field_value(front, "confidence:"@);
        Some(
            Phase3View {
                full_content: frontmatter::block_content(
                    front,
                    ls.subrange(close + 1, ls.len() as int),
                ),
                confidence: if named.len() == 0 {
                    "medium"@
                } else {
                    named
                },
            },
        )
    }
}

proof fn lemma_nonempty_has_line(s: Seq<char>)
    requires
        s.len() > 0,
    ensures
        text::lines(s).len() > 0,
{
}

/// See [`phase3_block`].
pub fn parse_phase3_block(raw: &str) -> (r: Option<Phase3Block>)
    ensures
        match phase3_block(raw@) {
            Some(b) => r matches Some(x) && x@ == b,
            None => r is None,
        },
{
    let t = strip_fences(text::trimmed(raw).as_str());
    if !text::has_prefix(t.as_str(), "---") {
        return None;
    }
    proof {
        reveal_strlit("---");
        lemma_nonempty_has_line(t@);
    }
    let ls = text::lines_of(t.as_str());
    assert(text::views(ls@).len() == ls@.len());
    let close = frontmatter::rule_from(&ls, 1);
    if close >= ls.len() {
        return None;
    }
    let named = frontmatter::field_of(&ls, 1, close, "confidence:");
    let confidence = if named.as_str().is_empty() {
        "medium".to_owned()
    } else {
        named
    };
    let full_content = frontmatter::content_of(&ls, 1, close, close + 1, ls.len());
    Some(Phase3Block { full_content, confidence })
}

/// The fragments to delete that a JSON value names; `None` where it has no list of them.
pub open spec fn delete_ids_in(v: JsonView) -> Option<Seq<Seq<char>>> {
    match json::as_items(json::member(v, "delete_ids"@)) {
        Some(items) => Some(json::texts_from(items, 0)),
        None => None,
    }
}

/// See [`delete_ids_in`].
pub fn delete_ids_of(v: &Json) -> (r: Option<Vec<String>>)
    ensures
        match delete_ids_in(v@) {
            Some(ids) => r matches Some(x) && text::views(x@) == ids,
            None => r is None,
        },
{
    let list = v.get("delete_ids");
    match list {
        Some(j) => match j.items() {
            Some(_) => Some(json::texts(list)),
            None => None,
        },
        None => None,
    }
}

/// The fragments to delete that a reply names; `None` where none can be read from it.
pub fn parse_phase4_json(raw: &str) -> (r: Option<Vec<String>>)
    ensures
        match lenient_json(raw@) {
            Some(v) => match delete_ids_in(v) {
                Some(ids) => r matches Some(x) && text::views(x@) == ids,
                None => r is None,
            },
            None => r is None,
        },
{
    match parse_json_lenient(raw) {
        Some(j) => delete_ids_of(&j),
        None => None,
    }
}

// ---------------------------------------------------------------------------
// The messages of each phase
// ---------------------------------------------------------------------------

/// A text, or what stands in its place where it is blank.
pub open spec fn or_placeholder(s: Seq<char>, placeholder: Seq<char>) -> Seq<char> {
    if text::is_blank(s) {
        placeholder
    } else {
        s
    }
}

/// See [`or_placeholder`].
pub fn filled(s: &str, placeholder: &str) -> (r: String)
    ensures
        r@ == or_placeholder(s@, placeholder@),
{
    if text::blank(s) {
        placeholder.to_owned()
    } else {
        s.to_owned()
    }
}

/// A file of a dream directory. `id` is its name without prefix and extension.
#[derive(Debug, Clone)]
pub struct DreamFileScan {
    pub id: String,
    pub path: String,
    pub mtime_ms: u64,
}

pub struct DreamFileView {
    pub id: Seq<char>,
    pub path: Seq<char>,
    pub mtime_ms: u64,
}

impl View for DreamFileScan {
    type V = DreamFileView;

    open spec fn view(&self) -> DreamFileView {
        DreamFileView { id: self.id@, path: self.path@, mtime_ms: self.mtime_ms }
    }
}

pub open spec fn file_views(v: Seq<DreamFileScan>) -> Seq<DreamFileView> {
    Seq::new(v.len(), |i: int| v[i]@)
}

/// How many prior insights a reflection is shown.
pub const PHASE0_MAX_INSIGHTS: usize = 10;

pub open spec fn insight_lines(files: Seq<DreamFileView>) -> Seq<Seq<char>> {
    Seq::new(
        if files.len() > PHASE0_MAX_INSIGHTS {
            PHASE0_MAX_INSIGHTS as nat
        } else {
            files.len()
        },
        |i: int| "- "@ + files[i].id + " (path: "@ + files[i].path + ")"@,
    )
}

/// The messages of a reflection.
pub open spec fn phase0_messages(files: Seq<DreamFileView>) -> Seq<MessageView> {
    let body = if files.len() == 0 {
        "(no prior insights — first dream)"@
    } else {
        text::join(insight_lines(files), "\n"@)
    };
    tier::dialogue(
        text::replace(TIER3_DREAM_PHASE0_PROMPT@, "{{prior_insights}}"@, body),
        "Apply the rules and return the reflection JSON."@,
    )
}

/// See [`phase0_messages`].
pub fn build_phase0_messages(prior_insights: &Vec<DreamFileScan>) -> (r: Vec<LlmMessage>)
    ensures
        tier::message_views(r@) == phase0_messages(file_views(prior_insights@)),
{
    let ghost files = file_views(prior_insights@);
    let body = if prior_insights.len() == 0 {
        "(no prior insights — first dream)".to_owned()
    } else {
        let end: usize = if prior_insights.len() > PHASE0_MAX_INSIGHTS {
            PHASE0_MAX_INSIGHTS
        } else {
            prior_insights.len()
        };
        let mut ls: Vec<String> = Vec::new();
        let mut i: usize = 0;
        while i < end
            invariant
                i <= end <= prior_insights@.len(),
                end == insight_lines(files).len(),
                files == file_views(prior_insights@),
                text::views(ls@) == insight_lines(files).take(i as int),
            decreases end - i,
        {
            let f = &prior_insights[i];
            let mut line = "- ".to_owned();
            line.append(f.id.as_str());
            line.append(" (path: ");
            line.append(f.path.as_str());
            line.append(")");
            proof {
                text::lemma_views_push(ls@, line);
                assert(line@ == insight_lines(files)[i as int]);
                assert(insight_lines(files).take(i + 1) =~= insight_lines(files).take(
                    i as int,
                ).push(line@));
            }
            ls.push(line);
            i = i + 1;
        }
        assert(insight_lines(files).take(end as int) =~= insight_lines(files));
        text::joined(&ls, "\n")
    };
    proof {
        reveal_strlit("{{prior_insights}}");
    }
    let system = text::replaced(TIER3_DREAM_PHASE0_PROMPT, "{{prior_insights}}", body.as_str());
    tier::dialogue_of(system, "Apply the rules and return the reflection JSON.".to_owned())
}

/// The messages that ask for themes.
pub open spec fn phase1_messages(sessions: Seq<char>, memdir: Seq<char>) -> Seq<MessageView> {
    tier::dialogue(
        text::replace(
            text::replace(
                TIER3_DREAM_PHASE1_ORIENT_PROMPT@,
                "{{session_summary}}"@,
                or_placeholder(sessions, "(no recent sessions)"@),
            ),
            "{{memdir_summary}}"@,
            or_placeholder(memdir, "(memdir empty)"@),
        ),
        "Apply the rules and return the themes JSON."@,
    )
}

/// See [`phase1_messages`].
pub fn build_phase1_messages(session_summary: &str, memdir_summary: &str) -> (r: Vec<LlmMessage>)
    ensures
        tier::message_views(r@) == phase1_messages(session_summary@, memdir_summary@),
{
    proof {
        reveal_strlit("{{session_summary}}");
        reveal_strlit("{{memdir_summary}}");
    }
    let sessions = filled(session_summary, "(no recent sessions)");
    let memdir = filled(memdir_summary, "(memdir empty)");
    let first = text::replaced(
        TIER3_DREAM_PHASE1_ORIENT_PROMPT,
        "{{session_summary}}",
        sessions.as_str(),
    );
    let system = text::replaced(first.as_str(), "{{memdir_summary}}", memdir.as_str());
    tier::dialogue_of(system, "Apply the rules and return the themes JSON.".to_owned())
}

/// The messages that ask for the evidence of a theme.
pub open spec fn phase2_messages(id: Seq<char>, label: Seq<char>, sessions: Seq<char>) -> Seq<
    MessageView,
> {
    tier::dialogue(
        text::replace(
            text::replace(
                text::replace(TIER3_DREAM_PHASE2_GATHER_PROMPT@, "{{theme_id}}"@, id),
                "{{theme_label}}"@,
                label,
            ),
            "{{session_excerpts}}"@,
            or_placeholder(sessions, "(no session excerpts)"@),
        ),
        "Apply the rules and return the evidence_refs JSON."@,
    )
}

/// See [`phase2_messages`].
pub fn build_phase2_messages(theme_id: &str, theme_label: &str, session_summary: &str) -> (r: Vec<
    LlmMessage,
>)
    ensures
        tier::message_views(r@) == phase2_messages(theme_id@, theme_label@, session_summary@),
{
    proof {
        reveal_strlit("{{theme_id}}");
        reveal_strlit("{{theme_label}}");
        reveal_strlit("{{session_excerpts}}");
    }
    let excerpts = filled(session_summary, "(no session excerpts)");
    let first = text::replaced(TIER3_DREAM_PHASE2_GATHER_PROMPT, "{{theme_id}}", theme_id);
    let second = text::replaced(first.as_str(), "{{theme_label}}", theme_label);
    let system = text::replaced(second.as_str(), "{{session_excerpts}}", excerpts.as_str());
    tier::dialogue_of(system, "Apply the rules and return the evidence_refs JSON.".to_owned())
}

/// One line per piece of evidence; `weights` holds the weights as they are shown.
pub open spec fn evidence_lines(evidence: Seq<EvidenceView>, weights: Seq<Seq<char>>) -> Seq<
    Seq<char>,
> {
    Seq::new(
        evidence.len(),
        |i: int| "- (weight "@ + weights[i] + ") "@ + evidence[i].snippet,
    )
}

/// The messages that ask for the synthesis of a theme, `addendum` behind the prompt.
pub open spec fn phase3_messages(
    id: Seq<char>,
    label: Seq<char>,
    evidence: Seq<EvidenceView>,
    weights: Seq<Seq<char>>,
    addendum: Seq<char>,
) -> Seq<MessageView> {
    let list = if evidence.len() == 0 {
        "(no evidence collected)"@
    } else {
        text::join(evidence_lines(evidence, weights), "\n"@)
    };
    tier::dialogue(
        text::replace(
            text::replace(
                text::replace(TIER3_DREAM_PHASE3_CONSOLIDATE_PROMPT@, "{{theme_id}}"@, id),
                "{{theme_label}}"@,
                label,
            ),
            "{{evidence_list}}"@,
            list,
        ) + addendum,
        "Emit the consolidated memory block now."@,
    )
}

/// See [`phase3_messages`]. `weights` holds one shown weight per piece of evidence.
pub fn build_phase3_messages(
    theme_id: &str,
    theme_label: &str,
    evidence: &Vec<Phase2Evidence>,
    weights: &Vec<String>,
    addendum: &str,
) -> (r: Vec<LlmMessage>)
    requires
        weights@.len() == evidence@.len(),
    ensures
        tier::message_views(r@) == phase3_messages(
            theme_id@,
            theme_label@,
            evidence_views(evidence@),
            text::views(weights@),
            addendum@,
        ),
{
    let ghost es = evidence_views(evidence@);
    let ghost ws = text::views(weights@);
    let list = if evidence.len() == 0 {
        "(no evidence collected)".to_owned()
    } else {
        let mut ls: Vec<String> = Vec::new();
        let mut i: usize = 0;
        while i < evidence.len()
            invariant
                i <= evidence@.len() == weights@.len(),
                es == evidence_views(evidence@),
                ws == text::views(weights@),
                text::views(ls@) == evidence_lines(es, ws).take(i as int),
            decreases evidence@.len() - i,
        {
            let mut line = "- (weight ".to_owned();
            line.append(weights[i].as_str());
            line.append(") ");
            line.append(evidence[i].snippet.as_str());
            proof {
                text::lemma_views_push(ls@, line);
                assert(line@ == evidence_lines(es, ws)[i as int]);
                assert(evidence_lines(es, ws).take(i + 1) =~= evidence_lines(es, ws).take(
                    i as int,
                ).push(line@));
            }
            ls.push(line);
            i = i + 1;
        }
        assert(evidence_lines(es, ws).take(es.len() as int) =~= evidence_lines(es, ws));
        text::joined(&ls, "\n")
    };
    proof {
        reveal_strlit("{{theme_id}}");
        reveal_strlit("{{theme_label}}");
        reveal_strlit("{{evidence_list}}");
    }
    let first = text::replaced(TIER3_DREAM_PHASE3_CONSOLIDATE_PROMPT, "{{theme_id}}", theme_id);
    let second = text::replaced(first.as_str(), "{{theme_label}}", theme_label);
    let mut system = text::replaced(second.as_str(), "{{evidence_list}}", list.as_str());
    system.append(addendum);
    tier::dialogue_of(system, "Emit the consolidated memory block now.".to_owned())
}

pub open spec fn fragment_lines(fragments: Seq<DreamFileView>) -> Seq<Seq<char>> {
    Seq::new(fragments.len(), |i: int| "- "@ + fragments[i].id)
}

/// The messages that ask which fragments to delete, with the stale identifiers as JSON text.
pub open spec fn phase4_messages(stale_json: Seq<char>, fragments: Seq<DreamFileView>) -> Seq<
    MessageView,
> {
    tier::dialogue(
        text::replace(
            text::replace(TIER3_DREAM_PHASE4_PRUNE_PROMPT@, "{{stale_ids}}"@, stale_json),
            "{{fragment_list}}"@,
            text::join(fragment_lines(fragments), "\n"@),
        ),
        "Apply the rules and return the delete_ids JSON."@,
    )
}

/// A list of identifiers as JSON text.
pub fn ids_json_of(ids: &Vec<String>) -> (r: String)
    ensures
        r@ == json::string_array_text(text::views(ids@)),
{
    match json::write_string_array(ids) {
        Some(t) => t,
        None => "[]".to_owned(),
    }
}

/// See [`phase4_messages`].
pub fn build_phase4_messages(stale_json: &str, fragments: &Vec<DreamFileScan>) -> (r: Vec<
    LlmMessage,
>)
    ensures
        tier::message_views(r@) == phase4_messages(stale_json@, file_views(fragments@)),
{
    let ghost fs = file_views(fragments@);
    let mut ls: Vec<String> = Vec::new();
    let mut i: usize = 0;
    while i < fragments.len()
        invariant
            i <= fragments@.len(),
            fs == file_views(fragments@),
            text::views(ls@) == fragment_lines(fs).take(i as int),
        decreases fragments@.len() - i,
    {
        let mut line = "- ".to_owned();
        line.append(fragments[i].id.as_str());
        proof {
            text::lemma_views_push(ls@, line);
            assert(line@ == fragment_lines(fs)[i as int]);
            assert(fragment_lines(fs).take(i + 1) =~= fragment_lines(fs).take(i as int).push(
                line@,
            ));
        }
        ls.push(line);
        i = i + 1;
    }
    assert(fragment_lines(fs).take(fs.len() as int) =~= fragment_lines(fs));
    let list = text::joined(&ls, "\n");
    proof {
        reveal_strlit("{{stale_ids}}");
        reveal_strlit("{{fragment_list}}");
    }
    let first = text::replaced(TIER3_DREAM_PHASE4_PRUNE_PROMPT, "{{stale_ids}}", stale_json);
    let system = text::replaced(first.as_str(), "{{fragment_list}}", list.as_str());
    tier::dialogue_of(system, "Apply the rules and return the delete_ids JSON.".to_owned())
}

// ---------------------------------------------------------------------------
// What the calls of a dream promise
// ---------------------------------------------------------------------------

/// A reply without a fence at its beginning is only trimmed. One that is fenced, with whatever stands on the opening
/// line, is what the fence holds.
pub proof fn fenced_replies_are_unwrapped(
    s: Seq<char>,
    language: Seq<char>,
    inner: Seq<char>,
    tail: Seq<char>,
)
    ensures
        !text::starts_with(text::trim(s), "```"@) ==> unfenced(s) == text::trim(s),
        text::trim(s) == "```"@ + language + "\n"@ + inner + "```"@ + tail && !language.contains(
            '\n',
        ) && !text::contains("``"@ + tail, "```"@) ==> unfenced(s) == text::trim_end(inner),
{
    let t = text::trim(s);
    reveal_strlit("```");
    reveal_strlit("``");
    reveal_strlit("\n");
    if t == "```"@ + language + "\n"@ + inner + "```"@ + tail && !language.contains('\n')
        && !text::contains("``"@ + tail, "```"@) {
        let rest = t.subrange(3, t.len() as int);
        let n = language.len() as int;
        assert(t.subrange(0, 3) =~= "```"@);
        assert(rest =~= language + "\n"@ + (inner + "```"@ + tail));
        text::lemma_find_from(rest, "\n"@, 0);
        assert(rest.subrange(n, n + 1) =~= "\n"@);
        assert(text::matches_at(rest, "\n"@, n));
        assert forall|k: int| 0 <= k < n implies !#[trigger] text::matches_at(rest, "\n"@, k) by {
            if text::matches_at(rest, "\n"@, k) {
                assert(rest.subrange(k, k + 1)[0] == '\n');
                assert(language[k] == '\n');
            }
        }
        let body = rest.subrange(n + 1, rest.len() as int);
        assert(body =~= inner + "```"@ + tail);
        let m = inner.len() as int;
        text::lemma_rfind_from(body, "```"@, body.len() - 3);
        assert(body.subrange(m, m + 3) =~= "```"@);
        assert(text::matches_at(body, "```"@, m));
        let later = "``"@ + tail;
        assert forall|k: int| m < k implies !#[trigger] text::matches_at(body, "```"@, k) by {
            if text::matches_at(body, "```"@, k) {
                assert(later.subrange(k - m - 1, k - m + 2) =~= body.subrange(k, k + 3));
                assert(text::matches_at(later, "```"@, k - m - 1));
            }
        }
        assert(body.subrange(0, m) =~= inner);
    }
}

/// A reply that is JSON as a whole is read as a whole; only otherwise is a value looked for inside it.
pub proof fn whole_replies_come_first(raw: Seq<char>)
    requires
        !text::starts_with(text::trim(raw), "```"@),
    ensures
        json::json_of(text::trim(raw)) is Some ==> lenient_json(raw) == json::json_of(
            text::trim(raw),
        ),
        json::json_of(text::trim(raw)) is None && first_json_value(text::trim(raw)) is Some
            ==> lenient_json(raw) == json::json_of(first_json_value(text::trim(raw))->0),
        json::json_of(text::trim(raw)) is None && first_json_value(text::trim(raw)) is None
            ==> lenient_json(raw) is None,
{
    text::lemma_trim_ends(raw);
}

proof fn lemma_bracket_behind(pre: Seq<char>, s: Seq<char>, i: int)
    requires
        0 <= i <= pre.len(),
        forall|k: int| 0 <= k < pre.len() ==> #[trigger] pre[k] != '{' && pre[k] != '[',
    ensures
        first_bracket(pre + s, i) == pre.len() + first_bracket(s, 0),
    decreases pre.len() - i,
{
    if i < pre.len() {
        assert((pre + s)[i] == pre[i]);
        lemma_bracket_behind(pre, s, i + 1);
    } else {
        lemma_bracket_shift(pre, s, 0);
    }
}

proof fn lemma_bracket_shift(pre: Seq<char>, s: Seq<char>, k: int)
    requires
        0 <= k,
    ensures
        first_bracket(pre + s, pre.len() + k) == pre.len() + first_bracket(s, k),
    decreases s.len() - k,
{
    if k < s.len() {
        assert((pre + s)[pre.len() + k] == s[k]);
        lemma_bracket_shift(pre, s, k + 1);
    }
}

proof fn lemma_end_shift(
    pre: Seq<char>,
    s: Seq<char>,
    open: char,
    i: int,
    depth: int,
    in_string: bool,
    escaped: bool,
)
    requires
        0 <= i,
    ensures
        balanced_end(pre + s, open, pre.len() + i, depth, in_string, escaped) == (
        match balanced_end(s, open, i, depth, in_string, escaped) {
            Some(e) => Some(pre.len() + e),
            None => None,
        }),
    decreases s.len() - i,
{
    if i < s.len() {
        assert((pre + s)[pre.len() + i] == s[i]);
        lemma_end_shift(pre, s, open, i + 1, depth, true, false);
        lemma_end_shift(pre, s, open, i + 1, depth, true, true);
        lemma_end_shift(pre, s, open, i + 1, depth, false, false);
        lemma_end_shift(pre, s, open, i + 1, depth + 1, false, false);
        lemma_end_shift(pre, s, open, i + 1, depth - 1, false, false);
    }
}

proof fn lemma_end_stays(
    s: Seq<char>,
    more: Seq<char>,
    open: char,
    i: int,
    depth: int,
    in_string: bool,
    escaped: bool,
)
    requires
        0 <= i,
        balanced_end(s, open, i, depth, in_string, escaped) is Some,
    ensures
        balanced_end(s + more, open, i, depth, in_string, escaped) == balanced_end(
            s,
            open,
            i,
            depth,
            in_string,
            escaped,
        ),
    decreases s.len() - i,
{
    if i < s.len() {
        assert((s + more)[i] == s[i]);
        if in_string {
            if escaped {
                lemma_end_stays(s, more, open, i + 1, depth, true, false);
            } else if s[i] == '\\' {
                lemma_end_stays(s, more, open, i + 1, depth, true, true);
            } else if s[i] == '"' {
                lemma_end_stays(s, more, open, i + 1, depth, false, false);
            } else {
                lemma_end_stays(s, more, open, i + 1, depth, true, false);
            }
        } else if s[i] == '"' {
            lemma_end_stays(s, more, open, i + 1, depth, true, false);
        } else if s[i] == open {
            lemma_end_stays(s, more, open, i + 1, depth + 1, false, false);
        } else if s[i] == closing(open) {
            if depth > 1 {
                lemma_end_stays(s, more, open, i + 1, depth - 1, false, false);
            }
        } else {
            lemma_end_stays(s, more, open, i + 1, depth, false, false);
        }
    }
}

/// What is said before the first bracket, and what is said behind the value that it opens, does not matter for the value
/// that is cut out.
pub proof fn words_round_a_value_are_ignored(pre: Seq<char>, value: Seq<char>, post: Seq<char>)
    requires
        forall|k: int| 0 <= k < pre.len() ==> #[trigger] pre[k] != '{' && pre[k] != '[',
        first_json_value(value) == Some(value),
    ensures
        first_json_value(pre + value + post) == Some(value),
{
    lemma_first_bracket(value, 0);
    let start = first_bracket(value, 0);
    let open = value[start];
    let end = balanced_end(value, open, start, 0, false, false)->0;
    lemma_balanced_end(value, open, start, 0, false, false);
    assert(value.subrange(start, end + 1).len() == value.len());
    assert(start == 0);
    let behind = value + post;
    lemma_end_stays(value, post, open, 0, 0, false, false);
    assert(behind[0] == open);
    assert(first_bracket(behind, 0) == 0);
    lemma_bracket_behind(pre, behind, 0);
    let all = pre + value + post;
    assert(all =~= pre + behind);
    lemma_end_shift(pre, behind, open, 0, 0, false, false);
    assert(all[pre.len() as int] == open);
    assert(all.subrange(pre.len() as int, pre.len() + end + 1) =~= value);
}

proof fn lemma_plain_scan(s: Seq<char>, i: int)
    requires
        1 <= i < s.len(),
        s.last() == '}',
        forall|k: int|
            i <= k < s.len() - 1 ==> #[trigger] s[k] != '{' && s[k] != '}' && s[k] != '"',
    ensures
        balanced_end(s, '{', i, 1, false, false) == Some(s.len() - 1),
    decreases s.len() - i,
{
    if i < s.len() - 1 {
        lemma_plain_scan(s, i + 1);
    }
}

proof fn lemma_string_scan(s: Seq<char>, open: char, i: int, j: int, depth: int)
    requires
        0 <= i <= j < s.len(),
        s[j] == '"',
        forall|k: int| i <= k < j ==> #[trigger] s[k] != '"' && s[k] != '\\',
    ensures
        balanced_end(s, open, i, depth, true, false) == balanced_end(
            s,
            open,
            j + 1,
            depth,
            false,
            false,
        ),
    decreases j - i,
{
    if i < j {
        lemma_string_scan(s, open, i + 1, j, depth);
    }
}

/// Brackets inside a JSON string neither open nor close anything.
pub proof fn brackets_in_strings_do_not_count(word: Seq<char>)
    requires
        forall|k: int| 0 <= k < word.len() ==> #[trigger] word[k] != '"' && word[k] != '\\',
    ensures
        first_json_value(seq!['{', '"'] + word + seq!['"', '}']) == Some(
            seq!['{', '"'] + word + seq!['"', '}'],
        ),
{
    let s = seq!['{', '"'] + word + seq!['"', '}'];
    let j = (word.len() + 2) as int;
    assert(s[0] == '{');
    assert(s[1] == '"');
    assert(s[j] == '"');
    assert(s[j + 1] == '}');
    assert forall|k: int| 2 <= k < j implies #[trigger] s[k] != '"' && s[k] != '\\' by {
        assert(s[k] == word[k - 2]);
    }
    lemma_string_scan(s, '{', 2, j, 1);
    assert(balanced_end(s, '{', j + 1, 1, false, false) == Some(j + 1));
    assert(balanced_end(s, '{', 1, 1, false, false) == Some(j + 1));
    assert(balanced_end(s, '{', 0, 0, false, false) == Some(j + 1));
    assert(first_bracket(s, 0) == 0);
    assert(s.subrange(0, j + 2) =~= s);
}

/// An object of plain characters ends at its closing brace, and one inside another does not end the outer one.
pub proof fn objects_end_with_their_brace(word: Seq<char>)
    requires
        forall|k: int|
            0 <= k < word.len() ==> #[trigger] word[k] != '{' && word[k] != '}' && word[k] != '"',
    ensures
        first_json_value(seq!['{'] + word + seq!['}']) == Some(seq!['{'] + word + seq!['}']),
        first_json_value(seq!['{', '{'] + word + seq!['}', '}']) == Some(
            seq!['{', '{'] + word + seq!['}', '}'],
        ),
{
    let s = seq!['{'] + word + seq!['}'];
    assert forall|k: int|
        1 <= k < s.len() - 1 implies #[trigger] s[k] != '{' && s[k] != '}' && s[k] != '"' by {
        assert(s[k] == word[k - 1]);
    }
    lemma_plain_scan(s, 1);
    assert(balanced_end(s, '{', 0, 0, false, false) == Some(s.len() - 1));
    assert(s.subrange(0, s.len() as int) =~= s);
    let t = seq!['{', '{'] + word + seq!['}', '}'];
    let n = t.len() as int;
    lemma_nested_scan(t, 2);
    assert(balanced_end(t, '{', 1, 1, false, false) == Some(n - 1));
    assert(balanced_end(t, '{', 0, 0, false, false) == Some(n - 1));
    assert(t.subrange(0, n) =~= t);
}

proof fn lemma_nested_scan(s: Seq<char>, i: int)
    requires
        2 <= i < s.len() - 1,
        s.last() == '}',
        s[s.len() - 2] == '}',
        forall|k: int|
            2 <= k < s.len() - 2 ==> #[trigger] s[k] != '{' && s[k] != '}' && s[k] != '"',
    ensures
        balanced_end(s, '{', i, 2, false, false) == Some(s.len() - 1),
    decreases s.len() - i,
{
    if i < s.len() - 2 {
        lemma_nested_scan(s, i + 1);
    } else {
        assert(balanced_end(s, '{', i + 1, 1, false, false) == Some(s.len() - 1));
    }
}

/// A reflection takes each list from the member of its own name; what is missing is empty.
pub proof fn reflections_keep_their_lists(v: JsonView)
    ensures
        reflection_in(v).still_valid_ids == json::texts_of(json::member(v, "still_valid_ids"@)),
        reflection_in(v).stale_ids == json::texts_of(json::member(v, "stale_ids"@)),
        json::member(v, "notes"@) matches Some(JsonView::Str(s)) ==> reflection_in(v).notes == s,
        json::member(v, "stale_ids"@) is None ==> reflection_in(v).stale_ids.len() == 0,
{
}

proof fn lemma_lists_grow(items: Seq<JsonView>, x: JsonView, n: int)
    requires
        0 <= n <= items.len(),
    ensures
        themes_upto(items.push(x), n) == themes_upto(items, n),
        evidence_upto(items.push(x), n) == evidence_upto(items, n),
    decreases n,
{
    if n > 0 {
        lemma_lists_grow(items, x, n - 1);
        assert(items.push(x)[n - 1] == items[n - 1]);
    }
}

/// One element more in the list of themes: with an identifier it is a theme, in its place, with its label; with an empty
/// one it is left out; without one nothing can be read from the list.
pub proof fn themes_are_read_in_order(items: Seq<JsonView>, x: JsonView)
    ensures
        themes_upto(Seq::empty(), 0) == Some(Seq::<ThemeView>::empty()),
        ({
            let n = items.len() as int;
            let more = themes_upto(items.push(x), n + 1);
            match (themes_upto(items, n), json::member(x, "id"@)) {
                (Some(rest), Some(JsonView::Str(id))) => if id.len() == 0 {
                    more == Some(rest)
                } else {
                    more matches Some(all) && all.len() == rest.len() + 1 && all.drop_last() == rest
                        && all.last().id == id && all.last().label == json::text_or_empty(
                        x,
                        "label"@,
                    )
                },
                _ => more is None,
            }
        }),
{
    lemma_lists_grow(items, x, items.len() as int);
    if themes_upto(items, items.len() as int) is Some {
        let rest = themes_upto(items, items.len() as int)->0;
        if let Some(JsonView::Str(id)) = json::member(x, "id"@) {
            let t = ThemeView { id, label: json::text_or_empty(x, "label"@) };
            assert(rest.push(t).drop_last() =~= rest);
        }
    }
}

/// The themes of a reply stand under their name; a reply without a list of them has none to be read.
pub proof fn themes_stand_under_their_name(v: JsonView)
    ensures
        json::member(v, "themes"@) matches Some(JsonView::Array(items)) ==> themes_in(v)
            == themes_upto(items, items.len() as int),
        !(json::member(v, "themes"@) matches Some(JsonView::Array(items))) ==> themes_in(v) is None,
{
}

/// One element more in the list of evidence: a text is a snippet without a source or a weight, an object says all three,
/// and what has no snippet is left out.
pub proof fn evidence_is_read_in_order(items: Seq<JsonView>, x: JsonView)
    ensures
        evidence_upto(Seq::empty(), 0).len() == 0,
        ({
            let n = items.len() as int;
            let more = evidence_upto(items.push(x), n + 1);
            let rest = evidence_upto(items, n);
            match x {
                JsonView::Str(s) => more == (if s.len() > 0 {
                    rest.push(EvidenceView { source: Seq::empty(), snippet: s, weight: 0 })
                } else {
                    rest
                }),
                _ => {
                    let snippet = json::text_or_empty(x, "snippet"@);
                    &&& snippet.len() == 0 ==> more == rest
                    &&& snippet.len() > 0 ==> more.len() == rest.len() + 1 && more.drop_last()
                        == rest && more.last().snippet == snippet && more.last().source
                        == json::text_or_empty(x, "source"@) && (match json::member(x, "weight"@) {
                        Some(JsonView::Number(w)) => more.last().weight == w,
                        _ => more.last().weight == 0,
                    })
                },
            }
        }),
{
    lemma_lists_grow(items, x, items.len() as int);
    let rest = evidence_upto(items, items.len() as int);
    if evidence_in_item(x) is Some {
        assert(rest.push(evidence_in_item(x)->0).drop_last() =~= rest);
    }
}

/// The list of evidence is the reply itself where that is a list, or else the first list under one of its three names.
pub proof fn evidence_is_found_under_its_names(v: JsonView, items: Seq<JsonView>)
    ensures
        v == JsonView::Array(items) ==> evidence_in(v) == Some(
            evidence_upto(items, items.len() as int),
        ),
        !(v is Array) && json::member(v, "evidence_refs"@) == Some(JsonView::Array(items))
            ==> evidence_in(v) == Some(evidence_upto(items, items.len() as int)),
        !(v is Array) && !(json::as_items(json::member(v, "evidence_refs"@)) is Some)
            && json::member(v, "evidence"@) == Some(JsonView::Array(items)) ==> evidence_in(v)
            == Some(evidence_upto(items, items.len() as int)),
        !(v is Array) && json::as_items(json::member(v, "evidence_refs"@)) is None && json::as_items(
            json::member(v, "evidence"@),
        ) is None && json::member(v, "refs"@) == Some(JsonView::Array(items)) ==> evidence_in(v)
            == Some(evidence_upto(items, items.len() as int)),
        !(v is Array) && json::as_items(json::member(v, "evidence_refs"@)) is None && json::as_items(
            json::member(v, "evidence"@),
        ) is None && json::as_items(json::member(v, "refs"@)) is None ==> evidence_in(v) is None,
{
}

/// A consolidated memory has the confidence that its front matter names, or else medium; it is written with every line
/// of its front matter and everything behind it. A reply that does not begin with front matter, or does not end it, holds
/// none.
pub proof fn memories_are_read_with_their_front_matter(raw: Seq<char>, close: int)
    requires
        !text::starts_with(text::trim(raw), "```"@),
        1 <= close <= text::lines(text::trim(raw)).len(),
        forall|k: int|
            1 <= k < close ==> !frontmatter::is_rule(#[trigger] text::lines(text::trim(raw))[k]),
        close < text::lines(text::trim(raw)).len() ==> frontmatter::is_rule(
            text::lines(text::trim(raw))[close],
        ),
    ensures
        ({
            let t = text::trim(raw);
            let ls = text::lines(t);
            let named = frontmatter::field_value(ls.subrange(1, close), "confidence:"@);
            if text::starts_with(t, "---"@) && close < ls.len() {
                &&& phase3_block(raw) matches Some(b)
                &&& named.len() > 0 ==> b.confidence == named
                &&& named.len() == 0 ==> b.confidence == "medium"@
                &&& b.full_content == frontmatter::block_content(
                    ls.subrange(1, close),
                    ls.skip(close + 1),
                )
            } else {
                phase3_block(raw) is None
            }
        }),
{
    text::lemma_trim_ends(raw);
    let ls = text::lines(text::trim(raw));
    frontmatter::lemma_rule_at(ls, 1, close);
    if close < ls.len() {
        assert(ls.subrange(close + 1, ls.len() as int) =~= ls.skip(close + 1));
    }
}

/// What is to be deleted is what the list of that name holds, and nothing can be read where there is no such list.
pub proof fn deletions_are_named_in_their_list(v: JsonView)
    ensures
        json::member(v, "delete_ids"@) is Some && json::member(v, "delete_ids"@)->0 is Array
            ==> delete_ids_in(v) == Some(json::texts_of(json::member(v, "delete_ids"@))),
        json::member(v, "delete_ids"@) is None || !(json::member(v, "delete_ids"@)->0 is Array)
            ==> delete_ids_in(v) is None,
{
}

/// Every place of a prompt is filled with what it names: a text that is blank is shown as missing, and whatever else is
/// shown, is shown as it is.
pub proof fn prompts_are_filled_in_their_places(
    files: Seq<DreamFileView>,
    sessions: Seq<char>,
    memdir: Seq<char>,
    id: Seq<char>,
    label: Seq<char>,
    stale_json: Seq<char>,
)
    ensures
        files.len() == 0 ==> phase0_messages(files)[0].content == text::replace(
            TIER3_DREAM_PHASE0_PROMPT@,
            "{{prior_insights}}"@,
            "(no prior insights — first dream)"@,
        ),
        files.len() > 0 ==> phase0_messages(files)[0].content == text::replace(
            TIER3_DREAM_PHASE0_PROMPT@,
            "{{prior_insights}}"@,
            text::join(
                Seq::new(
                    if files.len() < 10 {
                        files.len()
                    } else {
                        10
                    },
                    |i: int| "- "@ + files[i].id + " (path: "@ + files[i].path + ")"@,
                ),
                "\n"@,
            ),
        ),
        !text::is_blank(sessions) && !text::is_blank(memdir) ==> phase1_messages(
            sessions,
            memdir,
        )[0].content == text::replace(
            text::replace(TIER3_DREAM_PHASE1_ORIENT_PROMPT@, "{{session_summary}}"@, sessions),
            "{{memdir_summary}}"@,
            memdir,
        ),
        !text::is_blank(sessions) ==> phase2_messages(id, label, sessions)[0].content
            == text::replace(
            text::replace(
                text::replace(TIER3_DREAM_PHASE2_GATHER_PROMPT@, "{{theme_id}}"@, id),
                "{{theme_label}}"@,
                label,
            ),
            "{{session_excerpts}}"@,
            sessions,
        ),
        phase4_messages(stale_json, files)[0].content == text::replace(
            text::replace(TIER3_DREAM_PHASE4_PRUNE_PROMPT@, "{{stale_ids}}"@, stale_json),
            "{{fragment_list}}"@,
            text::join(Seq::new(files.len(), |i: int| "- "@ + files[i].id), "\n"@),
        ),
{
    assert(insight_lines(files) =~= Seq::new(
        if files.len() < 10 {
            files.len()
        } else {
            10
        },
        |i: int| "- "@ + files[i].id + " (path: "@ + files[i].path + ")"@,
    ));
    assert(fragment_lines(files) =~= Seq::new(files.len(), |i: int| "- "@ + files[i].id));
}

/// A synthesis is shown the evidence line by line, each with its weight, and the addendum stands behind the prompt.
pub proof fn synthesis_is_shown_the_evidence(
    id: Seq<char>,
    label: Seq<char>,
    evidence: Seq<EvidenceView>,
    weights: Seq<Seq<char>>,
    addendum: Seq<char>,
)
    requires
        evidence.len() > 0,
        weights.len() == evidence.len(),
    ensures
        phase3_messages(id, label, evidence, weights, addendum)[0].content == text::replace(
            text::replace(
                text::replace(TIER3_DREAM_PHASE3_CONSOLIDATE_PROMPT@, "{{theme_id}}"@, id),
                "{{theme_label}}"@,
                label,
            ),
            "{{evidence_list}}"@,
            text::join(
                Seq::new(
                    evidence.len(),
                    |i: int| "- (weight "@ + weights[i] + ") "@ + evidence[i].snippet,
                ),
                "\n"@,
            ),
        ) + addendum,
{
    assert(evidence_lines(evidence, weights) =~= Seq::new(
        evidence.len(),
        |i: int| "- (weight "@ + weights[i] + ") "@ + evidence[i].snippet,
    ));
}

/// What is blank is shown as missing, each in its own words; every question ends with what is to be returned.
pub proof fn what_is_missing_is_said(
    files: Seq<DreamFileView>,
    sessions: Seq<char>,
    memdir: Seq<char>,
    id: Seq<char>,
    label: Seq<char>,
    stale_json: Seq<char>,
)
    ensures
        text::trim(sessions).len() == 0 ==> phase1_messages(sessions, memdir) == phase1_messages(
            "(no recent sessions)"@,
            memdir,
        ),
        text::trim(memdir).len() == 0 ==> phase1_messages(sessions, memdir) == phase1_messages(
            sessions,
            "(memdir empty)"@,
        ),
        text::trim(sessions).len() == 0 ==> phase2_messages(id, label, sessions) == phase2_messages(
            id,
            label,
            "(no session excerpts)"@,
        ),
        phase0_messages(files)[1].content == "Apply the rules and return the reflection JSON."@,
        phase1_messages(sessions, memdir)[1].content == "Apply the rules and return the themes JSON."@,
        phase2_messages(id, label, sessions)[1].content
            == "Apply the rules and return the evidence_refs JSON."@,
        phase4_messages(stale_json, files)[1].content
            == "Apply the rules and return the delete_ids JSON."@,
{
    lemma_filled("(no recent sessions)"@);
    lemma_filled("(memdir empty)"@);
    lemma_filled("(no session excerpts)"@);
    reveal_strlit("(no recent sessions)");
    reveal_strlit("(memdir empty)");
    reveal_strlit("(no session excerpts)");
}

proof fn lemma_filled(s: Seq<char>)
    ensures
        s.len() > 0 && s[0] == '(' && s.last() == ')' ==> !text::is_blank(s),
{
    if s.len() > 0 && s[0] == '(' && s.last() == ')' {
        text::trimming_takes_white_space_off(Seq::empty(), s, Seq::empty());
        assert(Seq::<char>::empty() + s + Seq::<char>::empty() =~= s);
    }
}

} // verus!
