//! Extraction of memories from a conversation: the tier gate in front of it, the parser of what the
//! model returns, and the plan of what is written.

use vstd::prelude::*;
use vstd::string::StringExecFns;
use crate::frontmatter;
use crate::path;
use crate::table::Table;
use crate::text;
use crate::tier;
use crate::tier::{
    CallDesk, CallFailure, CallFailureView, CallOutcome, GateDecision, LlmCallParams, LlmCallRequestPayload, LlmCallResultPayload, LlmMessage, LlmUsage, MemoryTier, MessageView, TierGate,
};

verus! {

/// The least number of new visible messages that an extraction needs.
pub const MIN_VISIBLE_MESSAGES: u32 = 1;

/// The least number of turns from one extraction to the next.
pub const MIN_TURNS_BETWEEN_EXTRACTIONS: u32 = 3;

/// How long the result of a model call is waited for.
pub const LLM_CALL_TIMEOUT_MS: u64 = 30_000;

/// The number of index lines above which the index should be consolidated by hand.
pub const MEMORY_MD_INDEX_MAX_LINES: usize = 200;

/// Prompt of an extraction call. `{{new_message_count}}` and `{{existing_manifest}}` are filled in
/// per call.
pub const TIER2_EXTRACT_PROMPT: &'static str = r#"You are the memory extraction subagent for the running assistant session.

Analyze the most recent ~{{new_message_count}} messages above and use them to update the persistent memory system.

Your output is parsed by an automated writer; produce ONLY structured memory blocks (zero free-form commentary, zero markdown fences, zero LLM disclaimers).

# Existing memories

{{existing_manifest}}

# Output format

Emit zero or more memory blocks, each in this exact form:

```
---
name: <stable_snake_case_id>
type: <user|feedback|project|reference>
description: <one-line description under 150 chars>
importance: <integer 1-10 — durable significance: 1 trivial, 5 useful preference, 10 identity-level>
keywords: <comma-separated retrieval keywords, at most 6, may mix languages; omit the line if none>
---

<memory body — full prose, can span multiple paragraphs>
```

Then emit ONE blank line, then the matching MEMORY.md index line:

```
- [Title](<stable_snake_case_id>.md) — one-line hook under 150 chars
```

# Rules

- Save a memory only if the recent messages contain a durable preference, fact, decision, or recurring pattern.
- Reuse an existing `name:` to update that memory; pick a new `name:` only for genuinely new topics.
- When a `type: user` fact clearly applies across ALL of the user's projects (identity, working style, global preference — not a project-specific detail), add the frontmatter line `promote_hint: global` so the UI can suggest promoting it to global memory.
- Do NOT include sensitive data (credentials, tokens, personal addresses).
- Do NOT save short-lived debugging state, single-use file paths, or anything that will be obsolete in a week.
- If nothing in the recent messages warrants saving, return an empty output. An empty output is a valid result."#;

// ---------------------------------------------------------------------------
// Parsing the model's output
// ---------------------------------------------------------------------------

/// A memory block of the model's output.
#[derive(Debug, Clone)]
pub struct ExtractionBlock {
    pub name: String,
    pub kind: String,
    /// Front matter and body, ready to be written.
    pub full_content: String,
    /// The index line that goes with the block; empty if there is none.
    pub index_line: String,
}

pub struct BlockView {
    pub name: Seq<char>,
    pub kind: Seq<char>,
    pub full_content: Seq<char>,
    pub index_line: Seq<char>,
}

impl View for ExtractionBlock {
    type V = BlockView;

    open spec fn view(&self) -> BlockView {
        BlockView {
            name: self.name@,
            kind: self.kind@,
            full_content: self.full_content@,
            index_line: self.index_line@,
        }
    }
}

pub open spec fn block_views(v: Seq<ExtractionBlock>) -> Seq<BlockView> {
    Seq::new(v.len(), |i: int| v[i]@)
}

/// What stands inside a code fence round the whole text; the text itself where there is none.
pub open spec fn strip_fences_spec(s: Seq<char>) -> Seq<char> {
    let t = text::trim(s);
    match text::strip_prefix(t, "```markdown\n"@) {
        Some(rest) => before_last_fence(rest),
        None => match text::strip_prefix(t, "```\n"@) {
            Some(rest) => before_last_fence(rest),
            None => t,
        },
    }
}

/// What precedes the last closing fence; everything where there is none.
pub open spec fn before_last_fence(s: Seq<char>) -> Seq<char> {
    match text::rsplit_once(s, "\n```"@) {
        Some(p) => p.0,
        None => s,
    }
}

/// Whether a line is an entry of the index.
pub open spec fn is_index_line(line: Seq<char>) -> bool {
    text::starts_with(text::trim(line), "- ["@) && text::contains(text::trim(line), "]("@)
}

/// The index entries among the lines, trimmed.
pub open spec fn index_lines(ls: Seq<Seq<char>>) -> Seq<Seq<char>>
    decreases ls.len(),
{
    if ls.len() == 0 {
        Seq::empty()
    } else if is_index_line(ls.last()) {
        index_lines(ls.drop_last()).push(text::trim(ls.last()))
    } else {
        index_lines(ls.drop_last())
    }
}

/// The lines without the blank ones at the end.
pub open spec fn without_blank_tail(ls: Seq<Seq<char>>) -> Seq<Seq<char>>
    decreases ls.len(),
{
    if ls.len() > 0 && text::is_blank(ls.last()) {
        without_blank_tail(ls.drop_last())
    } else {
        ls
    }
}

/// Whether the last line that is not blank is an index entry.
pub open spec fn has_trailing_entry(ls: Seq<Seq<char>>) -> bool {
    let b = without_blank_tail(ls);
    b.len() > 0 && is_index_line(b.last())
}

/// The body lines of a block: without a trailing index entry, and without blank lines at the end.
pub open spec fn body_lines(ls: Seq<Seq<char>>) -> Seq<Seq<char>> {
    let b = without_blank_tail(ls);
    if has_trailing_entry(ls) {
        without_blank_tail(b.drop_last())
    } else {
        b
    }
}

/// The file name of a memory.
pub open spec fn memory_filename(name: Seq<char>) -> Seq<char> {
    text::sanitized(name) + ".md"@
}

/// How an index entry refers to the memory called `name`.
pub open spec fn link_target(name: Seq<char>) -> Seq<char> {
    "("@ + memory_filename(name) + ")"@
}

/// The first entry from `i` on that refers to the memory; the number of entries if there is none.
pub open spec fn first_linking(pending: Seq<Seq<char>>, name: Seq<char>, i: int) -> int
    decreases pending.len() - i,
{
    if i < 0 || i >= pending.len() {
        pending.len() as int
    } else if text::contains(pending[i], link_target(name)) {
        i
    } else {
        first_linking(pending, name, i + 1)
    }
}

/// Which of the waiting entries a block without an entry of its own takes: the first one that
/// refers to it, else the first one.
pub open spec fn chosen_entry(pending: Seq<Seq<char>>, name: Seq<char>) -> int {
    let k = first_linking(pending, name, 0);
    if k < pending.len() {
        k
    } else {
        0
    }
}

/// The blocks that begin at line `i`, a rule or the end, with `pending` the index entries that
/// no block has taken yet.
pub open spec fn blocks_at(ls: Seq<Seq<char>>, i: int, pending: Seq<Seq<char>>) -> Seq<BlockView>
    decreases ls.len() - i,
    via blocks_at_decreases
{
    let close = frontmatter::next_rule(ls, i + 1);
    if i < 0 || i >= ls.len() || close >= ls.len() {
        Seq::empty()
    } else {
        let end = frontmatter::next_rule(ls, close + 1);
        let front = ls.subrange(i + 1, close);
        let rest = ls.subrange(close + 1, end);
        let name = frontmatter::field_value(front, "name:"@);
        let own = has_trailing_entry(rest);
        let k = chosen_entry(pending, name);
        let line = if own {
            text::trim(without_blank_tail(rest).last())
        } else if pending.len() > 0 {
            pending[k]
        } else {
            Seq::empty()
        };
        let left = if !own && pending.len() > 0 {
            pending.remove(k)
        } else {
            pending
        };
        let block = BlockView {
            name,
            kind: frontmatter::field_value(front, "type:"@),
            full_content: frontmatter::block_content(front, body_lines(rest)),
            index_line: line,
        };
        if name.len() > 0 {
            seq![block] + blocks_at(ls, end, left)
        } else {
            blocks_at(ls, end, left)
        }
    }
}

#[via_fn]
proof fn blocks_at_decreases(ls: Seq<Seq<char>>, i: int, pending: Seq<Seq<char>>) {
    frontmatter::lemma_next_rule(ls, i + 1);
    frontmatter::lemma_next_rule(ls, frontmatter::next_rule(ls, i + 1) + 1);
}

/// The memory blocks of the model's output. Index entries that stand before the first block wait
/// for a block without an entry of its own.
pub open spec fn extraction_blocks(raw: Seq<char>) -> Seq<BlockView> {
    let ls = text::lines(strip_fences_spec(text::trim(raw)));
    let first = frontmatter::next_rule(ls, 0);
    blocks_at(ls, first, index_lines(ls.subrange(0, first)))
}

proof fn lemma_blocks_at(ls: Seq<Seq<char>>, i: int, pending: Seq<Seq<char>>, j: int)
    requires
        0 <= j < blocks_at(ls, i, pending).len(),
    ensures
        blocks_at(ls, i, pending)[j].name.len() > 0,
        text::starts_with(blocks_at(ls, i, pending)[j].full_content, "---"@),
        blocks_at(ls, i, pending)[j].full_content.last() == '\n',
    decreases ls.len() - i,
{
    let close = frontmatter::next_rule(ls, i + 1);
    let end = frontmatter::next_rule(ls, close + 1);
    frontmatter::lemma_next_rule(ls, i + 1);
    frontmatter::lemma_next_rule(ls, close + 1);
    let front = ls.subrange(i + 1, close);
    let rest = ls.subrange(close + 1, end);
    let name = frontmatter::field_value(front, "name:"@);
    let left = if !has_trailing_entry(rest) && pending.len() > 0 {
        pending.remove(chosen_entry(pending, name))
    } else {
        pending
    };
    frontmatter::block_content_is_framed(front, body_lines(rest));
    if name.len() > 0 {
        if j > 0 {
            lemma_blocks_at(ls, end, left, j - 1);
        }
    } else {
        lemma_blocks_at(ls, end, left, j);
    }
}

/// Every memory that is read from the model's output has a name, begins with its front matter and ends with a
/// line feed.
pub proof fn blocks_are_named_and_framed(raw: Seq<char>, j: int)
    requires
        0 <= j < extraction_blocks(raw).len(),
    ensures
        extraction_blocks(raw)[j].name.len() > 0,
        text::starts_with(extraction_blocks(raw)[j].full_content, "---"@),
        extraction_blocks(raw)[j].full_content.last() == '\n',
{
    let ls = text::lines(strip_fences_spec(text::trim(raw)));
    let first = frontmatter::next_rule(ls, 0);
    lemma_blocks_at(ls, first, index_lines(ls.subrange(0, first)), j);
}

proof fn lemma_blank_tail(ls: Seq<Seq<char>>)
    ensures
        without_blank_tail(ls).len() <= ls.len(),
        without_blank_tail(ls) == ls.take(without_blank_tail(ls).len() as int),
        without_blank_tail(ls).len() > 0 ==> !text::is_blank(without_blank_tail(ls).last()),
    decreases ls.len(),
{
    if ls.len() > 0 && text::is_blank(ls.last()) {
        lemma_blank_tail(ls.drop_last());
        let n = without_blank_tail(ls).len() as int;
        assert(ls.drop_last().take(n) =~= ls.take(n));
    } else {
        assert(ls.take(ls.len() as int) =~= ls);
    }
}

proof fn lemma_body_lines(ls: Seq<Seq<char>>)
    ensures
        body_lines(ls).len() <= ls.len(),
        body_lines(ls) == ls.take(body_lines(ls).len() as int),
        body_lines(ls).len() > 0 ==> !text::is_blank(body_lines(ls).last()),
{
    lemma_blank_tail(ls);
    let b = without_blank_tail(ls);
    if has_trailing_entry(ls) {
        lemma_blank_tail(b.drop_last());
        let n = body_lines(ls).len() as int;
        assert(b.drop_last().take(n) =~= ls.take(n));
    }
}

/// The file of a named block holds that block and no other.
proof fn lemma_file_holds_block(front: Seq<Seq<char>>, body: Seq<Seq<char>>)
    requires
        forall|k: int|
            0 <= k < front.len() ==> !(#[trigger] front[k]).contains('\n')
                && !frontmatter::is_rule(front[k]),
        forall|k: int|
            0 <= k < body.len() ==> !(#[trigger] body[k]).contains('\n')
                && !frontmatter::is_rule(body[k]),
        body.len() > 0 ==> !text::is_blank(body.last()),
        frontmatter::field_value(front, "name:"@).len() > 0,
    ensures
        ({
            let again = extraction_blocks(frontmatter::block_content(front, body));
            &&& again.len() == 1
            &&& again[0].name == frontmatter::field_value(front, "name:"@)
            &&& again[0].kind == frontmatter::field_value(front, "type:"@)
        }),
{
    let content = frontmatter::block_content(front, body);
    let whole = text::trim(content);
    frontmatter::lemma_lines_of_block(front, body);
    reveal_strlit("```markdown\n");
    reveal_strlit("```\n");
    if text::starts_with(whole, "```markdown\n"@) {
        assert(whole.subrange(0, 12)[0] == '`');
    }
    if text::starts_with(whole, "```\n"@) {
        assert(whole.subrange(0, 4)[0] == '`');
    }
    assert(strip_fences_spec(whole) == whole);
    let ls = text::lines(whole);
    frontmatter::lemma_rules_of_block(ls, front, body);
    let n = front.len() as int;
    let inner = ls.subrange(1, n + 1);
    frontmatter::lemma_alike_fields(inner, front, "name:"@);
    frontmatter::lemma_alike_fields(inner, front, "type:"@);
    assert(ls.subrange(0, 0) =~= Seq::empty());
    let pending = index_lines(ls.subrange(0, 0));
    assert(pending.len() == 0);
    let rest = blocks_at(ls, ls.len() as int, pending);
    assert(rest =~= Seq::empty());
    assert(extraction_blocks(content) == blocks_at(ls, 0, pending));
}

proof fn lemma_blocks_read_back(ls: Seq<Seq<char>>, i: int, pending: Seq<Seq<char>>, j: int)
    requires
        forall|k: int| 0 <= k < ls.len() ==> !(#[trigger] ls[k]).contains('\n'),
        0 <= j < blocks_at(ls, i, pending).len(),
    ensures
        ({
            let b = blocks_at(ls, i, pending)[j];
            let again = extraction_blocks(b.full_content);
            again.len() == 1 && again[0].name == b.name && again[0].kind == b.kind
        }),
    decreases ls.len() - i,
{
    let close = frontmatter::next_rule(ls, i + 1);
    let end = frontmatter::next_rule(ls, close + 1);
    frontmatter::lemma_next_rule(ls, i + 1);
    frontmatter::lemma_next_rule(ls, close + 1);
    let front = ls.subrange(i + 1, close);
    let rest = ls.subrange(close + 1, end);
    let name = frontmatter::field_value(front, "name:"@);
    let left = if !has_trailing_entry(rest) && pending.len() > 0 {
        pending.remove(chosen_entry(pending, name))
    } else {
        pending
    };
    if name.len() > 0 {
        if j > 0 {
            lemma_blocks_read_back(ls, end, left, j - 1);
        } else {
            let body = body_lines(rest);
            lemma_body_lines(rest);
            frontmatter::lemma_no_rule_before(ls, i + 1);
            frontmatter::lemma_no_rule_before(ls, close + 1);
            assert forall|k: int| 0 <= k < front.len() implies !(#[trigger] front[k]).contains(
                '\n',
            ) && !frontmatter::is_rule(front[k]) by {
                assert(front[k] == ls[i + 1 + k]);
            }
            assert forall|k: int| 0 <= k < body.len() implies !(#[trigger] body[k]).contains(
                '\n',
            ) && !frontmatter::is_rule(body[k]) by {
                assert(body[k] == rest[k]);
                assert(rest[k] == ls[close + 1 + k]);
            }
            lemma_file_holds_block(front, body);
        }
    } else {
        lemma_blocks_read_back(ls, end, left, j);
    }
}

/// A fence is taken off where the last line is its end.
proof fn lemma_before_last_fence(inner: Seq<char>)
    ensures
        before_last_fence(inner + "\n```"@) == inner,
{
    reveal_strlit("\n```");
    let s = inner + "\n```"@;
    let i = inner.len() as int;
    assert(s.subrange(i, i + 4) =~= "\n```"@);
    assert(s.subrange(0, i) =~= inner);
}

/// A reply that the model puts inside a code fence is read as the same reply without the fence, unless the reply
/// itself begins with one.
pub proof fn fenced_replies_are_read_alike(raw: Seq<char>, reply: Seq<char>)
    requires
        text::trim(raw) == "```markdown\n"@ + text::trim(reply) + "\n```"@ || text::trim(raw)
            == "```\n"@ + text::trim(reply) + "\n```"@,
        !text::starts_with(text::trim(reply), "```markdown\n"@),
        !text::starts_with(text::trim(reply), "```\n"@),
    ensures
        extraction_blocks(raw) == extraction_blocks(reply),
{
    let inner = text::trim(reply);
    let t = text::trim(raw);
    text::lemma_trim_ends(raw);
    text::lemma_trim_ends(reply);
    lemma_before_last_fence(inner);
    reveal_strlit("```markdown\n");
    reveal_strlit("```\n");
    if t == "```markdown\n"@ + inner + "\n```"@ {
        assert(t.subrange(0, 12) =~= "```markdown\n"@);
        assert(t.subrange(12, t.len() as int) =~= inner + "\n```"@);
    } else {
        assert(t[3] == '\n');
        if text::starts_with(t, "```markdown\n"@) {
            assert(t.subrange(0, 12)[3] == 'm');
        }
        assert(t.subrange(0, 4) =~= "```\n"@);
        assert(t.subrange(4, t.len() as int) =~= inner + "\n```"@);
    }
}

/// What is written of a memory is read back as that memory: the file of a block holds one block, with the same name
/// and the same kind.
pub proof fn blocks_are_read_back(raw: Seq<char>, j: int)
    requires
        0 <= j < extraction_blocks(raw).len(),
    ensures
        ({
            let b = extraction_blocks(raw)[j];
            let again = extraction_blocks(b.full_content);
            again.len() == 1 && again[0].name == b.name && again[0].kind == b.kind
        }),
{
    let s = strip_fences_spec(text::trim(raw));
    let ls = text::lines(s);
    let first = frontmatter::next_rule(ls, 0);
    text::lemma_lines_hold_no_feed(s, 0);
    lemma_blocks_read_back(ls, first, index_lines(ls.subrange(0, first)), j);
}

/// See [`strip_fences_spec`].
pub fn strip_fences(s: &str) -> (r: String)
    ensures
        r@ == strip_fences_spec(s@),
{
    let t = text::trimmed(s);
    match text::without_prefix(t.as_str(), "```markdown\n") {
        Some(rest) => cut_fence(rest),
        None => match text::without_prefix(t.as_str(), "```\n") {
            Some(rest) => cut_fence(rest),
            None => t,
        },
    }
}

pub fn cut_fence(s: String) -> (r: String)
    ensures
        r@ == before_last_fence(s@),
{
    match text::cut_last(s.as_str(), "\n```") {
        Some(p) => p.0,
        None => s,
    }
}

fn index_entry(line: &str) -> (r: bool)
    ensures
        r == is_index_line(line@),
{
    let t = text::trimmed(line);
    text::has_prefix(t.as_str(), "- [") && text::has(t.as_str(), "](")
}

/// The end of what [`without_blank_tail`] leaves of the given range.
fn blank_tail_from(ls: &Vec<String>, from: usize, to: usize) -> (r: usize)
    requires
        from <= to <= ls@.len(),
    ensures
        from <= r <= to,
        text::views(ls@).subrange(from as int, r as int) == without_blank_tail(
            text::views(ls@).subrange(from as int, to as int),
        ),
{
    let mut i: usize = to;
    let ghost all = text::views(ls@);
    while i > from && text::blank(ls[i - 1].as_str())
        invariant
            from <= i <= to <= ls@.len(),
            all == text::views(ls@),
            without_blank_tail(all.subrange(from as int, to as int)) == without_blank_tail(
                all.subrange(from as int, i as int),
            ),
        decreases i,
    {
        assert(all.subrange(from as int, i as int).last() == ls@[i - 1]@);
        assert(all.subrange(from as int, i as int).drop_last() =~= all.subrange(
            from as int,
            i - 1,
        ));
        i = i - 1;
    }
    proof {
        if i > from {
            assert(all.subrange(from as int, i as int).last() == ls@[i - 1]@);
        }
    }
    i
}

/// See [`memory_filename`].
pub fn memory_filename_of(name: &str) -> (r: String)
    ensures
        r@ == memory_filename(name@),
{
    let mut out = text::sanitized_of(name);
    out.append(".md");
    out
}

fn chosen_of(pending: &Vec<String>, name: &str) -> (r: usize)
    requires
        pending@.len() > 0,
    ensures
        r == chosen_entry(text::views(pending@), name@),
        r < pending@.len(),
{
    let mut target = "(".to_owned();
    target.append(memory_filename_of(name).as_str());
    target.append(")");
    let mut i: usize = 0;
    while i < pending.len()
        invariant
            i <= pending@.len(),
            target@ == link_target(name@),
            first_linking(text::views(pending@), name@, 0) == first_linking(
                text::views(pending@),
                name@,
                i as int,
            ),
        decreases pending@.len() - i,
    {
        if text::has(pending[i].as_str(), target.as_str()) {
            return i;
        }
        i = i + 1;
    }
    0
}

/// Parses the model's output into memory blocks. See [`extraction_blocks`].
pub fn parse_extraction_blocks(raw: &str) -> (r: Vec<ExtractionBlock>)
    ensures
        block_views(r@) == extraction_blocks(raw@),
{
    let text = strip_fences(text::trimmed(raw).as_str());
    let ls = text::lines_of(text.as_str());
    let ghost all = text::views(ls@);
    let first = frontmatter::rule_from(&ls, 0);
    let mut pending: Vec<String> = Vec::new();
    let mut i: usize = 0;
    while i < first
        invariant
            i <= first <= ls@.len(),
            all == text::views(ls@),
            text::views(pending@) == index_lines(all.subrange(0, i as int)),
        decreases first - i,
    {
        let ghost next = all.subrange(0, i + 1);
        proof {
            assert(next.last() == ls@[i as int]@);
            assert(next.drop_last() =~= all.subrange(0, i as int));
        }
        if index_entry(ls[i].as_str()) {
            let entry = text::trimmed(ls[i].as_str());
            proof {
                text::lemma_views_push(pending@, entry);
            }
            pending.push(entry);
        }
        i = i + 1;
    }
    let mut blocks: Vec<ExtractionBlock> = Vec::new();
    i = first;
    proof {
        assert(block_views(blocks@) + blocks_at(all, i as int, text::views(pending@)) =~= blocks_at(
            all,
            i as int,
            text::views(pending@),
        ));
    }
    while i < ls.len()
        invariant
            i <= ls@.len(),
            all == text::views(ls@),
            block_views(blocks@) + blocks_at(all, i as int, text::views(pending@)) == extraction_blocks(
                raw@,
            ),
        decreases ls@.len() - i,
    {
        let close = frontmatter::rule_from(&ls, i + 1);
        if close >= ls.len() {
            assert(block_views(blocks@) + Seq::<BlockView>::empty() =~= block_views(blocks@));
            return blocks;
        }
        let end = frontmatter::rule_from(&ls, close + 1);
        let name = frontmatter::field_of(&ls, i + 1, close, "name:");
        let kind = frontmatter::field_of(&ls, i + 1, close, "type:");
        let tail = blank_tail_from(&ls, close + 1, end);
        let ghost rest = all.subrange(close + 1, end as int);
        let ghost b = without_blank_tail(rest);
        let own = tail > close + 1 && index_entry(ls[tail - 1].as_str());
        proof {
            if tail > close + 1 {
                assert(b.last() == ls@[tail - 1]@);
            }
            assert(own == has_trailing_entry(rest));
        }
        let body_end = if own {
            assert(b.drop_last() =~= all.subrange(close + 1, tail - 1));
            blank_tail_from(&ls, close + 1, tail - 1)
        } else {
            tail
        };
        let full_content = frontmatter::content_of(&ls, i + 1, close, close + 1, body_end);
        let ghost waiting = text::views(pending@);
        let index_line = if own {
            text::trimmed(ls[tail - 1].as_str())
        } else if pending.len() > 0 {
            let k = chosen_of(&pending, name.as_str());
            let taken = pending.remove(k);
            assert(text::views(pending@) =~= waiting.remove(k as int));
            taken
        } else {
            String::new()
        };
        let ghost before = block_views(blocks@);
        let ghost left = text::views(pending@);
        let ghost block = BlockView {
            name: name@,
            kind: kind@,
            full_content: full_content@,
            index_line: index_line@,
        };
        if !name.as_str().is_empty() {
            blocks.push(ExtractionBlock { name, kind, full_content, index_line });
            proof {
                assert(block_views(blocks@) =~= before.push(block));
                assert(before + (seq![block] + blocks_at(all, end as int, left)) =~= before.push(
                    block,
                ) + blocks_at(all, end as int, left));
            }
        }
        i = end;
    }
    assert(block_views(blocks@) + Seq::<BlockView>::empty() =~= block_views(blocks@));
    blocks
}

// ---------------------------------------------------------------------------
// The index
// ---------------------------------------------------------------------------

/// The index with a line feed at its end, unless it is empty.
pub open spec fn line_ended(s: Seq<char>) -> Seq<char> {
    if s.len() > 0 && s.last() != '\n' {
        s + "\n"@
    } else {
        s
    }
}

/// The index after the lines were offered one by one: a line that already stands in it is left
/// out, any other is added at the end.
pub open spec fn with_lines(index: Seq<char>, ls: Seq<Seq<char>>) -> Seq<char>
    decreases ls.len(),
{
    if ls.len() == 0 {
        index
    } else {
        let before = with_lines(index, ls.drop_last());
        if text::contains(before, ls.last()) {
            before
        } else {
            before + ls.last() + "\n"@
        }
    }
}

/// What the index file becomes; `None` where no line is new and the file stays as it is.
pub open spec fn new_index(existing: Seq<char>, ls: Seq<Seq<char>>) -> Option<Seq<char>> {
    let base = line_ended(existing);
    let after = with_lines(base, ls);
    if after == base {
        None
    } else {
        Some(after)
    }
}

/// Adding lines never takes anything away, and every line offered stands in the index afterwards.
pub proof fn index_keeps_and_gains(index: Seq<char>, ls: Seq<Seq<char>>)
    ensures
        with_lines(index, ls).len() >= index.len(),
        with_lines(index, ls).subrange(0, index.len() as int) == index,
        forall|i: int|
            0 <= i < ls.len() ==> text::contains(with_lines(index, ls), #[trigger] ls[i]),
    decreases ls.len(),
{
    if ls.len() == 0 {
        assert(index.subrange(0, index.len() as int) =~= index);
    } else {
        let before = with_lines(index, ls.drop_last());
        let after = with_lines(index, ls);
        index_keeps_and_gains(index, ls.drop_last());
        if !text::contains(before, ls.last()) {
            assert(after.subrange(0, index.len() as int) =~= before.subrange(
                0,
                index.len() as int,
            ));
            text::lemma_contains_tail(before, ls.last(), "\n"@);
            assert(after =~= before + (ls.last() + "\n"@));
        }
        assert forall|i: int| 0 <= i < ls.len() implies text::contains(after, #[trigger] ls[i]) by {
            if i < ls.len() - 1 {
                assert(ls.drop_last()[i] == ls[i]);
                if !text::contains(before, ls.last()) {
                    text::lemma_contains_prefix(before, ls.last() + "\n"@, ls[i]);
                }
            }
        }
    }
}

proof fn lemma_nothing_new(index: Seq<char>, ls: Seq<Seq<char>>)
    requires
        forall|i: int| 0 <= i < ls.len() ==> text::contains(index, #[trigger] ls[i]),
    ensures
        with_lines(index, ls) == index,
    decreases ls.len(),
{
    if ls.len() > 0 {
        assert forall|i: int| 0 <= i < ls.drop_last().len() implies text::contains(
            index,
            #[trigger] ls.drop_last()[i],
        ) by {
            assert(ls.drop_last()[i] == ls[i]);
        }
        lemma_nothing_new(index, ls.drop_last());
        assert(text::contains(index, ls[ls.len() - 1]));
    }
}

proof fn lemma_with_lines_shape(index: Seq<char>, ls: Seq<Seq<char>>)
    requires
        index == line_ended(index),
    ensures
        with_lines(index, ls) == line_ended(with_lines(index, ls)),
        with_lines(index, ls).len() >= index.len(),
        with_lines(index, ls).len() == index.len() ==> with_lines(index, ls) == index,
    decreases ls.len(),
{
    if ls.len() > 0 {
        lemma_with_lines_shape(index, ls.drop_last());
        reveal_strlit("\n");
        let before = with_lines(index, ls.drop_last());
        if !text::contains(before, ls.last()) {
            assert(with_lines(index, ls).last() == '\n');
        }
    }
}

/// Offering the same lines a second time changes nothing.
pub proof fn index_update_is_idempotent(existing: Seq<char>, ls: Seq<Seq<char>>)
    ensures
        new_index(existing, ls) matches Some(after) ==> new_index(after, ls) is None,
{
    let base = line_ended(existing);
    reveal_strlit("\n");
    assert(base == line_ended(base));
    lemma_with_lines_shape(base, ls);
    let after = with_lines(base, ls);
    index_keeps_and_gains(base, ls);
    lemma_nothing_new(after, ls);
}

/// Which of the lines are new to the index when they are offered one by one.
pub open spec fn added_lines(index: Seq<char>, ls: Seq<Seq<char>>) -> Seq<Seq<char>>
    decreases ls.len(),
{
    if ls.len() == 0 {
        Seq::empty()
    } else {
        let rest = added_lines(index, ls.drop_last());
        if text::contains(with_lines(index, ls.drop_last()), ls.last()) {
            rest
        } else {
            rest.push(ls.last())
        }
    }
}

/// The lines of `ls` that are new to the index file.
pub open spec fn lines_new_to(existing: Seq<char>, ls: Seq<Seq<char>>) -> Seq<Seq<char>> {
    added_lines(line_ended(existing), ls)
}

proof fn lemma_added_lines(index: Seq<char>, ls: Seq<Seq<char>>)
    ensures
        with_lines(index, added_lines(index, ls)) == with_lines(index, ls),
        with_lines(index, ls).len() >= index.len(),
        added_lines(index, ls).len() == 0 ==> with_lines(index, ls) == index,
        added_lines(index, ls).len() > 0 ==> with_lines(index, ls).len() > index.len(),
    decreases ls.len(),
{
    if ls.len() > 0 {
        lemma_added_lines(index, ls.drop_last());
        reveal_strlit("\n");
        let rest = added_lines(index, ls.drop_last());
        if !text::contains(with_lines(index, ls.drop_last()), ls.last()) {
            assert(rest.push(ls.last()).drop_last() =~= rest);
        }
    }
}

proof fn lemma_nothing_added(index: Seq<char>, ls: Seq<Seq<char>>)
    requires
        forall|i: int| 0 <= i < ls.len() ==> text::contains(index, #[trigger] ls[i]),
    ensures
        added_lines(index, ls) == Seq::<Seq<char>>::empty(),
    decreases ls.len(),
{
    if ls.len() > 0 {
        assert forall|i: int| 0 <= i < ls.drop_last().len() implies text::contains(
            index,
            #[trigger] ls.drop_last()[i],
        ) by {
            assert(ls.drop_last()[i] == ls[i]);
        }
        lemma_nothing_added(index, ls.drop_last());
        lemma_nothing_new(index, ls.drop_last());
        assert(text::contains(index, ls[ls.len() - 1]));
    }
}

/// Only the lines that are new change the index file: it stays as it is exactly where none is, it becomes the same
/// whether the others are offered or not, and no line is new to what it becomes.
pub proof fn only_new_lines_count(existing: Seq<char>, ls: Seq<Seq<char>>)
    ensures
        new_index(existing, ls) is None <==> lines_new_to(existing, ls).len() == 0,
        new_index(existing, lines_new_to(existing, ls)) == new_index(existing, ls),
        new_index(existing, ls) matches Some(after) ==> lines_new_to(after, ls).len() == 0,
{
    let base = line_ended(existing);
    reveal_strlit("\n");
    assert(base == line_ended(base));
    lemma_added_lines(base, ls);
    lemma_with_lines_shape(base, ls);
    let after = with_lines(base, ls);
    index_keeps_and_gains(base, ls);
    lemma_nothing_added(after, ls);
}

/// See [`lines_new_to`].
pub fn lines_to_add(existing: &str, offered: &Vec<String>) -> (r: Vec<String>)
    ensures
        text::views(r@) == lines_new_to(existing@, text::views(offered@)),
{
    let v = text::chars_of(existing);
    let mut content = existing.to_owned();
    if v.len() > 0 && v[v.len() - 1] != '\n' {
        content.append("\n");
    }
    let ghost base = content@;
    let ghost ls = text::views(offered@);
    let mut out: Vec<String> = Vec::new();
    let mut i: usize = 0;
    assert(text::views(out@) =~= added_lines(base, ls.take(0)));
    while i < offered.len()
        invariant
            i <= offered@.len(),
            ls == text::views(offered@),
            content@ == with_lines(base, ls.take(i as int)),
            text::views(out@) == added_lines(base, ls.take(i as int)),
        decreases offered@.len() - i,
    {
        let line = offered[i].as_str();
        proof {
            assert(ls.take(i + 1).drop_last() =~= ls.take(i as int));
            assert(ls.take(i + 1).last() == line@);
        }
        if !text::has(content.as_str(), line) {
            content.append(line);
            content.append("\n");
            let copy = line.to_owned();
            proof {
                text::lemma_views_push(out@, copy);
            }
            out.push(copy);
        }
        i = i + 1;
    }
    assert(ls.take(ls.len() as int) =~= ls);
    out
}

/// What the index file becomes when `new_lines` are added to it; `None` where it stays as it is.
/// See [`new_index`].
pub fn append_to_memory_index(existing: &str, new_lines: &Vec<String>) -> (r: Option<String>)
    ensures
        text::opt_view(r) == new_index(existing@, text::views(new_lines@)),
{
    let v = text::chars_of(existing);
    let mut content = existing.to_owned();
    if v.len() > 0 && v[v.len() - 1] != '\n' {
        content.append("\n");
    }
    let ghost base = content@;
    let ghost ls = text::views(new_lines@);
    let mut added = false;
    let mut i: usize = 0;
    while i < new_lines.len()
        invariant
            i <= new_lines@.len(),
            ls == text::views(new_lines@),
            content@ == with_lines(base, ls.take(i as int)),
            added == (content@ != base),
            content@.len() >= base.len(),
        decreases new_lines@.len() - i,
    {
        proof {
            assert(ls.take(i + 1).drop_last() =~= ls.take(i as int));
            assert(ls.take(i + 1).last() == new_lines@[i as int]@);
        }
        if !text::has(content.as_str(), new_lines[i].as_str()) {
            content.append(new_lines[i].as_str());
            content.append("\n");
            proof {
                reveal_strlit("\n");
            }
            added = true;
        }
        i = i + 1;
    }
    assert(ls.take(ls.len() as int) =~= ls);
    if added {
        Some(content)
    } else {
        None
    }
}

/// Whether an index has outgrown the size up to which it is read whole.
pub fn index_is_oversized(content: &str) -> (r: bool)
    ensures
        r == (text::lines(content@).len() > MEMORY_MD_INDEX_MAX_LINES),
        r == (text::lines(content@).len() > 200),
{
    let ls = text::lines_of(content);
    assert(text::views(ls@).len() == ls@.len());
    ls.len() > MEMORY_MD_INDEX_MAX_LINES
}

// ---------------------------------------------------------------------------
// The manifest of existing memories
// ---------------------------------------------------------------------------

/// A memory file as its front matter describes it.
#[derive(Debug, Clone)]
pub struct ExistingMemory {
    pub file_name: String,
    pub file_stem: String,
    pub name_hint: Option<String>,
    pub raw_type: Option<String>,
}

/// Whether a file of the memory directory is listed in the manifest.
pub open spec fn is_listed(file_name: Seq<char>) -> bool {
    has_md_extension(file_name) && file_name != "MEMORY.md"@ && file_name != "SESSION.md"@
}

/// Whether the part of a file name behind its last dot is `md`; a name that begins with its only
/// dot has no such part.
pub open spec fn has_md_extension(file_name: Seq<char>) -> bool {
    text::ends_with(file_name, ".md"@) && file_name.len() > 3
}

/// See [`is_listed`].
pub fn listed(file_name: &str) -> (r: bool)
    ensures
        r == is_listed(file_name@),
{
    md_extension(file_name) && !text::same(file_name, "MEMORY.md") && !text::same(
        file_name,
        "SESSION.md",
    )
}

/// See [`has_md_extension`].
pub fn md_extension(file_name: &str) -> (r: bool)
    ensures
        r == has_md_extension(file_name@),
{
    text::has_suffix(file_name, ".md") && text::chars_of(file_name).len() > 3
}

/// The line of the manifest for one memory.
pub open spec fn manifest_line(m: ExistingMemory) -> Seq<char> {
    let hint = match m.name_hint {
        Some(h) => h@,
        None => m.file_stem@,
    };
    let kind = match m.raw_type {
        Some(t) => t@,
        None => "(untyped)"@,
    };
    "- "@ + hint + " ["@ + kind + "] ("@ + m.file_name@ + ")"@
}

pub open spec fn manifest_lines(ms: Seq<ExistingMemory>) -> Seq<Seq<char>>
    decreases ms.len(),
{
    if ms.len() == 0 {
        Seq::empty()
    } else if is_listed(ms.last().file_name@) {
        manifest_lines(ms.drop_last()).push(manifest_line(ms.last()))
    } else {
        manifest_lines(ms.drop_last())
    }
}

/// The manifest of the memories that are listed, one line each, in the given order.
pub fn build_existing_manifest(memories: &Vec<ExistingMemory>) -> (r: String)
    ensures
        r@ == text::join(manifest_lines(memories@), "\n"@),
{
    let mut out: Vec<String> = Vec::new();
    let mut i: usize = 0;
    while i < memories.len()
        invariant
            i <= memories@.len(),
            text::views(out@) == manifest_lines(memories@.take(i as int)),
        decreases memories@.len() - i,
    {
        let m = &memories[i];
        proof {
            assert(memories@.take(i + 1).drop_last() =~= memories@.take(i as int));
        }
        if listed(m.file_name.as_str()) {
            let mut line = "- ".to_owned();
            match &m.name_hint {
                Some(h) => line.append(h.as_str()),
                None => line.append(m.file_stem.as_str()),
            }
            line.append(" [");
            match &m.raw_type {
                Some(t) => line.append(t.as_str()),
                None => line.append("(untyped)"),
            }
            line.append("] (");
            line.append(m.file_name.as_str());
            line.append(")");
            proof {
                text::lemma_views_push(out@, line);
            }
            out.push(line);
        }
        i = i + 1;
    }
    assert(memories@.take(memories@.len() as int) =~= memories@);
    text::joined(&out, "\n")
}

// ---------------------------------------------------------------------------
// Helpers
// ---------------------------------------------------------------------------

/// A memory name as a safe file name stem: each character outside `[A-Za-z0-9_.-]` becomes `_`.
pub fn sanitize_name(raw: &str) -> (r: String)
    ensures
        r@ == text::sanitized(raw@),
{
    text::sanitized_of(raw)
}

/// A sanitized name is as long as the name, holds safe characters only, and is its own
/// sanitized form.
pub proof fn sanitizing_is_idempotent(s: Seq<char>)
    ensures
        text::sanitized(s).len() == s.len(),
        forall|i: int|
            0 <= i < s.len() ==> text::safe_char(#[trigger] text::sanitized(s)[i])
                == text::sanitized(s)[i],
        text::sanitized(text::sanitized(s)) == text::sanitized(s),
{
    assert(text::sanitized(text::sanitized(s)) =~= text::sanitized(s));
}

/// Token usage as it is reported.
#[derive(Debug, Clone, Copy, PartialEq, Eq, Structural)]
pub struct LlmUsageWire {
    pub input_tokens: u32,
    pub output_tokens: u32,
}

pub fn into_usage_wire(u: LlmUsage) -> (r: LlmUsageWire)
    ensures
        r.input_tokens == u.input_tokens,
        r.output_tokens == u.output_tokens,
{
    LlmUsageWire { input_tokens: u.input_tokens, output_tokens: u.output_tokens }
}

/// Two lower-case hexadecimal digits per byte.
pub fn hex_encode(bytes: &Vec<u8>) -> (r: String)
    ensures
        r@ == text::hex(bytes@),
{
    assert(bytes@.take(bytes@.len() as int) =~= bytes@);
    text::hex_of(bytes, bytes.len())
}

// ---------------------------------------------------------------------------
// The tier gate
// ---------------------------------------------------------------------------

/// What is known when a query ends.
pub struct ExtractGateInput {
    pub is_remote: bool,
    pub session_key: String,
    pub visible_message_count: u32,
    pub recent_messages_summary: String,
    pub feature_flags: Table<bool>,
}

/// What the tier gate hands to the extraction.
#[derive(Debug, Clone)]
pub struct ExtractGateOutput {
    pub messages: Vec<LlmMessage>,
    pub visible_message_count_at_trigger: u32,
}

/// Why the tier gate could not be evaluated.
#[derive(Debug, Clone)]
pub enum ExtractGateError {
    Io(String),
}

/// Extraction state of one session.
#[derive(Debug, Clone, Copy, PartialEq, Eq, Structural)]
pub struct Tier2SessionState {
    pub turns_since_last_extraction: u64,
    pub extraction_in_progress: bool,
    pub extraction_started_at_ms: u64,
}

/// The state of a session that was never heard of.
pub open spec fn fresh_session() -> Tier2SessionState {
    Tier2SessionState {
        turns_since_last_extraction: 0,
        extraction_in_progress: false,
        extraction_started_at_ms: 0,
    }
}

pub open spec fn session_in(
    sessions: Map<Seq<char>, Tier2SessionState>,
    key: Seq<char>,
) -> Tier2SessionState {
    if sessions.contains_key(key) {
        sessions[key]
    } else {
        fresh_session()
    }
}

/// Whether a flag is present and set.
pub open spec fn flag_set(flags: Map<Seq<char>, bool>, key: Seq<char>) -> bool {
    flags.contains_key(key) && flags[key]
}

/// Whether any of the flags that switch extraction on is set.
pub open spec fn extraction_enabled(flags: Map<Seq<char>, bool>) -> bool {
    ||| flag_set(flags, "auto_extract_memories"@)
    ||| flag_set(flags, "auto_memory_enabled"@)
    ||| flag_set(flags, "AUTO_MEMORY"@)
}

/// The turn counter after one more turn.
pub open spec fn next_turn(turns: u64) -> u64 {
    if turns == u64::MAX {
        0
    } else {
        (turns + 1) as u64
    }
}

/// Whether the evaluation gets as far as counting the turn.
pub open spec fn counts_turn(input: ExtractGateInput, state: Tier2SessionState) -> bool {
    &&& !input.is_remote
    &&& extraction_enabled(input.feature_flags@)
    &&& input.visible_message_count >= MIN_VISIBLE_MESSAGES
    &&& !state.extraction_in_progress
}

/// Why the tier gate skips, for an input and the session's state; `None` where it triggers.
pub open spec fn extract_skip_reason(
    input: ExtractGateInput,
    state: Tier2SessionState,
) -> Option<Seq<char>> {
    if input.is_remote {
        Some("remote_mode"@)
    } else if !extraction_enabled(input.feature_flags@) {
        Some("feature_disabled"@)
    } else if input.visible_message_count < MIN_VISIBLE_MESSAGES {
        Some("no_visible_messages"@)
    } else if state.extraction_in_progress {
        Some("extraction_in_progress"@)
    } else if next_turn(state.turns_since_last_extraction) < MIN_TURNS_BETWEEN_EXTRACTIONS {
        Some("turn_throttle_unmet"@)
    } else {
        None
    }
}

/// The messages of an extraction, the manifest still to be filled in.
pub open spec fn extract_messages(count: u32, summary: Seq<char>) -> Seq<MessageView> {
    tier::dialogue(
        text::replace(
            TIER2_EXTRACT_PROMPT@,
            "{{new_message_count}}"@,
            text::decimal(count as nat),
        ),
        "Recent messages (compacted):\n\n"@ + summary,
    )
}

/// The state of a session after an evaluation of the tier gate.
pub open spec fn after_evaluation(
    input: ExtractGateInput,
    state: Tier2SessionState,
) -> Tier2SessionState {
    if counts_turn(input, state) {
        Tier2SessionState {
            turns_since_last_extraction: next_turn(state.turns_since_last_extraction),
            ..state
        }
    } else {
        state
    }
}

/// The tier gate in front of an extraction; it keeps the state of each session.
pub struct ExtractGate {
    sessions: Table<Tier2SessionState>,
}

impl View for ExtractGate {
    type V = Map<Seq<char>, Tier2SessionState>;

    closed spec fn view(&self) -> Map<Seq<char>, Tier2SessionState> {
        self.sessions@
    }
}

impl ExtractGate {
    /// The state of a session.
    pub open spec fn session(self, key: Seq<char>) -> Tier2SessionState {
        session_in(self@, key)
    }

    /// Whether only the session called `key` may differ between the two.
    pub open spec fn same_but(self, other: Self, key: Seq<char>) -> bool {
        forall|k: Seq<char>| k != key ==> #[trigger] self.session(k) == other.session(k)
    }

    pub fn new() -> (r: Self)
        ensures
            forall|k: Seq<char>| #[trigger] r.session(k) == fresh_session(),
    {
        ExtractGate { sessions: Table::new() }
    }

    /// The state of a session.
    pub fn state(&self, session_key: &str) -> (r: Tier2SessionState)
        ensures
            r == self.session(session_key@),
    {
        match self.sessions.get(session_key) {
            Some(s) => *s,
            None => Tier2SessionState {
                turns_since_last_extraction: 0,
                extraction_in_progress: false,
                extraction_started_at_ms: 0,
            },
        }
    }

    /// Gives a session a state.
    pub fn set_state(&mut self, session_key: &str, state: Tier2SessionState)
        ensures
            final(self).session(session_key@) == state,
            final(self).same_but(*old(self), session_key@),
    {
        self.sessions.put(session_key.to_owned(), state);
    }

    /// Whether any of the flags that switch extraction on is set.
    pub fn is_feature_enabled(flags: &Table<bool>) -> (r: bool)
        ensures
            r == extraction_enabled(flags@),
    {
        is_set(flags, "auto_extract_memories") || is_set(flags, "auto_memory_enabled") || is_set(
            flags,
            "AUTO_MEMORY",
        )
    }

    /// Counts one turn of a session and returns the new count.
    pub fn bump_turn(&mut self, session_key: &str) -> (r: u64)
        ensures
            r == next_turn(old(self).session(session_key@).turns_since_last_extraction),
            final(self).session(session_key@) == (Tier2SessionState {
                turns_since_last_extraction: r,
                ..old(self).session(session_key@)
            }),
            final(self).same_but(*old(self), session_key@),
    {
        let state = self.state(session_key);
        let turns: u64 = state.turns_since_last_extraction.wrapping_add(1);
        self.set_state(
            session_key,
            Tier2SessionState { turns_since_last_extraction: turns, ..state },
        );
        turns
    }
}

/// See [`flag_set`].
pub fn is_set(flags: &Table<bool>, key: &str) -> (r: bool)
    ensures
        r == flag_set(flags@, key@),
{
    match flags.get(key) {
        Some(b) => *b,
        None => false,
    }
}

impl TierGate for ExtractGate {
    type GateInput = ExtractGateInput;

    type GateOutput = ExtractGateOutput;

    type Error = ExtractGateError;

    fn evaluate_gate(&mut self, input: ExtractGateInput) -> (r: Result<
        GateDecision<ExtractGateOutput>,
        ExtractGateError,
    >)
        ensures
            r is Ok,
            ({
                let state = old(self).session(input.session_key@);
                let d = r->Ok_0;
                &&& match extract_skip_reason(input, state) {
                    Some(reason) => d.skips(reason),
                    None => d.triggers() && tier::message_views(d.payload->0.messages@)
                        == extract_messages(
                        input.visible_message_count,
                        input.recent_messages_summary@,
                    ) && d.payload->0.visible_message_count_at_trigger
                        == input.visible_message_count,
                }
                &&& final(self).session(input.session_key@) == after_evaluation(input, state)
                &&& final(self).same_but(*old(self), input.session_key@)
            }),
    {
        if input.is_remote {
            return Ok(GateDecision::skip("remote_mode"));
        }
        if !ExtractGate::is_feature_enabled(&input.feature_flags) {
            return Ok(GateDecision::skip("feature_disabled"));
        }
        if input.visible_message_count < MIN_VISIBLE_MESSAGES {
            return Ok(GateDecision::skip("no_visible_messages"));
        }
        let state = self.state(input.session_key.as_str());
        if state.extraction_in_progress {
            return Ok(GateDecision::skip("extraction_in_progress"));
        }
        let turns = self.bump_turn(input.session_key.as_str());
        if turns < MIN_TURNS_BETWEEN_EXTRACTIONS as u64 {
            return Ok(GateDecision::skip("turn_throttle_unmet"));
        }
        proof {
            reveal_strlit("{{new_message_count}}");
        }
        let count = text::decimal_of(input.visible_message_count as u64);
        let system = text::replaced(
            TIER2_EXTRACT_PROMPT,
            "{{new_message_count}}",
            count.as_str(),
        );
        let mut user = "Recent messages (compacted):\n\n".to_owned();
        user.append(input.recent_messages_summary.as_str());
        let messages = tier::dialogue_of(system, user);
        Ok(
            GateDecision::trigger(
                ExtractGateOutput {
                    messages,
                    visible_message_count_at_trigger: input.visible_message_count,
                },
            ),
        )
    }
}

/// From a settled extraction on, the tier gate lets an input through that passes everything but the
/// throttle only when it has been evaluated often enough: the evaluation that brings the counter
/// to the threshold triggers, the ones before it are throttled.
pub proof fn gate_throttles_until_threshold(input: ExtractGateInput, state: Tier2SessionState)
    requires
        counts_turn(input, state),
        state.turns_since_last_extraction < u64::MAX,
    ensures
        after_evaluation(input, state).turns_since_last_extraction
            == state.turns_since_last_extraction + 1,
        extract_skip_reason(input, state) is None <==> state.turns_since_last_extraction + 1
            >= MIN_TURNS_BETWEEN_EXTRACTIONS,
        extract_skip_reason(input, state) is Some ==> extract_skip_reason(input, state)
            == Some("turn_throttle_unmet"@),
{
}

// ---------------------------------------------------------------------------
// The extraction
// ---------------------------------------------------------------------------

/// One extraction to be run.
#[derive(Debug, Clone)]
pub struct ExtractProcessInput {
    pub session_key: String,
    pub memory_dir: String,
    pub gate_payload: ExtractGateOutput,
    pub model_hint: Option<String>,
    pub params: LlmCallParams,
}

/// What an extraction did.
#[derive(Debug, Clone)]
pub struct ExtractProcessOutput {
    pub req_id: String,
    pub written_paths: Vec<String>,
    pub memory_md_path: Option<String>,
    pub blocks_parsed: usize,
    pub blocks_written: usize,
    pub blocks_deduped: usize,
    pub usage: Option<LlmUsageWire>,
}

/// Why an extraction failed.
#[derive(Debug, Clone)]
pub enum ExtractProcessError {
    Io(String),
    Write(String),
    Timeout(u64),
    LlmFailure(String),
    Shutdown,
    Busy,
}

/// The error that a failed call ends an extraction with.
pub open spec fn is_call_error(e: ExtractProcessError, f: CallFailureView) -> bool {
    match f {
        CallFailureView::Elapsed => e == ExtractProcessError::Timeout(LLM_CALL_TIMEOUT_MS),
        CallFailureView::Closed => e is Shutdown,
        CallFailureView::Failed(m) => e matches ExtractProcessError::LlmFailure(t) && t@ == m,
    }
}

/// The state of a session while an extraction runs.
pub open spec fn extracting(state: Tier2SessionState, now_ms: u64) -> Tier2SessionState {
    Tier2SessionState { extraction_in_progress: true, extraction_started_at_ms: now_ms, ..state }
}

/// The state of a session once its extraction has ended; a successful end restarts the throttle.
pub open spec fn extraction_ended(state: Tier2SessionState, success: bool) -> Tier2SessionState {
    Tier2SessionState {
        turns_since_last_extraction: if success {
            0
        } else {
            state.turns_since_last_extraction
        },
        extraction_in_progress: false,
        extraction_started_at_ms: 0,
    }
}

/// The messages with the manifest filled into the system messages.
pub open spec fn with_manifest(ms: Seq<MessageView>, manifest: Seq<char>) -> Seq<MessageView> {
    Seq::new(
        ms.len(),
        |i: int|
            if ms[i].role == "system"@ {
                MessageView {
                    role: ms[i].role,
                    content: text::replace(ms[i].content, "{{existing_manifest}}"@, manifest),
                }
            } else {
                ms[i]
            },
    )
}

/// Whether the request is the one that an extraction makes.
pub open spec fn is_extract_request(
    q: LlmCallRequestPayload,
    req_id: Seq<char>,
    input: ExtractProcessInput,
    manifest: Seq<char>,
) -> bool {
    &&& q.req_id@ == req_id
    &&& q.tier == MemoryTier::Extract
    &&& q.phase is None
    &&& tier::message_views(q.messages@) == with_manifest(
        tier::message_views(input.gate_payload.messages@),
        manifest,
    )
    &&& q.model_hint == input.model_hint
    &&& q.params == input.params
}

fn fill_manifest(ms: &Vec<LlmMessage>, manifest: &str) -> (r: Vec<LlmMessage>)
    ensures
        tier::message_views(r@) == with_manifest(tier::message_views(ms@), manifest@),
{
    let mut out: Vec<LlmMessage> = Vec::new();
    let mut i: usize = 0;
    proof {
        reveal_strlit("{{existing_manifest}}");
    }
    while i < ms.len()
        invariant
            i <= ms@.len(),
            "{{existing_manifest}}"@.len() > 0,
            tier::message_views(out@) == with_manifest(
                tier::message_views(ms@),
                manifest@,
            ).take(i as int),
        decreases ms@.len() - i,
    {
        let m = &ms[i];
        let content = if text::same(m.role.as_str(), "system") {
            text::replaced(m.content.as_str(), "{{existing_manifest}}", manifest)
        } else {
            m.content.clone()
        };
        let ghost before = out@;
        let filled = LlmMessage { role: m.role.clone(), content };
        out.push(filled);
        i = i + 1;
        proof {
            assert(tier::message_views(out@) =~= tier::message_views(before).push(filled@));
            assert(tier::message_views(out@) =~= with_manifest(
                tier::message_views(ms@),
                manifest@,
            ).take(i as int));
        }
    }
    assert(with_manifest(tier::message_views(ms@), manifest@).take(ms@.len() as int)
        =~= with_manifest(tier::message_views(ms@), manifest@));
    out
}

/// Runs extractions: at most one per session at a time, each around one model call. `S` is where
/// the result of a call is awaited.
pub struct ExtractProcessor<S> {
    pub gate: ExtractGate,
    pub desk: CallDesk<S>,
}

impl<S> ExtractProcessor<S> {
    pub fn new(gate: ExtractGate) -> (r: Self)
        ensures
            r.gate == gate,
            r.desk.pending@ == Map::<Seq<char>, S>::empty(),
            r.desk.req_id_counter == 0,
    {
        ExtractProcessor { gate, desk: CallDesk::new() }
    }

    pub fn gate(&self) -> (r: &ExtractGate)
        ensures
            *r == self.gate,
    {
        &self.gate
    }

    /// Hands out where the result of a call is awaited; `None` where no such call is pending.
    pub fn deliver_result(&mut self, result: &LlmCallResultPayload) -> (r: Option<S>)
        ensures
            r is Some <==> old(self).desk.pending@.contains_key(result.req_id@),
            r matches Some(s) ==> s == old(self).desk.pending@[result.req_id@],
            final(self).desk.pending@ == old(self).desk.pending@.remove(result.req_id@),
            final(self).desk.req_id_counter == old(self).desk.req_id_counter,
            final(self).gate == old(self).gate,
    {
        self.desk.close(result.req_id.as_str())
    }

    /// Starts an extraction: marks the session as busy and returns the call to be made, its result
    /// awaited in `slot`. Refuses where the session is busy.
    pub fn begin(
        &mut self,
        input: ExtractProcessInput,
        existing_manifest: &str,
        now_ms: u64,
        slot: S,
    ) -> (r: Result<LlmCallRequestPayload, ExtractProcessError>)
        ensures
            ({
                let key = input.session_key@;
                let state = old(self).gate.session(key);
                match r {
                    Err(e) => state.extraction_in_progress && e is Busy && *final(self) == *old(
                        self,
                    ),
                    Ok(q) => {
                        &&& !state.extraction_in_progress
                        &&& final(self).gate.session(key) == extracting(state, now_ms)
                        &&& final(self).gate.same_but(old(self).gate, key)
                        &&& final(self).desk.req_id_counter == tier::next_number(
                            old(self).desk.req_id_counter,
                        )
                        &&& final(self).desk.pending@ == old(self).desk.pending@.insert(
                            q.req_id@,
                            slot,
                        )
                        &&& is_extract_request(
                            q,
                            tier::call_id("tier2-"@, final(self).desk.req_id_counter, now_ms),
                            input,
                            existing_manifest@,
                        )
                    },
                }
            }),
    {
        let state = self.gate.state(input.session_key.as_str());
        if state.extraction_in_progress {
            return Err(ExtractProcessError::Busy);
        }
        self.gate.set_state(
            input.session_key.as_str(),
            Tier2SessionState {
                extraction_in_progress: true,
                extraction_started_at_ms: now_ms,
                ..state
            },
        );
        let messages = fill_manifest(&input.gate_payload.messages, existing_manifest);
        Ok(
            self.desk.open(
                "tier2-",
                MemoryTier::Extract,
                None,
                messages,
                input.model_hint,
                input.params,
                now_ms,
                slot,
            ),
        )
    }

    /// Ends the extraction of a session and drops the call if it is still pending.
    pub fn end(&mut self, session_key: &str, req_id: &str, success: bool)
        ensures
            final(self).gate.session(session_key@) == extraction_ended(
                old(self).gate.session(session_key@),
                success,
            ),
            final(self).gate.same_but(old(self).gate, session_key@),
            final(self).desk.pending@ == old(self).desk.pending@.remove(req_id@),
            final(self).desk.req_id_counter == old(self).desk.req_id_counter,
    {
        let _ = self.desk.close(req_id);
        let state = self.gate.state(session_key);
        let turns: u64 = if success {
            0
        } else {
            state.turns_since_last_extraction
        };
        self.gate.set_state(
            session_key,
            Tier2SessionState {
                turns_since_last_extraction: turns,
                extraction_in_progress: false,
                extraction_started_at_ms: 0,
            },
        );
    }
}

/// While an extraction runs its session is busy and the tier gate skips it; when it ends the session is
/// free again, and after success the throttle starts anew.
pub proof fn one_extraction_at_a_time(
    input: ExtractGateInput,
    state: Tier2SessionState,
    now_ms: u64,
    success: bool,
)
    ensures
        extracting(state, now_ms).extraction_in_progress,
        extract_skip_reason(input, extracting(state, now_ms)) is Some,
        !extraction_ended(extracting(state, now_ms), success).extraction_in_progress,
        extraction_ended(extracting(state, now_ms), true).turns_since_last_extraction == 0,
        !state.extraction_in_progress && state.extraction_started_at_ms == 0 ==> extraction_ended(
            extracting(state, now_ms),
            false,
        ) == state,
{
}

/// The blocks that a call brought, or the error that the extraction ends with.
pub fn blocks_of_outcome(outcome: CallOutcome) -> (r: Result<
    (Vec<ExtractionBlock>, Option<LlmUsageWire>),
    ExtractProcessError,
>)
    ensures
        match tier::response_of(outcome) {
            Ok(p) => r matches Ok(q) && block_views(q.0@) == extraction_blocks(p.0) && usage_wire(
                q.1,
            ) == p.1,
            Err(f) => r matches Err(e) && is_call_error(e, f),
        },
{
    match tier::take_response(outcome) {
        Ok(p) => {
            let blocks = parse_extraction_blocks(p.0.as_str());
            let usage = match p.1 {
                Some(u) => Some(into_usage_wire(u)),
                None => None,
            };
            Ok((blocks, usage))
        },
        Err(CallFailure::Elapsed) => Err(ExtractProcessError::Timeout(LLM_CALL_TIMEOUT_MS)),
        Err(CallFailure::Closed) => Err(ExtractProcessError::Shutdown),
        Err(CallFailure::Failed(m)) => Err(ExtractProcessError::LlmFailure(m)),
    }
}

/// The usage that a reported usage stands for.
pub open spec fn usage_wire(u: Option<LlmUsageWire>) -> Option<LlmUsage> {
    match u {
        Some(w) => Some(
            LlmUsage { input_tokens: w.input_tokens, output_tokens: w.output_tokens },
        ),
        None => None,
    }
}

/// What is known of a block besides its text: the digest of its body, and its importance.
#[derive(Debug, Clone)]
pub struct BlockFacts {
    pub body_digest: Vec<u8>,
    pub importance: u64,
}

/// A file to be written.
#[derive(Debug, Clone)]
pub struct PlannedWrite {
    pub path: String,
    pub content: String,
}

/// What an extraction writes.
#[derive(Debug, Clone)]
pub struct ExtractPlan {
    pub writes: Vec<PlannedWrite>,
    pub index_lines: Vec<String>,
    pub deduped: usize,
    pub importance_delta: u64,
}

/// Whether a body with the given digest is already on disk.
pub open spec fn is_known(digest: Seq<u8>, known: Seq<Seq<char>>) -> bool {
    known.contains(text::hex(digest))
}

pub open spec fn write_views(ws: Seq<PlannedWrite>) -> Seq<(Seq<char>, Seq<char>)> {
    Seq::new(ws.len(), |i: int| (ws[i].path@, ws[i].content@))
}

/// The files to be written, path and content: one for each block whose body is not known yet.
pub open spec fn planned_writes(
    blocks: Seq<BlockView>,
    facts: Seq<BlockFacts>,
    known: Seq<Seq<char>>,
    dir: Seq<char>,
) -> Seq<(Seq<char>, Seq<char>)>
    decreases blocks.len(),
{
    if blocks.len() == 0 {
        Seq::empty()
    } else {
        let rest = planned_writes(blocks.drop_last(), facts.drop_last(), known, dir);
        if is_known(facts.last().body_digest@, known) {
            rest
        } else {
            rest.push(
                (
                    path::under(dir, memory_filename(blocks.last().name)),
                    blocks.last().full_content,
                ),
            )
        }
    }
}

/// The index lines of the blocks that are written, where they have one.
pub open spec fn planned_lines(
    blocks: Seq<BlockView>,
    facts: Seq<BlockFacts>,
    known: Seq<Seq<char>>,
) -> Seq<Seq<char>>
    decreases blocks.len(),
{
    if blocks.len() == 0 {
        Seq::empty()
    } else {
        let rest = planned_lines(blocks.drop_last(), facts.drop_last(), known);
        if is_known(facts.last().body_digest@, known) || blocks.last().index_line.len() == 0 {
            rest
        } else {
            rest.push(blocks.last().index_line)
        }
    }
}

/// The number of blocks that are left out because their body is known.
pub open spec fn known_count(facts: Seq<BlockFacts>, known: Seq<Seq<char>>) -> nat
    decreases facts.len(),
{
    if facts.len() == 0 {
        0
    } else {
        known_count(facts.drop_last(), known) + if is_known(facts.last().body_digest@, known) {
            1nat
        } else {
            0nat
        }
    }
}

/// The importance of the blocks that are written, added up and capped.
pub open spec fn importance_sum(facts: Seq<BlockFacts>, known: Seq<Seq<char>>) -> u64
    decreases facts.len(),
{
    if facts.len() == 0 {
        0
    } else {
        let rest = importance_sum(facts.drop_last(), known);
        if is_known(facts.last().body_digest@, known) {
            rest
        } else if rest + facts.last().importance > u64::MAX {
            u64::MAX
        } else {
            (rest + facts.last().importance) as u64
        }
    }
}

fn known(digest: &Vec<u8>, hashes: &Vec<String>) -> (r: bool)
    ensures
        r == is_known(digest@, text::views(hashes@)),
{
    let h = hex_encode(digest);
    let mut i: usize = 0;
    while i < hashes.len()
        invariant
            i <= hashes@.len(),
            h@ == text::hex(digest@),
            forall|k: int| 0 <= k < i ==> #[trigger] hashes@[k]@ != h@,
        decreases hashes@.len() - i,
    {
        if text::same(hashes[i].as_str(), h.as_str()) {
            assert(text::views(hashes@)[i as int] == h@);
            return true;
        }
        i = i + 1;
    }
    assert forall|k: int| 0 <= k < hashes@.len() implies text::views(hashes@)[k] != h@ by {
        assert(hashes@[k]@ != h@);
    }
    false
}

/// Plans what an extraction writes: a block whose body is already on disk is left out, any other
/// becomes a file named after it.
pub fn plan_extraction(
    blocks: &Vec<ExtractionBlock>,
    facts: &Vec<BlockFacts>,
    known_hashes: &Vec<String>,
    memory_dir: &str,
) -> (r: ExtractPlan)
    requires
        facts@.len() == blocks@.len(),
    ensures
        ({
            let bs = block_views(blocks@);
            let ks = text::views(known_hashes@);
            &&& write_views(r.writes@) == planned_writes(bs, facts@, ks, memory_dir@)
            &&& text::views(r.index_lines@) == planned_lines(bs, facts@, ks)
            &&& r.deduped == known_count(facts@, ks)
            &&& r.importance_delta == importance_sum(facts@, ks)
            &&& r.writes@.len() + r.deduped == blocks@.len()
        }),
{
    let ghost bs = block_views(blocks@);
    let ghost ks = text::views(known_hashes@);
    let mut writes: Vec<PlannedWrite> = Vec::new();
    let mut index_lines: Vec<String> = Vec::new();
    let mut deduped: usize = 0;
    let mut importance_delta: u64 = 0;
    let mut i: usize = 0;
    while i < blocks.len()
        invariant
            i <= blocks@.len() == facts@.len(),
            bs == block_views(blocks@),
            ks == text::views(known_hashes@),
            write_views(writes@) == planned_writes(
                bs.take(i as int),
                facts@.take(i as int),
                ks,
                memory_dir@,
            ),
            text::views(index_lines@) == planned_lines(bs.take(i as int), facts@.take(i as int), ks),
            deduped == known_count(facts@.take(i as int), ks),
            importance_delta == importance_sum(facts@.take(i as int), ks),
            writes@.len() + deduped == i,
        decreases blocks@.len() - i,
    {
        let b = &blocks[i];
        let f = &facts[i];
        proof {
            assert(bs.take(i + 1).drop_last() =~= bs.take(i as int));
            assert(facts@.take(i + 1).drop_last() =~= facts@.take(i as int));
            assert(bs.take(i + 1).last() == b@);
            assert(facts@.take(i + 1).last() == *f);
        }
        if known(&f.body_digest, known_hashes) {
            deduped = deduped + 1;
        } else {
            let name = memory_filename_of(b.name.as_str());
            let target = path::child(memory_dir, name.as_str());
            let w = PlannedWrite { path: target, content: b.full_content.clone() };
            let ghost before = writes@;
            writes.push(w);
            proof {
                assert(write_views(writes@) =~= write_views(before).push((w.path@, w.content@)));
            }
            importance_delta = importance_delta.saturating_add(f.importance);
            if !b.index_line.as_str().is_empty() {
                let line = b.index_line.clone();
                proof {
                    text::lemma_views_push(index_lines@, line);
                }
                index_lines.push(line);
            }
        }
        i = i + 1;
    }
    assert(bs.take(bs.len() as int) =~= bs);
    assert(facts@.take(facts@.len() as int) =~= facts@);
    ExtractPlan { writes, index_lines, deduped, importance_delta }
}

/// The report of an extraction whose plan was carried out.
pub fn extraction_output(
    plan: &ExtractPlan,
    req_id: String,
    usage: Option<LlmUsageWire>,
    memory_dir: &str,
) -> (r: ExtractProcessOutput)
    requires
        plan.writes@.len() + plan.deduped <= usize::MAX,
    ensures
        r.req_id == req_id,
        text::views(r.written_paths@) == Seq::new(
            plan.writes@.len(),
            |i: int| plan.writes@[i].path@,
        ),
        text::opt_view(r.memory_md_path) == (if plan.index_lines@.len() == 0 {
            None
        } else {
            Some(path::under(memory_dir@, "MEMORY.md"@))
        }),
        r.blocks_parsed == plan.writes@.len() + plan.deduped,
        r.blocks_written == plan.writes@.len(),
        r.blocks_deduped == plan.deduped,
        r.usage == usage,
{
    let mut written_paths: Vec<String> = Vec::new();
    let mut i: usize = 0;
    while i < plan.writes.len()
        invariant
            i <= plan.writes@.len(),
            written_paths@.len() == i,
            forall|k: int| 0 <= k < i ==> #[trigger] written_paths@[k]@ == plan.writes@[k].path@,
        decreases plan.writes@.len() - i,
    {
        written_paths.push(plan.writes[i].path.clone());
        i = i + 1;
    }
    let memory_md_path = if plan.index_lines.len() == 0 {
        None
    } else {
        Some(path::child(memory_dir, "MEMORY.md"))
    };
    ExtractProcessOutput {
        req_id,
        written_paths,
        memory_md_path,
        blocks_parsed: plan.writes.len() + plan.deduped,
        blocks_written: plan.writes.len(),
        blocks_deduped: plan.deduped,
        usage,
    }
}

// ---------------------------------------------------------------------------
// What an extraction promises
// ---------------------------------------------------------------------------

/// A fenced text is what stands before the last end of a fence, whatever follows that end; without such an end it is
/// everything.
pub proof fn fences_end_at_the_last_mark(inner: Seq<char>, tail: Seq<char>)
    ensures
        !text::contains("```"@ + tail, "\n```"@) ==> before_last_fence(inner + "\n```"@ + tail)
            == inner,
        !text::contains(inner, "\n```"@) ==> before_last_fence(inner) == inner,
{
    reveal_strlit("\n```");
    reveal_strlit("```");
    let mark = "\n```"@;
    let s = inner + mark + tail;
    let n = inner.len() as int;
    if !text::contains("```"@ + tail, mark) {
        text::lemma_rfind_from(s, mark, s.len() - mark.len());
        assert(s.subrange(n, n + 4) =~= mark);
        assert(text::matches_at(s, mark, n));
        let later = "```"@ + tail;
        assert forall|k: int| n < k implies !#[trigger] text::matches_at(s, mark, k) by {
            if text::matches_at(s, mark, k) {
                assert(later.subrange(k - n - 1, k - n + 3) =~= s.subrange(k, k + 4));
                assert(text::matches_at(later, mark, k - n - 1));
            }
        }
        assert(s.subrange(0, n) =~= inner);
    }
    if !text::contains(inner, mark) {
        text::lemma_rfind_from(inner, mark, inner.len() - mark.len());
    }
}

/// A reply that does not begin with a fence is read line by line as it is, whatever fences stand inside it.
pub proof fn bare_replies_are_read_whole(raw: Seq<char>)
    requires
        !text::starts_with(text::trim(raw), "```markdown\n"@),
        !text::starts_with(text::trim(raw), "```\n"@),
    ensures
        strip_fences_spec(text::trim(raw)) == text::trim(raw),
        strip_fences_spec(raw) == text::trim(raw),
{
    text::lemma_trim_ends(raw);
}

proof fn lemma_planned_write(
    blocks: Seq<BlockView>,
    facts: Seq<BlockFacts>,
    known: Seq<Seq<char>>,
    dir: Seq<char>,
    i: int,
) -> (k: int)
    requires
        blocks.len() == facts.len(),
        0 <= i < blocks.len(),
        !known.contains(text::hex(facts[i].body_digest@)),
    ensures
        0 <= k < planned_writes(blocks, facts, known, dir).len(),
        planned_writes(blocks, facts, known, dir)[k] == (
            path::under(dir, text::sanitized(blocks[i].name) + ".md"@),
            blocks[i].full_content,
        ),
    decreases blocks.len(),
{
    let all = planned_writes(blocks, facts, known, dir);
    let rest = planned_writes(blocks.drop_last(), facts.drop_last(), known, dir);
    if i == blocks.len() - 1 {
        rest.len() as int
    } else {
        let k = lemma_planned_write(blocks.drop_last(), facts.drop_last(), known, dir, i);
        assert(all[k] == rest[k]);
        k
    }
}

proof fn lemma_written_block(
    blocks: Seq<BlockView>,
    facts: Seq<BlockFacts>,
    known: Seq<Seq<char>>,
    dir: Seq<char>,
    k: int,
) -> (i: int)
    requires
        blocks.len() == facts.len(),
        0 <= k < planned_writes(blocks, facts, known, dir).len(),
    ensures
        0 <= i < blocks.len(),
        !known.contains(text::hex(facts[i].body_digest@)),
        planned_writes(blocks, facts, known, dir)[k] == (
            path::under(dir, text::sanitized(blocks[i].name) + ".md"@),
            blocks[i].full_content,
        ),
        planned_writes(blocks.take(i), facts.take(i), known, dir).len() == k,
    decreases blocks.len(),
{
    let all = planned_writes(blocks, facts, known, dir);
    let d = blocks.drop_last();
    let f = facts.drop_last();
    let rest = planned_writes(d, f, known, dir);
    if k < rest.len() {
        let i = lemma_written_block(d, f, known, dir, k);
        assert(all[k] == rest[k]);
        assert(d.take(i) =~= blocks.take(i));
        assert(f.take(i) =~= facts.take(i));
        i
    } else {
        assert(blocks.take(blocks.len() - 1) =~= d);
        assert(facts.take(blocks.len() - 1) =~= f);
        blocks.len() - 1
    }
}

/// Every block whose body is not on disk yet is written, to the file in the memory directory that bears its own name,
/// with its own content.
pub proof fn new_blocks_are_written_under_their_names(
    blocks: Seq<BlockView>,
    facts: Seq<BlockFacts>,
    known: Seq<Seq<char>>,
    dir: Seq<char>,
    i: int,
)
    requires
        blocks.len() == facts.len(),
        0 <= i < blocks.len(),
        !known.contains(text::hex(facts[i].body_digest@)),
    ensures
        planned_writes(blocks, facts, known, dir).contains(
            (
                path::under(dir, text::sanitized(blocks[i].name) + ".md"@),
                blocks[i].full_content,
            ),
        ),
{
    let k = lemma_planned_write(blocks, facts, known, dir, i);
    assert(planned_writes(blocks, facts, known, dir)[k] == (
        path::under(dir, text::sanitized(blocks[i].name) + ".md"@),
        blocks[i].full_content,
    ));
}

/// Nothing is written but blocks whose body is not on disk yet, in their order: the `k`-th file is that of the block
/// with `k` such blocks before it. What is known is not written again.
pub proof fn only_new_blocks_are_written(
    blocks: Seq<BlockView>,
    facts: Seq<BlockFacts>,
    known: Seq<Seq<char>>,
    dir: Seq<char>,
    k: int,
)
    requires
        blocks.len() == facts.len(),
        0 <= k < planned_writes(blocks, facts, known, dir).len(),
    ensures
        exists|i: int|
            0 <= i < blocks.len() && !known.contains(text::hex((#[trigger] facts[i]).body_digest@))
                && planned_writes(blocks, facts, known, dir)[k] == (
                path::under(dir, text::sanitized(blocks[i].name) + ".md"@),
                blocks[i].full_content,
            ) && planned_writes(blocks.take(i), facts.take(i), known, dir).len() == k,
{
    let i = lemma_written_block(blocks, facts, known, dir, k);
    assert(!known.contains(text::hex(facts[i].body_digest@)));
}

proof fn lemma_under_is_injective(dir: Seq<char>, a: Seq<char>, b: Seq<char>)
    requires
        path::under(dir, a + ".md"@) == path::under(dir, b + ".md"@),
    ensures
        a == b,
{
    reveal_strlit("/");
    let p = path::under(dir, Seq::empty());
    let x = a + ".md"@;
    let y = b + ".md"@;
    assert(path::under(dir, x) =~= p + x);
    assert(path::under(dir, y) =~= p + y);
    assert(x.len() == y.len());
    assert forall|i: int| 0 <= i < a.len() implies a[i] == b[i] by {
        assert((p + x)[p.len() + i] == a[i]);
        assert((p + y)[p.len() + i] == b[i]);
    }
    assert(a =~= b);
}

/// Two new blocks whose names differ as file names go to different files: neither overwrites the other.
pub proof fn differently_named_blocks_do_not_clash(
    blocks: Seq<BlockView>,
    dir: Seq<char>,
    i: int,
    j: int,
)
    requires
        text::sanitized(blocks[i].name) != text::sanitized(blocks[j].name),
    ensures
        path::under(dir, memory_filename(blocks[i].name)) != path::under(
            dir,
            memory_filename(blocks[j].name),
        ),
        memory_filename(blocks[i].name) == text::sanitized(blocks[i].name) + ".md"@,
{
    if path::under(dir, memory_filename(blocks[i].name)) == path::under(
        dir,
        memory_filename(blocks[j].name),
    ) {
        lemma_under_is_injective(
            dir,
            text::sanitized(blocks[i].name),
            text::sanitized(blocks[j].name),
        );
    }
}

/// One block more: a known one only counts as left out; a new one is written, offers its index line unless that is
/// empty, and adds its importance, up to what a number can hold.
pub proof fn each_block_is_planned_once(
    blocks: Seq<BlockView>,
    facts: Seq<BlockFacts>,
    known: Seq<Seq<char>>,
    dir: Seq<char>,
    b: BlockView,
    f: BlockFacts,
)
    requires
        blocks.len() == facts.len(),
    ensures
        ({
            let bs = blocks.push(b);
            let fs = facts.push(f);
            if known.contains(text::hex(f.body_digest@)) {
                &&& planned_writes(bs, fs, known, dir) == planned_writes(blocks, facts, known, dir)
                &&& planned_lines(bs, fs, known) == planned_lines(blocks, facts, known)
                &&& known_count(fs, known) == known_count(facts, known) + 1
                &&& importance_sum(fs, known) == importance_sum(facts, known)
            } else {
                &&& planned_writes(bs, fs, known, dir).len() == planned_writes(
                    blocks,
                    facts,
                    known,
                    dir,
                ).len() + 1
                &&& planned_lines(bs, fs, known) == planned_lines(blocks, facts, known) + (
                if b.index_line.len() == 0 {
                    Seq::empty()
                } else {
                    seq![b.index_line]
                })
                &&& known_count(fs, known) == known_count(facts, known)
                &&& importance_sum(facts, known) + f.importance <= u64::MAX ==> importance_sum(
                    fs,
                    known,
                ) == importance_sum(facts, known) + f.importance
                &&& importance_sum(facts, known) + f.importance > u64::MAX ==> importance_sum(
                    fs,
                    known,
                ) == u64::MAX
            }
        }),
        planned_writes(Seq::empty(), Seq::empty(), known, dir).len() == 0,
        planned_lines(Seq::empty(), Seq::empty(), known).len() == 0,
        known_count(Seq::empty(), known) == 0,
        importance_sum(Seq::empty(), known) == 0,
{
    assert(blocks.push(b).drop_last() =~= blocks);
    assert(facts.push(f).drop_last() =~= facts);
    let rest = planned_lines(blocks, facts, known);
    assert(rest + Seq::<Seq<char>>::empty() =~= rest);
    assert(rest.push(b.index_line) =~= rest + seq![b.index_line]);
}

/// An extraction is due exactly for a local session with something visible to read, where one of the three flags that
/// switch it on is set, none runs already, and the third turn since the last one has come.
pub proof fn extractions_are_due_every_third_turn(input: ExtractGateInput, state: Tier2SessionState)
    requires
        state.turns_since_last_extraction < u64::MAX,
    ensures
        extract_skip_reason(input, state) is None <==> {
            let flags = input.feature_flags@;
            &&& !input.is_remote
            &&& exists|k: Seq<char>| #[trigger]
                flags.contains_key(k) && flags[k] && (k == "auto_extract_memories"@ || k
                    == "auto_memory_enabled"@ || k == "AUTO_MEMORY"@)
            &&& input.visible_message_count > 0
            &&& !state.extraction_in_progress
            &&& state.turns_since_last_extraction >= 2
        },
        input.is_remote ==> extract_skip_reason(input, state) == Some("remote_mode"@),
        !input.is_remote && extraction_enabled(input.feature_flags@) && input.visible_message_count
            == 0 ==> extract_skip_reason(input, state) == Some("no_visible_messages"@),
        !input.is_remote && !extraction_enabled(input.feature_flags@) ==> extract_skip_reason(
            input,
            state,
        ) == Some("feature_disabled"@),
        !input.is_remote && extraction_enabled(input.feature_flags@) && input.visible_message_count
            > 0 && state.extraction_in_progress ==> extract_skip_reason(input, state) == Some(
            "extraction_in_progress"@,
        ),
        after_evaluation(input, state).extraction_in_progress == state.extraction_in_progress,
        after_evaluation(input, state).extraction_started_at_ms == state.extraction_started_at_ms,
        after_evaluation(input, state).turns_since_last_extraction
            == state.turns_since_last_extraction + (if !input.is_remote && extraction_enabled(
            input.feature_flags@,
        ) && input.visible_message_count > 0 && !state.extraction_in_progress {
            1int
        } else {
            0
        }),
{
    let flags = input.feature_flags@;
    if extraction_enabled(flags) {
        if flag_set(flags, "auto_extract_memories"@) {
            assert(flags.contains_key("auto_extract_memories"@));
        } else if flag_set(flags, "auto_memory_enabled"@) {
            assert(flags.contains_key("auto_memory_enabled"@));
        } else {
            assert(flags.contains_key("AUTO_MEMORY"@));
        }
    }
}

/// How a call without a response ends an extraction.
pub proof fn failed_calls_end_extractions(e: ExtractProcessError, message: Seq<char>)
    ensures
        is_call_error(e, CallFailureView::Elapsed) <==> e == ExtractProcessError::Timeout(30_000),
        is_call_error(e, CallFailureView::Closed) <==> e == ExtractProcessError::Shutdown,
        is_call_error(e, CallFailureView::Failed(message)) <==> (e matches
            ExtractProcessError::LlmFailure(t) && t@ == message),
{
}

/// An extraction that runs keeps the turn count; its end frees the session, and starts the count anew exactly where
/// it succeeded.
pub proof fn only_success_restarts_the_count(state: Tier2SessionState, now_ms: u64, success: bool)
    ensures
        extracting(state, now_ms).turns_since_last_extraction == state.turns_since_last_extraction,
        extracting(state, now_ms).extraction_started_at_ms == now_ms,
        extraction_ended(state, success).turns_since_last_extraction == (if success {
            0
        } else {
            state.turns_since_last_extraction
        }),
        extraction_ended(state, success).extraction_started_at_ms == 0,
        !extraction_ended(state, success).extraction_in_progress,
{
}

/// Only system messages are changed by the manifest, and a message without a place for it stays as it is.
pub proof fn manifest_goes_to_system_messages(ms: Seq<MessageView>, manifest: Seq<char>, i: int)
    requires
        0 <= i < ms.len(),
    ensures
        with_manifest(ms, manifest).len() == ms.len(),
        with_manifest(ms, manifest)[i].role == ms[i].role,
        ms[i].role != "system"@ ==> with_manifest(ms, manifest)[i] == ms[i],
        ms[i].role == "system"@ ==> with_manifest(ms, manifest)[i].content == text::replace(
            ms[i].content,
            "{{existing_manifest}}"@,
            manifest,
        ),
{
}

/// The manifest lists the Markdown files of the directory but the index and the session notes, in order: one file more
/// gives one line more, which shows its name, or the stem of the file, its kind, and the file.
pub proof fn manifest_lists_memories(ms: Seq<ExistingMemory>, m: ExistingMemory)
    ensures
        manifest_lines(Seq::empty()).len() == 0,
        m.file_name@ == "MEMORY.md"@ || m.file_name@ == "SESSION.md"@ || !text::ends_with(
            m.file_name@,
            ".md"@,
        ) || m.file_name@ == ".md"@ ==> manifest_lines(ms.push(m)) == manifest_lines(ms),
        m.file_name@ != "MEMORY.md"@ && m.file_name@ != "SESSION.md"@ && text::ends_with(
            m.file_name@,
            ".md"@,
        ) && m.file_name@ != ".md"@ ==> manifest_lines(ms.push(m)) == manifest_lines(ms).push(
            "- "@ + (match m.name_hint {
                Some(h) => h@,
                None => m.file_stem@,
            }) + " ["@ + (match m.raw_type {
                Some(t) => t@,
                None => "(untyped)"@,
            }) + "] ("@ + m.file_name@ + ")"@,
        ),
{
    assert(ms.push(m).drop_last() =~= ms);
    reveal_strlit(".md");
    let name = m.file_name@;
    if text::ends_with(name, ".md"@) && name.len() == 3 {
        assert(name.subrange(0, 3) =~= name);
    }
}

proof fn lemma_blanks_are_cut(body: Seq<Seq<char>>, blanks: Seq<Seq<char>>)
    requires
        body.len() > 0 ==> !text::is_blank(body.last()),
        forall|k: int| 0 <= k < blanks.len() ==> text::is_blank(#[trigger] blanks[k]),
    ensures
        without_blank_tail(body + blanks) == body,
    decreases blanks.len(),
{
    if blanks.len() == 0 {
        assert(body + blanks =~= body);
    } else {
        assert(text::is_blank(blanks[blanks.len() - 1]));
        assert((body + blanks).last() == blanks.last());
        assert((body + blanks).drop_last() =~= body + blanks.drop_last());
        assert forall|k: int| 0 <= k < blanks.drop_last().len() implies text::is_blank(
            #[trigger] blanks.drop_last()[k],
        ) by {
            assert(blanks.drop_last()[k] == blanks[k]);
        }
        lemma_blanks_are_cut(body, blanks.drop_last());
    }
}

proof fn lemma_first_linking(pending: Seq<Seq<char>>, name: Seq<char>, i: int)
    requires
        0 <= i,
    ensures
        ({
            let k = first_linking(pending, name, i);
            &&& i <= pending.len() ==> i <= k <= pending.len()
            &&& k < pending.len() ==> text::contains(pending[k], link_target(name))
            &&& forall|m: int|
                i <= m < k && m < pending.len() ==> !text::contains(
                    #[trigger] pending[m],
                    link_target(name),
                )
        }),
    decreases pending.len() - i,
{
    if i < pending.len() && !text::contains(pending[i], link_target(name)) {
        lemma_first_linking(pending, name, i + 1);
    }
}

/// What becomes of the lines from one rule to the rule behind the next one: a block with the name and the kind that
/// its front matter gives, and with the body that follows. An index entry that ends the body belongs to the block and
/// not to its file; without a name there is no block.
pub proof fn blocks_stand_between_rules(
    ls: Seq<Seq<char>>,
    i: int,
    close: int,
    end: int,
    body: Seq<Seq<char>>,
    gap: Seq<Seq<char>>,
    entry: Seq<char>,
    tail: Seq<Seq<char>>,
    pending: Seq<Seq<char>>,
)
    requires
        0 <= i < close < end <= ls.len(),
        forall|k: int| i < k < close ==> !frontmatter::is_rule(#[trigger] ls[k]),
        frontmatter::is_rule(ls[close]),
        forall|k: int| close < k < end ==> !frontmatter::is_rule(#[trigger] ls[k]),
        end < ls.len() ==> frontmatter::is_rule(ls[end]),
        ls.subrange(close + 1, end) == body + gap.push(entry) + tail,
        body.len() > 0 ==> !text::is_blank(body.last()),
        forall|k: int| 0 <= k < gap.len() ==> text::is_blank(#[trigger] gap[k]),
        text::starts_with(text::trim(entry), "- ["@),
        text::contains(text::trim(entry), "]("@),
        forall|k: int| 0 <= k < tail.len() ==> text::is_blank(#[trigger] tail[k]),
    ensures
        ({
            let front = ls.subrange(i + 1, close);
            let name = frontmatter::field_value(front, "name:"@);
            let block = BlockView {
                name,
                kind: frontmatter::field_value(front, "type:"@),
                full_content: frontmatter::block_content(front, body),
                index_line: text::trim(entry),
            };
            blocks_at(ls, i, pending) == (if name.len() > 0 {
                seq![block]
            } else {
                Seq::empty()
            }) + blocks_at(ls, end, pending)
        }),
{
    reveal_strlit("- [");
    frontmatter::lemma_rule_at(ls, i + 1, close);
    frontmatter::lemma_rule_at(ls, close + 1, end);
    let rest = ls.subrange(close + 1, end);
    let kept = body + gap.push(entry);
    assert(kept.last() == entry);
    assert(text::trim(entry).subrange(0, 3) == "- ["@);
    lemma_blanks_are_cut(kept, tail);
    assert(without_blank_tail(rest) == kept);
    assert(kept.drop_last() =~= body + gap);
    lemma_blanks_are_cut(body, gap);
    assert(body_lines(rest) == body);
    let later = blocks_at(ls, end, pending);
    assert(Seq::<BlockView>::empty() + later =~= later);
}

/// A block without an index entry of its own takes one of those that wait: one that links to its file where there is
/// one, else the first; where none waits it has none. Entries that are not taken go on waiting.
pub proof fn blocks_without_entries_take_waiting_ones(
    ls: Seq<Seq<char>>,
    i: int,
    close: int,
    end: int,
    body: Seq<Seq<char>>,
    tail: Seq<Seq<char>>,
    pending: Seq<Seq<char>>,
)
    requires
        0 <= i < close < end <= ls.len(),
        forall|k: int| i < k < close ==> !frontmatter::is_rule(#[trigger] ls[k]),
        frontmatter::is_rule(ls[close]),
        forall|k: int| close < k < end ==> !frontmatter::is_rule(#[trigger] ls[k]),
        end < ls.len() ==> frontmatter::is_rule(ls[end]),
        ls.subrange(close + 1, end) == body + tail,
        body.len() > 0 ==> !text::is_blank(body.last()),
        forall|k: int| 0 <= k < tail.len() ==> text::is_blank(#[trigger] tail[k]),
        body.len() == 0 || !text::starts_with(text::trim(body.last()), "- ["@) || !text::contains(
            text::trim(body.last()),
            "]("@,
        ),
        frontmatter::field_value(ls.subrange(i + 1, close), "name:"@).len() > 0,
    ensures
        ({
            let front = ls.subrange(i + 1, close);
            let b = blocks_at(ls, i, pending)[0];
            let link = "("@ + text::sanitized(b.name) + ".md"@ + ")"@;
            &&& blocks_at(ls, i, pending).len() > 0
            &&& b.name == frontmatter::field_value(front, "name:"@)
            &&& b.kind == frontmatter::field_value(front, "type:"@)
            &&& b.full_content == frontmatter::block_content(front, body)
            &&& pending.len() == 0 ==> b.index_line.len() == 0 && blocks_at(ls, i, pending).skip(1)
                == blocks_at(ls, end, pending)
            &&& pending.len() > 0 ==> exists|k: int|
                0 <= k < pending.len() && #[trigger] pending[k] == b.index_line && blocks_at(
                    ls,
                    i,
                    pending,
                ).skip(1) == blocks_at(ls, end, pending.remove(k))
            &&& (exists|k: int| 0 <= k < pending.len() && text::contains(#[trigger] pending[k], link))
                ==> text::contains(b.index_line, link)
            &&& pending.len() > 0 && !(exists|k: int|
                0 <= k < pending.len() && text::contains(#[trigger] pending[k], link))
                ==> b.index_line == pending[0]
        }),
{
    frontmatter::lemma_rule_at(ls, i + 1, close);
    frontmatter::lemma_rule_at(ls, close + 1, end);
    let rest = ls.subrange(close + 1, end);
    lemma_blanks_are_cut(body, tail);
    let front = ls.subrange(i + 1, close);
    let name = frontmatter::field_value(front, "name:"@);
    lemma_first_linking(pending, name, 0);
    let k = chosen_entry(pending, name);
    let all = blocks_at(ls, i, pending);
    let left = if pending.len() > 0 {
        pending.remove(k)
    } else {
        pending
    };
    let later = blocks_at(ls, end, left);
    assert(all.skip(1) =~= later);
    assert(link_target(name) =~= "("@ + text::sanitized(name) + ".md"@ + ")"@);
    if pending.len() > 0 {
        assert(pending[k] == all[0].index_line);
    }
}

/// One line more that is offered to the index is put at its end, ended by a line feed, unless it stands there already.
pub proof fn lines_are_added_at_the_end(index: Seq<char>, ls: Seq<Seq<char>>, line: Seq<char>)
    ensures
        with_lines(index, Seq::empty()) == index,
        text::contains(with_lines(index, ls), line) ==> with_lines(index, ls.push(line))
            == with_lines(index, ls),
        !text::contains(with_lines(index, ls), line) ==> with_lines(index, ls.push(line))
            == with_lines(index, ls) + line + seq!['\n'],
{
    reveal_strlit("\n");
    assert("\n"@ =~= seq!['\n']);
    assert(ls.push(line).drop_last() =~= ls);
}

/// The index file stays as it is where nothing is new to it; otherwise a last line without a line feed gets one before
/// the new lines come.
pub proof fn the_index_is_changed_only_for_new_lines(existing: Seq<char>, ls: Seq<Seq<char>>)
    ensures
        (forall|i: int| 0 <= i < ls.len() ==> text::contains(existing, #[trigger] ls[i])) && (
        existing.len() == 0 || existing.last() == '\n') ==> new_index(existing, ls) is None,
        new_index(existing, ls) matches Some(after) ==> after == with_lines(
            if existing.len() == 0 || existing.last() == '\n' {
                existing
            } else {
                existing.push('\n')
            },
            ls,
        ),
{
    reveal_strlit("\n");
    assert(existing + "\n"@ =~= existing.push('\n'));
    if forall|i: int| 0 <= i < ls.len() ==> text::contains(existing, #[trigger] ls[i]) {
        lemma_nothing_new(existing, ls);
    }
}

/// A bare reply is read from its first rule on, with the index entries before it waiting, in order; a reply without a
/// rule holds no block.
pub proof fn replies_are_read_from_the_first_rule(raw: Seq<char>, first: int)
    requires
        !text::starts_with(text::trim(raw), "```markdown\n"@),
        !text::starts_with(text::trim(raw), "```\n"@),
        0 <= first <= text::lines(text::trim(raw)).len(),
        forall|k: int|
            0 <= k < first ==> !frontmatter::is_rule(#[trigger] text::lines(text::trim(raw))[k]),
        first < text::lines(text::trim(raw)).len() ==> frontmatter::is_rule(
            text::lines(text::trim(raw))[first],
        ),
    ensures
        ({
            let ls = text::lines(text::trim(raw));
            &&& first < ls.len() ==> extraction_blocks(raw) == blocks_at(
                ls,
                first,
                index_lines(ls.take(first)),
            )
            &&& first == ls.len() ==> extraction_blocks(raw).len() == 0
        }),
        forall|before: Seq<Seq<char>>, line: Seq<char>| #[trigger]
            index_lines(before.push(line)) == (if text::starts_with(text::trim(line), "- ["@)
                && text::contains(text::trim(line), "]("@) {
                index_lines(before).push(text::trim(line))
            } else {
                index_lines(before)
            }),
        index_lines(Seq::empty()).len() == 0,
{
    bare_replies_are_read_whole(raw);
    let ls = text::lines(text::trim(raw));
    frontmatter::lemma_rule_at(ls, 0, first);
    assert(ls.subrange(0, first) =~= ls.take(first));
    assert forall|before: Seq<Seq<char>>, line: Seq<char>| #[trigger]
        index_lines(before.push(line)) == (if text::starts_with(text::trim(line), "- ["@)
            && text::contains(text::trim(line), "]("@) {
            index_lines(before).push(text::trim(line))
        } else {
            index_lines(before)
        }) by {
        assert(before.push(line).drop_last() =~= before);
    }
}

/// An extraction is asked for with the number of new messages in its place and the messages themselves behind it.
pub proof fn extractions_are_asked_for_with_their_count(count: u32, summary: Seq<char>)
    ensures
        extract_messages(count, summary).len() == 2,
        extract_messages(count, summary)[0].role == "system"@,
        extract_messages(count, summary)[1].role == "user"@,
        extract_messages(count, summary)[0].content == text::replace(
            TIER2_EXTRACT_PROMPT@,
            "{{new_message_count}}"@,
            text::decimal(count as nat),
        ),
        text::starts_with(
            extract_messages(count, summary)[1].content,
            "Recent messages (compacted):\n\n"@,
        ),
        text::ends_with(extract_messages(count, summary)[1].content, summary),
        extract_messages(count, summary)[1].content.len() == "Recent messages (compacted):\n\n"@.len()
            + summary.len(),
{
    let head = "Recent messages (compacted):\n\n"@;
    let s = head + summary;
    assert(s.subrange(0, head.len() as int) =~= head);
    assert(s.subrange(s.len() - summary.len(), s.len() as int) =~= summary);
}

/// An extraction is asked for on its own behalf, with what the input says of the model, and with as many messages as the
/// tier gate gave out.
pub proof fn extractions_are_asked_for_as_given(
    q: LlmCallRequestPayload,
    req_id: Seq<char>,
    input: ExtractProcessInput,
    manifest: Seq<char>,
)
    requires
        is_extract_request(q, req_id, input, manifest),
    ensures
        q.req_id@ == req_id,
        q.tier == MemoryTier::Extract,
        q.phase is None,
        q.model_hint == input.model_hint,
        q.params == input.params,
        tier::message_views(q.messages@) == with_manifest(
            tier::message_views(input.gate_payload.messages@),
            manifest,
        ),
{
}

/// What a call used is passed on as it was counted.
pub proof fn usage_is_passed_on(u: Option<LlmUsageWire>)
    ensures
        usage_wire(u) is Some <==> u is Some,
        u matches Some(w) ==> usage_wire(u)->0.input_tokens == w.input_tokens && usage_wire(
            u,
        )->0.output_tokens == w.output_tokens,
{
}

/// A session is as it was last left; one that was never heard of has counted no turns and has no extraction under way.
pub proof fn unknown_sessions_start_afresh(
    sessions: Map<Seq<char>, Tier2SessionState>,
    key: Seq<char>,
    state: Tier2SessionState,
)
    ensures
        session_in(sessions.insert(key, state), key) == state,
        session_in(sessions.remove(key), key).turns_since_last_extraction == 0,
        !session_in(sessions.remove(key), key).extraction_in_progress,
        session_in(sessions.remove(key), key).extraction_started_at_ms == 0,
{
}

/// Of the entries that wait, the first one that links to the file of a block is taken, and the first of all where none
/// does.
pub proof fn the_first_linking_entry_is_taken(pending: Seq<Seq<char>>, name: Seq<char>, k: int)
    requires
        0 <= k <= pending.len(),
        forall|m: int|
            0 <= m < k ==> !text::contains(
                #[trigger] pending[m],
                "("@ + text::sanitized(name) + ".md"@ + ")"@,
            ),
        k < pending.len() ==> text::contains(
            pending[k],
            "("@ + text::sanitized(name) + ".md"@ + ")"@,
        ),
    ensures
        k < pending.len() ==> chosen_entry(pending, name) == k,
        k == pending.len() ==> chosen_entry(pending, name) == 0,
{
    assert(link_target(name) =~= "("@ + text::sanitized(name) + ".md"@ + ")"@);
    lemma_first_linking(pending, name, 0);
    let f = first_linking(pending, name, 0);
    if f < k {
        assert(!text::contains(pending[f], link_target(name)));
    }
}

/// The entries of an index come in the order of their lines, trimmed; a line that is none is passed over.
pub proof fn index_entries_come_in_order(ls: Seq<Seq<char>>, line: Seq<char>)
    ensures
        index_lines(Seq::empty()).len() == 0,
        index_lines(ls.push(line)) == (if text::starts_with(text::trim(line), "- ["@)
            && text::contains(text::trim(line), "]("@) {
            index_lines(ls).push(text::trim(line))
        } else {
            index_lines(ls)
        }),
{
    assert(ls.push(line).drop_last() =~= ls);
}

/// What changes for one session changes for no other.
pub proof fn other_sessions_stay(a: ExtractGate, b: ExtractGate, key: Seq<char>, other: Seq<char>)
    requires
        a.same_but(b, key),
        other != key,
    ensures
        a.session(other) == b.session(other),
{
}

} // verus!
