//! Evidence for a hypothesis: the tool calls that gather it, and the forms in which it is shown.

use vstd::prelude::*;
use vstd::string::StringExecFns;
use crate::json;
use crate::json::{Json, JsonView};
use crate::path;
use crate::text;
use crate::tier::MemoryTier;

verus! {

/// How many characters of a piece of evidence are shown.
pub const EVIDENCE_CONTENT_MAX_CHARS: usize = 1_200;

/// How many files a hypothesis may ask for.
pub const WATCH_MAX_READFILE_PROBES: usize = 2;

/// How long the result of a tool call is waited for.
pub const TOOL_CALL_TIMEOUT_MS: u64 = 60_000;

/// A speculative insight, the claims that it breaks down into, and what is quoted for it.
#[derive(Debug, Clone)]
pub struct ImaginationHypothesis {
    pub statement: String,
    pub atoms: Vec<String>,
    pub evidence_refs: Vec<ImaginationEvidenceRef>,
    pub context: String,
}

/// A quotation and where it comes from.
#[derive(Debug, Clone)]
pub struct ImaginationEvidenceRef {
    pub id: String,
    pub snippet: String,
}

pub struct RefView {
    pub id: Seq<char>,
    pub snippet: Seq<char>,
}

impl View for ImaginationEvidenceRef {
    type V = RefView;

    open spec fn view(&self) -> RefView {
        RefView { id: self.id@, snippet: self.snippet@ }
    }
}

pub open spec fn ref_views(v: Seq<ImaginationEvidenceRef>) -> Seq<RefView> {
    Seq::new(v.len(), |i: int| v[i]@)
}

/// A copy of the given quotations.
pub fn cloned_refs(refs: &Vec<ImaginationEvidenceRef>) -> (r: Vec<ImaginationEvidenceRef>)
    ensures
        ref_views(r@) == ref_views(refs@),
{
    let ghost all = ref_views(refs@);
    let mut out: Vec<ImaginationEvidenceRef> = Vec::new();
    let mut i: usize = 0;
    while i < refs.len()
        invariant
            i <= refs@.len(),
            all == ref_views(refs@),
            ref_views(out@) == all.take(i as int),
        decreases refs@.len() - i,
    {
        let ghost before = out@;
        let e = ImaginationEvidenceRef {
            id: refs[i].id.clone(),
            snippet: refs[i].snippet.clone(),
        };
        out.push(e);
        proof {
            assert(e@ == all[i as int]);
            assert(ref_views(out@) =~= ref_views(before).push(e@));
            assert(all.take(i + 1) =~= all.take(i as int).push(all[i as int]));
        }
        i = i + 1;
    }
    assert(all.take(all.len() as int) =~= all);
    out
}

pub struct HypothesisView {
    pub statement: Seq<char>,
    pub atoms: Seq<Seq<char>>,
    pub evidence_refs: Seq<RefView>,
    pub context: Seq<char>,
}

impl View for ImaginationHypothesis {
    type V = HypothesisView;

    open spec fn view(&self) -> HypothesisView {
        HypothesisView {
            statement: self.statement@,
            atoms: text::views(self.atoms@),
            evidence_refs: ref_views(self.evidence_refs@),
            context: self.context@,
        }
    }
}

pub open spec fn hypothesis_views(v: Seq<ImaginationHypothesis>) -> Seq<HypothesisView> {
    Seq::new(v.len(), |i: int| v[i]@)
}

/// What a tool call does.
#[derive(Debug, Clone, Copy, PartialEq, Eq, Hash, Structural)]
pub enum ToolKind {
    WebSearch,
    WebFetch,
    ReadFile,
    ListDir,
}

/// A tool call. A search has a query, a fetch a URL, the others an identifier, a path and the root that
/// the path stays under.
#[derive(Debug, Clone)]
pub struct ToolCall {
    pub kind: ToolKind,
    pub query: Option<String>,
    pub url: Option<String>,
    pub id: Option<String>,
    pub path: Option<String>,
    pub root: Option<String>,
}

pub struct ToolCallView {
    pub kind: ToolKind,
    pub query: Option<Seq<char>>,
    pub url: Option<Seq<char>>,
    pub id: Option<Seq<char>>,
    pub path: Option<Seq<char>>,
    pub root: Option<Seq<char>>,
}

impl View for ToolCall {
    type V = ToolCallView;

    open spec fn view(&self) -> ToolCallView {
        ToolCallView {
            kind: self.kind,
            query: text::opt_view(self.query),
            url: text::opt_view(self.url),
            id: text::opt_view(self.id),
            path: text::opt_view(self.path),
            root: text::opt_view(self.root),
        }
    }
}

pub open spec fn call_views(v: Seq<ToolCall>) -> Seq<ToolCallView> {
    Seq::new(v.len(), |i: int| v[i]@)
}

/// A batch of tool calls to be made.
#[derive(Debug, Clone)]
pub struct ToolCallRequestPayload {
    pub req_id: String,
    pub tier: MemoryTier,
    pub calls: Vec<ToolCall>,
}

/// A piece of evidence that a tool brought.
#[derive(Debug, Clone)]
pub struct ToolEvidence {
    pub source_url: String,
    pub fetched_at_ms: u64,
    pub content: String,
    pub title: Option<String>,
}

pub struct ToolEvidenceView {
    pub source_url: Seq<char>,
    pub fetched_at_ms: u64,
    pub content: Seq<char>,
    pub title: Option<Seq<char>>,
}

impl View for ToolEvidence {
    type V = ToolEvidenceView;

    open spec fn view(&self) -> ToolEvidenceView {
        ToolEvidenceView {
            source_url: self.source_url@,
            fetched_at_ms: self.fetched_at_ms,
            content: self.content@,
            title: text::opt_view(self.title),
        }
    }
}

pub open spec fn tool_evidence_views(v: Seq<ToolEvidence>) -> Seq<ToolEvidenceView> {
    Seq::new(v.len(), |i: int| v[i]@)
}

/// What came of a batch of tool calls.
#[derive(Debug, Clone)]
pub struct ToolCallResultPayload {
    pub req_id: String,
    pub evidence: Vec<ToolEvidence>,
    pub error: Option<String>,
}

/// A watched tree that a hypothesis is about.
#[derive(Debug, Clone)]
pub struct WatchContext {
    pub root: String,
    pub focus: Option<String>,
}

// ---------------------------------------------------------------------------
// File names in a statement
// ---------------------------------------------------------------------------

/// Whether a character separates the words of a statement.
pub open spec fn is_separator(c: char) -> bool {
    text::is_white(c) || c == '，' || c == '。' || c == '、' || c == '（' || c == '）' || c == '('
        || c == ')' || c == '[' || c == ']' || c == '`' || c == '"' || c == '\'' || c == ',' || c == ';'
        || c == ':' || c == '<' || c == '>'
}

/// Whether a character is punctuation that is trimmed off the ends of a word.
pub open spec fn is_mark(c: char) -> bool {
    c == '.' || c == '!' || c == '?' || c == '。' || c == '！' || c == '？'
}

/// The end of the word that begins at `i`.
pub open spec fn word_end(s: Seq<char>, i: int) -> int
    decreases s.len() - i,
{
    if i < 0 || i >= s.len() {
        s.len() as int
    } else if is_separator(s[i]) {
        i
    } else {
        word_end(s, i + 1)
    }
}

/// The words of a statement from `i` on: what stands between separators.
pub open spec fn words_from(s: Seq<char>, i: int) -> Seq<Seq<char>>
    decreases s.len() - i,
    via words_from_decreases
{
    if i < 0 || i > s.len() {
        Seq::empty()
    } else {
        let j = word_end(s, i);
        if j >= s.len() {
            seq![s.subrange(i, s.len() as int)]
        } else {
            seq![s.subrange(i, j)] + words_from(s, j + 1)
        }
    }
}

#[via_fn]
proof fn words_from_decreases(s: Seq<char>, i: int) {
    lemma_word_end(s, i);
}

proof fn lemma_word_end(s: Seq<char>, i: int)
    ensures
        0 <= i <= s.len() ==> i <= word_end(s, i) <= s.len(),
    decreases s.len() - i,
{
    if 0 <= i < s.len() && !is_separator(s[i]) {
        lemma_word_end(s, i + 1);
    }
}

pub open spec fn without_leading_marks(s: Seq<char>) -> Seq<char>
    decreases s.len(),
{
    if s.len() > 0 && is_mark(s[0]) {
        without_leading_marks(s.subrange(1, s.len() as int))
    } else {
        s
    }
}

pub open spec fn without_trailing_marks(s: Seq<char>) -> Seq<char>
    decreases s.len(),
{
    if s.len() > 0 && is_mark(s.last()) {
        without_trailing_marks(s.drop_last())
    } else {
        s
    }
}

/// A word without punctuation at its ends.
pub open spec fn bare_word(s: Seq<char>) -> Seq<char> {
    without_trailing_marks(without_leading_marks(s))
}

/// Whether a text can be a file name extension: one to eight ASCII letters or digits.
pub open spec fn is_extension(s: Seq<char>) -> bool {
    0 < s.len() <= 8 && forall|i: int| 0 <= i < s.len() ==> text::is_ascii_alnum(#[trigger] s[i])
}

/// A path with `/` for every backslash.
pub open spec fn slashed(s: Seq<char>) -> Seq<char> {
    Seq::new(s.len(), |i: int| if s[i] == '\\' { '/' } else { s[i] })
}

/// Whether a path is relative and clean: no URL, no empty and no parent component.
pub open spec fn is_inside(s: Seq<char>) -> bool {
    &&& !text::starts_with(s, "/"@)
    &&& !text::contains(s, "://"@)
    &&& forall|i: int|
        0 <= i < text::split(s, '/').len() ==> (#[trigger] text::split(s, '/')[i]).len() > 0
            && text::split(s, '/')[i] != ".."@
}

/// The file name that a word of a statement is: a relative path with an extension.
pub open spec fn file_name_in(word: Seq<char>) -> Option<Seq<char>> {
    let token = bare_word(word);
    match text::rsplit_once(token, "."@) {
        Some(p) => if is_extension(p.1) && is_inside(slashed(token)) && !(token.len() > 1
            && token[1] == ':') {
            Some(slashed(token))
        } else {
            None
        },
        None => None,
    }
}

/// The file names among the words, in order, each once.
pub open spec fn file_names_in(words: Seq<Seq<char>>) -> Seq<Seq<char>>
    decreases words.len(),
{
    if words.len() == 0 {
        Seq::empty()
    } else {
        let rest = file_names_in(words.drop_last());
        match file_name_in(words.last()) {
            Some(f) => if rest.contains(f) {
                rest
            } else {
                rest.push(f)
            },
            None => rest,
        }
    }
}

/// The file names in a statement.
pub open spec fn statement_filenames(statement: Seq<char>) -> Seq<Seq<char>> {
    file_names_in(words_from(statement, 0))
}

proof fn lemma_leading(s: Seq<char>, i: int)
    requires
        0 <= i <= s.len(),
        forall|k: int| 0 <= k < i ==> is_mark(s[k]),
        i < s.len() ==> !is_mark(s[i]),
    ensures
        without_leading_marks(s) == s.subrange(i, s.len() as int),
    decreases i,
{
    if i == 0 {
        assert(s.subrange(0, s.len() as int) == s);
    } else {
        let t = s.subrange(1, s.len() as int);
        lemma_leading(t, i - 1);
        assert(t.subrange(i - 1, t.len() as int) == s.subrange(i, s.len() as int));
    }
}

proof fn lemma_trailing(s: Seq<char>, i: int)
    requires
        0 <= i <= s.len(),
        forall|k: int| i <= k < s.len() ==> is_mark(s[k]),
        i > 0 ==> !is_mark(s[i - 1]),
    ensures
        without_trailing_marks(s) == s.subrange(0, i),
    decreases s.len() - i,
{
    if i == s.len() {
        assert(s.subrange(0, i) == s);
    } else {
        lemma_trailing(s.drop_last(), i);
        assert(s.drop_last().subrange(0, i) == s.subrange(0, i));
    }
}

/// Every file name that is derived from a statement is relative and clean, and none comes twice.
pub proof fn derived_names_stay_inside(words: Seq<Seq<char>>)
    ensures
        forall|i: int|
            0 <= i < file_names_in(words).len() ==> is_inside(#[trigger] file_names_in(words)[i]),
        forall|i: int, j: int|
            0 <= i < j < file_names_in(words).len() ==> #[trigger] file_names_in(words)[i]
                != #[trigger] file_names_in(words)[j],
    decreases words.len(),
{
    if words.len() > 0 {
        derived_names_stay_inside(words.drop_last());
        let rest = file_names_in(words.drop_last());
        if let Some(f) = file_name_in(words.last()) {
            if !rest.contains(f) {
                assert(file_names_in(words) == rest.push(f));
                assert forall|i: int| 0 <= i < rest.len() implies rest[i] != f by {
                    if rest[i] == f {
                        assert(rest.contains(f));
                    }
                }
            }
        }
    }
}

fn separator(c: char) -> (r: bool)
    ensures
        r == is_separator(c),
{
    text::is_white_char(c) || c == '，' || c == '。' || c == '、' || c == '（' || c == '）' || c == '('
        || c == ')' || c == '[' || c == ']' || c == '`' || c == '"' || c == '\'' || c == ',' || c == ';'
        || c == ':' || c == '<' || c == '>'
}

fn mark(c: char) -> (r: bool)
    ensures
        r == is_mark(c),
{
    c == '.' || c == '!' || c == '?' || c == '。' || c == '！' || c == '？'
}

fn words_of(s: &str) -> (r: Vec<String>)
    ensures
        text::views(r@) == words_from(s@, 0),
{
    let v = text::chars_of(s);
    let mut out: Vec<String> = Vec::new();
    let mut i: usize = 0;
    loop
        invariant
            v@ == s@,
            i <= v@.len(),
            text::views(out@) + words_from(s@, i as int) == words_from(s@, 0),
        decreases v@.len() - i,
    {
        let mut j: usize = i;
        while j < v.len() && !separator(v[j])
            invariant
                v@ == s@,
                i <= j <= v@.len(),
                word_end(s@, i as int) == word_end(s@, j as int),
            decreases v@.len() - j,
        {
            j = j + 1;
        }
        let ghost before = out@;
        let piece = text::string_of(&v, i, j);
        out.push(piece);
        proof {
            text::lemma_views_push(before, piece);
        }
        if j >= v.len() {
            assert(text::views(before) + seq![piece@] =~= text::views(out@));
            return out;
        }
        proof {
            assert(text::views(before) + (seq![piece@] + words_from(s@, j + 1)) =~= text::views(
                out@,
            ) + words_from(s@, j + 1));
        }
        i = j + 1;
    }
}

fn bare(s: &str) -> (r: String)
    ensures
        r@ == bare_word(s@),
{
    let v = text::chars_of(s);
    let mut from: usize = 0;
    while from < v.len() && mark(v[from])
        invariant
            from <= v@.len(),
            forall|k: int| 0 <= k < from ==> is_mark(v@[k]),
        decreases v@.len() - from,
    {
        from = from + 1;
    }
    let mut to: usize = v.len();
    while to > from && mark(v[to - 1])
        invariant
            from <= to <= v@.len(),
            forall|k: int| to <= k < v@.len() ==> is_mark(v@[k]),
        decreases to,
    {
        to = to - 1;
    }
    proof {
        lemma_leading(v@, from as int);
        let t = v@.subrange(from as int, v@.len() as int);
        lemma_trailing(t, to - from);
        assert(t.subrange(0, to - from) == v@.subrange(from as int, to as int));
    }
    text::string_of(&v, from, to)
}

fn extension(s: &str) -> (r: bool)
    ensures
        r == is_extension(s@),
{
    let v = text::chars_of(s);
    if v.len() == 0 || v.len() > 8 {
        return false;
    }
    let mut i: usize = 0;
    while i < v.len()
        invariant
            v@ == s@,
            i <= v@.len(),
            forall|k: int| 0 <= k < i ==> text::is_ascii_alnum(#[trigger] s@[k]),
        decreases v@.len() - i,
    {
        if !text::is_alnum(v[i]) {
            assert(!text::is_ascii_alnum(s@[i as int]));
            return false;
        }
        i = i + 1;
    }
    true
}

fn with_slashes(s: &str) -> (r: String)
    ensures
        r@ == slashed(s@),
{
    let v = text::chars_of(s);
    let mut out = String::new();
    let mut i: usize = 0;
    while i < v.len()
        invariant
            v@ == s@,
            i <= v@.len(),
            out@ == slashed(s@).take(i as int),
        decreases v@.len() - i,
    {
        out.push(if v[i] == '\\' { '/' } else { v[i] });
        i = i + 1;
        assert(out@ =~= slashed(s@).take(i as int));
    }
    assert(slashed(s@).take(s@.len() as int) =~= slashed(s@));
    out
}

fn inside(s: &str) -> (r: bool)
    ensures
        r == is_inside(s@),
{
    if text::has_prefix(s, "/") || text::has(s, "://") {
        return false;
    }
    let parts = text::pieces_of(s, '/');
    let ghost all = text::split(s@, '/');
    let mut i: usize = 0;
    while i < parts.len()
        invariant
            i <= parts@.len(),
            all == text::views(parts@),
            all == text::split(s@, '/'),
            forall|k: int| 0 <= k < i ==> (#[trigger] all[k]).len() > 0 && all[k] != ".."@,
        decreases parts@.len() - i,
    {
        if parts[i].as_str().is_empty() || text::same(parts[i].as_str(), "..") {
            assert(all[i as int].len() == 0 || all[i as int] == ".."@);
            return false;
        }
        i = i + 1;
    }
    true
}

fn file_name_of(word: &str) -> (r: Option<String>)
    ensures
        text::opt_view(r) == file_name_in(word@),
{
    let token = bare(word);
    match text::cut_last(token.as_str(), ".") {
        Some(p) => {
            let name = with_slashes(token.as_str());
            let v = text::chars_of(token.as_str());
            let drive = v.len() > 1 && v[1] == ':';
            if extension(p.1.as_str()) && inside(name.as_str()) && !drive {
                Some(name)
            } else {
                None
            }
        },
        None => None,
    }
}

fn listed(names: &Vec<String>, name: &str) -> (r: bool)
    ensures
        r == text::views(names@).contains(name@),
{
    let ghost all = text::views(names@);
    let mut i: usize = 0;
    while i < names.len()
        invariant
            i <= names@.len(),
            all == text::views(names@),
            forall|k: int| 0 <= k < i ==> #[trigger] all[k] != name@,
        decreases names@.len() - i,
    {
        if text::same(names[i].as_str(), name) {
            assert(all[i as int] == name@);
            return true;
        }
        i = i + 1;
    }
    false
}

/// The file names in a statement, in order of appearance, each once. See [`statement_filenames`].
pub fn derive_statement_filenames(statement: &str) -> (r: Vec<String>)
    ensures
        text::views(r@) == statement_filenames(statement@),
{
    let words = words_of(statement);
    let ghost all = words_from(statement@, 0);
    let mut out: Vec<String> = Vec::new();
    assert(text::views(out@) =~= Seq::empty());
    let mut i: usize = 0;
    while i < words.len()
        invariant
            i <= words@.len(),
            all == text::views(words@),
            text::views(out@) == file_names_in(all.take(i as int)),
        decreases words@.len() - i,
    {
        proof {
            assert(all.take(i + 1).drop_last() =~= all.take(i as int));
            assert(all.take(i + 1).last() == words@[i as int]@);
        }
        if let Some(name) = file_name_of(words[i].as_str()) {
            if !listed(&out, name.as_str()) {
                proof {
                    text::lemma_views_push(out@, name);
                }
                out.push(name);
            }
        }
        i = i + 1;
    }
    assert(all.take(all.len() as int) =~= all);
    out
}

// ---------------------------------------------------------------------------
// Tool calls
// ---------------------------------------------------------------------------

pub open spec fn no_call(kind: ToolKind) -> ToolCallView {
    ToolCallView { kind, query: None, url: None, id: None, path: None, root: None }
}

/// The search for a hypothesis: one query with its statement, none where it is blank.
pub open spec fn evidence_queries(statement: Seq<char>) -> Seq<ToolCallView> {
    if text::is_blank(statement) {
        Seq::empty()
    } else {
        seq![
            ToolCallView { query: Some(text::trim(statement)), ..no_call(ToolKind::WebSearch) },
        ]
    }
}

/// See [`evidence_queries`].
pub fn derive_evidence_queries(hypothesis: &ImaginationHypothesis) -> (r: Vec<ToolCall>)
    ensures
        call_views(r@) == evidence_queries(hypothesis@.statement),
{
    let statement = text::trimmed(hypothesis.statement.as_str());
    let mut out: Vec<ToolCall> = Vec::new();
    if statement.as_str().is_empty() {
        assert(call_views(out@) =~= Seq::empty());
        return out;
    }
    out.push(
        ToolCall {
            kind: ToolKind::WebSearch,
            query: Some(statement),
            url: None,
            id: None,
            path: None,
            root: None,
        },
    );
    assert(call_views(out@) =~= evidence_queries(hypothesis@.statement));
    out
}

/// The listing of a watched root.
pub open spec fn list_call(root: Seq<char>) -> ToolCallView {
    ToolCallView {
        id: Some("watch-listdir-1"@),
        path: Some(root),
        root: Some(root),
        ..no_call(ToolKind::ListDir)
    }
}

/// The reading of the `n`-th file under a watched root.
pub open spec fn read_call(root: Seq<char>, name: Seq<char>, n: int) -> ToolCallView {
    ToolCallView {
        id: Some("watch-readfile-"@ + text::decimal(n as nat)),
        path: Some(path::under(root, name)),
        root: Some(root),
        ..no_call(ToolKind::ReadFile)
    }
}

/// The probes of a watched tree: one listing of its root, and the first files that the statement names.
pub open spec fn watch_calls(statement: Seq<char>, root: Seq<char>) -> Seq<ToolCallView> {
    let names = statement_filenames(statement);
    let n = if names.len() > WATCH_MAX_READFILE_PROBES {
        WATCH_MAX_READFILE_PROBES as nat
    } else {
        names.len()
    };
    seq![list_call(root)] + Seq::new(n, |i: int| read_call(root, names[i], i + 1))
}

/// See [`watch_calls`].
pub fn derive_watch_calls(hypothesis_statement: &str, watch: &WatchContext) -> (r: Vec<ToolCall>)
    ensures
        call_views(r@) == watch_calls(hypothesis_statement@, watch.root@),
{
    let names = derive_statement_filenames(hypothesis_statement);
    let ghost all = watch_calls(hypothesis_statement@, watch.root@);
    let ghost ns = statement_filenames(hypothesis_statement@);
    let n: usize = if names.len() > WATCH_MAX_READFILE_PROBES {
        WATCH_MAX_READFILE_PROBES
    } else {
        names.len()
    };
    assert(ns.len() == names@.len());
    let mut out: Vec<ToolCall> = Vec::new();
    out.push(
        ToolCall {
            kind: ToolKind::ListDir,
            query: None,
            url: None,
            id: Some("watch-listdir-1".to_owned()),
            path: Some(watch.root.clone()),
            root: Some(watch.root.clone()),
        },
    );
    assert(call_views(out@) =~= all.take(1));
    let mut i: usize = 0;
    while i < n
        invariant
            i <= n <= names@.len(),
            n <= WATCH_MAX_READFILE_PROBES,
            ns == text::views(names@),
            all == watch_calls(hypothesis_statement@, watch.root@),
            ns == statement_filenames(hypothesis_statement@),
            all.len() == n + 1,
            call_views(out@) == all.take(i + 1),
        decreases n - i,
    {
        let mut id = "watch-readfile-".to_owned();
        let number = text::decimal_of((i + 1) as u64);
        id.append(number.as_str());
        let target = path::child(watch.root.as_str(), names[i].as_str());
        let ghost before = out@;
        let c = ToolCall {
            kind: ToolKind::ReadFile,
            query: None,
            url: None,
            id: Some(id),
            path: Some(target),
            root: Some(watch.root.clone()),
        };
        out.push(c);
        proof {
            assert(ns[i as int] == names@[i as int]@);
            assert(c@ == all[i + 1]);
            assert(call_views(out@) =~= call_views(before).push(c@));
            assert(all.take(i + 2) =~= all.take(i + 1).push(all[i + 1]));
        }
        i = i + 1;
    }
    assert(all.take(n + 1) =~= all);
    out
}

/// The calls that gather evidence: the given queries, and the probes of the watched tree if there is
/// one.
pub open spec fn gather_calls(
    statement: Seq<char>,
    queries: Seq<ToolCallView>,
    watch: Option<WatchContext>,
) -> Seq<ToolCallView> {
    match watch {
        Some(w) => queries + watch_calls(statement, w.root@),
        None => queries,
    }
}

/// A watched tree is listed once and read at most twice; every probe names the root, and every file that
/// is read stands below it.
pub proof fn probes_are_few_and_rooted(statement: Seq<char>, root: Seq<char>)
    ensures
        1 <= watch_calls(statement, root).len() <= 1 + WATCH_MAX_READFILE_PROBES,
        forall|i: int|
            0 <= i < watch_calls(statement, root).len() ==> (#[trigger] watch_calls(
                statement,
                root,
            )[i]).root == Some(root),
        watch_calls(statement, root)[0].kind == ToolKind::ListDir,
        forall|i: int|
            1 <= i < watch_calls(statement, root).len() ==> {
                let name = statement_filenames(statement)[i - 1];
                let call = #[trigger] watch_calls(statement, root)[i];
                call.kind == ToolKind::ReadFile && is_inside(name) && call.path == Some(
                    path::under(root, name),
                )
            },
{
    derived_names_stay_inside(words_from(statement, 0));
}

/// See [`gather_calls`]. Without any call there is nothing to ask for.
pub fn calls_to_gather(
    hypothesis_statement: &str,
    queries: Vec<ToolCall>,
    watch: &Option<WatchContext>,
) -> (r: Vec<ToolCall>)
    ensures
        call_views(r@) == gather_calls(hypothesis_statement@, call_views(queries@), *watch),
{
    let ghost first = call_views(queries@);
    let mut calls = queries;
    if let Some(w) = watch {
        let mut probes = derive_watch_calls(hypothesis_statement, w);
        let ghost more = call_views(probes@);
        calls.append(&mut probes);
        assert(call_views(calls@) =~= first + more);
    }
    calls
}

// ---------------------------------------------------------------------------
// Listings
// ---------------------------------------------------------------------------

/// Whether a JSON value has the form of a listing: an object of `entries`, which are all texts, and
/// possibly of `truncated`, which is a truth value.
pub open spec fn is_listing(v: JsonView) -> bool {
    &&& v matches JsonView::Object(members) && forall|i: int|
        0 <= i < members.len() ==> {
            (#[trigger] members[i]).0 == "entries"@ || members[i].0 == "truncated"@
        }
    &&& json::as_items(json::member(v, "entries"@)) matches Some(items) && forall|i: int|
        0 <= i < items.len() ==> (#[trigger] items[i]) is Str
    &&& json::member(v, "truncated"@) matches Some(t) ==> t is Bool
}

/// The listing that a JSON value of that form stands for, one name per line.
pub open spec fn listing_in(v: JsonView) -> Option<Seq<char>> {
    if is_listing(v) {
        let names = json::texts_of(json::member(v, "entries"@));
        let body = if names.len() == 0 {
            "(empty directory)"@
        } else {
            text::join(names, "\n"@)
        };
        if json::is_true(json::member(v, "truncated"@)) {
            Some(body + "\n…（清单被截断）"@)
        } else {
            Some(body)
        }
    } else {
        None
    }
}

/// The content of a piece of evidence as it is shown: a listing in place of its JSON form, anything else
/// as it is.
pub open spec fn decoded(content: Seq<char>) -> Seq<char> {
    let t = text::trim(content);
    if !text::starts_with(t, "{"@) {
        content
    } else {
        match json::json_of(t) {
            Some(v) => match listing_in(v) {
                Some(listing) => listing,
                None => content,
            },
            None => content,
        }
    }
}

pub open spec fn all_decoded(v: Seq<ToolEvidenceView>) -> Seq<ToolEvidenceView> {
    Seq::new(v.len(), |i: int| ToolEvidenceView { content: decoded(v[i].content), ..v[i] })
}

/// Whether an object has no members but `entries` and `truncated`.
fn has_listing_members(v: &Json) -> (r: bool)
    ensures
        r == (v@ matches JsonView::Object(members) && forall|i: int|
            0 <= i < members.len() ==> {
                (#[trigger] members[i]).0 == "entries"@ || members[i].0 == "truncated"@
            }),
{
    match v {
        Json::Object(members) => {
            let ghost views = v@->Object_0;
            let mut i: usize = 0;
            while i < members.len()
                invariant
                    i <= members@.len(),
                    *v == Json::Object(*members),
                    v@ == JsonView::Object(views),
                    views.len() == members@.len(),
                    forall|k: int|
                        0 <= k < i ==> {
                            (#[trigger] views[k]).0 == "entries"@ || views[k].0 == "truncated"@
                        },
                decreases members@.len() - i,
            {
                let m = &members[i];
                assert(views[i as int] == (m.0@, m.1@));
                if !text::same(m.0.as_str(), "entries") && !text::same(m.0.as_str(), "truncated") {
                    proof {
                        let members = v@->Object_0;
                        assert(members[i as int].0 != "entries"@);
                        assert(members[i as int].0 != "truncated"@);
                    }
                    return false;
                }
                i = i + 1;
            }
            true
        },
        _ => false,
    }
}

/// Whether there are items, and all of them are texts.
fn are_texts(v: Option<&Json>) -> (r: bool)
    ensures
        r == (json::as_items(json::opt_json_view(v)) matches Some(items) && forall|i: int|
            0 <= i < items.len() ==> (#[trigger] items[i]) is Str),
{
    let items = match v {
        Some(j) => match j.items() {
            Some(items) => items,
            None => {
                return false;
            },
        },
        None => {
            return false;
        },
    };
    let ghost views = json::item_views(items@);
    let mut i: usize = 0;
    while i < items.len()
        invariant
            i <= items@.len(),
            views == json::item_views(items@),
            json::as_items(json::opt_json_view(v)) == Some(views),
            forall|k: int| 0 <= k < i ==> (#[trigger] views[k]) is Str,
        decreases items@.len() - i,
    {
        assert(views[i as int] == items@[i as int]@);
        if items[i].text().is_none() {
            return false;
        }
        i = i + 1;
    }
    true
}

/// See [`listing_in`].
pub fn listing_of(v: &Json) -> (r: Option<String>)
    ensures
        text::opt_view(r) == listing_in(v@),
{
    let entries = v.get("entries");
    if !has_listing_members(v) || !are_texts(entries) {
        return None;
    }
    let truncated = match v.get("truncated") {
        Some(Json::Bool(b)) => *b,
        Some(_) => {
            return None;
        },
        None => false,
    };
    let names = json::texts(entries);
    assert(text::views(names@).len() == names@.len());
    let mut listing = if names.len() == 0 {
        "(empty directory)".to_owned()
    } else {
        text::joined(&names, "\n")
    };
    if truncated {
        listing.append("\n…（清单被截断）");
    }
    Some(listing)
}

fn decoded_of(content: &String) -> (r: String)
    ensures
        r@ == decoded(content@),
{
    let t = text::trimmed(content.as_str());
    if !text::has_prefix(t.as_str(), "{") {
        return content.clone();
    }
    match json::parse_json(t.as_str()) {
        Some(v) => match listing_of(&v) {
            Some(listing) => listing,
            None => content.clone(),
        },
        None => content.clone(),
    }
}

/// Puts listings in place of their JSON form. See [`decoded`].
pub fn decode_watch_listing_evidence(evidence: &Vec<ToolEvidence>) -> (r: Vec<ToolEvidence>)
    ensures
        tool_evidence_views(r@) == all_decoded(tool_evidence_views(evidence@)),
{
    let ghost all = all_decoded(tool_evidence_views(evidence@));
    let mut out: Vec<ToolEvidence> = Vec::new();
    let mut i: usize = 0;
    while i < evidence.len()
        invariant
            i <= evidence@.len(),
            all == all_decoded(tool_evidence_views(evidence@)),
            tool_evidence_views(out@) == all.take(i as int),
        decreases evidence@.len() - i,
    {
        let e = &evidence[i];
        let ghost before = out@;
        let d = ToolEvidence {
            source_url: e.source_url.clone(),
            fetched_at_ms: e.fetched_at_ms,
            content: decoded_of(&e.content),
            title: e.title.clone(),
        };
        out.push(d);
        proof {
            assert(d@ == all[i as int]);
            assert(tool_evidence_views(out@) =~= tool_evidence_views(before).push(d@));
            assert(all.take(i + 1) =~= all.take(i as int).push(all[i as int]));
        }
        i = i + 1;
    }
    assert(all.take(all.len() as int) =~= all);
    out
}

/// How waiting for the result of tool calls ended.
#[derive(Debug, Clone)]
pub enum ToolOutcome {
    Reply(ToolCallResultPayload),
    Elapsed,
    Closed,
}

/// The evidence that came of tool calls: none where no result came; listings decoded where a watched tree
/// was probed.
pub open spec fn gathered(outcome: ToolOutcome, watched: bool) -> Seq<ToolEvidenceView> {
    match outcome {
        ToolOutcome::Reply(result) => if watched {
            all_decoded(tool_evidence_views(result.evidence@))
        } else {
            tool_evidence_views(result.evidence@)
        },
        _ => Seq::empty(),
    }
}

/// See [`gathered`].
pub fn evidence_of_outcome(outcome: ToolOutcome, watched: bool) -> (r: Vec<ToolEvidence>)
    ensures
        tool_evidence_views(r@) == gathered(outcome, watched),
{
    match outcome {
        ToolOutcome::Reply(result) => if watched {
            decode_watch_listing_evidence(&result.evidence)
        } else {
            result.evidence
        },
        _ => {
            let out: Vec<ToolEvidence> = Vec::new();
            assert(tool_evidence_views(out@) =~= Seq::empty());
            out
        },
    }
}

// ---------------------------------------------------------------------------
// Showing evidence
// ---------------------------------------------------------------------------

/// A trimmed text, cut to the length that is shown.
pub open spec fn shown(content: Seq<char>) -> Seq<char> {
    let t = text::trim(content);
    if t.len() <= EVIDENCE_CONTENT_MAX_CHARS {
        t
    } else {
        t.subrange(0, EVIDENCE_CONTENT_MAX_CHARS as int) + " …"@
    }
}

/// See [`shown`].
pub fn truncate_content(content: &str) -> (r: String)
    ensures
        r@ == shown(content@),
{
    let t = text::trimmed(content);
    let v = text::chars_of(t.as_str());
    if v.len() <= EVIDENCE_CONTENT_MAX_CHARS {
        return t;
    }
    let mut out = text::string_of(&v, 0, EVIDENCE_CONTENT_MAX_CHARS);
    out.append(" …");
    out
}

/// Gathered evidence as quotations: the source, and what is shown of the content.
pub open spec fn as_refs(v: Seq<ToolEvidenceView>) -> Seq<RefView> {
    Seq::new(v.len(), |i: int| RefView { id: v[i].source_url, snippet: shown(v[i].content) })
}

/// See [`as_refs`].
pub fn external_evidence_to_refs(evidence: &Vec<ToolEvidence>) -> (r: Vec<ImaginationEvidenceRef>)
    ensures
        ref_views(r@) == as_refs(tool_evidence_views(evidence@)),
{
    let ghost all = as_refs(tool_evidence_views(evidence@));
    let mut out: Vec<ImaginationEvidenceRef> = Vec::new();
    let mut i: usize = 0;
    while i < evidence.len()
        invariant
            i <= evidence@.len(),
            all == as_refs(tool_evidence_views(evidence@)),
            ref_views(out@) == all.take(i as int),
        decreases evidence@.len() - i,
    {
        let e = &evidence[i];
        let ghost before = out@;
        let q = ImaginationEvidenceRef {
            id: e.source_url.clone(),
            snippet: truncate_content(e.content.as_str()),
        };
        out.push(q);
        proof {
            assert(q@ == all[i as int]);
            assert(ref_views(out@) =~= ref_views(before).push(q@));
            assert(all.take(i + 1) =~= all.take(i as int).push(all[i as int]));
        }
        i = i + 1;
    }
    assert(all.take(all.len() as int) =~= all);
    out
}

/// The line of a piece of gathered evidence, its title in front where it has one.
pub open spec fn summary_line(e: ToolEvidenceView) -> Seq<char> {
    match e.title {
        Some(t) if !text::is_blank(t) => "- ["@ + e.source_url + "] "@ + text::trim(t) + ": "@
            + shown(e.content),
        _ => "- ["@ + e.source_url + "] "@ + shown(e.content),
    }
}

pub open spec fn summary_lines(v: Seq<ToolEvidenceView>) -> Seq<Seq<char>> {
    Seq::new(v.len(), |i: int| summary_line(v[i]))
}

fn summary_line_of(e: &ToolEvidence) -> (r: String)
    ensures
        r@ == summary_line(e@),
{
    let mut line = "- [".to_owned();
    line.append(e.source_url.as_str());
    line.append("] ");
    if let Some(t) = &e.title {
        if !text::blank(t.as_str()) {
            let title = text::trimmed(t.as_str());
            line.append(title.as_str());
            line.append(": ");
        }
    }
    let body = truncate_content(e.content.as_str());
    line.append(body.as_str());
    line
}

/// One line per piece of gathered evidence. See [`summary_line`].
pub fn format_external_evidence_summary(evidence: &Vec<ToolEvidence>) -> (r: String)
    ensures
        r@ == text::join(summary_lines(tool_evidence_views(evidence@)), "\n"@),
{
    let ghost all = summary_lines(tool_evidence_views(evidence@));
    let mut ls: Vec<String> = Vec::new();
    let mut i: usize = 0;
    while i < evidence.len()
        invariant
            i <= evidence@.len(),
            all == summary_lines(tool_evidence_views(evidence@)),
            text::views(ls@) == all.take(i as int),
        decreases evidence@.len() - i,
    {
        let line = summary_line_of(&evidence[i]);
        proof {
            text::lemma_views_push(ls@, line);
            assert(line@ == all[i as int]);
            assert(all.take(i + 1) =~= all.take(i as int).push(all[i as int]));
        }
        ls.push(line);
        i = i + 1;
    }
    assert(all.take(all.len() as int) =~= all);
    text::joined(&ls, "\n")
}

/// One line per quotation.
pub open spec fn ref_lines(v: Seq<RefView>) -> Seq<Seq<char>> {
    Seq::new(v.len(), |i: int| "- ["@ + v[i].id + "] "@ + v[i].snippet)
}

/// The quotations as a list; a remark in place of none.
pub open spec fn ref_list(v: Seq<RefView>) -> Seq<char> {
    if v.len() == 0 {
        "(no evidence refs)"@
    } else {
        text::join(ref_lines(v), "\n"@)
    }
}

/// See [`ref_list`].
pub fn ref_list_of(refs: &Vec<ImaginationEvidenceRef>) -> (r: String)
    ensures
        r@ == ref_list(ref_views(refs@)),
{
    if refs.len() == 0 {
        return "(no evidence refs)".to_owned();
    }
    let ghost all = ref_lines(ref_views(refs@));
    let mut ls: Vec<String> = Vec::new();
    let mut i: usize = 0;
    while i < refs.len()
        invariant
            i <= refs@.len(),
            all == ref_lines(ref_views(refs@)),
            text::views(ls@) == all.take(i as int),
        decreases refs@.len() - i,
    {
        let mut line = "- [".to_owned();
        line.append(refs[i].id.as_str());
        line.append("] ");
        line.append(refs[i].snippet.as_str());
        proof {
            text::lemma_views_push(ls@, line);
            assert(line@ == all[i as int]);
            assert(all.take(i + 1) =~= all.take(i as int).push(all[i as int]));
        }
        ls.push(line);
        i = i + 1;
    }
    assert(all.take(all.len() as int) =~= all);
    text::joined(&ls, "\n")
}

// ---------------------------------------------------------------------------
// What gathering evidence promises
// ---------------------------------------------------------------------------

/// A hypothesis is searched for with its whole statement, in one search; nothing but white space is not searched for.
pub proof fn searches_ask_for_the_statement(statement: Seq<char>)
    ensures
        text::trim(statement).len() == 0 <==> evidence_queries(statement).len() == 0,
        text::trim(statement).len() > 0 ==> {
            &&& evidence_queries(statement).len() == 1
            &&& evidence_queries(statement)[0].kind == ToolKind::WebSearch
            &&& evidence_queries(statement)[0].query == Some(text::trim(statement))
            &&& evidence_queries(statement)[0].url is None
            &&& evidence_queries(statement)[0].path is None
            &&& evidence_queries(statement)[0].root is None
            &&& evidence_queries(statement)[0].id is None
        },
{
}

/// White space, brackets, quotation marks, commas, colons and semicolons separate words; dots, hyphens and slashes do
/// not.
pub proof fn words_are_separated_by(c: char)
    ensures
        is_separator(c) <==> text::is_white(c) || "，。、（）()[]`\"',;:<>"@.contains(c),
        is_mark(c) <==> ".!?。！？"@.contains(c),
{
    reveal_strlit("，。、（）()[]`\"',;:<>");
    reveal_strlit(".!?。！？");
    let s = "，。、（）()[]`\"',;:<>"@;
    let m = ".!?。！？"@;
    assert(s.len() == 17);
    assert(m.len() == 6);
    if is_separator(c) && !text::is_white(c) {
        assert(s[0] == '，' && s[1] == '。' && s[2] == '、' && s[3] == '（' && s[4] == '）' && s[5] == '('
            && s[6] == ')' && s[7] == '[' && s[8] == ']' && s[9] == '`' && s[10] == '"' && s[11] == '\''
            && s[12] == ',' && s[13] == ';' && s[14] == ':' && s[15] == '<' && s[16] == '>');
        assert(exists|i: int| 0 <= i < s.len() && s[i] == c);
    }
    if is_mark(c) {
        assert(m[0] == '.' && m[1] == '!' && m[2] == '?' && m[3] == '。' && m[4] == '！' && m[5] == '？');
        assert(exists|i: int| 0 <= i < m.len() && m[i] == c);
    }
}

proof fn lemma_word_end_shift(a: Seq<char>, b: Seq<char>, k: int)
    requires
        0 <= k <= b.len(),
    ensures
        word_end(a + b, a.len() + k) == a.len() + word_end(b, k),
    decreases b.len() - k,
{
    if k < b.len() {
        assert((a + b)[a.len() + k] == b[k]);
        if !is_separator(b[k]) {
            lemma_word_end_shift(a, b, k + 1);
        }
    }
}

proof fn lemma_words_shift(a: Seq<char>, b: Seq<char>, k: int)
    requires
        0 <= k <= b.len(),
    ensures
        words_from(a + b, a.len() + k) == words_from(b, k),
    decreases b.len() + 1 - k,
{
    let s = a + b;
    lemma_word_end(b, k);
    lemma_word_end_shift(a, b, k);
    let j = word_end(b, k);
    if j < b.len() {
        lemma_words_shift(a, b, j + 1);
        assert(s.subrange(a.len() + k, a.len() + j) =~= b.subrange(k, j));
    } else {
        assert(s.subrange(a.len() + k, s.len() as int) =~= b.subrange(k, b.len() as int));
    }
}

proof fn lemma_word_end_front(a: Seq<char>, c: char, b: Seq<char>, i: int)
    requires
        0 <= i <= a.len(),
        is_separator(c),
    ensures
        word_end(a + seq![c] + b, i) == word_end(a, i),
    decreases a.len() - i,
{
    let s = a + seq![c] + b;
    if i < a.len() {
        assert(s[i] == a[i]);
        if !is_separator(a[i]) {
            lemma_word_end_front(a, c, b, i + 1);
        }
    } else {
        assert(s[i] == c);
    }
}

proof fn lemma_words_concat(a: Seq<char>, c: char, b: Seq<char>, i: int)
    requires
        0 <= i <= a.len(),
        is_separator(c),
    ensures
        words_from(a + seq![c] + b, i) == words_from(a, i) + words_from(b, 0),
    decreases a.len() - i,
{
    let s = a + seq![c] + b;
    lemma_word_end(a, i);
    lemma_word_end_front(a, c, b, i);
    let j = word_end(a, i);
    if j < a.len() {
        lemma_words_concat(a, c, b, j + 1);
        assert(s.subrange(i, j) =~= a.subrange(i, j));
        assert(words_from(s, i) =~= words_from(a, i) + words_from(b, 0));
    } else {
        assert(s =~= a.push(c) + b);
        lemma_words_shift(a.push(c), b, 0);
        assert(s.subrange(i, j) =~= a.subrange(i, a.len() as int));
        assert(words_from(s, i) =~= words_from(a, i) + words_from(b, 0));
    }
}

proof fn lemma_one_word(s: Seq<char>, i: int)
    requires
        0 <= i <= s.len(),
        forall|k: int| 0 <= k < s.len() ==> !is_separator(#[trigger] s[k]),
    ensures
        word_end(s, i) == s.len(),
    decreases s.len() - i,
{
    if i < s.len() {
        assert(!is_separator(s[i]));
        lemma_one_word(s, i + 1);
    }
}

/// A text without separators is one word, and a separator parts the words before it from those behind it.
pub proof fn separators_part_words(a: Seq<char>, c: char, b: Seq<char>)
    ensures
        is_separator(c) ==> words_from(a.push(c) + b, 0) == words_from(a, 0) + words_from(b, 0),
        (forall|k: int| 0 <= k < a.len() ==> !is_separator(#[trigger] a[k])) ==> words_from(a, 0)
            == seq![a],
{
    if is_separator(c) {
        lemma_words_concat(a, c, b, 0);
        assert(a + seq![c] + b =~= a.push(c) + b);
    }
    if forall|k: int| 0 <= k < a.len() ==> !is_separator(#[trigger] a[k]) {
        lemma_one_word(a, 0);
        assert(a.subrange(0, a.len() as int) =~= a);
    }
}

proof fn lemma_bare(s: Seq<char>)
    requires
        s.len() > 0,
        !is_mark(s[0]),
        !is_mark(s.last()),
    ensures
        bare_word(s) == s,
{
    lemma_leading(s, 0);
    assert(s.subrange(0, s.len() as int) =~= s);
    lemma_trailing(s, s.len() as int);
}

/// A plain name with an extension of one to eight letters and digits is a file name, and full stops, question and
/// exclamation marks around it do not belong to it.
pub proof fn plain_names_are_found(stem: Seq<char>, extension: Seq<char>)
    requires
        stem.len() > 0,
        forall|k: int|
            0 <= k < stem.len() ==> text::is_ascii_alnum(#[trigger] stem[k]) || stem[k] == '_'
                || stem[k] == '-',
        0 < extension.len() <= 8,
        forall|k: int| 0 <= k < extension.len() ==> text::is_ascii_alnum(#[trigger] extension[k]),
    ensures
        file_name_in(stem.push('.') + extension) == Some(stem.push('.') + extension),
        file_name_in((stem.push('.') + extension).push('.')) == Some(stem.push('.') + extension),
        file_name_in((stem.push('.') + extension).push('?')) == Some(stem.push('.') + extension),
        file_name_in((stem.push('.') + extension).push('!')) == Some(stem.push('.') + extension),
{
    let w = stem.push('.') + extension;
    let dot = "."@;
    reveal_strlit(".");
    reveal_strlit("/");
    reveal_strlit("..");
    reveal_strlit("://");
    assert(dot =~= seq!['.']);
    assert(w[0] == stem[0]);
    assert(w.last() == extension.last());
    assert(text::is_ascii_alnum(extension.last()));
    lemma_bare(w);
    assert forall|k: int| 0 <= k < w.len() implies w[k] != '\\' && w[k] != '/' && w[k] != ':' by {
        if k < stem.len() {
            assert(w[k] == stem[k]);
        } else if k > stem.len() {
            assert(w[k] == extension[k - stem.len() - 1]);
        }
    }
    assert(slashed(w) =~= w);
    // The last dot is the one behind the stem.
    text::lemma_rfind_from(w, dot, w.len() - 1);
    assert(w.subrange(stem.len() as int, stem.len() as int + 1) =~= dot);
    assert(text::matches_at(w, dot, stem.len() as int));
    assert forall|k: int| stem.len() < k < w.len() implies !text::matches_at(w, dot, k) by {
        assert(w.subrange(k, k + 1)[0] == extension[k - stem.len() - 1]);
    }
    let at = text::rfind_from(w, dot, w.len() - 1)->0;
    assert(at == stem.len()) by {
        if at < stem.len() {
            assert(!text::matches_at(w, dot, stem.len() as int));
        }
    }
    assert(w.subrange(stem.len() as int + 1, w.len() as int) =~= extension);
    // It is relative and clean.
    assert(!text::starts_with(w, "/"@)) by {
        assert(w.subrange(0, 1)[0] == stem[0]);
        assert("/"@[0] == '/');
    }
    assert(!text::contains(w, "://"@)) by {
        if text::contains(w, "://"@) {
            let i = choose|i: int| text::matches_at(w, "://"@, i);
            assert(w.subrange(i, i + 3)[0] == w[i]);
            assert("://"@[0] == ':');
        }
    }
    assert(!w.contains('/'));
    text::lemma_split_of_joined(seq![w], '/');
    assert(text::join(seq![w], seq!['/']) == w);
    assert(text::split(w, '/') == seq![w]);
    assert(w != ".."@) by {
        assert(".."@[0] == '.');
        assert(w[0] == stem[0]);
    }
    assert forall|m: char| #[trigger] is_mark(m) implies bare_word(w.push(m)) == w by {
        let t = w.push(m);
        assert(t[0] == stem[0]);
        lemma_leading(t, 0);
        assert(t.subrange(0, t.len() as int) =~= t);
        lemma_trailing(t, w.len() as int);
        assert(t.subrange(0, w.len() as int) =~= w);
    }
    assert(is_mark('.') && is_mark('?') && is_mark('!'));
}

/// What is taken for a file name is written with slashes, begins with none, is no address and climbs nowhere; a name
/// that begins with a drive is not one.
pub proof fn file_names_stay_below(word: Seq<char>)
    ensures
        file_name_in(word) matches Some(f) ==> {
            &&& !f.contains('\\')
            &&& f.len() > 0 && f[0] != '/'
            &&& !text::contains(f, "://"@)
            &&& !text::split(f, '/').contains(".."@)
            &&& !text::split(f, '/').contains(Seq::empty())
            &&& (f.len() > 1 ==> f[1] != ':')
            &&& f.contains('.')
        },
{
    reveal_strlit("/");
    reveal_strlit(".");
    if let Some(f) = file_name_in(word) {
        let token = bare_word(word);
        assert(f == slashed(token));
        assert forall|k: int| 0 <= k < f.len() implies f[k] != '\\' by {}
        text::lemma_rfind_from(token, "."@, token.len() - 1);
        let at = text::rfind_from(token, "."@, token.len() - 1)->0;
        assert(text::matches_at(token, "."@, at));
        assert(token.subrange(at, at + 1)[0] == token[at]);
        assert("."@[0] == '.');
        assert(f[at] == '.');
        assert(f.contains('.'));
        if f[0] == '/' {
            assert(f.subrange(0, 1) =~= "/"@);
            assert(text::starts_with(f, "/"@));
        }
        let parts = text::split(f, '/');
        if parts.contains(".."@) {
            let i = choose|i: int| 0 <= i < parts.len() && parts[i] == ".."@;
            assert(parts[i] != ".."@);
        }
        if parts.contains(Seq::empty()) {
            let i = choose|i: int| 0 <= i < parts.len() && parts[i] == Seq::<char>::empty();
            assert(parts[i].len() > 0);
        }
        if f.len() > 1 && f[1] == ':' {
            assert(token[1] == ':');
        }
    }
}

/// A file is among those of a statement exactly where a word of it names the file; further words put nothing before
/// what was found.
pub proof fn each_named_file_is_found(words: Seq<Seq<char>>, f: Seq<char>, more: Seq<char>)
    ensures
        file_names_in(words).contains(f) <==> exists|i: int|
            0 <= i < words.len() && file_name_in(#[trigger] words[i]) == Some(f),
        file_names_in(words).is_prefix_of(file_names_in(words.push(more))),
    decreases words.len(),
{
    assert(words.push(more).drop_last() =~= words);
    if words.len() > 0 {
        let front = words.drop_last();
        each_named_file_is_found(front, f, more);
        let rest = file_names_in(front);
        if file_names_in(words).contains(f) {
            if rest.contains(f) {
                let i = choose|i: int|
                    0 <= i < front.len() && file_name_in(#[trigger] front[i]) == Some(f);
                assert(words[i] == front[i]);
            } else {
                assert(file_name_in(words[words.len() - 1]) == Some(f));
            }
        }
        if exists|i: int| 0 <= i < words.len() && file_name_in(#[trigger] words[i]) == Some(f) {
            let i = choose|i: int|
                0 <= i < words.len() && file_name_in(#[trigger] words[i]) == Some(f);
            if i < front.len() {
                assert(front[i] == words[i]);
                assert(rest.contains(f));
                let k = choose|k: int| 0 <= k < rest.len() && rest[k] == f;
                assert(file_names_in(words)[k] == f);
            } else if !rest.contains(f) {
                assert(rest.push(f)[rest.len() as int] == f);
            } else {
                assert(file_names_in(words) == rest);
            }
        }
    }
}

/// A watched tree is listed once, at its root, and then the first two files that the statement names are read, each
/// under its own number.
pub proof fn probes_read_the_first_two_files(statement: Seq<char>, root: Seq<char>)
    requires
        root.len() > 0,
        root.last() != '/',
    ensures
        watch_calls(statement, root).len() == 1 + (if statement_filenames(statement).len() < 2 {
            statement_filenames(statement).len()
        } else {
            2
        }),
        watch_calls(statement, root)[0] == (ToolCallView {
            kind: ToolKind::ListDir,
            query: None,
            url: None,
            id: Some("watch-listdir-1"@),
            path: Some(root),
            root: Some(root),
        }),
        statement_filenames(statement).len() > 0 ==> watch_calls(statement, root)[1] == (
        ToolCallView {
            kind: ToolKind::ReadFile,
            query: None,
            url: None,
            id: Some("watch-readfile-"@ + seq!['1']),
            path: Some(root + "/"@ + statement_filenames(statement)[0]),
            root: Some(root),
        }),
        statement_filenames(statement).len() > 1 ==> watch_calls(statement, root)[2] == (
        ToolCallView {
            kind: ToolKind::ReadFile,
            query: None,
            url: None,
            id: Some("watch-readfile-"@ + seq!['2']),
            path: Some(root + "/"@ + statement_filenames(statement)[1]),
            root: Some(root),
        }),
{
    assert(text::decimal(1) =~= seq!['1']);
    assert(text::decimal(2) =~= seq!['2']);
}

/// The queries come first and as they are; probes follow only where a tree is watched, and stay with its root.
pub proof fn probes_follow_the_queries(
    statement: Seq<char>,
    queries: Seq<ToolCallView>,
    watch: Option<WatchContext>,
)
    ensures
        queries.is_prefix_of(gather_calls(statement, queries, watch)),
        watch is None ==> gather_calls(statement, queries, watch) == queries,
        watch is Some ==> gather_calls(statement, queries, watch).len() > queries.len(),
        watch matches Some(w) ==> forall|i: int|
            queries.len() <= i < gather_calls(statement, queries, watch).len() ==> (
            #[trigger] gather_calls(statement, queries, watch)[i]).root == Some(w.root@) && gather_calls(
                statement,
                queries,
                watch,
            )[i].query is None,
{
    if let Some(w) = watch {
        probes_are_few_and_rooted(statement, w.root@);
    }
}

proof fn lemma_all_texts(items: Seq<JsonView>, names: Seq<Seq<char>>, i: int)
    requires
        0 <= i <= items.len(),
        items.len() == names.len(),
        forall|k: int| 0 <= k < items.len() ==> #[trigger] items[k] == JsonView::Str(names[k]),
    ensures
        json::texts_from(items, i) == names.skip(i),
    decreases items.len() - i,
{
    if i < items.len() {
        lemma_all_texts(items, names, i + 1);
        assert(items[i] == JsonView::Str(names[i]));
        assert(seq![names[i]] + names.skip(i + 1) =~= names.skip(i));
    } else {
        assert(names.skip(i) =~= Seq::empty());
    }
}

/// A listing of names is shown as these names, one per line in their order, with a remark behind them where the
/// listing was cut short; a listing without names says that the directory is empty.
pub proof fn listings_are_shown_by_line(names: Seq<Seq<char>>, items: Seq<JsonView>, cut: bool)
    requires
        items.len() == names.len(),
        forall|k: int| 0 <= k < items.len() ==> #[trigger] items[k] == JsonView::Str(names[k]),
    ensures
        ({
            let whole = JsonView::Object(seq![("entries"@, JsonView::Array(items))]);
            let marked = JsonView::Object(
                seq![
                    ("entries"@, JsonView::Array(items)),
                    ("truncated"@, JsonView::Bool(cut)),
                ],
            );
            &&& names.len() > 0 ==> listing_in(whole) == Some(text::join(names, "\n"@))
            &&& names.len() > 0 && !cut ==> listing_in(marked) == Some(text::join(names, "\n"@))
            &&& names.len() > 0 && cut ==> listing_in(marked) == Some(
                text::join(names, "\n"@) + "\n…（清单被截断）"@,
            )
            &&& names.len() == 0 ==> listing_in(whole) == Some("(empty directory)"@)
            &&& names.len() == 0 && cut ==> listing_in(marked) == Some(
                "(empty directory)"@ + "\n…（清单被截断）"@,
            )
        }),
{
    reveal_strlit("entries");
    reveal_strlit("truncated");
    assert("entries"@.len() != "truncated"@.len());
    lemma_all_texts(items, names, 0);
    assert(names.skip(0) =~= names);
    let m1 = seq![("entries"@, JsonView::Array(items))];
    let m2 = seq![("entries"@, JsonView::Array(items)), ("truncated"@, JsonView::Bool(cut))];
    let whole = JsonView::Object(m1);
    let marked = JsonView::Object(m2);
    json::members_are_found_by_name(whole, m1, "entries"@, 0);
    json::members_are_found_by_name(whole, m1, "truncated"@, 0);
    json::members_are_found_by_name(marked, m2, "entries"@, 0);
    json::members_are_found_by_name(marked, m2, "truncated"@, 1);
    assert(json::member(whole, "truncated"@) is None);
    assert(json::member(marked, "truncated"@) == Some(JsonView::Bool(cut)));
    assert(is_listing(whole));
    assert(is_listing(marked));
}

/// Only what reads as a listing is changed: a JSON object whose members are all called `entries` or `truncated`.
pub proof fn only_listings_are_decoded(content: Seq<char>)
    ensures
        decoded(content) != content ==> text::trim(content).len() > 0 && text::trim(content)[0]
            == '{' && json::json_of(text::trim(content)) is Some,
        decoded(content) != content ==> (json::json_of(text::trim(content)) matches Some(v) ==> (v
            matches JsonView::Object(members) && forall|i: int|
            0 <= i < members.len() ==> (#[trigger] members[i]).0 == "entries"@ || members[i].0
                == "truncated"@)),
        text::starts_with(text::trim(content), "{"@) ==> (json::json_of(text::trim(content)) matches Some(v)
            ==> (listing_in(v) matches Some(listing) ==> decoded(content) == listing)),
{
    reveal_strlit("{");
    let t = text::trim(content);
    if decoded(content) != content {
        assert(text::starts_with(t, "{"@));
        assert(t.subrange(0, 1)[0] == t[0]);
        assert("{"@[0] == '{');
    }
}

/// No reply leaves no evidence. A reply leaves every piece of it in its order, with its source, its time and its title;
/// only contents change, and only where a tree was watched.
pub proof fn replies_are_gathered_whole(outcome: ToolOutcome, watched: bool)
    ensures
        !(outcome is Reply) ==> gathered(outcome, watched).len() == 0,
        outcome matches ToolOutcome::Reply(result) ==> {
            &&& gathered(outcome, watched).len() == result.evidence@.len()
            &&& forall|i: int|
                0 <= i < result.evidence@.len() ==> {
                    let e = #[trigger] gathered(outcome, watched)[i];
                    &&& e.source_url == result.evidence@[i].source_url@
                    &&& e.fetched_at_ms == result.evidence@[i].fetched_at_ms
                    &&& e.title == text::opt_view(result.evidence@[i].title)
                    &&& (!watched ==> e.content == result.evidence@[i].content@)
                    &&& (watched ==> e.content == decoded(result.evidence@[i].content@))
                }
        },
{
}

/// A content is shown trimmed. Up to twelve hundred characters of it are shown whole; of a longer one the first twelve
/// hundred, and a mark behind them.
pub proof fn contents_are_cut_at_twelve_hundred(content: Seq<char>)
    ensures
        text::trim(content).len() <= 1200 ==> shown(content) == text::trim(content),
        text::trim(content).len() > 1200 ==> shown(content).len() == 1202 && shown(content).take(1200)
            == text::trim(content).take(1200) && shown(content).skip(1200) == " …"@,
{
    reveal_strlit(" …");
    let t = text::trim(content);
    if t.len() > 1200 {
        assert(shown(content).take(1200) =~= t.take(1200));
        assert(shown(content).skip(1200) =~= " …"@);
    }
}

/// Every piece of evidence is quoted under its source, in its order.
pub proof fn evidence_is_quoted_in_order(v: Seq<ToolEvidenceView>, e: ToolEvidenceView)
    ensures
        as_refs(Seq::empty()).len() == 0,
        as_refs(v.push(e)) == as_refs(v).push(
            RefView { id: e.source_url, snippet: shown(e.content) },
        ),
{
    assert(as_refs(v.push(e)) =~= as_refs(v).push(
        RefView { id: e.source_url, snippet: shown(e.content) },
    ));
}

/// A summary has one line per piece of evidence, in order: its source in brackets, its title where it has one, and what
/// is shown of it.
pub proof fn evidence_is_summed_up_by_line(v: Seq<ToolEvidenceView>, e: ToolEvidenceView)
    ensures
        summary_lines(Seq::empty()).len() == 0,
        summary_lines(v.push(e)).len() == v.len() + 1,
        summary_lines(v).is_prefix_of(summary_lines(v.push(e))),
        e.title is None ==> summary_lines(v.push(e)).last() == "- ["@ + e.source_url + "] "@ + shown(
            e.content,
        ),
        e.title matches Some(t) ==> text::is_blank(t) ==> summary_lines(v.push(e)).last() == "- ["@
            + e.source_url + "] "@ + shown(e.content),
        e.title matches Some(t) ==> !text::is_blank(t) ==> summary_lines(v.push(e)).last() == "- ["@
            + e.source_url + "] "@ + text::trim(t) + ": "@ + shown(e.content),
{
    assert(summary_lines(v.push(e)) =~= summary_lines(v).push(summary_line(e)));
}

/// A list of quotations has one line each, in order; where there is none it says so.
pub proof fn quotations_are_listed_by_line(v: Seq<RefView>, e: RefView)
    ensures
        ref_list(Seq::empty()) == "(no evidence refs)"@,
        v.len() == 0 ==> ref_list(v.push(e)) == "- ["@ + e.id + "] "@ + e.snippet,
        v.len() > 0 ==> ref_list(v.push(e)) == ref_list(v) + "\n"@ + ("- ["@ + e.id + "] "@
            + e.snippet),
{
    let line = "- ["@ + e.id + "] "@ + e.snippet;
    assert(ref_lines(v.push(e)) =~= ref_lines(v).push(line));
    assert(ref_lines(v.push(e)).drop_last() =~= ref_lines(v));
}

/// A file name ends with an extension: behind its last dot stand one to eight letters and digits, and nothing else.
pub proof fn file_names_have_extensions(word: Seq<char>)
    ensures
        file_name_in(word) matches Some(f) ==> exists|k: int|
            0 <= k < f.len() && #[trigger] f[k] == '.' && 1 <= f.len() - k - 1 <= 8 && forall|m: int|
                k < m < f.len() ==> text::is_ascii_alnum(#[trigger] f[m]),
{
    reveal_strlit(".");
    if let Some(f) = file_name_in(word) {
        let token = bare_word(word);
        text::lemma_rfind_from(token, "."@, token.len() - 1);
        let k = text::rfind_from(token, "."@, token.len() - 1)->0;
        assert(text::matches_at(token, "."@, k));
        assert(token.subrange(k, k + 1)[0] == token[k]);
        assert("."@[0] == '.');
        let ext = token.subrange(k + 1, token.len() as int);
        assert forall|m: int| k < m < f.len() implies text::is_ascii_alnum(#[trigger] f[m]) by {
            assert(ext[m - k - 1] == token[m]);
            assert(text::is_ascii_alnum(ext[m - k - 1]));
        }
        assert(f[k] == '.');
    }
}

/// Backslashes in a file name become slashes, and nothing else in it changes.
pub proof fn backslashes_become_slashes(word: Seq<char>)
    ensures
        file_name_in(word) matches Some(f) ==> f.len() == bare_word(word).len() && forall|k: int|
            0 <= k < f.len() ==> #[trigger] f[k] == (if bare_word(word)[k] == '\\' {
                '/'
            } else {
                bare_word(word)[k]
            }),
{
}

/// The marks at the ends of a word do not belong to it, and everything between them does.
pub proof fn marks_come_off_words(a: Seq<char>, t: Seq<char>, b: Seq<char>)
    requires
        forall|i: int| 0 <= i < a.len() ==> is_mark(#[trigger] a[i]),
        forall|i: int| 0 <= i < b.len() ==> is_mark(#[trigger] b[i]),
        t.len() > 0,
        !is_mark(t[0]),
        !is_mark(t.last()),
    ensures
        bare_word(a + t + b) == t,
{
    let s = a + t + b;
    assert forall|k: int| 0 <= k < a.len() implies is_mark(s[k]) by {
        assert(s[k] == a[k]);
    }
    assert(s[a.len() as int] == t[0]);
    lemma_leading(s, a.len() as int);
    let r = s.subrange(a.len() as int, s.len() as int);
    assert(r =~= t + b);
    assert forall|k: int| t.len() <= k < r.len() implies is_mark(r[k]) by {
        assert(r[k] == b[k - t.len()]);
    }
    assert(r[t.len() - 1] == t.last());
    lemma_trailing(r, t.len() as int);
    assert(r.subrange(0, t.len() as int) =~= t);
}

} // verus!
