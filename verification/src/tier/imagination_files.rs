//! The files around an imagination: the corpus that it reads, the reports and drafts that it writes.

use vstd::prelude::*;
use vstd::string::StringExecFns;
use crate::path;
use crate::text;
use crate::tier::tier2_extract_memories;

verus! {

/// How many notes, insights and queued drafts are read, and how much of each.
pub const HYPGEN_MAX_REFLECTION_FILES: usize = 24;

pub const HYPGEN_MAX_DREAM_FILES: usize = 24;

pub const HYPGEN_MAX_FILE_CHARS: usize = 4_000;

pub const HYPGEN_MAX_SESSION_CHARS: usize = 8_000;

pub const HYPGEN_MAX_TRANSCRIPT_CHARS: usize = 8_000;

pub const REPORT_MAX_QUEUE_FILES: usize = 12;

pub const REFUTED_DIRNAME: &'static str = "refuted";

/// How many refuted hypotheses are kept, and how many are shown.
pub const REFUTED_MAX_FILES: usize = 50;

pub const HYPGEN_MAX_REFUTED_LINES: usize = 20;

pub const META_REVIEW_FILENAME: &'static str = "meta-review.jsonl";

// ---------------------------------------------------------------------------
// Where things stand
// ---------------------------------------------------------------------------

/// The directory of refuted hypotheses.
pub fn refuted_dir(memory_dir: &str) -> (r: String)
    ensures
        r@ == path::under(path::under(memory_dir@, "imagination"@), REFUTED_DIRNAME@),
        r@ == path::under(path::under(memory_dir@, "imagination"@), "refuted"@),
{
    let dir = path::child(memory_dir, "imagination");
    path::child(dir.as_str(), REFUTED_DIRNAME)
}

/// The ledger of sweeps.
pub fn meta_review_path(memory_dir: &str) -> (r: String)
    ensures
        r@ == path::under(path::under(memory_dir@, "imagination"@), META_REVIEW_FILENAME@),
        r@ == path::under(path::under(memory_dir@, "imagination"@), "meta-review.jsonl"@),
{
    let dir = path::child(memory_dir, "imagination");
    path::child(dir.as_str(), META_REVIEW_FILENAME)
}

// ---------------------------------------------------------------------------
// Choosing files
// ---------------------------------------------------------------------------

/// Whether a file is a note: a Markdown file that is neither an index nor a session snapshot.
pub open spec fn is_note(name: Seq<char>) -> bool {
    &&& text::ends_with(name, ".md"@)
    &&& name != "MEMORY.md"@
    &&& name != "SESSION.md"@
    &&& !text::starts_with(name, ".session-"@)
}

/// See [`is_note`].
pub fn is_reflection_file(name: &str) -> (r: bool)
    ensures
        r == is_note(name@),
{
    text::has_suffix(name, ".md") && !text::same(name, "MEMORY.md") && !text::same(
        name,
        "SESSION.md",
    ) && !text::has_prefix(name, ".session-")
}

/// Which files of a directory are read.
#[derive(Debug, Clone, Copy, PartialEq, Eq, Structural)]
pub enum CorpusKind {
    /// Notes.
    Reflections,
    /// Insights of dreams.
    Insights,
    /// Drafts that wait for review.
    Queue,
}

/// Whether a file is of the given kind.
pub open spec fn of_kind(kind: CorpusKind, name: Seq<char>) -> bool {
    match kind {
        CorpusKind::Reflections => is_note(name),
        CorpusKind::Insights => text::starts_with(name, "insight_"@) && text::ends_with(
            name,
            ".md"@,
        ),
        CorpusKind::Queue => text::ends_with(name, ".md"@),
    }
}

pub open spec fn kind_limit(kind: CorpusKind) -> int {
    match kind {
        CorpusKind::Reflections => HYPGEN_MAX_REFLECTION_FILES as int,
        CorpusKind::Insights => HYPGEN_MAX_DREAM_FILES as int,
        CorpusKind::Queue => REPORT_MAX_QUEUE_FILES as int,
    }
}

/// A sorted sequence of names with one more in it.
pub open spec fn insert_name(s: Seq<Seq<char>>, x: Seq<char>) -> Seq<Seq<char>>
    decreases s.len(),
{
    if s.len() == 0 || text::le(s.last(), x) {
        s.push(x)
    } else {
        insert_name(s.drop_last(), x).push(s.last())
    }
}

/// The names of the given kind, sorted.
pub open spec fn sorted_of_kind(kind: CorpusKind, names: Seq<Seq<char>>) -> Seq<Seq<char>>
    decreases names.len(),
{
    if names.len() == 0 {
        Seq::empty()
    } else if of_kind(kind, names.last()) {
        insert_name(sorted_of_kind(kind, names.drop_last()), names.last())
    } else {
        sorted_of_kind(kind, names.drop_last())
    }
}

/// The files of a kind that are read: the first ones by name.
pub open spec fn corpus_files(kind: CorpusKind, names: Seq<Seq<char>>) -> Seq<Seq<char>> {
    let all = sorted_of_kind(kind, names);
    if all.len() > kind_limit(kind) {
        all.take(kind_limit(kind))
    } else {
        all
    }
}

fn is_of_kind(kind: CorpusKind, name: &str) -> (r: bool)
    ensures
        r == of_kind(kind, name@),
{
    match kind {
        CorpusKind::Reflections => is_reflection_file(name),
        CorpusKind::Insights => text::has_prefix(name, "insight_") && text::has_suffix(
            name,
            ".md",
        ),
        CorpusKind::Queue => text::has_suffix(name, ".md"),
    }
}

fn insert_sorted(out: &mut Vec<String>, x: String)
    ensures
        text::views(final(out)@) == insert_name(text::views(old(out)@), x@),
{
    let ghost all = text::views(out@);
    let mut p: usize = out.len();
    assert(all.take(all.len() as int) =~= all);
    assert(insert_name(all, x@) + all.skip(all.len() as int) =~= insert_name(all, x@));
    while p > 0 && !text::precedes(out[p - 1].as_str(), x.as_str())
        invariant
            p <= out@.len(),
            all == text::views(out@),
            insert_name(all, x@) == insert_name(all.take(p as int), x@) + all.skip(p as int),
        decreases p,
    {
        proof {
            let t = all.take(p as int);
            assert(t.last() == out@[p - 1]@);
            assert(t.drop_last() =~= all.take(p - 1));
            assert(insert_name(t.drop_last(), x@).push(t.last()) + all.skip(p as int)
                =~= insert_name(all.take(p - 1), x@) + all.skip(p - 1));
        }
        p = p - 1;
    }
    proof {
        if p > 0 {
            assert(all.take(p as int).last() == out@[p - 1]@);
        }
    }
    let ghost v = x@;
    out.insert(p, x);
    assert(text::views(out@) =~= all.take(p as int).push(v) + all.skip(p as int));
}

/// The files of a directory that are read. See [`corpus_files`].
pub fn select_corpus_files(kind: CorpusKind, names: &Vec<String>) -> (r: Vec<String>)
    ensures
        text::views(r@) == corpus_files(kind, text::views(names@)),
{
    let ghost all = text::views(names@);
    let mut out: Vec<String> = Vec::new();
    assert(text::views(out@) =~= Seq::empty());
    let mut i: usize = 0;
    while i < names.len()
        invariant
            i <= names@.len(),
            all == text::views(names@),
            text::views(out@) == sorted_of_kind(kind, all.take(i as int)),
        decreases names@.len() - i,
    {
        proof {
            assert(all.take(i + 1).drop_last() =~= all.take(i as int));
            assert(all.take(i + 1).last() == names@[i as int]@);
        }
        if is_of_kind(kind, names[i].as_str()) {
            insert_sorted(&mut out, names[i].clone());
        }
        i = i + 1;
    }
    assert(all.take(all.len() as int) =~= all);
    let limit: usize = match kind {
        CorpusKind::Reflections => HYPGEN_MAX_REFLECTION_FILES,
        CorpusKind::Insights => HYPGEN_MAX_DREAM_FILES,
        CorpusKind::Queue => REPORT_MAX_QUEUE_FILES,
    };
    let ghost sorted = text::views(out@);
    if out.len() > limit {
        out.truncate(limit);
        assert(text::views(out@) =~= sorted.take(limit as int));
    }
    out
}

/// The names come sorted.
pub proof fn corpus_is_sorted(kind: CorpusKind, names: Seq<Seq<char>>)
    ensures
        forall|i: int, j: int|
            0 <= i <= j < corpus_files(kind, names).len() ==> text::le(
                #[trigger] corpus_files(kind, names)[i],
                #[trigger] corpus_files(kind, names)[j],
            ),
        corpus_files(kind, names).len() <= kind_limit(kind),
{
    lemma_sorted_of_kind(kind, names);
    let all = sorted_of_kind(kind, names);
    assert forall|i: int, j: int| 0 <= i <= j < corpus_files(kind, names).len() implies text::le(
        #[trigger] corpus_files(kind, names)[i],
        #[trigger] corpus_files(kind, names)[j],
    ) by {
        assert(corpus_files(kind, names)[i] == all[i]);
        assert(corpus_files(kind, names)[j] == all[j]);
    }
}

proof fn lemma_insert_name(s: Seq<Seq<char>>, x: Seq<char>)
    requires
        forall|i: int, j: int|
            0 <= i <= j < s.len() ==> text::le(#[trigger] s[i], #[trigger] s[j]),
    ensures
        ({
            let r = insert_name(s, x);
            &&& forall|i: int, j: int|
                0 <= i <= j < r.len() ==> text::le(#[trigger] r[i], #[trigger] r[j])
            &&& r.len() == s.len() + 1
            &&& forall|i: int| 0 <= i < r.len() ==> #[trigger] r[i] == x || s.contains(r[i])
        }),
    decreases s.len(),
{
    let r = insert_name(s, x);
    if s.len() == 0 || text::le(s.last(), x) {
        assert forall|i: int, j: int| 0 <= i <= j < r.len() implies text::le(
            #[trigger] r[i],
            #[trigger] r[j],
        ) by {
            text::lemma_le(x, x, x);
            if i < s.len() && j == s.len() {
                assert(text::le(s[i], s[s.len() - 1]));
                text::lemma_le(s[i], s[s.len() - 1], x);
            }
        }
        assert forall|i: int| 0 <= i < r.len() implies #[trigger] r[i] == x || s.contains(
            r[i],
        ) by {
            if i < s.len() {
                assert(s[i] == r[i]);
            }
        }
    } else {
        let d = s.drop_last();
        assert forall|i: int, j: int| 0 <= i <= j < d.len() implies text::le(
            #[trigger] d[i],
            #[trigger] d[j],
        ) by {
            assert(d[i] == s[i] && d[j] == s[j]);
        }
        lemma_insert_name(d, x);
        let m = insert_name(d, x);
        assert forall|i: int| 0 <= i < m.len() implies text::le(#[trigger] m[i], s.last()) by {
            text::lemma_le(s.last(), x, x);
            if m[i] != x {
                assert(d.contains(m[i]));
                let k = choose|k: int| 0 <= k < d.len() && d[k] == m[i];
                assert(s[k] == m[i]);
                assert(text::le(s[k], s[s.len() - 1]));
            }
        }
        assert forall|i: int, j: int| 0 <= i <= j < r.len() implies text::le(
            #[trigger] r[i],
            #[trigger] r[j],
        ) by {
            text::lemma_le(s.last(), x, x);
            if i < m.len() {
                assert(r[i] == m[i]);
                if j < m.len() {
                    assert(r[j] == m[j]);
                }
            }
        }
        assert forall|i: int| 0 <= i < r.len() implies #[trigger] r[i] == x || s.contains(
            r[i],
        ) by {
            if i < m.len() {
                assert(r[i] == m[i]);
                if m[i] != x {
                    assert(d.contains(m[i]));
                    let k = choose|k: int| 0 <= k < d.len() && d[k] == m[i];
                    assert(s[k] == m[i]);
                }
            } else {
                assert(s[s.len() - 1] == r[i]);
            }
        }
    }
}

proof fn lemma_sorted_of_kind(kind: CorpusKind, names: Seq<Seq<char>>)
    ensures
        forall|i: int, j: int|
            0 <= i <= j < sorted_of_kind(kind, names).len() ==> text::le(
                #[trigger] sorted_of_kind(kind, names)[i],
                #[trigger] sorted_of_kind(kind, names)[j],
            ),
    decreases names.len(),
{
    if names.len() > 0 {
        lemma_sorted_of_kind(kind, names.drop_last());
        if of_kind(kind, names.last()) {
            lemma_insert_name(sorted_of_kind(kind, names.drop_last()), names.last());
        }
    }
}

/// A file with the time of its last change.
#[derive(Debug, Clone)]
pub struct TimedFile {
    pub name: String,
    pub path: String,
    pub mtime_ms: u64,
}

/// Whether a file is a snapshot of a session.
pub open spec fn is_snapshot(name: Seq<char>) -> bool {
    text::starts_with(name, ".session-"@) && text::ends_with(name, ".md"@)
}

/// The index of the snapshot that was changed last, among the first `n` files; of several, the first.
pub open spec fn latest_snapshot(files: Seq<TimedFile>, n: int) -> Option<int>
    decreases n,
{
    if n <= 0 {
        None
    } else {
        let before = latest_snapshot(files, n - 1);
        if !is_snapshot(files[n - 1].name@) {
            before
        } else {
            match before {
                Some(k) => if files[k].mtime_ms >= files[n - 1].mtime_ms {
                    Some(k)
                } else {
                    Some(n - 1)
                },
                None => Some(n - 1),
            }
        }
    }
}

/// See [`latest_snapshot`].
pub fn most_recent_session_snapshot(files: &Vec<TimedFile>) -> (r: Option<usize>)
    ensures
        match latest_snapshot(files@, files@.len() as int) {
            Some(k) => r matches Some(i) && i == k && i < files@.len(),
            None => r is None,
        },
{
    let mut best: Option<usize> = None;
    let mut i: usize = 0;
    while i < files.len()
        invariant
            i <= files@.len(),
            match latest_snapshot(files@, i as int) {
                Some(k) => best matches Some(b) && b == k && b < i,
                None => best is None,
            },
        decreases files@.len() - i,
    {
        let f = &files[i];
        if text::has_prefix(f.name.as_str(), ".session-") && text::has_suffix(
            f.name.as_str(),
            ".md",
        ) {
            best = match best {
                Some(b) => if files[b].mtime_ms >= f.mtime_ms {
                    Some(b)
                } else {
                    Some(i)
                },
                None => Some(i),
            };
        }
        i = i + 1;
    }
    best
}

/// The snapshot that is chosen is one, and none was changed later.
pub proof fn chosen_snapshot_is_latest(files: Seq<TimedFile>, n: int)
    requires
        0 <= n <= files.len(),
    ensures
        latest_snapshot(files, n) matches Some(k) ==> 0 <= k < n && is_snapshot(files[k].name@)
            && forall|i: int|
            0 <= i < n && is_snapshot((#[trigger] files[i]).name@) ==> files[i].mtime_ms
                <= files[k].mtime_ms,
        latest_snapshot(files, n) is None ==> forall|i: int|
            0 <= i < n ==> !is_snapshot((#[trigger] files[i]).name@),
    decreases n,
{
    if n > 0 {
        chosen_snapshot_is_latest(files, n - 1);
    }
}

// ---------------------------------------------------------------------------
// The corpus
// ---------------------------------------------------------------------------

/// The first characters of a text.
pub fn truncate_chars(s: &str, max: usize) -> (r: String)
    ensures
        r@ == text::take_chars(s@, max as int),
{
    text::first_chars(s, max)
}

/// A file and what could be read of it.
#[derive(Debug, Clone)]
pub struct ReadFile {
    pub name: String,
    pub body: Option<String>,
}

/// A trimmed text, cut to the given length.
pub open spec fn excerpt(body: Seq<char>, max: int) -> Seq<char> {
    text::take_chars(text::trim(body), max)
}

/// The sections of the files that could be read and are not blank, each under its name.
pub open spec fn labeled_sections(files: Seq<ReadFile>) -> Seq<Seq<char>>
    decreases files.len(),
{
    if files.len() == 0 {
        Seq::empty()
    } else {
        let rest = labeled_sections(files.drop_last());
        match files.last().body {
            Some(b) => if excerpt(b@, HYPGEN_MAX_FILE_CHARS as int).len() == 0 {
                rest
            } else {
                rest.push(
                    "## "@ + files.last().name@ + "\n\n"@ + excerpt(
                        b@,
                        HYPGEN_MAX_FILE_CHARS as int,
                    ),
                )
            },
            None => rest,
        }
    }
}

/// The files as one text. See [`labeled_sections`].
pub fn format_labeled_files(files: &Vec<ReadFile>) -> (r: String)
    ensures
        r@ == text::join(labeled_sections(files@), "\n\n"@),
{
    let mut out: Vec<String> = Vec::new();
    assert(text::views(out@) =~= Seq::empty());
    let mut i: usize = 0;
    while i < files.len()
        invariant
            i <= files@.len(),
            text::views(out@) == labeled_sections(files@.take(i as int)),
        decreases files@.len() - i,
    {
        proof {
            assert(files@.take(i + 1).drop_last() =~= files@.take(i as int));
        }
        if let Some(b) = &files[i].body {
            let t = text::trimmed(b.as_str());
            let cut = truncate_chars(t.as_str(), HYPGEN_MAX_FILE_CHARS);
            if !cut.as_str().is_empty() {
                let mut section = "## ".to_owned();
                section.append(files[i].name.as_str());
                section.append("\n\n");
                section.append(cut.as_str());
                proof {
                    text::lemma_views_push(out@, section);
                }
                out.push(section);
            }
        }
        i = i + 1;
    }
    assert(files@.take(files@.len() as int) =~= files@);
    text::joined(&out, "\n\n")
}

/// The last `n` characters of a text, or all of it.
pub open spec fn last_chars(s: Seq<char>, n: int) -> Seq<char> {
    if s.len() > n {
        s.subrange(s.len() - n, s.len() as int)
    } else {
        s
    }
}

fn last_chars_of(s: &str, n: usize) -> (r: String)
    ensures
        r@ == last_chars(s@, n as int),
{
    let v = text::chars_of(s);
    if v.len() > n {
        text::string_of(&v, v.len() - n, v.len())
    } else {
        s.to_owned()
    }
}

/// The sections on the recent session: the beginning of its notes, and the end of the snapshot that was changed
/// last, where the most recent of it stands.
pub open spec fn session_sections(notes: Option<String>, snapshot: Option<ReadFile>) -> Seq<
    Seq<char>,
> {
    let first = match notes {
        Some(b) => if excerpt(b@, HYPGEN_MAX_SESSION_CHARS as int).len() == 0 {
            Seq::empty()
        } else {
            seq!["## SESSION.md\n\n"@ + excerpt(b@, HYPGEN_MAX_SESSION_CHARS as int)]
        },
        None => Seq::empty(),
    };
    match snapshot {
        Some(f) => match f.body {
            Some(b) => if text::is_blank(b@) {
                first
            } else {
                first.push(
                    "## Recent session snapshot ("@ + f.name@ + ")\n\n"@ + last_chars(
                        text::trim(b@),
                        HYPGEN_MAX_TRANSCRIPT_CHARS as int,
                    ),
                )
            },
            None => first,
        },
        None => first,
    }
}

/// The recent session as one text. See [`session_sections`].
pub fn read_recent_session(notes: &Option<String>, snapshot: &Option<ReadFile>) -> (r: String)
    ensures
        r@ == text::join(session_sections(*notes, *snapshot), "\n\n"@),
{
    let mut out: Vec<String> = Vec::new();
    assert(text::views(out@) =~= Seq::empty());
    if let Some(b) = notes {
        let t = text::trimmed(b.as_str());
        let cut = truncate_chars(t.as_str(), HYPGEN_MAX_SESSION_CHARS);
        if !cut.as_str().is_empty() {
            let mut section = "## SESSION.md\n\n".to_owned();
            section.append(cut.as_str());
            out.push(section);
            assert(text::views(out@) =~= seq![section@]);
        }
    }
    if let Some(f) = snapshot {
        if let Some(b) = &f.body {
            let t = text::trimmed(b.as_str());
            let cut = last_chars_of(t.as_str(), HYPGEN_MAX_TRANSCRIPT_CHARS);
            if !t.as_str().is_empty() {
                let mut section = "## Recent session snapshot (".to_owned();
                section.append(f.name.as_str());
                section.append(")\n\n");
                section.append(cut.as_str());
                proof {
                    text::lemma_views_push(out@, section);
                }
                out.push(section);
            }
        }
    }
    text::joined(&out, "\n\n")
}

// ---------------------------------------------------------------------------
// Refuted hypotheses
// ---------------------------------------------------------------------------

/// The first line that is not blank, trimmed; empty where there is none.
pub open spec fn first_line(ls: Seq<Seq<char>>, i: int) -> Seq<char>
    decreases ls.len() - i,
{
    if i < 0 || i >= ls.len() {
        Seq::empty()
    } else if text::is_blank(ls[i]) {
        first_line(ls, i + 1)
    } else {
        text::trim(ls[i])
    }
}

/// How many characters of a refuted statement are shown.
pub const REFUTED_LINE_CHARS: usize = 200;

/// One line per refuted hypothesis: the first line of its body.
pub open spec fn refuted_lines(bodies: Seq<Seq<char>>) -> Seq<Seq<char>>
    decreases bodies.len(),
{
    if bodies.len() == 0 {
        Seq::empty()
    } else {
        let rest = refuted_lines(bodies.drop_last());
        let statement = first_line(text::lines(bodies.last()), 0);
        if statement.len() == 0 {
            rest
        } else {
            rest.push("- "@ + text::take_chars(statement, REFUTED_LINE_CHARS as int))
        }
    }
}

fn first_line_of(body: &str) -> (r: String)
    ensures
        r@ == first_line(text::lines(body@), 0),
{
    let ls = text::lines_of(body);
    let ghost all = text::views(ls@);
    let mut i: usize = 0;
    while i < ls.len()
        invariant
            i <= ls@.len(),
            all == text::views(ls@),
            all == text::lines(body@),
            first_line(all, 0) == first_line(all, i as int),
        decreases ls@.len() - i,
    {
        assert(all[i as int] == ls@[i as int]@);
        if !text::blank(ls[i].as_str()) {
            return text::trimmed(ls[i].as_str());
        }
        i = i + 1;
    }
    String::new()
}

/// The refuted hypotheses as one text, given the bodies of their files. See [`refuted_lines`].
pub fn read_refuted_summaries(bodies: &Vec<String>) -> (r: String)
    ensures
        r@ == text::join(refuted_lines(text::views(bodies@)), "\n"@),
{
    let ghost all = text::views(bodies@);
    let mut out: Vec<String> = Vec::new();
    assert(text::views(out@) =~= Seq::empty());
    let mut i: usize = 0;
    while i < bodies.len()
        invariant
            i <= bodies@.len(),
            all == text::views(bodies@),
            text::views(out@) == refuted_lines(all.take(i as int)),
        decreases bodies@.len() - i,
    {
        proof {
            assert(all.take(i + 1).drop_last() =~= all.take(i as int));
            assert(all.take(i + 1).last() == bodies@[i as int]@);
        }
        let statement = first_line_of(bodies[i].as_str());
        if !statement.as_str().is_empty() {
            let mut line = "- ".to_owned();
            let cut = truncate_chars(statement.as_str(), REFUTED_LINE_CHARS);
            line.append(cut.as_str());
            proof {
                text::lemma_views_push(out@, line);
            }
            out.push(line);
        }
        i = i + 1;
    }
    assert(all.take(all.len() as int) =~= all);
    text::joined(&out, "\n")
}

/// A path with the time of the last change of its file.
pub struct AgeView {
    pub path: Seq<char>,
    pub mtime_ms: u64,
}

/// The Markdown files, as paths with times.
pub open spec fn md_files(files: Seq<TimedFile>) -> Seq<AgeView>
    decreases files.len(),
{
    if files.len() == 0 {
        Seq::empty()
    } else if tier2_extract_memories::has_md_extension(files.last().name@) {
        md_files(files.drop_last()).push(
            AgeView { path: files.last().path@, mtime_ms: files.last().mtime_ms },
        )
    } else {
        md_files(files.drop_last())
    }
}

/// A sequence ordered by age, oldest first, with one more file in it, behind those of the same age.
pub open spec fn insert_by_age(s: Seq<AgeView>, x: AgeView) -> Seq<AgeView>
    decreases s.len(),
{
    if s.len() == 0 || s.last().mtime_ms <= x.mtime_ms {
        s.push(x)
    } else {
        insert_by_age(s.drop_last(), x).push(s.last())
    }
}

pub open spec fn oldest_first(s: Seq<AgeView>) -> Seq<AgeView>
    decreases s.len(),
{
    if s.len() == 0 {
        Seq::empty()
    } else {
        insert_by_age(oldest_first(s.drop_last()), s.last())
    }
}

/// A sequence ordered by age, newest first, with one more file in it, behind those of the same age.
pub open spec fn insert_by_youth(s: Seq<AgeView>, x: AgeView) -> Seq<AgeView>
    decreases s.len(),
{
    if s.len() == 0 || s.last().mtime_ms >= x.mtime_ms {
        s.push(x)
    } else {
        insert_by_youth(s.drop_last(), x).push(s.last())
    }
}

pub open spec fn newest_first(s: Seq<AgeView>) -> Seq<AgeView>
    decreases s.len(),
{
    if s.len() == 0 {
        Seq::empty()
    } else {
        insert_by_youth(newest_first(s.drop_last()), s.last())
    }
}

pub open spec fn paths_of(s: Seq<AgeView>) -> Seq<Seq<char>> {
    Seq::new(s.len(), |i: int| s[i].path)
}

pub open spec fn at_most(s: Seq<Seq<char>>, n: int) -> Seq<Seq<char>> {
    if s.len() > n {
        s.take(n)
    } else {
        s
    }
}

/// The refuted files that are shown: the newest ones.
pub open spec fn refuted_to_show(files: Seq<TimedFile>) -> Seq<Seq<char>> {
    at_most(paths_of(newest_first(md_files(files))), HYPGEN_MAX_REFUTED_LINES as int)
}

/// The refuted files that have to go: the oldest ones, so that no more than the limit stay.
pub open spec fn refuted_to_drop(files: Seq<TimedFile>) -> Seq<Seq<char>> {
    let all = oldest_first(md_files(files));
    if all.len() <= REFUTED_MAX_FILES {
        Seq::empty()
    } else {
        paths_of(all).take(all.len() - REFUTED_MAX_FILES)
    }
}

#[derive(Debug, Clone)]
struct Aged {
    path: String,
    mtime_ms: u64,
}

spec fn aged_views(v: Seq<Aged>) -> Seq<AgeView> {
    Seq::new(v.len(), |i: int| AgeView { path: v[i].path@, mtime_ms: v[i].mtime_ms })
}

fn insert_aged(out: &mut Vec<Aged>, x: Aged, newest: bool)
    ensures
        ({
            let v = AgeView { path: x.path@, mtime_ms: x.mtime_ms };
            aged_views(final(out)@) == if newest {
                insert_by_youth(aged_views(old(out)@), v)
            } else {
                insert_by_age(aged_views(old(out)@), v)
            }
        }),
{
    let ghost all = aged_views(out@);
    let ghost v = AgeView { path: x.path@, mtime_ms: x.mtime_ms };
    let mut p: usize = out.len();
    assert(all.take(all.len() as int) =~= all);
    assert(insert_by_age(all, v) + all.skip(all.len() as int) =~= insert_by_age(all, v));
    assert(insert_by_youth(all, v) + all.skip(all.len() as int) =~= insert_by_youth(all, v));
    while p > 0 && ((newest && out[p - 1].mtime_ms < x.mtime_ms) || (!newest && out[p - 1].mtime_ms
        > x.mtime_ms))
        invariant
            p <= out@.len(),
            all == aged_views(out@),
            v == (AgeView { path: x.path@, mtime_ms: x.mtime_ms }),
            !newest ==> insert_by_age(all, v) == insert_by_age(all.take(p as int), v) + all.skip(
                p as int,
            ),
            newest ==> insert_by_youth(all, v) == insert_by_youth(all.take(p as int), v) + all.skip(
                p as int,
            ),
        decreases p,
    {
        proof {
            let t = all.take(p as int);
            assert(t.last() == all[p - 1]);
            assert(t.drop_last() =~= all.take(p - 1));
            if newest {
                assert(insert_by_youth(t.drop_last(), v).push(t.last()) + all.skip(p as int)
                    =~= insert_by_youth(all.take(p - 1), v) + all.skip(p - 1));
            } else {
                assert(insert_by_age(t.drop_last(), v).push(t.last()) + all.skip(p as int)
                    =~= insert_by_age(all.take(p - 1), v) + all.skip(p - 1));
            }
        }
        p = p - 1;
    }
    proof {
        if p > 0 {
            assert(all.take(p as int).last() == all[p - 1]);
        }
    }
    out.insert(p, x);
    assert(aged_views(out@) =~= all.take(p as int).push(v) + all.skip(p as int));
}

fn ordered(files: &Vec<TimedFile>, newest: bool) -> (r: Vec<Aged>)
    ensures
        aged_views(r@) == if newest {
            newest_first(md_files(files@))
        } else {
            oldest_first(md_files(files@))
        },
{
    let mut out: Vec<Aged> = Vec::new();
    assert(aged_views(out@) =~= Seq::empty());
    let mut i: usize = 0;
    while i < files.len()
        invariant
            i <= files@.len(),
            aged_views(out@) == if newest {
                newest_first(md_files(files@.take(i as int)))
            } else {
                oldest_first(md_files(files@.take(i as int)))
            },
        decreases files@.len() - i,
    {
        let f = &files[i];
        proof {
            assert(files@.take(i + 1).drop_last() =~= files@.take(i as int));
        }
        if tier2_extract_memories::md_extension(f.name.as_str()) {
            proof {
                let longer = md_files(files@.take(i + 1));
                assert(longer.drop_last() =~= md_files(files@.take(i as int)));
            }
            insert_aged(&mut out, Aged { path: f.path.clone(), mtime_ms: f.mtime_ms }, newest);
        }
        i = i + 1;
    }
    assert(files@.take(files@.len() as int) =~= files@);
    out
}

fn leading_paths(files: &Vec<Aged>, n: usize) -> (r: Vec<String>)
    requires
        n <= files@.len(),
    ensures
        text::views(r@) == paths_of(aged_views(files@)).take(n as int),
{
    let ghost all = paths_of(aged_views(files@));
    let mut out: Vec<String> = Vec::new();
    let mut i: usize = 0;
    while i < n
        invariant
            i <= n <= files@.len(),
            all == paths_of(aged_views(files@)),
            text::views(out@) == all.take(i as int),
        decreases n - i,
    {
        let p = files[i].path.clone();
        proof {
            text::lemma_views_push(out@, p);
            assert(all[i as int] == p@);
            assert(all.take(i + 1) =~= all.take(i as int).push(all[i as int]));
        }
        out.push(p);
        i = i + 1;
    }
    out
}

/// See [`refuted_to_show`].
pub fn select_refuted(files: &Vec<TimedFile>) -> (r: Vec<String>)
    ensures
        text::views(r@) == refuted_to_show(files@),
{
    let all = ordered(files, true);
    assert(aged_views(all@).len() == all@.len());
    let n: usize = if all.len() > HYPGEN_MAX_REFUTED_LINES {
        HYPGEN_MAX_REFUTED_LINES
    } else {
        all.len()
    };
    assert(paths_of(aged_views(all@)).take(all@.len() as int) =~= paths_of(aged_views(all@)));
    leading_paths(&all, n)
}

/// See [`refuted_to_drop`].
pub fn prune_refuted_dir(files: &Vec<TimedFile>) -> (r: Vec<String>)
    ensures
        text::views(r@) == refuted_to_drop(files@),
{
    let all = ordered(files, false);
    assert(aged_views(all@).len() == all@.len());
    if all.len() <= REFUTED_MAX_FILES {
        let none: Vec<String> = Vec::new();
        assert(text::views(none@) =~= Seq::empty());
        return none;
    }
    leading_paths(&all, all.len() - REFUTED_MAX_FILES)
}

proof fn lemma_oldest_first_len(s: Seq<AgeView>)
    ensures
        oldest_first(s).len() == s.len(),
    decreases s.len(),
{
    if s.len() > 0 {
        lemma_oldest_first_len(s.drop_last());
        lemma_insert_len(oldest_first(s.drop_last()), s.last());
    }
}

proof fn lemma_insert_len(s: Seq<AgeView>, x: AgeView)
    ensures
        insert_by_age(s, x).len() == s.len() + 1,
    decreases s.len(),
{
    if s.len() > 0 && s.last().mtime_ms > x.mtime_ms {
        lemma_insert_len(s.drop_last(), x);
    }
}

/// Once the files that have to go are gone, no more than the limit stay.
pub proof fn refuted_directory_stays_capped(files: Seq<TimedFile>)
    ensures
        md_files(files).len() - refuted_to_drop(files).len() <= REFUTED_MAX_FILES,
{
    lemma_oldest_first_len(md_files(files));
}

// ---------------------------------------------------------------------------
// What reading the memory promises
// ---------------------------------------------------------------------------

/// Notes are the Markdown files but for the index, the notes on the session and the snapshots; insights are the
/// Markdown files whose names begin with `insight_`; every Markdown file of the queue is a draft.
pub proof fn files_are_told_by_their_names(name: Seq<char>)
    ensures
        of_kind(CorpusKind::Queue, name) <==> text::ends_with(name, ".md"@),
        of_kind(CorpusKind::Insights, name) <==> text::ends_with(name, ".md"@) && text::starts_with(
            name,
            "insight_"@,
        ),
        of_kind(CorpusKind::Reflections, name) <==> text::ends_with(name, ".md"@) && name
            != "MEMORY.md"@ && name != "SESSION.md"@ && !text::starts_with(name, ".session-"@),
        is_snapshot(name) <==> text::ends_with(name, ".md"@) && text::starts_with(
            name,
            ".session-"@,
        ),
{
}

proof fn lemma_insert_name_members(s: Seq<Seq<char>>, x: Seq<char>, y: Seq<char>)
    ensures
        insert_name(s, x).len() == s.len() + 1,
        insert_name(s, x).contains(y) <==> y == x || s.contains(y),
    decreases s.len(),
{
    let r = insert_name(s, x);
    if s.len() == 0 || text::le(s.last(), x) {
        assert(r[s.len() as int] == x);
        if s.contains(y) {
            let k = choose|k: int| 0 <= k < s.len() && s[k] == y;
            assert(r[k] == y);
        }
    } else {
        let front = s.drop_last();
        lemma_insert_name_members(front, x, y);
        let inner = insert_name(front, x);
        assert(r == inner.push(s.last()));
        assert(r[inner.len() as int] == s.last());
        if inner.contains(y) {
            let k = choose|k: int| 0 <= k < inner.len() && inner[k] == y;
            assert(r[k] == y);
        }
        if front.contains(y) {
            let k = choose|k: int| 0 <= k < front.len() && front[k] == y;
            assert(s[k] == y);
        }
        if s.contains(y) {
            let k = choose|k: int| 0 <= k < s.len() && s[k] == y;
            if k < front.len() {
                assert(front[k] == y);
            }
        }
        if r.contains(y) {
            let k = choose|k: int| 0 <= k < r.len() && r[k] == y;
            if k < inner.len() {
                assert(inner[k] == y);
            } else {
                assert(s[s.len() - 1] == y);
            }
        }
    }
}

proof fn lemma_sorted_members(kind: CorpusKind, names: Seq<Seq<char>>, y: Seq<char>)
    ensures
        sorted_of_kind(kind, names).contains(y) <==> of_kind(kind, y) && names.contains(y),
    decreases names.len(),
{
    if names.len() > 0 {
        let front = names.drop_last();
        lemma_sorted_members(kind, front, y);
        lemma_insert_name_members(sorted_of_kind(kind, front), names.last(), y);
        if front.contains(y) {
            let k = choose|k: int| 0 <= k < front.len() && front[k] == y;
            assert(names[k] == y);
        }
        if names.contains(y) {
            let k = choose|k: int| 0 <= k < names.len() && names[k] == y;
            if k < front.len() {
                assert(front[k] == y);
            }
        }
        assert(names[names.len() - 1] == names.last());
    }
}

/// Of the files of a directory, those of the kind are read, the first ones by name: twenty-four notes or insights and
/// twelve drafts at most. A file of the kind is left out only where so many stand at or before it.
pub proof fn the_first_files_are_read(kind: CorpusKind, names: Seq<Seq<char>>, y: Seq<char>)
    ensures
        corpus_files(kind, names).contains(y) ==> names.contains(y) && of_kind(kind, y),
        names.contains(y) && of_kind(kind, y) && !corpus_files(kind, names).contains(y) ==> {
            &&& corpus_files(kind, names).len() == (match kind {
                CorpusKind::Reflections => 24nat,
                CorpusKind::Insights => 24nat,
                CorpusKind::Queue => 12nat,
            })
            &&& forall|i: int|
                0 <= i < corpus_files(kind, names).len() ==> text::le(
                    #[trigger] corpus_files(kind, names)[i],
                    y,
                )
        },
        corpus_files(kind, names).len() <= (match kind {
            CorpusKind::Reflections => 24nat,
            CorpusKind::Insights => 24nat,
            CorpusKind::Queue => 12nat,
        }),
{
    let all = sorted_of_kind(kind, names);
    let read = corpus_files(kind, names);
    lemma_sorted_members(kind, names, y);
    lemma_sorted_of_kind(kind, names);
    if read.contains(y) {
        let k = choose|k: int| 0 <= k < read.len() && read[k] == y;
        assert(all[k] == y);
    }
    if names.contains(y) && of_kind(kind, y) && !read.contains(y) {
        let k = choose|k: int| 0 <= k < all.len() && all[k] == y;
        if k < read.len() {
            assert(read[k] == y);
        }
        assert forall|i: int| 0 <= i < read.len() implies text::le(#[trigger] read[i], y) by {
            assert(text::le(all[i], all[k]));
        }
    }
}

proof fn lemma_sorted_push(kind: CorpusKind, names: Seq<Seq<char>>, y: Seq<char>)
    ensures
        sorted_of_kind(kind, names.push(y)).len() == sorted_of_kind(kind, names).len() + (if of_kind(
            kind,
            y,
        ) {
            1nat
        } else {
            0nat
        }),
        !of_kind(kind, y) ==> sorted_of_kind(kind, names.push(y)) == sorted_of_kind(kind, names),
{
    assert(names.push(y).drop_last() =~= names);
    lemma_insert_name_members(sorted_of_kind(kind, names), y, y);
}

/// A file of another kind changes nothing; one more of the kind is one more to read, until the limit is reached.
pub proof fn only_files_of_the_kind_count(kind: CorpusKind, names: Seq<Seq<char>>, y: Seq<char>)
    ensures
        corpus_files(kind, Seq::empty()).len() == 0,
        !of_kind(kind, y) ==> corpus_files(kind, names.push(y)) == corpus_files(kind, names),
        of_kind(kind, y) && corpus_files(kind, names).len() < (match kind {
            CorpusKind::Reflections => 24nat,
            CorpusKind::Insights => 24nat,
            CorpusKind::Queue => 12nat,
        }) ==> corpus_files(kind, names.push(y)).len() == corpus_files(kind, names).len() + 1,
{
    lemma_sorted_push(kind, names, y);
}

/// Files are shown in their order, each under its name, and of each the first four thousand characters; a file that
/// could not be read or is blank is passed over.
pub proof fn files_are_shown_under_their_names(files: Seq<ReadFile>, f: ReadFile)
    ensures
        labeled_sections(Seq::empty()).len() == 0,
        f.body is None ==> labeled_sections(files.push(f)) == labeled_sections(files),
        f.body matches Some(b) ==> text::trim(b@).len() == 0 ==> labeled_sections(files.push(f))
            == labeled_sections(files),
        f.body matches Some(b) ==> 0 < text::trim(b@).len() <= 4000 ==> labeled_sections(files.push(f))
            == labeled_sections(files).push("## "@ + f.name@ + "\n\n"@ + text::trim(b@)),
        f.body matches Some(b) ==> text::trim(b@).len() > 4000 ==> labeled_sections(files.push(f))
            == labeled_sections(files).push(
            "## "@ + f.name@ + "\n\n"@ + text::trim(b@).subrange(0, 4000),
        ),
{
    assert(files.push(f).drop_last() =~= files);
}

/// Of the notes on the session the first eight thousand characters are shown, and of the latest snapshot the last eight
/// thousand, behind them; what could not be read or is blank is left out.
pub proof fn sessions_are_shown_from_both_ends(notes: Option<String>, snapshot: Option<ReadFile>)
    ensures
        ({
            let shown_notes = notes matches Some(b) && text::trim(b@).len() > 0;
            let shown_snapshot = snapshot matches Some(f) && f.body matches Some(b) && text::trim(
                b@,
            ).len() > 0;
            let sections = session_sections(notes, snapshot);
            &&& sections.len() == (if shown_notes {
                1nat
            } else {
                0nat
            }) + (if shown_snapshot {
                1nat
            } else {
                0nat
            })
            &&& shown_notes ==> sections[0] == "## SESSION.md\n\n"@ + text::take_chars(
                text::trim(notes->0@),
                8000,
            )
            &&& shown_snapshot ==> {
                let body = text::trim(snapshot->0.body->0@);
                &&& body.len() <= 8000 ==> sections.last() == "## Recent session snapshot ("@
                    + snapshot->0.name@ + ")\n\n"@ + body
                &&& body.len() > 8000 ==> sections.last() == "## Recent session snapshot ("@
                    + snapshot->0.name@ + ")\n\n"@ + body.skip(body.len() - 8000)
            }
        }),
{
    if let Some(f) = snapshot {
        if let Some(b) = f.body {
            let body = text::trim(b@);
            if body.len() > 8000 {
                assert(last_chars(body, 8000) =~= body.skip(body.len() - 8000));
            }
        }
    }
}

/// The first line of a text is the first one that is not blank, trimmed.
pub proof fn first_lines_are_not_blank(ls: Seq<Seq<char>>, k: int)
    requires
        0 <= k < ls.len(),
        !text::is_blank(ls[k]),
        forall|i: int| 0 <= i < k ==> text::is_blank(#[trigger] ls[i]),
    ensures
        first_line(ls, 0) == text::trim(ls[k]),
{
    lemma_first_line(ls, 0, k);
}

proof fn lemma_first_line(ls: Seq<Seq<char>>, i: int, k: int)
    requires
        0 <= i <= k < ls.len(),
        !text::is_blank(ls[k]),
        forall|m: int| 0 <= m < k ==> text::is_blank(#[trigger] ls[m]),
    ensures
        first_line(ls, i) == text::trim(ls[k]),
    decreases k - i,
{
    if i < k {
        assert(text::is_blank(ls[i]));
        lemma_first_line(ls, i + 1, k);
    }
}

/// A refuted hypothesis is shown by the first two hundred characters of its first line, behind those before it; one
/// without such a line is passed over.
pub proof fn refuted_statements_are_shown_by_line(bodies: Seq<Seq<char>>, body: Seq<char>)
    ensures
        refuted_lines(Seq::empty()).len() == 0,
        first_line(text::lines(body), 0).len() == 0 ==> refuted_lines(bodies.push(body))
            == refuted_lines(bodies),
        0 < first_line(text::lines(body), 0).len() <= 200 ==> refuted_lines(bodies.push(body))
            == refuted_lines(bodies).push("- "@ + first_line(text::lines(body), 0)),
        first_line(text::lines(body), 0).len() > 200 ==> refuted_lines(bodies.push(body))
            == refuted_lines(bodies).push("- "@ + first_line(text::lines(body), 0).subrange(0, 200)),
{
    assert(bodies.push(body).drop_last() =~= bodies);
}

proof fn lemma_by_age(s: Seq<AgeView>, x: AgeView)
    requires
        forall|i: int, j: int| 0 <= i <= j < s.len() ==> (#[trigger] s[i]).mtime_ms <= (
        #[trigger] s[j]).mtime_ms,
    ensures
        ({
            let r = insert_by_age(s, x);
            &&& r.len() == s.len() + 1
            &&& r.to_multiset() == s.to_multiset().insert(x)
            &&& forall|i: int, j: int| 0 <= i <= j < r.len() ==> (#[trigger] r[i]).mtime_ms <= (
                #[trigger] r[j]).mtime_ms
            &&& forall|i: int|
                0 <= i < r.len() ==> (#[trigger] r[i]).mtime_ms <= x.mtime_ms || (s.len() > 0
                    && r[i].mtime_ms <= s.last().mtime_ms)
        }),
    decreases s.len(),
{
    broadcast use vstd::seq_lib::group_to_multiset_ensures;

    let r = insert_by_age(s, x);
    if s.len() > 0 && s.last().mtime_ms > x.mtime_ms {
        let front = s.drop_last();
        lemma_by_age(front, x);
        let inner = insert_by_age(front, x);
        assert(front.push(s.last()) =~= s);
        assert(r.to_multiset() =~= s.to_multiset().insert(x));
        assert forall|i: int, j: int| 0 <= i <= j < r.len() implies (#[trigger] r[i]).mtime_ms <= (
        #[trigger] r[j]).mtime_ms by {
            if j == inner.len() && i < j {
                assert(r[i] == inner[i]);
                if front.len() > 0 {
                    assert(s[front.len() - 1].mtime_ms <= s[s.len() - 1].mtime_ms);
                }
            } else if i < inner.len() {
                assert(r[i] == inner[i]);
                assert(r[j] == inner[j]);
            }
        }
        assert forall|i: int| 0 <= i < r.len() implies (#[trigger] r[i]).mtime_ms
            <= s.last().mtime_ms by {
            assert(r[i].mtime_ms <= r[r.len() - 1].mtime_ms);
        }
    } else {
        assert forall|i: int, j: int| 0 <= i <= j < r.len() implies (#[trigger] r[i]).mtime_ms <= (
        #[trigger] r[j]).mtime_ms by {
            if j == s.len() && i < j {
                assert(s[i].mtime_ms <= s[s.len() - 1].mtime_ms);
            }
        }
    }
}

proof fn lemma_oldest_first(s: Seq<AgeView>)
    ensures
        oldest_first(s).len() == s.len(),
        oldest_first(s).to_multiset() == s.to_multiset(),
        forall|i: int, j: int|
            0 <= i <= j < oldest_first(s).len() ==> (#[trigger] oldest_first(s)[i]).mtime_ms <= (
            #[trigger] oldest_first(s)[j]).mtime_ms,
    decreases s.len(),
{
    broadcast use vstd::seq_lib::group_to_multiset_ensures;

    if s.len() > 0 {
        lemma_oldest_first(s.drop_last());
        lemma_by_age(oldest_first(s.drop_last()), s.last());
        assert(s.drop_last().push(s.last()) =~= s);
    } else {
        assert(oldest_first(s) =~= s);
    }
}

proof fn lemma_by_youth(s: Seq<AgeView>, x: AgeView)
    requires
        forall|i: int, j: int| 0 <= i <= j < s.len() ==> (#[trigger] s[i]).mtime_ms >= (
        #[trigger] s[j]).mtime_ms,
    ensures
        ({
            let r = insert_by_youth(s, x);
            &&& r.len() == s.len() + 1
            &&& r.to_multiset() == s.to_multiset().insert(x)
            &&& forall|i: int, j: int| 0 <= i <= j < r.len() ==> (#[trigger] r[i]).mtime_ms >= (
                #[trigger] r[j]).mtime_ms
            &&& forall|i: int|
                0 <= i < r.len() ==> (#[trigger] r[i]).mtime_ms >= x.mtime_ms || (s.len() > 0
                    && r[i].mtime_ms >= s.last().mtime_ms)
        }),
    decreases s.len(),
{
    broadcast use vstd::seq_lib::group_to_multiset_ensures;

    let r = insert_by_youth(s, x);
    if s.len() > 0 && s.last().mtime_ms < x.mtime_ms {
        let front = s.drop_last();
        lemma_by_youth(front, x);
        let inner = insert_by_youth(front, x);
        assert(front.push(s.last()) =~= s);
        assert(r.to_multiset() =~= s.to_multiset().insert(x));
        assert forall|i: int, j: int| 0 <= i <= j < r.len() implies (#[trigger] r[i]).mtime_ms >= (
        #[trigger] r[j]).mtime_ms by {
            if j == inner.len() && i < j {
                assert(r[i] == inner[i]);
                if front.len() > 0 {
                    assert(s[front.len() - 1].mtime_ms >= s[s.len() - 1].mtime_ms);
                }
            } else if i < inner.len() {
                assert(r[i] == inner[i]);
                assert(r[j] == inner[j]);
            }
        }
        assert forall|i: int| 0 <= i < r.len() implies (#[trigger] r[i]).mtime_ms
            >= s.last().mtime_ms by {
            assert(r[i].mtime_ms >= r[r.len() - 1].mtime_ms);
        }
    } else {
        assert forall|i: int, j: int| 0 <= i <= j < r.len() implies (#[trigger] r[i]).mtime_ms >= (
        #[trigger] r[j]).mtime_ms by {
            if j == s.len() && i < j {
                assert(s[i].mtime_ms >= s[s.len() - 1].mtime_ms);
            }
        }
    }
}

proof fn lemma_newest_first(s: Seq<AgeView>)
    ensures
        newest_first(s).len() == s.len(),
        newest_first(s).to_multiset() == s.to_multiset(),
        forall|i: int, j: int|
            0 <= i <= j < newest_first(s).len() ==> (#[trigger] newest_first(s)[i]).mtime_ms >= (
            #[trigger] newest_first(s)[j]).mtime_ms,
    decreases s.len(),
{
    broadcast use vstd::seq_lib::group_to_multiset_ensures;

    if s.len() > 0 {
        lemma_newest_first(s.drop_last());
        lemma_by_youth(newest_first(s.drop_last()), s.last());
        assert(s.drop_last().push(s.last()) =~= s);
    } else {
        assert(newest_first(s) =~= s);
    }
}

/// Only Markdown files count as refuted hypotheses, each with its path and its time.
pub proof fn refuted_files_are_markdown(files: Seq<TimedFile>, f: TimedFile)
    ensures
        md_files(Seq::empty()).len() == 0,
        md_files(files.push(f)) == (if f.name@.len() > 3 && text::ends_with(f.name@, ".md"@) {
            md_files(files).push(AgeView { path: f.path@, mtime_ms: f.mtime_ms })
        } else {
            md_files(files)
        }),
{
    assert(files.push(f).drop_last() =~= files);
}

/// Up to twenty refuted hypotheses are shown, newest first, and none that is not shown is newer than one that is. Some
/// arrangement of all of them, newest first, begins with those that are shown.
pub proof fn the_newest_refuted_are_shown(files: Seq<TimedFile>)
    ensures
        refuted_to_show(files).len() == (if md_files(files).len() < 20 {
            md_files(files).len()
        } else {
            20
        }),
        exists|order: Seq<AgeView>|
            {
                &&& #[trigger] order.to_multiset() == md_files(files).to_multiset()
                &&& forall|i: int, j: int|
                    0 <= i <= j < order.len() ==> (#[trigger] order[i]).mtime_ms >= (
                    #[trigger] order[j]).mtime_ms
                &&& order.len() == md_files(files).len()
                &&& forall|i: int|
                    0 <= i < refuted_to_show(files).len() ==> #[trigger] refuted_to_show(files)[i]
                        == order[i].path
            },
{
    let order = newest_first(md_files(files));
    lemma_newest_first(md_files(files));
    assert(order.to_multiset() == md_files(files).to_multiset());
}

/// Once there are more than fifty refuted hypotheses, the oldest have to go, as many as are too many; with fifty or fewer
/// none goes. Some arrangement of all of them, oldest first, begins with those that go.
pub proof fn the_oldest_refuted_go(files: Seq<TimedFile>)
    ensures
        refuted_to_drop(files).len() == (if md_files(files).len() <= 50 {
            0
        } else {
            md_files(files).len() - 50
        }),
        exists|order: Seq<AgeView>|
            {
                &&& #[trigger] order.to_multiset() == md_files(files).to_multiset()
                &&& forall|i: int, j: int|
                    0 <= i <= j < order.len() ==> (#[trigger] order[i]).mtime_ms <= (
                    #[trigger] order[j]).mtime_ms
                &&& order.len() == md_files(files).len()
                &&& forall|i: int|
                    0 <= i < refuted_to_drop(files).len() ==> #[trigger] refuted_to_drop(files)[i]
                        == order[i].path
            },
{
    let order = oldest_first(md_files(files));
    lemma_oldest_first(md_files(files));
    assert(order.to_multiset() == md_files(files).to_multiset());
}

/// Of several snapshots that were changed at the same time the first is chosen.
pub proof fn the_first_latest_snapshot_is_chosen(files: Seq<TimedFile>, n: int)
    requires
        0 <= n <= files.len(),
    ensures
        latest_snapshot(files, n) matches Some(k) ==> forall|i: int|
            0 <= i < k && is_snapshot((#[trigger] files[i]).name@) ==> files[i].mtime_ms
                < files[k].mtime_ms,
    decreases n,
{
    if n > 0 {
        the_first_latest_snapshot_is_chosen(files, n - 1);
        chosen_snapshot_is_latest(files, n - 1);
    }
}

} // verus!
