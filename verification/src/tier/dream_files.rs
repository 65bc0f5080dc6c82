//! The files of a dream directory: which ones count, how they are named, which ones are redundant,
//! which ones are pruned and which ones are promoted to the index.

use vstd::prelude::*;
use vstd::string::StringExecFns;
use crate::digest;
use crate::frontmatter;
use crate::path;
use crate::score;
use crate::text;
use crate::tier::dream_calls;
use crate::tier::dream_calls::{DreamFileScan, DreamFileView};
use crate::tier::tier2_extract_memories;

verus! {

/// The age beyond which a fragment is pruned without asking.
pub const FRAGMENT_STALE_MS: u64 = 30 * 24 * 60 * 60 * 1000;

// ---------------------------------------------------------------------------
// Listing
// ---------------------------------------------------------------------------

/// A plain file of a directory.
#[derive(Debug, Clone)]
pub struct ListedFile {
    pub name: String,
    pub path: String,
    pub mtime_ms: u64,
}

/// The dream file that a listed file is: its name begins with the prefix, ends with `.md`, and
/// something stands between.
pub open spec fn dream_file(f: ListedFile, prefix: Seq<char>) -> Option<DreamFileView> {
    match text::strip_prefix(f.name@, prefix) {
        Some(rest) => match text::strip_suffix(rest, ".md"@) {
            Some(stem) => if stem.len() == 0 {
                None
            } else {
                Some(DreamFileView { id: stem, path: f.path@, mtime_ms: f.mtime_ms })
            },
            None => None,
        },
        None => None,
    }
}

/// A sequence sorted by identifier with one more file in it, behind those with the same one.
pub open spec fn insert_by_id(s: Seq<DreamFileView>, x: DreamFileView) -> Seq<DreamFileView>
    decreases s.len(),
{
    if s.len() == 0 || text::le(s.last().id, x.id) {
        s.push(x)
    } else {
        insert_by_id(s.drop_last(), x).push(s.last())
    }
}

/// The dream files among the listed ones, sorted by identifier; files with the same one keep their
/// order.
pub open spec fn dream_files(fs: Seq<ListedFile>, prefix: Seq<char>) -> Seq<DreamFileView>
    decreases fs.len(),
{
    if fs.len() == 0 {
        Seq::empty()
    } else {
        match dream_file(fs.last(), prefix) {
            Some(f) => insert_by_id(dream_files(fs.drop_last(), prefix), f),
            None => dream_files(fs.drop_last(), prefix),
        }
    }
}

pub open spec fn sorted_by_id(s: Seq<DreamFileView>) -> bool {
    forall|i: int, j: int|
        0 <= i <= j < s.len() ==> text::le((#[trigger] s[i]).id, (#[trigger] s[j]).id)
}

proof fn lemma_insert_sorted(s: Seq<DreamFileView>, x: DreamFileView)
    requires
        sorted_by_id(s),
    ensures
        sorted_by_id(insert_by_id(s, x)),
        insert_by_id(s, x).to_multiset() == s.to_multiset().insert(x),
        insert_by_id(s, x).len() == s.len() + 1,
        forall|y: DreamFileView|
            #[trigger] insert_by_id(s, x).contains(y) ==> y == x || s.contains(y),
    decreases s.len(),
{
    broadcast use vstd::seq_lib::group_to_multiset_ensures;

    let r = insert_by_id(s, x);
    if s.len() == 0 || text::le(s.last().id, x.id) {
        assert forall|i: int, j: int| 0 <= i <= j < r.len() implies text::le(
            (#[trigger] r[i]).id,
            (#[trigger] r[j]).id,
        ) by {
            if j == s.len() && i < s.len() {
                text::lemma_le(s[i].id, s[s.len() - 1].id, x.id);
            }
            text::lemma_le(x.id, x.id, x.id);
        }
        assert forall|y: DreamFileView| r.contains(y) implies y == x || s.contains(y) by {
            let k = choose|k: int| 0 <= k < r.len() && r[k] == y;
            if k < s.len() {
                assert(s[k] == y);
            }
        }
    } else {
        let d = s.drop_last();
        assert forall|i: int, j: int| 0 <= i <= j < d.len() implies text::le(
            (#[trigger] d[i]).id,
            (#[trigger] d[j]).id,
        ) by {
            assert(d[i] == s[i] && d[j] == s[j]);
        }
        lemma_insert_sorted(d, x);
        let m = insert_by_id(d, x);
        assert(d.push(s.last()) =~= s);
        assert forall|y: DreamFileView| m.contains(y) implies text::le(y.id, s.last().id) by {
            text::lemma_le(s.last().id, x.id, x.id);
            if y != x {
                assert(insert_by_id(d, x).contains(y));
                assert(d.contains(y));
                let k = choose|k: int| 0 <= k < d.len() && d[k] == y;
                assert(s[k] == y);
                assert(text::le(s[k].id, s[s.len() - 1].id));
            }
        }
        assert forall|i: int, j: int| 0 <= i <= j < r.len() implies text::le(
            (#[trigger] r[i]).id,
            (#[trigger] r[j]).id,
        ) by {
            text::lemma_le(s.last().id, x.id, x.id);
            if j == m.len() && i < m.len() {
                assert(m[i] == r[i]);
                assert(m.contains(r[i]));
            } else if i < m.len() {
                assert(m[i] == r[i] && m[j] == r[j]);
            }
        }
        assert forall|y: DreamFileView| r.contains(y) implies y == x || s.contains(y) by {
            let k = choose|k: int| 0 <= k < r.len() && r[k] == y;
            if k < m.len() {
                assert(m[k] == y);
                assert(m.contains(y));
                if y != x {
                    assert(insert_by_id(d, x).contains(y));
                    assert(d.contains(y));
                    let q = choose|q: int| 0 <= q < d.len() && d[q] == y;
                    assert(s[q] == y);
                }
            } else {
                assert(s[s.len() - 1] == y);
            }
        }
    }
}

/// The files come sorted by identifier, and each of them is a listed file with the prefix.
pub proof fn dream_files_are_sorted(fs: Seq<ListedFile>, prefix: Seq<char>)
    ensures
        sorted_by_id(dream_files(fs, prefix)),
        forall|y: DreamFileView|
            dream_files(fs, prefix).contains(y) ==> exists|i: int|
                0 <= i < fs.len() && dream_file(#[trigger] fs[i], prefix) == Some(y),
    decreases fs.len(),
{
    if fs.len() > 0 {
        dream_files_are_sorted(fs.drop_last(), prefix);
        let rest = dream_files(fs.drop_last(), prefix);
        if let Some(f) = dream_file(fs.last(), prefix) {
            lemma_insert_sorted(rest, f);
        }
        assert forall|y: DreamFileView| dream_files(fs, prefix).contains(y) implies exists|i: int|
            0 <= i < fs.len() && dream_file(#[trigger] fs[i], prefix) == Some(y) by {
            if rest.contains(y) {
                let i = choose|i: int|
                    0 <= i < fs.drop_last().len() && dream_file(
                        #[trigger] fs.drop_last()[i],
                        prefix,
                    ) == Some(y);
                assert(fs[i] == fs.drop_last()[i]);
            } else {
                assert(dream_file(fs[fs.len() - 1], prefix) == Some(y));
            }
        }
    }
}

fn dream_file_of(f: &ListedFile, prefix: &str) -> (r: Option<DreamFileScan>)
    ensures
        match dream_file(*f, prefix@) {
            Some(v) => r matches Some(x) && x@ == v,
            None => r is None,
        },
{
    match text::without_prefix(f.name.as_str(), prefix) {
        Some(rest) => match text::without_suffix(rest.as_str(), ".md") {
            Some(stem) => if stem.as_str().is_empty() {
                None
            } else {
                Some(DreamFileScan { id: stem, path: f.path.clone(), mtime_ms: f.mtime_ms })
            },
            None => None,
        },
        None => None,
    }
}

fn insert_file(out: &mut Vec<DreamFileScan>, x: DreamFileScan)
    ensures
        dream_calls::file_views(final(out)@) == insert_by_id(
            dream_calls::file_views(old(out)@),
            x@,
        ),
{
    let ghost all = dream_calls::file_views(out@);
    let mut p: usize = out.len();
    assert(all.take(all.len() as int) =~= all);
    assert(insert_by_id(all, x@) + all.skip(all.len() as int) =~= insert_by_id(all, x@));
    while p > 0 && !text::precedes(out[p - 1].id.as_str(), x.id.as_str())
        invariant
            p <= out@.len(),
            all == dream_calls::file_views(out@),
            insert_by_id(all, x@) == insert_by_id(all.take(p as int), x@) + all.skip(p as int),
        decreases p,
    {
        proof {
            let t = all.take(p as int);
            assert(t.last() == out@[p - 1]@);
            assert(t.drop_last() =~= all.take(p - 1));
            assert(insert_by_id(t.drop_last(), x@).push(t.last()) + all.skip(p as int)
                =~= insert_by_id(all.take(p - 1), x@) + all.skip(p - 1));
        }
        p = p - 1;
    }
    proof {
        if p > 0 {
            assert(all.take(p as int).last() == out@[p - 1]@);
        }
    }
    let ghost v = x@;
    out.insert(p, x);
    assert(dream_calls::file_views(out@) =~= all.take(p as int).push(v) + all.skip(p as int));
}

/// See [`dream_files`].
pub fn scan_dreams_files(files: &Vec<ListedFile>, prefix: &str) -> (r: Vec<DreamFileScan>)
    ensures
        dream_calls::file_views(r@) == dream_files(files@, prefix@),
{
    let mut out: Vec<DreamFileScan> = Vec::new();
    let mut i: usize = 0;
    assert(dream_calls::file_views(out@) =~= Seq::empty());
    while i < files.len()
        invariant
            i <= files@.len(),
            dream_calls::file_views(out@) == dream_files(files@.take(i as int), prefix@),
        decreases files@.len() - i,
    {
        proof {
            assert(files@.take(i + 1).drop_last() =~= files@.take(i as int));
        }
        if let Some(f) = dream_file_of(&files[i], prefix) {
            insert_file(&mut out, f);
        }
        i = i + 1;
    }
    assert(files@.take(files@.len() as int) =~= files@);
    out
}

// ---------------------------------------------------------------------------
// Naming
// ---------------------------------------------------------------------------

/// A name as a safe file name stem: each character outside `[A-Za-z0-9_.-]` becomes `_`.
pub fn sanitize_name(raw: &str) -> (r: String)
    ensures
        r@ == text::sanitized(raw@),
{
    text::sanitized_of(raw)
}

/// The file name of a theme, given the digest of its identifier.
pub open spec fn theme_file(prefix: Seq<char>, id: Seq<char>, digest: Seq<u8>) -> Seq<char> {
    prefix + text::sanitized(id) + "_"@ + text::hex(digest.take(4)) + ".md"@
}

/// See [`theme_file`].
pub fn theme_filename_with(prefix: &str, theme_id: &str, digest: &Vec<u8>) -> (r: String)
    requires
        digest@.len() >= 4,
    ensures
        r@ == theme_file(prefix@, theme_id@, digest@),
{
    let mut out = prefix.to_owned();
    let stem = text::sanitized_of(theme_id);
    out.append(stem.as_str());
    out.append("_");
    let short = text::hex_of(digest, 4);
    out.append(short.as_str());
    out.append(".md");
    out
}

/// The file name of a theme: its sanitized identifier and the head of the identifier's digest, so
/// that a theme keeps its file and two themes whose sanitized names agree do not share one.
pub fn theme_filename(prefix: &str, theme_id: &str) -> (r: String)
    ensures
        r@ == theme_file(
            prefix@,
            theme_id@,
            digest::sha256_of(vstd::utf8::encode_utf8(theme_id@)),
        ),
{
    let d = digest::sha256(theme_id.as_bytes());
    theme_filename_with(prefix, theme_id, &d)
}

/// The files of two themes differ wherever the heads of their digests differ, whatever their
/// identifiers are; and the prefix of a file name can be told from it.
pub proof fn theme_files_are_told_apart(
    prefix: Seq<char>,
    id_a: Seq<char>,
    id_b: Seq<char>,
    digest_a: Seq<u8>,
    digest_b: Seq<u8>,
)
    requires
        digest_a.len() >= 4,
        digest_b.len() >= 4,
        text::hex(digest_a.take(4)) != text::hex(digest_b.take(4)),
    ensures
        theme_file(prefix, id_a, digest_a) != theme_file(prefix, id_b, digest_b),
        text::starts_with(theme_file(prefix, id_a, digest_a), prefix),
{
    let a = theme_file(prefix, id_a, digest_a);
    let b = theme_file(prefix, id_b, digest_b);
    reveal_strlit(".md");
    lemma_hex_len(digest_a.take(4));
    lemma_hex_len(digest_b.take(4));
    assert(a.subrange(a.len() - 11, a.len() - 3) =~= text::hex(digest_a.take(4)));
    assert(b.subrange(b.len() - 11, b.len() - 3) =~= text::hex(digest_b.take(4)));
    assert(a.subrange(0, prefix.len() as int) =~= prefix);
}

proof fn lemma_hex_len(bytes: Seq<u8>)
    ensures
        text::hex(bytes).len() == 2 * bytes.len(),
    decreases bytes.len(),
{
    if bytes.len() > 0 {
        lemma_hex_len(bytes.drop_last());
    }
}

// ---------------------------------------------------------------------------
// Redundancy
// ---------------------------------------------------------------------------

/// A file of the directory with the digest of its body.
#[derive(Debug, Clone)]
pub struct BodyDigest {
    pub name: String,
    pub path: String,
    pub digest: Vec<u8>,
}

/// Whether a file of the directory is compared with what is to be written to `target`: it is a memory file, and
/// not the target itself.
pub open spec fn is_compared(name: Seq<char>, p: Seq<char>, target: Seq<char>) -> bool {
    !path::same_path(p, target) && tier2_extract_memories::has_md_extension(name)
}

fn compared(name: &str, p: &str, target: &str) -> (r: bool)
    ensures
        r == is_compared(name@, p@, target@),
{
    !path::same(p, target) && tier2_extract_memories::md_extension(name)
}

/// Whether another memory file of the directory has the given body.
pub open spec fn duplicates(files: Seq<BodyDigest>, target: Seq<char>, digest: Seq<u8>) -> bool {
    exists|i: int|
        0 <= i < files.len() && is_compared((#[trigger] files[i]).name@, files[i].path@, target)
            && files[i].digest@ == digest
}

fn same_bytes(a: &Vec<u8>, b: &Vec<u8>) -> (r: bool)
    ensures
        r == (a@ == b@),
{
    if a.len() != b.len() {
        return false;
    }
    let mut i: usize = 0;
    while i < a.len()
        invariant
            i <= a@.len() == b@.len(),
            forall|k: int| 0 <= k < i ==> a@[k] == b@[k],
        decreases a@.len() - i,
    {
        if a[i] != b[i] {
            return false;
        }
        i = i + 1;
    }
    assert(a@ =~= b@);
    true
}

/// See [`duplicates`].
pub fn dreams_dir_has_duplicate_body(
    files: &Vec<BodyDigest>,
    target: &str,
    new_digest: &Vec<u8>,
) -> (r: bool)
    ensures
        r == duplicates(files@, target@, new_digest@),
{
    let mut i: usize = 0;
    while i < files.len()
        invariant
            i <= files@.len(),
            forall|k: int|
                0 <= k < i ==> !(is_compared((#[trigger] files@[k]).name@, files@[k].path@, target@)
                    && files@[k].digest@ == new_digest@),
        decreases files@.len() - i,
    {
        let f = &files[i];
        if compared(f.name.as_str(), f.path.as_str(), target) && same_bytes(&f.digest, new_digest) {
            assert(is_compared(files@[i as int].name@, files@[i as int].path@, target@));
            return true;
        }
        i = i + 1;
    }
    false
}

/// The least number of distinct words that near-duplicates are judged on.
pub const NEAR_DUP_MIN_TOKENS: usize = 12;

/// The distinct words.
pub open spec fn word_set(words: Seq<Seq<char>>) -> Set<Seq<char>> {
    words.to_set()
}

fn known_word(words: &Vec<String>, n: usize, w: &str) -> (r: bool)
    requires
        n <= words@.len(),
    ensures
        r == text::views(words@).take(n as int).contains(w@),
{
    let ghost all = text::views(words@).take(n as int);
    let mut i: usize = 0;
    while i < n
        invariant
            i <= n <= words@.len(),
            all == text::views(words@).take(n as int),
            forall|k: int| 0 <= k < i ==> #[trigger] all[k] != w@,
        decreases n - i,
    {
        if text::same(words[i].as_str(), w) {
            assert(all[i as int] == w@);
            return true;
        }
        i = i + 1;
    }
    false
}

/// How many distinct words there are, and how many of those are also among the others.
fn count_words(words: &Vec<String>, others: &Vec<String>) -> (r: (usize, usize))
    ensures
        r.0 == word_set(text::views(words@)).len(),
        r.1 == word_set(text::views(words@)).intersect(word_set(text::views(others@))).len(),
        r.1 <= r.0 <= words@.len(),
{
    let ghost all = text::views(words@);
    let ghost os = word_set(text::views(others@));
    let mut distinct: usize = 0;
    let mut shared: usize = 0;
    let mut i: usize = 0;
    assert(text::views(others@).take(others@.len() as int) =~= text::views(others@));
    assert(all.take(0).to_set() =~= Set::<Seq<char>>::empty());
    assert(all.take(0).to_set().intersect(os) =~= Set::<Seq<char>>::empty());
    while i < words.len()
        invariant
            i <= words@.len(),
            all == text::views(words@),
            os == word_set(text::views(others@)),
            text::views(others@).take(others@.len() as int) == text::views(others@),
            all.take(i as int).to_set().finite(),
            distinct == all.take(i as int).to_set().len(),
            shared == all.take(i as int).to_set().intersect(os).len(),
            shared <= distinct <= i,
        decreases words@.len() - i,
    {
        let w = words[i].as_str();
        let known = known_word(words, i, w);
        let common = known_word(others, others.len(), w);
        proof {
            let head = all.take(i as int);
            let longer = all.take(i + 1);
            let s = head.to_set();
            let t = longer.to_set();
            assert(t =~= s.insert(w@)) by {
                assert forall|x: Seq<char>| t.contains(x) == s.insert(w@).contains(x) by {
                    if t.contains(x) {
                        let k = choose|k: int| 0 <= k < longer.len() && longer[k] == x;
                        if k < i {
                            assert(head[k] == x);
                        }
                    }
                    if s.contains(x) {
                        let k = choose|k: int| 0 <= k < head.len() && head[k] == x;
                        assert(longer[k] == x);
                    }
                    if x == w@ {
                        assert(longer[i as int] == x);
                    }
                }
            }
            if os.contains(w@) {
                assert(t.intersect(os) =~= s.intersect(os).insert(w@));
            } else {
                assert(t.intersect(os) =~= s.intersect(os));
            }
        }
        if !known {
            distinct = distinct + 1;
            if common {
                shared = shared + 1;
            }
        } else {
            proof {
                let s = all.take(i as int).to_set();
                assert(s.insert(w@) =~= s);
                assert(s.intersect(os).insert(w@) =~= s.intersect(os) || !os.contains(w@));
            }
        }
        i = i + 1;
    }
    assert(all.take(all.len() as int) =~= all);
    (distinct, shared)
}

/// How many words both texts have, and how many either has.
pub open spec fn overlap(a: Seq<Seq<char>>, b: Seq<Seq<char>>) -> (nat, nat) {
    (word_set(a).intersect(word_set(b)).len(), word_set(a).union(word_set(b)).len())
}

/// Whether both texts have enough words to judge how far they overlap.
pub open spec fn can_be_judged(a: Seq<Seq<char>>, b: Seq<Seq<char>>) -> bool {
    word_set(a).len() >= NEAR_DUP_MIN_TOKENS && word_set(b).len() >= NEAR_DUP_MIN_TOKENS
}

/// See [`overlap`]; `None` where one of the texts has too few words to judge.
pub fn vocabulary_overlap(new_words: &Vec<String>, words: &Vec<String>) -> (r: Option<
    (usize, u128),
>)
    ensures
        r is Some <==> can_be_judged(text::views(new_words@), text::views(words@)),
        r matches Some(p) ==> (p.0 as nat, p.1 as nat) == overlap(
            text::views(new_words@),
            text::views(words@),
        ) && p.0 <= p.1 && p.1 > 0,
{
    let x = count_words(new_words, words);
    let y = count_words(words, new_words);
    if x.0 < NEAR_DUP_MIN_TOKENS || y.0 < NEAR_DUP_MIN_TOKENS {
        return None;
    }
    proof {
        let a = word_set(text::views(new_words@));
        let b = word_set(text::views(words@));
        vstd::seq_lib::seq_to_set_is_finite(text::views(new_words@));
        vstd::seq_lib::seq_to_set_is_finite(text::views(words@));
        vstd::set_lib::lemma_set_intersect_union_lens(a, b);
        assert(a + b == a.union(b));
        assert(a.intersect(b) =~= b.intersect(a));
        assert(a.union(b).len() == x.0 + y.0 - x.1);
    }
    Some((x.1, x.0 as u128 + y.0 as u128 - x.1 as u128))
}

/// A file of the directory with the words of its body.
#[derive(Debug, Clone)]
pub struct BodyWords {
    pub name: String,
    pub path: String,
    pub words: Vec<String>,
}

/// How far new words overlap with those of each other memory file of the directory that can be judged.
pub open spec fn overlaps(
    files: Seq<BodyWords>,
    target: Seq<char>,
    new_words: Seq<Seq<char>>,
) -> Seq<(nat, nat)>
    decreases files.len(),
{
    if files.len() == 0 {
        Seq::empty()
    } else {
        let f = files.last();
        let rest = overlaps(files.drop_last(), target, new_words);
        if is_compared(f.name@, f.path@, target) && can_be_judged(new_words, text::views(f.words@)) {
            rest.push(overlap(new_words, text::views(f.words@)))
        } else {
            rest
        }
    }
}

/// The numbers of a list of overlaps.
pub open spec fn overlap_views(v: Seq<(usize, u128)>) -> Seq<(nat, nat)> {
    Seq::new(v.len(), |i: int| (v[i].0 as nat, v[i].1 as nat))
}

/// How far new words overlap with what is in the directory. A threshold of 1 or more, given as the bit pattern of
/// a double, switches the comparison off. See [`overlaps`].
pub fn dreams_dir_overlaps(
    files: &Vec<BodyWords>,
    target: &str,
    new_words: &Vec<String>,
    threshold: u64,
) -> (r: Vec<(usize, u128)>)
    ensures
        score::at_least(threshold, score::ONE) ==> r@.len() == 0,
        !score::at_least(threshold, score::ONE) ==> overlap_views(r@) == overlaps(
            files@,
            target@,
            text::views(new_words@),
        ),
        forall|i: int| 0 <= i < r@.len() ==> 0 < (#[trigger] r@[i]).1 && r@[i].0 <= r@[i].1,
{
    let mut out: Vec<(usize, u128)> = Vec::new();
    if score::reaches(threshold, score::ONE) {
        return out;
    }
    let mut i: usize = 0;
    assert(overlap_views(out@) =~= overlaps(files@.take(0), target@, text::views(new_words@)));
    while i < files.len()
        invariant
            i <= files@.len(),
            overlap_views(out@) == overlaps(
                files@.take(i as int),
                target@,
                text::views(new_words@),
            ),
            forall|k: int| 0 <= k < out@.len() ==> 0 < (#[trigger] out@[k]).1 && out@[k].0 <= out@[k].1,
        decreases files@.len() - i,
    {
        let f = &files[i];
        proof {
            assert(files@.take(i + 1).drop_last() =~= files@.take(i as int));
            assert(files@.take(i + 1).last() == *f);
        }
        if compared(f.name.as_str(), f.path.as_str(), target) {
            if let Some(p) = vocabulary_overlap(new_words, &f.words) {
                let ghost before = out@;
                out.push(p);
                assert(overlap_views(out@) =~= overlap_views(before).push((p.0 as nat, p.1 as nat)));
            }
        }
        i = i + 1;
    }
    assert(files@.take(files@.len() as int) =~= files@);
    out
}

// ---------------------------------------------------------------------------
// Pruning
// ---------------------------------------------------------------------------

/// Whether a fragment is old enough to be pruned without asking.
pub open spec fn is_stale(f: DreamFileView, now_ms: u64) -> bool {
    f.mtime_ms != 0 && now_ms - f.mtime_ms > FRAGMENT_STALE_MS
}

/// The fragments that are pruned for their age.
pub open spec fn aged(fragments: Seq<DreamFileView>, now_ms: u64) -> Seq<DreamFileView>
    decreases fragments.len(),
{
    if fragments.len() == 0 {
        Seq::empty()
    } else if is_stale(fragments.last(), now_ms) {
        aged(fragments.drop_last(), now_ms).push(fragments.last())
    } else {
        aged(fragments.drop_last(), now_ms)
    }
}

/// Whether the model is asked which fragments to delete: there are fragments, and something points
/// at pruning them.
pub open spec fn asks_for_pruning(
    fragments: Seq<DreamFileView>,
    stale_ids: Seq<Seq<char>>,
    now_ms: u64,
) -> bool {
    fragments.len() > 0 && (stale_ids.len() > 0 || aged(fragments, now_ms).len() > 0)
}

pub open spec fn names_id(s: Seq<DreamFileView>, id: Seq<char>) -> bool {
    exists|i: int| 0 <= i < s.len() && (#[trigger] s[i]).id == id
}

/// The first fragment with the given identifier at or after `i`; the number of fragments if there is
/// none.
pub open spec fn fragment_index(fragments: Seq<DreamFileView>, id: Seq<char>, i: int) -> int
    decreases fragments.len() - i,
{
    if i < 0 || i >= fragments.len() {
        fragments.len() as int
    } else if fragments[i].id == id {
        i
    } else {
        fragment_index(fragments, id, i + 1)
    }
}

/// The fragments to prune: `targets`, and those of the fragments that the identifiers name, each
/// once.
pub open spec fn with_named(
    fragments: Seq<DreamFileView>,
    targets: Seq<DreamFileView>,
    ids: Seq<Seq<char>>,
) -> Seq<DreamFileView>
    decreases ids.len(),
{
    if ids.len() == 0 {
        targets
    } else {
        let rest = with_named(fragments, targets, ids.drop_last());
        let k = fragment_index(fragments, ids.last(), 0);
        if k < fragments.len() && !names_id(rest, ids.last()) {
            rest.push(fragments[k])
        } else {
            rest
        }
    }
}

proof fn lemma_fragment_index(fragments: Seq<DreamFileView>, id: Seq<char>, i: int)
    ensures
        0 <= i <= fragments.len() ==> i <= fragment_index(fragments, id, i) <= fragments.len(),
        fragment_index(fragments, id, i) < fragments.len() && 0 <= i ==> fragments[fragment_index(
            fragments,
            id,
            i,
        )].id == id,
    decreases fragments.len() - i,
{
    if 0 <= i < fragments.len() && fragments[i].id != id {
        lemma_fragment_index(fragments, id, i + 1);
    }
}

proof fn lemma_aged(fragments: Seq<DreamFileView>, now_ms: u64)
    ensures
        forall|i: int|
            0 <= i < aged(fragments, now_ms).len() ==> fragments.contains(
                #[trigger] aged(fragments, now_ms)[i],
            ) && is_stale(aged(fragments, now_ms)[i], now_ms),
    decreases fragments.len(),
{
    if fragments.len() > 0 {
        let rest = aged(fragments.drop_last(), now_ms);
        lemma_aged(fragments.drop_last(), now_ms);
        assert forall|i: int| 0 <= i < aged(fragments, now_ms).len() implies fragments.contains(
            #[trigger] aged(fragments, now_ms)[i],
        ) && is_stale(aged(fragments, now_ms)[i], now_ms) by {
            if i < rest.len() {
                assert(aged(fragments, now_ms)[i] == rest[i]);
                let k = choose|k: int|
                    0 <= k < fragments.drop_last().len() && fragments.drop_last()[k] == rest[i];
                assert(fragments[k] == rest[i]);
            } else {
                assert(fragments[fragments.len() - 1] == fragments.last());
            }
        }
    }
}

proof fn lemma_pruned_are_stale_or_named(
    fragments: Seq<DreamFileView>,
    ids: Seq<Seq<char>>,
    now_ms: u64,
)
    ensures
        forall|i: int|
            0 <= i < with_named(fragments, aged(fragments, now_ms), ids).len() ==> {
                let f = #[trigger] with_named(fragments, aged(fragments, now_ms), ids)[i];
                fragments.contains(f) && (is_stale(f, now_ms) || ids.contains(f.id))
            },
    decreases ids.len(),
{
    lemma_aged(fragments, now_ms);
    let all = with_named(fragments, aged(fragments, now_ms), ids);
    if ids.len() > 0 {
        lemma_pruned_are_stale_or_named(fragments, ids.drop_last(), now_ms);
        let rest = with_named(fragments, aged(fragments, now_ms), ids.drop_last());
        lemma_fragment_index(fragments, ids.last(), 0);
        assert forall|i: int| 0 <= i < all.len() implies {
            let f = #[trigger] all[i];
            fragments.contains(f) && (is_stale(f, now_ms) || ids.contains(f.id))
        } by {
            if i < rest.len() {
                assert(all[i] == rest[i]);
                if ids.drop_last().contains(rest[i].id) {
                    let k = choose|k: int|
                        0 <= k < ids.drop_last().len() && ids.drop_last()[k] == rest[i].id;
                    assert(ids[k] == rest[i].id);
                }
            } else {
                assert(ids[ids.len() - 1] == ids.last());
            }
        }
    }
}

/// Every stale fragment is among those that are pruned for their age.
proof fn lemma_stale_are_aged(fragments: Seq<DreamFileView>, now_ms: u64, i: int)
    requires
        0 <= i < fragments.len(),
        is_stale(fragments[i], now_ms),
    ensures
        aged(fragments, now_ms).contains(fragments[i]),
    decreases fragments.len(),
{
    let all = aged(fragments, now_ms);
    if i == fragments.len() - 1 {
        assert(all.last() == fragments[i]);
    } else {
        lemma_stale_are_aged(fragments.drop_last(), now_ms, i);
        let rest = aged(fragments.drop_last(), now_ms);
        let k = choose|k: int| 0 <= k < rest.len() && rest[k] == fragments[i];
        assert(all[k] == fragments[i]);
    }
}

/// What is pruned for its age is pruned whatever the model names.
proof fn lemma_targets_are_kept(
    fragments: Seq<DreamFileView>,
    targets: Seq<DreamFileView>,
    ids: Seq<Seq<char>>,
)
    ensures
        with_named(fragments, targets, ids).len() >= targets.len(),
        forall|i: int|
            0 <= i < targets.len() ==> with_named(fragments, targets, ids)[i] == #[trigger] targets[i],
    decreases ids.len(),
{
    if ids.len() > 0 {
        lemma_targets_are_kept(fragments, targets, ids.drop_last());
    }
}

/// A fragment that the model names is pruned.
proof fn lemma_named_are_pruned(
    fragments: Seq<DreamFileView>,
    targets: Seq<DreamFileView>,
    ids: Seq<Seq<char>>,
    id: Seq<char>,
)
    requires
        ids.contains(id),
        names_id(fragments, id),
    ensures
        names_id(with_named(fragments, targets, ids), id),
    decreases ids.len(),
{
    let all = with_named(fragments, targets, ids);
    let rest = with_named(fragments, targets, ids.drop_last());
    if ids.last() == id {
        lemma_fragment_index(fragments, id, 0);
        lemma_fragment_found(fragments, id, 0);
        if !names_id(rest, id) {
            assert(all.last().id == id);
        }
    } else {
        let k = choose|k: int| 0 <= k < ids.len() && ids[k] == id;
        assert(ids.drop_last()[k] == id);
        lemma_named_are_pruned(fragments, targets, ids.drop_last(), id);
        let m = choose|m: int| 0 <= m < rest.len() && (#[trigger] rest[m]).id == id;
        assert(all[m].id == id);
    }
}

proof fn lemma_fragment_found(fragments: Seq<DreamFileView>, id: Seq<char>, i: int)
    requires
        0 <= i,
        exists|k: int| i <= k < fragments.len() && (#[trigger] fragments[k]).id == id,
    ensures
        fragment_index(fragments, id, i) < fragments.len(),
    decreases fragments.len() - i,
{
    if fragments[i].id != id {
        lemma_fragment_found(fragments, id, i + 1);
    }
}

/// Whether no two of the files have the same identifier.
pub open spec fn have_distinct_ids(s: Seq<DreamFileView>) -> bool {
    forall|i: int, j: int|
        0 <= i < j < s.len() ==> (#[trigger] s[i]).id != (#[trigger] s[j]).id
}

proof fn lemma_aged_are_distinct(fragments: Seq<DreamFileView>, now_ms: u64)
    requires
        have_distinct_ids(fragments),
    ensures
        have_distinct_ids(aged(fragments, now_ms)),
    decreases fragments.len(),
{
    if fragments.len() > 0 {
        let d = fragments.drop_last();
        let rest = aged(d, now_ms);
        let all = aged(fragments, now_ms);
        assert(have_distinct_ids(d)) by {
            assert forall|i: int, j: int| 0 <= i < j < d.len() implies (#[trigger] d[i]).id != (
            #[trigger] d[j]).id by {
                assert(d[i] == fragments[i]);
                assert(d[j] == fragments[j]);
            }
        }
        lemma_aged_are_distinct(d, now_ms);
        lemma_aged(d, now_ms);
        assert forall|i: int, j: int| 0 <= i < j < all.len() implies (#[trigger] all[i]).id != (
        #[trigger] all[j]).id by {
            assert(all[i] == rest[i]);
            if j < rest.len() {
                assert(all[j] == rest[j]);
            } else {
                let k = choose|k: int| 0 <= k < d.len() && d[k] == rest[i];
                assert(fragments[k] == rest[i]);
                assert(fragments[fragments.len() - 1] == all[j]);
            }
        }
    }
}

proof fn lemma_named_stay_distinct(
    fragments: Seq<DreamFileView>,
    targets: Seq<DreamFileView>,
    ids: Seq<Seq<char>>,
)
    requires
        have_distinct_ids(targets),
    ensures
        have_distinct_ids(with_named(fragments, targets, ids)),
    decreases ids.len(),
{
    if ids.len() > 0 {
        lemma_named_stay_distinct(fragments, targets, ids.drop_last());
        lemma_fragment_index(fragments, ids.last(), 0);
    }
}

/// Nothing but fragments is pruned, and each of them is stale or named by the model. Every stale fragment is
/// pruned, and one for every identifier of a fragment that the model names; where the fragments have distinct
/// identifiers, those that are stale or named are pruned, each once.
pub proof fn only_stale_or_named_are_pruned(
    fragments: Seq<DreamFileView>,
    ids: Seq<Seq<char>>,
    now_ms: u64,
)
    ensures
        ({
            let pruned = with_named(fragments, aged(fragments, now_ms), ids);
            &&& forall|i: int|
                0 <= i < pruned.len() ==> fragments.contains(#[trigger] pruned[i]) && (is_stale(
                    pruned[i],
                    now_ms,
                ) || ids.contains(pruned[i].id))
            &&& forall|i: int|
                0 <= i < fragments.len() && is_stale(#[trigger] fragments[i], now_ms)
                    ==> pruned.contains(fragments[i])
            &&& forall|i: int|
                0 <= i < fragments.len() && ids.contains((#[trigger] fragments[i]).id) ==> names_id(
                    pruned,
                    fragments[i].id,
                )
            &&& have_distinct_ids(fragments) ==> {
                &&& have_distinct_ids(pruned)
                &&& forall|i: int|
                    0 <= i < fragments.len() && ids.contains((#[trigger] fragments[i]).id)
                        ==> pruned.contains(fragments[i])
            }
        }),
{
    let old = aged(fragments, now_ms);
    let pruned = with_named(fragments, old, ids);
    lemma_pruned_are_stale_or_named(fragments, ids, now_ms);
    lemma_targets_are_kept(fragments, old, ids);
    assert forall|i: int|
        0 <= i < fragments.len() && is_stale(#[trigger] fragments[i], now_ms) implies pruned.contains(
        fragments[i],
    ) by {
        lemma_stale_are_aged(fragments, now_ms, i);
        let k = choose|k: int| 0 <= k < old.len() && old[k] == fragments[i];
        assert(pruned[k] == old[k]);
    }
    assert forall|i: int|
        0 <= i < fragments.len() && ids.contains((#[trigger] fragments[i]).id) implies names_id(
        pruned,
        fragments[i].id,
    ) by {
        lemma_named_are_pruned(fragments, old, ids, fragments[i].id);
    }
    if have_distinct_ids(fragments) {
        lemma_aged_are_distinct(fragments, now_ms);
        lemma_named_stay_distinct(fragments, old, ids);
        assert forall|i: int|
            0 <= i < fragments.len() && ids.contains((#[trigger] fragments[i]).id) implies pruned.contains(
            fragments[i],
        ) by {
            let m = choose|m: int|
                0 <= m < pruned.len() && (#[trigger] pruned[m]).id == fragments[i].id;
            let k = choose|k: int| 0 <= k < fragments.len() && fragments[k] == pruned[m];
            assert(fragments[k].id == fragments[i].id);
            assert(k == i);
        }
    }
}

fn copy_file(f: &DreamFileScan) -> (r: DreamFileScan)
    ensures
        r@ == f@,
{
    DreamFileScan { id: f.id.clone(), path: f.path.clone(), mtime_ms: f.mtime_ms }
}

/// See [`aged`].
pub fn aged_fragments(fragments: &Vec<DreamFileScan>, now_ms: u64) -> (r: Vec<DreamFileScan>)
    ensures
        dream_calls::file_views(r@) == aged(dream_calls::file_views(fragments@), now_ms),
{
    let ghost all = dream_calls::file_views(fragments@);
    let mut out: Vec<DreamFileScan> = Vec::new();
    assert(dream_calls::file_views(out@) =~= Seq::empty());
    let mut i: usize = 0;
    while i < fragments.len()
        invariant
            i <= fragments@.len(),
            all == dream_calls::file_views(fragments@),
            dream_calls::file_views(out@) == aged(all.take(i as int), now_ms),
        decreases fragments@.len() - i,
    {
        let f = &fragments[i];
        let ghost before = out@;
        proof {
            assert(all.take(i + 1).drop_last() =~= all.take(i as int));
            assert(all.take(i + 1).last() == f@);
        }
        if f.mtime_ms != 0 && now_ms.saturating_sub(f.mtime_ms) > FRAGMENT_STALE_MS {
            let c = copy_file(f);
            out.push(c);
            assert(dream_calls::file_views(out@) =~= dream_calls::file_views(before).push(c@));
        }
        i = i + 1;
    }
    assert(all.take(all.len() as int) =~= all);
    out
}

/// See [`asks_for_pruning`].
pub fn wants_pruning_call(
    fragments: &Vec<DreamFileScan>,
    stale_ids: &Vec<String>,
    now_ms: u64,
) -> (r: bool)
    ensures
        r == asks_for_pruning(
            dream_calls::file_views(fragments@),
            text::views(stale_ids@),
            now_ms,
        ),
{
    let old = aged_fragments(fragments, now_ms);
    proof {
        assert(dream_calls::file_views(old@).len() == old@.len());
    }
    fragments.len() > 0 && (stale_ids.len() > 0 || old.len() > 0)
}

fn has_id(s: &Vec<DreamFileScan>, id: &str) -> (r: bool)
    ensures
        r == names_id(dream_calls::file_views(s@), id@),
{
    let ghost all = dream_calls::file_views(s@);
    let mut i: usize = 0;
    while i < s.len()
        invariant
            i <= s@.len(),
            all == dream_calls::file_views(s@),
            forall|k: int| 0 <= k < i ==> (#[trigger] all[k]).id != id@,
        decreases s@.len() - i,
    {
        if text::same(s[i].id.as_str(), id) {
            assert(all[i as int].id == id@);
            return true;
        }
        i = i + 1;
    }
    false
}

/// Adds to the fragments to prune those that the identifiers name. See [`with_named`].
pub fn prune_targets(
    fragments: &Vec<DreamFileScan>,
    targets: Vec<DreamFileScan>,
    delete_ids: &Vec<String>,
) -> (r: Vec<DreamFileScan>)
    ensures
        dream_calls::file_views(r@) == with_named(
            dream_calls::file_views(fragments@),
            dream_calls::file_views(targets@),
            text::views(delete_ids@),
        ),
{
    let ghost fs = dream_calls::file_views(fragments@);
    let ghost first = dream_calls::file_views(targets@);
    let ghost ids = text::views(delete_ids@);
    let mut out = targets;
    let mut i: usize = 0;
    while i < delete_ids.len()
        invariant
            i <= delete_ids@.len(),
            fs == dream_calls::file_views(fragments@),
            ids == text::views(delete_ids@),
            dream_calls::file_views(out@) == with_named(fs, first, ids.take(i as int)),
        decreases delete_ids@.len() - i,
    {
        let id = delete_ids[i].as_str();
        proof {
            assert(ids.take(i + 1).drop_last() =~= ids.take(i as int));
            assert(ids.take(i + 1).last() == id@);
        }
        let mut k: usize = 0;
        while k < fragments.len() && !text::same(fragments[k].id.as_str(), id)
            invariant
                k <= fragments@.len(),
                fs == dream_calls::file_views(fragments@),
                fragment_index(fs, id@, 0) == fragment_index(fs, id@, k as int),
            decreases fragments@.len() - k,
        {
            k = k + 1;
        }
        if k < fragments.len() && !has_id(&out, id) {
            let ghost before = out@;
            let c = copy_file(&fragments[k]);
            out.push(c);
            assert(dream_calls::file_views(out@) =~= dream_calls::file_views(before).push(c@));
        }
        i = i + 1;
    }
    assert(ids.take(ids.len() as int) =~= ids);
    out
}

// ---------------------------------------------------------------------------
// Promotion
// ---------------------------------------------------------------------------

/// Which insights are promoted to the index without asking.
#[derive(Debug, Clone, Copy, PartialEq, Eq, Structural)]
pub enum AutoPromoteTier {
    Off,
    High,
    Medium,
}

impl Default for AutoPromoteTier {
    fn default() -> (r: Self)
        ensures
            r == AutoPromoteTier::High,
    {
        AutoPromoteTier::High
    }
}

/// The lower-case form of an ASCII letter; any other character itself.
pub open spec fn ascii_lower(c: char) -> char {
    if 'A' <= c && c <= 'Z' {
        (c as u32 + 32) as char
    } else {
        c
    }
}

pub open spec fn ascii_lowered(s: Seq<char>) -> Seq<char> {
    Seq::new(s.len(), |i: int| ascii_lower(s[i]))
}

/// The tier that a name stands for, in any case.
pub open spec fn promote_tier(s: Seq<char>) -> Option<AutoPromoteTier> {
    let t = ascii_lowered(s);
    if t == "off"@ {
        Some(AutoPromoteTier::Off)
    } else if t == "high"@ {
        Some(AutoPromoteTier::High)
    } else if t == "medium"@ {
        Some(AutoPromoteTier::Medium)
    } else {
        None
    }
}

/// Whether an insight of the given confidence is promoted.
pub open spec fn admitted(tier: AutoPromoteTier, confidence: Seq<char>) -> bool {
    match tier {
        AutoPromoteTier::Off => false,
        AutoPromoteTier::High => confidence == "high"@,
        AutoPromoteTier::Medium => confidence == "high"@ || confidence == "medium"@,
    }
}

fn lower_letter(c: char) -> (r: char)
    ensures
        r == ascii_lower(c),
{
    if 'A' <= c && c <= 'Z' {
        let n: u8 = c as u8;
        (n + 32) as char
    } else {
        c
    }
}

fn lowered(s: &str) -> (r: String)
    ensures
        r@ == ascii_lowered(s@),
{
    let v = text::chars_of(s);
    let mut out = String::new();
    let mut i: usize = 0;
    while i < v.len()
        invariant
            v@ == s@,
            i <= v@.len(),
            out@ == ascii_lowered(s@).take(i as int),
        decreases v@.len() - i,
    {
        out.push(lower_letter(v[i]));
        i = i + 1;
        assert(out@ =~= ascii_lowered(s@).take(i as int));
    }
    assert(ascii_lowered(s@).take(s@.len() as int) =~= ascii_lowered(s@));
    out
}

impl AutoPromoteTier {
    /// See [`promote_tier`].
    pub fn parse(s: &str) -> (r: Option<AutoPromoteTier>)
        ensures
            r == promote_tier(s@),
    {
        let t = lowered(s);
        if text::same(t.as_str(), "off") {
            Some(AutoPromoteTier::Off)
        } else if text::same(t.as_str(), "high") {
            Some(AutoPromoteTier::High)
        } else if text::same(t.as_str(), "medium") {
            Some(AutoPromoteTier::Medium)
        } else {
            None
        }
    }

    /// See [`admitted`].
    pub fn admits(self, confidence: &str) -> (r: bool)
        ensures
            r == admitted(self, confidence@),
    {
        match self {
            AutoPromoteTier::Off => false,
            AutoPromoteTier::High => text::same(confidence, "high"),
            AutoPromoteTier::Medium => text::same(confidence, "high") || text::same(
                confidence,
                "medium",
            ),
        }
    }
}

/// The value of a key in the front matter at the head of a file; empty where there is none. Front
/// matter that no rule ends goes on to the end of the file.
pub open spec fn head_field(raw: Seq<char>, key: Seq<char>) -> Seq<char> {
    let ls = text::lines(raw);
    if ls.len() == 0 || !frontmatter::is_rule(ls[0]) {
        Seq::empty()
    } else {
        frontmatter::field_value(ls.subrange(1, frontmatter::next_rule(ls, 1)), key)
    }
}

/// The name, description and confidence in the front matter of an insight. See [`head_field`].
pub fn scan_insight_frontmatter(raw: &str) -> (r: (String, String, String))
    ensures
        r.0@ == head_field(raw@, "name:"@),
        r.1@ == head_field(raw@, "description:"@),
        r.2@ == head_field(raw@, "confidence:"@),
{
    let ls = text::lines_of(raw);
    assert(text::views(ls@).len() == ls@.len());
    if ls.len() == 0 || !frontmatter::rule(ls[0].as_str()) {
        return (String::new(), String::new(), String::new());
    }
    let end = frontmatter::rule_from(&ls, 1);
    (
        frontmatter::field_of(&ls, 1, end, "name:"),
        frontmatter::field_of(&ls, 1, end, "description:"),
        frontmatter::field_of(&ls, 1, end, "confidence:"),
    )
}

/// An insight that was written: its file name and its content.
#[derive(Debug, Clone)]
pub struct WrittenInsight {
    pub file_name: String,
    pub raw: String,
}

/// The index line of an insight.
pub open spec fn promotion_line(w: WrittenInsight) -> Seq<char> {
    let name = head_field(w.raw@, "name:"@);
    let description = head_field(w.raw@, "description:"@);
    let title = if description.len() > 0 {
        description
    } else if name.len() > 0 {
        name
    } else {
        w.file_name@
    };
    "- ["@ + title + "](dreams/"@ + w.file_name@ + ") — 梦境洞察（"@ + head_field(
        w.raw@,
        "confidence:"@,
    ) + "·自动晋级）"@
}

/// The index lines of the insights that are promoted.
pub open spec fn promotion_lines(tier: AutoPromoteTier, ws: Seq<WrittenInsight>) -> Seq<Seq<char>>
    decreases ws.len(),
{
    if ws.len() == 0 {
        Seq::empty()
    } else if admitted(tier, head_field(ws.last().raw@, "confidence:"@)) {
        promotion_lines(tier, ws.drop_last()).push(promotion_line(ws.last()))
    } else {
        promotion_lines(tier, ws.drop_last())
    }
}

/// See [`promotion_lines`].
pub fn promotion_lines_of(auto_promote: AutoPromoteTier, insights: &Vec<WrittenInsight>) -> (r:
    Vec<String>)
    ensures
        text::views(r@) == promotion_lines(auto_promote, insights@),
{
    let mut out: Vec<String> = Vec::new();
    assert(text::views(out@) =~= Seq::empty());
    let mut i: usize = 0;
    while i < insights.len()
        invariant
            i <= insights@.len(),
            text::views(out@) == promotion_lines(auto_promote, insights@.take(i as int)),
        decreases insights@.len() - i,
    {
        let w = &insights[i];
        proof {
            assert(insights@.take(i + 1).drop_last() =~= insights@.take(i as int));
        }
        let head = scan_insight_frontmatter(w.raw.as_str());
        if auto_promote.admits(head.2.as_str()) {
            let mut line = "- [".to_owned();
            if !head.1.as_str().is_empty() {
                line.append(head.1.as_str());
            } else if !head.0.as_str().is_empty() {
                line.append(head.0.as_str());
            } else {
                line.append(w.file_name.as_str());
            }
            line.append("](dreams/");
            line.append(w.file_name.as_str());
            line.append(") — 梦境洞察（");
            line.append(head.2.as_str());
            line.append("·自动晋级）");
            proof {
                text::lemma_views_push(out@, line);
            }
            out.push(line);
        }
        i = i + 1;
    }
    assert(insights@.take(insights@.len() as int) =~= insights@);
    out
}

/// The lines by which insights are newly put into the index: those that qualify and do not stand in it yet. With these
/// lines the index becomes what it becomes with all that qualify, and against what it becomes none is new.
pub fn auto_promote_insights(
    index: &str,
    auto_promote: AutoPromoteTier,
    insights: &Vec<WrittenInsight>,
) -> (r: Vec<String>)
    ensures
        ({
            let all = promotion_lines(auto_promote, insights@);
            let after = tier2_extract_memories::new_index(index@, text::views(r@));
            &&& text::views(r@) == tier2_extract_memories::lines_new_to(index@, all)
            &&& after == tier2_extract_memories::new_index(index@, all)
            &&& after is None <==> r@.len() == 0
            &&& after matches Some(a) ==> tier2_extract_memories::lines_new_to(a, all).len() == 0
        }),
{
    let all = promotion_lines_of(auto_promote, insights);
    let r = tier2_extract_memories::lines_to_add(index, &all);
    proof {
        tier2_extract_memories::only_new_lines_count(index@, text::views(all@));
        assert(text::views(r@).len() == r@.len());
    }
    r
}

/// Where promotion is off, nothing is promoted.
pub proof fn nothing_promoted_when_off(ws: Seq<WrittenInsight>)
    ensures
        promotion_lines(AutoPromoteTier::Off, ws).len() == 0,
    decreases ws.len(),
{
    if ws.len() > 0 {
        nothing_promoted_when_off(ws.drop_last());
    }
}

// ---------------------------------------------------------------------------
// What the files of dreams promise
// ---------------------------------------------------------------------------

/// A fragment is stale exactly where its time is known and more than thirty days have passed since.
pub proof fn fragments_are_stale_after_thirty_days(f: DreamFileView, now_ms: u64)
    ensures
        is_stale(f, now_ms) <==> f.mtime_ms != 0 && now_ms > f.mtime_ms + 2_592_000_000,
{
}

/// The model is asked about pruning where there are fragments, and a prior insight was found stale or one of the
/// fragments is older than thirty days.
pub proof fn pruning_is_asked_for_a_reason(
    fragments: Seq<DreamFileView>,
    stale_ids: Seq<Seq<char>>,
    now_ms: u64,
)
    ensures
        asks_for_pruning(fragments, stale_ids, now_ms) <==> fragments.len() > 0 && (stale_ids.len()
            > 0 || exists|i: int|
            0 <= i < fragments.len() && (#[trigger] fragments[i]).mtime_ms != 0 && now_ms
                > fragments[i].mtime_ms + 2_592_000_000),
{
    let old = aged(fragments, now_ms);
    lemma_aged(fragments, now_ms);
    if old.len() > 0 {
        assert(fragments.contains(old[0]));
        let k = choose|k: int| 0 <= k < fragments.len() && fragments[k] == old[0];
        assert(is_stale(fragments[k], now_ms));
    }
    if exists|i: int|
        0 <= i < fragments.len() && (#[trigger] fragments[i]).mtime_ms != 0 && now_ms
            > fragments[i].mtime_ms + 2_592_000_000 {
        let i = choose|i: int|
            0 <= i < fragments.len() && (#[trigger] fragments[i]).mtime_ms != 0 && now_ms
                > fragments[i].mtime_ms + 2_592_000_000;
        lemma_stale_are_aged(fragments, now_ms, i);
    }
}

/// A listed file is a dream file exactly where its name is the prefix, something, and the extension; that something is
/// its identifier.
pub proof fn dream_files_are_named(f: ListedFile, prefix: Seq<char>, stem: Seq<char>)
    ensures
        f.name@ == prefix + stem + ".md"@ && stem.len() > 0 ==> dream_file(f, prefix) == Some(
            DreamFileView { id: stem, path: f.path@, mtime_ms: f.mtime_ms },
        ),
        dream_file(f, prefix) matches Some(d) ==> f.name@ == prefix + d.id + ".md"@ && d.id.len()
            > 0 && d.path == f.path@ && d.mtime_ms == f.mtime_ms,
{
    let name = f.name@;
    reveal_strlit(".md");
    if name == prefix + stem + ".md"@ {
        let rest = name.subrange(prefix.len() as int, name.len() as int);
        assert(name.subrange(0, prefix.len() as int) =~= prefix);
        assert(rest =~= stem + ".md"@);
        assert(rest.subrange(rest.len() - 3, rest.len() as int) =~= ".md"@);
        assert(rest.subrange(0, rest.len() - 3) =~= stem);
    }
    if dream_file(f, prefix) is Some {
        let d = dream_file(f, prefix)->0;
        let rest = name.subrange(prefix.len() as int, name.len() as int);
        assert(rest =~= d.id + rest.subrange(rest.len() - 3, rest.len() as int));
        assert(name =~= name.subrange(0, prefix.len() as int) + rest);
        assert(name =~= prefix + d.id + ".md"@);
    }
}

/// No dream file is lost in the listing, and none comes twice.
pub proof fn every_dream_file_is_listed(fs: Seq<ListedFile>, prefix: Seq<char>, f: ListedFile)
    ensures
        dream_files(Seq::empty(), prefix).len() == 0,
        dream_file(f, prefix) is None ==> dream_files(fs.push(f), prefix) == dream_files(fs, prefix),
        dream_file(f, prefix) matches Some(d) ==> dream_files(fs.push(f), prefix).to_multiset()
            == dream_files(fs, prefix).to_multiset().insert(d),
{
    assert(fs.push(f).drop_last() =~= fs);
    dream_files_are_sorted(fs, prefix);
    if dream_file(f, prefix) is Some {
        lemma_insert_sorted(dream_files(fs, prefix), dream_file(f, prefix)->0);
    }
}

/// A memory is a duplicate exactly of another Markdown file with the same digest: never of the file that it would
/// replace.
pub proof fn duplicates_are_other_files(
    files: Seq<BodyDigest>,
    target: Seq<char>,
    digest: Seq<u8>,
    f: BodyDigest,
)
    ensures
        !duplicates(Seq::empty(), target, digest),
        duplicates(files.push(f), target, digest) <==> duplicates(files, target, digest) || (
        f.digest@ == digest && path::components(f.path@) != path::components(target)
            && text::ends_with(f.name@, ".md"@) && f.name@.len() > 3),
{
    let more = files.push(f);
    if duplicates(more, target, digest) {
        let i = choose|i: int|
            0 <= i < more.len() && is_compared((#[trigger] more[i]).name@, more[i].path@, target)
                && more[i].digest@ == digest;
        if i < files.len() {
            assert(files[i] == more[i]);
        }
    }
    if duplicates(files, target, digest) {
        let i = choose|i: int|
            0 <= i < files.len() && is_compared((#[trigger] files[i]).name@, files[i].path@, target)
                && files[i].digest@ == digest;
        assert(more[i] == files[i]);
    }
    assert(more[files.len() as int] == f);
}

/// Two texts are compared by their words only where each has a dozen distinct ones; what is compared is how many they
/// share and how many there are in all, each counted once, whichever comes first.
pub proof fn overlaps_count_distinct_words(a: Seq<Seq<char>>, b: Seq<Seq<char>>)
    ensures
        can_be_judged(a, b) <==> a.to_set().len() >= 12 && b.to_set().len() >= 12,
        can_be_judged(a, b) == can_be_judged(b, a),
        overlap(a, b) == overlap(b, a),
        overlap(a, b).0 + overlap(a, b).1 == a.to_set().len() + b.to_set().len(),
        overlap(a, a) == (a.to_set().len(), a.to_set().len()),
{
    vstd::seq_lib::seq_to_set_is_finite(a);
    vstd::seq_lib::seq_to_set_is_finite(b);
    let x = a.to_set();
    let y = b.to_set();
    vstd::set_lib::lemma_set_intersect_union_lens(x, y);
    assert(x + y == x.union(y));
    assert(x.intersect(y) =~= y.intersect(x));
    assert(x.union(y) =~= y.union(x));
    assert(x.intersect(x) =~= x);
    assert(x.union(x) =~= x);
}

/// One file more of the directory is compared where it is another Markdown file with enough words.
pub proof fn every_other_file_is_compared(
    files: Seq<BodyWords>,
    target: Seq<char>,
    words: Seq<Seq<char>>,
    f: BodyWords,
)
    ensures
        overlaps(Seq::empty(), target, words).len() == 0,
        ({
            let theirs = text::views(f.words@);
            let judged = path::components(f.path@) != path::components(target) && text::ends_with(
                f.name@,
                ".md"@,
            ) && f.name@.len() > 3 && words.to_set().len() >= 12 && theirs.to_set().len() >= 12;
            overlaps(files.push(f), target, words) == (if judged {
                overlaps(files, target, words).push(
                    (
                        words.to_set().intersect(theirs.to_set()).len(),
                        words.to_set().union(theirs.to_set()).len(),
                    ),
                )
            } else {
                overlaps(files, target, words)
            })
        }),
{
    assert(files.push(f).drop_last() =~= files);
}

/// Which insights are promoted: those of high confidence, those of medium confidence too where the user asks for it, and
/// none where promotion is off.
pub proof fn promotion_goes_by_confidence(confidence: Seq<char>)
    ensures
        !admitted(AutoPromoteTier::Off, confidence),
        admitted(AutoPromoteTier::High, confidence) <==> confidence == "high"@,
        admitted(AutoPromoteTier::Medium, confidence) <==> confidence == "high"@ || confidence
            == "medium"@,
{
}

/// One insight more that was written: where its confidence qualifies, the index is offered a line that links to it and
/// shows its description, or else its name, or else its file.
pub proof fn promoted_insights_are_linked(
    tier: AutoPromoteTier,
    ws: Seq<WrittenInsight>,
    w: WrittenInsight,
)
    ensures
        promotion_lines(tier, Seq::empty()).len() == 0,
        ({
            let confidence = head_field(w.raw@, "confidence:"@);
            let description = head_field(w.raw@, "description:"@);
            let name = head_field(w.raw@, "name:"@);
            let title = if description.len() > 0 {
                description
            } else if name.len() > 0 {
                name
            } else {
                w.file_name@
            };
            promotion_lines(tier, ws.push(w)) == (if tier != AutoPromoteTier::Off && (confidence
                == "high"@ || tier == AutoPromoteTier::Medium && confidence == "medium"@) {
                promotion_lines(tier, ws).push(
                    "- ["@ + title + "](dreams/"@ + w.file_name@ + ") — 梦境洞察（"@ + confidence
                        + "·自动晋级）"@,
                )
            } else {
                promotion_lines(tier, ws)
            })
        }),
{
    assert(ws.push(w).drop_last() =~= ws);
}

/// The fields at the head of a file are those between its first line, a rule, and the next rule; a file that begins with
/// anything else has none.
pub proof fn heads_stand_between_rules(raw: Seq<char>, key: Seq<char>, end: int)
    requires
        text::lines(raw).len() > 0,
        1 <= end <= text::lines(raw).len(),
        forall|k: int| 1 <= k < end ==> !frontmatter::is_rule(#[trigger] text::lines(raw)[k]),
        end < text::lines(raw).len() ==> frontmatter::is_rule(text::lines(raw)[end]),
    ensures
        frontmatter::is_rule(text::lines(raw)[0]) ==> head_field(raw, key)
            == frontmatter::field_value(text::lines(raw).subrange(1, end), key),
        !frontmatter::is_rule(text::lines(raw)[0]) ==> head_field(raw, key).len() == 0,
{
    frontmatter::lemma_rule_at(text::lines(raw), 1, end);
}

/// The settings of promotion are read whatever case they are written in.
pub proof fn promotion_settings_are_read_in_any_case(s: Seq<char>, t: Seq<char>)
    requires
        s.len() == t.len(),
        forall|i: int|
            0 <= i < s.len() ==> (#[trigger] s[i]) == t[i] || 'A' <= s[i] && s[i] <= 'Z' && t[i] as int
                == s[i] as int + 32,
        t == "off"@ || t == "high"@ || t == "medium"@,
    ensures
        promote_tier(s) == Some(
            if t == "off"@ {
                AutoPromoteTier::Off
            } else if t == "high"@ {
                AutoPromoteTier::High
            } else {
                AutoPromoteTier::Medium
            },
        ),
{
    reveal_strlit("off");
    reveal_strlit("high");
    reveal_strlit("medium");
    assert forall|i: int| 0 <= i < s.len() implies ascii_lower(s[i]) == t[i] by {
        assert(s[i] == t[i] || 'A' <= s[i] && s[i] <= 'Z' && t[i] as int == s[i] as int + 32);
        assert(!('A' <= t[i] && t[i] <= 'Z'));
    }
    assert(ascii_lowered(s) =~= t);
}

/// Nothing but the three names of the settings is one of them, in whatever case.
pub proof fn other_settings_are_not_read(s: Seq<char>)
    ensures
        promote_tier(s) matches Some(tier) ==> ({
            let t = match tier {
                AutoPromoteTier::Off => "off"@,
                AutoPromoteTier::High => "high"@,
                AutoPromoteTier::Medium => "medium"@,
            };
            s.len() == t.len() && forall|i: int|
                0 <= i < s.len() ==> #[trigger] s[i] == t[i] || s[i] as int + 32 == t[i] as int
        }),
{
    if let Some(tier) = promote_tier(s) {
        let t = match tier {
            AutoPromoteTier::Off => "off"@,
            AutoPromoteTier::High => "high"@,
            AutoPromoteTier::Medium => "medium"@,
        };
        assert(ascii_lowered(s) == t);
        assert(s.len() == t.len());
        assert forall|i: int| 0 <= i < s.len() implies #[trigger] s[i] == t[i] || s[i] as int + 32
            == t[i] as int by {
            assert(ascii_lowered(s)[i] == ascii_lower(s[i]));
        }
    }
}

/// The file of a theme is listed under its prefix, with the safe form of the name of the theme and eight digits of its
/// digest for an identifier.
pub proof fn theme_files_are_listed_under_their_prefix(
    f: ListedFile,
    prefix: Seq<char>,
    id: Seq<char>,
    digest: Seq<u8>,
)
    requires
        digest.len() >= 4,
        f.name@ == theme_file(prefix, id, digest),
    ensures
        dream_file(f, prefix) == Some(
            DreamFileView {
                id: text::sanitized(id).push('_') + text::hex(digest.subrange(0, 4)),
                path: f.path@,
                mtime_ms: f.mtime_ms,
            },
        ),
        text::hex(digest.subrange(0, 4)).len() == 8,
{
    reveal_strlit("_");
    let stem = text::sanitized(id).push('_') + text::hex(digest.subrange(0, 4));
    assert(digest.take(4) =~= digest.subrange(0, 4));
    assert(f.name@ =~= prefix + stem + ".md"@);
    dream_files_are_named(f, prefix, stem);
    text::lemma_hex(digest.subrange(0, 4));
}

} // verus!
