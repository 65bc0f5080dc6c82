//! Text as a sequence of characters: the operations the orchestrator needs, each with a
//! mathematical definition and an executable counterpart.

use vstd::prelude::*;
use vstd::string::StringExecFns;

verus! {

/// `String::push` appends one character.
pub assume_specification[ String::push ](s: &mut String, c: char)
    ensures
        final(s)@ == old(s)@.push(c),
;

// ---------------------------------------------------------------------------
// Definitions
// ---------------------------------------------------------------------------

/// The characters with the Unicode `White_Space` property.
pub open spec fn is_white(c: char) -> bool {
    let n = c as int;
    ||| 9 <= n <= 13
    ||| n == 0x20
    ||| n == 0x85
    ||| n == 0xA0
    ||| n == 0x1680
    ||| 0x2000 <= n <= 0x200A
    ||| n == 0x2028
    ||| n == 0x2029
    ||| n == 0x202F
    ||| n == 0x205F
    ||| n == 0x3000
}

/// `s` without its leading white space.
pub open spec fn trim_start(s: Seq<char>) -> Seq<char>
    decreases s.len(),
{
    if s.len() > 0 && is_white(s[0]) {
        trim_start(s.subrange(1, s.len() as int))
    } else {
        s
    }
}

/// `s` without its trailing white space.
pub open spec fn trim_end(s: Seq<char>) -> Seq<char>
    decreases s.len(),
{
    if s.len() > 0 && is_white(s.last()) {
        trim_end(s.drop_last())
    } else {
        s
    }
}

/// `s` without white space at either end.
pub open spec fn trim(s: Seq<char>) -> Seq<char> {
    trim_end(trim_start(s))
}

/// Whether `s` holds nothing but white space.
pub open spec fn is_blank(s: Seq<char>) -> bool {
    trim(s).len() == 0
}

/// Whether `pat` stands in `s` at index `i`.
pub open spec fn matches_at(s: Seq<char>, pat: Seq<char>, i: int) -> bool {
    0 <= i && i + pat.len() <= s.len() && s.subrange(i, i + pat.len()) == pat
}

/// Whether `pat` stands somewhere in `s`.
pub open spec fn contains(s: Seq<char>, pat: Seq<char>) -> bool {
    exists|i: int| matches_at(s, pat, i)
}

pub open spec fn starts_with(s: Seq<char>, pat: Seq<char>) -> bool {
    matches_at(s, pat, 0)
}

pub open spec fn ends_with(s: Seq<char>, pat: Seq<char>) -> bool {
    matches_at(s, pat, s.len() - pat.len())
}

/// The first index at or after `i` where `pat` stands in `s`.
pub open spec fn find_from(s: Seq<char>, pat: Seq<char>, i: int) -> Option<int>
    decreases s.len() + 1 - i,
{
    if i < 0 || i + pat.len() > s.len() {
        None
    } else if matches_at(s, pat, i) {
        Some(i)
    } else {
        find_from(s, pat, i + 1)
    }
}

/// The last index at or before `i` where `pat` stands in `s`.
pub open spec fn rfind_from(s: Seq<char>, pat: Seq<char>, i: int) -> Option<int>
    decreases i + 1,
{
    if i < 0 {
        None
    } else if matches_at(s, pat, i) {
        Some(i)
    } else {
        rfind_from(s, pat, i - 1)
    }
}

/// What precedes and what follows the first `pat` in `s`.
pub open spec fn split_once(s: Seq<char>, pat: Seq<char>) -> Option<(Seq<char>, Seq<char>)> {
    match find_from(s, pat, 0) {
        Some(i) => Some((s.subrange(0, i), s.subrange(i + pat.len(), s.len() as int))),
        None => None,
    }
}

/// What precedes and what follows the last `pat` in `s`.
pub open spec fn rsplit_once(s: Seq<char>, pat: Seq<char>) -> Option<(Seq<char>, Seq<char>)> {
    match rfind_from(s, pat, s.len() - pat.len()) {
        Some(i) => Some((s.subrange(0, i), s.subrange(i + pat.len(), s.len() as int))),
        None => None,
    }
}

/// `s` without the prefix `pat`, where it has it.
pub open spec fn strip_prefix(s: Seq<char>, pat: Seq<char>) -> Option<Seq<char>> {
    if starts_with(s, pat) {
        Some(s.subrange(pat.len() as int, s.len() as int))
    } else {
        None
    }
}

/// `s` without the suffix `pat`, where it has it.
pub open spec fn strip_suffix(s: Seq<char>, pat: Seq<char>) -> Option<Seq<char>> {
    if ends_with(s, pat) {
        Some(s.subrange(0, s.len() - pat.len()))
    } else {
        None
    }
}

/// `s` from `i` on, every occurrence of the non-empty `pat`, taken from left to right,
/// replaced by `with`.
pub open spec fn replace_from(s: Seq<char>, pat: Seq<char>, with: Seq<char>, i: int) -> Seq<char>
    decreases s.len() - i,
{
    if i < 0 || i >= s.len() || pat.len() == 0 {
        Seq::empty()
    } else if matches_at(s, pat, i) {
        with + replace_from(s, pat, with, i + pat.len())
    } else {
        seq![s[i]] + replace_from(s, pat, with, i + 1)
    }
}

/// `s` with every occurrence of the non-empty `pat` replaced by `with`.
pub open spec fn replace(s: Seq<char>, pat: Seq<char>, with: Seq<char>) -> Seq<char> {
    replace_from(s, pat, with, 0)
}

/// The index of the first `c` in `s` at or after `i`; the length of `s` if there is none.
pub open spec fn next_index(s: Seq<char>, c: char, i: int) -> int
    decreases s.len() - i,
{
    if i < 0 || i >= s.len() {
        s.len() as int
    } else if s[i] == c {
        i
    } else {
        next_index(s, c, i + 1)
    }
}

/// A line that a line feed ends, without the carriage return before the line feed.
pub open spec fn without_cr(s: Seq<char>) -> Seq<char> {
    if s.len() > 0 && s.last() == '\r' {
        s.drop_last()
    } else {
        s
    }
}

/// The lines of `s` from `i` on. A line ends at a line feed, or at a carriage return followed
/// by a line feed; the last one may end without.
pub open spec fn lines_from(s: Seq<char>, i: int) -> Seq<Seq<char>>
    decreases s.len() - i,
    via lines_from_decreases
{
    if i < 0 || i >= s.len() {
        Seq::empty()
    } else {
        let j = next_index(s, '\n', i);
        if j >= s.len() {
            seq![s.subrange(i, s.len() as int)]
        } else {
            seq![without_cr(s.subrange(i, j))] + lines_from(s, j + 1)
        }
    }
}

#[via_fn]
proof fn lines_from_decreases(s: Seq<char>, i: int) {
    lemma_next_index(s, '\n', i);
}

/// The lines of `s`.
pub open spec fn lines(s: Seq<char>) -> Seq<Seq<char>> {
    lines_from(s, 0)
}

/// The pieces of `s` from `i` on that stand between occurrences of `c`.
pub open spec fn split_from(s: Seq<char>, c: char, i: int) -> Seq<Seq<char>>
    decreases s.len() - i,
    via split_from_decreases
{
    if i < 0 || i > s.len() {
        Seq::empty()
    } else {
        let j = next_index(s, c, i);
        if j >= s.len() {
            seq![s.subrange(i, s.len() as int)]
        } else {
            seq![s.subrange(i, j)] + split_from(s, c, j + 1)
        }
    }
}

#[via_fn]
proof fn split_from_decreases(s: Seq<char>, c: char, i: int) {
    lemma_next_index(s, c, i);
}

/// The pieces of `s` between occurrences of `c`.
pub open spec fn split(s: Seq<char>, c: char) -> Seq<Seq<char>> {
    split_from(s, c, 0)
}

/// `parts`, one after the other, with `sep` between neighbours.
pub open spec fn join(parts: Seq<Seq<char>>, sep: Seq<char>) -> Seq<char>
    decreases parts.len(),
{
    if parts.len() == 0 {
        Seq::empty()
    } else if parts.len() == 1 {
        parts[0]
    } else {
        join(parts.drop_last(), sep) + sep + parts.last()
    }
}

/// The first `n` characters of `s`, or all of it.
pub open spec fn take_chars(s: Seq<char>, n: int) -> Seq<char> {
    if n >= s.len() {
        s
    } else {
        s.subrange(0, n)
    }
}

/// Whether `a` stands before `b`, or is `b`, in the order of code points.
pub open spec fn le(a: Seq<char>, b: Seq<char>) -> bool
    decreases a.len(),
{
    if a.len() == 0 {
        true
    } else if b.len() == 0 {
        false
    } else if a[0] != b[0] {
        a[0] < b[0]
    } else {
        le(a.subrange(1, a.len() as int), b.subrange(1, b.len() as int))
    }
}

/// The contents of strings.
pub open spec fn views(v: Seq<String>) -> Seq<Seq<char>> {
    Seq::new(v.len(), |i: int| v[i]@)
}

/// The content of an optional string.
pub open spec fn opt_view(v: Option<String>) -> Option<Seq<char>> {
    match v {
        Some(s) => Some(s@),
        None => None,
    }
}

pub open spec fn is_ascii_alnum(c: char) -> bool {
    ||| '0' <= c && c <= '9'
    ||| 'a' <= c && c <= 'z'
    ||| 'A' <= c && c <= 'Z'
}

pub open spec fn is_ascii_hex(c: char) -> bool {
    ||| '0' <= c && c <= '9'
    ||| 'a' <= c && c <= 'f'
    ||| 'A' <= c && c <= 'F'
}

/// The digit of value `d`, in lower case.
pub open spec fn hex_digit(d: int) -> char {
    if d <= 0 { '0' }
    else if d == 1 { '1' }
    else if d == 2 { '2' }
    else if d == 3 { '3' }
    else if d == 4 { '4' }
    else if d == 5 { '5' }
    else if d == 6 { '6' }
    else if d == 7 { '7' }
    else if d == 8 { '8' }
    else if d == 9 { '9' }
    else if d == 10 { 'a' }
    else if d == 11 { 'b' }
    else if d == 12 { 'c' }
    else if d == 13 { 'd' }
    else if d == 14 { 'e' }
    else { 'f' }
}

/// The decimal numeral of `n`.
pub open spec fn decimal(n: nat) -> Seq<char>
    decreases n,
{
    if n < 10 {
        seq![hex_digit(n as int)]
    } else {
        decimal(n / 10).push(hex_digit((n % 10) as int))
    }
}

/// `s` with zeros in front, up to `width` characters.
pub open spec fn zero_padded(s: Seq<char>, width: nat) -> Seq<char> {
    if s.len() >= width {
        s
    } else {
        Seq::new((width - s.len()) as nat, |i: int| '0') + s
    }
}

/// Two lower-case hexadecimal digits per byte.
pub open spec fn hex(bytes: Seq<u8>) -> Seq<char>
    decreases bytes.len(),
{
    if bytes.len() == 0 {
        Seq::empty()
    } else {
        hex(bytes.drop_last()).push(hex_digit((bytes.last() / 16) as int)).push(
            hex_digit((bytes.last() % 16) as int),
        )
    }
}

/// The character itself where it is an ASCII letter or digit, `_`, `.` or `-`; else `_`.
pub open spec fn safe_char(c: char) -> char {
    if is_ascii_alnum(c) || c == '_' || c == '.' || c == '-' {
        c
    } else {
        '_'
    }
}

/// `s` with each character outside `[A-Za-z0-9_.-]` replaced by `_`.
pub open spec fn sanitized(s: Seq<char>) -> Seq<char> {
    Seq::new(s.len(), |i: int| safe_char(s[i]))
}

// ---------------------------------------------------------------------------
// Lemmas
// ---------------------------------------------------------------------------

pub proof fn lemma_next_index(s: Seq<char>, c: char, i: int)
    ensures
        0 <= i < s.len() ==> i <= next_index(s, c, i) <= s.len(),
        !(0 <= i < s.len()) ==> next_index(s, c, i) == s.len(),
        next_index(s, c, i) < s.len() ==> s[next_index(s, c, i)] == c,
        0 <= i ==> forall|k: int| i <= k < next_index(s, c, i) && k < s.len() ==> s[k] != c,
    decreases s.len() - i,
{
    if 0 <= i < s.len() && s[i] != c {
        lemma_next_index(s, c, i + 1);
    }
}

/// A trimmed text is empty, or has no white space at its ends.
pub proof fn lemma_trim_ends(s: Seq<char>)
    ensures
        trim(s).len() > 0 ==> !is_white(trim(s)[0]) && !is_white(trim(s).last()),
        trim(trim(s)) == trim(s),
{
    lemma_trim_start_head(s);
    lemma_trim_end_last(trim_start(s));
}

proof fn lemma_trim_start_head(s: Seq<char>)
    ensures
        trim_start(s).len() > 0 ==> !is_white(trim_start(s)[0]),
    decreases s.len(),
{
    if s.len() > 0 && is_white(s[0]) {
        lemma_trim_start_head(s.subrange(1, s.len() as int));
    }
}

proof fn lemma_trim_end_last(s: Seq<char>)
    ensures
        trim_end(s).len() > 0 ==> !is_white(trim_end(s).last()) && trim_end(s)[0] == s[0],
    decreases s.len(),
{
    if s.len() > 0 && is_white(s.last()) {
        lemma_trim_end_last(s.drop_last());
    }
}

/// A piece does not hold what the text is split at.
pub proof fn lemma_split_pieces(s: Seq<char>, c: char, i: int)
    ensures
        forall|k: int|
            0 <= k < split_from(s, c, i).len() ==> !(#[trigger] split_from(s, c, i)[k]).contains(c),
        0 <= i <= s.len() ==> split_from(s, c, i).len() > 0,
    decreases s.len() + 1 - i,
{
    if 0 <= i <= s.len() {
        lemma_next_index(s, c, i);
        let j = next_index(s, c, i);
        let piece = s.subrange(i, if j < s.len() { j } else { s.len() as int });
        assert forall|k: int| 0 <= k < piece.len() implies piece[k] != c by {
            assert(piece[k] == s[i + k]);
        }
        if j < s.len() {
            lemma_split_pieces(s, c, j + 1);
            let all = split_from(s, c, i);
            assert forall|k: int| 0 <= k < all.len() implies !(#[trigger] all[k]).contains(c) by {
                if k > 0 {
                    assert(all[k] == split_from(s, c, j + 1)[k - 1]);
                }
            }
        }
    }
}

proof fn lemma_split_shift(a: Seq<char>, b: Seq<char>, c: char, k: int)
    requires
        0 <= k,
    ensures
        split_from(a + b, c, a.len() + k) == split_from(b, c, k),
    decreases b.len() + 1 - k,
{
    if k <= b.len() {
        let s = a + b;
        lemma_next_index(b, c, k);
        lemma_next_index_shift(a, b, c, k);
        let j = next_index(b, c, k);
        if j < b.len() {
            lemma_split_shift(a, b, c, j + 1);
            assert(s.subrange(a.len() + k, a.len() + j) =~= b.subrange(k, j));
        } else {
            assert(s.subrange(a.len() + k, s.len() as int) =~= b.subrange(k, b.len() as int));
        }
    }
}

/// A piece behind the last occurrence of `c` comes behind the other pieces.
pub proof fn lemma_split_concat(a: Seq<char>, b: Seq<char>, c: char, i: int)
    requires
        0 <= i <= a.len(),
        !b.contains(c),
    ensures
        split_from(a + seq![c] + b, c, i) == split_from(a, c, i).push(b),
    decreases a.len() - i,
{
    let s = a + seq![c] + b;
    lemma_next_index(a, c, i);
    lemma_next_index(s, c, i);
    let j = next_index(a, c, i);
    if j < a.len() {
        assert(s =~= a + (seq![c] + b));
        lemma_next_index_prefix(a, seq![c] + b, c, i);
        lemma_split_concat(a, b, c, j + 1);
        assert(s.subrange(i, j) =~= a.subrange(i, j));
        assert(split_from(s, c, i) =~= split_from(a, c, i).push(b));
    } else {
        let n = next_index(s, c, i);
        assert(n == a.len()) by {
            assert(s[a.len() as int] == c);
            if n < a.len() {
                assert(s[n] == a[n]);
            }
        }
        let head = a + seq![c];
        assert(s =~= head + b);
        lemma_split_shift(head, b, c, 0);
        lemma_next_index(b, c, 0);
        assert(next_index(b, c, 0) == b.len()) by {
            let m = next_index(b, c, 0);
            if m < b.len() {
                assert(b.contains(b[m]));
            }
        }
        assert(b.subrange(0, b.len() as int) =~= b);
        assert(split_from(b, c, 0) =~= seq![b]);
        assert(s.subrange(i, n) =~= a.subrange(i, a.len() as int));
        assert(split_from(a, c, i) =~= seq![a.subrange(i, a.len() as int)]);
        assert(split_from(s, c, i) =~= split_from(a, c, i).push(b));
    }
}

/// Pieces that were joined come apart again.
pub proof fn lemma_split_of_joined(parts: Seq<Seq<char>>, c: char)
    requires
        parts.len() > 0,
        forall|k: int| 0 <= k < parts.len() ==> !(#[trigger] parts[k]).contains(c),
    ensures
        split(join(parts, seq![c]), c) == parts,
    decreases parts.len(),
{
    let last = parts.last();
    assert(!parts[parts.len() - 1].contains(c));
    if parts.len() == 1 {
        lemma_next_index(last, c, 0);
        assert(next_index(last, c, 0) == last.len()) by {
            let m = next_index(last, c, 0);
            if m < last.len() {
                assert(last.contains(last[m]));
            }
        }
        assert(last.subrange(0, last.len() as int) =~= last);
        assert(split(join(parts, seq![c]), c) =~= parts);
    } else {
        let front = parts.drop_last();
        assert forall|k: int| 0 <= k < front.len() implies !(#[trigger] front[k]).contains(c) by {
            assert(front[k] == parts[k]);
        }
        lemma_split_of_joined(front, c);
        lemma_split_concat(join(front, seq![c]), last, c, 0);
        assert(front.push(last) =~= parts);
    }
}

/// A join of several parts begins with the first one and the separator.
pub proof fn lemma_join_head(parts: Seq<Seq<char>>, sep: Seq<char>)
    requires
        parts.len() >= 2,
    ensures
        join(parts, sep).len() >= parts[0].len() + sep.len(),
        join(parts, sep).take((parts[0].len() + sep.len()) as int) == parts[0] + sep,
    decreases parts.len(),
{
    let front = parts.drop_last();
    if parts.len() == 2 {
        assert(join(front, sep) == parts[0]);
        assert(join(parts, sep).take((parts[0].len() + sep.len()) as int) =~= parts[0] + sep);
    } else {
        lemma_join_head(front, sep);
        assert(join(parts, sep).take((parts[0].len() + sep.len()) as int) =~= join(
            front,
            sep,
        ).take((parts[0].len() + sep.len()) as int));
    }
}

/// The hexadecimal form of bytes has two digits for each.
pub proof fn lemma_hex(bytes: Seq<u8>)
    ensures
        hex(bytes).len() == 2 * bytes.len(),
        forall|i: int| 0 <= i < hex(bytes).len() ==> is_ascii_hex(#[trigger] hex(bytes)[i]),
    decreases bytes.len(),
{
    if bytes.len() > 0 {
        lemma_hex(bytes.drop_last());
    }
}

/// A line holds no line feed.
pub proof fn lemma_lines_hold_no_feed(s: Seq<char>, i: int)
    ensures
        forall|k: int|
            0 <= k < lines_from(s, i).len() ==> !(#[trigger] lines_from(s, i)[k]).contains('\n'),
    decreases s.len() - i,
{
    if 0 <= i < s.len() {
        lemma_next_index(s, '\n', i);
        let j = next_index(s, '\n', i);
        let line = s.subrange(i, if j < s.len() { j } else { s.len() as int });
        assert forall|k: int| 0 <= k < line.len() implies line[k] != '\n' by {
            assert(line[k] == s[i + k]);
        }
        if j < s.len() {
            lemma_lines_hold_no_feed(s, j + 1);
            let all = lines_from(s, i);
            assert forall|k: int| 0 <= k < all.len() implies !(#[trigger] all[k]).contains(
                '\n',
            ) by {
                if k > 0 {
                    assert(all[k] == lines_from(s, j + 1)[k - 1]);
                }
            }
        }
    }
}

proof fn lemma_next_index_shift(a: Seq<char>, b: Seq<char>, c: char, k: int)
    requires
        0 <= k,
    ensures
        next_index(a + b, c, a.len() + k) == a.len() + next_index(b, c, k),
    decreases b.len() - k,
{
    if k < b.len() && b[k] != c {
        lemma_next_index_shift(a, b, c, k + 1);
    }
}

proof fn lemma_next_index_prefix(a: Seq<char>, b: Seq<char>, c: char, i: int)
    requires
        0 <= i,
        next_index(a, c, i) < a.len(),
    ensures
        next_index(a + b, c, i) == next_index(a, c, i),
    decreases a.len() - i,
{
    if i < a.len() && a[i] != c {
        lemma_next_index_prefix(a, b, c, i + 1);
    }
}

proof fn lemma_lines_shift(a: Seq<char>, b: Seq<char>, k: int)
    requires
        0 <= k,
    ensures
        lines_from(a + b, a.len() + k) == lines_from(b, k),
    decreases b.len() - k,
{
    if k < b.len() {
        let s = a + b;
        lemma_next_index(b, '\n', k);
        lemma_next_index_shift(a, b, '\n', k);
        let j = next_index(b, '\n', k);
        if j < b.len() {
            lemma_lines_shift(a, b, j + 1);
            assert(s.subrange(a.len() + k, a.len() + j) =~= b.subrange(k, j));
        } else {
            assert(s.subrange(a.len() + k, s.len() as int) =~= b.subrange(k, b.len() as int));
        }
    }
}

/// The lines of a text that ends with a line feed come before those of what follows it.
pub proof fn lemma_lines_concat(a: Seq<char>, b: Seq<char>, i: int)
    requires
        0 <= i <= a.len(),
        a.len() > 0 ==> a.last() == '\n',
    ensures
        lines_from(a + b, i) == lines_from(a, i) + lines_from(b, 0),
    decreases a.len() - i,
{
    let s = a + b;
    if i == a.len() {
        lemma_lines_shift(a, b, 0);
        assert(lines_from(a, i) =~= Seq::empty());
        assert(lines_from(a, i) + lines_from(b, 0) =~= lines_from(b, 0));
    } else {
        lemma_next_index(a, '\n', i);
        let j = next_index(a, '\n', i);
        assert(j < a.len()) by {
            if j >= a.len() {
                assert(a[a.len() - 1] != '\n');
            }
        }
        lemma_next_index_prefix(a, b, '\n', i);
        lemma_lines_concat(a, b, j + 1);
        assert(s.subrange(i, j) =~= a.subrange(i, j));
        assert(lines_from(s, i) =~= lines_from(a, i) + lines_from(b, 0));
    }
}

/// The lines of lines that were joined, each ended by a line feed, are those lines, but for a
/// carriage return at the end of one.
pub proof fn lemma_lines_of_joined(ls: Seq<Seq<char>>)
    requires
        ls.len() > 0,
        forall|k: int| 0 <= k < ls.len() ==> !(#[trigger] ls[k]).contains('\n'),
    ensures
        lines(join(ls, "\n"@) + "\n"@) == Seq::new(ls.len(), |k: int| without_cr(ls[k])),
    decreases ls.len(),
{
    reveal_strlit("\n");
    let last = ls.last();
    let tail = last + "\n"@;
    let expected = Seq::new(ls.len(), |k: int| without_cr(ls[k]));
    assert(!ls[ls.len() - 1].contains('\n'));
    lemma_next_index(tail, '\n', 0);
    let j = next_index(tail, '\n', 0);
    assert(tail[last.len() as int] == '\n');
    assert(j == last.len()) by {
        if j < last.len() {
            assert(tail[j] == last[j]);
            assert(last.contains(last[j]));
        }
        if j > last.len() {
            assert(tail[last.len() as int] != '\n');
        }
    }
    assert(tail.subrange(0, j) =~= last);
    assert(lines_from(tail, j + 1) =~= Seq::empty());
    assert(lines(tail) =~= seq![without_cr(last)]);
    if ls.len() == 1 {
        assert(join(ls, "\n"@) == last);
        assert(lines(tail) =~= expected);
    } else {
        let front = ls.drop_last();
        assert forall|k: int| 0 <= k < front.len() implies !(#[trigger] front[k]).contains(
            '\n',
        ) by {
            assert(front[k] == ls[k]);
        }
        lemma_lines_of_joined(front);
        let head = join(front, "\n"@) + "\n"@;
        assert(join(ls, "\n"@) + "\n"@ =~= head + tail);
        assert(head.last() == '\n');
        lemma_lines_concat(head, tail, 0);
        assert(lines(head) + lines(tail) =~= expected);
    }
}

/// White space behind a text does not change what is left of it once it is trimmed.
proof fn lemma_trim_push_white(s: Seq<char>, w: char)
    requires
        is_white(w),
    ensures
        trim(s.push(w)) == trim(s),
    decreases s.len(),
{
    let t = s.push(w);
    if s.len() == 0 {
        assert(t.subrange(1, 1) =~= Seq::empty());
        assert(trim_start(t.subrange(1, 1)) =~= Seq::empty());
        assert(trim_start(s) =~= Seq::empty());
    } else if is_white(s[0]) {
        assert(t.subrange(1, t.len() as int) =~= s.subrange(1, s.len() as int).push(w));
        lemma_trim_push_white(s.subrange(1, s.len() as int), w);
    } else {
        assert(t.drop_last() =~= s);
    }
}

/// A text and what is left of it without white space at its end are the same once trimmed.
pub proof fn lemma_trim_of_trim_end(s: Seq<char>)
    ensures
        trim(trim_end(s)) == trim(s),
        !is_blank(s) ==> trim_end(s).len() > 0,
    decreases s.len(),
{
    if s.len() > 0 && is_white(s.last()) {
        lemma_trim_of_trim_end(s.drop_last());
        lemma_trim_push_white(s.drop_last(), s.last());
        assert(s.drop_last().push(s.last()) =~= s);
    }
}

/// A line without its carriage return is the same once trimmed.
pub proof fn lemma_trim_of_without_cr(s: Seq<char>)
    ensures
        trim(without_cr(s)) == trim(s),
{
    if s.len() > 0 && s.last() == '\r' {
        lemma_trim_push_white(s.drop_last(), '\r');
        assert(s.drop_last().push('\r') =~= s);
        assert(without_cr(s) =~= s.drop_last());
    }
}

/// Trimming the end of a text stays within its last part where that part is not white space alone.
pub proof fn lemma_trim_end_of_concat(a: Seq<char>, b: Seq<char>)
    requires
        trim_end(b).len() > 0,
    ensures
        trim_end(a + b) == a + trim_end(b),
    decreases b.len(),
{
    assert((a + b).last() == b.last());
    if is_white(b.last()) {
        assert((a + b).drop_last() =~= a + b.drop_last());
        lemma_trim_end_of_concat(a, b.drop_last());
    }
}

/// A text without a line feed is one line.
pub proof fn lemma_single_line(s: Seq<char>)
    requires
        s.len() > 0,
        !s.contains('\n'),
    ensures
        lines(s) == seq![s],
{
    lemma_next_index(s, '\n', 0);
    let j = next_index(s, '\n', 0);
    if j < s.len() {
        assert(s.contains(s[j]));
    }
    assert(s.subrange(0, s.len() as int) =~= s);
}

/// Where the search fails `pat` stands nowhere at or after `i`, and where it succeeds the
/// result is the least index.
pub proof fn lemma_find_from(s: Seq<char>, pat: Seq<char>, i: int)
    requires
        0 <= i,
    ensures
        find_from(s, pat, i) is None ==> forall|k: int| i <= k ==> !#[trigger] matches_at(s, pat, k),
        find_from(s, pat, i) matches Some(j) ==> i <= j && matches_at(s, pat, j) && forall|k: int|
            i <= k < j ==> !#[trigger] matches_at(s, pat, k),
    decreases s.len() + 1 - i,
{
    if i + pat.len() <= s.len() && !matches_at(s, pat, i) {
        lemma_find_from(s, pat, i + 1);
        assert forall|k: int| i <= k && find_from(s, pat, i) is None implies !#[trigger] matches_at(
            s,
            pat,
            k,
        ) by {
            if k > i {
            }
        }
    }
}

/// `contains` is what a search from the start decides.
pub proof fn lemma_contains_find(s: Seq<char>, pat: Seq<char>)
    ensures
        contains(s, pat) <==> find_from(s, pat, 0) is Some,
{
    lemma_find_from(s, pat, 0);
    if find_from(s, pat, 0) is Some {
        assert(matches_at(s, pat, find_from(s, pat, 0)->0));
    }
}

pub proof fn lemma_rfind_from(s: Seq<char>, pat: Seq<char>, i: int)
    ensures
        rfind_from(s, pat, i) is None ==> forall|k: int| k <= i ==> !#[trigger] matches_at(s, pat, k),
        rfind_from(s, pat, i) matches Some(j) ==> j <= i && matches_at(s, pat, j) && forall|k: int|
            j < k <= i ==> !#[trigger] matches_at(s, pat, k),
    decreases i + 1,
{
    if i >= 0 && !matches_at(s, pat, i) {
        lemma_rfind_from(s, pat, i - 1);
    }
}

/// What stands in a text still stands in it when more follows.
pub proof fn lemma_contains_prefix(s: Seq<char>, more: Seq<char>, pat: Seq<char>)
    requires
        contains(s, pat),
    ensures
        contains(s + more, pat),
{
    let i = choose|i: int| matches_at(s, pat, i);
    assert((s + more).subrange(i, i + pat.len()) =~= s.subrange(i, i + pat.len()));
    assert(matches_at(s + more, pat, i));
}

/// A text stands in whatever ends with it.
pub proof fn lemma_contains_tail(s: Seq<char>, pat: Seq<char>, more: Seq<char>)
    ensures
        contains(s + pat + more, pat),
{
    assert((s + pat + more).subrange(s.len() as int, (s.len() + pat.len()) as int) =~= pat);
    assert(matches_at(s + pat + more, pat, s.len() as int));
}

/// The order of code points is total, transitive and antisymmetric.
pub proof fn lemma_le(a: Seq<char>, b: Seq<char>, c: Seq<char>)
    ensures
        le(a, a),
        le(a, b) || le(b, a),
        le(a, b) && le(b, c) ==> le(a, c),
        le(a, b) && le(b, a) ==> a == b,
    decreases a.len(),
{
    if a.len() > 0 {
        let a1 = a.subrange(1, a.len() as int);
        lemma_le(a1, b.subrange(1, b.len() as int), c.subrange(1, c.len() as int));
        if b.len() > 0 && le(a, b) && le(b, a) {
            assert(a =~= seq![a[0]] + a1);
            assert(b =~= seq![b[0]] + b.subrange(1, b.len() as int));
        }
    } else if b.len() == 0 {
        assert(a =~= b);
    }
}

proof fn lemma_trim_start_from(s: Seq<char>, i: int)
    requires
        0 <= i <= s.len(),
        forall|k: int| 0 <= k < i ==> is_white(s[k]),
        i < s.len() ==> !is_white(s[i]),
    ensures
        trim_start(s) == s.subrange(i, s.len() as int),
    decreases i,
{
    if i == 0 {
        assert(s.subrange(0, s.len() as int) == s);
    } else {
        let t = s.subrange(1, s.len() as int);
        lemma_trim_start_from(t, i - 1);
        assert(t.subrange(i - 1, t.len() as int) == s.subrange(i, s.len() as int));
    }
}

proof fn lemma_trim_end_to(s: Seq<char>, i: int)
    requires
        0 <= i <= s.len(),
        forall|k: int| i <= k < s.len() ==> is_white(s[k]),
        i > 0 ==> !is_white(s[i - 1]),
    ensures
        trim_end(s) == s.subrange(0, i),
    decreases s.len() - i,
{
    if i == s.len() {
        assert(s.subrange(0, i) == s);
    } else {
        lemma_trim_end_to(s.drop_last(), i);
        assert(s.drop_last().subrange(0, i) == s.subrange(0, i));
    }
}

pub proof fn lemma_views_push(v: Seq<String>, s: String)
    ensures
        views(v.push(s)) == views(v).push(s@),
{
    assert(views(v.push(s)) =~= views(v).push(s@));
}

// ---------------------------------------------------------------------------
// Executable counterparts
// ---------------------------------------------------------------------------

/// The characters of a string.
pub fn chars_of(s: &str) -> (r: Vec<char>)
    ensures
        r@ == s@,
{
    let mut out: Vec<char> = Vec::new();
    for c in it: s.chars()
        invariant
            out@ == it.seq().take(it.index()),
            it.seq() == s@,
    {
        out.push(c);
    }
    out
}

/// The string with the characters of `s` from `from` up to `to`.
pub fn string_of(s: &Vec<char>, from: usize, to: usize) -> (r: String)
    requires
        from <= to <= s@.len(),
    ensures
        r@ == s@.subrange(from as int, to as int),
{
    let mut out = String::new();
    let mut i: usize = from;
    while i < to
        invariant
            from <= i <= to <= s@.len(),
            out@ == s@.subrange(from as int, i as int),
        decreases to - i,
    {
        out.push(s[i]);
        i = i + 1;
        assert(out@ == s@.subrange(from as int, i as int));
    }
    out
}

/// Whether two strings hold the same characters.
pub fn same(a: &str, b: &str) -> (r: bool)
    ensures
        r == (a@ == b@),
{
    let x = chars_of(a);
    let y = chars_of(b);
    if x.len() != y.len() {
        return false;
    }
    let mut i: usize = 0;
    while i < x.len()
        invariant
            i <= x@.len(),
            x@.len() == y@.len(),
            x@ == a@,
            y@ == b@,
            forall|k: int| 0 <= k < i ==> x@[k] == y@[k],
        decreases x@.len() - i,
    {
        if x[i] != y[i] {
            assert(a@[i as int] != b@[i as int]);
            return false;
        }
        i = i + 1;
    }
    assert(a@ =~= b@);
    true
}

pub fn is_white_char(c: char) -> (r: bool)
    ensures
        r == is_white(c),
{
    let n: u32 = c as u32;
    (9 <= n && n <= 13) || n == 0x20 || n == 0x85 || n == 0xA0 || n == 0x1680 || (0x2000 <= n && n
        <= 0x200A) || n == 0x2028 || n == 0x2029 || n == 0x202F || n == 0x205F || n == 0x3000
}

/// The bounds of what [`trim`] leaves.
fn trim_bounds(s: &Vec<char>) -> (r: (usize, usize))
    ensures
        r.0 <= r.1 <= s@.len(),
        s@.subrange(r.0 as int, r.1 as int) == trim(s@),
{
    let mut from: usize = 0;
    while from < s.len() && is_white_char(s[from])
        invariant
            from <= s@.len(),
            forall|k: int| 0 <= k < from ==> is_white(s@[k]),
        decreases s@.len() - from,
    {
        from = from + 1;
    }
    let mut to: usize = s.len();
    while to > from && is_white_char(s[to - 1])
        invariant
            from <= to <= s@.len(),
            forall|k: int| to <= k < s@.len() ==> is_white(s@[k]),
        decreases to,
    {
        to = to - 1;
    }
    proof {
        lemma_trim_start_from(s@, from as int);
        let t = s@.subrange(from as int, s@.len() as int);
        lemma_trim_end_to(t, to - from);
        assert(t.subrange(0, to - from) == s@.subrange(from as int, to as int));
    }
    (from, to)
}

/// See [`trim`].
pub fn trimmed(s: &str) -> (r: String)
    ensures
        r@ == trim(s@),
{
    let v = chars_of(s);
    let b = trim_bounds(&v);
    string_of(&v, b.0, b.1)
}

/// See [`trim_end`].
pub fn trimmed_end(s: &str) -> (r: String)
    ensures
        r@ == trim_end(s@),
{
    let v = chars_of(s);
    let mut to: usize = v.len();
    while to > 0 && is_white_char(v[to - 1])
        invariant
            to <= v@.len(),
            forall|k: int| to <= k < v@.len() ==> is_white(v@[k]),
        decreases to,
    {
        to = to - 1;
    }
    proof {
        lemma_trim_end_to(v@, to as int);
    }
    string_of(&v, 0, to)
}

/// See [`is_blank`].
pub fn blank(s: &str) -> (r: bool)
    ensures
        r == is_blank(s@),
{
    let v = chars_of(s);
    let b = trim_bounds(&v);
    b.0 == b.1
}

fn match_at(s: &Vec<char>, pat: &Vec<char>, i: usize) -> (r: bool)
    ensures
        r == matches_at(s@, pat@, i as int),
{
    if pat.len() > s.len() || i > s.len() - pat.len() {
        return false;
    }
    let end: usize = s.len();
    let mut k: usize = 0;
    while k < pat.len()
        invariant
            k <= pat@.len(),
            i + pat@.len() <= s@.len(),
            s@.len() == end,
            forall|m: int| 0 <= m < k ==> s@[i + m] == pat@[m],
        decreases pat@.len() - k,
    {
        if s[i + k] != pat[k] {
            assert(s@.subrange(i as int, i + pat@.len())[k as int] != pat@[k as int]);
            return false;
        }
        k = k + 1;
    }
    assert(s@.subrange(i as int, i + pat@.len()) =~= pat@);
    true
}

fn find_at_or_after(s: &Vec<char>, pat: &Vec<char>, from: usize) -> (r: Option<usize>)
    ensures
        r matches Some(j) ==> find_from(s@, pat@, from as int) == Some(j as int) && j + pat@.len()
            <= s@.len() <= usize::MAX,
        r is None ==> find_from(s@, pat@, from as int) is None,
{
    if pat.len() > s.len() {
        return None;
    }
    let end: usize = s.len();
    let last: usize = end - pat.len();
    let mut i: usize = from;
    while i <= last
        invariant
            end == s@.len(),
            last + pat@.len() == s@.len(),
            find_from(s@, pat@, from as int) == find_from(s@, pat@, i as int),
        decreases s@.len() + 1 - i,
    {
        if match_at(s, pat, i) {
            return Some(i);
        }
        if i == last {
            assert(find_from(s@, pat@, last + 1) is None);
            return None;
        }
        i = i + 1;
    }
    None
}

/// See [`contains`].
pub fn has(s: &str, pat: &str) -> (r: bool)
    ensures
        r == contains(s@, pat@),
{
    let v = chars_of(s);
    let p = chars_of(pat);
    proof {
        lemma_contains_find(s@, pat@);
    }
    find_at_or_after(&v, &p, 0).is_some()
}

/// See [`starts_with`].
pub fn has_prefix(s: &str, pat: &str) -> (r: bool)
    ensures
        r == starts_with(s@, pat@),
{
    let v = chars_of(s);
    let p = chars_of(pat);
    match_at(&v, &p, 0)
}

/// See [`ends_with`].
pub fn has_suffix(s: &str, pat: &str) -> (r: bool)
    ensures
        r == ends_with(s@, pat@),
{
    let v = chars_of(s);
    let p = chars_of(pat);
    if p.len() > v.len() {
        return false;
    }
    match_at(&v, &p, v.len() - p.len())
}

/// See [`strip_prefix`].
pub fn without_prefix(s: &str, pat: &str) -> (r: Option<String>)
    ensures
        opt_view(r) == strip_prefix(s@, pat@),
{
    let v = chars_of(s);
    let p = chars_of(pat);
    if match_at(&v, &p, 0) {
        Some(string_of(&v, p.len(), v.len()))
    } else {
        None
    }
}

/// See [`strip_suffix`].
pub fn without_suffix(s: &str, pat: &str) -> (r: Option<String>)
    ensures
        opt_view(r) == strip_suffix(s@, pat@),
{
    let v = chars_of(s);
    let p = chars_of(pat);
    if p.len() <= v.len() && match_at(&v, &p, v.len() - p.len()) {
        Some(string_of(&v, 0, v.len() - p.len()))
    } else {
        None
    }
}

/// See [`split_once`].
pub fn cut_first(s: &str, pat: &str) -> (r: Option<(String, String)>)
    ensures
        r matches Some(p) ==> split_once(s@, pat@) == Some((p.0@, p.1@)),
        r is None ==> split_once(s@, pat@) is None,
{
    let v = chars_of(s);
    let p = chars_of(pat);
    match find_at_or_after(&v, &p, 0) {
        Some(i) => Some((string_of(&v, 0, i), string_of(&v, i + p.len(), v.len()))),
        None => None,
    }
}

/// See [`rsplit_once`].
pub fn cut_last(s: &str, pat: &str) -> (r: Option<(String, String)>)
    ensures
        r matches Some(p) ==> rsplit_once(s@, pat@) == Some((p.0@, p.1@)),
        r is None ==> rsplit_once(s@, pat@) is None,
{
    let v = chars_of(s);
    let p = chars_of(pat);
    if p.len() > v.len() {
        return None;
    }
    let end: usize = v.len();
    let mut i: usize = end - p.len();
    loop
        invariant
            v@.len() == end,
            v@ == s@,
            p@ == pat@,
            i + p@.len() <= v@.len(),
            rfind_from(s@, pat@, s@.len() - pat@.len()) == rfind_from(s@, pat@, i as int),
        decreases i,
    {
        if match_at(&v, &p, i) {
            return Some((string_of(&v, 0, i), string_of(&v, i + p.len(), v.len())));
        }
        if i == 0 {
            proof {
                assert(rfind_from(s@, pat@, -1) is None);
            }
            return None;
        }
        i = i - 1;
    }
}

/// See [`replace`].
pub fn replaced(s: &str, pat: &str, with: &str) -> (r: String)
    requires
        pat@.len() > 0,
    ensures
        r@ == replace(s@, pat@, with@),
{
    let v = chars_of(s);
    let p = chars_of(pat);
    let mut out = String::new();
    let mut i: usize = 0;
    while i < v.len()
        invariant
            v@ == s@,
            p@ == pat@,
            pat@.len() > 0,
            i <= v@.len(),
            out@ + replace_from(s@, pat@, with@, i as int) == replace(s@, pat@, with@),
        decreases v@.len() - i,
    {
        let ghost before = out@;
        if match_at(&v, &p, i) {
            out.append(with);
            proof {
                assert(before + (with@ + replace_from(s@, pat@, with@, i + pat@.len())) =~= (before
                    + with@) + replace_from(s@, pat@, with@, i + pat@.len()));
            }
            i = i + p.len();
        } else {
            out.push(v[i]);
            proof {
                assert(before + (seq![s@[i as int]] + replace_from(s@, pat@, with@, i + 1)) =~= (
                before.push(s@[i as int])) + replace_from(s@, pat@, with@, i + 1));
            }
            i = i + 1;
        }
    }
    assert(out@ + Seq::<char>::empty() =~= out@);
    out
}

fn index_from(s: &Vec<char>, c: char, from: usize) -> (r: usize)
    requires
        from <= s@.len(),
    ensures
        r == next_index(s@, c, from as int),
        from <= r <= s@.len(),
{
    let mut i: usize = from;
    while i < s.len() && s[i] != c
        invariant
            from <= i <= s@.len(),
            next_index(s@, c, from as int) == next_index(s@, c, i as int),
        decreases s@.len() - i,
    {
        i = i + 1;
    }
    i
}

/// See [`lines`].
pub fn lines_of(s: &str) -> (r: Vec<String>)
    ensures
        views(r@) == lines(s@),
{
    let v = chars_of(s);
    let mut out: Vec<String> = Vec::new();
    let mut i: usize = 0;
    while i < v.len()
        invariant
            v@ == s@,
            i <= v@.len(),
            views(out@) + lines_from(s@, i as int) == lines(s@),
        decreases v@.len() - i,
    {
        let j = index_from(&v, '\n', i);
        let ghost before = out@;
        if j >= v.len() {
            let piece = string_of(&v, i, v.len());
            out.push(piece);
            proof {
                lemma_views_push(before, piece);
                assert(views(before) + seq![piece@] =~= views(out@) + lines_from(
                    s@,
                    s@.len() as int,
                ));
            }
            i = v.len();
        } else {
            let to: usize = if j > i && v[j - 1] == '\r' {
                j - 1
            } else {
                j
            };
            let piece = string_of(&v, i, to);
            out.push(piece);
            proof {
                lemma_views_push(before, piece);
                assert(piece@ =~= without_cr(s@.subrange(i as int, j as int)));
                assert(views(before) + (seq![piece@] + lines_from(s@, j + 1)) =~= views(out@)
                    + lines_from(s@, j + 1));
            }
            i = j + 1;
        }
    }
    assert(views(out@) + Seq::<Seq<char>>::empty() =~= views(out@));
    out
}

/// See [`split`].
pub fn pieces_of(s: &str, c: char) -> (r: Vec<String>)
    ensures
        views(r@) == split(s@, c),
{
    let v = chars_of(s);
    let mut out: Vec<String> = Vec::new();
    let mut i: usize = 0;
    loop
        invariant
            v@ == s@,
            i <= v@.len(),
            views(out@) + split_from(s@, c, i as int) == split(s@, c),
        decreases v@.len() - i,
    {
        let j = index_from(&v, c, i);
        let ghost before = out@;
        let piece = string_of(&v, i, j);
        out.push(piece);
        proof {
            lemma_views_push(before, piece);
        }
        if j >= v.len() {
            assert(views(before) + seq![piece@] =~= views(out@));
            return out;
        }
        proof {
            assert(views(before) + (seq![piece@] + split_from(s@, c, j + 1)) =~= views(out@)
                + split_from(s@, c, j + 1));
        }
        i = j + 1;
    }
}

/// See [`join`].
pub fn joined(parts: &Vec<String>, sep: &str) -> (r: String)
    ensures
        r@ == join(views(parts@), sep@),
{
    let mut out = String::new();
    let mut i: usize = 0;
    while i < parts.len()
        invariant
            i <= parts@.len(),
            out@ == join(views(parts@).take(i as int), sep@),
        decreases parts@.len() - i,
    {
        proof {
            let next = views(parts@).take(i + 1);
            assert(next.drop_last() =~= views(parts@).take(i as int));
            if i == 0 {
                assert(Seq::<char>::empty() + next[0] =~= next[0]);
            }
        }
        if i > 0 {
            out.append(sep);
        }
        out.append(parts[i].as_str());
        i = i + 1;
    }
    assert(views(parts@).take(parts@.len() as int) =~= views(parts@));
    out
}

/// See [`le`].
pub fn precedes(a: &str, b: &str) -> (r: bool)
    ensures
        r == le(a@, b@),
{
    let x = chars_of(a);
    let y = chars_of(b);
    let mut i: usize = 0;
    assert(a@.subrange(0, a@.len() as int) =~= a@);
    assert(b@.subrange(0, b@.len() as int) =~= b@);
    while i < x.len() && i < y.len()
        invariant
            i <= x@.len(),
            i <= y@.len(),
            x@ == a@,
            y@ == b@,
            le(a@, b@) == le(
                a@.subrange(i as int, a@.len() as int),
                b@.subrange(i as int, b@.len() as int),
            ),
        decreases x@.len() - i,
    {
        if x[i] != y[i] {
            return x[i] < y[i];
        }
        proof {
            let p = a@.subrange(i as int, a@.len() as int);
            let q = b@.subrange(i as int, b@.len() as int);
            assert(p.subrange(1, p.len() as int) =~= a@.subrange(i + 1, a@.len() as int));
            assert(q.subrange(1, q.len() as int) =~= b@.subrange(i + 1, b@.len() as int));
        }
        i = i + 1;
    }
    i >= x.len()
}

/// See [`take_chars`].
pub fn first_chars(s: &str, n: usize) -> (r: String)
    ensures
        r@ == take_chars(s@, n as int),
{
    let v = chars_of(s);
    if n >= v.len() {
        assert(s@.subrange(0, s@.len() as int) =~= s@);
        string_of(&v, 0, v.len())
    } else {
        string_of(&v, 0, n)
    }
}

pub fn is_alnum(c: char) -> (r: bool)
    ensures
        r == is_ascii_alnum(c),
{
    ('0' <= c && c <= '9') || ('a' <= c && c <= 'z') || ('A' <= c && c <= 'Z')
}

pub fn is_hex(c: char) -> (r: bool)
    ensures
        r == is_ascii_hex(c),
{
    ('0' <= c && c <= '9') || ('a' <= c && c <= 'f') || ('A' <= c && c <= 'F')
}

fn digit(d: u8) -> (r: char)
    requires
        d < 16,
    ensures
        r == hex_digit(d as int),
{
    match d {
        0 => '0',
        1 => '1',
        2 => '2',
        3 => '3',
        4 => '4',
        5 => '5',
        6 => '6',
        7 => '7',
        8 => '8',
        9 => '9',
        10 => 'a',
        11 => 'b',
        12 => 'c',
        13 => 'd',
        14 => 'e',
        _ => 'f',
    }
}

/// See [`decimal`].
pub fn decimal_of(n: u64) -> (r: String)
    ensures
        r@ == decimal(n as nat),
    decreases n,
{
    let mut out = if n < 10 {
        String::new()
    } else {
        decimal_of(n / 10)
    };
    out.push(digit((n % 10) as u8));
    proof {
        if n < 10 {
            assert(Seq::<char>::empty().push(hex_digit(n as int)) =~= seq![hex_digit(n as int)]);
        }
    }
    out
}

/// See [`decimal`].
pub fn wide_decimal_of(n: u128) -> (r: String)
    ensures
        r@ == decimal(n as nat),
    decreases n,
{
    let mut out = if n < 10 {
        String::new()
    } else {
        wide_decimal_of(n / 10)
    };
    out.push(digit((n % 10) as u8));
    proof {
        if n < 10 {
            assert(Seq::<char>::empty().push(hex_digit(n as int)) =~= seq![hex_digit(n as int)]);
        }
    }
    out
}

/// The numeral of `n` with zeros in front, up to `width` characters.
pub fn padded_of(n: u64, width: usize) -> (r: String)
    ensures
        r@ == zero_padded(decimal(n as nat), width as nat),
{
    let numeral = decimal_of(n);
    let len = chars_of(numeral.as_str()).len();
    let mut out = String::new();
    let mut i: usize = len;
    while i < width
        invariant
            len <= i,
            len < width ==> i <= width,
            len >= width ==> i == len,
            out@.len() == i - len,
            forall|k: int| 0 <= k < out@.len() ==> out@[k] == '0',
        decreases width - i,
    {
        out.push('0');
        i = i + 1;
    }
    out.append(numeral.as_str());
    assert(out@ =~= zero_padded(decimal(n as nat), width as nat));
    out
}

/// See [`hex`].
pub fn hex_of(bytes: &Vec<u8>, n: usize) -> (r: String)
    ensures
        r@ == hex(bytes@.take(if n <= bytes@.len() { n as int } else { bytes@.len() as int })),
{
    let end: usize = if n <= bytes.len() {
        n
    } else {
        bytes.len()
    };
    let mut out = String::new();
    let mut i: usize = 0;
    while i < end
        invariant
            i <= end <= bytes@.len(),
            out@ == hex(bytes@.take(i as int)),
        decreases end - i,
    {
        assert(bytes@.take(i + 1).drop_last() =~= bytes@.take(i as int));
        out.push(digit(bytes[i] / 16));
        out.push(digit(bytes[i] % 16));
        i = i + 1;
    }
    out
}

/// See [`sanitized`].
pub fn sanitized_of(s: &str) -> (r: String)
    ensures
        r@ == sanitized(s@),
{
    let v = chars_of(s);
    let mut out = String::new();
    let mut i: usize = 0;
    while i < v.len()
        invariant
            v@ == s@,
            i <= v@.len(),
            out@ == sanitized(s@).take(i as int),
        decreases v@.len() - i,
    {
        let c = v[i];
        out.push(if is_alnum(c) || c == '_' || c == '.' || c == '-' { c } else { '_' });
        i = i + 1;
        assert(out@ =~= sanitized(s@).take(i as int));
    }
    assert(sanitized(s@).take(s@.len() as int) =~= sanitized(s@));
    out
}

// ---------------------------------------------------------------------------
// What the operations on text promise
// ---------------------------------------------------------------------------

/// White space is what Unicode takes for it.
pub proof fn white_space_is(c: char)
    ensures
        is_white(c)
            <==> "\t\n\u{b}\u{c}\r \u{85}\u{a0}\u{1680}\u{2000}\u{2001}\u{2002}\u{2003}\u{2004}\u{2005}\u{2006}\u{2007}\u{2008}\u{2009}\u{200a}\u{2028}\u{2029}\u{202f}\u{205f}\u{3000}"@.contains(
            c,
        ),
{
    reveal_strlit(
        "\t\n\u{b}\u{c}\r \u{85}\u{a0}\u{1680}\u{2000}\u{2001}\u{2002}\u{2003}\u{2004}\u{2005}\u{2006}\u{2007}\u{2008}\u{2009}\u{200a}\u{2028}\u{2029}\u{202f}\u{205f}\u{3000}",
    );
    let s =
        "\t\n\u{b}\u{c}\r \u{85}\u{a0}\u{1680}\u{2000}\u{2001}\u{2002}\u{2003}\u{2004}\u{2005}\u{2006}\u{2007}\u{2008}\u{2009}\u{200a}\u{2028}\u{2029}\u{202f}\u{205f}\u{3000}"@;
    assert(s.len() == 25);
    if is_white(c) {
        assert(s[0] as int == 9 && s[1] as int == 10 && s[2] as int == 11 && s[3] as int == 12
            && s[4] as int == 13 && s[5] as int == 0x20 && s[6] as int == 0x85 && s[7] as int == 0xA0
            && s[8] as int == 0x1680 && s[9] as int == 0x2000 && s[10] as int == 0x2001 && s[11] as int
            == 0x2002 && s[12] as int == 0x2003 && s[13] as int == 0x2004 && s[14] as int == 0x2005
            && s[15] as int == 0x2006 && s[16] as int == 0x2007 && s[17] as int == 0x2008
            && s[18] as int == 0x2009 && s[19] as int == 0x200A && s[20] as int == 0x2028
            && s[21] as int == 0x2029 && s[22] as int == 0x202F && s[23] as int == 0x205F
            && s[24] as int == 0x3000);
        assert(exists|i: int| 0 <= i < 25 && (#[trigger] s[i]) as int == c as int);
        let i = choose|i: int| 0 <= i < 25 && (#[trigger] s[i]) as int == c as int;
        assert(s[i] == c);
    }
}

/// Trimming takes the white space off both ends of a text and leaves the rest as it is.
pub proof fn trimming_takes_white_space_off(a: Seq<char>, t: Seq<char>, b: Seq<char>)
    requires
        forall|i: int| 0 <= i < a.len() ==> is_white(#[trigger] a[i]),
        forall|i: int| 0 <= i < b.len() ==> is_white(#[trigger] b[i]),
        t.len() > 0 ==> !is_white(t[0]) && !is_white(t.last()),
    ensures
        trim(a + t + b) == t,
{
    let s = a + t + b;
    if t.len() > 0 {
        assert forall|k: int| 0 <= k < a.len() implies is_white(s[k]) by {
            assert(s[k] == a[k]);
        }
        assert(s[a.len() as int] == t[0]);
        lemma_trim_start_from(s, a.len() as int);
        let r = s.subrange(a.len() as int, s.len() as int);
        assert(r =~= t + b);
        assert forall|k: int| t.len() <= k < r.len() implies is_white(r[k]) by {
            assert(r[k] == b[k - t.len()]);
        }
        assert(r[t.len() - 1] == t.last());
        lemma_trim_end_to(r, t.len() as int);
        assert(r.subrange(0, t.len() as int) =~= t);
    } else {
        assert forall|k: int| 0 <= k < s.len() implies is_white(s[k]) by {
            if k < a.len() {
                assert(s[k] == a[k]);
            } else {
                assert(s[k] == b[k - a.len()]);
            }
        }
        lemma_trim_start_from(s, s.len() as int);
        assert(s.subrange(s.len() as int, s.len() as int) =~= Seq::empty());
        assert(trim_end(Seq::<char>::empty()) =~= Seq::empty());
        assert(t =~= Seq::empty());
    }
}

/// A text begins or ends with another where it is the other with something behind or before it; what is left without the
/// other is that something.
pub proof fn prefixes_and_suffixes_come_off(s: Seq<char>, pat: Seq<char>, rest: Seq<char>)
    ensures
        strip_prefix(s, pat) == Some(rest) <==> s == pat + rest,
        strip_suffix(s, pat) == Some(rest) <==> s == rest + pat,
        starts_with(s, pat) <==> strip_prefix(s, pat) is Some,
        ends_with(s, pat) <==> strip_suffix(s, pat) is Some,
{
    if strip_prefix(s, pat) == Some(rest) {
        assert(s =~= s.subrange(0, pat.len() as int) + rest);
    }
    if s == pat + rest {
        assert(s.subrange(0, pat.len() as int) =~= pat);
        assert(s.subrange(pat.len() as int, s.len() as int) =~= rest);
    }
    if strip_suffix(s, pat) == Some(rest) {
        assert(s =~= rest + s.subrange(s.len() - pat.len(), s.len() as int));
    }
    if s == rest + pat {
        assert(s.subrange(s.len() - pat.len(), s.len() as int) =~= pat);
        assert(s.subrange(0, s.len() - pat.len()) =~= rest);
    }
}

/// A text is split once at the first occurrence, or at the last one: nothing is lost, and the part before the first, or
/// behind the last, holds no other. Without an occurrence there is nothing to split at.
pub proof fn texts_are_split_at_their_marks(s: Seq<char>, pat: Seq<char>)
    requires
        pat.len() > 0,
    ensures
        split_once(s, pat) is Some <==> contains(s, pat),
        rsplit_once(s, pat) is Some <==> contains(s, pat),
        split_once(s, pat) matches Some(p) ==> s == p.0 + pat + p.1 && !contains(p.0, pat),
        rsplit_once(s, pat) matches Some(p) ==> s == p.0 + pat + p.1 && !contains(p.1, pat),
{
    lemma_contains_find(s, pat);
    lemma_find_from(s, pat, 0);
    lemma_rfind_from(s, pat, s.len() - pat.len());
    if let Some(p) = split_once(s, pat) {
        let at = find_from(s, pat, 0)->0;
        assert(s =~= s.subrange(0, at) + s.subrange(at, at + pat.len()) + s.subrange(
            at + pat.len(),
            s.len() as int,
        ));
        if contains(p.0, pat) {
            let k = choose|k: int| matches_at(p.0, pat, k);
            assert(s.subrange(k, k + pat.len()) =~= p.0.subrange(k, k + pat.len()));
            assert(matches_at(s, pat, k));
        }
    }
    if let Some(p) = rsplit_once(s, pat) {
        let at = rfind_from(s, pat, s.len() - pat.len())->0;
        assert(s =~= s.subrange(0, at) + s.subrange(at, at + pat.len()) + s.subrange(
            at + pat.len(),
            s.len() as int,
        ));
        assert(matches_at(s, pat, at));
        if contains(p.1, pat) {
            let k = choose|k: int| matches_at(p.1, pat, k);
            let m = at + pat.len() + k;
            assert(s.subrange(m, m + pat.len()) =~= p.1.subrange(k, k + pat.len()));
            assert(matches_at(s, pat, m));
        }
    }
    if contains(s, pat) && rsplit_once(s, pat) is None {
        let k = choose|k: int| matches_at(s, pat, k);
        assert(k <= s.len() - pat.len());
    }
}

proof fn lemma_replace_none(s: Seq<char>, pat: Seq<char>, with: Seq<char>, i: int)
    requires
        pat.len() > 0,
        0 <= i <= s.len(),
        forall|k: int| i <= k ==> !#[trigger] matches_at(s, pat, k),
    ensures
        replace_from(s, pat, with, i) == s.subrange(i, s.len() as int),
    decreases s.len() - i,
{
    if i < s.len() {
        assert(!matches_at(s, pat, i));
        lemma_replace_none(s, pat, with, i + 1);
        assert(seq![s[i]] + s.subrange(i + 1, s.len() as int) =~= s.subrange(i, s.len() as int));
    } else {
        assert(s.subrange(i, s.len() as int) =~= Seq::empty());
    }
}

proof fn lemma_replace_shift(a: Seq<char>, b: Seq<char>, pat: Seq<char>, with: Seq<char>, k: int)
    requires
        pat.len() > 0,
        0 <= k <= b.len(),
    ensures
        replace_from(a + b, pat, with, a.len() + k) == replace_from(b, pat, with, k),
    decreases b.len() - k,
{
    let s = a + b;
    if k < b.len() {
        if k + pat.len() <= b.len() {
            assert(s.subrange(a.len() + k, a.len() + k + pat.len()) =~= b.subrange(k, k + pat.len()));
        }
        assert(matches_at(s, pat, a.len() + k) == matches_at(b, pat, k));
        assert(s[a.len() + k] == b[k]);
        if matches_at(b, pat, k) {
            lemma_replace_shift(a, b, pat, with, k + pat.len());
        } else {
            lemma_replace_shift(a, b, pat, with, k + 1);
        }
    }
}

proof fn lemma_replace_first(s: Seq<char>, pat: Seq<char>, with: Seq<char>, i: int, at: int)
    requires
        pat.len() > 0,
        0 <= i <= at,
        matches_at(s, pat, at),
        forall|k: int| i <= k < at ==> !#[trigger] matches_at(s, pat, k),
    ensures
        replace_from(s, pat, with, i) == s.subrange(i, at) + with + replace_from(
            s,
            pat,
            with,
            at + pat.len(),
        ),
    decreases at - i,
{
    let rest = with + replace_from(s, pat, with, at + pat.len());
    if i == at {
        assert(s.subrange(i, at) + with + replace_from(s, pat, with, at + pat.len()) =~= rest);
    } else {
        assert(!matches_at(s, pat, i));
        lemma_replace_first(s, pat, with, i + 1, at);
        assert(seq![s[i]] + s.subrange(i + 1, at) =~= s.subrange(i, at));
        assert(seq![s[i]] + (s.subrange(i + 1, at) + with + replace_from(
            s,
            pat,
            with,
            at + pat.len(),
        )) =~= s.subrange(i, at) + with + replace_from(s, pat, with, at + pat.len()));
    }
}

/// A text is replaced wherever it occurs, from the first occurrence on; what stands between occurrences stays as it is.
pub proof fn every_occurrence_is_replaced(s: Seq<char>, pat: Seq<char>, with: Seq<char>)
    requires
        pat.len() > 0,
    ensures
        !contains(s, pat) ==> replace(s, pat, with) == s,
        split_once(s, pat) matches Some(p) ==> replace(s, pat, with) == p.0 + with + replace(
            p.1,
            pat,
            with,
        ),
{
    lemma_contains_find(s, pat);
    lemma_find_from(s, pat, 0);
    if !contains(s, pat) {
        lemma_replace_none(s, pat, with, 0);
        assert(s.subrange(0, s.len() as int) =~= s);
    } else {
        let at = find_from(s, pat, 0)->0;
        lemma_replace_first(s, pat, with, 0, at);
        let a = s.subrange(0, at + pat.len());
        let b = s.subrange(at + pat.len(), s.len() as int);
        assert(a + b =~= s);
        lemma_replace_shift(a, b, pat, with, 0);
    }
}

/// A line ends at a line feed, without it and without a carriage return before it; what follows makes the further lines. A
/// text without a line feed is one line, and an empty one is none.
pub proof fn lines_end_at_feeds(a: Seq<char>, b: Seq<char>)
    requires
        !a.contains('\n'),
    ensures
        lines(Seq::empty()).len() == 0,
        a.len() > 0 ==> lines(a) == seq![a],
        a.len() == 0 || a.last() != '\r' ==> lines(a.push('\n') + b) == seq![a] + lines(b),
        lines(a.push('\r').push('\n') + b) == seq![a] + lines(b),
{
    if a.len() > 0 {
        lemma_single_line(a);
    }
    lemma_fed_line(a);
    lemma_lines_concat(a.push('\n'), b, 0);
    let c = a.push('\r');
    assert(!c.contains('\n')) by {
        if c.contains('\n') {
            let k = choose|k: int| 0 <= k < c.len() && c[k] == '\n';
            assert(k < a.len());
            assert(a[k] == '\n');
        }
    }
    lemma_fed_line(c);
    assert(without_cr(c) =~= a);
    lemma_lines_concat(c.push('\n'), b, 0);
}

proof fn lemma_fed_line(a: Seq<char>)
    requires
        !a.contains('\n'),
    ensures
        lines(a.push('\n')) == seq![without_cr(a)],
{
    let s = a.push('\n');
    lemma_next_index(s, '\n', 0);
    let j = next_index(s, '\n', 0);
    assert(s[a.len() as int] == '\n');
    if j < a.len() {
        assert(a[j] == '\n');
    }
    assert(j == a.len());
    assert(s.subrange(0, j) =~= a);
    assert(lines_from(s, j + 1) =~= Seq::empty());
    assert(lines(s) =~= seq![without_cr(a)]);
}

/// A text is split at every occurrence of a character, and without one it is a single piece.
pub proof fn pieces_stand_between_marks(a: Seq<char>, b: Seq<char>, c: char)
    requires
        !b.contains(c),
    ensures
        split(b, c) == seq![b],
        split(a.push(c) + b, c) == split(a, c).push(b),
{
    lemma_split_concat(a, b, c, 0);
    assert(a + seq![c] + b =~= a.push(c) + b);
    lemma_next_index(b, c, 0);
    let m = next_index(b, c, 0);
    if m < b.len() {
        assert(b.contains(b[m]));
    }
    assert(b.subrange(0, b.len() as int) =~= b);
}

/// Parts are joined in their order with the separator between neighbours alone.
pub proof fn parts_are_joined_in_order(parts: Seq<Seq<char>>, x: Seq<char>, sep: Seq<char>)
    ensures
        join(Seq::empty(), sep).len() == 0,
        join(seq![x], sep) == x,
        parts.len() > 0 ==> join(parts.push(x), sep) == join(parts, sep) + sep + x,
{
    assert(parts.push(x).drop_last() =~= parts);
}

/// The first characters of a text are a beginning of it, of the given length where it is that long.
pub proof fn beginnings_are_taken(s: Seq<char>, n: int)
    requires
        n >= 0,
    ensures
        take_chars(s, n).is_prefix_of(s),
        take_chars(s, n).len() == (if s.len() < n {
            s.len() as int
        } else {
            n
        }),
{
}

/// Texts are ordered by the first character in which they differ; a beginning of a text comes before it.
pub proof fn texts_are_ordered_by_their_first_difference(
    common: Seq<char>,
    a: Seq<char>,
    b: Seq<char>,
)
    ensures
        le(common, common + b),
        b.len() > 0 ==> !le(common + b, common),
        a.len() > 0 && b.len() > 0 && a[0] != b[0] ==> (le(common + a, common + b) <==> a[0] < b[0]),
    decreases common.len(),
{
    if common.len() > 0 {
        let rest = common.subrange(1, common.len() as int);
        texts_are_ordered_by_their_first_difference(rest, a, b);
        assert((common + a).subrange(1, (common + a).len() as int) =~= rest + a);
        assert((common + b).subrange(1, (common + b).len() as int) =~= rest + b);
    } else {
        assert(common + a =~= a);
        assert(common + b =~= b);
    }
}

/// A numeral grows by one digit where its number is multiplied by ten: the digit of what is added.
pub proof fn numerals_are_decimal(n: nat, d: nat)
    requires
        d < 10,
    ensures
        decimal(d) == seq!["0123456789"@[d as int]],
        n > 0 ==> decimal(10 * n + d) == decimal(n).push("0123456789"@[d as int]),
{
    reveal_strlit("0123456789");
    let s = "0123456789"@;
    assert(s[0] == '0' && s[1] == '1' && s[2] == '2' && s[3] == '3' && s[4] == '4' && s[5] == '5'
        && s[6] == '6' && s[7] == '7' && s[8] == '8' && s[9] == '9');
    assert(hex_digit(d as int) == s[d as int]);
    assert((10 * n + d) / 10 == n);
    assert((10 * n + d) % 10 == d);
}

/// Every byte becomes two hexadecimal digits, the higher one first.
pub proof fn bytes_become_two_digits(bytes: Seq<u8>, b: u8)
    ensures
        hex(Seq::empty()).len() == 0,
        hex(bytes.push(b)) == hex(bytes).push("0123456789abcdef"@[b as int / 16]).push(
            "0123456789abcdef"@[b as int % 16],
        ),
{
    reveal_strlit("0123456789abcdef");
    let s = "0123456789abcdef"@;
    assert(s[0] == '0' && s[1] == '1' && s[2] == '2' && s[3] == '3' && s[4] == '4' && s[5] == '5'
        && s[6] == '6' && s[7] == '7' && s[8] == '8' && s[9] == '9' && s[10] == 'a' && s[11] == 'b'
        && s[12] == 'c' && s[13] == 'd' && s[14] == 'e' && s[15] == 'f');
    assert(bytes.push(b).drop_last() =~= bytes);
    assert(hex_digit((b / 16) as int) == s[b as int / 16]);
    assert(hex_digit((b % 16) as int) == s[b as int % 16]);
}

/// A text is filled up with zeros in front; one that is long enough stays as it is.
pub proof fn zeros_fill_up(s: Seq<char>, width: nat)
    ensures
        s.len() >= width ==> zero_padded(s, width) == s,
        s.len() < width ==> zero_padded(s, width).len() == width && zero_padded(s, width).skip(
            width - s.len(),
        ) == s && forall|i: int|
            0 <= i < width - s.len() ==> #[trigger] zero_padded(s, width)[i] == '0',
{
    if s.len() < width {
        assert(zero_padded(s, width).skip(width - s.len()) =~= s);
    }
}

/// Letters, digits, underscores, dots and hyphens stay; anything else becomes an underscore.
pub proof fn unsafe_characters_become_underscores(s: Seq<char>)
    ensures
        sanitized(s).len() == s.len(),
        forall|i: int|
            0 <= i < s.len() ==> #[trigger] sanitized(s)[i] == (if ('a' <= s[i] && s[i] <= 'z') || ('A'
                <= s[i] && s[i] <= 'Z') || ('0' <= s[i] && s[i] <= '9') || s[i] == '_' || s[i] == '.'
                || s[i] == '-' {
                s[i]
            } else {
                '_'
            }),
{
}

} // verus!
