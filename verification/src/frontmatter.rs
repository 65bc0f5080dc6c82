//! Front matter: a block of `key: value` lines between two rules at the head of a file.

use vstd::prelude::*;
use vstd::string::StringExecFns;
use crate::text;

verus! {

/// Whether a line is a front matter rule.
pub open spec fn is_rule(line: Seq<char>) -> bool {
    text::trim(line) == "---"@
}

/// The first rule at or after line `i`; the number of lines if there is none.
pub open spec fn next_rule(ls: Seq<Seq<char>>, i: int) -> int
    decreases ls.len() - i,
{
    if i < 0 || i >= ls.len() {
        ls.len() as int
    } else if is_rule(ls[i]) {
        i
    } else {
        next_rule(ls, i + 1)
    }
}

/// The value of the last line with the given key; empty if no line has it.
pub open spec fn field_value(ls: Seq<Seq<char>>, key: Seq<char>) -> Seq<char>
    decreases ls.len(),
{
    if ls.len() == 0 {
        Seq::empty()
    } else {
        match text::strip_prefix(text::trim(ls.last()), key) {
            Some(v) => text::trim(v),
            None => field_value(ls.drop_last(), key),
        }
    }
}

/// The lines, each ended by a line feed.
pub open spec fn ended(ls: Seq<Seq<char>>) -> Seq<char>
    decreases ls.len(),
{
    if ls.len() == 0 {
        Seq::empty()
    } else {
        ended(ls.drop_last()) + ls.last() + "\n"@
    }
}

/// The file that a block becomes: its front matter between rules, a blank line, its body, and
/// one line feed at the end.
pub open spec fn block_content(front: Seq<Seq<char>>, body: Seq<Seq<char>>) -> Seq<char> {
    text::trim_end("---\n"@ + ended(front) + "---\n\n"@ + ended(body)) + "\n"@
}

/// A text that begins with characters other than white space still does once white space at its end is gone.
proof fn lemma_trim_end_keeps(s: Seq<char>, p: Seq<char>)
    requires
        text::starts_with(s, p),
        p.len() > 0,
        !text::is_white(p.last()),
    ensures
        text::starts_with(text::trim_end(s), p),
    decreases s.len(),
{
    if text::is_white(s.last()) {
        assert(s.subrange(0, p.len() as int) =~= p);
        assert(s[p.len() - 1] == p.last());
        assert(s.drop_last().subrange(0, p.len() as int) =~= p);
        lemma_trim_end_keeps(s.drop_last(), p);
    }
}

/// The file of a block begins with a rule and ends with a line feed.
pub proof fn block_content_is_framed(front: Seq<Seq<char>>, body: Seq<Seq<char>>)
    ensures
        text::starts_with(block_content(front, body), "---"@),
        block_content(front, body).last() == '\n',
{
    reveal_strlit("---");
    reveal_strlit("---\n");
    reveal_strlit("\n");
    let whole = "---\n"@ + ended(front) + "---\n\n"@ + ended(body);
    assert(whole.subrange(0, 3) =~= "---"@);
    lemma_trim_end_keeps(whole, "---"@);
    assert(block_content(front, body).subrange(0, 3) =~= text::trim_end(whole).subrange(0, 3));
}

pub proof fn lemma_next_rule(ls: Seq<Seq<char>>, i: int)
    ensures
        0 <= i <= ls.len() ==> i <= next_rule(ls, i) <= ls.len(),
        !(0 <= i <= ls.len()) ==> next_rule(ls, i) == ls.len(),
        next_rule(ls, i) < ls.len() ==> is_rule(ls[next_rule(ls, i)]),
    decreases ls.len() - i,
{
    if 0 <= i < ls.len() && !is_rule(ls[i]) {
        lemma_next_rule(ls, i + 1);
    }
}

/// No rule stands between a line and the first rule at or after it.
pub proof fn lemma_no_rule_before(ls: Seq<Seq<char>>, i: int)
    requires
        0 <= i <= ls.len(),
    ensures
        forall|k: int| i <= k < next_rule(ls, i) ==> !is_rule(#[trigger] ls[k]),
    decreases ls.len() - i,
{
    if i < ls.len() && !is_rule(ls[i]) {
        lemma_no_rule_before(ls, i + 1);
    }
}

/// Where the first rule at or after a line stands, given a rule, or the end, with no rule before it.
pub proof fn lemma_rule_at(ls: Seq<Seq<char>>, i: int, k: int)
    requires
        0 <= i <= k <= ls.len(),
        forall|j: int| i <= j < k ==> !is_rule(#[trigger] ls[j]),
        k < ls.len() ==> is_rule(ls[k]),
    ensures
        next_rule(ls, i) == k,
    decreases k - i,
{
    if i < k {
        lemma_rule_at(ls, i + 1, k);
    }
}

/// Whether two lists of lines are the same once each line is trimmed.
pub open spec fn alike(a: Seq<Seq<char>>, b: Seq<Seq<char>>) -> bool {
    a.len() == b.len() && forall|i: int|
        0 <= i < a.len() ==> text::trim(#[trigger] a[i]) == text::trim(b[i])
}

/// Lines that are the same once trimmed give a key the same value.
pub proof fn lemma_alike_fields(a: Seq<Seq<char>>, b: Seq<Seq<char>>, key: Seq<char>)
    requires
        alike(a, b),
    ensures
        field_value(a, key) == field_value(b, key),
    decreases a.len(),
{
    if a.len() > 0 {
        assert(text::trim(a[a.len() - 1]) == text::trim(b[b.len() - 1]));
        assert forall|i: int| 0 <= i < a.drop_last().len() implies text::trim(
            #[trigger] a.drop_last()[i],
        ) == text::trim(b.drop_last()[i]) by {
            assert(a.drop_last()[i] == a[i]);
        }
        lemma_alike_fields(a.drop_last(), b.drop_last(), key);
    }
}

proof fn lemma_ended_concat(a: Seq<Seq<char>>, b: Seq<Seq<char>>)
    ensures
        ended(a + b) == ended(a) + ended(b),
    decreases b.len(),
{
    if b.len() == 0 {
        assert(a + b =~= a);
        assert(ended(a) + ended(b) =~= ended(a));
    } else {
        lemma_ended_concat(a, b.drop_last());
        assert((a + b).drop_last() =~= a + b.drop_last());
        assert(ended(a + b) =~= ended(a) + (ended(b.drop_last()) + b.last() + "\n"@));
    }
}

/// The lines of lines that were ended by line feeds are those lines, once trimmed.
proof fn lemma_lines_of_ended(ls: Seq<Seq<char>>)
    requires
        forall|k: int| 0 <= k < ls.len() ==> !(#[trigger] ls[k]).contains('\n'),
    ensures
        alike(text::lines(ended(ls)), ls),
        ended(ls).len() > 0 ==> ended(ls).last() == '\n',
    decreases ls.len(),
{
    reveal_strlit("\n");
    if ls.len() > 0 {
        let rest = ls.drop_last();
        let last = ls.last();
        assert forall|k: int| 0 <= k < rest.len() implies !(#[trigger] rest[k]).contains('\n') by {
            assert(rest[k] == ls[k]);
        }
        lemma_lines_of_ended(rest);
        assert(!ls[ls.len() - 1].contains('\n'));
        let one = seq![last];
        text::lemma_lines_of_joined(one);
        assert(text::join(one, "\n"@) == last);
        text::lemma_lines_concat(ended(rest), last + "\n"@, 0);
        assert(ended(ls) =~= ended(rest) + (last + "\n"@));
        let got = text::lines(ended(ls));
        assert(got =~= text::lines(ended(rest)).push(text::without_cr(last)));
        text::lemma_trim_of_without_cr(last);
        assert forall|i: int| 0 <= i < got.len() implies text::trim(#[trigger] got[i])
            == text::trim(ls[i]) by {
            if i < rest.len() {
                assert(got[i] == text::lines(ended(rest))[i]);
                assert(rest[i] == ls[i]);
            }
        }
    }
}

/// The lines that the file of a block holds: a rule, its front matter, a rule, and, where there is a body, a blank line
/// and the body.
pub open spec fn block_lines(front: Seq<Seq<char>>, body: Seq<Seq<char>>) -> Seq<Seq<char>> {
    if body.len() == 0 {
        seq!["---"@] + front + seq!["---"@]
    } else {
        seq!["---"@] + front + seq!["---"@, Seq::<char>::empty()] + body
    }
}

proof fn lemma_rule_line()
    ensures
        is_rule("---"@),
        text::trim_end("---"@) == "---"@,
        !"---"@.contains('\n'),
{
    reveal_strlit("---");
}

/// The lines of the file of a block, once trimmed.
pub proof fn lemma_lines_of_block(front: Seq<Seq<char>>, body: Seq<Seq<char>>)
    requires
        forall|k: int| 0 <= k < front.len() ==> !(#[trigger] front[k]).contains('\n'),
        forall|k: int| 0 <= k < body.len() ==> !(#[trigger] body[k]).contains('\n'),
        body.len() > 0 ==> !text::is_blank(body.last()),
    ensures
        ({
            let whole = text::trim(block_content(front, body));
            &&& alike(text::lines(whole), block_lines(front, body))
            &&& whole.len() > 0 && whole[0] == '-'
            &&& text::trim(whole) == whole
        }),
{
    reveal_strlit("---");
    reveal_strlit("---\n");
    reveal_strlit("---\n\n");
    reveal_strlit("\n");
    lemma_rule_line();
    let all = block_lines(front, body);
    let xs = all.drop_last();
    let last = all.last();
    let end = if body.len() == 0 {
        "---\n\n"@
    } else {
        body.last() + "\n"@
    };
    let raw = "---\n"@ + ended(front) + "---\n\n"@ + ended(body);
    let none = Seq::<Seq<char>>::empty();
    assert(ended(none) =~= Seq::empty());
    assert(seq!["---"@].drop_last() =~= none);
    assert(ended(seq!["---"@]) =~= "---\n"@);
    lemma_ended_concat(seq!["---"@], front);
    if body.len() == 0 {
        assert(xs =~= seq!["---"@] + front);
        assert(ended(body) =~= Seq::empty());
        assert(raw =~= ended(xs) + end);
        assert(end.drop_last() =~= "---\n"@);
        assert(end.drop_last().drop_last() =~= "---"@);
        assert(text::trim_end(end.drop_last()) == text::trim_end(end.drop_last().drop_last()));
        assert(text::trim_end(end) == "---"@);
    } else {
        let two = seq!["---"@, Seq::<char>::empty()];
        assert(two.drop_last() =~= seq!["---"@]);
        assert(ended(two) =~= "---\n\n"@);
        lemma_ended_concat(seq!["---"@] + front, two);
        lemma_ended_concat(seq!["---"@] + front + two, body.drop_last());
        assert(xs =~= seq!["---"@] + front + two + body.drop_last());
        assert(raw =~= ended(xs) + end);
        assert(end.drop_last() =~= body.last());
        text::lemma_trim_of_trim_end(body.last());
        assert(text::trim_end(end) == text::trim_end(body.last()));
    }
    let tail = text::trim_end(last);
    assert(text::trim_end(end) == tail);
    text::lemma_trim_end_of_concat(ended(xs), end);
    let kept = ended(xs) + tail;
    assert(text::trim_end(raw) == kept);
    let content = block_content(front, body);
    assert(content == kept + "\n"@);
    block_content_is_framed(front, body);
    assert(content.subrange(0, 3)[0] == '-');
    assert(content[0] == '-');
    assert(text::trim_start(content) == content);
    assert(content.drop_last() =~= kept);
    lemma_trim_end_twice(raw);
    assert(text::trim(content) == kept);
    assert(kept[0] == content[0]);
    assert(text::trim_start(kept) == kept);

    assert forall|k: int| 0 <= k < all.len() implies !(#[trigger] all[k]).contains('\n') by {
        if body.len() > 0 && k >= front.len() + 3 {
            assert(all[k] == body[k - front.len() - 3]);
        } else if 1 <= k <= front.len() {
            assert(all[k] == front[k - 1]);
        }
    }
    assert forall|k: int| 0 <= k < xs.len() implies !(#[trigger] xs[k]).contains('\n') by {
        assert(xs[k] == all[k]);
    }
    lemma_lines_of_ended(xs);
    assert(!all[all.len() - 1].contains('\n'));
    lemma_trim_end_part(last);
    text::lemma_single_line(tail);
    text::lemma_lines_concat(ended(xs), tail, 0);
    let got = text::lines(kept);
    assert(got =~= text::lines(ended(xs)).push(tail));
    text::lemma_trim_of_trim_end(last);
    assert forall|i: int| 0 <= i < got.len() implies text::trim(#[trigger] got[i]) == text::trim(
        all[i],
    ) by {
        if i < xs.len() {
            assert(got[i] == text::lines(ended(xs))[i]);
            assert(xs[i] == all[i]);
        }
    }
}

proof fn lemma_trim_end_twice(s: Seq<char>)
    ensures
        text::trim_end(text::trim_end(s)) == text::trim_end(s),
    decreases s.len(),
{
    if s.len() > 0 && text::is_white(s.last()) {
        lemma_trim_end_twice(s.drop_last());
    }
}

proof fn lemma_trim_end_part(s: Seq<char>)
    ensures
        forall|c: char| #[trigger] text::trim_end(s).contains(c) ==> s.contains(c),
    decreases s.len(),
{
    if s.len() > 0 && text::is_white(s.last()) {
        lemma_trim_end_part(s.drop_last());
        assert forall|c: char| #[trigger] text::trim_end(s).contains(c) implies s.contains(c) by {
            assert(text::trim_end(s.drop_last()).contains(c));
            assert(s.drop_last().contains(c));
            let k = choose|k: int| 0 <= k < s.drop_last().len() && s.drop_last()[k] == c;
            assert(s[k] == c);
        }
    }
}

/// Where the rules of the file of a block stand: at its head and behind its front matter, and nowhere else.
pub proof fn lemma_rules_of_block(
    ls: Seq<Seq<char>>,
    front: Seq<Seq<char>>,
    body: Seq<Seq<char>>,
)
    requires
        alike(ls, block_lines(front, body)),
        forall|k: int| 0 <= k < front.len() ==> !is_rule(#[trigger] front[k]),
        forall|k: int| 0 <= k < body.len() ==> !is_rule(#[trigger] body[k]),
    ensures
        next_rule(ls, 0) == 0,
        next_rule(ls, 1) == front.len() + 1,
        front.len() + 1 < ls.len(),
        next_rule(ls, front.len() as int + 2) == ls.len(),
        alike(ls.subrange(1, front.len() as int + 1), front),
{
    lemma_rule_line();
    reveal_strlit("---");
    let all = block_lines(front, body);
    let n = front.len() as int;
    assert(text::trim(ls[0]) == text::trim(all[0]));
    assert(text::trim(ls[n + 1]) == text::trim(all[n + 1]));
    assert forall|k: int| 1 <= k < n + 1 implies !is_rule(#[trigger] ls[k]) by {
        assert(all[k] == front[k - 1]);
    }
    assert forall|k: int| n + 2 <= k < ls.len() implies !is_rule(#[trigger] ls[k]) by {
        if k == n + 2 {
            assert(all[k] =~= Seq::empty());
            assert(text::trim(all[k]).len() == 0);
        } else {
            assert(all[k] == body[k - n - 3]);
        }
    }
    lemma_rule_at(ls, 0, 0);
    lemma_rule_at(ls, 1, n + 1);
    lemma_rule_at(ls, n + 2, ls.len() as int);
    assert forall|i: int| 0 <= i < n implies text::trim(#[trigger] ls.subrange(1, n + 1)[i])
        == text::trim(front[i]) by {
        assert(ls.subrange(1, n + 1)[i] == ls[i + 1]);
        assert(all[i + 1] == front[i]);
    }
}

pub fn rule(line: &str) -> (r: bool)
    ensures
        r == is_rule(line@),
{
    text::same(text::trimmed(line).as_str(), "---")
}

pub fn rule_from(ls: &Vec<String>, from: usize) -> (r: usize)
    requires
        from <= ls@.len(),
    ensures
        r == next_rule(text::views(ls@), from as int),
        from <= r <= ls@.len(),
{
    let mut i: usize = from;
    while i < ls.len() && !rule(ls[i].as_str())
        invariant
            from <= i <= ls@.len(),
            next_rule(text::views(ls@), from as int) == next_rule(text::views(ls@), i as int),
        decreases ls@.len() - i,
    {
        i = i + 1;
    }
    i
}

pub fn field_of(ls: &Vec<String>, from: usize, to: usize, key: &str) -> (r: String)
    requires
        from <= to <= ls@.len(),
    ensures
        r@ == field_value(text::views(ls@).subrange(from as int, to as int), key@),
{
    let mut i: usize = to;
    let ghost all = text::views(ls@);
    while i > from
        invariant
            from <= i <= to <= ls@.len(),
            all == text::views(ls@),
            field_value(all.subrange(from as int, to as int), key@) == field_value(
                all.subrange(from as int, i as int),
                key@,
            ),
        decreases i,
    {
        let t = text::trimmed(ls[i - 1].as_str());
        assert(all.subrange(from as int, i as int).last() == ls@[i - 1]@);
        assert(all.subrange(from as int, i as int).drop_last() =~= all.subrange(
            from as int,
            i - 1,
        ));
        if let Some(v) = text::without_prefix(t.as_str(), key) {
            return text::trimmed(v.as_str());
        }
        i = i - 1;
    }
    String::new()
}

pub fn append_ended(out: &mut String, ls: &Vec<String>, from: usize, to: usize)
    requires
        from <= to <= ls@.len(),
    ensures
        final(out)@ == old(out)@ + ended(text::views(ls@).subrange(from as int, to as int)),
{
    let ghost all = text::views(ls@);
    let ghost before = out@;
    let mut i: usize = from;
    proof {
        assert(before + ended(all.subrange(from as int, from as int)) =~= before);
    }
    while i < to
        invariant
            from <= i <= to <= ls@.len(),
            all == text::views(ls@),
            out@ == before + ended(all.subrange(from as int, i as int)),
        decreases to - i,
    {
        out.append(ls[i].as_str());
        out.append("\n");
        proof {
            let next = all.subrange(from as int, i + 1);
            assert(next.last() == ls@[i as int]@);
            assert(next.drop_last() =~= all.subrange(from as int, i as int));
            assert(out@ =~= before + (ended(next.drop_last()) + next.last() + "\n"@));
        }
        i = i + 1;
    }
}

pub fn content_of(
    ls: &Vec<String>,
    front_from: usize,
    front_to: usize,
    body_from: usize,
    body_to: usize,
) -> (r: String)
    requires
        front_from <= front_to <= ls@.len(),
        body_from <= body_to <= ls@.len(),
    ensures
        r@ == block_content(
            text::views(ls@).subrange(front_from as int, front_to as int),
            text::views(ls@).subrange(body_from as int, body_to as int),
        ),
{
    let mut full = "---\n".to_owned();
    append_ended(&mut full, ls, front_from, front_to);
    full.append("---\n\n");
    append_ended(&mut full, ls, body_from, body_to);
    let mut content = text::trimmed_end(full.as_str());
    content.append("\n");
    content
}

// ---------------------------------------------------------------------------
// What front matter promises
// ---------------------------------------------------------------------------

/// The value of a key is what follows it on the last line that begins with it, trimmed; a key that no line begins
/// with has none.
pub proof fn fields_are_read_from_their_last_line(ls: Seq<Seq<char>>, key: Seq<char>, i: int)
    requires
        forall|k: int| i < k < ls.len() ==> !text::starts_with(text::trim(#[trigger] ls[k]), key),
        -1 <= i < ls.len(),
        i >= 0 ==> text::starts_with(text::trim(ls[i]), key),
    ensures
        i >= 0 ==> field_value(ls, key) == text::trim(text::trim(ls[i]).skip(key.len() as int)),
        i < 0 ==> field_value(ls, key).len() == 0,
    decreases ls.len(),
{
    if ls.len() > 0 {
        let n = ls.len() - 1;
        if i < n {
            assert(!text::starts_with(text::trim(ls[n]), key));
            assert forall|k: int| i < k < ls.drop_last().len() implies !text::starts_with(
                text::trim(#[trigger] ls.drop_last()[k]),
                key,
            ) by {
                assert(ls.drop_last()[k] == ls[k]);
            }
            fields_are_read_from_their_last_line(ls.drop_last(), key, i);
        } else {
            let t = text::trim(ls[i]);
            assert(t.subrange(key.len() as int, t.len() as int) =~= t.skip(key.len() as int));
        }
    }
}

/// A rule is a line of three hyphens, with nothing but white space beside them.
pub proof fn rules_are_three_hyphens(line: Seq<char>)
    ensures
        is_rule(line) <==> text::trim(line) == seq!['-', '-', '-'],
{
    reveal_strlit("---");
    assert("---"@ =~= seq!['-', '-', '-']);
}

/// The file of a block holds its front matter and its body line by line, each ended by one line feed, with a rule
/// before and after the front matter and a blank line before the body.
pub proof fn block_files_keep_every_line(front: Seq<Seq<char>>, body: Seq<Seq<char>>)
    requires
        body.len() > 0 ==> body.last().len() > 0 && !text::is_white(body.last().last()),
    ensures
        body.len() > 0 ==> block_content(front, body) == "---\n"@ + ended(front) + "---\n\n"@
            + ended(body),
        body.len() == 0 ==> block_content(front, body) == "---\n"@ + ended(front) + "---\n"@,
        ended(Seq::empty()).len() == 0,
        forall|line: Seq<char>| #[trigger] ended(front.push(line)) == ended(front) + line + "\n"@,
{
    reveal_strlit("\n");
    reveal_strlit("---\n");
    reveal_strlit("---\n\n");
    assert forall|line: Seq<char>| #[trigger] ended(front.push(line)) == ended(front) + line
        + "\n"@ by {
        assert(front.push(line).drop_last() =~= front);
    }
    let whole = "---\n"@ + ended(front) + "---\n\n"@ + ended(body);
    if body.len() > 0 {
        assert(ended(body) == ended(body.drop_last()) + body.last() + "\n"@);
        assert(whole.last() == '\n');
        let d = whole.drop_last();
        let m = ended(body).drop_last();
        assert(d =~= "---\n"@ + ended(front) + "---\n\n"@ + m);
        assert(m =~= ended(body.drop_last()) + body.last());
        assert(m.last() == body.last().last());
        assert(d.last() == m.last());
        assert(text::trim_end(d) == d);
        assert(text::trim_end(whole) == d);
        assert(d + "\n"@ =~= whole);
    } else {
        let base = "---\n"@ + ended(front) + seq!['-', '-', '-'];
        assert(whole =~= base.push('\n').push('\n'));
        assert(whole.drop_last() =~= base.push('\n'));
        assert(base.push('\n').drop_last() =~= base);
        assert(base.last() == '-');
        assert(text::trim_end(base) == base);
        assert(text::trim_end(base.push('\n')) == base);
        assert(text::trim_end(whole) == base);
        assert(base + "\n"@ =~= "---\n"@ + ended(front) + "---\n"@);
    }
}

} // verus!
