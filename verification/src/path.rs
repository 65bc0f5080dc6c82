//! Paths in the form of this library: names with `/` between them, and one in front where the path is absolute.
//! That is how Unix writes paths. Where the system writes them in another way, with drives or other separators, a
//! path is put into this form before it gets here.

use vstd::prelude::*;
use vstd::string::StringExecFns;
use crate::text;
use crate::text::chars_of;

verus! {

/// `base` with the relative name `name` under it.
pub open spec fn under(base: Seq<char>, name: Seq<char>) -> Seq<char> {
    if base.len() == 0 || base.last() == '/' {
        base + name
    } else {
        base + "/"@ + name
    }
}

/// See [`under`].
pub fn child(base: &str, name: &str) -> (r: String)
    ensures
        r@ == under(base@, name@),
{
    let v = chars_of(base);
    let mut out = base.to_owned();
    if v.len() != 0 && v[v.len() - 1] != '/' {
        out.append("/");
    }
    out.append(name);
    out
}

// ---------------------------------------------------------------------------
// Components
// ---------------------------------------------------------------------------

pub open spec fn is_absolute(p: Seq<char>) -> bool {
    p.len() > 0 && p[0] == '/'
}

/// Whether the piece at index `i` is a component: an empty piece is none, and a dot is one only where the
/// path begins with it.
pub open spec fn is_component(pieces: Seq<Seq<char>>, i: int) -> bool {
    pieces[i].len() > 0 && (pieces[i] != "."@ || i == 0)
}

/// The components among the first `n` pieces.
pub open spec fn components_upto(pieces: Seq<Seq<char>>, n: int) -> Seq<Seq<char>>
    decreases n,
{
    if n <= 0 {
        Seq::empty()
    } else if is_component(pieces, n - 1) {
        components_upto(pieces, n - 1).push(pieces[n - 1])
    } else {
        components_upto(pieces, n - 1)
    }
}

/// The components of a path, the root among them as a slash.
pub open spec fn components(p: Seq<char>) -> Seq<Seq<char>> {
    let pieces = text::split(p, '/');
    let rest = components_upto(pieces, pieces.len() as int);
    if is_absolute(p) {
        seq!["/"@] + rest
    } else {
        rest
    }
}

/// Whether a path is absolute.
pub fn starts_at_root(p: &str) -> (r: bool)
    ensures
        r == is_absolute(p@),
{
    let v = chars_of(p);
    v.len() != 0 && v[0] == '/'
}

/// See [`components`].
pub fn components_of(p: &str) -> (r: Vec<String>)
    ensures
        text::views(r@) == components(p@),
{
    let pieces = text::pieces_of(p, '/');
    let ghost all = text::views(pieces@);
    let ghost root: Seq<Seq<char>> = if is_absolute(p@) {
        seq!["/"@]
    } else {
        Seq::empty()
    };
    let mut out: Vec<String> = Vec::new();
    if starts_at_root(p) {
        out.push("/".to_owned());
    }
    assert(text::views(out@) =~= root + components_upto(all, 0));
    let mut i: usize = 0;
    while i < pieces.len()
        invariant
            i <= pieces@.len(),
            all == text::views(pieces@),
            text::views(out@) == root + components_upto(all, i as int),
        decreases pieces@.len() - i,
    {
        assert(all[i as int] == pieces@[i as int]@);
        let piece = &pieces[i];
        if !piece.as_str().is_empty() && (i == 0 || !text::same(piece.as_str(), ".")) {
            proof {
                text::lemma_views_push(out@, *piece);
                assert(root + components_upto(all, i as int).push(piece@) =~= (root
                    + components_upto(all, i as int)).push(piece@));
            }
            out.push(piece.clone());
        }
        i = i + 1;
    }
    assert(text::views(out@) =~= components(p@));
    out
}

/// Whether two paths have the same components.
pub open spec fn same_path(a: Seq<char>, b: Seq<char>) -> bool {
    components(a) == components(b)
}

/// See [`same_path`].
pub fn same(a: &str, b: &str) -> (r: bool)
    ensures
        r == same_path(a@, b@),
{
    let x = components_of(a);
    let y = components_of(b);
    let ghost xs = text::views(x@);
    let ghost ys = text::views(y@);
    if x.len() != y.len() {
        assert(xs.len() != ys.len());
        return false;
    }
    let mut i: usize = 0;
    while i < x.len()
        invariant
            i <= x@.len(),
            x@.len() == y@.len(),
            xs == text::views(x@),
            ys == text::views(y@),
            xs == components(a@),
            ys == components(b@),
            forall|k: int| 0 <= k < i ==> #[trigger] xs[k] == ys[k],
        decreases x@.len() - i,
    {
        assert(xs[i as int] == x@[i as int]@);
        assert(ys[i as int] == y@[i as int]@);
        if !text::same(x[i].as_str(), y[i].as_str()) {
            assert(xs[i as int] != ys[i as int]);
            return false;
        }
        i = i + 1;
    }
    assert(xs =~= ys);
    true
}

/// The last component of a path.
pub open spec fn last_component(p: Seq<char>) -> Option<Seq<char>> {
    if components(p).len() == 0 {
        None
    } else {
        Some(components(p).last())
    }
}

// ---------------------------------------------------------------------------
// Order
// ---------------------------------------------------------------------------

/// The root comes before a dot, a dot before two dots, two dots before any name.
pub open spec fn component_rank(c: Seq<char>) -> int {
    if c == "/"@ {
        0
    } else if c == "."@ {
        1
    } else if c == ".."@ {
        2
    } else {
        3
    }
}

pub open spec fn component_le(a: Seq<char>, b: Seq<char>) -> bool {
    if component_rank(a) != component_rank(b) {
        component_rank(a) < component_rank(b)
    } else {
        text::le(a, b)
    }
}

/// Whether `a` comes before `b`, or is `b`, component by component.
pub open spec fn components_le(a: Seq<Seq<char>>, b: Seq<Seq<char>>) -> bool
    decreases a.len(),
{
    if a.len() == 0 {
        true
    } else if b.len() == 0 {
        false
    } else if a[0] != b[0] {
        component_le(a[0], b[0])
    } else {
        components_le(a.subrange(1, a.len() as int), b.subrange(1, b.len() as int))
    }
}

/// Whether the path `a` comes before `b`, or has the same components.
pub open spec fn le(a: Seq<char>, b: Seq<char>) -> bool {
    components_le(components(a), components(b))
}

proof fn lemma_component_le(a: Seq<char>, b: Seq<char>, c: Seq<char>)
    ensures
        component_le(a, a),
        component_le(a, b) || component_le(b, a),
        component_le(a, b) && component_le(b, c) ==> component_le(a, c),
        component_le(a, b) && component_le(b, a) ==> a == b,
{
    text::lemma_le(a, b, c);
}

proof fn lemma_components_le(a: Seq<Seq<char>>, b: Seq<Seq<char>>, c: Seq<Seq<char>>)
    ensures
        components_le(a, a),
        components_le(a, b) || components_le(b, a),
        components_le(a, b) && components_le(b, c) ==> components_le(a, c),
    decreases a.len(),
{
    if a.len() > 0 {
        lemma_components_le(
            a.subrange(1, a.len() as int),
            b.subrange(1, b.len() as int),
            c.subrange(1, c.len() as int),
        );
        if b.len() > 0 {
            lemma_component_le(a[0], b[0], a[0]);
            if c.len() > 0 {
                lemma_component_le(a[0], b[0], c[0]);
                lemma_component_le(b[0], c[0], a[0]);
            }
        }
    }
}

pub proof fn lemma_le(a: Seq<char>, b: Seq<char>, c: Seq<char>)
    ensures
        le(a, a),
        le(a, b) || le(b, a),
        le(a, b) && le(b, c) ==> le(a, c),
{
    lemma_components_le(components(a), components(b), components(c));
}

fn rank_of(c: &str) -> (r: u8)
    ensures
        r == component_rank(c@),
{
    if text::same(c, "/") {
        0
    } else if text::same(c, ".") {
        1
    } else if text::same(c, "..") {
        2
    } else {
        3
    }
}

fn component_precedes(a: &str, b: &str) -> (r: bool)
    ensures
        r == component_le(a@, b@),
{
    let x: u8 = rank_of(a);
    let y: u8 = rank_of(b);
    if x != y {
        x < y
    } else {
        text::precedes(a, b)
    }
}

/// See [`le`].
pub fn precedes(a: &str, b: &str) -> (r: bool)
    ensures
        r == le(a@, b@),
{
    let x = components_of(a);
    let y = components_of(b);
    let ghost xs = text::views(x@);
    let ghost ys = text::views(y@);
    let mut i: usize = 0;
    assert(xs.subrange(0, xs.len() as int) =~= xs);
    assert(ys.subrange(0, ys.len() as int) =~= ys);
    while i < x.len() && i < y.len()
        invariant
            i <= x@.len(),
            i <= y@.len(),
            xs == text::views(x@),
            ys == text::views(y@),
            le(a@, b@) == components_le(
                xs.subrange(i as int, xs.len() as int),
                ys.subrange(i as int, ys.len() as int),
            ),
        decreases x@.len() - i,
    {
        let ghost p = xs.subrange(i as int, xs.len() as int);
        let ghost q = ys.subrange(i as int, ys.len() as int);
        assert(p[0] == x@[i as int]@);
        assert(q[0] == y@[i as int]@);
        if !text::same(x[i].as_str(), y[i].as_str()) {
            return component_precedes(x[i].as_str(), y[i].as_str());
        }
        proof {
            assert(p.subrange(1, p.len() as int) =~= xs.subrange(i + 1, xs.len() as int));
            assert(q.subrange(1, q.len() as int) =~= ys.subrange(i + 1, ys.len() as int));
        }
        i = i + 1;
    }
    assert(xs.subrange(i as int, xs.len() as int).len() == xs.len() - i);
    assert(ys.subrange(i as int, ys.len() as int).len() == ys.len() - i);
    i >= x.len()
}

// ---------------------------------------------------------------------------
// Cleaning and parents
// ---------------------------------------------------------------------------

/// Components without dots; two dots take away the name before them.
pub open spec fn resolved(cs: Seq<Seq<char>>) -> Seq<Seq<char>>
    decreases cs.len(),
{
    if cs.len() == 0 {
        Seq::empty()
    } else {
        let before = resolved(cs.drop_last());
        if cs.last() == "."@ {
            before
        } else if cs.last() == ".."@ {
            if before.len() == 0 || before.last() == "/"@ {
                before
            } else {
                before.drop_last()
            }
        } else {
            before.push(cs.last())
        }
    }
}

/// The text of components, the root in front if it is among them.
pub open spec fn text_of(cs: Seq<Seq<char>>) -> Seq<char> {
    if cs.len() > 0 && cs[0] == "/"@ {
        "/"@ + text::join(cs.skip(1), "/"@)
    } else {
        text::join(cs, "/"@)
    }
}

/// A path without dots, as far as that can be told from its text.
pub fn normalize_path_components(p: &str) -> (r: String)
    ensures
        r@ == text_of(resolved(components(p@))),
{
    let cs = components_of(p);
    let ghost all = text::views(cs@);
    let mut out: Vec<String> = Vec::new();
    assert(text::views(out@) =~= Seq::empty());
    let mut i: usize = 0;
    while i < cs.len()
        invariant
            i <= cs@.len(),
            all == text::views(cs@),
            text::views(out@) == resolved(all.take(i as int)),
        decreases cs@.len() - i,
    {
        proof {
            assert(all.take(i + 1).drop_last() =~= all.take(i as int));
            assert(all.take(i + 1).last() == cs@[i as int]@);
        }
        let c = &cs[i];
        if text::same(c.as_str(), ".") {
        } else if text::same(c.as_str(), "..") {
            let ghost before = text::views(out@);
            let n: usize = out.len();
            if n != 0 {
                assert(before.last() == out@[n - 1]@);
                if !text::same(out[n - 1].as_str(), "/") {
                    let _ = out.pop();
                    assert(text::views(out@) =~= before.drop_last());
                }
            }
        } else {
            proof {
                text::lemma_views_push(out@, *c);
            }
            out.push(c.clone());
        }
        i = i + 1;
    }
    assert(all.take(all.len() as int) =~= all);
    let ghost cleaned = text::views(out@);
    if out.len() != 0 {
        assert(cleaned[0] == out@[0]@);
        if text::same(out[0].as_str(), "/") {
            let _ = out.remove(0);
            assert(text::views(out@) =~= cleaned.skip(1));
            let mut r = "/".to_owned();
            let rest = text::joined(&out, "/");
            r.append(rest.as_str());
            return r;
        }
    }
    text::joined(&out, "/")
}

/// The pieces of an absolute path without those at its end that are no components.
pub open spec fn without_blank_end(pieces: Seq<Seq<char>>) -> Seq<Seq<char>>
    decreases pieces.len(),
{
    if pieces.len() > 1 && !is_component(pieces, pieces.len() - 1) {
        without_blank_end(pieces.drop_last())
    } else {
        pieces
    }
}

/// The directory that an absolute path stands in, as the beginning of its text. The root stands in itself.
pub open spec fn parent(p: Seq<char>) -> Seq<char> {
    let pieces = without_blank_end(text::split(p, '/'));
    if pieces.len() <= 1 {
        "/"@
    } else {
        let rest = without_blank_end(pieces.drop_last());
        if rest.len() <= 1 {
            "/"@
        } else {
            text::join(rest, "/"@)
        }
    }
}

fn cut_blank_end(pieces: &mut Vec<String>)
    ensures
        text::views(final(pieces)@) == without_blank_end(text::views(old(pieces)@)),
{
    let ghost first = text::views(pieces@);
    let mut n: usize = pieces.len();
    while n > 1 && (pieces[n - 1].as_str().is_empty() || text::same(pieces[n - 1].as_str(), "."))
        invariant
            n == pieces@.len(),
            without_blank_end(first) == without_blank_end(text::views(pieces@)),
        decreases n,
    {
        let ghost before = text::views(pieces@);
        assert(before[n - 1] == pieces@[n - 1]@);
        let _ = pieces.pop();
        assert(text::views(pieces@) =~= before.drop_last());
        n = n - 1;
    }
    proof {
        let now = text::views(pieces@);
        if n > 1 {
            assert(now[n - 1] == pieces@[n - 1]@);
        }
        assert(without_blank_end(now) == now);
    }
}

/// See [`parent`].
pub fn parent_of(p: &str) -> (r: String)
    requires
        is_absolute(p@),
    ensures
        r@ == parent(p@),
{
    let mut pieces = text::pieces_of(p, '/');
    cut_blank_end(&mut pieces);
    let ghost kept = text::views(pieces@);
    assert(kept.len() == pieces@.len());
    if pieces.len() <= 1 {
        return "/".to_owned();
    }
    let _ = pieces.pop();
    assert(text::views(pieces@) =~= kept.drop_last());
    cut_blank_end(&mut pieces);
    assert(text::views(pieces@).len() == pieces@.len());
    if pieces.len() <= 1 {
        "/".to_owned()
    } else {
        text::joined(&pieces, "/")
    }
}

proof fn lemma_components_upto_prefix(a: Seq<Seq<char>>, b: Seq<Seq<char>>, n: int)
    requires
        0 <= n <= a.len(),
        n <= b.len(),
        forall|i: int| 0 <= i < n ==> a[i] == b[i],
    ensures
        components_upto(a, n) == components_upto(b, n),
    decreases n,
{
    if n > 0 {
        lemma_components_upto_prefix(a, b, n - 1);
    }
}

proof fn lemma_blank_end(pieces: Seq<Seq<char>>)
    requires
        pieces.len() > 0,
    ensures
        ({
            let kept = without_blank_end(pieces);
            &&& 0 < kept.len() <= pieces.len()
            &&& kept == pieces.take(kept.len() as int)
            &&& components_upto(kept, kept.len() as int) == components_upto(
                pieces,
                pieces.len() as int,
            ) || kept.len() == 1 && pieces[0].len() == 0 && components_upto(
                pieces,
                pieces.len() as int,
            ).len() == 0
            &&& kept.len() > 1 ==> is_component(kept, kept.len() - 1)
        }),
    decreases pieces.len(),
{
    if pieces.len() > 1 && !is_component(pieces, pieces.len() - 1) {
        let d = pieces.drop_last();
        lemma_blank_end(d);
        lemma_components_upto_prefix(d, pieces, d.len() as int);
        let kept = without_blank_end(pieces);
        assert(kept =~= pieces.take(kept.len() as int));
    } else {
        assert(pieces.take(pieces.len() as int) =~= pieces);
    }
}

/// The directory that an absolute path stands in is absolute, and has the components of the path but for the
/// last one.
pub proof fn parent_drops_last_component(p: Seq<char>)
    requires
        is_absolute(p),
        components(p).len() >= 2,
    ensures
        is_absolute(parent(p)),
        components(parent(p)) == components(p).drop_last(),
{
    reveal_strlit("/");
    let pieces = text::split(p, '/');
    text::lemma_split_pieces(p, '/', 0);
    let kept = without_blank_end(pieces);
    lemma_blank_end(pieces);
    text::lemma_next_index(p, '/', 0);
    assert(text::next_index(p, '/', 0) == 0);
    assert(pieces[0] =~= Seq::empty());
    let all = components_upto(pieces, pieces.len() as int);
    assert(components(p) == seq!["/"@] + all);
    assert(all.len() >= 1);
    assert(kept.len() > 1) by {
        if kept.len() == 1 {
            assert(kept[0] == pieces[0]);
            assert(components_upto(kept, 1) == components_upto(kept, 0));
        }
    }
    let d = kept.drop_last();
    lemma_components_upto_prefix(d, kept, d.len() as int);
    assert(all == components_upto(kept, kept.len() as int));
    assert(components_upto(d, d.len() as int) =~= all.drop_last());
    let rest = without_blank_end(d);
    lemma_blank_end(d);
    assert(components(p).drop_last() =~= seq!["/"@] + all.drop_last());
    assert(rest[0] == pieces[0]);
    if rest.len() == 1 {
        assert(components_upto(rest, 1) == components_upto(rest, 0));
        assert(all.drop_last().len() == 0);
        let root = "/"@;
        text::lemma_next_index(root, '/', 0);
        assert(text::next_index(root, '/', 0) == 0);
        assert(text::split_from(root, '/', 1) =~= seq![root.subrange(1, 1)]) by {
            assert(text::next_index(root, '/', 1) == 1);
        }
        let ps = text::split(root, '/');
        assert(ps.len() == 2);
        assert(ps[0].len() == 0);
        assert(ps[1].len() == 0);
        assert(components_upto(ps, 2) =~= Seq::empty()) by {
            reveal_with_fuel(components_upto, 3);
        }
        assert(components(root) =~= seq!["/"@]);
        assert(components(p).drop_last() =~= seq!["/"@]);
    } else {
        assert forall|i: int| 0 <= i < rest.len() implies !(#[trigger] rest[i]).contains(
            '/',
        ) by {
            assert(rest[i] == pieces[i]);
        }
        text::lemma_split_of_joined(rest, '/');
        let t = text::join(rest, "/"@);
        text::lemma_join_head(rest, "/"@);
        assert("/"@ =~= seq!['/']);
        assert(rest[0].len() == 0);
        assert(t.take(1)[0] == (rest[0] + "/"@)[0]);
        assert(is_absolute(t));
        assert(components(t) == seq!["/"@] + components_upto(rest, rest.len() as int));
    }
}

// ---------------------------------------------------------------------------
// What paths promise
// ---------------------------------------------------------------------------

/// A name goes under a directory behind one slash, which is not doubled where the directory ends with it.
pub proof fn names_go_under_directories(base: Seq<char>, name: Seq<char>)
    ensures
        base.len() > 0 && base.last() != '/' ==> under(base, name) == base.push('/') + name,
        base.len() > 0 && base.last() == '/' ==> under(base, name) == base + name,
        base.len() == 0 ==> under(base, name) == name,
{
    reveal_strlit("/");
    assert(base + "/"@ + name =~= base.push('/') + name);
    if base.len() == 0 {
        assert(base + name =~= name);
    }
}

/// What stands behind a slash is one more component, unless it is empty or a dot; it says nothing of what comes before.
pub proof fn components_stand_behind_slashes(p: Seq<char>, name: Seq<char>)
    requires
        p.len() > 0,
        !name.contains('/'),
    ensures
        name.len() > 0 && name != "."@ ==> components(p.push('/') + name) == components(p).push(name),
        name.len() == 0 || name == "."@ ==> components(p.push('/') + name) == components(p),
{
    reveal_strlit("/");
    let q = p.push('/') + name;
    text::lemma_split_concat(p, name, '/', 0);
    assert(p + seq!['/'] + name =~= q);
    let before = text::split(p, '/');
    let after = text::split(q, '/');
    assert(after == before.push(name));
    text::lemma_split_pieces(p, '/', 0);
    lemma_components_upto_prefix(after, before, before.len() as int);
    let n = after.len() as int;
    assert(after[n - 1] == name);
    assert(components_upto(after, n - 1) == components_upto(before, before.len() as int));
    assert(q[0] == p[0]);
    let rest = components_upto(before, before.len() as int);
    assert(seq!["/"@] + rest.push(name) =~= (seq!["/"@] + rest).push(name));
}

/// A name without slashes is its own only component, and it stands below the root behind a slash.
pub proof fn names_are_their_only_component(name: Seq<char>)
    requires
        name.len() > 0,
        !name.contains('/'),
    ensures
        components(name) == seq![name],
        name != "."@ ==> components(seq!['/'] + name) == seq!["/"@, name],
{
    text::pieces_stand_between_marks(Seq::empty(), name, '/');
    text::pieces_stand_between_marks(Seq::empty(), Seq::empty(), '/');
    let ps = text::split(name, '/');
    assert(ps == seq![name]);
    assert(components_upto(ps, 0) =~= Seq::empty());
    assert(components_upto(ps, 1) =~= seq![name]);
    assert(name[0] != '/') by {
        if name[0] == '/' {
            assert(name.contains('/'));
        }
    }
    let q = seq!['/'] + name;
    assert(Seq::<char>::empty().push('/') + name =~= q);
    let qs = text::split(q, '/');
    assert(qs == text::split(Seq::empty(), '/').push(name));
    assert(qs[0].len() == 0);
    assert(qs[1] == name);
    assert(qs.len() == 2);
    if name != "."@ {
        assert(components_upto(qs, 0) =~= Seq::empty());
        assert(components_upto(qs, 1) =~= Seq::empty());
        assert(components_upto(qs, 2) =~= seq![name]);
        assert(components(q) =~= seq!["/"@, name]);
    }
}

/// Dots are left out, two dots take the name before them away, and nothing stands above the root.
pub proof fn dots_are_resolved(cs: Seq<Seq<char>>, name: Seq<char>)
    ensures
        resolved(Seq::empty()).len() == 0,
        resolved(cs.push("."@)) == resolved(cs),
        name != "."@ && name != ".."@ ==> resolved(cs.push(name)) == resolved(cs).push(name),
        name != "."@ && name != ".."@ && name != "/"@ ==> resolved(cs.push(name).push(".."@))
            == resolved(cs),
        resolved(cs).len() == 0 ==> resolved(cs.push(".."@)).len() == 0,
        resolved(cs).len() > 0 && resolved(cs).last() == "/"@ ==> resolved(cs.push(".."@)) == resolved(
            cs,
        ),
{
    reveal_strlit(".");
    reveal_strlit("..");
    assert("."@.len() != ".."@.len());
    assert(cs.push("."@).drop_last() =~= cs);
    assert(cs.push(".."@).drop_last() =~= cs);
    assert(cs.push(name).drop_last() =~= cs);
    assert(cs.push(name).push(".."@).drop_last() =~= cs.push(name));
    if name != "."@ && name != ".."@ {
        assert(resolved(cs.push(name)) == resolved(cs).push(name));
        assert(resolved(cs).push(name).drop_last() =~= resolved(cs));
    }
}

/// The last component of a path is the last name in it.
pub proof fn last_names_come_last(p: Seq<char>, name: Seq<char>)
    requires
        p.len() > 0,
        name.len() > 0,
        name != "."@,
        !name.contains('/'),
    ensures
        last_component(p.push('/') + name) == Some(name),
        last_component(p.push('/') + name + seq!['/']) == Some(name),
{
    components_stand_behind_slashes(p, name);
    components_stand_behind_slashes(p.push('/') + name, Seq::empty());
    let q = p.push('/') + name;
    assert(q.push('/') + Seq::<char>::empty() =~= q + seq!['/']);
}

/// Paths are ordered by the first component in which they differ, and the root, a dot and two dots come before names.
pub proof fn paths_are_ordered_by_their_first_difference(
    common: Seq<Seq<char>>,
    a: Seq<Seq<char>>,
    b: Seq<Seq<char>>,
)
    ensures
        components_le(common, common + b),
        b.len() > 0 ==> !components_le(common + b, common),
        a.len() > 0 && b.len() > 0 && a[0] != b[0] ==> (components_le(common + a, common + b)
            <==> component_le(a[0], b[0])),
    decreases common.len(),
{
    if common.len() > 0 {
        let rest = common.subrange(1, common.len() as int);
        paths_are_ordered_by_their_first_difference(rest, a, b);
        assert((common + a).subrange(1, (common + a).len() as int) =~= rest + a);
        assert((common + b).subrange(1, (common + b).len() as int) =~= rest + b);
    } else {
        assert(common + a =~= a);
        assert(common + b =~= b);
    }
}

/// Two names are ordered as texts; the root comes first, then a dot, then two dots.
pub proof fn names_are_ordered_as_texts(a: Seq<char>, b: Seq<char>)
    requires
        a != "/"@ && a != "."@ && a != ".."@,
    ensures
        b != "/"@ && b != "."@ && b != ".."@ ==> (component_le(a, b) <==> text::le(a, b)),
        component_le("/"@, a) && component_le("."@, a) && component_le(".."@, a),
        component_le("/"@, "."@) && component_le("."@, ".."@),
        !component_le(a, ".."@),
        !component_le(".."@, "."@) && !component_le("."@, "/"@),
{
    reveal_strlit("/");
    reveal_strlit(".");
    reveal_strlit("..");
    assert("/"@[0] == '/');
    assert("."@[0] == '.');
    assert(".."@.len() == 2);
}

/// Components are written with slashes between them, and those below the root behind one.
pub proof fn components_are_written_with_slashes(cs: Seq<Seq<char>>, name: Seq<char>)
    ensures
        name != "/"@ ==> text_of(seq![name]) == name,
        text_of(seq!["/"@]) == "/"@,
        text_of(seq!["/"@, name]) == "/"@ + name,
        cs.len() > 1 ==> text_of(cs.push(name)) == text_of(cs) + "/"@ + name,
        cs.len() == 1 && cs[0] != "/"@ ==> text_of(cs.push(name)) == text_of(cs) + "/"@ + name,
{
    assert(seq!["/"@].skip(1) =~= Seq::empty());
    assert(text::join(Seq::empty(), "/"@) =~= Seq::empty());
    assert("/"@ + Seq::<char>::empty() =~= "/"@);
    assert(seq!["/"@, name].skip(1) =~= seq![name]);
    let more = cs.push(name);
    if cs.len() > 0 {
        assert(more[0] == cs[0]);
        text::parts_are_joined_in_order(cs, name, "/"@);
        if cs.len() > 1 && cs[0] == "/"@ {
            assert(more.skip(1) =~= cs.skip(1).push(name));
            text::parts_are_joined_in_order(cs.skip(1), name, "/"@);
            assert(text_of(more) =~= text_of(cs) + "/"@ + name);
        }
    }
}

/// A path begins at the root exactly where it begins with a slash.
pub proof fn rooted_paths_begin_with_a_slash(c: char, rest: Seq<char>)
    ensures
        !is_absolute(Seq::empty()),
        is_absolute(seq![c] + rest) <==> c == '/',
{
    assert((seq![c] + rest)[0] == c);
}

/// A slash at the end of a path, and a dot behind it, change nothing; another name at the end does.
pub proof fn paths_are_the_same_by_their_names(p: Seq<char>, a: Seq<char>, b: Seq<char>)
    requires
        p.len() > 0,
        a.len() > 0 && a != "."@ && !a.contains('/'),
        b.len() > 0 && b != "."@ && !b.contains('/'),
    ensures
        same_path(p, p),
        same_path(p.push('/'), p),
        same_path(p.push('/').push('.'), p),
        same_path(p.push('/') + a, p.push('/') + b) <==> a == b,
        !same_path(p.push('/') + a, p),
{
    reveal_strlit(".");
    components_stand_behind_slashes(p, a);
    components_stand_behind_slashes(p, b);
    components_stand_behind_slashes(p, Seq::empty());
    components_stand_behind_slashes(p, seq!['.']);
    assert("."@ =~= seq!['.']);
    assert(p.push('/') + Seq::<char>::empty() =~= p.push('/'));
    assert(p.push('/') + seq!['.'] =~= p.push('/').push('.'));
    let cs = components(p);
    assert(cs.push(a).last() == a && cs.push(b).last() == b);
    assert(cs.push(a).len() == cs.len() + 1);
}

} // verus!
