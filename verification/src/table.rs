//! A small table keyed by text.

use vstd::prelude::*;
use crate::text::same;

verus! {

/// Values under distinct names; its view is the map from names to values.
pub struct Table<T> {
    entries: Vec<(String, T)>,
}

/// Whether no two entries have the same name.
pub open spec fn distinct_names<T>(s: Seq<(String, T)>) -> bool {
    forall|i: int, j: int| 0 <= i < j < s.len() ==> #[trigger] s[i].0@ != #[trigger] s[j].0@
}

pub open spec fn has_name<T>(s: Seq<(String, T)>, k: Seq<char>) -> bool {
    exists|i: int| 0 <= i < s.len() && #[trigger] s[i].0@ == k
}

pub open spec fn entry_of<T>(s: Seq<(String, T)>, k: Seq<char>) -> int {
    choose|i: int| 0 <= i < s.len() && #[trigger] s[i].0@ == k
}

/// The map that entries with distinct names stand for.
pub open spec fn entries_map<T>(s: Seq<(String, T)>) -> Map<Seq<char>, T> {
    Map::new(|k: Seq<char>| has_name(s, k), |k: Seq<char>| s[entry_of(s, k)].1)
}

proof fn lemma_entry<T>(s: Seq<(String, T)>, i: int)
    requires
        distinct_names(s),
        0 <= i < s.len(),
    ensures
        has_name(s, s[i].0@),
        entry_of(s, s[i].0@) == i,
        entries_map(s).contains_key(s[i].0@),
        entries_map(s)[s[i].0@] == s[i].1,
{
    let e = entry_of(s, s[i].0@);
    if e != i {
        if e < i {
            assert(s[e].0@ != s[i].0@);
        } else {
            assert(s[i].0@ != s[e].0@);
        }
    }
}

impl<T> View for Table<T> {
    type V = Map<Seq<char>, T>;

    closed spec fn view(&self) -> Map<Seq<char>, T> {
        entries_map(self.entries@)
    }
}

impl<T> Table<T> {
    #[verifier::type_invariant]
    spec fn inv(self) -> bool {
        distinct_names(self.entries@)
    }

    pub fn new() -> (r: Self)
        ensures
            r@ == Map::<Seq<char>, T>::empty(),
    {
        let r = Table { entries: Vec::new() };
        assert(r@ =~= Map::<Seq<char>, T>::empty());
        r
    }

    fn position(&self, key: &str) -> (r: Option<usize>)
        ensures
            r matches Some(i) ==> i < self.entries@.len() && self.entries@[i as int].0@ == key@,
            r is None ==> !has_name(self.entries@, key@),
    {
        let mut i: usize = 0;
        while i < self.entries.len()
            invariant
                i <= self.entries@.len(),
                forall|k: int| 0 <= k < i ==> #[trigger] self.entries@[k].0@ != key@,
            decreases self.entries@.len() - i,
        {
            if same(self.entries[i].0.as_str(), key) {
                return Some(i);
            }
            i = i + 1;
        }
        None
    }

    /// The value under `key`.
    pub fn get(&self, key: &str) -> (r: Option<&T>)
        ensures
            r matches Some(v) ==> self@.contains_key(key@) && self@[key@] == *v,
            r is None ==> !self@.contains_key(key@),
    {
        proof {
            use_type_invariant(self);
        }
        match self.position(key) {
            Some(i) => {
                proof {
                    lemma_entry(self.entries@, i as int);
                }
                Some(&self.entries[i].1)
            },
            None => None,
        }
    }

    /// Takes out the value under `key`.
    pub fn take(&mut self, key: &str) -> (r: Option<T>)
        ensures
            final(self)@ == old(self)@.remove(key@),
            r matches Some(v) ==> old(self)@.contains_key(key@) && old(self)@[key@] == v,
            r is None ==> !old(self)@.contains_key(key@),
    {
        proof {
            use_type_invariant(&*self);
        }
        let ghost before = self.entries@;
        match self.position(key) {
            Some(i) => {
                proof {
                    lemma_entry(before, i as int);
                }
                let mut rest: Vec<(String, T)> = Vec::new();
                std::mem::swap(&mut self.entries, &mut rest);
                let e = rest.remove(i);
                proof {
                    lemma_remove(before, i as int);
                }
                std::mem::swap(&mut self.entries, &mut rest);
                Some(e.1)
            },
            None => {
                assert(self@ =~= old(self)@.remove(key@));
                None
            },
        }
    }

    /// Puts `value` under `key`, in place of what stood there.
    pub fn put(&mut self, key: String, value: T)
        ensures
            final(self)@ == old(self)@.insert(key@, value),
    {
        let _ = self.take(key.as_str());
        proof {
            use_type_invariant(&*self);
        }
        let ghost before = self.entries@;
        proof {
            assert(!self@.contains_key(key@));
            lemma_push(before, (key, value));
        }
        let mut all: Vec<(String, T)> = Vec::new();
        std::mem::swap(&mut self.entries, &mut all);
        all.push((key, value));
        std::mem::swap(&mut self.entries, &mut all);
        assert(self@ =~= old(self)@.insert(key@, value));
    }
}

proof fn lemma_remove<T>(s: Seq<(String, T)>, i: int)
    requires
        distinct_names(s),
        0 <= i < s.len(),
    ensures
        distinct_names(s.remove(i)),
        entries_map(s.remove(i)) == entries_map(s).remove(s[i].0@),
{
    let t = s.remove(i);
    assert(distinct_names(t)) by {
        assert forall|a: int, b: int| 0 <= a < b < t.len() implies #[trigger] t[a].0@
            != #[trigger] t[b].0@ by {
            let sa = if a < i { a } else { a + 1 };
            let sb = if b < i { b } else { b + 1 };
            assert(t[a] == s[sa] && t[b] == s[sb]);
        }
    }
    let m = entries_map(t);
    let n = entries_map(s).remove(s[i].0@);
    assert forall|k: Seq<char>| m.contains_key(k) == n.contains_key(k) by {
        if m.contains_key(k) {
            let a = entry_of(t, k);
            let sa = if a < i { a } else { a + 1 };
            assert(t[a] == s[sa]);
            lemma_entry(s, sa);
            lemma_entry(s, i);
        }
        if n.contains_key(k) {
            let b = entry_of(s, k);
            assert(b != i);
            let tb = if b < i { b } else { b - 1 };
            assert(t[tb] == s[b]);
        }
    }
    assert forall|k: Seq<char>| m.contains_key(k) implies m[k] == n[k] by {
        let a = entry_of(t, k);
        let sa = if a < i { a } else { a + 1 };
        assert(t[a] == s[sa]);
        lemma_entry(s, sa);
    }
    assert(m =~= n);
}

proof fn lemma_push<T>(s: Seq<(String, T)>, e: (String, T))
    requires
        distinct_names(s),
        !has_name(s, e.0@),
    ensures
        distinct_names(s.push(e)),
        entries_map(s.push(e)) == entries_map(s).insert(e.0@, e.1),
{
    let t = s.push(e);
    assert(distinct_names(t)) by {
        assert forall|a: int, b: int| 0 <= a < b < t.len() implies #[trigger] t[a].0@
            != #[trigger] t[b].0@ by {
            assert(t[a] == s[a]);
            if b < s.len() {
                assert(t[b] == s[b]);
            } else {
                assert(s[a].0@ != e.0@);
            }
        }
    }
    let m = entries_map(t);
    let n = entries_map(s).insert(e.0@, e.1);
    assert(t[s.len() as int] == e);
    lemma_entry(t, s.len() as int);
    assert forall|k: Seq<char>| m.contains_key(k) == n.contains_key(k) by {
        if m.contains_key(k) && k != e.0@ {
            let a = entry_of(t, k);
            assert(t[a] == s[a]);
            lemma_entry(s, a);
        }
        if n.contains_key(k) && k != e.0@ {
            let b = entry_of(s, k);
            assert(t[b] == s[b]);
            lemma_entry(t, b);
        }
    }
    assert forall|k: Seq<char>| m.contains_key(k) implies m[k] == n[k] by {
        if k != e.0@ {
            let a = entry_of(t, k);
            assert(t[a] == s[a]);
            lemma_entry(s, a);
        }
    }
    assert(m =~= n);
}

} // verus!
