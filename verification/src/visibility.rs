//! Which elements are visible at a moment: a map from element id to a flag.
use vstd::prelude::*;

use crate::text::str_eq;

verus! {

/// The map that a list of `(key, flag)` entries stands for; a later entry
/// for the same key overrides an earlier one.
pub open spec fn entries_map(s: Seq<(String, bool)>) -> Map<Seq<char>, bool>
    decreases s.len(),
{
    if s.len() == 0 {
        Map::empty()
    } else {
        entries_map(s.drop_last()).insert(s.last().0@, s.last().1)
    }
}

/// No key occurs twice.
pub open spec fn keys_unique(s: Seq<(String, bool)>) -> bool {
    forall|i: int, j: int| 0 <= i < j < s.len() ==> #[trigger] s[i].0@ != #[trigger] s[j].0@
}

proof fn lemma_entries_dom(s: Seq<(String, bool)>, k: Seq<char>)
    ensures
        entries_map(s).contains_key(k) <==> exists|i: int| 0 <= i < s.len() && #[trigger] s[i].0@ == k,
    decreases s.len(),
{
    if s.len() > 0 {
        let d = s.drop_last();
        lemma_entries_dom(d, k);
        if entries_map(s).contains_key(k) {
            if s.last().0@ != k {
                let i = choose|i: int| 0 <= i < d.len() && #[trigger] d[i].0@ == k;
                assert(s[i] == d[i]);
            } else {
                assert(s[s.len() - 1].0@ == k);
            }
        } else {
            assert forall|i: int| 0 <= i < s.len() implies #[trigger] s[i].0@ != k by {
                if i < s.len() - 1 {
                    assert(s[i] == d[i]);
                }
            }
        }
    }
}

proof fn lemma_entries_value(s: Seq<(String, bool)>, i: int)
    requires
        keys_unique(s),
        0 <= i < s.len(),
    ensures
        entries_map(s).contains_key(s[i].0@),
        entries_map(s)[s[i].0@] == s[i].1,
    decreases s.len(),
{
    let d = s.drop_last();
    if i < s.len() - 1 {
        assert(d[i] == s[i]);
        assert forall|a: int, b: int| 0 <= a < b < d.len() implies #[trigger] d[a].0@ != #[trigger] d[b].0@ by {
            assert(d[a] == s[a] && d[b] == s[b]);
        }
        lemma_entries_value(d, i);
        assert(s[s.len() - 1].0@ != s[i].0@);
    }
}

proof fn lemma_entries_update(s: Seq<(String, bool)>, i: int, v: bool)
    requires
        keys_unique(s),
        0 <= i < s.len(),
    ensures
        entries_map(s.update(i, (s[i].0, v))) =~= entries_map(s).insert(s[i].0@, v),
        keys_unique(s.update(i, (s[i].0, v))),
    decreases s.len(),
{
    let u = s.update(i, (s[i].0, v));
    let d = s.drop_last();
    if i == s.len() - 1 {
        assert(u.drop_last() =~= d);
    } else {
        assert(u.drop_last() =~= d.update(i, (d[i].0, v)));
        assert forall|a: int, b: int| 0 <= a < b < d.len() implies #[trigger] d[a].0@ != #[trigger] d[b].0@ by {
            assert(d[a] == s[a] && d[b] == s[b]);
        }
        lemma_entries_update(d, i, v);
        assert(s[s.len() - 1].0@ != s[i].0@);
    }
}

/// Element visibility by id.
#[derive(Debug)]
pub struct VisibilityMap {
    entries: Vec<(String, bool)>,
}

impl View for VisibilityMap {
    type V = Map<Seq<char>, bool>;

    closed spec fn view(&self) -> Map<Seq<char>, bool> {
        entries_map(self.entries@)
    }
}

impl Clone for VisibilityMap {
    fn clone(&self) -> (r: Self)
        ensures
            r@ == self@,
    {
        proof {
            use_type_invariant(self);
        }
        let mut entries: Vec<(String, bool)> = Vec::new();
        let mut i: usize = 0;
        while i < self.entries.len()
            invariant
                i <= self.entries@.len(),
                entries@ == self.entries@.take(i as int),
            decreases self.entries@.len() - i,
        {
            let (k, v) = &self.entries[i];
            entries.push((k.clone(), *v));
            proof {
                assert(self.entries@.take(i + 1) =~= self.entries@.take(i as int).push(self.entries@[i as int]));
            }
            i = i + 1;
        }
        proof {
            assert(self.entries@.take(i as int) =~= self.entries@);
        }
        VisibilityMap { entries }
    }
}

impl VisibilityMap {
    /// The entries never repeat a key.
    #[verifier::type_invariant]
    spec fn inv(&self) -> bool {
        keys_unique(self.entries@)
    }

    /// Every map this type stands for is finite.
    pub proof fn lemma_finite(&self)
        ensures
            self@.dom().finite(),
    {
        lemma_entries_finite(self.entries@);
    }

    /// The empty map.
    pub fn new() -> (r: Self)
        ensures
            r@ == Map::<Seq<char>, bool>::empty(),
    {
        VisibilityMap { entries: Vec::new() }
    }

    fn index_of(&self, k: &str) -> (r: Option<usize>)
        ensures
            match r {
                Some(i) => i < self.entries@.len() && self.entries@[i as int].0@ == k@,
                None => !self@.contains_key(k@),
            },
    {
        proof {
            use_type_invariant(self);
        }
        let mut i: usize = 0;
        while i < self.entries.len()
            invariant
                i <= self.entries@.len(),
                forall|j: int| 0 <= j < i ==> #[trigger] self.entries@[j].0@ != k@,
            decreases self.entries@.len() - i,
        {
            if str_eq(self.entries[i].0.as_str(), k) {
                return Some(i);
            }
            i = i + 1;
        }
        proof {
            lemma_entries_dom(self.entries@, k@);
        }
        None
    }

    /// Sets the flag of `k`, adding the key if it is new.
    pub fn insert(&mut self, k: &str, v: bool)
        ensures
            final(self)@ == old(self)@.insert(k@, v),
    {
        proof {
            use_type_invariant(&*self);
        }
        match self.index_of(k) {
            Some(i) => {
                proof {
                    lemma_entries_update(self.entries@, i as int, v);
                }
                let mut e: Vec<(String, bool)> = Vec::new();
                std::mem::swap(&mut e, &mut self.entries);
                let key = e[i].0.clone();
                e.set(i, (key, v));
                self.entries = e;
            },
            None => {
                proof {
                    lemma_entries_dom(self.entries@, k@);
                }
                let mut e: Vec<(String, bool)> = Vec::new();
                std::mem::swap(&mut e, &mut self.entries);
                e.push((k.to_owned(), v));
                proof {
                    assert(e@.drop_last() =~= old(self).entries@);
                    assert forall|a: int, b: int| 0 <= a < b < e@.len() implies #[trigger] e@[a].0@ != #[trigger] e@[b].0@ by {
                        if b == e@.len() - 1 {
                            assert(old(self).entries@[a] == e@[a]);
                        } else {
                            assert(old(self).entries@[a] == e@[a] && old(self).entries@[b] == e@[b]);
                        }
                    }
                }
                self.entries = e;
            },
        }
    }

    /// Sets the flag of `k` if the key is present; otherwise nothing changes.
    pub fn set_existing(&mut self, k: &str, v: bool)
        ensures
            final(self)@ == (if old(self)@.contains_key(k@) {
                old(self)@.insert(k@, v)
            } else {
                old(self)@
            }),
    {
        proof {
            use_type_invariant(&*self);
        }
        match self.index_of(k) {
            Some(i) => {
                proof {
                    lemma_entries_update(self.entries@, i as int, v);
                    lemma_entries_dom(self.entries@, k@);
                }
                let mut e: Vec<(String, bool)> = Vec::new();
                std::mem::swap(&mut e, &mut self.entries);
                let key = e[i].0.clone();
                e.set(i, (key, v));
                self.entries = e;
            },
            None => {},
        }
    }

    /// The flag of `k`, `None` if the key is absent.
    pub fn get(&self, k: &str) -> (r: Option<bool>)
        ensures
            r == (if self@.contains_key(k@) {
                Some(self@[k@])
            } else {
                None
            }),
    {
        proof {
            use_type_invariant(self);
        }
        match self.index_of(k) {
            Some(i) => {
                proof {
                    lemma_entries_value(self.entries@, i as int);
                }
                Some(self.entries[i].1)
            },
            None => None,
        }
    }

    /// Sets every present key to `v`.
    pub fn set_all(&mut self, v: bool)
        ensures
            final(self)@.dom() == old(self)@.dom(),
            forall|k: Seq<char>| #[trigger] final(self)@.contains_key(k) ==> final(self)@[k] == v,
    {
        proof {
            use_type_invariant(&*self);
        }
        let ghost old_map = self@;
        let mut e: Vec<(String, bool)> = Vec::new();
        std::mem::swap(&mut e, &mut self.entries);
        let mut i: usize = 0;
        while i < e.len()
            invariant
                i <= e@.len(),
                keys_unique(e@),
                entries_map(e@).dom() == old_map.dom(),
                forall|j: int| 0 <= j < i ==> #[trigger] e@[j].1 == v,
            decreases e@.len() - i,
        {
            proof {
                lemma_entries_update(e@, i as int, v);
                lemma_entries_dom(e@, e@[i as int].0@);
            }
            let key = e[i].0.clone();
            e.set(i, (key, v));
            proof {
                assert(entries_map(e@).dom() =~= old_map.dom());
            }
            i = i + 1;
        }
        proof {
            assert forall|k: Seq<char>| #[trigger] entries_map(e@).contains_key(k) implies entries_map(e@)[k] == v by {
                lemma_entries_dom(e@, k);
                let j = choose|j: int| 0 <= j < e@.len() && #[trigger] e@[j].0@ == k;
                lemma_entries_value(e@, j);
            }
        }
        self.entries = e;
    }
}

proof fn lemma_entries_finite(s: Seq<(String, bool)>)
    ensures
        entries_map(s).dom().finite(),
    decreases s.len(),
{
    if s.len() > 0 {
        lemma_entries_finite(s.drop_last());
    }
}

} // verus!
