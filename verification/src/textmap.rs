//! A small map from text to values.
use vstd::prelude::*;

use crate::text;

verus! {

/// A map whose keys are strings. No key occurs twice.
#[derive(Debug, Clone, PartialEq, Eq)]
pub struct TextMap<V> {
    entries: Vec<(String, V)>,
}

/// What a list of entries maps to what; a later entry takes precedence.
spec fn contents<V: View>(s: Seq<(String, V)>) -> Map<Seq<char>, V::V>
    decreases s.len(),
{
    if s.len() == 0 {
        Map::empty()
    } else {
        contents(s.drop_last()).insert(s.last().0@, s.last().1@)
    }
}

/// Whether no key occurs twice.
spec fn distinct<V>(s: Seq<(String, V)>) -> bool {
    forall|i: int, j: int| 0 <= i < j < s.len() ==> #[trigger] s[i].0@ != #[trigger] s[j].0@
}

proof fn lemma_contents<V: View>(s: Seq<(String, V)>)
    requires
        distinct(s),
    ensures
        forall|k: Seq<char>| #[trigger]
            contents(s).dom().contains(k) ==> exists|i: int| 0 <= i < s.len() && s[i].0@ == k,
        forall|i: int|
            0 <= i < s.len() ==> contents(s).dom().contains(#[trigger] s[i].0@) && contents(
                s,
            )[s[i].0@] == s[i].1@,
        contents(s).dom().finite(),
        contents(s).dom().len() == s.len(),
    decreases s.len(),
{
    if s.len() > 0 {
        let t = s.drop_last();
        lemma_contents(t);
        if contents(t).dom().contains(s.last().0@) {
            let i = choose|i: int| 0 <= i < t.len() && t[i].0@ == s.last().0@;
            assert(s[i].0@ == s[s.len() - 1].0@);
        }
        assert forall|k: Seq<char>| #[trigger] contents(s).dom().contains(k) implies exists|i: int|
            0 <= i < s.len() && s[i].0@ == k by {
            if k == s.last().0@ {
                assert(s[s.len() - 1].0@ == k);
            } else {
                assert(contents(t).dom().contains(k));
                let i = choose|i: int| 0 <= i < t.len() && t[i].0@ == k;
                assert(s[i].0@ == k);
            }
        }
        assert forall|i: int| 0 <= i < s.len() implies contents(s).dom().contains(
            #[trigger] s[i].0@,
        ) && contents(s)[s[i].0@] == s[i].1@ by {
            if i < t.len() {
                assert(t[i].0@ == s[i].0@);
            }
        }
    }
}

proof fn lemma_replace<V: View>(s: Seq<(String, V)>, i: int, e: (String, V))
    requires
        distinct(s),
        0 <= i < s.len(),
        s[i].0@ == e.0@,
    ensures
        distinct(s.update(i, e)),
        contents(s.update(i, e)) == contents(s).insert(e.0@, e.1@),
    decreases s.len(),
{
    let u = s.update(i, e);
    assert forall|a: int, b: int| 0 <= a < b < u.len() implies #[trigger] u[a].0@
        != #[trigger] u[b].0@ by {
        assert(u[a].0@ == s[a].0@);
        assert(u[b].0@ == s[b].0@);
    }
    if i == s.len() - 1 {
        assert(u.drop_last() =~= s.drop_last());
        assert(contents(u) =~= contents(s).insert(e.0@, e.1@));
    } else {
        assert(u.drop_last() =~= s.drop_last().update(i, e));
        lemma_replace(s.drop_last(), i, e);
        assert(s[i].0@ != s[s.len() - 1].0@);
        assert(contents(u) =~= contents(s).insert(e.0@, e.1@));
    }
}

impl<V: View> View for TextMap<V> {
    type V = Map<Seq<char>, V::V>;

    closed spec fn view(&self) -> Map<Seq<char>, V::V> {
        contents(self.entries@)
    }
}

impl<V: View> TextMap<V> {
    /// No key occurs twice.
    pub closed spec fn wf(&self) -> bool {
        distinct(self.entries@)
    }

    /// The keys and values in the order in which the keys came.
    pub closed spec fn listed(&self) -> Seq<(String, V)> {
        self.entries@
    }

    /// Every key of the map is listed exactly once, with its value, and nothing else is.
    pub proof fn each_key_is_listed_once(&self)
        requires
            self.wf(),
        ensures
            self@.dom().finite(),
            self.listed().len() == self@.dom().len(),
            forall|i: int, j: int|
                0 <= i < j < self.listed().len() ==> #[trigger] self.listed()[i].0@
                    != #[trigger] self.listed()[j].0@,
            forall|k: Seq<char>| #[trigger]
                self@.dom().contains(k) ==> exists|i: int|
                    0 <= i < self.listed().len() && #[trigger] self.listed()[i].0@ == k,
            forall|i: int|
                0 <= i < self.listed().len() ==> self@.dom().contains(
                    #[trigger] self.listed()[i].0@,
                ) && self@[self.listed()[i].0@] == self.listed()[i].1@,
    {
        lemma_contents(self.entries@);
        assert forall|k: Seq<char>| #[trigger] self@.dom().contains(k) implies exists|i: int|
            0 <= i < self.listed().len() && #[trigger] self.listed()[i].0@ == k by {
            let i = choose|i: int| 0 <= i < self.entries@.len() && self.entries@[i].0@ == k;
            assert(self.listed()[i].0@ == k);
        }
    }

    /// A map without entries.
    pub fn new() -> (r: TextMap<V>)
        ensures
            r.wf(),
            r@ == Map::<Seq<char>, V::V>::empty(),
            r.listed() == Seq::<(String, V)>::empty(),
    {
        TextMap { entries: Vec::new() }
    }

    fn position(&self, key: &str) -> (r: Option<usize>)
        ensures
            match r {
                Some(i) => i < self.entries@.len() && self.entries@[i as int].0@ == key@,
                None => forall|i: int|
                    0 <= i < self.entries@.len() ==> #[trigger] self.entries@[i].0@ != key@,
            },
    {
        let mut i: usize = 0;
        while i < self.entries.len()
            invariant
                i <= self.entries@.len(),
                forall|j: int| 0 <= j < i ==> #[trigger] self.entries@[j].0@ != key@,
            decreases self.entries@.len() - i,
        {
            if text::same_text(self.entries[i].0.as_str(), key) {
                return Some(i);
            }
            i += 1;
        }
        None
    }

    /// Maps `key` to `value`, in place of what it was mapped to before. A new key is listed
    /// last, and a key that was there keeps its place.
    pub fn insert(&mut self, key: String, value: V)
        requires
            old(self).wf(),
        ensures
            final(self).wf(),
            final(self)@ == old(self)@.insert(key@, value@),
            if old(self)@.dom().contains(key@) {
                exists|i: int|
                    0 <= i < old(self).listed().len() && #[trigger] old(self).listed()[i].0@
                        == key@ && final(self).listed() == old(self).listed().update(
                        i,
                        (key, value),
                    )
            } else {
                final(self).listed() == old(self).listed().push((key, value))
            },
    {
        proof {
            lemma_contents(self.entries@);
        }
        match self.position(key.as_str()) {
            Some(i) => {
                proof {
                    lemma_replace(self.entries@, i as int, (key, value));
                }
                assert(old(self).listed()[i as int].0@ == key@);
                self.entries[i] = (key, value);
            },
            None => {
                let ghost before = self.entries@;
                self.entries.push((key, value));
                assert(self.entries@.drop_last() =~= before);
            },
        }
    }

    /// What `key` is mapped to.
    pub fn get(&self, key: &str) -> (r: Option<&V>)
        requires
            self.wf(),
        ensures
            match r {
                Some(v) => self@.dom().contains(key@) && self@[key@] == v@,
                None => !self@.dom().contains(key@),
            },
    {
        proof {
            lemma_contents(self.entries@);
        }
        match self.position(key) {
            Some(i) => {
                assert(self.entries@[i as int].0@ == key@);
                Some(&self.entries[i].1)
            },
            None => None,
        }
    }

    /// Number of entries.
    pub fn len(&self) -> (r: usize)
        requires
            self.wf(),
        ensures
            r == self.listed().len(),
            self@.dom().finite(),
            r == self@.dom().len(),
    {
        proof {
            lemma_contents(self.entries@);
        }
        self.entries.len()
    }

    /// Whether there is no entry.
    pub fn is_empty(&self) -> (r: bool)
        requires
            self.wf(),
        ensures
            r == (self@ == Map::<Seq<char>, V::V>::empty()),
    {
        proof {
            lemma_contents(self.entries@);
            if self.entries@.len() > 0 {
                assert(self@.dom().contains(self.entries@[0].0@));
            }
        }
        self.entries.len() == 0
    }

    /// The key of entry `i`.
    pub fn key_at(&self, i: usize) -> (r: &str)
        requires
            self.wf(),
            i < self.listed().len(),
        ensures
            r@ == self.listed()[i as int].0@,
            self@.dom().contains(r@),
    {
        proof {
            lemma_contents(self.entries@);
            assert(self.entries@[i as int].0@ == self.listed()[i as int].0@);
        }
        self.entries[i].0.as_str()
    }
}

} // verus!
