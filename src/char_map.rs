//! A map from characters to values that keeps its entries in insertion order.

use vstd::prelude::*;

verus! {

/// The map that a sequence of entries denotes: a later entry for a key
/// overrides an earlier one.
pub open spec fn map_of<V>(s: Seq<(char, V)>) -> Map<char, V>
    decreases s.len(),
{
    if s.len() == 0 {
        Map::empty()
    } else {
        map_of(s.drop_last()).insert(s.last().0, s.last().1)
    }
}

/// No key occurs in two entries.
pub open spec fn keys_unique<V>(s: Seq<(char, V)>) -> bool {
    forall|i: int, j: int| 0 <= i < j < s.len() ==> s[i].0 != s[j].0
}

pub proof fn lemma_map_of_domain<V>(s: Seq<(char, V)>, k: char)
    ensures
        map_of(s).contains_key(k) <==> exists|i: int| 0 <= i < s.len() && s[i].0 == k,
    decreases s.len(),
{
    if s.len() > 0 {
        lemma_map_of_domain(s.drop_last(), k);
        if map_of(s).contains_key(k) && k != s.last().0 {
            let i = choose|i: int| 0 <= i < s.len() - 1 && s.drop_last()[i].0 == k;
            assert(s[i].0 == k);
        }
        if exists|i: int| 0 <= i < s.len() && s[i].0 == k {
            let i = choose|i: int| 0 <= i < s.len() && s[i].0 == k;
            if i < s.len() - 1 {
                assert(s.drop_last()[i].0 == k);
            }
        }
    }
}

pub proof fn lemma_map_of_index<V>(s: Seq<(char, V)>, i: int)
    requires
        keys_unique(s),
        0 <= i < s.len(),
    ensures
        map_of(s).contains_key(s[i].0),
        map_of(s)[s[i].0] == s[i].1,
    decreases s.len(),
{
    if i < s.len() - 1 {
        lemma_map_of_index(s.drop_last(), i);
        assert(s.drop_last()[i] == s[i]);
    }
}

proof fn lemma_map_of_update<V>(s: Seq<(char, V)>, i: int, v: V)
    requires
        keys_unique(s),
        0 <= i < s.len(),
    ensures
        map_of(s.update(i, (s[i].0, v))) == map_of(s).insert(s[i].0, v),
    decreases s.len(),
{
    let t = s.update(i, (s[i].0, v));
    if i == s.len() - 1 {
        assert(t.drop_last() == s.drop_last());
        assert(map_of(s).insert(s[i].0, v) =~= map_of(s.drop_last()).insert(s[i].0, v));
    } else {
        lemma_map_of_update(s.drop_last(), i, v);
        assert(t.drop_last() == s.drop_last().update(i, (s[i].0, v)));
        assert(s.last().0 != s[i].0);
        assert(map_of(t) =~= map_of(s).insert(s[i].0, v));
    }
}

/// Characters mapped to values; insertion order is kept, and each character
/// has at most one entry.
#[derive(Debug)]
pub struct CharMap<V> {
    entries: Vec<(char, V)>,
}

impl<V: Copy> CharMap<V> {
    /// What the map holds.
    pub closed spec fn view(&self) -> Map<char, V> {
        map_of(self.entries@)
    }

    /// The entries in insertion order.
    pub closed spec fn entries_view(&self) -> Seq<(char, V)> {
        self.entries@
    }

    pub closed spec fn wf(&self) -> bool {
        keys_unique(self.entries@)
    }

    /// The entries denote the map, and no key occurs twice.
    pub proof fn lemma_entries(&self)
        requires
            self.wf(),
        ensures
            forall|i: int|
                0 <= i < self.entries_view().len() ==> #[trigger] self@.contains_key(
                    self.entries_view()[i].0,
                ) && self@[self.entries_view()[i].0] == self.entries_view()[i].1,
            forall|k: char|
                #[trigger] self@.contains_key(k) <==> exists|i: int|
                    0 <= i < self.entries_view().len() && self.entries_view()[i].0 == k,
            self@.dom().len() == self.entries_view().len(),
            keys_unique(self.entries_view()),
            self@ == map_of(self.entries_view()),
    {
        assert forall|i: int| 0 <= i < self.entries_view().len() implies #[trigger] self@.contains_key(
            self.entries_view()[i].0,
        ) && self@[self.entries_view()[i].0] == self.entries_view()[i].1 by {
            lemma_map_of_index(self.entries@, i);
        }
        assert forall|k: char| #[trigger] self@.contains_key(k) <==> exists|i: int|
            0 <= i < self.entries_view().len() && self.entries_view()[i].0 == k by {
            lemma_map_of_domain(self.entries@, k);
            if self@.contains_key(k) {
                let i = choose|i: int| 0 <= i < self.entries@.len() && self.entries@[i].0 == k;
                assert(0 <= i < self.entries_view().len() && self.entries_view()[i].0 == k);
            }
        }
        lemma_dom_len(self.entries@);
    }

    pub fn new() -> (r: Self)
        ensures
            r.wf(),
            r@ == Map::<char, V>::empty(),
            r.entries_view().len() == 0,
    {
        CharMap { entries: Vec::new() }
    }

    /// The number of characters in the map.
    pub fn len(&self) -> (r: usize)
        requires
            self.wf(),
        ensures
            r == self@.dom().len(),
            r == self.entries_view().len(),
    {
        proof {
            lemma_dom_len(self.entries@);
        }
        self.entries.len()
    }

    pub fn is_empty(&self) -> (r: bool)
        requires
            self.wf(),
        ensures
            r == (self@.dom().len() == 0),
    {
        proof {
            lemma_dom_len(self.entries@);
        }
        self.entries.len() == 0
    }

    fn position(&self, c: char) -> (r: Option<usize>)
        ensures
            match r {
                Some(i) => i < self.entries@.len() && self.entries@[i as int].0 == c,
                None => forall|i: int| 0 <= i < self.entries@.len() ==> self.entries@[i].0 != c,
            },
    {
        let mut i: usize = 0;
        while i < self.entries.len()
            invariant
                i <= self.entries@.len(),
                forall|j: int| 0 <= j < i ==> self.entries@[j].0 != c,
            decreases self.entries@.len() - i,
        {
            if self.entries[i].0 == c {
                return Some(i);
            }
            i += 1;
        }
        None
    }

    /// The value of `c`, if the map has one.
    pub fn get(&self, c: char) -> (r: Option<V>)
        requires
            self.wf(),
        ensures
            r == (if self@.contains_key(c) {
                Some(self@[c])
            } else {
                None::<V>
            }),
    {
        proof {
            lemma_map_of_domain(self.entries@, c);
        }
        match self.position(c) {
            Some(i) => {
                proof {
                    lemma_map_of_index(self.entries@, i as int);
                }
                Some(self.entries[i].1)
            },
            None => None,
        }
    }

    pub fn contains_key(&self, c: char) -> (r: bool)
        ensures
            r == self@.contains_key(c),
    {
        proof {
            lemma_map_of_domain(self.entries@, c);
        }
        self.position(c).is_some()
    }

    /// Maps `c` to `v`; returns the value that `c` had before. A new key goes
    /// after all others; an existing key keeps its place.
    pub fn insert(&mut self, c: char, v: V) -> (r: Option<V>)
        requires
            old(self).wf(),
        ensures
            final(self).wf(),
            final(self)@ == old(self)@.insert(c, v),
            r == (if old(self)@.contains_key(c) {
                Some(old(self)@[c])
            } else {
                None::<V>
            }),
            old(self)@.contains_key(c) ==> exists|i: int|
                0 <= i < old(self).entries_view().len() && old(self).entries_view()[i].0 == c
                    && final(self).entries_view() == old(self).entries_view().update(i, (c, v)),
            !old(self)@.contains_key(c) ==> final(self).entries_view() == old(
                self,
            ).entries_view().push((c, v)),
    {
        proof {
            lemma_map_of_domain(self.entries@, c);
        }
        match self.position(c) {
            Some(i) => {
                proof {
                    lemma_map_of_index(self.entries@, i as int);
                    lemma_map_of_update(self.entries@, i as int, v);
                }
                let prev = self.entries[i].1;
                self.entries.set(i, (c, v));
                proof {
                    assert(self.entries@ == old(self).entries@.update(i as int, (c, v)));
                    assert(0 <= i < old(self).entries_view().len() && old(
                        self,
                    ).entries_view()[i as int].0 == c && self.entries_view() == old(
                        self,
                    ).entries_view().update(i as int, (c, v)));
                }
                Some(prev)
            },
            None => {
                self.entries.push((c, v));
                proof {
                    assert(self.entries@.drop_last() == old(self).entries@);
                }
                None
            },
        }
    }

    /// The key of the entry at `i` in insertion order.
    pub fn key_at(&self, i: usize) -> (r: char)
        requires
            i < self.entries_view().len(),
        ensures
            r == self.entries_view()[i as int].0,
    {
        self.entries[i].0
    }

    /// The value of the entry at `i` in insertion order.
    pub fn value_at(&self, i: usize) -> (r: V)
        requires
            i < self.entries_view().len(),
        ensures
            r == self.entries_view()[i as int].1,
    {
        self.entries[i].1
    }
}

proof fn lemma_dom_len<V>(s: Seq<(char, V)>)
    requires
        keys_unique(s),
    ensures
        map_of(s).dom().len() == s.len(),
        map_of(s).dom().finite(),
    decreases s.len(),
{
    if s.len() > 0 {
        let t = s.drop_last();
        assert(keys_unique(t));
        lemma_dom_len(t);
        lemma_map_of_domain(t, s.last().0);
        assert(!map_of(t).contains_key(s.last().0));
    } else {
        assert(map_of(s).dom() =~= Set::empty());
    }
}

} // verus!
