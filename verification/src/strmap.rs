//! A small string-keyed association table with a mathematical map view,
//! used for the engine's lookup structures: registries and the node table.

use vstd::prelude::*;

verus! {

broadcast use vstd::std_specs::vec::group_vec_axioms, vstd::seq::group_seq_axioms,
    vstd::map::group_map_axioms, vstd::set::group_set_axioms;

/// The map described by a sequence of key/value pairs, later entries winning.
pub open spec fn pairs_map<T>(entries: Seq<(Seq<char>, T)>) -> Map<Seq<char>, T>
    decreases entries.len(),
{
    if entries.len() == 0 {
        Map::empty()
    } else {
        pairs_map(entries.drop_last()).insert(entries.last().0, entries.last().1)
    }
}

/// Pairwise-distinct keys in a sequence of key/value pairs.
pub open spec fn unique_keys<T>(s: Seq<(Seq<char>, T)>) -> bool {
    forall|i: int, j: int| 0 <= i < j < s.len() ==> s[i].0 != s[j].0
}

/// A key that appears nowhere in the pairs is absent from their map.
pub proof fn lemma_pairs_map_absent<T>(s: Seq<(Seq<char>, T)>, k: Seq<char>)
    requires
        forall|i: int| 0 <= i < s.len() ==> s[i].0 != k,
    ensures
        !pairs_map(s).contains_key(k),
    decreases s.len(),
{
    if s.len() > 0 {
        lemma_pairs_map_absent(s.drop_last(), k);
    }
}

/// The map of the pairs holds, under each key, the value paired with its
/// last occurrence.
pub proof fn lemma_pairs_map_at<T>(s: Seq<(Seq<char>, T)>, i: int)
    requires
        0 <= i < s.len(),
        forall|j: int| i < j < s.len() ==> s[j].0 != s[i].0,
    ensures
        pairs_map(s).contains_key(s[i].0),
        pairs_map(s)[s[i].0] == s[i].1,
    decreases s.len(),
{
    if i < s.len() - 1 {
        lemma_pairs_map_at(s.drop_last(), i);
    }
}

/// The domain of the map is exactly the set of keys that occur.
pub proof fn lemma_pairs_map_dom<T>(s: Seq<(Seq<char>, T)>)
    ensures
        pairs_map(s).dom().finite(),
        forall|k: Seq<char>| #[trigger] pairs_map(s).contains_key(k) <==> exists|i: int|
            0 <= i < s.len() && s[i].0 == k,
    decreases s.len(),
{
    if s.len() > 0 {
        lemma_pairs_map_dom(s.drop_last());
        assert forall|k: Seq<char>| #[trigger] pairs_map(s).contains_key(k) implies exists|i: int|
            0 <= i < s.len() && s[i].0 == k by {
            if k == s.last().0 {
                assert(s[s.len() - 1].0 == k);
            } else {
                let i = choose|i: int| 0 <= i < s.drop_last().len() && s.drop_last()[i].0 == k;
                assert(s[i].0 == k);
            }
        }
        assert forall|k: Seq<char>| (exists|i: int| 0 <= i < s.len() && s[i].0 == k) implies
            #[trigger] pairs_map(s).contains_key(k) by {
            let i = choose|i: int| 0 <= i < s.len() && s[i].0 == k;
            if i < s.len() - 1 {
                assert(s.drop_last()[i].0 == k);
            }
        }
    }
}

/// With distinct keys, the map has as many entries as the sequence.
pub proof fn lemma_pairs_map_len<T>(s: Seq<(Seq<char>, T)>)
    requires
        unique_keys(s),
    ensures
        pairs_map(s).dom().finite(),
        pairs_map(s).dom().len() == s.len(),
    decreases s.len(),
{
    lemma_pairs_map_dom(s);
    if s.len() > 0 {
        assert(unique_keys(s.drop_last()));
        lemma_pairs_map_len(s.drop_last());
        assert(forall|i: int| 0 <= i < s.drop_last().len() ==> s.drop_last()[i].0 != s.last().0);
        lemma_pairs_map_absent(s.drop_last(), s.last().0);
        assert(pairs_map(s).dom() =~= pairs_map(s.drop_last()).dom().insert(s.last().0));
        vstd::set::axiom_set_insert_len(pairs_map(s.drop_last()).dom(), s.last().0);
    }
}

/// Replacing the value at an existing key updates its map entry.
pub proof fn lemma_pairs_map_update<T>(s: Seq<(Seq<char>, T)>, i: int, v: T)
    requires
        unique_keys(s),
        0 <= i < s.len(),
    ensures
        pairs_map(s.update(i, (s[i].0, v))) == pairs_map(s).insert(s[i].0, v),
    decreases s.len(),
{
    let s2 = s.update(i, (s[i].0, v));
    if i == s.len() - 1 {
        assert(s2.drop_last() =~= s.drop_last());
        assert(pairs_map(s2) =~= pairs_map(s).insert(s[i].0, v));
    } else {
        assert(s2.drop_last() =~= s.drop_last().update(i, (s[i].0, v)));
        assert(unique_keys(s.drop_last()));
        lemma_pairs_map_update(s.drop_last(), i, v);
        assert(s.last().0 != s[i].0);
        assert(pairs_map(s2) =~= pairs_map(s).insert(s[i].0, v));
    }
}

/// Removing the pair at an existing key removes its map entry.
pub proof fn lemma_pairs_map_removed<T>(s: Seq<(Seq<char>, T)>, i: int)
    requires
        unique_keys(s),
        0 <= i < s.len(),
    ensures
        pairs_map(s.remove(i)) == pairs_map(s).remove(s[i].0),
    decreases s.len(),
{
    let s2 = s.remove(i);
    if i == s.len() - 1 {
        assert(s2 =~= s.drop_last());
        assert(forall|j: int| 0 <= j < s.drop_last().len() ==> s.drop_last()[j].0 != s[i].0);
        lemma_pairs_map_absent(s.drop_last(), s[i].0);
        assert(pairs_map(s2) =~= pairs_map(s).remove(s[i].0));
    } else {
        assert(s2.drop_last() =~= s.drop_last().remove(i));
        assert(s2.last() == s.last());
        assert(unique_keys(s.drop_last()));
        lemma_pairs_map_removed(s.drop_last(), i);
        assert(s.last().0 != s[i].0);
        assert(pairs_map(s2) =~= pairs_map(s).remove(s[i].0));
    }
}

/// The pairs, with each key taken to its view.
pub open spec fn assoc_view<T>(s: Seq<(String, T)>) -> Seq<(Seq<char>, T)> {
    Seq::new(s.len(), |i: int| (s[i].0@, s[i].1))
}

/// A lookup table from strings to values of one type, with a mathematical
/// map as its view. Entries keep their insertion order; each key occurs at
/// most once.
#[derive(Debug)]
pub struct StrMap<T> {
    entries: Vec<(String, T)>,
}

impl<T> View for StrMap<T> {
    type V = Map<Seq<char>, T>;

    closed spec fn view(&self) -> Map<Seq<char>, T> {
        pairs_map(assoc_view(self.entries@))
    }
}

impl<T> StrMap<T> {
    /// Internal shape: each key occurs at most once.
    pub closed spec fn wf(&self) -> bool {
        unique_keys(assoc_view(self.entries@))
    }

    /// The entries in insertion order, as ghost data.
    pub closed spec fn entry_keys(&self) -> Seq<Seq<char>> {
        Seq::new(self.entries@.len(), |i: int| self.entries@[i].0@)
    }

    /// The key/value pairs in insertion order, as ghost data.
    pub closed spec fn entry_pairs(&self) -> Seq<(Seq<char>, T)> {
        assoc_view(self.entries@)
    }

    /// An empty table.
    pub fn new() -> (r: StrMap<T>)
        ensures
            r@ == Map::<Seq<char>, T>::empty(),
            r.wf(),
            r.entry_pairs() == Seq::<(Seq<char>, T)>::empty(),
    {
        let r = StrMap { entries: Vec::new() };
        proof {
            assert(assoc_view(r.entries@) =~= Seq::empty());
        }
        r
    }

    /// Stores a value under a key, fully replacing any previous value.
    #[verifier::loop_isolation(false)]
    pub fn insert(&mut self, key: String, value: T)
        requires
            old(self).wf(),
        ensures
            final(self).wf(),
            final(self)@ == old(self)@.insert(key@, value),
            !old(self)@.contains_key(key@) ==> final(self).entry_pairs() == old(
                self,
            ).entry_pairs().push((key@, value)),
            old(self)@.contains_key(key@) ==> exists|j: int|
                0 <= j < old(self).entry_pairs().len() && old(self).entry_pairs()[j].0 == key@
                    && final(self).entry_pairs() == old(self).entry_pairs().update(
                    j,
                    (key@, value),
                ),
    {
        let ghost kk = key@;
        let ghost v0 = self.entries@;
        let ghost s = assoc_view(v0);
        proof {
            lemma_pairs_map_dom(s);
        }
        let mut i: usize = 0;
        while i < self.entries.len()
            invariant
                self.entries@ == v0,
                i <= v0.len(),
                forall|j: int| 0 <= j < i ==> s[j].0 != kk,
            decreases v0.len() - i,
        {
            if self.entries[i].0 == key {
                self.entries.set(i, (key, value));
                proof {
                    let s2 = assoc_view(self.entries@);
                    assert(s2 =~= s.update(i as int, (kk, value)));
                    lemma_pairs_map_update(s, i as int, value);
                    assert forall|a: int, b: int| 0 <= a < b < s2.len() implies s2[a].0
                        != s2[b].0 by {
                        assert(s2[a].0 == s[a].0);
                        assert(s2[b].0 == s[b].0);
                    }
                    assert(s[i as int].0 == kk);
                    assert(old(self)@.contains_key(kk));
                    assert(old(self).entry_pairs()[i as int].0 == key@);
                    assert(final(self).entry_pairs() == old(self).entry_pairs().update(
                        i as int,
                        (key@, value),
                    ));
                }
                return ;
            }
            i += 1;
        }
        self.entries.push((key, value));
        proof {
            let s2 = assoc_view(self.entries@);
            assert(s2 =~= s.push((kk, value)));
            assert(s2.drop_last() =~= s);
            assert(final(self)@ == pairs_map(s).insert(kk, value));
            assert forall|a: int, b: int| 0 <= a < b < s2.len() implies s2[a].0 != s2[b].0 by {
                if b < s.len() {
                    assert(s2[a].0 == s[a].0 && s2[b].0 == s[b].0);
                } else {
                    assert(s2[a].0 == s[a].0 && s2[b].0 == kk);
                }
            }
        }
    }

    /// Looks a key up; `None` when the table does not hold it.
    #[verifier::loop_isolation(false)]
    pub fn get(&self, key: &str) -> (r: Option<&T>)
        requires
            self.wf(),
        ensures
            match r {
                Some(v) => self@.contains_key(key@) && *v == self@[key@],
                None => !self@.contains_key(key@),
            },
    {
        let ghost s = assoc_view(self.entries@);
        let k: String = key.to_owned();
        let mut i: usize = 0;
        while i < self.entries.len()
            invariant
                i <= self.entries.len(),
                forall|j: int| 0 <= j < i ==> s[j].0 != key@,
            decreases self.entries.len() - i,
        {
            if self.entries[i].0 == k {
                proof {
                    assert(s[i as int].0 == key@);
                    assert forall|j: int| i < j < s.len() implies s[j].0 != s[i as int].0 by {
                        assert(s[i as int].0 != s[j].0);
                    }
                    lemma_pairs_map_at(s, i as int);
                }
                return Some(&self.entries[i].1);
            }
            i += 1;
        }
        proof {
            lemma_pairs_map_absent(s, key@);
        }
        None
    }

    /// Whether the table holds the key.
    pub fn contains_key(&self, key: &str) -> (r: bool)
        requires
            self.wf(),
        ensures
            r == self@.contains_key(key@),
    {
        self.get(key).is_some()
    }

    /// A mutable borrow of the value under a key the table holds.
    #[verifier::loop_isolation(false)]
    pub fn get_mut(&mut self, key: &str) -> (r: &mut T)
        requires
            old(self).wf(),
            old(self)@.contains_key(key@),
        ensures
            *r == old(self)@[key@],
            final(self)@ == old(self)@.insert(key@, *final(r)),
            final(self).wf(),
    {
        let ghost v0 = self.entries@;
        let ghost s = assoc_view(v0);
        proof {
            lemma_pairs_map_dom(s);
        }
        let k: String = key.to_owned();
        let mut i: usize = 0;
        loop
            invariant
                self.entries@ == v0,
                i <= v0.len(),
                forall|j: int| 0 <= j < i ==> s[j].0 != key@,
                exists|j: int| 0 <= j < s.len() && s[j].0 == key@,
            decreases v0.len() - i,
        {
            proof {
                let jw = choose|j: int| 0 <= j < s.len() && s[j].0 == key@;
                if i as int == v0.len() {
                    assert(s[jw].0 != key@);
                }
                assert(i < v0.len());
            }
            let n = self.entries.len();
            proof {
                assert(i < n);
            }
            if self.entries[i].0 == k {
                proof {
                    assert(s[i as int].0 == key@);
                    assert forall|j: int| i < j < s.len() implies s[j].0 != s[i as int].0 by {
                        assert(s[i as int].0 != s[j].0);
                    }
                    lemma_pairs_map_at(s, i as int);
                }
                let entry = &mut self.entries[i];
                let r = &mut entry.1;
                proof {
                    let fv = *final(r);
                    let w = v0.update(i as int, (v0[i as int].0, fv));
                    let s2 = assoc_view(w);
                    assert(s2 =~= s.update(i as int, (key@, fv)));
                    lemma_pairs_map_update(s, i as int, fv);
                    assert forall|a: int, b: int| 0 <= a < b < s2.len() implies s2[a].0
                        != s2[b].0 by {
                        assert(s2[a].0 == s[a].0);
                        assert(s2[b].0 == s[b].0);
                    }
                }
                return r;
            }
            i += 1;
        }
    }

    /// The key and value stored at one position, in insertion order.
    #[verifier::loop_isolation(false)]
    pub fn entry_at(&self, i: usize) -> (r: (&String, &T))
        requires
            self.wf(),
            i < self.entry_keys().len(),
        ensures
            r.0@ == self.entry_keys()[i as int],
            self@.contains_key(r.0@),
            *r.1 == self@[r.0@],
    {
        proof {
            let s = assoc_view(self.entries@);
            assert(s[i as int].0 == self.entry_keys()[i as int]);
            assert forall|j: int| i < j < s.len() implies s[j].0 != s[i as int].0 by {
                assert(s[i as int].0 != s[j].0);
            }
            lemma_pairs_map_at(s, i as int);
        }
        (&self.entries[i].0, &self.entries[i].1)
    }

    /// How many positions the table holds; the same count as its keys.
    pub fn entry_count(&self) -> (r: usize)
        ensures
            r == self.entry_keys().len(),
    {
        self.entries.len()
    }

    /// Every stored key is in the table's map.
    pub proof fn lemma_entry_keys(&self)
        requires
            self.wf(),
        ensures
            forall|i: int|
                0 <= i < self.entry_keys().len() ==> self@.contains_key(
                    #[trigger] self.entry_keys()[i],
                ),
            forall|k: Seq<char>|
                #[trigger] self@.contains_key(k) ==> exists|i: int|
                    0 <= i < self.entry_keys().len() && self.entry_keys()[i] == k,
            forall|i: int, j: int|
                0 <= i < j < self.entry_keys().len() ==> self.entry_keys()[i]
                    != self.entry_keys()[j],
    {
        let s = assoc_view(self.entries@);
        lemma_pairs_map_dom(s);
        assert forall|i: int| 0 <= i < self.entry_keys().len() implies self@.contains_key(
            #[trigger] self.entry_keys()[i],
        ) by {
            assert(s[i].0 == self.entry_keys()[i]);
        }
        assert forall|k: Seq<char>| #[trigger] self@.contains_key(k) implies exists|i: int|
            0 <= i < self.entry_keys().len() && self.entry_keys()[i] == k by {
            let i = choose|i: int| 0 <= i < s.len() && s[i].0 == k;
            assert(self.entry_keys()[i] == k);
        }
        assert forall|i: int, j: int| 0 <= i < j < self.entry_keys().len()
            implies self.entry_keys()[i] != self.entry_keys()[j] by {
            assert(s[i].0 == self.entry_keys()[i]);
            assert(s[j].0 == self.entry_keys()[j]);
        }
    }

    /// The pairs and keys line up, position by position.
    pub proof fn lemma_entry_pairs_len(&self)
        ensures
            self.entry_pairs().len() == self.entry_keys().len(),
    {
    }

    /// The pair at one position carries that position's key, and the
    /// table's map takes that key to that pair's value.
    pub proof fn lemma_entry_pair_at(&self, i: int)
        requires
            self.wf(),
            0 <= i < self.entry_pairs().len(),
        ensures
            self.entry_pairs()[i].0 == self.entry_keys()[i],
            self@.contains_key(self.entry_pairs()[i].0),
            self@[self.entry_pairs()[i].0] == self.entry_pairs()[i].1,
    {
        let s = assoc_view(self.entries@);
        assert(s[i].0 == self.entry_keys()[i]);
        assert forall|j: int| i < j < s.len() implies s[j].0 != s[i].0 by {
            assert(s[i].0 != s[j].0);
        }
        lemma_pairs_map_at(s, i);
    }

    /// How many keys the table holds.
    pub fn len(&self) -> (r: usize)
        requires
            self.wf(),
        ensures
            self@.dom().finite(),
            r == self@.dom().len(),
    {
        proof {
            lemma_pairs_map_len(assoc_view(self.entries@));
        }
        self.entries.len()
    }
}

} // verus!
