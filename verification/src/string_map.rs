//! A map keyed by text that remembers the order in which its names first came.

use crate::text::same_text;
use vstd::prelude::*;

verus! {

/// The map that a list of pairs describes: where a name comes twice, the later value stands.
pub open spec fn pairs_map<A>(pairs: Seq<(Seq<char>, A)>) -> Map<Seq<char>, A>
    decreases pairs.len(),
{
    if pairs.len() == 0 {
        Map::empty()
    } else {
        pairs_map(pairs.drop_last()).insert(pairs.last().0, pairs.last().1)
    }
}

/// No name comes twice.
pub open spec fn distinct_names<A>(pairs: Seq<(Seq<char>, A)>) -> bool {
    forall|i: int, j: int| 0 <= i < j < pairs.len() ==> pairs[i].0 != pairs[j].0
}

/// In a list without repeated names, each pair is one entry of its map and there is no other.
pub proof fn lemma_pairs_map<A>(pairs: Seq<(Seq<char>, A)>)
    requires
        distinct_names(pairs),
    ensures
        forall|i: int|
            0 <= i < pairs.len() ==> pairs_map(pairs).contains_key(#[trigger] pairs[i].0)
                && pairs_map(pairs)[pairs[i].0] == pairs[i].1,
        forall|k: Seq<char>| #[trigger]
            pairs_map(pairs).contains_key(k) ==> exists|i: int|
                0 <= i < pairs.len() && pairs[i].0 == k,
        pairs_map(pairs).dom().finite(),
        pairs_map(pairs).len() == pairs.len(),
    decreases pairs.len(),
{
    if pairs.len() > 0 {
        let rest = pairs.drop_last();
        assert(distinct_names(rest));
        lemma_pairs_map(rest);
        let m = pairs_map(rest);
        assert forall|i: int| 0 <= i < pairs.len() implies pairs_map(pairs).contains_key(
            #[trigger] pairs[i].0,
        ) && pairs_map(pairs)[pairs[i].0] == pairs[i].1 by {
            if i < rest.len() {
                assert(rest[i] == pairs[i]);
                assert(pairs[i].0 != pairs[pairs.len() - 1].0);
            }
        }
        assert forall|k: Seq<char>| #[trigger] pairs_map(pairs).contains_key(k) implies exists|
            i: int,
        | 0 <= i < pairs.len() && pairs[i].0 == k by {
            if k == pairs.last().0 {
                assert(pairs[pairs.len() - 1].0 == k);
            } else {
                assert(m.contains_key(k));
                let i = choose|i: int| 0 <= i < rest.len() && rest[i].0 == k;
                assert(pairs[i].0 == k);
            }
        }
        if m.contains_key(pairs.last().0) {
            let i = choose|i: int| 0 <= i < rest.len() && rest[i].0 == pairs.last().0;
            assert(pairs[i].0 == pairs[pairs.len() - 1].0);
        }
    }
}

/// A map from text to values.
pub struct StringMap<V> {
    entries: Vec<(String, V)>,
}

impl<V> StringMap<V> {
    /// No name occurs twice among the entries.
    #[verifier::type_invariant]
    closed spec fn names_differ(self) -> bool {
        forall|i: int, j: int|
            0 <= i < j < self.entries@.len() ==> self.entries@[i].0@ != self.entries@[j].0@
    }
}

impl<V: DeepView> StringMap<V> {
    /// The entries in the order in which their names first came.
    pub closed spec fn pairs(&self) -> Seq<(Seq<char>, V::V)> {
        Seq::new(
            self.entries@.len(),
            |i: int| (self.entries@[i].0@, self.entries@[i].1.deep_view()),
        )
    }
}

impl<V: DeepView> View for StringMap<V> {
    type V = Map<Seq<char>, V::V>;

    open spec fn view(&self) -> Map<Seq<char>, V::V> {
        pairs_map(self.pairs())
    }
}

impl<V: DeepView> DeepView for StringMap<V> {
    type V = Map<Seq<char>, V::V>;

    open spec fn deep_view(&self) -> Map<Seq<char>, V::V> {
        pairs_map(self.pairs())
    }
}

impl<V: DeepView> StringMap<V> {
    /// A map without entries.
    pub fn new() -> (map: Self)
        ensures
            map.pairs() == Seq::<(Seq<char>, V::V)>::empty(),
            map@ == Map::<Seq<char>, V::V>::empty(),
    {
        let map = StringMap { entries: Vec::new() };
        assert(map.pairs() =~= Seq::empty());
        map
    }

    /// The number of entries.
    pub fn len(&self) -> (n: usize)
        ensures
            n == self.pairs().len(),
            n == self@.len(),
            distinct_names(self.pairs()),
    {
        proof {
            use_type_invariant(self);
            lemma_pairs_map(self.pairs());
        }
        self.entries.len()
    }

    /// Whether there is no entry.
    pub fn is_empty(&self) -> (r: bool)
        ensures
            r == (self@ == Map::<Seq<char>, V::V>::empty()),
            r == (self.pairs().len() == 0),
    {
        proof {
            use_type_invariant(self);
            lemma_pairs_map(self.pairs());
            if self.pairs().len() > 0 {
                assert(self@.contains_key(self.pairs()[0].0));
            }
        }
        self.entries.len() == 0
    }

    /// The name of the entry at `i`.
    pub fn name_at(&self, i: usize) -> (name: &String)
        requires
            i < self.pairs().len(),
        ensures
            name@ == self.pairs()[i as int].0,
    {
        &self.entries[i].0
    }

    /// The value of the entry at `i`.
    pub fn value_at(&self, i: usize) -> (value: &V)
        requires
            i < self.pairs().len(),
        ensures
            value.deep_view() == self.pairs()[i as int].1,
    {
        &self.entries[i].1
    }

    fn position(&self, name: &str) -> (r: Option<usize>)
        ensures
            match r {
                Some(i) => i < self.entries@.len() && self.entries@[i as int].0@ == name@,
                None => forall|j: int|
                    0 <= j < self.entries@.len() ==> self.entries@[j].0@ != name@,
            },
    {
        let mut i: usize = 0;
        while i < self.entries.len()
            invariant
                i <= self.entries@.len(),
                forall|j: int| 0 <= j < i ==> self.entries@[j].0@ != name@,
            decreases self.entries@.len() - i,
        {
            if same_text(&self.entries[i].0, name) {
                return Some(i);
            }
            i = i + 1;
        }
        None
    }

    /// The value under `name`.
    pub fn get(&self, name: &str) -> (r: Option<&V>)
        ensures
            match r {
                Some(v) => self@.contains_key(name@) && self@[name@] == v.deep_view(),
                None => !self@.contains_key(name@),
            },
    {
        proof {
            use_type_invariant(self);
            lemma_pairs_map(self.pairs());
        }
        match self.position(name) {
            Some(i) => {
                assert(self.pairs()[i as int].0 == name@);
                Some(&self.entries[i].1)
            },
            None => {
                proof {
                    if self@.contains_key(name@) {
                        let i = choose|i: int|
                            0 <= i < self.pairs().len() && self.pairs()[i].0 == name@;
                        assert(self.entries@[i].0@ == name@);
                    }
                }
                None
            },
        }
    }

    /// Puts `value` under `name`, in place of what was there or behind all others.
    pub fn insert(&mut self, name: String, value: V)
        ensures
            final(self)@ == old(self)@.insert(name@, value.deep_view()),
            !old(self)@.contains_key(name@) ==> final(self).pairs() == old(self).pairs().push(
                (name@, value.deep_view()),
            ),
            forall|i: int|
                0 <= i < old(self).pairs().len() && #[trigger] old(self).pairs()[i].0 == name@
                    ==> final(self).pairs() == old(self).pairs().update(
                    i,
                    (name@, value.deep_view()),
                ),
    {
        proof {
            use_type_invariant(&*self);
            lemma_pairs_map(self.pairs());
        }
        let ghost before = self.pairs();
        let ghost name_text = name@;
        let ghost value_view = value.deep_view();
        let found = self.position(name.as_str());
        let mut entries: Vec<(String, V)> = Vec::new();
        std::mem::swap(&mut entries, &mut self.entries);
        let ghost old_entries = entries@;
        match found {
            Some(i) => {
                entries[i] = (name, value);
                assert(entries@ == old_entries.update(i as int, entries@[i as int]));
            },
            None => {
                entries.push((name, value));
            },
        }
        self.entries = entries;
        proof {
            lemma_pairs_map(self.pairs());
            let after = pairs_map(self.pairs());
            assert forall|k: Seq<char>| after.contains_key(k) <==> pairs_map(before).insert(
                name_text,
                value_view,
            ).contains_key(k) by {
                if after.contains_key(k) {
                    let j = choose|j: int| 0 <= j < self.pairs().len() && self.pairs()[j].0 == k;
                    if k != name_text {
                        assert(before[j].0 == k);
                    }
                }
                if pairs_map(before).contains_key(k) {
                    let j = choose|j: int| 0 <= j < before.len() && before[j].0 == k;
                    assert(self.pairs()[j].0 == k);
                }
                if k == name_text {
                    match found {
                        Some(i) => {
                            assert(self.pairs()[i as int].0 == k);
                        },
                        None => {
                            assert(self.pairs()[before.len() as int].0 == k);
                        },
                    }
                }
            }
            assert forall|k: Seq<char>| #[trigger] after.contains_key(k) implies after[k]
                == pairs_map(before).insert(name_text, value_view)[k] by {
                let j = choose|j: int| 0 <= j < self.pairs().len() && self.pairs()[j].0 == k;
                if k != name_text {
                    assert(before[j] == self.pairs()[j]);
                    assert(before[j].0 == k);
                } else {
                    assert(self.pairs()[j].1 == value_view);
                }
            }
            assert(after =~= pairs_map(before).insert(name_text, value_view));
            match found {
                Some(i) => {
                    assert(before[i as int].0 == name_text);
                    assert(self.pairs() =~= before.update(i as int, (name_text, value_view)));
                },
                None => {
                    assert(self.pairs() =~= before.push((name_text, value_view)));
                },
            }
        }
    }
}

impl Clone for StringMap<String> {
    fn clone(&self) -> (copy: Self)
        ensures
            copy.pairs() == self.pairs(),
    {
        proof {
            use_type_invariant(self);
        }
        let mut entries: Vec<(String, String)> = Vec::new();
        let mut i: usize = 0;
        while i < self.entries.len()
            invariant
                i <= self.entries@.len(),
                entries@.len() == i,
                forall|j: int|
                    0 <= j < i ==> entries@[j].0@ == self.entries@[j].0@ && entries@[j].1@
                        == self.entries@[j].1@,
            decreases self.entries@.len() - i,
        {
            entries.push((self.entries[i].0.clone(), self.entries[i].1.clone()));
            i = i + 1;
        }
        let copy = StringMap { entries };
        assert(copy.pairs() =~= self.pairs());
        copy
    }
}

} // verus!
