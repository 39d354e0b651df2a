//! Maps from names.
use crate::text::same_text;
use vstd::prelude::*;

verus! {

/// The map with the given entries; of two with one name the later counts.
pub open spec fn map_of<W>(entries: Seq<(Seq<char>, W)>) -> Map<Seq<char>, W>
    decreases entries.len(),
{
    if entries.len() == 0 {
        Map::empty()
    } else {
        map_of(entries.drop_last()).insert(entries.last().0, entries.last().1)
    }
}

/// Whether no two entries have one name.
pub open spec fn distinct_names<W>(entries: Seq<(Seq<char>, W)>) -> bool {
    forall|i: int, j: int|
        0 <= i < j < entries.len() ==> #[trigger] entries[i].0 != #[trigger] entries[j].0
}

/// The map holds exactly what the entries say.
pub proof fn map_holds_entries<W>(entries: Seq<(Seq<char>, W)>)
    requires
        distinct_names(entries),
    ensures
        forall|i: int|
            0 <= i < entries.len() ==> map_of(entries).contains_key(#[trigger] entries[i].0)
                && map_of(entries)[entries[i].0] == entries[i].1,
        forall|name: Seq<char>| #[trigger]
            map_of(entries).contains_key(name) ==> exists|i: int|
                0 <= i < entries.len() && #[trigger] entries[i].0 == name,
    decreases entries.len(),
{
    if entries.len() > 0 {
        let rest = entries.drop_last();
        map_holds_entries(rest);
        assert forall|i: int| 0 <= i < entries.len() implies map_of(entries).contains_key(
            #[trigger] entries[i].0,
        ) && map_of(entries)[entries[i].0] == entries[i].1 by {
            if i < rest.len() {
                assert(rest[i] == entries[i]);
                assert(entries[i].0 != entries[entries.len() - 1].0);
            }
        }
        assert forall|name: Seq<char>| #[trigger] map_of(entries).contains_key(name) implies exists|i: int|
            0 <= i < entries.len() && #[trigger] entries[i].0 == name by {
            if name == entries.last().0 {
                assert(entries[entries.len() - 1].0 == name);
            } else {
                assert(map_of(rest).contains_key(name));
                let i = choose|i: int| 0 <= i < rest.len() && #[trigger] rest[i].0 == name;
                assert(entries[i].0 == name);
            }
        }
    }
}

/// The entries with `f` applied to what stands under each name.
pub open spec fn map_entries<W, X>(entries: Seq<(Seq<char>, W)>, f: spec_fn(W) -> X) -> Seq<(Seq<char>, X)> {
    Seq::new(entries.len(), |i: int| (entries[i].0, f(entries[i].1)))
}

/// Applying `f` to the entries applies it to the values of the map.
pub proof fn map_of_mapped<W, X>(entries: Seq<(Seq<char>, W)>, f: spec_fn(W) -> X)
    ensures
        map_of(map_entries(entries, f)) == map_of(entries).map_values(f),
    decreases entries.len(),
{
    if entries.len() > 0 {
        map_of_mapped(entries.drop_last(), f);
        assert(map_entries(entries, f).drop_last() =~= map_entries(entries.drop_last(), f));
    }
    assert(map_of(map_entries(entries, f)) =~= map_of(entries).map_values(f));
}

/// A map from names.
#[derive(Debug)]
pub struct NameMap<V> {
    entries: Vec<(String, V)>,
}

impl<V: DeepView> DeepView for NameMap<V> {
    type V = Map<Seq<char>, V::V>;

    closed spec fn deep_view(&self) -> Map<Seq<char>, V::V> {
        map_of(self.entries.deep_view())
    }
}

impl<V> NameMap<V> {
    /// No two entries have one name.
    #[verifier::type_invariant]
    spec fn wf(self) -> bool {
        distinct_keys(self.entries@)
    }
}

spec fn distinct_keys<V>(entries: Seq<(String, V)>) -> bool {
    forall|i: int, j: int|
        0 <= i < j < entries.len() ==> #[trigger] entries[i].0@ != #[trigger] entries[j].0@
}

proof fn lemma_distinct<V: DeepView>(entries: Vec<(String, V)>)
    ensures
        distinct_names(entries.deep_view()) <==> distinct_keys(entries@),
{
    let deep = entries.deep_view();
    if distinct_names(deep) {
        assert forall|i: int, j: int| 0 <= i < j < entries@.len() implies #[trigger] entries@[i].0@
            != #[trigger] entries@[j].0@ by {
            assert(deep[i].0 != deep[j].0);
        }
    }
    if distinct_keys(entries@) {
        assert forall|i: int, j: int| 0 <= i < j < deep.len() implies #[trigger] deep[i].0 != #[trigger] deep[j].0 by {
            assert(entries@[i].0@ != entries@[j].0@);
        }
    }
}

impl<V: DeepView> NameMap<V> {
    /// The empty map.
    pub fn new() -> (res: Self)
        ensures
            res.deep_view() == Map::<Seq<char>, V::V>::empty(),
    {
        NameMap { entries: Vec::new() }
    }

    /// The map with the given entries.
    pub fn from_entries(entries: Vec<(String, V)>) -> (res: Self)
        requires
            distinct_names(entries.deep_view()),
        ensures
            res.deep_view() == map_of(entries.deep_view()),
    {
        proof {
            lemma_distinct(entries);
        }
        NameMap { entries }
    }

    /// The entries, each name once.
    pub fn entries(&self) -> (res: &Vec<(String, V)>)
        ensures
            self.deep_view() == map_of(res.deep_view()),
            distinct_names(res.deep_view()),
    {
        proof {
            use_type_invariant(self);
            lemma_distinct(self.entries);
        }
        &self.entries
    }

    /// Takes the map apart.
    pub fn into_entries(self) -> (res: Vec<(String, V)>)
        ensures
            self.deep_view() == map_of(res.deep_view()),
            distinct_names(res.deep_view()),
    {
        proof {
            use_type_invariant(&self);
            lemma_distinct(self.entries);
        }
        self.entries
    }

    fn find(&self, name: &str) -> (res: Option<usize>)
        ensures
            match res {
                Some(i) => i < self.entries@.len() && self.entries@[i as int].0@ == name@
                    && self.deep_view().contains_key(name@) && self.deep_view()[name@]
                    == self.entries@[i as int].1.deep_view(),
                None => !self.deep_view().contains_key(name@),
            },
    {
        proof {
            use_type_invariant(self);
            lemma_distinct(self.entries);
            map_holds_entries(self.entries.deep_view());
        }
        let mut i: usize = 0;
        while i < self.entries.len()
            invariant
                i <= self.entries@.len(),
                distinct_names(self.entries.deep_view()),
                forall|j: int| 0 <= j < i ==> #[trigger] self.entries.deep_view()[j].0 != name@,
            decreases self.entries@.len() - i,
        {
            if same_text(self.entries[i].0.as_str(), name) {
                proof {
                    map_holds_entries(self.entries.deep_view());
                    assert(self.entries.deep_view()[i as int].0 == name@);
                }
                return Some(i);
            }
            i = i + 1;
        }
        None
    }

    /// What the map has under `name`.
    pub fn get(&self, name: &str) -> (res: Option<&V>)
        ensures
            match res {
                Some(value) => self.deep_view().contains_key(name@) && self.deep_view()[name@] == value.deep_view(),
                None => !self.deep_view().contains_key(name@),
            },
    {
        match self.find(name) {
            Some(i) => Some(&self.entries[i].1),
            None => None,
        }
    }

    /// Whether the map has something under `name`.
    pub fn contains_key(&self, name: &str) -> (res: bool)
        ensures
            res == self.deep_view().contains_key(name@),
    {
        self.find(name).is_some()
    }

    /// Takes out what the map has under `name`.
    pub fn remove(&mut self, name: &str) -> (res: Option<V>)
        ensures
            final(self).deep_view() == old(self).deep_view().remove(name@),
            match res {
                Some(value) => old(self).deep_view().contains_key(name@) && old(self).deep_view()[name@]
                    == value.deep_view(),
                None => !old(self).deep_view().contains_key(name@),
            },
    {
        let at = match self.find(name) {
            Some(i) => i,
            None => {
                assert(self.deep_view() =~= self.deep_view().remove(name@));
                return None;
            },
        };
        proof {
            use_type_invariant(&*self);
            lemma_distinct(self.entries);
            map_holds_entries(self.entries.deep_view());
        }
        let ghost before = self.entries.deep_view();
        let mut entries: Vec<(String, V)> = Vec::new();
        core::mem::swap(&mut entries, &mut self.entries);
        let (_, value) = entries.remove(at);
        let ghost after = entries.deep_view();
        proof {
            assert(after =~= before.remove(at as int));
            assert forall|i: int, j: int| 0 <= i < j < after.len() implies #[trigger] after[i].0
                != #[trigger] after[j].0 by {
                let a = if i < at { i } else { i + 1 };
                let b = if j < at { j } else { j + 1 };
                assert(after[i] == before[a] && after[j] == before[b]);
            }
            map_holds_entries(after);
            assert forall|n: Seq<char>| #[trigger] map_of(after).contains_key(n) == map_of(before).remove(
                name@,
            ).contains_key(n) by {
                if map_of(after).contains_key(n) {
                    let i = choose|i: int| 0 <= i < after.len() && #[trigger] after[i].0 == n;
                    let a = if i < at { i } else { i + 1 };
                    assert(after[i] == before[a]);
                    assert(before[a].0 != before[at as int].0);
                } else if map_of(before).contains_key(n) && n != name@ {
                    let a = choose|a: int| 0 <= a < before.len() && #[trigger] before[a].0 == n;
                    let i = if a < at { a } else { a - 1 };
                    assert(after[i] == before[a]);
                }
            }
            assert forall|n: Seq<char>| #[trigger] map_of(after).contains_key(n) implies map_of(after)[n]
                == map_of(before).remove(name@)[n] by {
                let i = choose|i: int| 0 <= i < after.len() && #[trigger] after[i].0 == n;
                let a = if i < at { i } else { i + 1 };
                assert(after[i] == before[a]);
            }
            assert(map_of(after) =~= map_of(before).remove(name@));
            lemma_distinct(entries);
        }
        self.entries = entries;
        Some(value)
    }

    /// Puts `value` under `name`, in place of what was there.
    pub fn insert(&mut self, name: String, value: V)
        ensures
            final(self).deep_view() == old(self).deep_view().insert(name@, value.deep_view()),
    {
        let ghost start = self.deep_view();
        let _ = self.remove(name.as_str());
        proof {
            use_type_invariant(&*self);
            lemma_distinct(self.entries);
            map_holds_entries(self.entries.deep_view());
        }
        let ghost before = self.entries.deep_view();
        let ghost entry = (name@, value.deep_view());
        let mut entries: Vec<(String, V)> = Vec::new();
        core::mem::swap(&mut entries, &mut self.entries);
        entries.push((name, value));
        proof {
            let after = entries.deep_view();
            assert(after =~= before.push(entry));
            assert(after.drop_last() =~= before);
            assert forall|i: int, j: int| 0 <= i < j < after.len() implies #[trigger] after[i].0
                != #[trigger] after[j].0 by {
                if j == before.len() {
                    assert(after[i] == before[i]);
                    assert(map_of(before).contains_key(before[i].0));
                } else {
                    assert(after[i] == before[i] && after[j] == before[j]);
                }
            }
            assert(map_of(after) =~= start.insert(entry.0, entry.1));
            lemma_distinct(entries);
        }
        self.entries = entries;
    }
}

/// Of entries with one name the last counts, and an entry changes no other name.
pub proof fn last_entry_counts<W>(entries: Seq<(Seq<char>, W)>, name: Seq<char>, value: W)
    ensures
        map_of(entries.push((name, value))) == map_of(entries).insert(name, value),
        map_of(Seq::<(Seq<char>, W)>::empty()) == Map::<Seq<char>, W>::empty(),
{
    assert(entries.push((name, value)).drop_last() =~= entries);
}

}
