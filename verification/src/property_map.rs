//! A small string-to-string map for the custom properties of graph elements.

use vstd::prelude::*;

verus! {

/// The map that a list of key-value pairs writes: a later pair overrides an
/// earlier one with the same key.
pub open spec fn map_of(entries: Seq<(Seq<char>, Seq<char>)>) -> Map<Seq<char>, Seq<char>>
    decreases entries.len(),
{
    if entries.len() == 0 {
        Map::empty()
    } else {
        map_of(entries.drop_last()).insert(entries.last().0, entries.last().1)
    }
}

/// Whether no key occurs twice in `entries`.
pub open spec fn distinct_keys(entries: Seq<(Seq<char>, Seq<char>)>) -> bool {
    forall|i: int, j: int|
        0 <= i < j < entries.len() ==> (#[trigger] entries[i]).0 != (#[trigger] entries[j]).0
}

/// The keys of `map_of(entries)` are the keys of the entries.
pub proof fn lemma_map_of_dom(entries: Seq<(Seq<char>, Seq<char>)>, key: Seq<char>)
    ensures
        map_of(entries).dom().contains(key) <==> exists|i: int|
            0 <= i < entries.len() && (#[trigger] entries[i]).0 == key,
    decreases entries.len(),
{
    if entries.len() > 0 {
        let head = entries.drop_last();
        lemma_map_of_dom(head, key);
        if map_of(entries).dom().contains(key) {
            if entries.last().0 == key {
                assert(entries[entries.len() - 1].0 == key);
            } else {
                let i = choose|i: int| 0 <= i < head.len() && (#[trigger] head[i]).0 == key;
                assert(entries[i].0 == key);
            }
        }
        if exists|i: int| 0 <= i < entries.len() && (#[trigger] entries[i]).0 == key {
            let i = choose|i: int| 0 <= i < entries.len() && (#[trigger] entries[i]).0 == key;
            if i < head.len() {
                assert(head[i].0 == key);
            }
        }
    }
}

/// With distinct keys, each entry's value is what the map holds under its key.
pub proof fn lemma_map_of_value(entries: Seq<(Seq<char>, Seq<char>)>, i: int)
    requires
        distinct_keys(entries),
        0 <= i < entries.len(),
    ensures
        map_of(entries).dom().contains(entries[i].0),
        map_of(entries)[entries[i].0] == entries[i].1,
    decreases entries.len(),
{
    let head = entries.drop_last();
    if i < entries.len() - 1 {
        assert(distinct_keys(head)) by {
            assert forall|a: int, b: int| 0 <= a < b < head.len() implies (#[trigger] head[a]).0 != (
            #[trigger] head[b]).0 by {
                assert(head[a] == entries[a]);
                assert(head[b] == entries[b]);
            }
        }
        lemma_map_of_value(head, i);
        assert(head[i] == entries[i]);
        assert(entries[i].0 != entries[entries.len() - 1].0);
    }
}

/// Writing a new value over the entry that holds `key` inserts into the map.
pub proof fn lemma_map_of_update(
    entries: Seq<(Seq<char>, Seq<char>)>,
    i: int,
    key: Seq<char>,
    value: Seq<char>,
)
    requires
        distinct_keys(entries),
        0 <= i < entries.len(),
        entries[i].0 == key,
    ensures
        map_of(entries.update(i, (key, value))) == map_of(entries).insert(key, value),
        distinct_keys(entries.update(i, (key, value))),
    decreases entries.len(),
{
    let after = entries.update(i, (key, value));
    let head = entries.drop_last();
    assert(distinct_keys(after)) by {
        assert forall|a: int, b: int| 0 <= a < b < after.len() implies (#[trigger] after[a]).0 != (
        #[trigger] after[b]).0 by {
            assert(after[a].0 == entries[a].0);
            assert(after[b].0 == entries[b].0);
        }
    }
    if i == entries.len() - 1 {
        assert(after.drop_last() =~= head);
        assert(map_of(after) =~= map_of(entries).insert(key, value));
    } else {
        assert(distinct_keys(head)) by {
            assert forall|a: int, b: int| 0 <= a < b < head.len() implies (#[trigger] head[a]).0 != (
            #[trigger] head[b]).0 by {
                assert(head[a] == entries[a]);
                assert(head[b] == entries[b]);
            }
        }
        assert(head[i] == entries[i]);
        lemma_map_of_update(head, i, key, value);
        assert(after.drop_last() =~= head.update(i, (key, value)));
        assert(entries[i].0 != entries[entries.len() - 1].0);
        assert(map_of(after) =~= map_of(entries).insert(key, value));
    }
}

/// With distinct keys, the map has as many keys as there are entries.
pub proof fn lemma_map_of_len(entries: Seq<(Seq<char>, Seq<char>)>)
    requires
        distinct_keys(entries),
    ensures
        map_of(entries).dom().finite(),
        map_of(entries).dom().len() == entries.len(),
    decreases entries.len(),
{
    if entries.len() > 0 {
        let head = entries.drop_last();
        assert(distinct_keys(head)) by {
            assert forall|a: int, b: int| 0 <= a < b < head.len() implies (#[trigger] head[a]).0 != (
            #[trigger] head[b]).0 by {
                assert(head[a] == entries[a]);
                assert(head[b] == entries[b]);
            }
        }
        lemma_map_of_len(head);
        lemma_map_of_dom(head, entries.last().0);
        assert(!map_of(head).dom().contains(entries.last().0)) by {
            if exists|i: int| 0 <= i < head.len() && (#[trigger] head[i]).0 == entries.last().0 {
                let i = choose|i: int| 0 <= i < head.len() && (#[trigger] head[i]).0
                    == entries.last().0;
                assert(head[i] == entries[i]);
                assert(entries[i].0 != entries[entries.len() - 1].0);
            }
        }
        assert(map_of(entries).dom() =~= map_of(head).dom().insert(entries.last().0));
    }
}

/// Custom properties: a finite map from string keys to string values.
///
/// The pairs are kept in a list, in the order in which their keys first came,
/// each key once, so that every operation has a contract that is checked
/// against the map the list stands for. Lookups are linear, which suits the
/// handful of pairs that an element carries. Two maps are equal when they hold
/// the same pairs, in whatever order.
#[derive(Debug)]
pub struct PropertyMap {
    entries: Vec<(String, String)>,
}

impl DeepView for PropertyMap {
    type V = Map<Seq<char>, Seq<char>>;

    closed spec fn deep_view(&self) -> Map<Seq<char>, Seq<char>> {
        map_of(self.entries.deep_view())
    }
}

impl Clone for PropertyMap {
    fn clone(&self) -> (copy: Self)
        ensures
            copy.deep_view() == self.deep_view(),
            copy.pairs() == self.pairs(),
    {
        proof {
            use_type_invariant(self);
        }
        let mut entries: Vec<(String, String)> = Vec::new();
        let mut i: usize = 0;
        while i < self.entries.len()
            invariant
                i <= self.entries.len(),
                entries.deep_view() == self.entries.deep_view().subrange(0, i as int),
            decreases self.entries.len() - i,
        {
            let key = self.entries[i].0.clone();
            let value = self.entries[i].1.clone();
            let ghost before = entries.deep_view();
            entries.push((key, value));
            proof {
                let all = self.entries.deep_view();
                assert(all[i as int] == (key@, value@));
                assert(entries.deep_view() =~= before.push((key@, value@)));
                assert(all.subrange(0, i + 1) =~= all.subrange(0, i as int).push(all[i as int]));
            }
            i += 1;
        }
        proof {
            assert(entries.deep_view() =~= self.entries.deep_view());
        }
        PropertyMap { entries }
    }
}

impl PartialEq for PropertyMap {
    /// Two maps are equal when they hold the same values under the same keys,
    /// in whatever order the keys came.
    fn eq(&self, other: &Self) -> (r: bool) {
        self.same_entries(other)
    }
}

impl Eq for PropertyMap {

}

impl vstd::std_specs::cmp::PartialEqSpecImpl for PropertyMap {
    open spec fn obeys_eq_spec() -> bool {
        true
    }

    open spec fn eq_spec(&self, other: &Self) -> bool {
        self.deep_view() == other.deep_view()
    }
}

impl PropertyMap {
    #[verifier::type_invariant]
    spec fn keys_are_distinct(&self) -> bool {
        distinct_keys(self.entries.deep_view())
    }

    /// The pairs of the map, in the order in which their keys first came.
    pub closed spec fn pairs(&self) -> Seq<(Seq<char>, Seq<char>)> {
        self.entries.deep_view()
    }

    /// The map without any entry.
    pub fn new() -> (m: Self)
        ensures
            m.deep_view() == Map::<Seq<char>, Seq<char>>::empty(),
            m.pairs() == Seq::<(Seq<char>, Seq<char>)>::empty(),
    {
        let entries: Vec<(String, String)> = Vec::new();
        assert(entries.deep_view() =~= Seq::empty());
        PropertyMap { entries }
    }

    /// The number of keys.
    pub fn len(&self) -> (n: usize)
        ensures
            n == self.pairs().len(),
            n == self.deep_view().dom().len(),
            self.deep_view().dom().finite(),
    {
        proof {
            use_type_invariant(self);
            lemma_map_of_len(self.entries.deep_view());
        }
        self.entries.len()
    }

    /// Whether the two maps hold the same values under the same keys.
    pub fn same_entries(&self, other: &Self) -> (r: bool)
        ensures
            r == (self.deep_view() == other.deep_view()),
    {
        let ghost mine = self.entries.deep_view();
        let ghost theirs = other.entries.deep_view();
        proof {
            use_type_invariant(self);
            use_type_invariant(other);
            lemma_map_of_len(mine);
            lemma_map_of_len(theirs);
        }
        if self.entries.len() != other.entries.len() {
            return false;
        }
        let mut i: usize = 0;
        while i < self.entries.len()
            invariant
                i <= self.entries.len(),
                mine == self.entries.deep_view(),
                theirs == other.entries.deep_view(),
                distinct_keys(mine),
                distinct_keys(theirs),
                mine.len() == theirs.len(),
                forall|j: int|
                    0 <= j < i ==> map_of(theirs).dom().contains((#[trigger] mine[j]).0) && map_of(
                        theirs,
                    )[mine[j].0] == mine[j].1,
            decreases self.entries.len() - i,
        {
            proof {
                lemma_map_of_value(mine, i as int);
                assert(mine[i as int] == (self.entries[i as int].0@, self.entries[i as int].1@));
            }
            match other.get(self.entries[i].0.as_str()) {
                Some(value) => {
                    if !(*value == self.entries[i].1) {
                        return false;
                    }
                },
                None => {
                    return false;
                },
            }
            i += 1;
        }
        proof {
            let a = map_of(mine);
            let b = map_of(theirs);
            assert forall|key: Seq<char>| #[trigger]
                a.dom().contains(key) implies b.dom().contains(key) && a[key] == b[key] by {
                lemma_map_of_dom(mine, key);
                let j = choose|j: int| 0 <= j < mine.len() && (#[trigger] mine[j]).0 == key;
                lemma_map_of_value(mine, j);
            }
            assert(a.dom().subset_of(b.dom()));
            lemma_map_of_len(mine);
            lemma_map_of_len(theirs);
            vstd::set_lib::lemma_subset_equality(a.dom(), b.dom());
            assert(a =~= b);
        }
        true
    }

    /// Whether the map has no entry.
    pub fn is_empty(&self) -> (r: bool)
        ensures
            r == (self.deep_view() == Map::<Seq<char>, Seq<char>>::empty()),
    {
        proof {
            let pairs = self.entries.deep_view();
            if pairs.len() > 0 {
                assert(map_of(pairs).dom().contains(pairs.last().0));
            }
        }
        self.entries.len() == 0
    }

    /// The index of the entry under `key`, if there is one.
    fn index_of(&self, key: &str) -> (r: Option<usize>)
        ensures
            match r {
                Some(i) => i < self.pairs().len() && self.pairs()[i as int].0 == key@,
                None => forall|j: int| 0 <= j < self.pairs().len() ==> (#[trigger] self.pairs()[j]).0
                    != key@,
            },
    {
        let wanted = key.to_owned();
        let mut i: usize = 0;
        while i < self.entries.len()
            invariant
                i <= self.entries.len(),
                wanted@ == key@,
                forall|j: int| 0 <= j < i ==> (#[trigger] self.entries.deep_view()[j]).0 != key@,
            decreases self.entries.len() - i,
        {
            if self.entries[i].0 == wanted {
                return Some(i);
            }
            i += 1;
        }
        None
    }

    /// Whether `key` has a value.
    pub fn contains_key(&self, key: &str) -> (r: bool)
        ensures
            r == self.deep_view().dom().contains(key@),
    {
        let found = self.index_of(key);
        proof {
            let pairs = self.entries.deep_view();
            lemma_map_of_dom(pairs, key@);
            assert(self.deep_view() == map_of(pairs));
            assert(self.pairs() == pairs);
            if let Some(i) = found {
                assert(pairs[i as int].0 == key@);
            } else {
                assert(forall|j: int| 0 <= j < pairs.len() ==> (#[trigger] pairs[j]).0 != key@);
            }
        }
        found.is_some()
    }

    /// The value under `key`.
    pub fn get(&self, key: &str) -> (r: Option<&String>)
        ensures
            match r {
                Some(value) => self.deep_view().dom().contains(key@) && self.deep_view()[key@]
                    == value@,
                None => !self.deep_view().dom().contains(key@),
            },
    {
        let found = self.index_of(key);
        proof {
            use_type_invariant(self);
            let pairs = self.entries.deep_view();
            lemma_map_of_dom(pairs, key@);
            assert(self.deep_view() == map_of(pairs));
            assert(self.pairs() == pairs);
            if let Some(i) = found {
                assert(pairs[i as int].0 == key@);
                lemma_map_of_value(pairs, i as int);
                assert(pairs[i as int].1 == self.entries[i as int].1@);
            } else {
                assert(forall|j: int| 0 <= j < pairs.len() ==> (#[trigger] pairs[j]).0 != key@);
            }
        }
        match found {
            Some(i) => Some(&self.entries[i].1),
            None => None,
        }
    }

    /// Sets the value under `key`, replacing an earlier one.
    pub fn insert(&mut self, key: String, value: String)
        ensures
            final(self).deep_view() == old(self).deep_view().insert(key@, value@),
    {
        proof {
            use_type_invariant(&*self);
        }
        let ghost before = self.entries.deep_view();
        let found = self.index_of(key.as_str());
        assert(self.pairs() == before);
        let mut entries: Vec<(String, String)> = Vec::new();
        proof {
            assert(entries.deep_view() =~= Seq::empty());
        }
        core::mem::swap(&mut self.entries, &mut entries);
        match found {
            Some(i) => {
                proof {
                    lemma_map_of_update(before, i as int, key@, value@);
                }
                entries.set(i, (key, value));
                assert(entries.deep_view() =~= before.update(i as int, (key@, value@)));
            },
            None => {
                let ghost k = key@;
                entries.push((key, value));
                proof {
                    let after = entries.deep_view();
                    assert(after =~= before.push((k, value@)));
                    assert(after.drop_last() =~= before);
                    assert forall|a: int, b: int| 0 <= a < b < after.len() implies (
                    #[trigger] after[a]).0 != (#[trigger] after[b]).0 by {
                        assert(after[a] == before[a]);
                        if b < before.len() {
                            assert(after[b] == before[b]);
                        }
                    }
                }
            },
        }
        self.entries = entries;
    }
}

} // verus!
