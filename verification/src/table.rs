//! A finite map from names to values, kept in the order of first insertion.

use vstd::prelude::*;

use crate::text::same_text;

verus! {

/// Values that can be copied without changing what they stand for.
pub trait Duplicate: View + Sized {
    fn duplicate(&self) -> (r: Self)
        ensures
            r@ == self@,
    ;
}

impl Duplicate for String {
    fn duplicate(&self) -> (r: Self) {
        self.clone()
    }
}

/// A map from names to values in which no name occurs twice.
pub struct Table<V> {
    entries: Vec<(String, V)>,
}

/// No two entries have the same name.
pub open spec fn names_distinct<V>(entries: Seq<(String, V)>) -> bool {
    forall|i: int, j: int|
        0 <= i < j < entries.len() ==> (#[trigger] entries[i]).0@ != (#[trigger] entries[j]).0@
}

/// One of the entries has this name.
pub open spec fn names_contain<V>(entries: Seq<(String, V)>, name: Seq<char>) -> bool {
    exists|i: int| 0 <= i < entries.len() && (#[trigger] entries[i]).0@ == name
}

/// The map that a list of entries stands for.
pub open spec fn entries_map<V: View>(entries: Seq<(String, V)>) -> Map<Seq<char>, V::V> {
    Map::new(
        |name: Seq<char>| names_contain(entries, name),
        |name: Seq<char>|
            {
                let i = choose|i: int|
                    0 <= i < entries.len() && (#[trigger] entries[i]).0@ == name;
                entries[i].1@
            },
    )
}

impl<V> Table<V> {
    #[verifier::type_invariant]
    spec fn distinct(self) -> bool {
        names_distinct(self.entries@)
    }
}

impl<V: View> View for Table<V> {
    type V = Map<Seq<char>, V::V>;

    closed spec fn view(&self) -> Map<Seq<char>, V::V> {
        entries_map(self.entries@)
    }
}

/// An entry gives its name its value.
proof fn lemma_entry<V: View>(entries: Seq<(String, V)>, i: int)
    requires
        names_distinct(entries),
        0 <= i < entries.len(),
    ensures
        entries_map(entries).contains_pair(entries[i].0@, entries[i].1@),
{
    assert(names_contain(entries, entries[i].0@));
    let k = choose|k: int| 0 <= k < entries.len() && (#[trigger] entries[k]).0@ == entries[i].0@;
    assert(k == i);
}

impl<V: View> Table<V> {
    /// The table without entries.
    pub fn new() -> (r: Self)
        ensures
            r@ == Map::<Seq<char>, V::V>::empty(),
    {
        let r = Table { entries: Vec::new() };
        assert(r@ =~= Map::<Seq<char>, V::V>::empty());
        r
    }

    /// The index of the entry with this name.
    fn position(&self, name: &str) -> (r: Option<usize>)
        ensures
            match r {
                Some(i) => i < self.entries@.len() && self.entries@[i as int].0@ == name@
                    && self@.contains_pair(name@, self.entries@[i as int].1@),
                None => !names_contain(self.entries@, name@) && !self@.contains_key(name@),
            },
    {
        let mut i: usize = 0;
        while i < self.entries.len()
            invariant
                i <= self.entries@.len(),
                forall|j: int| 0 <= j < i ==> (#[trigger] self.entries@[j]).0@ != name@,
            decreases self.entries@.len() - i,
        {
            if same_text(self.entries[i].0.as_str(), name) {
                proof {
                    use_type_invariant(self);
                    lemma_entry(self.entries@, i as int);
                }
                return Some(i);
            }
            i += 1;
        }
        None
    }

    /// The value of a name.
    pub fn get(&self, name: &str) -> (r: Option<&V>)
        ensures
            match r {
                Some(value) => self@.contains_pair(name@, value@),
                None => !self@.contains_key(name@),
            },
    {
        match self.position(name) {
            Some(i) => Some(&self.entries[i].1),
            None => None,
        }
    }

    /// Whether the table has a value for this name.
    pub fn contains_key(&self, name: &str) -> (r: bool)
        ensures
            r == self@.contains_key(name@),
    {
        self.position(name).is_some()
    }

    /// Gives `name` the value `value`, in place of an earlier one.
    pub fn insert(&mut self, name: String, value: V)
        ensures
            final(self)@ == old(self)@.insert(name@, value@),
    {
        let at = self.position(name.as_str());
        proof {
            use_type_invariant(&*self);
        }
        let mut entries: Vec<(String, V)> = Vec::new();
        std::mem::swap(&mut entries, &mut self.entries);
        let ghost before = entries@;
        let ghost key = name@;
        match at {
            Some(i) => {
                entries.set(i, (name, value));
                proof {
                    assert forall|k: Seq<char>| names_contain(before, k) == names_contain(
                        entries@,
                        k,
                    ) by {
                        if names_contain(before, k) {
                            let j = choose|j: int|
                                0 <= j < before.len() && (#[trigger] before[j]).0@ == k;
                            assert(entries@[j].0@ == k);
                        }
                        if names_contain(entries@, k) {
                            let j = choose|j: int|
                                0 <= j < entries@.len() && (#[trigger] entries@[j]).0@ == k;
                            assert(before[j].0@ == k);
                        }
                    }
                    lemma_entry(entries@, i as int);
                    assert forall|k: Seq<char>| k != key && names_contain(before, k) implies
                        entries_map(before)[k] == entries_map(entries@)[k] by {
                        let j = choose|j: int|
                            0 <= j < before.len() && (#[trigger] before[j]).0@ == k;
                        lemma_entry(before, j);
                        assert(entries@[j] == before[j]);
                        lemma_entry(entries@, j);
                    }
                    assert(entries_map(entries@) =~= entries_map(before).insert(key, value@));
                }
            },
            None => {
                entries.push((name, value));
                proof {
                    let last = before.len() as int;
                    assert(entries@[last].0@ == key);
                    assert forall|k: Seq<char>| names_contain(entries@, k) == (k == key
                        || names_contain(before, k)) by {
                        if names_contain(before, k) {
                            let j = choose|j: int|
                                0 <= j < before.len() && (#[trigger] before[j]).0@ == k;
                            assert(entries@[j].0@ == k);
                        }
                        if names_contain(entries@, k) && k != key {
                            let j = choose|j: int|
                                0 <= j < entries@.len() && (#[trigger] entries@[j]).0@ == k;
                            assert(before[j].0@ == k);
                        }
                    }
                    lemma_entry(entries@, last);
                    assert forall|k: Seq<char>| names_contain(before, k) implies entries_map(
                        before,
                    )[k] == entries_map(entries@)[k] by {
                        let j = choose|j: int|
                            0 <= j < before.len() && (#[trigger] before[j]).0@ == k;
                        lemma_entry(before, j);
                        assert(entries@[j] == before[j]);
                        lemma_entry(entries@, j);
                    }
                    assert(entries_map(entries@) =~= entries_map(before).insert(key, value@));
                }
            },
        }
        self.entries = entries;
    }

    /// Takes the entry of this name out of the table, where there is one.
    pub fn remove(&mut self, name: &str)
        ensures
            final(self)@ == old(self)@.remove(name@),
    {
        let at = self.position(name);
        proof {
            use_type_invariant(&*self);
        }
        match at {
            Some(i) => {
                let mut entries: Vec<(String, V)> = Vec::new();
                std::mem::swap(&mut entries, &mut self.entries);
                let ghost before = entries@;
                let _removed = entries.remove(i);
                proof {
                    assert(entries@ == before.remove(i as int));
                    assert forall|k: Seq<char>| names_contain(entries@, k) == (k != name@
                        && names_contain(before, k)) by {
                        if names_contain(before, k) && k != name@ {
                            let j = choose|j: int|
                                0 <= j < before.len() && (#[trigger] before[j]).0@ == k;
                            let m = if j < i { j } else { j - 1 };
                            assert(entries@[m].0@ == k);
                        }
                        if names_contain(entries@, k) {
                            let m = choose|m: int|
                                0 <= m < entries@.len() && (#[trigger] entries@[m]).0@ == k;
                            let j = if m < i { m } else { m + 1 };
                            assert(before[j].0@ == k);
                        }
                    }
                    assert forall|k: Seq<char>| names_contain(entries@, k) implies entries_map(
                        before,
                    )[k] == entries_map(entries@)[k] by {
                        let m = choose|m: int|
                            0 <= m < entries@.len() && (#[trigger] entries@[m]).0@ == k;
                        let j = if m < i { m } else { m + 1 };
                        assert(before[j] == entries@[m]);
                        lemma_entry(before, j);
                        lemma_entry(entries@, m);
                    }
                    assert(entries_map(entries@) =~= entries_map(before).remove(name@));
                }
                self.entries = entries;
            },
            None => {
                assert(self@.remove(name@) =~= self@);
            },
        }
    }

    /// The entries, each name once.
    pub fn entries(&self) -> (r: &Vec<(String, V)>)
        ensures
            names_distinct(r@),
            entries_map(r@) == self@,
    {
        proof {
            use_type_invariant(self);
        }
        &self.entries
    }
}

impl<V: Duplicate> Table<V> {
    /// Adds a copy of each entry of `other`, in place of earlier ones of the same name.
    pub fn extend(&mut self, other: &Table<V>)
        ensures
            final(self)@ == old(self)@.union_prefer_right(other@),
    {
        let ghost start = self@;
        let entries = other.entries();
        let mut i: usize = 0;
        assert(start.union_prefer_right(entries_map(entries@.take(0))) =~= start);
        while i < entries.len()
            invariant
                i <= entries@.len(),
                names_distinct(entries@),
                self@ == start.union_prefer_right(entries_map(entries@.take(i as int))),
            decreases entries@.len() - i,
        {
            let name = entries[i].0.clone();
            let value = entries[i].1.duplicate();
            self.insert(name, value);
            proof {
                lemma_take_step(entries@, i as int);
                assert(self@ =~= start.union_prefer_right(entries_map(entries@.take(i + 1))));
            }
            i += 1;
        }
        assert(entries@.take(entries@.len() as int) =~= entries@);
    }
}

/// One entry more is one insertion more.
pub proof fn lemma_take_step<V: View>(entries: Seq<(String, V)>, i: int)
    requires
        names_distinct(entries),
        0 <= i < entries.len(),
    ensures
        entries_map(entries.take(i + 1)) == entries_map(entries.take(i)).insert(
            entries[i].0@,
            entries[i].1@,
        ),
{
    let shorter = entries.take(i);
    let longer = entries.take(i + 1);
    assert forall|k: Seq<char>| names_contain(longer, k) == (k == entries[i].0@ || names_contain(
        shorter,
        k,
    )) by {
        if names_contain(shorter, k) {
            let j = choose|j: int| 0 <= j < shorter.len() && (#[trigger] shorter[j]).0@ == k;
            assert(longer[j].0@ == k);
        }
        assert(longer[i].0@ == entries[i].0@);
        if names_contain(longer, k) && k != entries[i].0@ {
            let j = choose|j: int| 0 <= j < longer.len() && (#[trigger] longer[j]).0@ == k;
            assert(shorter[j].0@ == k);
        }
    }
    lemma_entry(longer, i);
    assert forall|k: Seq<char>| names_contain(shorter, k) implies entries_map(shorter)[k]
        == entries_map(longer)[k] by {
        let j = choose|j: int| 0 <= j < shorter.len() && (#[trigger] shorter[j]).0@ == k;
        lemma_entry(shorter, j);
        assert(longer[j] == shorter[j]);
        lemma_entry(longer, j);
    }
    assert(entries_map(longer) =~= entries_map(shorter).insert(entries[i].0@, entries[i].1@));
}

impl<V: Duplicate> Duplicate for Table<V> {
    fn duplicate(&self) -> (r: Self) {
        let mut out: Table<V> = Table::new();
        out.extend(self);
        assert(Map::<Seq<char>, V::V>::empty().union_prefer_right(self@) =~= self@);
        out
    }
}

} // verus!
