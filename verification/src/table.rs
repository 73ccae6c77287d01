//! A table from names to values, kept as a list of entries.

use vstd::prelude::*;

verus! {

/// A table from names to values. A name occurs at most once among the
/// entries that count: when a name is written again, its entry is replaced.
pub struct Table<V> {
    entries: Vec<(String, V)>,
}

/// The mapping that a list of entries stands for: a later entry for a name
/// hides an earlier one.
pub open spec fn entries_map<V>(entries: Seq<(String, V)>) -> Map<Seq<char>, V>
    decreases entries.len(),
{
    if entries.len() == 0 {
        Map::empty()
    } else {
        entries_map(entries.drop_last()).insert(entries.last().0@, entries.last().1)
    }
}

/// Whether position `i` holds the last entry for `name`.
pub open spec fn is_last_entry<V>(entries: Seq<(String, V)>, name: Seq<char>, i: int) -> bool {
    &&& 0 <= i < entries.len()
    &&& entries[i].0@ == name
    &&& forall|j: int| i < j < entries.len() ==> (#[trigger] entries[j]).0@ != name
}

proof fn lemma_absent<V>(entries: Seq<(String, V)>, name: Seq<char>)
    requires
        forall|j: int| 0 <= j < entries.len() ==> (#[trigger] entries[j]).0@ != name,
    ensures
        !entries_map(entries).dom().contains(name),
    decreases entries.len(),
{
    if entries.len() > 0 {
        let front = entries.drop_last();
        assert forall|j: int| 0 <= j < front.len() implies (#[trigger] front[j]).0@ != name by {
            assert(front[j] == entries[j]);
        }
        lemma_absent(front, name);
        assert(entries.last() == entries[entries.len() - 1]);
    }
}

proof fn lemma_present<V>(entries: Seq<(String, V)>, name: Seq<char>, i: int)
    requires
        is_last_entry(entries, name, i),
    ensures
        entries_map(entries).dom().contains(name),
        entries_map(entries)[name] == entries[i].1,
    decreases entries.len(),
{
    if i < entries.len() - 1 {
        let front = entries.drop_last();
        assert(front[i] == entries[i]);
        assert forall|j: int| i < j < front.len() implies (#[trigger] front[j]).0@ != name by {
            assert(front[j] == entries[j]);
        }
        lemma_present(front, name, i);
        assert(entries.last() == entries[entries.len() - 1]);
    }
}

proof fn lemma_replace<V>(entries: Seq<(String, V)>, name: Seq<char>, i: int, entry: (String, V))
    requires
        is_last_entry(entries, name, i),
        entry.0@ == name,
    ensures
        entries_map(entries.update(i, entry)) == entries_map(entries).insert(name, entry.1),
    decreases entries.len(),
{
    let changed = entries.update(i, entry);
    if i == entries.len() - 1 {
        assert(changed.drop_last() =~= entries.drop_last());
        assert(entries_map(changed) =~= entries_map(entries).insert(name, entry.1));
    } else {
        let front = entries.drop_last();
        assert(front[i] == entries[i]);
        assert forall|j: int| i < j < front.len() implies (#[trigger] front[j]).0@ != name by {
            assert(front[j] == entries[j]);
        }
        lemma_replace(front, name, i, entry);
        assert(changed.drop_last() =~= front.update(i, entry));
        assert(changed.last() == entries.last());
        assert(entries.last() == entries[entries.len() - 1]);
        assert(entries_map(changed) =~= entries_map(entries).insert(name, entry.1));
    }
}

impl<V> Table<V> {
    /// The mapping that the table stands for.
    pub closed spec fn map(&self) -> Map<Seq<char>, V> {
        entries_map(self.entries@)
    }

    /// An empty table.
    pub fn new() -> (table: Table<V>)
        ensures
            table.map() == Map::<Seq<char>, V>::empty(),
    {
        Table { entries: Vec::new() }
    }

    fn find(&self, name: &String) -> (found: Option<usize>)
        ensures
            match found {
                Some(i) => is_last_entry(self.entries@, name@, i as int),
                None => forall|j: int|
                    0 <= j < self.entries@.len() ==> (#[trigger] self.entries@[j]).0@ != name@,
            },
    {
        let mut found: Option<usize> = None;
        let mut i: usize = 0;
        while i < self.entries.len()
            invariant
                i <= self.entries@.len(),
                match found {
                    Some(k) => {
                        &&& k < i
                        &&& self.entries@[k as int].0@ == name@
                        &&& forall|j: int| k < j < i ==> (#[trigger] self.entries@[j]).0@ != name@
                    },
                    None => forall|j: int|
                        0 <= j < i ==> (#[trigger] self.entries@[j]).0@ != name@,
                },
            decreases self.entries@.len() - i,
        {
            if self.entries[i].0 == *name {
                found = Some(i);
            }
            i += 1;
        }
        found
    }

    /// Whether the table has an entry for a name.
    pub fn contains_key(&self, name: &String) -> (present: bool)
        ensures
            present == self.map().dom().contains(name@),
    {
        match self.find(name) {
            Some(i) => {
                proof {
                    lemma_present(self.entries@, name@, i as int);
                }
                true
            },
            None => {
                proof {
                    lemma_absent(self.entries@, name@);
                }
                false
            },
        }
    }

    /// The value for a name, if the table has one.
    pub fn get(&self, name: &String) -> (value: Option<&V>)
        ensures
            match value {
                Some(v) => self.map().dom().contains(name@) && *v == self.map()[name@],
                None => !self.map().dom().contains(name@),
            },
    {
        match self.find(name) {
            Some(i) => {
                proof {
                    lemma_present(self.entries@, name@, i as int);
                }
                Some(&self.entries[i].1)
            },
            None => {
                proof {
                    lemma_absent(self.entries@, name@);
                }
                None
            },
        }
    }

    /// Writes the value for a name, replacing the one it had.
    pub fn insert(&mut self, name: String, value: V)
        ensures
            final(self).map() == old(self).map().insert(name@, value),
    {
        match self.find(&name) {
            Some(i) => {
                proof {
                    lemma_replace(self.entries@, name@, i as int, (name, value));
                }
                self.entries[i] = (name, value);
            },
            None => {
                self.entries.push((name, value));
                proof {
                    assert(self.entries@.drop_last() =~= old(self).entries@);
                }
            },
        }
    }
}

} // verus!
