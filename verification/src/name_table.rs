//! A table from names to values, in which no name occurs twice.

use vstd::prelude::*;

verus! {

/// The characters of each of a list of strings.
pub open spec fn texts(strings: Seq<String>) -> Seq<Seq<char>> {
    strings.map_values(|s: String| s@)
}

/// The map that a list of entries stands for: a later entry replaces an
/// earlier one of the same name.
pub open spec fn entries_map<V>(entries: Seq<(Seq<char>, V)>) -> Map<Seq<char>, V>
    decreases entries.len(),
{
    if entries.len() == 0 {
        Map::empty()
    } else {
        entries_map(entries.drop_last()).insert(entries.last().0, entries.last().1)
    }
}

/// Whether no two entries have the same name.
pub open spec fn names_differ<V>(entries: Seq<(Seq<char>, V)>) -> bool {
    forall|i: int, j: int|
        0 <= i < j < entries.len() ==> (#[trigger] entries[i]).0 != (#[trigger] entries[j]).0
}

/// The names that a list of entries maps are those of the entries.
pub proof fn lemma_entries_map_dom<V>(entries: Seq<(Seq<char>, V)>, name: Seq<char>)
    ensures
        entries_map(entries).dom().contains(name) <==> exists|i: int|
            0 <= i < entries.len() && (#[trigger] entries[i]).0 == name,
    decreases entries.len(),
{
    if entries.len() > 0 {
        let front = entries.drop_last();
        lemma_entries_map_dom(front, name);
        if entries_map(front).dom().contains(name) {
            let i = choose|i: int| 0 <= i < front.len() && (#[trigger] front[i]).0 == name;
            assert(entries[i] == front[i]);
        }
        if entries.last().0 == name {
            assert(entries[entries.len() - 1].0 == name);
        }
        if exists|i: int| 0 <= i < entries.len() && (#[trigger] entries[i]).0 == name {
            let i = choose|i: int| 0 <= i < entries.len() && (#[trigger] entries[i]).0 == name;
            if i < front.len() {
                assert(front[i].0 == name);
            }
        }
    }
}

/// Where names differ, the map gives each name the value of its entry.
pub proof fn lemma_entries_map_value<V>(entries: Seq<(Seq<char>, V)>, i: int)
    requires
        names_differ(entries),
        0 <= i < entries.len(),
    ensures
        entries_map(entries).dom().contains(entries[i].0),
        entries_map(entries)[entries[i].0] == entries[i].1,
    decreases entries.len(),
{
    let front = entries.drop_last();
    if i < front.len() {
        assert forall|a: int, b: int| 0 <= a < b < front.len() implies (#[trigger] front[a]).0 != (
        #[trigger] front[b]).0 by {
            assert(entries[a].0 != entries[b].0);
        }
        lemma_entries_map_value(front, i);
        assert(front[i] == entries[i]);
        assert(entries[i].0 != entries[entries.len() - 1].0);
    }
}

/// A lookup in the map of a list whose names differ: the value of the entry
/// of that name, wherever it stands, and nothing else.
pub proof fn lemma_entries_map_is<V>(entries: Seq<(Seq<char>, V)>, m: Map<Seq<char>, V>)
    requires
        names_differ(entries),
        forall|i: int|
            0 <= i < entries.len() ==> m.dom().contains((#[trigger] entries[i]).0)
                && m[entries[i].0] == entries[i].1,
        forall|name: Seq<char>| #[trigger]
            m.dom().contains(name) ==> exists|i: int|
                0 <= i < entries.len() && (#[trigger] entries[i]).0 == name,
    ensures
        entries_map(entries) == m,
{
    let made = entries_map(entries);
    assert forall|name: Seq<char>| made.dom().contains(name) == m.dom().contains(name) by {
        lemma_entries_map_dom(entries, name);
        if made.dom().contains(name) {
            let i = choose|i: int| 0 <= i < entries.len() && (#[trigger] entries[i]).0 == name;
            assert(m.dom().contains(entries[i].0));
        }
    }
    assert forall|name: Seq<char>| made.dom().contains(name) implies made[name] == m[name] by {
        lemma_entries_map_dom(entries, name);
        let i = choose|i: int| 0 <= i < entries.len() && (#[trigger] entries[i]).0 == name;
        lemma_entries_map_value(entries, i);
        assert(m[entries[i].0] == entries[i].1);
    }
    assert(made =~= m);
}

/// Where names differ, there are as many names as entries.
pub proof fn lemma_entries_map_len<V>(entries: Seq<(Seq<char>, V)>)
    requires
        names_differ(entries),
    ensures
        entries_map(entries).dom().finite(),
        entries_map(entries).dom().len() == entries.len(),
    decreases entries.len(),
{
    if entries.len() > 0 {
        let front = entries.drop_last();
        let last = entries.last().0;
        assert forall|i: int, j: int| 0 <= i < j < front.len() implies (#[trigger] front[i]).0 != (
        #[trigger] front[j]).0 by {
            assert(entries[i].0 != entries[j].0);
        }
        lemma_entries_map_len(front);
        lemma_entries_map_dom(front, last);
        if entries_map(front).dom().contains(last) {
            let i = choose|i: int| 0 <= i < front.len() && (#[trigger] front[i]).0 == last;
            assert(entries[i].0 != entries[entries.len() - 1].0);
        }
        assert(entries_map(entries).dom() =~= entries_map(front).dom().insert(last));
    } else {
        assert(entries_map(entries).dom() =~= Set::<Seq<char>>::empty());
    }
}

/// A table from names to values.
#[derive(Debug)]
pub struct NameTable<V> {
    entries: Vec<(String, V)>,
}

impl<V> View for NameTable<V> {
    type V = Map<Seq<char>, V>;

    open spec fn view(&self) -> Map<Seq<char>, V> {
        entries_map(self.entries())
    }
}

impl<V> NameTable<V> {
    /// The entries of the table, in the order in which the table lists them.
    pub closed spec fn entries(self) -> Seq<(Seq<char>, V)> {
        self.entries@.map_values(|e: (String, V)| (e.0@, e.1))
    }

    /// No name occurs twice.
    pub open spec fn wf(self) -> bool {
        names_differ(self.entries())
    }

    /// An empty table.
    pub fn new() -> (table: Self)
        ensures
            table.wf(),
            table.entries() == Seq::<(Seq<char>, V)>::empty(),
            table@ == Map::<Seq<char>, V>::empty(),
    {
        let table = NameTable { entries: Vec::new() };
        assert(table.entries() =~= Seq::<(Seq<char>, V)>::empty());
        table
    }

    /// The number of names in the table.
    pub fn len(&self) -> (n: usize)
        ensures
            n == self.entries().len(),
    {
        self.entries.len()
    }

    /// The entries as a list.
    pub fn as_list(&self) -> (list: &Vec<(String, V)>)
        ensures
            list@.map_values(|e: (String, V)| (e.0@, e.1)) == self.entries(),
    {
        &self.entries
    }

    /// The name of the entry at `i`.
    pub fn name_at(&self, i: usize) -> (name: &String)
        requires
            i < self.entries().len(),
        ensures
            name@ == self.entries()[i as int].0,
    {
        &self.entries[i].0
    }

    /// The value of the entry at `i`.
    pub fn value_at(&self, i: usize) -> (value: &V)
        requires
            i < self.entries().len(),
        ensures
            *value == self.entries()[i as int].1,
    {
        &self.entries[i].1
    }

    /// Where the entry of `name` stands.
    fn position(&self, name: &str) -> (at: Option<usize>)
        requires
            self.wf(),
        ensures
            match at {
                Some(i) => i < self.entries().len() && self.entries()[i as int].0 == name@,
                None => forall|i: int|
                    0 <= i < self.entries().len() ==> (#[trigger] self.entries()[i]).0 != name@,
            },
    {
        let wanted = name.to_owned();
        let mut i: usize = 0;
        while i < self.entries.len()
            invariant
                i <= self.entries.len(),
                wanted@ == name@,
                forall|k: int| 0 <= k < i ==> (#[trigger] self.entries()[k]).0 != name@,
            decreases self.entries.len() - i,
        {
            if self.entries[i].0 == wanted {
                return Some(i);
            }
            i += 1;
        }
        None
    }

    /// Whether the table has an entry of that name.
    pub fn contains_key(&self, name: &str) -> (found: bool)
        requires
            self.wf(),
        ensures
            found == self@.dom().contains(name@),
    {
        let at = self.position(name);
        proof {
            lemma_entries_map_dom(self.entries(), name@);
        }
        at.is_some()
    }

    /// The value of that name.
    pub fn get(&self, name: &str) -> (value: Option<&V>)
        requires
            self.wf(),
        ensures
            match value {
                Some(v) => self@.dom().contains(name@) && *v == self@[name@],
                None => !self@.dom().contains(name@),
            },
    {
        match self.position(name) {
            Some(i) => {
                proof {
                    lemma_entries_map_value(self.entries(), i as int);
                }
                Some(&self.entries[i].1)
            },
            None => {
                proof {
                    lemma_entries_map_dom(self.entries(), name@);
                }
                None
            },
        }
    }

    /// Gives `name` the value `value`, in place of the value that it had.
    pub fn insert(&mut self, name: String, value: V)
        requires
            old(self).wf(),
        ensures
            final(self).wf(),
            final(self)@ == old(self)@.insert(name@, value),
    {
        let ghost before = self.entries();
        match self.position(name.as_str()) {
            Some(i) => {
                self.entries[i] = (name, value);
                proof {
                    let after = self.entries();
                    assert(after =~= before.update(i as int, (name@, value)));
                    assert(names_differ(after)) by {
                        assert forall|a: int, b: int| 0 <= a < b < after.len() implies (
                        #[trigger] after[a]).0 != (#[trigger] after[b]).0 by {
                            assert(before[a].0 != before[b].0);
                        }
                    }
                    lemma_update(before, i as int, value);
                }
            },
            None => {
                self.entries.push((name, value));
                proof {
                    let after = self.entries();
                    assert(after =~= before.push((name@, value)));
                    assert(after.drop_last() =~= before);
                    assert(names_differ(after)) by {
                        assert forall|a: int, b: int| 0 <= a < b < after.len() implies (
                        #[trigger] after[a]).0 != (#[trigger] after[b]).0 by {
                            if b < before.len() {
                                assert(before[a].0 != before[b].0);
                            } else {
                                assert(before[a].0 != name@);
                            }
                        }
                    }
                }
            },
        }
    }

    /// Takes the entry of that name out, and gives its value.
    pub fn remove(&mut self, name: &str) -> (value: Option<V>)
        requires
            old(self).wf(),
        ensures
            final(self).wf(),
            final(self)@ == old(self)@.remove(name@),
            match value {
                Some(v) => old(self)@.dom().contains(name@) && v == old(self)@[name@],
                None => !old(self)@.dom().contains(name@),
            },
    {
        let ghost before = self.entries();
        match self.position(name) {
            Some(i) => {
                let (_, value) = self.entries.remove(i);
                proof {
                    let after = self.entries();
                    assert(after =~= before.remove(i as int));
                    lemma_entries_map_value(before, i as int);
                    lemma_remove(before, i as int);
                }
                Some(value)
            },
            None => {
                proof {
                    lemma_entries_map_dom(before, name@);
                    assert(self@ =~= self@.remove(name@));
                }
                None
            },
        }
    }

    /// The value of that name, to be changed in place.
    pub fn get_mut(&mut self, name: &str) -> (value: Option<&mut V>)
        requires
            old(self).wf(),
        ensures
            final(self).wf(),
            match value {
                Some(v) => {
                    &&& old(self)@.dom().contains(name@)
                    &&& *v == old(self)@[name@]
                    &&& final(self)@ == old(self)@.insert(name@, *final(v))
                },
                None => !old(self)@.dom().contains(name@) && final(self)@ == old(self)@,
            },
    {
        let ghost before = self.entries();
        match self.position(name) {
            Some(i) => {
                proof {
                    lemma_entries_map_value(before, i as int);
                }
                let ghost after = *final(self);
                let value = &mut self.entries[i].1;
                proof {
                    assert(after.entries() =~= before.update(
                        i as int,
                        (before[i as int].0, *final(value)),
                    ));
                    lemma_update(before, i as int, *final(value));
                }
                Some(value)
            },
            None => {
                proof {
                    lemma_entries_map_dom(before, name@);
                }
                None
            },
        }
    }

    /// The table that a list of entries gives, each put in in turn.
    pub fn from_entries(list: Vec<(String, V)>) -> (table: Self)
        ensures
            table.wf(),
            table@ == entries_map(list@.map_values(|e: (String, V)| (e.0@, e.1))),
    {
        let ghost given = list@.map_values(|e: (String, V)| (e.0@, e.1));
        let mut table: NameTable<V> = NameTable::new();
        assert(given.take(0) =~= Seq::<(Seq<char>, V)>::empty());
        for entry in it: list
            invariant
                table.wf(),
                it.seq() == list@,
                given == list@.map_values(|e: (String, V)| (e.0@, e.1)),
                table@ == entries_map(given.take(it.index() as int)),
        {
            proof {
                let n = it.index() as int;
                assert(given.take(n + 1).drop_last() =~= given.take(n));
                assert(given.take(n + 1).last() == (entry.0@, entry.1));
            }
            table.insert(entry.0, entry.1);
        }
        assert(given.take(given.len() as int) =~= given);
        table
    }
}

/// To change the value of one entry is to change what the map gives its name.
proof fn lemma_update<V>(entries: Seq<(Seq<char>, V)>, i: int, value: V)
    requires
        names_differ(entries),
        0 <= i < entries.len(),
    ensures
        names_differ(entries.update(i, (entries[i].0, value))),
        entries_map(entries.update(i, (entries[i].0, value))) == entries_map(entries).insert(
            entries[i].0,
            value,
        ),
{
    let name = entries[i].0;
    let after = entries.update(i, (name, value));
    let m = entries_map(entries).insert(name, value);
    assert forall|a: int, b: int| 0 <= a < b < after.len() implies (#[trigger] after[a]).0 != (
    #[trigger] after[b]).0 by {
        assert(entries[a].0 != entries[b].0);
    }
    assert forall|k: int| 0 <= k < after.len() implies m.dom().contains((#[trigger] after[k]).0)
        && m[after[k].0] == after[k].1 by {
        lemma_entries_map_value(entries, k);
        if k < i {
            assert(entries[k].0 != entries[i].0);
        } else if i < k {
            assert(entries[i].0 != entries[k].0);
        }
    }
    assert forall|n: Seq<char>| #[trigger] m.dom().contains(n) implies exists|k: int|
        0 <= k < after.len() && (#[trigger] after[k]).0 == n by {
        if n == name {
            assert(after[i].0 == n);
        } else {
            lemma_entries_map_dom(entries, n);
            let k = choose|k: int| 0 <= k < entries.len() && (#[trigger] entries[k]).0 == n;
            assert(after[k].0 == n);
        }
    }
    lemma_entries_map_is(after, m);
}

/// To take one entry out is to take its name out of the map.
proof fn lemma_remove<V>(entries: Seq<(Seq<char>, V)>, i: int)
    requires
        names_differ(entries),
        0 <= i < entries.len(),
    ensures
        names_differ(entries.remove(i)),
        entries_map(entries.remove(i)) == entries_map(entries).remove(entries[i].0),
{
    let name = entries[i].0;
    let after = entries.remove(i);
    let m = entries_map(entries).remove(name);
    assert forall|a: int, b: int| 0 <= a < b < after.len() implies (#[trigger] after[a]).0 != (
    #[trigger] after[b]).0 by {
        let a1 = if a < i { a } else { a + 1 };
        let b1 = if b < i { b } else { b + 1 };
        assert(entries[a1].0 != entries[b1].0);
    }
    assert forall|k: int| 0 <= k < after.len() implies m.dom().contains((#[trigger] after[k]).0)
        && m[after[k].0] == after[k].1 by {
        if k < i {
            lemma_entries_map_value(entries, k);
            assert(entries[k].0 != entries[i].0);
        } else {
            lemma_entries_map_value(entries, k + 1);
            assert(entries[i].0 != entries[k + 1].0);
        }
    }
    assert forall|n: Seq<char>| #[trigger] m.dom().contains(n) implies exists|k: int|
        0 <= k < after.len() && (#[trigger] after[k]).0 == n by {
        lemma_entries_map_dom(entries, n);
        let k = choose|k: int| 0 <= k < entries.len() && (#[trigger] entries[k]).0 == n;
        assert(k != i);
        if k < i {
            assert(after[k].0 == n);
        } else {
            assert(after[k - 1].0 == n);
        }
    }
    lemma_entries_map_is(after, m);
}

/// A list of entries stands for what its last entry of each name says: one more
/// entry gives its name its value, whether that name had one or not, and leaves
/// the others as they were.
pub proof fn law_later_entries_replace_earlier<V>(
    entries: Seq<(Seq<char>, V)>,
    name: Seq<char>,
    value: V,
    other: Seq<char>,
)
    requires
        other != name,
    ensures
        entries_map(Seq::<(Seq<char>, V)>::empty()) == Map::<Seq<char>, V>::empty(),
        entries_map(entries.push((name, value))).dom().contains(name),
        entries_map(entries.push((name, value)))[name] == value,
        entries_map(entries.push((name, value))).dom().contains(other) == entries_map(
            entries,
        ).dom().contains(other),
        entries_map(entries.push((name, value)))[other] == entries_map(entries)[other],
{
    assert(entries.push((name, value)).drop_last() =~= entries);
}

/// The characters of a list of strings are those of each, in their order.
pub proof fn law_texts_are_those_of_each(strings: Seq<String>, i: int)
    ensures
        texts(strings).len() == strings.len(),
        0 <= i < strings.len() ==> texts(strings)[i] == strings[i]@,
{
}

} // verus!
