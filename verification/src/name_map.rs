//! An ordered map from names to values.

use vstd::prelude::*;

use crate::text::{
    comes_before, lemma_before_irreflexive, lemma_before_total, lemma_before_transitive, same_text,
    text_before, views,
};

verus! {

/// A map whose names are unique and kept in lexicographic order.
#[derive(Debug, PartialEq, Eq)]
pub struct NameMap<V> {
    entries: Vec<(String, V)>,
}

spec fn ascending<V>(entries: Seq<(String, V)>) -> bool {
    forall|i: int, j: int|
        #![trigger entries[i], entries[j]]
        0 <= i < j < entries.len() ==> text_before(entries[i].0@, entries[j].0@)
}

spec fn has_name<V>(entries: Seq<(String, V)>, name: Seq<char>) -> bool {
    exists|i: int| 0 <= i < entries.len() && (#[trigger] entries[i]).0@ == name
}

spec fn place<V>(entries: Seq<(String, V)>, name: Seq<char>) -> int {
    choose|i: int| 0 <= i < entries.len() && (#[trigger] entries[i]).0@ == name
}

spec fn contents<V>(entries: Seq<(String, V)>) -> Map<Seq<char>, V> {
    Map::new(|name: Seq<char>| has_name(entries, name), |name: Seq<char>| entries[place(entries, name)].1)
}

proof fn lemma_place<V>(entries: Seq<(String, V)>, i: int)
    requires
        ascending(entries),
        0 <= i < entries.len(),
    ensures
        has_name(entries, entries[i].0@),
        place(entries, entries[i].0@) == i,
        contents(entries).contains_key(entries[i].0@),
        contents(entries)[entries[i].0@] == entries[i].1,
{
    let name = entries[i].0@;
    let j = place(entries, name);
    assert(0 <= j < entries.len() && entries[j].0@ == name);
    lemma_before_irreflexive(name);
    if i < j {
        assert(text_before(entries[i].0@, entries[j].0@));
    } else if j < i {
        assert(text_before(entries[j].0@, entries[i].0@));
    }
}

impl<V> NameMap<V> {
    #[verifier::type_invariant]
    spec fn well_formed(self) -> bool {
        ascending(self.entries@)
    }

    /// The names in lexicographic order.
    pub closed spec fn names(self) -> Seq<Seq<char>> {
        self.entries@.map_values(|entry: (String, V)| entry.0@)
    }
}

impl<V> View for NameMap<V> {
    type V = Map<Seq<char>, V>;

    closed spec fn view(&self) -> Map<Seq<char>, V> {
        contents(self.entries@)
    }
}

/// Whether `names` lists every name of `map` once, in lexicographic order.
pub open spec fn lists_names<V>(names: Seq<Seq<char>>, map: Map<Seq<char>, V>) -> bool {
    &&& forall|i: int, j: int| 0 <= i < j < names.len() ==> text_before(names[i], names[j])
    &&& forall|name: Seq<char>| #[trigger] names.contains(name) <==> map.contains_key(name)
}

impl<V> NameMap<V> {
    /// The map without names.
    pub fn new() -> (map: Self)
        ensures
            map@ == Map::<Seq<char>, V>::empty(),
    {
        let map = NameMap { entries: Vec::new() };
        assert(map@ =~= Map::<Seq<char>, V>::empty());
        map
    }

    /// The position of the first name that does not come before `name`.
    fn position(&self, name: &str) -> (index: usize)
        ensures
            index <= self.entries.len(),
            forall|i: int|
                0 <= i < index ==> text_before((#[trigger] self.entries@[i]).0@, name@),
            index < self.entries.len() ==> !text_before(self.entries@[index as int].0@, name@),
    {
        let mut index: usize = 0;
        while index < self.entries.len() && comes_before(self.entries[index].0.as_str(), name)
            invariant
                index <= self.entries.len(),
                forall|i: int|
                    0 <= i < index ==> text_before((#[trigger] self.entries@[i]).0@, name@),
            decreases self.entries.len() - index,
        {
            index = index + 1;
        }
        index
    }

    /// The value under `name`.
    pub fn get(&self, name: &str) -> (value: Option<&V>)
        ensures
            match value {
                Some(value) => self@.contains_key(name@) && *value == self@[name@],
                None => !self@.contains_key(name@),
            },
    {
        proof {
            use_type_invariant(self);
        }
        for i in 0..self.entries.len()
            invariant
                ascending(self.entries@),
                forall|j: int| 0 <= j < i ==> (#[trigger] self.entries@[j]).0@ != name@,
        {
            if same_text(self.entries[i].0.as_str(), name) {
                proof {
                    lemma_place(self.entries@, i as int);
                }
                return Some(&self.entries[i].1);
            }
        }
        None
    }

    /// Puts `value` under `name`, in place of the value that was there.
    pub fn insert(&mut self, name: String, value: V)
        ensures
            final(self)@ == old(self)@.insert(name@, value),
    {
        proof {
            use_type_invariant(&*self);
        }
        let index = self.position(name.as_str());
        let mut entries: Vec<(String, V)> = Vec::new();
        std::mem::swap(&mut entries, &mut self.entries);
        let ghost before = entries@;
        let ghost label = name@;
        let present = index < entries.len() && same_text(entries[index].0.as_str(), name.as_str());
        if present {
            entries.set(index, (name, value));
        } else {
            entries.insert(index, (name, value));
        }
        let ghost after = entries@;
        proof {
            assert(after[index as int].0@ == label && after[index as int].1 == value);
            assert(ascending(after)) by {
                assert forall|i: int, j: int|
                    #![trigger after[i], after[j]]
                    0 <= i < j < after.len() implies text_before(after[i].0@, after[j].0@) by {
                    let shift: int = if present { 0 } else { 1 };
                    if j < index {
                        assert(text_before(before[i].0@, before[j].0@));
                    } else if i > index {
                        assert(text_before(before[i - shift].0@, before[j - shift].0@));
                    } else if i < index && j > index {
                        assert(text_before(before[i].0@, before[j - shift].0@));
                    } else if j == index {
                        assert(text_before(before[i].0@, label));
                    } else {
                        let other = before[j - shift].0@;
                        lemma_before_total(label, other);
                        if present {
                            assert(text_before(before[index as int].0@, other));
                        } else {
                            let bound = before[index as int].0@;
                            assert(!text_before(bound, label));
                            lemma_before_total(bound, label);
                            if j - shift > index {
                                assert(text_before(bound, other));
                                lemma_before_transitive(label, bound, other);
                            }
                        }
                    }
                }
            }
            let expected = contents(before).insert(label, value);
            assert forall|other: Seq<char>| #[trigger]
                contents(after).contains_key(other) == expected.contains_key(other) by {
                let shift: int = if present { 0 } else { 1 };
                if has_name(after, other) {
                    let i = place(after, other);
                    assert(after[i].0@ == other);
                    if i < index {
                        assert(before[i].0@ == other);
                    } else if i > index {
                        assert(before[i - shift].0@ == other);
                    } else {
                        assert(other == label);
                    }
                    assert(expected.contains_key(other));
                }
                if has_name(before, other) {
                    let i = place(before, other);
                    assert(before[i].0@ == other);
                    if i < index {
                        assert(after[i].0@ == other);
                    } else if present && i == index {
                        assert(after[i].0@ == other);
                    } else {
                        assert(after[i + shift].0@ == other);
                    }
                    assert(has_name(after, other));
                }
                if other == label {
                    lemma_place(after, index as int);
                    assert(has_name(after, other));
                }
            }
            assert forall|other: Seq<char>| expected.contains_key(other) implies #[trigger] contents(
                after,
            )[other] == expected[other] by {
                assert(contents(after).contains_key(other));
                let i = place(after, other);
                assert(after[i].0@ == other);
                lemma_place(after, i);
                lemma_place(after, index as int);
                let shift: int = if present { 0 } else { 1 };
                if i < index {
                    assert(before[i] == after[i]);
                    lemma_place(before, i);
                } else if i > index {
                    assert(before[i - shift] == after[i]);
                    lemma_place(before, i - shift);
                }
                if other == label && i != index {
                    assert(place(after, label) == index);
                }
            }
            assert(contents(after) =~= expected);
        }
        self.entries = entries;
    }

    /// Keeps the names that occur in `kept` and drops the others.
    pub fn keep_only(&mut self, kept: &Vec<String>)
        ensures
            final(self)@ == old(self)@.restrict(
                Set::new(|name: Seq<char>| views(kept@).contains(name)),
            ),
    {
        proof {
            use_type_invariant(&*self);
        }
        let ghost before = self.entries@;
        let mut index: usize = 0;
        let mut source: Vec<(String, V)> = Vec::new();
        std::mem::swap(&mut source, &mut self.entries);
        while index < source.len()
            invariant
                index <= source.len(),
                ascending(source@),
                ascending(before),
                forall|i: int| 0 <= i < source.len() ==> before.contains(#[trigger] source@[i]),
                forall|i: int|
                    0 <= i < index ==> views(kept@).contains((#[trigger] source@[i]).0@),
                forall|j: int|
                    0 <= j < before.len() && views(kept@).contains((#[trigger] before[j]).0@)
                        ==> source@.contains(before[j]),
                forall|i: int|
                    index <= i < source.len() ==> source@[i] == #[trigger] before[i + before.len()
                        - source.len()],
                source.len() <= before.len(),
            decreases source.len() - index,
        {
            let mut found = false;
            for k in 0..kept.len()
                invariant
                    index < source.len(),
                    found == (exists|m: int|
                        0 <= m < k && #[trigger] kept@[m]@ == source@[index as int].0@),
            {
                if same_text(kept[k].as_str(), source[index].0.as_str()) {
                    found = true;
                }
            }
            let ghost name = source@[index as int].0@;
            proof {
                if found {
                    let m = choose|m: int| 0 <= m < kept.len() && #[trigger] kept@[m]@ == name;
                    assert(views(kept@)[m] == name);
                } else if views(kept@).contains(name) {
                    let m = choose|m: int| 0 <= m < views(kept@).len() && views(kept@)[m] == name;
                    assert(kept@[m]@ == name);
                }
            }
            if found {
                index = index + 1;
            } else {
                let ghost previous = source@;
                source.remove(index);
                proof {
                    let current = source@;
                    assert(current =~= previous.remove(index as int));
                    assert forall|j: int|
                        0 <= j < before.len() && views(kept@).contains(
                            (#[trigger] before[j]).0@,
                        ) implies current.contains(before[j]) by {
                        let i = choose|i: int| 0 <= i < previous.len() && previous[i] == before[j];
                        if i < index {
                            assert(current[i] == before[j]);
                        } else {
                            assert(i != index);
                            assert(current[i - 1] == before[j]);
                        }
                    }
                    assert forall|i: int| 0 <= i < current.len() implies before.contains(
                        #[trigger] current[i],
                    ) by {
                        let k = if i < index { i } else { i + 1 };
                        assert(current[i] == previous[k]);
                    }
                    assert forall|i: int, j: int|
                        #![trigger current[i], current[j]]
                        0 <= i < j < current.len() implies text_before(
                        current[i].0@,
                        current[j].0@,
                    ) by {
                        let a = if i < index { i } else { i + 1 };
                        let b = if j < index { j } else { j + 1 };
                        assert(text_before(previous[a].0@, previous[b].0@));
                    }
                    assert forall|i: int| index <= i < current.len() implies current[i]
                        == #[trigger] before[i + before.len() - current.len()] by {
                        assert(current[i] == previous[i + 1]);
                        assert(previous[i + 1] == before[(i + 1) + before.len() - previous.len()]);
                    }
                }
            }
        }
        proof {
            let after = source@;
            let names = Set::new(|name: Seq<char>| views(kept@).contains(name));
            let expected = contents(before).restrict(names);
            assert forall|name: Seq<char>| #[trigger]
                contents(after).contains_key(name) == expected.contains_key(name) by {
                if has_name(after, name) {
                    let i = place(after, name);
                    assert(after[i].0@ == name);
                    let j = choose|j: int| 0 <= j < before.len() && after[i] == #[trigger] before[j];
                    assert(before[j].0@ == name);
                }
                if expected.contains_key(name) {
                    let j = place(before, name);
                    assert(before[j].0@ == name);
                    assert(after.contains(before[j]));
                    let i = choose|i: int| 0 <= i < after.len() && after[i] == before[j];
                    assert(after[i].0@ == name);
                }
            }
            assert forall|name: Seq<char>| expected.contains_key(name) implies #[trigger] contents(
                after,
            )[name] == expected[name] by {
                assert(contents(after).contains_key(name));
                let i = place(after, name);
                assert(after[i].0@ == name);
                lemma_place(after, i);
                let j = choose|j: int| 0 <= j < before.len() && after[i] == #[trigger] before[j];
                lemma_place(before, j);
            }
            assert(contents(after) =~= expected);
        }
        self.entries = source;
    }

    /// The number of names.
    pub fn len(&self) -> (count: usize)
        ensures
            count == self.names().len(),
    {
        self.entries.len()
    }

    /// The name at a position in lexicographic order, and its value.
    pub fn entry(&self, index: usize) -> (entry: (&str, &V))
        requires
            index < self.names().len(),
        ensures
            entry.0@ == self.names()[index as int],
            self@.contains_key(entry.0@),
            *entry.1 == self@[entry.0@],
    {
        proof {
            use_type_invariant(self);
            lemma_place(self.entries@, index as int);
        }
        let entry = &self.entries[index];
        (entry.0.as_str(), &entry.1)
    }

    /// Every name once, in lexicographic order.
    pub fn name_list(&self) -> (names: Vec<String>)
        ensures
            views(names@) == self.names(),
            lists_names(views(names@), self@),
    {
        proof {
            use_type_invariant(self);
        }
        let mut names: Vec<String> = Vec::new();
        for i in 0..self.entries.len()
            invariant
                names.len() == i,
                forall|j: int| 0 <= j < i ==> (#[trigger] names@[j])@ == self.entries@[j].0@,
        {
            names.push(self.entries[i].0.clone());
        }
        proof {
            let listed = views(names@);
            assert(listed =~= self.names());
            assert forall|i: int, j: int| 0 <= i < j < listed.len() implies text_before(
                listed[i],
                listed[j],
            ) by {
                assert(text_before(self.entries@[i].0@, self.entries@[j].0@));
            }
            assert forall|name: Seq<char>| #[trigger]
                listed.contains(name) == self@.contains_key(name) by {
                if listed.contains(name) {
                    let i = choose|i: int| 0 <= i < listed.len() && listed[i] == name;
                    lemma_place(self.entries@, i);
                }
                if self@.contains_key(name) {
                    let i = place(self.entries@, name);
                    assert(self.entries@[i].0@ == name);
                    assert(listed[i] == name);
                }
            }
        }
        names
    }
}

impl<V: Copy> NameMap<V> {
    /// A map with the same entries.
    pub fn copied(&self) -> (copy: Self)
        ensures
            copy@ == self@,
            copy.names() == self.names(),
    {
        proof {
            use_type_invariant(self);
        }
        let mut entries: Vec<(String, V)> = Vec::new();
        for i in 0..self.entries.len()
            invariant
                entries.len() == i,
                forall|j: int| 0 <= j < i ==> #[trigger] entries@[j] == self.entries@[j],
        {
            entries.push((self.entries[i].0.clone(), self.entries[i].1));
        }
        assert(entries@ =~= self.entries@);
        NameMap { entries }
    }
}

impl Clone for NameMap<String> {
    fn clone(&self) -> (copy: Self)
        ensures
            copy@ == self@,
            copy.names() == self.names(),
    {
        proof {
            use_type_invariant(self);
        }
        let mut entries: Vec<(String, String)> = Vec::new();
        for i in 0..self.entries.len()
            invariant
                entries.len() == i,
                forall|j: int| 0 <= j < i ==> #[trigger] entries@[j] == self.entries@[j],
        {
            entries.push((self.entries[i].0.clone(), self.entries[i].1.clone()));
        }
        assert(entries@ =~= self.entries@);
        NameMap { entries }
    }
}

} // verus!
