//! The variables that a running Logo program sees: names bound to values,
//! where binding a name again replaces its value.

use vstd::prelude::*;
use crate::text::same_text;

verus! {

/// Names bound to values; a name is bound at most once.
pub struct Scope<V> {
    entries: Vec<(String, V)>,
}

/// The bindings of a list of distinct names, as a map.
pub open spec fn bindings<V>(entries: Seq<(String, V)>) -> Map<Seq<char>, V>
    decreases entries.len(),
{
    if entries.len() == 0 {
        Map::empty()
    } else {
        bindings(entries.drop_last()).insert(entries.last().0@, entries.last().1)
    }
}

/// No name occurs twice.
pub open spec fn distinct_names<V>(entries: Seq<(String, V)>) -> bool {
    forall|i: int, j: int|
        0 <= i < j < entries.len() ==> (#[trigger] entries[i]).0@ != (#[trigger] entries[j]).0@
}

proof fn lemma_bindings<V>(entries: Seq<(String, V)>)
    requires
        distinct_names(entries),
    ensures
        forall|k: Seq<char>|
            bindings(entries).contains_key(k) <==> exists|i: int|
                0 <= i < entries.len() && (#[trigger] entries[i]).0@ == k,
        forall|i: int|
            0 <= i < entries.len() ==> bindings(entries)[(#[trigger] entries[i]).0@]
                == entries[i].1,
    decreases entries.len(),
{
    if entries.len() > 0 {
        let init = entries.drop_last();
        assert forall|i: int, j: int| 0 <= i < j < init.len() implies (#[trigger] init[i]).0@
            != (#[trigger] init[j]).0@ by {
            assert(init[i] == entries[i] && init[j] == entries[j]);
        }
        lemma_bindings(init);
        let n = entries.len() - 1;
        assert forall|k: Seq<char>| bindings(entries).contains_key(k) implies exists|i: int|
            0 <= i < entries.len() && (#[trigger] entries[i]).0@ == k by {
            if k != entries.last().0@ {
                assert(bindings(init).contains_key(k));
                let i = choose|i: int| 0 <= i < init.len() && (#[trigger] init[i]).0@ == k;
                assert(entries[i] == init[i]);
            } else {
                assert(entries[n].0@ == k);
            }
        }
        assert forall|k: Seq<char>|
            (exists|i: int| 0 <= i < entries.len() && (#[trigger] entries[i]).0@ == k) implies
            bindings(entries).contains_key(k) by {
            let i = choose|i: int| 0 <= i < entries.len() && (#[trigger] entries[i]).0@ == k;
            if i < n {
                assert(init[i] == entries[i]);
                assert(bindings(init).contains_key(k));
            }
        }
        assert forall|i: int| 0 <= i < entries.len() implies bindings(entries)[(
        #[trigger] entries[i]).0@] == entries[i].1 by {
            if i < n {
                assert(init[i] == entries[i]);
                assert(entries[i].0@ != entries[n].0@);
            }
        }
    }
}

proof fn lemma_bindings_replace<V>(entries: Seq<(String, V)>, i: int, name: String, value: V)
    requires
        distinct_names(entries),
        0 <= i < entries.len(),
        entries[i].0@ == name@,
    ensures
        distinct_names(entries.update(i, (name, value))),
        bindings(entries.update(i, (name, value))) == bindings(entries).insert(name@, value),
{
    let e2 = entries.update(i, (name, value));
    assert forall|a: int, b: int| 0 <= a < b < e2.len() implies (#[trigger] e2[a]).0@
        != (#[trigger] e2[b]).0@ by {
        assert(e2[a].0@ == entries[a].0@);
        assert(e2[b].0@ == entries[b].0@);
    }
    lemma_bindings(entries);
    lemma_bindings(e2);
    assert(bindings(e2) =~= bindings(entries).insert(name@, value)) by {
        assert forall|k: Seq<char>| #[trigger] bindings(e2).contains_key(k) == bindings(
            entries,
        ).insert(name@, value).contains_key(k) by {
            if bindings(e2).contains_key(k) {
                let j = choose|j: int| 0 <= j < e2.len() && (#[trigger] e2[j]).0@ == k;
                assert(entries[j].0@ == k);
            }
            if bindings(entries).contains_key(k) {
                let j = choose|j: int| 0 <= j < entries.len() && (#[trigger] entries[j]).0@ == k;
                assert(e2[j].0@ == k);
            }
            if k == name@ {
                assert(e2[i].0@ == k);
            }
        }
        assert forall|k: Seq<char>| #[trigger] bindings(e2).contains_key(k) implies bindings(e2)[k]
            == bindings(entries).insert(name@, value)[k] by {
            let j = choose|j: int| 0 <= j < e2.len() && (#[trigger] e2[j]).0@ == k;
            if j != i {
                assert(e2[j] == entries[j]);
            }
        }
    }
}

/// `m` after binding each name of `names` to the value at the same place
/// of `values`, from first to last.
pub open spec fn bind_each<V>(m: Map<Seq<char>, V>, names: Seq<Seq<char>>, values: Seq<V>) -> Map<
    Seq<char>,
    V,
>
    decreases names.len(),
{
    if names.len() == 0 || values.len() == 0 {
        m
    } else {
        bind_each(m, names.drop_last(), values.drop_last()).insert(names.last(), values.last())
    }
}

/// Binding a list of names leaves every other name as it was, and gives a
/// bound name the value at its last place in the list.
pub proof fn lemma_bind_each<V>(m: Map<Seq<char>, V>, names: Seq<Seq<char>>, values: Seq<V>, k: Seq<char>)
    requires
        names.len() == values.len(),
    ensures
        !names.contains(k) ==> bind_each(m, names, values).contains_key(k) == m.contains_key(k)
            && (m.contains_key(k) ==> bind_each(m, names, values)[k] == m[k]),
        forall|j: int|
            0 <= j < names.len() && names[j] == k && (forall|l: int| j < l < names.len() ==> names[l] != k)
                ==> bind_each(m, names, values).contains_key(k) && bind_each(m, names, values)[k]
                == values[j],
    decreases names.len(),
{
    if names.len() > 0 {
        let n = names.len() - 1;
        lemma_bind_each(m, names.drop_last(), values.drop_last(), k);
        if !names.contains(k) {
            assert(names[n] != k);
            assert forall|i: int| 0 <= i < names.drop_last().len() implies names.drop_last()[i] != k by {
                assert(names.drop_last()[i] == names[i]);
            }
            assert(!names.drop_last().contains(k));
        }
        assert forall|j: int|
            0 <= j < names.len() && names[j] == k && (forall|l: int| j < l < names.len() ==> names[l] != k)
            implies bind_each(m, names, values).contains_key(k) && bind_each(m, names, values)[k]
            == values[j] by {
            if j < n {
                assert(names[n] != k);
                assert(names.drop_last()[j] == k);
                assert(values.drop_last()[j] == values[j]);
                assert forall|l: int| j < l < names.drop_last().len() implies names.drop_last()[l] != k by {
                    assert(names.drop_last()[l] == names[l]);
                }
            }
        }
    }
}

/// Reading a name gives back the value last bound to it, and binding one
/// name leaves every other name as it was.
pub proof fn lemma_read_after_bind<V>(m: Map<Seq<char>, V>, name: Seq<char>, value: V, other: Seq<char>)
    ensures
        m.insert(name, value).contains_key(name),
        m.insert(name, value)[name] == value,
        other != name ==> m.insert(name, value).contains_key(other) == m.contains_key(other),
        other != name && m.contains_key(other) ==> m.insert(name, value)[other] == m[other],
{
}

impl<V> View for Scope<V> {
    type V = Map<Seq<char>, V>;

    closed spec fn view(&self) -> Map<Seq<char>, V> {
        bindings(self.entries@)
    }
}

impl<V> Scope<V> {
    #[verifier::type_invariant]
    spec fn names_distinct(&self) -> bool {
        distinct_names(self.entries@)
    }

    /// No name bound.
    pub fn new() -> (s: Self)
        ensures
            s@ == Map::<Seq<char>, V>::empty(),
    {
        Scope { entries: Vec::new() }
    }

    fn position(&self, name: &str) -> (r: Option<usize>)
        ensures
            match r {
                Some(i) => i < self.entries@.len() && self.entries@[i as int].0@ == name@,
                None => forall|i: int|
                    0 <= i < self.entries@.len() ==> (#[trigger] self.entries@[i]).0@ != name@,
            },
    {
        let mut i: usize = 0;
        while i < self.entries.len()
            invariant
                0 <= i <= self.entries@.len(),
                forall|j: int| 0 <= j < i ==> (#[trigger] self.entries@[j]).0@ != name@,
            decreases self.entries.len() - i,
        {
            if same_text(self.entries[i].0.as_str(), name) {
                return Some(i);
            }
            i = i + 1;
        }
        None
    }

    /// The value bound to `name`, if any.
    pub fn get(&self, name: &str) -> (r: Option<&V>)
        ensures
            match r {
                Some(v) => self@.contains_key(name@) && self@[name@] == *v,
                None => !self@.contains_key(name@),
            },
    {
        proof {
            use_type_invariant(self);
            lemma_bindings(self.entries@);
        }
        match self.position(name) {
            Some(i) => Some(&self.entries[i].1),
            None => None,
        }
    }

    /// Binds `name` to `value`, replacing any value it had.
    pub fn insert(&mut self, name: String, value: V)
        ensures
            final(self)@ == old(self)@.insert(name@, value),
    {
        proof {
            use_type_invariant(&*self);
            lemma_bindings(self.entries@);
        }
        let found = self.position(name.as_str());
        let mut taken = Scope { entries: Vec::new() };
        std::mem::swap(self, &mut taken);
        let mut entries = taken.entries;
        let ghost before = entries@;
        match found {
            Some(i) => {
                proof {
                    lemma_bindings_replace(before, i as int, name, value);
                }
                entries.set(i, (name, value));
            },
            None => {
                assert(entries@.push((name, value)).drop_last() == before);
                entries.push((name, value));
                assert forall|a: int, b: int| 0 <= a < b < entries@.len() implies (
                #[trigger] entries@[a]).0@ != (#[trigger] entries@[b]).0@ by {
                    if b < before.len() {
                        assert(entries@[a] == before[a] && entries@[b] == before[b]);
                    } else {
                        assert(entries@[a] == before[a]);
                    }
                }
            },
        }
        *self = Scope { entries };
    }

    /// The scope that binds each name of `pairs` to its value, from first
    /// to last, so that a name given twice keeps its last value: how a
    /// program's procedure declarations are gathered.
    pub fn from_pairs(pairs: Vec<(String, V)>) -> (s: Self)
        ensures
            s@ == bind_each(
                Map::<Seq<char>, V>::empty(),
                pairs@.map_values(|p: (String, V)| p.0@),
                pairs@.map_values(|p: (String, V)| p.1),
            ),
    {
        let ghost names = pairs@.map_values(|p: (String, V)| p.0@);
        let ghost values = pairs@.map_values(|p: (String, V)| p.1);
        let ghost all = pairs@;
        let mut s = Scope::new();
        for p in it: pairs
            invariant
                it.seq() == all,
                names == all.map_values(|p: (String, V)| p.0@),
                values == all.map_values(|p: (String, V)| p.1),
                s@ == bind_each(
                    Map::<Seq<char>, V>::empty(),
                    names.take(it.index() as int),
                    values.take(it.index() as int),
                ),
        {
            let ghost i = it.index();
            assert(names.take(i + 1).drop_last() == names.take(i as int));
            assert(values.take(i + 1).drop_last() == values.take(i as int));
            let (name, value) = p;
            s.insert(name, value);
        }
        assert(names.take(all.len() as int) == names);
        assert(values.take(all.len() as int) == values);
        s
    }

    /// Binds each name of `names` to the value at the same place of
    /// `values`, in order: how a procedure's parameters receive its
    /// arguments.
    pub fn bind_all(&mut self, names: &Vec<String>, values: Vec<V>)
        requires
            names.len() == values.len(),
        ensures
            final(self)@ == bind_each(
                old(self)@,
                names@.map_values(|n: String| n@),
                values@,
            ),
    {
        let ghost start = self@;
        let ghost all_names = names@.map_values(|n: String| n@);
        let ghost all_values = values@;
        let mut i: usize = 0;
        for v in it: values
            invariant
                it.seq() == all_values,
                all_values.len() == names.len(),
                all_names == names@.map_values(|n: String| n@),
                i == it.index(),
                self@ == bind_each(start, all_names.take(i as int), all_values.take(i as int)),
        {
            assert(all_names.take(i + 1).drop_last() == all_names.take(i as int));
            assert(all_values.take(i + 1).drop_last() == all_values.take(i as int));
            assert(all_names.take(i + 1).last() == names@[i as int]@);
            self.insert(names[i].clone(), v);
            i = i + 1;
        }
        assert(all_names.take(names.len() as int) == all_names);
        assert(all_values.take(names.len() as int) == all_values);
    }
}

impl<V: Clone> Clone for Scope<V> {
    /// A copy binding the same names, each to a clone of its value.
    fn clone(&self) -> (c: Self)
        ensures
            c@.dom() == self@.dom(),
            forall|k: Seq<char>| #[trigger] self@.contains_key(k) ==> cloned::<V>(self@[k], c@[k]),
    {
        proof {
            use_type_invariant(self);
            lemma_bindings(self.entries@);
        }
        let mut entries: Vec<(String, V)> = Vec::new();
        let mut i: usize = 0;
        while i < self.entries.len()
            invariant
                0 <= i <= self.entries@.len(),
                distinct_names(self.entries@),
                entries@.len() == i,
                forall|j: int| 0 <= j < i ==> (#[trigger] entries@[j]).0@ == self.entries@[j].0@,
                forall|j: int| 0 <= j < i ==> cloned::<V>(self.entries@[j].1, #[trigger] entries@[j].1),
            decreases self.entries.len() - i,
        {
            let name = self.entries[i].0.clone();
            let value = self.entries[i].1.clone();
            entries.push((name, value));
            i = i + 1;
        }
        assert forall|a: int, b: int| 0 <= a < b < entries@.len() implies (#[trigger] entries@[a]).0@
            != (#[trigger] entries@[b]).0@ by {
            assert(self.entries@[a].0@ != self.entries@[b].0@);
        }
        proof {
            lemma_bindings(entries@);
            assert forall|k: Seq<char>| #[trigger] bindings(entries@).contains_key(k) == bindings(
                self.entries@,
            ).contains_key(k) by {
                if bindings(entries@).contains_key(k) {
                    let j = choose|j: int| 0 <= j < entries@.len() && (#[trigger] entries@[j]).0@ == k;
                    assert(self.entries@[j].0@ == k);
                }
                if bindings(self.entries@).contains_key(k) {
                    let j = choose|j: int|
                        0 <= j < self.entries@.len() && (#[trigger] self.entries@[j]).0@ == k;
                    assert(entries@[j].0@ == k);
                }
            }
            assert(bindings(entries@).dom() =~= bindings(self.entries@).dom());
            assert forall|k: Seq<char>| #[trigger] bindings(self.entries@).contains_key(k) implies cloned::<
                V,
            >(bindings(self.entries@)[k], bindings(entries@)[k]) by {
                let j = choose|j: int|
                    0 <= j < self.entries@.len() && (#[trigger] self.entries@[j]).0@ == k;
                assert(entries@[j].0@ == k);
            }
        }
        Scope { entries }
    }
}

} // verus!
