//! A map keyed by name, kept in order of the names.

use crate::names::lemma_sorted_distinct;
use crate::text::{less, lex_less, lex_less_total, lex_less_transitive, same, sorted, views};
use vstd::prelude::*;

verus! {

/// Values by name.
#[derive(Debug)]
pub struct NameMap<V> {
    entries: Vec<(String, V)>,
}

/// The map that a list of entries stands for.
spec fn as_map<V>(s: Seq<(String, V)>) -> Map<Seq<char>, V>
    decreases s.len(),
{
    if s.len() == 0 {
        Map::empty()
    } else {
        as_map(s.drop_last()).insert(s.last().0@, s.last().1)
    }
}

/// The names of a list of entries.
spec fn names_of<V>(s: Seq<(String, V)>) -> Seq<Seq<char>> {
    Seq::new(s.len(), |i: int| s[i].0@)
}

proof fn as_map_facts<V>(s: Seq<(String, V)>)
    requires
        sorted(names_of(s)),
    ensures
        as_map(s).dom().finite(),
        as_map(s).dom() =~= names_of(s).to_set(),
        forall|i: int|
            0 <= i < s.len() ==> as_map(s).contains_key(#[trigger] s[i].0@) && as_map(
                s,
            )[s[i].0@] == s[i].1,
        forall|k: Seq<char>| #[trigger]
            as_map(s).contains_key(k) ==> exists|i: int|
                0 <= i < s.len() && #[trigger] s[i].0@ == k,
        forall|k: Seq<char>|
            #![trigger as_map(s).contains_key(k)]
            #![trigger names_of(s).contains(k)]
            as_map(s).contains_key(k) <==> names_of(s).contains(k),
    decreases s.len(),
{
    if s.len() > 0 {
        let t = s.drop_last();
        assert(names_of(t) =~= names_of(s).drop_last());
        as_map_facts(t);
        let last = s.last();
        assert forall|i: int| 0 <= i < s.len() implies as_map(s).contains_key(#[trigger] s[i].0@)
            && as_map(s)[s[i].0@] == s[i].1 by {
            if i < t.len() {
                assert(t[i].0@ == s[i].0@);
                assert(lex_less(names_of(s)[i], names_of(s)[s.len() - 1]));
                lex_less_total(names_of(s)[i], names_of(s)[s.len() - 1]);
            }
        }
        assert forall|k: Seq<char>| #[trigger] as_map(s).contains_key(k) implies exists|i: int|
            0 <= i < s.len() && #[trigger] s[i].0@ == k by {
            if k == last.0@ {
                assert(s[s.len() - 1].0@ == k);
            } else {
                assert(as_map(t).contains_key(k));
                let i = choose|i: int| 0 <= i < t.len() && #[trigger] t[i].0@ == k;
                assert(s[i].0@ == k);
            }
        }
    }
    assert forall|k: Seq<char>| as_map(s).contains_key(k) <==> #[trigger] names_of(s).contains(
        k,
    ) by {
        if as_map(s).contains_key(k) {
            let i = choose|i: int| 0 <= i < s.len() && #[trigger] s[i].0@ == k;
            assert(names_of(s)[i] == k);
        }
        if names_of(s).contains(k) {
            let i = choose|i: int| 0 <= i < names_of(s).len() && names_of(s)[i] == k;
            assert(s[i].0@ == k);
        }
    }
    assert forall|k: Seq<char>| #[trigger] as_map(s).contains_key(k) implies names_of(s).contains(
        k,
    ) by {}
}

impl<V> View for NameMap<V> {
    type V = Map<Seq<char>, V>;

    closed spec fn view(&self) -> Map<Seq<char>, V> {
        as_map(self.entries@)
    }
}

impl<V> NameMap<V> {
    #[verifier::type_invariant]
    spec fn ordered(self) -> bool {
        sorted(names_of(self.entries@))
    }

    /// No entries.
    pub fn new() -> (r: NameMap<V>)
        ensures
            r@ == Map::<Seq<char>, V>::empty(),
    {
        NameMap { entries: Vec::new() }
    }

    /// The number of entries.
    pub fn len(&self) -> (r: usize)
        ensures
            r == self@.len(),
            self@.dom().finite(),
    {
        proof {
            use_type_invariant(self);
            as_map_facts(self.entries@);
            lemma_sorted_distinct(names_of(self.entries@));
            names_of(self.entries@).unique_seq_to_set();
        }
        self.entries.len()
    }

    /// The position of the first entry whose name is not before `name`.
    fn position(&self, name: &str) -> (r: usize)
        ensures
            r <= self.entries.len(),
            forall|i: int| 0 <= i < r ==> lex_less(#[trigger] self.entries@[i].0@, name@),
            forall|i: int|
                r <= i < self.entries.len() ==> !lex_less(#[trigger] self.entries@[i].0@, name@),
    {
        proof {
            use_type_invariant(self);
        }
        let mut i: usize = 0;
        while i < self.entries.len()
            invariant
                i <= self.entries.len(),
                sorted(names_of(self.entries@)),
                forall|j: int| 0 <= j < i ==> lex_less(#[trigger] self.entries@[j].0@, name@),
            decreases self.entries.len() - i,
        {
            if !less(&self.entries[i].0, name) {
                assert forall|j: int| i <= j < self.entries.len() implies !lex_less(
                    #[trigger] self.entries@[j].0@,
                    name@,
                ) by {
                    if j > i && lex_less(self.entries@[j].0@, name@) {
                        assert(lex_less(
                            names_of(self.entries@)[i as int],
                            names_of(self.entries@)[j],
                        ));
                        lex_less_transitive(
                            self.entries@[i as int].0@,
                            self.entries@[j].0@,
                            name@,
                        );
                    }
                }
                return i;
            }
            i += 1;
        }
        i
    }

    /// The value under a name.
    pub fn get(&self, name: &str) -> (r: Option<&V>)
        ensures
            r is Some == self@.contains_key(name@),
            r matches Some(v) ==> *v == self@[name@],
    {
        proof {
            use_type_invariant(self);
            as_map_facts(self.entries@);
        }
        let i: usize = self.position(name);
        if i < self.entries.len() && same(&self.entries[i].0, name) {
            Some(&self.entries[i].1)
        } else {
            proof {
                if self@.contains_key(name@) {
                    let k = choose|k: int|
                        0 <= k < self.entries.len() && #[trigger] self.entries@[k].0@ == name@;
                    lex_less_total(name@, name@);
                    if k > i {
                        assert(lex_less(
                            names_of(self.entries@)[i as int],
                            names_of(self.entries@)[k],
                        ));
                    }
                }
            }
            None
        }
    }

    /// Whether there is a value under a name.
    pub fn contains_key(&self, name: &str) -> (r: bool)
        ensures
            r == self@.contains_key(name@),
    {
        self.get(name).is_some()
    }

    /// The names, in order.
    pub fn keys(&self) -> (r: Vec<String>)
        ensures
            sorted(views(r@)),
            self@.dom().finite(),
            forall|k: Seq<char>| #[trigger]
                views(r@).contains(k) <==> self@.contains_key(k),
            r.len() == self@.len(),
    {
        proof {
            use_type_invariant(self);
            as_map_facts(self.entries@);
            lemma_sorted_distinct(names_of(self.entries@));
            names_of(self.entries@).unique_seq_to_set();
        }
        let mut out: Vec<String> = Vec::new();
        let mut i: usize = 0;
        while i < self.entries.len()
            invariant
                i <= self.entries.len(),
                views(out@) =~= names_of(self.entries@).take(i as int),
            decreases self.entries.len() - i,
        {
            let ghost held = out@;
            out.push(self.entries[i].0.clone());
            assert(views(out@) =~= views(held).push(names_of(self.entries@)[i as int]));
            assert(names_of(self.entries@).take(i + 1) =~= names_of(self.entries@).take(
                i as int,
            ).push(names_of(self.entries@)[i as int]));
            i += 1;
        }
        assert(views(out@) =~= names_of(self.entries@));
        out
    }

    /// Puts a value under a name, in place of any value there.
    pub fn insert(&mut self, name: String, value: V)
        ensures
            final(self)@ == old(self)@.insert(name@, value),
    {
        proof {
            use_type_invariant(&*self);
            as_map_facts(self.entries@);
        }
        let ghost before = self.entries@;
        let i: usize = self.position(&name);
        let ghost key = name@;
        let mut entries: Vec<(String, V)> = Vec::new();
        std::mem::swap(&mut entries, &mut self.entries);
        if i < entries.len() && same(&entries[i].0, &name) {
            entries.remove(i);
            assert(entries@ =~= before.remove(i as int));
        } else {
            assert(entries@ == before);
        }
        let ghost rest = entries@;
        entries.insert(i, (name, value));
        proof {
            let ghost after = entries@;
            assert(names_of(after)[i as int] == key);
            assert forall|a: int, b: int| 0 <= a < b < after.len() implies lex_less(
                #[trigger] names_of(after)[a],
                #[trigger] names_of(after)[b],
            ) by {
                lemma_insert_sorted(before, rest, i as int, after, key, a, b);
            }
            as_map_facts(after);
            assert(after[i as int].1 == value);
            let wanted = as_map(before).insert(key, value);
            assert forall|k: Seq<char>| #[trigger]
                as_map(after).dom().contains(k) == wanted.dom().contains(k) && (as_map(
                after,
            ).dom().contains(k) ==> as_map(after)[k] == wanted[k]) by {
                lemma_insert_lookup(before, rest, i as int, after, key, k);
            }
            assert(as_map(after).dom() =~= wanted.dom());
            assert(as_map(after) =~= wanted);
        }
        self.entries = entries;
    }

    /// Drops the value under a name.
    pub fn remove(&mut self, name: &str)
        ensures
            final(self)@ == old(self)@.remove(name@),
    {
        proof {
            use_type_invariant(&*self);
            as_map_facts(self.entries@);
        }
        let ghost before = self.entries@;
        let i: usize = self.position(name);
        let mut entries: Vec<(String, V)> = Vec::new();
        std::mem::swap(&mut entries, &mut self.entries);
        if i < entries.len() && same(&entries[i].0, name) {
            entries.remove(i);
            proof {
                let after = entries@;
                assert(after =~= before.remove(i as int));
                assert forall|a: int, b: int| 0 <= a < b < after.len() implies lex_less(
                    #[trigger] names_of(after)[a],
                    #[trigger] names_of(after)[b],
                ) by {
                    let a0 = if a < i { a } else { a + 1 };
                    let b0 = if b < i { b } else { b + 1 };
                    assert(lex_less(names_of(before)[a0], names_of(before)[b0]));
                }
                as_map_facts(after);
                assert forall|k: Seq<char>| as_map(after).contains_key(k) == as_map(before).remove(
                    name@,
                ).contains_key(k) && (as_map(after).contains_key(k) ==> as_map(after)[k]
                    == as_map(before)[k]) by {
                    lemma_remove_lookup(before, i as int, after, k);
                }
                assert(as_map(after) =~= as_map(before).remove(name@));
            }
        } else {
            proof {
                if as_map(before).contains_key(name@) {
                    let k = choose|k: int| 0 <= k < before.len() && #[trigger] before[k].0@ == name@;
                    lex_less_total(name@, name@);
                    if k > i {
                        assert(lex_less(names_of(before)[i as int], names_of(before)[k]));
                    }
                    lex_less_total(before[i as int].0@, name@);
                }
                assert(as_map(before).remove(name@) =~= as_map(before));
            }
        }
        self.entries = entries;
    }
}

/// How `rest` comes from `before`, and `after` from `rest`, when a name is put at `i`.
spec fn placed<V>(
    before: Seq<(String, V)>,
    rest: Seq<(String, V)>,
    i: int,
    after: Seq<(String, V)>,
    name: Seq<char>,
) -> bool {
    &&& 0 <= i <= rest.len()
    &&& after.len() == rest.len() + 1
    &&& after[i].0@ == name
    &&& forall|j: int| 0 <= j < i ==> #[trigger] after[j] == before[j]
    &&& if i < before.len() && before[i].0@ == name {
        &&& rest.len() == before.len() - 1
        &&& forall|j: int| i < j < after.len() ==> #[trigger] after[j] == before[j]
    } else {
        &&& rest.len() == before.len()
        &&& forall|j: int| i < j < after.len() ==> #[trigger] after[j] == before[j - 1]
    }
    &&& forall|j: int| 0 <= j < i ==> lex_less(#[trigger] before[j].0@, name)
    &&& forall|j: int| i <= j < before.len() ==> !lex_less(#[trigger] before[j].0@, name)
}

proof fn lemma_insert_sorted<V>(
    before: Seq<(String, V)>,
    rest: Seq<(String, V)>,
    i: int,
    after: Seq<(String, V)>,
    name: Seq<char>,
    a: int,
    b: int,
)
    requires
        sorted(names_of(before)),
        placed(before, rest, i, after, name),
        0 <= a < b < after.len(),
    ensures
        lex_less(names_of(after)[a], names_of(after)[b]),
{
    let replaced = i < before.len() && before[i].0@ == name;
    let a0 = if a <= i || replaced { a } else { a - 1 };
    let b0 = if b <= i || replaced { b } else { b - 1 };
    if a == i {
        assert(after[b] == before[b0]);
        lex_less_total(before[b0].0@, name);
        if replaced {
            assert(lex_less(names_of(before)[i], names_of(before)[b0]));
        } else if i < b0 {
            assert(lex_less(names_of(before)[i], names_of(before)[b0]));
            lex_less_total(before[i].0@, name);
            lex_less_total(before[i].0@, before[b0].0@);
        } else {
            lex_less_total(before[i].0@, name);
        }
    } else if b == i {
        assert(after[a] == before[a]);
        assert(lex_less(before[a].0@, name));
    } else {
        assert(after[a] == before[a0]);
        assert(after[b] == before[b0]);
        assert(lex_less(names_of(before)[a0], names_of(before)[b0]));
    }
}

proof fn lemma_insert_lookup<V>(
    before: Seq<(String, V)>,
    rest: Seq<(String, V)>,
    i: int,
    after: Seq<(String, V)>,
    name: Seq<char>,
    k: Seq<char>,
)
    requires
        sorted(names_of(before)),
        sorted(names_of(after)),
        placed(before, rest, i, after, name),
    ensures
        as_map(after).contains_key(k) == (k == name || as_map(before).contains_key(k)),
        as_map(after).contains_key(k) ==> as_map(after)[k] == if k == name {
            after[i].1
        } else {
            as_map(before)[k]
        },
{
    as_map_facts(before);
    as_map_facts(after);
    let replaced = i < before.len() && before[i].0@ == name;
    if k != name {
        if as_map(after).contains_key(k) {
            let j = choose|j: int| 0 <= j < after.len() && #[trigger] after[j].0@ == k;
            let j0 = if j < i || replaced { j } else { j - 1 };
            assert(after[j] == before[j0]);
            assert(before[j0].0@ == k);
        }
        if as_map(before).contains_key(k) {
            let j = choose|j: int| 0 <= j < before.len() && #[trigger] before[j].0@ == k;
            let j1 = if j < i || replaced { j } else { j + 1 };
            assert(after[j1] == before[j]);
            assert(after[j1].0@ == k);
        }
    } else {
        assert(after[i].0@ == k);
    }
}

proof fn lemma_remove_lookup<V>(
    before: Seq<(String, V)>,
    i: int,
    after: Seq<(String, V)>,
    k: Seq<char>,
)
    requires
        sorted(names_of(before)),
        sorted(names_of(after)),
        0 <= i < before.len(),
        after == before.remove(i),
    ensures
        as_map(after).contains_key(k) == (k != before[i].0@ && as_map(before).contains_key(k)),
        as_map(after).contains_key(k) ==> as_map(after)[k] == as_map(before)[k],
{
    as_map_facts(before);
    as_map_facts(after);
    if as_map(after).contains_key(k) {
        let j = choose|j: int| 0 <= j < after.len() && #[trigger] after[j].0@ == k;
        let j0 = if j < i { j } else { j + 1 };
        assert(after[j] == before[j0]);
        assert(before[j0].0@ == k);
        if j0 < i {
            assert(lex_less(names_of(before)[j0], names_of(before)[i]));
        } else {
            assert(lex_less(names_of(before)[i], names_of(before)[j0]));
        }
        lex_less_total(names_of(before)[j0], names_of(before)[i]);
    }
    if as_map(before).contains_key(k) && k != before[i].0@ {
        let j = choose|j: int| 0 <= j < before.len() && #[trigger] before[j].0@ == k;
        let j1 = if j < i { j } else { j - 1 };
        assert(after[j1] == before[j]);
        assert(after[j1].0@ == k);
    }
}

} // verus!
