//! Names in lexicographic order.

use crate::text::{less, lex_less, lex_less_total, lex_less_transitive, same, sorted, views};
use vstd::prelude::*;

verus! {

/// A strictly increasing sequence holds nothing twice.
pub proof fn lemma_sorted_distinct(s: Seq<Seq<char>>)
    requires
        sorted(s),
    ensures
        s.no_duplicates(),
{
    assert forall|i: int, j: int| 0 <= i < s.len() && 0 <= j < s.len() && i != j implies s[i]
        != s[j] by {
        if i < j {
            lex_less_total(s[i], s[j]);
        } else {
            lex_less_total(s[j], s[i]);
        }
    }
}

/// The names of a set in order.
pub open spec fn ranked(s: Set<Seq<char>>) -> Seq<Seq<char>> {
    choose|q: Seq<Seq<char>>| ranks(q, s)
}

/// Whether `q` lists the names of `s` in order.
pub open spec fn ranks(q: Seq<Seq<char>>, s: Set<Seq<char>>) -> bool {
    &&& sorted(q)
    &&& forall|k: Seq<char>| #[trigger] q.contains(k) <==> s.contains(k)
}

/// Only one sequence lists the names of a set in order.
pub proof fn lemma_ranked(q: Seq<Seq<char>>, s: Set<Seq<char>>)
    requires
        ranks(q, s),
    ensures
        ranked(s) == q,
{
    let p = ranked(s);
    lemma_sorted_distinct(p);
    lemma_sorted_distinct(q);
    p.unique_seq_to_set();
    q.unique_seq_to_set();
    assert(p.to_set() =~= q.to_set()) by {
        assert forall|k: Seq<char>| p.to_set().contains(k) == q.to_set().contains(k) by {
            assert(p.contains(k) == q.contains(k));
        }
    }
    lemma_same_ranks(p, q, q.len() as int);
    assert(p =~= q);
}

proof fn lemma_same_ranks(p: Seq<Seq<char>>, q: Seq<Seq<char>>, n: int)
    requires
        sorted(p),
        sorted(q),
        p.len() == q.len(),
        forall|k: Seq<char>| #[trigger] p.contains(k) <==> q.contains(k),
        0 <= n <= q.len(),
    ensures
        forall|i: int| 0 <= i < n ==> p[i] == q[i],
    decreases n,
{
    if n > 0 {
        let i = n - 1;
        lemma_same_ranks(p, q, i);
        lemma_sorted_distinct(p);
        lemma_sorted_distinct(q);
        assert(p.contains(p[i]));
        assert(q.contains(q[i]));
        assert(q.contains(p[i]));
        assert(p.contains(q[i]));
        let j = choose|j: int| 0 <= j < q.len() && q[j] == p[i];
        let h = choose|h: int| 0 <= h < p.len() && p[h] == q[i];
        if j < i {
            assert(p[j] == q[j]);
        }
        if h < i {
            assert(p[h] == q[h]);
        }
        if j > i && h > i {
            assert(lex_less(q[i], q[j]));
            assert(lex_less(p[i], p[h]));
            lex_less_total(q[i], q[j]);
        }
    }
}

/// The names of `q` with one more, each after all that come before it.
spec fn with_name(q: Seq<Seq<char>>, name: Seq<char>) -> Seq<Seq<char>>
    decreases q.len(),
{
    if q.len() == 0 || lex_less(q.last(), name) {
        q.push(name)
    } else {
        with_name(q.drop_last(), name).push(q.last())
    }
}

proof fn lemma_with_name(q: Seq<Seq<char>>, s: Set<Seq<char>>, name: Seq<char>)
    requires
        ranks(q, s),
        !s.contains(name),
    ensures
        ranks(with_name(q, name), s.insert(name)),
    decreases q.len(),
{
    let r = with_name(q, name);
    if q.len() == 0 || lex_less(q.last(), name) {
        assert forall|a: int, b: int| 0 <= a < b < r.len() implies lex_less(
            #[trigger] r[a],
            #[trigger] r[b],
        ) by {
            if b == q.len() {
                if a < q.len() - 1 {
                    assert(lex_less(q[a], q[q.len() - 1]));
                    lex_less_transitive(q[a], q.last(), name);
                }
            } else {
                assert(lex_less(q[a], q[b]));
            }
        }
        assert forall|k: Seq<char>| #[trigger] r.contains(k) <==> s.insert(name).contains(k) by {
            vstd::seq_lib::lemma_seq_contains_after_push(q, name, k);
        }
    } else {
        let low = q.drop_last();
        let last = q.last();
        lemma_sorted_distinct(q);
        let t = s.remove(last);
        assert(q.contains(q[q.len() - 1]));
        assert(ranks(low, t)) by {
            assert forall|a: int, b: int| 0 <= a < b < low.len() implies lex_less(
                #[trigger] low[a],
                #[trigger] low[b],
            ) by {
                assert(lex_less(q[a], q[b]));
            }
            assert forall|k: Seq<char>| #[trigger] low.contains(k) <==> t.contains(k) by {
                assert(q =~= low.push(last));
                vstd::seq_lib::lemma_seq_contains_after_push(low, last, k);
                assert(q.contains(k) <==> s.contains(k));
                if low.contains(last) {
                    let z = choose|z: int| 0 <= z < low.len() && low[z] == last;
                    assert(q[z] == q[q.len() - 1]);
                }
            }
        }
        lemma_with_name(low, t, name);
        let m = with_name(low, name);
        lex_less_total(last, name);
        assert(last != name);
        assert forall|a: int, b: int| 0 <= a < b < r.len() implies lex_less(
            #[trigger] r[a],
            #[trigger] r[b],
        ) by {
            if b == m.len() {
                assert(m.contains(m[a]));
                if m[a] != name {
                    assert(t.contains(m[a]));
                    assert(low.contains(m[a]));
                    let z = choose|z: int| 0 <= z < low.len() && low[z] == m[a];
                    assert(lex_less(q[z], q[q.len() - 1]));
                }
            } else {
                assert(lex_less(m[a], m[b]));
            }
        }
        assert forall|k: Seq<char>| #[trigger] r.contains(k) <==> s.insert(name).contains(k) by {
            vstd::seq_lib::lemma_seq_contains_after_push(m, last, k);
            assert(m.contains(k) <==> t.insert(name).contains(k));
            assert(q.contains(last) <==> s.contains(last));
        }
    }
}

/// The names of a finite set can be listed in order.
pub proof fn lemma_ranked_exists(s: Set<Seq<char>>)
    requires
        s.finite(),
    ensures
        ranks(ranked(s), s),
    decreases s.len(),
{
    if s.len() == 0 {
        let none = Seq::<Seq<char>>::empty();
        assert(s =~= Set::<Seq<char>>::empty());
        assert(ranks(none, s));
    } else {
        let name = s.choose();
        let t = s.remove(name);
        lemma_ranked_exists(t);
        lemma_with_name(ranked(t), t, name);
        assert(t.insert(name) =~= s);
        assert(ranks(with_name(ranked(t), name), s));
    }
}

/// The set of names with one more name, in order.
fn insert_name(v: Vec<String>, name: &str, Ghost(s): Ghost<Set<Seq<char>>>) -> (r: Vec<String>)
    requires
        ranks(views(v@), s),
    ensures
        ranks(views(r@), s.insert(name@)),
{
    let mut v = v;
    let ghost before = views(v@);
    let mut i: usize = 0;
    while i < v.len() && less(&v[i], name)
        invariant
            i <= v.len(),
            before == views(v@),
            forall|j: int| 0 <= j < i ==> lex_less(#[trigger] before[j], name@),
        decreases v.len() - i,
    {
        assert(before[i as int] == v@[i as int]@);
        i += 1;
    }
    if i < v.len() && same(&v[i], name) {
        assert(before[i as int] == name@);
        assert(before.contains(name@));
        assert(s.insert(name@) =~= s);
        return v;
    }
    v.insert(i, name.to_owned());
    proof {
        let after = views(v@);
        assert(after =~= before.insert(i as int, name@));
        assert forall|a: int, b: int| 0 <= a < b < after.len() implies lex_less(
            #[trigger] after[a],
            #[trigger] after[b],
        ) by {
            if b < i {
                assert(lex_less(before[a], before[b]));
            } else if a > i {
                assert(lex_less(before[a - 1], before[b - 1]));
            } else if a < i && b > i {
                assert(lex_less(before[a], before[b - 1]));
            } else if b == i {
                assert(lex_less(before[a], name@));
            } else {
                let first = before[i as int];
                lex_less_total(first, name@);
                if b - 1 > i {
                    assert(lex_less(before[i as int], before[b - 1]));
                    lex_less_transitive(name@, first, before[b - 1]);
                }
            }
        }
        assert forall|k: Seq<char>| #[trigger] after.contains(k) <==> s.insert(name@).contains(
            k,
        ) by {
            if after.contains(k) {
                let j = choose|j: int| 0 <= j < after.len() && after[j] == k;
                if j < i {
                    assert(before[j] == k);
                } else if j > i {
                    assert(before[j - 1] == k);
                }
                if k != name@ {
                    assert(before.contains(k));
                }
            }
            if k == name@ {
                assert(after[i as int] == k);
            } else if s.contains(k) {
                assert(before.contains(k));
                let j = choose|j: int| 0 <= j < before.len() && before[j] == k;
                let j1 = if j < i { j } else { j + 1 };
                assert(after[j1] == k);
            }
        }
    }
    v
}

/// The names of a list in order, each once.
pub fn rank_names(v: &Vec<String>) -> (r: Vec<String>)
    ensures
        ranks(views(r@), views(v@).to_set()),
        views(r@) == ranked(views(v@).to_set()),
{
    let mut out: Vec<String> = Vec::new();
    let mut i: usize = 0;
    let ghost all = views(v@);
    assert(ranks(views(out@), all.take(0).to_set()));
    while i < v.len()
        invariant
            i <= v.len(),
            all == views(v@),
            ranks(views(out@), all.take(i as int).to_set()),
        decreases v.len() - i,
    {
        out = insert_name(out, &v[i], Ghost(all.take(i as int).to_set()));
        proof {
            all.take(i as int).lemma_push_to_set_commute(all[i as int]);
            assert(all.take(i + 1) =~= all.take(i as int).push(all[i as int]));
        }
        i += 1;
    }
    proof {
        assert(all.take(v.len() as int) =~= all);
        lemma_ranked(views(out@), all.to_set());
    }
    out
}

} // verus!
