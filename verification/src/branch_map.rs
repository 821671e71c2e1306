//! The recorded branches, kept in order of their names.

use crate::name_map::NameMap;
use crate::text::{copy_all, lex_less, same, sorted, views};
use vstd::prelude::*;

verus! {

/// How a commit outside a branch's scope is treated.
#[derive(Clone, Copy, Debug, PartialEq, Eq, Structural)]
pub enum ScopeMode {
    Warn,
    Strict,
}

/// What is recorded of a branch.
#[derive(Debug)]
pub struct BranchMeta {
    pub name: String,
    /// The branch that this one is stacked on.
    pub parent: String,
    /// The commit of the parent that this branch was last stacked on.
    pub parent_head: String,
    pub pr_number: Option<u64>,
    pub scope: Option<Vec<String>>,
    pub scope_mode: Option<ScopeMode>,
}

/// What is recorded of a branch beside its name.
#[verifier::ext_equal]
pub struct MetaView {
    pub parent: Seq<char>,
    pub parent_head: Seq<char>,
    pub pr_number: Option<u64>,
    pub scope: Option<Seq<Seq<char>>>,
    pub scope_mode: Option<ScopeMode>,
}

/// The character sequences of an optional list of strings.
pub open spec fn opt_views(s: Option<Vec<String>>) -> Option<Seq<Seq<char>>> {
    match s {
        Some(v) => Some(views(v@)),
        None => None,
    }
}

/// A copy of an optional list of strings.
pub fn copy_opt_all(s: &Option<Vec<String>>) -> (r: Option<Vec<String>>)
    ensures
        opt_views(r) == opt_views(*s),
{
    match s {
        Some(v) => Some(copy_all(v)),
        None => None,
    }
}

impl View for BranchMeta {
    type V = MetaView;

    open spec fn view(&self) -> MetaView {
        MetaView {
            parent: self.parent@,
            parent_head: self.parent_head@,
            pr_number: self.pr_number,
            scope: opt_views(self.scope),
            scope_mode: self.scope_mode,
        }
    }
}

impl BranchMeta {
    /// The mode that applies to the branch's scope: warnings, unless recorded otherwise.
    pub fn effective_scope_mode(&self) -> (r: ScopeMode)
        ensures
            r == self@.effective_scope_mode(),
    {
        match self.scope_mode {
            Some(mode) => mode,
            None => ScopeMode::Warn,
        }
    }

    /// A copy of the record.
    pub fn copy(&self) -> (r: BranchMeta)
        ensures
            r@ == self@,
            r.name@ == self.name@,
    {
        BranchMeta {
            name: self.name.clone(),
            parent: self.parent.clone(),
            parent_head: self.parent_head.clone(),
            pr_number: self.pr_number,
            scope: copy_opt_all(&self.scope),
            scope_mode: self.scope_mode,
        }
    }
}

impl MetaView {
    pub open spec fn effective_scope_mode(self) -> ScopeMode {
        match self.scope_mode {
            Some(mode) => mode,
            None => ScopeMode::Warn,
        }
    }
}

/// Whether `c` is a recorded branch stacked directly on `p`.
pub open spec fn is_child(m: Map<Seq<char>, MetaView>, p: Seq<char>, c: Seq<char>) -> bool {
    m.contains_key(c) && m[c].parent == p
}

/// The recorded branches by name.
#[derive(Debug)]
pub struct BranchMap {
    records: NameMap<BranchMeta>,
}

/// The contents of records by name.
spec fn contents(m: Map<Seq<char>, BranchMeta>) -> Map<Seq<char>, MetaView> {
    Map::new(|k: Seq<char>| m.contains_key(k), |k: Seq<char>| m[k]@)
}

impl View for BranchMap {
    type V = Map<Seq<char>, MetaView>;

    closed spec fn view(&self) -> Map<Seq<char>, MetaView> {
        contents(self.records@)
    }
}

impl BranchMap {
    #[verifier::type_invariant]
    spec fn filed_by_name(self) -> bool {
        forall|k: Seq<char>| #[trigger]
            self.records@.contains_key(k) ==> self.records@[k].name@ == k
    }

    /// No branches.
    pub fn new() -> (r: BranchMap)
        ensures
            r@ == Map::<Seq<char>, MetaView>::empty(),
    {
        let r = BranchMap { records: NameMap::new() };
        assert(r@ =~= Map::<Seq<char>, MetaView>::empty());
        r
    }

    /// The number of branches.
    pub fn len(&self) -> (r: usize)
        ensures
            r == self@.len(),
            self@.dom().finite(),
    {
        assert(self@.dom() =~= self.records@.dom());
        self.records.len()
    }

    /// The record of a branch.
    pub fn get(&self, name: &str) -> (r: Option<&BranchMeta>)
        ensures
            r is Some == self@.contains_key(name@),
            r matches Some(m) ==> m@ == self@[name@] && m.name@ == name@,
    {
        proof {
            use_type_invariant(self);
        }
        self.records.get(name)
    }

    /// Whether a branch is recorded.
    pub fn contains_key(&self, name: &str) -> (r: bool)
        ensures
            r == self@.contains_key(name@),
    {
        self.records.contains_key(name)
    }

    /// The names of the branches, in order.
    pub fn keys(&self) -> (r: Vec<String>)
        ensures
            sorted(views(r@)),
            self@.dom().finite(),
            forall|k: Seq<char>| #[trigger]
                views(r@).contains(k) <==> self@.contains_key(k),
            r.len() == self@.len(),
    {
        assert(self@.dom() =~= self.records@.dom());
        self.records.keys()
    }

    /// The names of the branches whose parent is `parent`, in order.
    pub fn children(&self, parent: &str) -> (r: Vec<String>)
        ensures
            sorted(views(r@)),
            forall|k: Seq<char>| #[trigger]
                views(r@).contains(k) <==> is_child(self@, parent@, k),
    {
        let ghost m = self@;
        let keys: Vec<String> = self.keys();
        let ghost names = views(keys@);
        let mut out: Vec<String> = Vec::new();
        let mut i: usize = 0;
        while i < keys.len()
            invariant
                i <= keys.len(),
                m == self@,
                names == views(keys@),
                sorted(names),
                sorted(views(out@)),
                forall|k: Seq<char>| #[trigger]
                    views(out@).contains(k) <==> names.take(i as int).contains(k) && is_child(
                        m,
                        parent@,
                        k,
                    ),
            decreases keys.len() - i,
        {
            let ghost name = names[i as int];
            let ghost low = names.take(i as int);
            assert(name == keys@[i as int]@);
            assert(names.take(i + 1) =~= low.push(name));
            let child: bool = match self.get(&keys[i]) {
                Some(meta) => same(&meta.parent, parent),
                None => false,
            };
            assert(child == is_child(m, parent@, name));
            let ghost held = views(out@);
            if child {
                out.push(keys[i].clone());
            }
            proof {
                let now = views(out@);
                if child {
                    assert(now =~= held.push(name));
                    assert forall|a: int, b: int| 0 <= a < b < now.len() implies lex_less(
                        #[trigger] now[a],
                        #[trigger] now[b],
                    ) by {
                        if b == held.len() {
                            assert(held.contains(held[a]));
                            let z = choose|z: int| 0 <= z < low.len() && low[z] == held[a];
                            assert(lex_less(names[z], names[i as int]));
                        } else {
                            assert(lex_less(held[a], held[b]));
                        }
                    }
                }
                assert forall|k: Seq<char>| #[trigger]
                    now.contains(k) <==> names.take(i + 1).contains(k) && is_child(
                        m,
                        parent@,
                        k,
                    ) by {
                    vstd::seq_lib::lemma_seq_contains_after_push(low, name, k);
                    vstd::seq_lib::lemma_seq_contains_after_push(held, name, k);
                }
            }
            i += 1;
        }
        proof {
            assert(names.take(keys.len() as int) =~= names);
            assert forall|k: Seq<char>| #[trigger]
                views(out@).contains(k) <==> is_child(m, parent@, k) by {
                assert(names.contains(k) <==> m.contains_key(k));
            }
        }
        out
    }

    /// Records a branch in place of any record of the same name.
    pub fn insert(&mut self, meta: BranchMeta)
        ensures
            final(self)@ == old(self)@.insert(meta.name@, meta@),
    {
        proof {
            use_type_invariant(&*self);
        }
        let ghost before = self@;
        let ghost name = meta.name@;
        let ghost view = meta@;
        let mut records: NameMap<BranchMeta> = NameMap::new();
        std::mem::swap(&mut records, &mut self.records);
        let key: String = meta.name.clone();
        records.insert(key, meta);
        self.records = records;
        assert(self@ =~= before.insert(name, view));
    }

    /// Drops the record of a branch.
    pub fn remove(&mut self, name: &str)
        ensures
            final(self)@ == old(self)@.remove(name@),
    {
        proof {
            use_type_invariant(&*self);
        }
        let ghost before = self@;
        let mut records: NameMap<BranchMeta> = NameMap::new();
        std::mem::swap(&mut records, &mut self.records);
        records.remove(name);
        self.records = records;
        assert(self@ =~= before.remove(name@));
    }

    /// A copy of the map.
    pub fn copy(&self) -> (r: BranchMap)
        ensures
            r@ == self@,
    {
        let keys: Vec<String> = self.keys();
        let ghost names = views(keys@);
        let mut out: BranchMap = BranchMap::new();
        let mut i: usize = 0;
        while i < keys.len()
            invariant
                i <= keys.len(),
                names == views(keys@),
                forall|k: Seq<char>| #[trigger] names.contains(k) <==> self@.contains_key(k),
                forall|k: Seq<char>| #[trigger]
                    out@.contains_key(k) <==> names.take(i as int).contains(k),
                forall|k: Seq<char>| #[trigger] out@.contains_key(k) ==> out@[k] == self@[k],
            decreases keys.len() - i,
        {
            let ghost name = names[i as int];
            assert(name == keys@[i as int]@);
            assert(names.contains(name));
            assert(names.take(i + 1) =~= names.take(i as int).push(name));
            let ghost held = out@;
            if let Some(meta) = self.get(&keys[i]) {
                out.insert(meta.copy());
            }
            proof {
                assert forall|k: Seq<char>| #[trigger] out@.contains_key(k) <==> names.take(
                    i + 1,
                ).contains(k) by {
                    vstd::seq_lib::lemma_seq_contains_after_push(names.take(i as int), name, k);
                    assert(held.contains_key(k) <==> names.take(i as int).contains(k));
                }
            }
            i += 1;
        }
        proof {
            assert(names.take(keys.len() as int) =~= names);
            assert forall|k: Seq<char>| out@.contains_key(k) == self@.contains_key(k) by {
                assert(out@.contains_key(k) <==> names.contains(k));
            }
            assert(out@ =~= self@);
        }
        out
    }
}

} // verus!
