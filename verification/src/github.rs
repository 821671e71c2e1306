//! What GitHub reports of pull requests and native stacks.

use crate::text::opt_view;
use vstd::prelude::*;

verus! {

/// A pull request.
#[derive(Debug)]
pub struct PrInfo {
    pub number: u64,
    pub url: String,
    pub state: String,
    pub title: String,
    pub base: String,
    pub is_draft: bool,
    pub merged: bool,
}

/// The contents of a `PrInfo`.
#[verifier::ext_equal]
pub struct PrView {
    pub number: u64,
    pub url: Seq<char>,
    pub state: Seq<char>,
    pub title: Seq<char>,
    pub base: Seq<char>,
    pub is_draft: bool,
    pub merged: bool,
}

impl View for PrInfo {
    type V = PrView;

    open spec fn view(&self) -> PrView {
        PrView {
            number: self.number,
            url: self.url@,
            state: self.state@,
            title: self.title@,
            base: self.base@,
            is_draft: self.is_draft,
            merged: self.merged,
        }
    }
}

impl PrInfo {
    /// A copy of the pull request.
    pub fn copy(&self) -> (r: PrInfo)
        ensures
            r == *self,
    {
        PrInfo {
            number: self.number,
            url: self.url.clone(),
            state: self.state.clone(),
            title: self.title.clone(),
            base: self.base.clone(),
            is_draft: self.is_draft,
            merged: self.merged,
        }
    }
}

/// A native stack, with its pull requests from the trunk up.
#[derive(Debug)]
pub struct NativeStackInfo {
    pub number: u64,
    pub base_ref: Option<String>,
    pub open: Option<bool>,
    pub pull_requests: Vec<u64>,
}

/// The native stack of a pull request, as far as GitHub tells.
#[derive(Debug)]
pub enum NativeStackLookup {
    Found(NativeStackInfo),
    NotLinked,
    Unavailable,
}

/// What came of linking a chain of pull requests.
#[derive(Debug)]
pub enum NativeStackOutcome {
    NotNeeded,
    Created { number: u64 },
    Extended { number: u64, added: usize },
    Unchanged { number: u64 },
    Repaired { previous_number: u64, number: u64 },
    Unavailable,
    NotApplicable { reason: String },
}

/// What came of asking for a merge.
#[derive(Clone, Copy, Debug, PartialEq, Eq, Structural)]
pub enum MergePrOutcome {
    Merged,
    Enqueued,
}

/// A copy of a list of numbers.
pub fn copy_numbers(v: &Vec<u64>) -> (r: Vec<u64>)
    ensures
        r@ == v@,
{
    let mut out: Vec<u64> = Vec::new();
    let mut i: usize = 0;
    while i < v.len()
        invariant
            i <= v.len(),
            out@ =~= v@.take(i as int),
        decreases v.len() - i,
    {
        out.push(v[i]);
        i += 1;
    }
    assert(out@ =~= v@);
    out
}

/// Whether two lists of numbers are equal.
pub fn same_numbers(a: &Vec<u64>, b: &Vec<u64>) -> (r: bool)
    ensures
        r == (a@ == b@),
{
    if a.len() != b.len() {
        return false;
    }
    let mut i: usize = 0;
    while i < a.len()
        invariant
            i <= a.len(),
            a.len() == b.len(),
            forall|j: int| 0 <= j < i ==> a@[j] == b@[j],
        decreases a.len() - i,
    {
        if a[i] != b[i] {
            return false;
        }
        i += 1;
    }
    assert(a@ =~= b@);
    true
}

/// The contents of a `NativeStackInfo`.
#[verifier::ext_equal]
pub struct StackInfoView {
    pub number: u64,
    pub base_ref: Option<Seq<char>>,
    pub open: Option<bool>,
    pub pull_requests: Seq<u64>,
}

impl View for NativeStackInfo {
    type V = StackInfoView;

    open spec fn view(&self) -> StackInfoView {
        StackInfoView {
            number: self.number,
            base_ref: opt_view(self.base_ref),
            open: self.open,
            pull_requests: self.pull_requests@,
        }
    }
}

/// The contents of a `NativeStackLookup`.
#[verifier::ext_equal]
pub enum LookupView {
    Found(StackInfoView),
    NotLinked,
    Unavailable,
}

impl View for NativeStackLookup {
    type V = LookupView;

    open spec fn view(&self) -> LookupView {
        match *self {
            NativeStackLookup::Found(info) => LookupView::Found(info@),
            NativeStackLookup::NotLinked => LookupView::NotLinked,
            NativeStackLookup::Unavailable => LookupView::Unavailable,
        }
    }
}

} // verus!
