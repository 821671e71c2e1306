//! Bringing GitHub's native stacks in line with the local chains.

use crate::cmd::native_stack::{
    chain_views, error_receipt_value, fork_reason, linkable, linkable_chains, native_stack_plan,
    outcome_receipt, plans, receipt_value, skipped_views, ChainView, NativeStackChain, NativeStackPlan, SkippedView,
};
use crate::cmd::restack::receipt_views;
use crate::cmd::sync::{skipped_component_receipt, skipped_receipt_for};
use crate::github::{copy_numbers, NativeStackOutcome};
use crate::json::{no_fields, number_list, text_list, Json, JsonView};
use crate::stack::{StackState, StackView};
use crate::text::{copy_all, opt_view, views};
use vstd::prelude::*;
use vstd::string::*;

verus! {

/// The answer to a request to link a chain.
#[derive(Debug)]
pub enum LinkReply {
    Linked(NativeStackOutcome),
    Failed(String),
}

/// The contents of a `NativeSync`.
#[verifier::ext_equal]
pub struct NativeSyncView {
    /// The command that does the work.
    pub cmd: Seq<char>,
    /// The chains to be linked.
    pub chains: Seq<ChainView>,
    /// Whether existing stacks may be dissolved and made anew.
    pub repair: bool,
    /// The chain in work.
    pub at: int,
    pub receipts: Seq<JsonView>,
    /// Why a repair stopped, if it did.
    pub error: Option<Seq<char>>,
}

/// The receipt for a chain that could not be linked.
pub open spec fn link_error_receipt(
    cmd: Seq<char>,
    chain: ChainView,
    text: Seq<char>,
) -> JsonView {
    JsonView::Object(
        no_fields().insert("cmd"@, JsonView::Text(cmd)).insert(
            "branches"@,
            text_list(chain.branches),
        ).insert("pull_requests"@, number_list(chain.pr_numbers)).insert(
            "native_stack_action"@,
            JsonView::Text("error"@),
        ).insert("native_stack_error"@, JsonView::Text(text)),
    )
}

impl NativeSyncView {
    /// Whether there is nothing more to be linked.
    pub open spec fn finished(self) -> bool {
        self.at >= self.chains.len() || self.error is Some
    }

    /// The work after a reply. The first failure ends a repair; otherwise a chain that cannot be
    /// linked is passed over.
    pub open spec fn step(self, reply: LinkReply) -> NativeSyncView {
        if self.finished() {
            self
        } else {
            let chain = self.chains[self.at];
            match reply {
                LinkReply::Linked(o) => NativeSyncView {
                    receipts: self.receipts.push(
                        outcome_receipt(self.cmd, chain.branches, chain.pr_numbers, o),
                    ),
                    at: self.at + 1,
                    ..self
                },
                LinkReply::Failed(t) => NativeSyncView {
                    receipts: self.receipts.push(link_error_receipt(self.cmd, chain, t@)),
                    error: if self.repair {
                        Some(t@)
                    } else {
                        None
                    },
                    at: self.at + 1,
                    ..self
                },
            }
        }
    }
}

/// The receipts for the components that cannot be linked.
pub open spec fn skipped_receipts(cmd: Seq<char>, s: Seq<SkippedView>) -> Seq<JsonView> {
    s.map_values(|c: SkippedView| skipped_receipt_for(cmd, c))
}

/// The receipt where native stacks do not apply.
pub open spec fn not_applicable_receipt(cmd: Seq<char>, reason: Seq<char>) -> JsonView {
    JsonView::Object(
        no_fields().insert("cmd"@, JsonView::Text(cmd)).insert(
            "native_stack_action"@,
            JsonView::Text("not_applicable"@),
        ).insert("native_stack_reason"@, JsonView::Text(reason)),
    )
}

/// Whether `v` is the start of the work on a stack.
pub open spec fn starts(s: StackView, cmd: Seq<char>, repair: bool, v: NativeSyncView) -> bool {
    &&& v.cmd == cmd
    &&& v.at == 0
    &&& v.repair == repair
    &&& v.error is None
    &&& if s.is_fork_workflow() {
        &&& v.chains.len() == 0
        &&& v.receipts == seq![not_applicable_receipt(cmd, fork_reason())]
    } else {
        exists|plan: NativeStackPlan|
            #[trigger] plans(s, plan) && {
                let skipped = skipped_views(plan.skipped@);
                &&& v.chains == linkable(chain_views(plan.chains@))
                &&& v.receipts == if v.chains.len() == 0 && skipped.len() == 0 {
                    seq![
                        outcome_receipt(
                            cmd,
                            Seq::empty(),
                            Seq::empty(),
                            NativeStackOutcome::NotNeeded,
                        ),
                    ]
                } else {
                    skipped_receipts(cmd, skipped)
                }
            }
    }
}

/// Work on GitHub's native stacks in progress.
#[derive(Debug)]
pub struct NativeSync {
    cmd: String,
    chains: Vec<NativeStackChain>,
    repair: bool,
    at: usize,
    receipts: Vec<Json>,
    error: Option<String>,
}

impl View for NativeSync {
    type V = NativeSyncView;

    closed spec fn view(&self) -> NativeSyncView {
        NativeSyncView {
            cmd: self.cmd@,
            chains: chain_views(self.chains@),
            repair: self.repair,
            at: self.at as int,
            receipts: receipt_views(self.receipts@),
            error: opt_view(self.error),
        }
    }
}

fn long_chains(plan: &NativeStackPlan) -> (r: Vec<NativeStackChain>)
    ensures
        chain_views(r@) == linkable(chain_views(plan.chains@)),
{
    let all: Vec<&NativeStackChain> = linkable_chains(plan);
    let mut out: Vec<NativeStackChain> = Vec::new();
    let mut i: usize = 0;
    while i < all.len()
        invariant
            i <= all.len(),
            out.len() == i,
            forall|j: int| 0 <= j < i ==> (#[trigger] out@[j])@ == all@[j]@,
        decreases all.len() - i,
    {
        let chain: &NativeStackChain = all[i];
        out.push(
            NativeStackChain {
                branches: copy_all(&chain.branches),
                pr_numbers: copy_numbers(&chain.pr_numbers),
            },
        );
        i += 1;
    }
    assert(chain_views(out@) =~= Seq::new(all@.len(), |j: int| all@[j]@));
    out
}

impl NativeSync {
    /// Starts the work on a stack: the chains to be linked, and receipts for what cannot be.
    pub fn begin(state: &StackState, cmd: &str, repair_native_stack: bool) -> (r: NativeSync)
        ensures
            starts(state@, cmd@, repair_native_stack, r@),
    {
        let none: Vec<String> = Vec::new();
        let no_numbers: Vec<u64> = Vec::new();
        assert(views(none@) =~= Seq::<Seq<char>>::empty());
        assert(no_numbers@ =~= Seq::<u64>::empty());
        let mut receipts: Vec<Json> = Vec::new();
        if state.is_fork_workflow() {
            let text: &str =
                "GitHub native stacks require pull requests in one repository; fork/cross-repository workflows keep the ez stack local";
            let reason: String = text.to_owned();
            let outcome = NativeStackOutcome::NotApplicable { reason };
            receipts.push(receipt_value(cmd, &none, &no_numbers, &outcome));
            let r = NativeSync {
                cmd: cmd.to_owned(),
                chains: Vec::new(),
                repair: repair_native_stack,
                at: 0,
                receipts,
                error: None,
            };
            assert(r@.receipts =~= seq![not_applicable_receipt(cmd@, fork_reason())]);
            return r;
        }
        let plan: NativeStackPlan = native_stack_plan(state);
        let ghost skipped = skipped_views(plan.skipped@);
        let chains: Vec<NativeStackChain> = long_chains(&plan);
        let mut i: usize = 0;
        assert(receipt_views(receipts@) =~= skipped_receipts(cmd@, skipped.take(0)));
        while i < plan.skipped.len()
            invariant
                i <= plan.skipped.len(),
                skipped == skipped_views(plan.skipped@),
                receipt_views(receipts@) == skipped_receipts(cmd@, skipped.take(i as int)),
            decreases plan.skipped.len() - i,
        {
            let ghost held = receipt_views(receipts@);
            let entry: Json = skipped_component_receipt(cmd, &plan.skipped[i]);
            let ghost j = entry@;
            receipts.push(entry);
            proof {
                assert(receipt_views(receipts@) =~= held.push(j));
                assert(skipped_receipts(cmd@, skipped.take(i + 1)) =~= held.push(j));
            }
            i += 1;
        }
        assert(skipped.take(plan.skipped.len() as int) =~= skipped);
        assert(chain_views(chains@).len() == chains.len());
        if chains.len() == 0 && plan.skipped.len() == 0 {
            receipts.push(
                receipt_value(cmd, &none, &no_numbers, &NativeStackOutcome::NotNeeded),
            );
            assert(receipt_views(receipts@) =~= seq![
                outcome_receipt(
                    cmd@,
                    Seq::empty(),
                    Seq::empty(),
                    NativeStackOutcome::NotNeeded,
                ),
            ]);
        }
        assert(plans(state@, plan));
        NativeSync {
            cmd: cmd.to_owned(),
            chains,
            repair: repair_native_stack,
            at: 0,
            receipts,
            error: None,
        }
    }

    /// The pull requests to be linked next, if any.
    pub fn next_chain(&self) -> (r: Option<&NativeStackChain>)
        ensures
            match r {
                Some(c) => !self@.finished() && self@.at >= 0 && c@ == self@.chains[self@.at],
                None => self@.finished(),
            },
    {
        if self.at < self.chains.len() && self.error.is_none() {
            Some(&self.chains[self.at])
        } else {
            None
        }
    }

    /// The work after a reply to the request to link the next chain.
    pub fn step(self, reply: LinkReply) -> (r: NativeSync)
        ensures
            r@ == self@.step(reply),
    {
        let ghost v = self@;
        let mut s = self;
        if s.at >= s.chains.len() || s.error.is_some() {
            return s;
        }
        let ghost held = receipt_views(s.receipts@);
        assert(v.chains[s.at as int] == s.chains@[s.at as int]@);
        match reply {
            LinkReply::Linked(o) => {
                let entry: Json = receipt_value(
                    &s.cmd,
                    &s.chains[s.at].branches,
                    &s.chains[s.at].pr_numbers,
                    &o,
                );
                let ghost j = entry@;
                s.receipts.push(entry);
                assert(receipt_views(s.receipts@) =~= held.push(j));
            },
            LinkReply::Failed(t) => {
                let entry: Json = error_receipt_value(
                    &s.cmd,
                    &s.chains[s.at].branches,
                    &s.chains[s.at].pr_numbers,
                    &t,
                );
                let ghost j = entry@;
                s.receipts.push(entry);
                assert(receipt_views(s.receipts@) =~= held.push(j));
                if s.repair {
                    s.error = Some(t);
                }
            },
        }
        s.at = s.at + 1;
        s
    }

    /// The receipts, and why a repair stopped, if it did.
    pub fn finish(self) -> (r: (Vec<Json>, Option<String>))
        ensures
            receipt_views(r.0@) == self@.receipts,
            opt_view(r.1) == self@.error,
    {
        (self.receipts, self.error)
    }
}

/// Chains are linked one after another, each with a receipt; a failure stops the rest exactly
/// where a repair was asked for.
pub proof fn law_failed_link_stops_only_a_repair(v: NativeSyncView, t: String)
    requires
        0 <= v.at < v.chains.len(),
        v.error is None,
    ensures
        forall|o: NativeStackOutcome|
            ({
                let w = #[trigger] v.step(LinkReply::Linked(o));
                &&& w.at == v.at + 1
                &&& w.error is None
                &&& w.receipts.len() == v.receipts.len() + 1
                &&& w.chains == v.chains
            }),
        ({
            let w = v.step(LinkReply::Failed(t));
            &&& w.at == v.at + 1
            &&& w.receipts.len() == v.receipts.len() + 1
            &&& v.repair ==> w.error == Some(t@) && w.finished()
            &&& !v.repair ==> w.error is None
            &&& !v.repair && v.at + 1 < v.chains.len() ==> !w.finished()
        }),
{
}

/// In a fork workflow nothing is linked, and that is told; elsewhere only chains of at least two
/// pull requests are, from the first on.
pub proof fn law_only_linkable_chains_are_linked(
    s: StackView,
    cmd: Seq<char>,
    repair: bool,
    v: NativeSyncView,
)
    requires
        starts(s, cmd, repair, v),
    ensures
        v.cmd == cmd,
        v.repair == repair,
        v.at == 0,
        v.error is None,
        s.is_fork_workflow() ==> v.chains.len() == 0 && v.receipts.len() == 1 && v.finished(),
        forall|i: int| 0 <= i < v.chains.len() ==> (#[trigger] v.chains[i]).pr_numbers.len() >= 2,
{
    if !s.is_fork_workflow() {
        let plan = choose|plan: NativeStackPlan|
            #[trigger] plans(s, plan) && v.chains == linkable(chain_views(plan.chains@));
        let keep = |c: ChainView| c.pr_numbers.len() >= 2;
        assert forall|i: int| 0 <= i < v.chains.len() implies (#[trigger] v.chains[i]).pr_numbers.len()
            >= 2 by {
            chain_views(plan.chains@).lemma_filter_pred(keep, i);
        }
    }
}

} // verus!
