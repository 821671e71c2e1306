//! Moving a branch onto another parent.

use crate::branch_map::MetaView;
use crate::error::{ErrorView, EzError};
use crate::cmd::preflight::{BranchPreflight, RebasePreflight};
use crate::github::{LookupView, NativeStackInfo, NativeStackLookup, StackInfoView};
use crate::json::{no_fields, Json, JsonObject, JsonView};
use crate::stack::{topo, StackState, StackView};
use crate::text::{holds, opt_view, same, trim, trimmed, views};
use vstd::prelude::*;
use vstd::string::*;

verus! {

/// The names of `s`, each on a line of its own as an entry of a list.
pub open spec fn listing(s: Seq<Seq<char>>) -> Seq<char>
    decreases s.len(),
{
    if s.len() == 0 {
        Seq::empty()
    } else {
        listing(s.drop_last()) + "  - "@ + s.last() + "\n"@
    }
}

/// What is said where no target was given: the trunk and every branch on it.
pub open spec fn missing_text(s: StackView) -> Seq<char> {
    "Missing target branch for `ez move --onto`\n"@ + "Available branches:\n"@ + "  - "@ + s.trunk
        + " (trunk)"@ + "\n"@ + listing(topo(s.branches, s.trunk))
        + "  -> Run: `ez move --onto <branch>`"@
}

/// What is said where no target was given.
pub fn missing_onto_message(state: &StackState) -> (r: String)
    ensures
        r@ == missing_text(state@),
{
    let order: Vec<String> = state.topo_order();
    let ghost all = views(order@);
    let head: String = String::from_str("Missing target branch for `ez move --onto`\n").concat(
        "Available branches:\n",
    ).concat("  - ").concat(&state.trunk).concat(" (trunk)").concat("\n");
    let mut list: String = String::new();
    let mut i: usize = 0;
    assert(all.take(0) =~= Seq::<Seq<char>>::empty());
    while i < order.len()
        invariant
            i <= order.len(),
            all == views(order@),
            list@ == listing(all.take(i as int)),
        decreases order.len() - i,
    {
        assert(all.take(i + 1).drop_last() =~= all.take(i as int));
        assert(all.take(i + 1).last() == order@[i as int]@);
        list.append("  - ");
        list.append(&order[i]);
        list.append("\n");
        i += 1;
    }
    assert(all.take(order.len() as int) =~= all);
    head.concat(&list).concat("  -> Run: `ez move --onto <branch>`")
}

/// Why `current` cannot be moved onto `onto`, if so.
pub open spec fn move_fault(
    s: StackView,
    current: Seq<char>,
    onto: Option<Seq<char>>,
) -> Option<ErrorView> {
    if onto is None || trimmed(onto->0).len() == 0 {
        Some(ErrorView::UserMessage(missing_text(s)))
    } else if current == s.trunk {
        Some(ErrorView::OnTrunk)
    } else if !s.managed(current) {
        Some(ErrorView::BranchNotInStack(current))
    } else if onto->0 != s.trunk && !s.managed(onto->0) {
        Some(
            ErrorView::UserMessage(
                "Target branch `"@ + onto->0 + "` is not trunk or a managed branch"@,
            ),
        )
    } else if onto->0 == current {
        Some(ErrorView::UserMessage("Cannot move a branch onto itself"@))
    } else if s.path_to_trunk(onto->0).contains(current) {
        Some(
            ErrorView::UserMessage(
                "Cannot move `"@ + current + "` onto `"@ + onto->0 + "` — `"@ + onto->0
                    + "` is a descendant of `"@ + current + "`"@,
            ),
        )
    } else {
        None
    }
}

/// Whether `current` can be moved, and onto what: the trunk or a recorded branch that does not
/// stand on `current`.
pub fn run(state: &StackState, current: &str, onto: Option<String>) -> (r: Result<String, EzError>)
    ensures
        match r {
            Ok(target) => move_fault(state@, current@, opt_view(onto)) is None && Some(target@)
                == opt_view(onto),
            Err(e) => move_fault(state@, current@, opt_view(onto)) == Some(e@),
        },
{
    let onto: String = match onto {
        Some(name) => {
            if trim(&name).is_empty() {
                return Err(EzError::UserMessage(missing_onto_message(state)));
            }
            name
        },
        None => {
            return Err(EzError::UserMessage(missing_onto_message(state)));
        },
    };
    if state.is_trunk(current) {
        return Err(EzError::OnTrunk);
    }
    if !state.is_managed(current) {
        return Err(EzError::BranchNotInStack(current.to_owned()));
    }
    if !state.is_trunk(&onto) && !state.is_managed(&onto) {
        return Err(
            EzError::UserMessage(
                String::from_str("Target branch `").concat(&onto).concat(
                    "` is not trunk or a managed branch",
                ),
            ),
        );
    }
    if same(&onto, current) {
        return Err(EzError::UserMessage(String::from_str("Cannot move a branch onto itself")));
    }
    let path: Vec<String> = state.path_to_trunk(&onto);
    if holds(&path, current) {
        return Err(
            EzError::UserMessage(
                String::from_str("Cannot move `").concat(current).concat("` onto `").concat(
                    &onto,
                ).concat("` — `").concat(&onto).concat("` is a descendant of `").concat(
                    current,
                ).concat("`"),
            ),
        );
    }
    Ok(onto)
}

/// The native stack that a pull request belongs to, as far as it matters to a move: a lookup
/// that failed counts as none, and so does any in a fork workflow.
pub open spec fn native_before(
    s: StackView,
    pr: Option<u64>,
    lookup: Result<LookupView, Seq<char>>,
) -> Option<crate::github::StackInfoView> {
    if pr is None || s.is_fork_workflow() {
        None
    } else {
        match lookup {
            Ok(LookupView::Found(info)) => Some(info),
            _ => None,
        }
    }
}

/// The native stack that a pull request belongs to, as far as it matters to a move.
pub fn detect_native_stack(
    state: &StackState,
    pr_number: Option<u64>,
    lookup: Result<NativeStackLookup, String>,
) -> (r: Option<NativeStackInfo>)
    ensures
        (match r {
            Some(info) => Some(info@),
            None => None,
        }) == native_before(
            state@,
            pr_number,
            crate::cmd::native_stack::lookup_view(lookup),
        ),
{
    if pr_number.is_none() || state.is_fork_workflow() {
        return None;
    }
    match lookup {
        Ok(NativeStackLookup::Found(info)) => Some(info),
        _ => None,
    }
}

/// What is to be done about the base of a moved branch's pull request.
#[derive(Clone, Copy, Debug, PartialEq, Eq, Structural)]
pub enum PrBasePlan {
    /// There is no pull request.
    NoPr,
    /// Set its base to the new parent.
    Update(u64),
    /// Its native stack is restructured, which moves the base.
    Defer,
}

/// What is to be done about the base of a moved branch's pull request: GitHub refuses to change
/// it while the pull request is in a native stack.
pub fn plan_pr_base(pr_number: Option<u64>, in_native_stack: bool) -> (r: PrBasePlan)
    ensures
        r == match pr_number {
            None => PrBasePlan::NoPr,
            Some(n) => if in_native_stack {
                PrBasePlan::Defer
            } else {
                PrBasePlan::Update(n)
            },
        },
{
    match pr_number {
        None => PrBasePlan::NoPr,
        Some(n) => if in_native_stack {
            PrBasePlan::Defer
        } else {
            PrBasePlan::Update(n)
        },
    }
}

/// What happened to the base of a moved branch's pull request.
#[derive(Debug)]
pub enum PrBaseOutcome {
    NoPr,
    Updated,
    Failed(String),
    DeferredToNativeStack,
}

/// What a receipt says of the base of a moved branch's pull request.
pub open spec fn pr_base_view(o: PrBaseOutcome) -> JsonView {
    match o {
        PrBaseOutcome::NoPr => JsonView::Null,
        PrBaseOutcome::Updated => JsonView::Text("updated"@),
        PrBaseOutcome::Failed(detail) => JsonView::Object(
            no_fields().insert("status"@, JsonView::Text("failed"@)).insert(
                "detail"@,
                JsonView::Text(detail@),
            ),
        ),
        PrBaseOutcome::DeferredToNativeStack => JsonView::Text("deferred_to_native_stack"@),
    }
}

impl PrBaseOutcome {
    /// What a receipt says of the base of a moved branch's pull request.
    pub fn receipt_value(&self) -> (r: Json)
        ensures
            r@ == pr_base_view(*self),
    {
        match self {
            PrBaseOutcome::NoPr => Json::Null,
            PrBaseOutcome::Updated => Json::text("updated"),
            PrBaseOutcome::Failed(detail) => JsonObject::new().field(
                "status",
                Json::text("failed"),
            ).field("detail", Json::text(detail)).done(),
            PrBaseOutcome::DeferredToNativeStack => Json::text("deferred_to_native_stack"),
        }
    }
}

/// How a branch is moved onto its new parent.
#[derive(Clone, Copy, Debug, PartialEq, Eq, Structural)]
pub enum MoveMethod {
    /// It is set onto the tip of the new parent, which already holds all its commits.
    Align,
    /// Its commits are replayed.
    Rebase,
}

/// How a branch is moved onto its new parent: only where there is something to replay is it
/// replayed.
pub fn move_method(own: &BranchPreflight) -> (r: MoveMethod)
    ensures
        r == if own@.all_redundant() {
            MoveMethod::Align
        } else {
            MoveMethod::Rebase
        },
{
    if own.all_redundant() {
        MoveMethod::Align
    } else {
        MoveMethod::Rebase
    }
}

/// Whether entry `i` is the first for a branch.
pub open spec fn first_for(s: Seq<BranchPreflight>, branch: Seq<char>, i: int) -> bool {
    &&& 0 <= i < s.len()
    &&& s[i]@.branch == branch
    &&& forall|j: int| 0 <= j < i ==> (#[trigger] s[j])@.branch != branch
}

/// What a preflight found of a branch.
pub fn own_preflight<'a>(preflight: &'a RebasePreflight, branch: &str) -> (r: Option<
    &'a BranchPreflight,
>)
    ensures
        match r {
            Some(p) => exists|i: int| #[trigger]
                first_for(preflight.branches@, branch@, i) && *p == preflight.branches@[i],
            None => forall|i: int|
                0 <= i < preflight.branches@.len() ==> (#[trigger] preflight.branches@[i])@.branch
                    != branch@,
        },
{
    let mut i: usize = 0;
    while i < preflight.branches.len()
        invariant
            i <= preflight.branches.len(),
            forall|j: int|
                0 <= j < i ==> (#[trigger] preflight.branches@[j])@.branch != branch@,
        decreases preflight.branches.len() - i,
    {
        if same(&preflight.branches[i].branch, branch) {
            assert(first_for(preflight.branches@, branch@, i as int));
            return Some(&preflight.branches[i]);
        }
        i += 1;
    }
    None
}

/// Records the moved branch on the tip of its new parent.
pub fn record_move(state: &mut StackState, current: &str, onto: &str, new_parent_head: &str) -> (r:
    Result<(), EzError>)
    ensures
        match r {
            Ok(_) => old(state)@.managed(current@) && final(state)@ == old(state)@.with_branches(
                old(state)@.branches.insert(
                    current@,
                    MetaView {
                        parent: onto@,
                        parent_head: new_parent_head@,
                        ..old(state)@.branches[current@]
                    },
                ),
            ),
            Err(e) => !old(state)@.managed(current@) && final(state)@ == old(state)@ && e@
                == ErrorView::BranchNotInStack(current@),
        },
{
    state.set_parent(current, onto, new_parent_head)
}

/// What a receipt says of the native stack that a pull request belongs to.
pub open spec fn native_receipt(info: Option<StackInfoView>) -> JsonView {
    match info {
        Some(i) => JsonView::Object(
            no_fields().insert("number"@, JsonView::Number(i.number)).insert(
                "size"@,
                JsonView::Number(i.pull_requests.len() as u64),
            ),
        ),
        None => JsonView::Null,
    }
}

/// The contents of an optional native stack.
pub open spec fn info_view(info: Option<NativeStackInfo>) -> Option<StackInfoView> {
    match info {
        Some(i) => Some(i@),
        None => None,
    }
}

/// The receipt for a move.
pub open spec fn moved_receipt(
    branch: Seq<char>,
    from: Seq<char>,
    onto: Seq<char>,
    restacked: nat,
    pr_base: JsonView,
    native: Option<StackInfoView>,
) -> JsonView {
    JsonView::Object(
        no_fields().insert("cmd"@, JsonView::Text("move"@)).insert(
            "branch"@,
            JsonView::Text(branch),
        ).insert("from"@, JsonView::Text(from)).insert("onto"@, JsonView::Text(onto)).insert(
            "local"@,
            JsonView::Text("moved"@),
        ).insert("restacked"@, JsonView::Number(restacked as u64)).insert(
            "pr_base"@,
            pr_base,
        ).insert("native_stack_before"@, native_receipt(native)),
    )
}

/// The receipt for a move.
pub fn move_receipt(
    branch: &str,
    from: &str,
    onto: &str,
    restacked: usize,
    pr_base: &PrBaseOutcome,
    native_stack_before: &Option<NativeStackInfo>,
) -> (r: Json)
    ensures
        r@ == moved_receipt(
            branch@,
            from@,
            onto@,
            restacked as nat,
            pr_base_view(*pr_base),
            info_view(*native_stack_before),
        ),
{
    let native: Json = match native_stack_before {
        Some(i) => JsonObject::new().field("number", Json::Number(i.number)).field(
            "size",
            Json::count(i.pull_requests.len()),
        ).done(),
        None => Json::Null,
    };
    JsonObject::new().field("cmd", Json::text("move")).field("branch", Json::text(branch)).field(
        "from",
        Json::text(from),
    ).field("onto", Json::text(onto)).field("local", Json::text("moved")).field(
        "restacked",
        Json::count(restacked),
    ).field("pr_base", pr_base.receipt_value()).field("native_stack_before", native).done()
}

/// A move that is allowed makes no cycle: where every branch stands on the trunk, every branch
/// still does after it.
pub proof fn law_move_makes_no_cycle(
    s: StackView,
    current: Seq<char>,
    onto: Seq<char>,
    head: Seq<char>,
)
    requires
        s.branches.dom().finite(),
        s.grounded(),
        move_fault(s, current, Some(onto)) is None,
    ensures
        s.with_branches(
            s.branches.insert(
                current,
                MetaView { parent: onto, parent_head: head, ..s.branches[current] },
            ),
        ).grounded(),
{
    crate::stack::law_new_parent_keeps_ground(
        s,
        current,
        onto,
        MetaView { parent: onto, parent_head: head, ..s.branches[current] },
    );
}

/// A branch can be moved exactly where it is recorded and not the trunk, a target is named that is
/// the trunk or recorded, is another, and does not lead down to the trunk over the branch.
pub proof fn law_move_is_refused_for_cause(
    s: StackView,
    current: Seq<char>,
    onto: Option<Seq<char>>,
)
    ensures
        move_fault(s, current, onto) is None <==> (onto matches Some(target) && {
            &&& trimmed(target).len() > 0
            &&& current != s.trunk
            &&& s.branches.contains_key(current)
            &&& target == s.trunk || s.branches.contains_key(target)
            &&& target != current
            &&& !s.path_to_trunk(target).contains(current)
        }),
{
}

/// A native stack matters to a move only for a pull request outside a fork workflow, and only
/// where GitHub found one.
pub proof fn law_native_stack_matters_only_where_found(
    s: StackView,
    pr: Option<u64>,
    lookup: Result<LookupView, Seq<char>>,
)
    ensures
        native_before(s, pr, lookup) is Some <==> pr is Some && !s.is_fork_workflow() && (
        lookup matches Ok(LookupView::Found(_))),
        native_before(s, pr, lookup) matches Some(info) ==> lookup == Ok::<LookupView, Seq<char>>(
            LookupView::Found(info),
        ),
{
}

/// A receipt of a move names the branch, the parent it left and the one it went to, and how many
/// followed.
pub proof fn law_move_receipt_tells_both_parents(
    branch: Seq<char>,
    from: Seq<char>,
    onto: Seq<char>,
    restacked: nat,
    pr_base: JsonView,
    native: Option<StackInfoView>,
)
    ensures
        moved_receipt(branch, from, onto, restacked, pr_base, native) matches JsonView::Object(m) && {
            &&& m["branch"@] == JsonView::Text(branch)
            &&& m["from"@] == JsonView::Text(from)
            &&& m["onto"@] == JsonView::Text(onto)
            &&& m["restacked"@] == JsonView::Number(restacked as u64)
            &&& m["pr_base"@] == pr_base
        },
{
    reveal_strlit("cmd");
    reveal_strlit("branch");
    reveal_strlit("from");
    reveal_strlit("onto");
    reveal_strlit("local");
    reveal_strlit("restacked");
    reveal_strlit("pr_base");
    reveal_strlit("native_stack_before");
    assert("cmd"@.len() == 3);
    assert("branch"@.len() == 6);
    assert("from"@.len() == 4);
    assert("onto"@.len() == 4);
    assert("local"@.len() == 5);
    assert("restacked"@.len() == 9);
    assert("pr_base"@.len() == 7);
    assert("native_stack_before"@.len() == 19);
    assert("from"@[0] == 'f');
    assert("onto"@[0] == 'o');
}

/// The preflight of a branch is the first that was made for it.
pub proof fn law_own_preflight_is_the_first(
    s: Seq<BranchPreflight>,
    branch: Seq<char>,
    i: int,
    j: int,
)
    requires
        first_for(s, branch, i),
    ensures
        0 <= i < s.len(),
        s[i].branch@ == branch,
        0 <= j < s.len() && s[j].branch@ == branch ==> i <= j,
{
    if 0 <= j < i {
        assert(s[j]@.branch != branch);
    }
}

} // verus!
