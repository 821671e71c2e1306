//! Listing all local branches with their state.

use crate::json::{no_fields, number_or_null, text_or_null, Json, JsonObject, JsonView};
use crate::stack::{StackState, StackView};
use crate::text::{count, decimal, holds, join, joined, number, opt_view, pad, padded, same, views};
use vstd::prelude::*;
use vstd::string::*;

verus! {

/// An age in its largest full unit.
pub open spec fn age_text(secs: Option<u64>) -> Seq<char> {
    match secs {
        None => "-"@,
        Some(s) => if s < 60 {
            decimal(s as nat) + "s"@
        } else if s < 3600 {
            decimal((s / 60) as nat) + "m"@
        } else if s < 86400 {
            decimal((s / 3600) as nat) + "h"@
        } else {
            decimal((s / 86400) as nat) + "d"@
        },
    }
}

/// An age in its largest full unit.
pub fn format_age(secs: Option<u64>) -> (r: String)
    ensures
        r@ == age_text(secs),
{
    match secs {
        None => String::from_str("-"),
        Some(s) => if s < 60 {
            number(s).concat("s")
        } else if s < 3600 {
            number(s / 60).concat("m")
        } else if s < 86400 {
            number(s / 3600).concat("h")
        } else {
            number(s / 86400).concat("d")
        },
    }
}

/// A row of the table.
pub fn row(m: &str, b: &str, pr: &str, ci: &str, age: &str, port: &str, st: &str) -> (r: String)
    ensures
        r@ == row_text(m@, b@, pr@, ci@, age@, port@, st@),
{
    pad(m, 4).concat(" ").concat(&pad(b, 30)).concat(" ").concat(&pad(pr, 8)).concat(" ").concat(
        &pad(ci, 6),
    ).concat(" ").concat(&pad(age, 6)).concat(" ").concat(&pad(port, 7)).concat(" ").concat(st)
}

/// The names of `s` other than the trunk and those of `seen`, each where it first stands, after
/// `seen`.
pub open spec fn appended(trunk: Seq<char>, seen: Seq<Seq<char>>, s: Seq<Seq<char>>) -> Seq<
    Seq<char>,
>
    decreases s.len(),
{
    if s.len() == 0 {
        seen
    } else {
        let low = appended(trunk, seen, s.drop_last());
        if s.last() != trunk && !low.contains(s.last()) {
            low.push(s.last())
        } else {
            low
        }
    }
}

fn append_new(trunk: &str, seen: Vec<String>, more: &Vec<String>) -> (r: Vec<String>)
    ensures
        views(r@) == appended(trunk@, views(seen@), views(more@)),
{
    let ghost start = views(seen@);
    let ghost all = views(more@);
    let mut out = seen;
    let mut i: usize = 0;
    assert(all.take(0) =~= Seq::<Seq<char>>::empty());
    while i < more.len()
        invariant
            i <= more.len(),
            all == views(more@),
            views(out@) == appended(trunk@, start, all.take(i as int)),
        decreases more.len() - i,
    {
        let ghost held = views(out@);
        assert(all.take(i + 1).drop_last() =~= all.take(i as int));
        assert(all.take(i + 1).last() == more@[i as int]@);
        if !same(&more[i], trunk) && !holds(&out, &more[i]) {
            out.push(more[i].clone());
            assert(views(out@) =~= held.push(more@[i as int]@));
        }
        i += 1;
    }
    assert(all.take(more.len() as int) =~= all);
    out
}

/// The branches in the order of the listing: the recorded ones, then the other local ones, each
/// once and without the trunk.
pub fn combined_branch_order(
    trunk: &str,
    managed_order: &Vec<String>,
    local_branches: &Vec<String>,
) -> (r: Vec<String>)
    ensures
        views(r@) == appended(
            trunk@,
            appended(trunk@, Seq::empty(), views(managed_order@)),
            views(local_branches@),
        ),
{
    let none: Vec<String> = Vec::new();
    assert(views(none@) =~= Seq::<Seq<char>>::empty());
    let managed: Vec<String> = append_new(trunk, none, managed_order);
    append_new(trunk, managed, local_branches)
}

/// The listing holds every recorded and local branch but the trunk, each once, the recorded ones
/// first.
pub proof fn law_order_lists_each_branch_once(
    trunk: Seq<char>,
    managed: Seq<Seq<char>>,
    local: Seq<Seq<char>>,
)
    ensures
        ({
            let first = appended(trunk, Seq::empty(), managed);
            let r = appended(trunk, first, local);
            &&& r.no_duplicates()
            &&& forall|b: Seq<char>| #[trigger]
                r.contains(b) <==> b != trunk && (managed.contains(b) || local.contains(b))
            &&& first.len() <= r.len()
            &&& r.take(first.len() as int) == first
        }),
{
    let first = appended(trunk, Seq::empty(), managed);
    lemma_appended(trunk, Seq::empty(), managed);
    lemma_appended(trunk, first, local);
    let r = appended(trunk, first, local);
    assert forall|b: Seq<char>| #[trigger] r.contains(b) <==> b != trunk && (managed.contains(b)
        || local.contains(b)) by {
        assert(first.contains(b) <==> Seq::<Seq<char>>::empty().contains(b) || (b != trunk
            && managed.contains(b)));
        assert(!Seq::<Seq<char>>::empty().contains(b));
    }
}

proof fn lemma_appended(trunk: Seq<char>, seen: Seq<Seq<char>>, s: Seq<Seq<char>>)
    requires
        seen.no_duplicates(),
    ensures
        appended(trunk, seen, s).no_duplicates(),
        forall|b: Seq<char>| #[trigger]
            appended(trunk, seen, s).contains(b) <==> seen.contains(b) || (b != trunk && s.contains(
                b,
            )),
        seen.len() <= appended(trunk, seen, s).len(),
        appended(trunk, seen, s).take(seen.len() as int) == seen,
    decreases s.len(),
{
    if s.len() == 0 {
        assert(seen.take(seen.len() as int) =~= seen);
    } else {
        let low = appended(trunk, seen, s.drop_last());
        lemma_appended(trunk, seen, s.drop_last());
        let x = s.last();
        assert(s =~= s.drop_last().push(x));
        assert forall|b: Seq<char>| #[trigger] appended(trunk, seen, s).contains(b)
            <==> seen.contains(b) || (b != trunk && s.contains(b)) by {
            vstd::seq_lib::lemma_seq_contains_after_push(s.drop_last(), x, b);
            vstd::seq_lib::lemma_seq_contains_after_push(low, x, b);
            assert(low.contains(b) <==> seen.contains(b) || (b != trunk && s.drop_last().contains(
                b,
            )));
        }
        assert(appended(trunk, seen, s).take(seen.len() as int) =~= seen) by {
            assert(low.take(seen.len() as int) == seen);
            assert forall|i: int| 0 <= i < seen.len() implies appended(trunk, seen, s)[i]
                == seen[i] by {
                assert(low.take(seen.len() as int)[i] == low[i]);
            }
        }
    }
}

/// How many files of a worktree are staged, modified and untracked.
#[derive(Clone, Copy, Debug, PartialEq, Eq, Structural)]
pub struct StatusCounts {
    pub staged: usize,
    pub modified: usize,
    pub untracked: usize,
}

/// The parts of a status that are not zero.
pub open spec fn status_parts(c: StatusCounts) -> Seq<Seq<char>> {
    let s = if c.staged > 0 {
        seq![decimal(c.staged as nat) + "S"@]
    } else {
        Seq::empty()
    };
    let m = if c.modified > 0 {
        s.push(decimal(c.modified as nat) + "M"@)
    } else {
        s
    };
    if c.untracked > 0 {
        m.push(decimal(c.untracked as nat) + "U"@)
    } else {
        m
    }
}

/// The status of a branch in words.
pub open spec fn status_text(is_managed: bool, has_worktree: bool, c: StatusCounts) -> Seq<char> {
    let base = if has_worktree {
        if c.staged == 0 && c.modified == 0 && c.untracked == 0 {
            "clean"@
        } else {
            joined(status_parts(c), " "@)
        }
    } else if is_managed {
        "no worktree"@
    } else {
        "not tracked"@
    };
    if !is_managed && has_worktree {
        base + "; not tracked"@
    } else {
        base
    }
}

/// The status of a branch in words.
pub fn branch_status_label(is_managed: bool, has_worktree: bool, wt_status: StatusCounts) -> (r:
    String)
    ensures
        r@ == status_text(is_managed, has_worktree, wt_status),
{
    let c: StatusCounts = wt_status;
    let base: String = if has_worktree {
        if c.staged == 0 && c.modified == 0 && c.untracked == 0 {
            String::from_str("clean")
        } else {
            let mut parts: Vec<String> = Vec::new();
            assert(views(parts@) =~= Seq::<Seq<char>>::empty());
            if c.staged > 0 {
                parts.push(count(c.staged).concat("S"));
                assert(views(parts@) =~= seq![decimal(c.staged as nat) + "S"@]);
            }
            let ghost s = views(parts@);
            if c.modified > 0 {
                parts.push(count(c.modified).concat("M"));
                assert(views(parts@) =~= s.push(decimal(c.modified as nat) + "M"@));
            }
            let ghost m = views(parts@);
            if c.untracked > 0 {
                parts.push(count(c.untracked).concat("U"));
                assert(views(parts@) =~= m.push(decimal(c.untracked as nat) + "U"@));
            }
            assert(views(parts@) == status_parts(c));
            join(&parts, " ")
        }
    } else if is_managed {
        String::from_str("no worktree")
    } else {
        String::from_str("not tracked")
    };
    if !is_managed && has_worktree {
        base.concat("; not tracked")
    } else {
        base
    }
}

/// A claim on a worktree.
#[derive(Debug)]
pub struct LeaseInfo {
    pub owner: String,
    pub branch: String,
    pub created_at: u64,
    pub expires_at: u64,
    pub stale: bool,
}

/// A lock on a worktree: its reason, and the claim that the reason spells, if it does.
#[derive(Debug)]
pub struct LockInfo {
    pub reason: String,
    pub lease: Option<LeaseInfo>,
}

/// Whether the lock is a claim on the branch.
pub open spec fn claims(l: LockInfo, branch: Seq<char>) -> bool {
    l.lease matches Some(x) && x.branch@ == branch
}

/// A lock in words.
pub open spec fn lock_text(branch: Seq<char>, l: LockInfo) -> Seq<char> {
    if claims(l, branch) {
        if l.lease->0.stale {
            "stale lease: "@ + l.lease->0.owner@
        } else {
            "claimed: "@ + l.lease->0.owner@
        }
    } else if l.reason@.len() == 0 {
        "locked"@
    } else {
        "locked: "@ + l.reason@
    }
}

/// A lock in words.
pub fn worktree_lock_label(branch: &str, lock: &LockInfo) -> (r: String)
    ensures
        r@ == lock_text(branch@, *lock),
{
    if let Some(lease) = &lock.lease {
        if same(&lease.branch, branch) {
            return if lease.stale {
                String::from_str("stale lease: ").concat(&lease.owner)
            } else {
                String::from_str("claimed: ").concat(&lease.owner)
            };
        }
    }
    if lock.reason.as_str().is_empty() {
        String::from_str("locked")
    } else {
        String::from_str("locked: ").concat(&lock.reason)
    }
}

/// A lock as part of a listing.
pub open spec fn lock_json(branch: Seq<char>, l: LockInfo) -> JsonView {
    if claims(l, branch) {
        let x = l.lease->0;
        JsonView::Object(
            no_fields().insert("kind"@, JsonView::Text("lease"@)).insert(
                "owner"@,
                JsonView::Text(x.owner@),
            ).insert("branch"@, JsonView::Text(x.branch@)).insert(
                "created_at"@,
                JsonView::Number(x.created_at),
            ).insert("expires_at"@, JsonView::Number(x.expires_at)).insert(
                "stale"@,
                JsonView::Bool(x.stale),
            ),
        )
    } else {
        JsonView::Object(
            no_fields().insert("kind"@, JsonView::Text("foreign"@)).insert(
                "reason"@,
                JsonView::Text(
                    if l.reason@.len() == 0 {
                        "<no reason>"@
                    } else {
                        l.reason@
                    },
                ),
            ),
        )
    }
}

/// A lock as part of a listing.
pub fn worktree_lock_json(branch: &str, lock: &LockInfo) -> (r: Json)
    ensures
        r@ == lock_json(branch@, *lock),
{
    if let Some(x) = &lock.lease {
        if same(&x.branch, branch) {
            return JsonObject::new().field("kind", Json::text("lease")).field(
                "owner",
                Json::text(&x.owner),
            ).field("branch", Json::text(&x.branch)).field(
                "created_at",
                Json::Number(x.created_at),
            ).field("expires_at", Json::Number(x.expires_at)).field(
                "stale",
                Json::Bool(x.stale),
            ).done();
        }
    }
    let reason: &str = if lock.reason.as_str().is_empty() {
        "<no reason>"
    } else {
        &lock.reason
    };
    JsonObject::new().field("kind", Json::text("foreign")).field("reason", Json::text(reason)).done()
}

/// What is known of a branch when it is listed.
#[derive(Debug)]
pub struct BranchData {
    pub name: String,
    pub is_managed: bool,
    pub pr_number: Option<u64>,
    pub parent: Option<String>,
    pub wt_path: Option<String>,
    pub wt_lock: Option<LockInfo>,
    pub ci: String,
    pub age: Option<u64>,
    pub wt_status: StatusCounts,
    /// The port that the branch's worktree serves on.
    pub dev_port: u64,
}

/// The entry of a branch in a listing: what concerns its worktree only where it has one.
pub open spec fn branch_json(current: Seq<char>, b: BranchData) -> JsonView {
    JsonView::Object(
        no_fields().insert("branch"@, JsonView::Text(b.name@)).insert(
            "is_managed"@,
            JsonView::Bool(b.is_managed),
        ).insert("is_current"@, JsonView::Bool(b.name@ == current)).insert(
            "parent"@,
            text_or_null(opt_view(b.parent)),
        ).insert("pr_number"@, number_or_null(b.pr_number)).insert(
            "ci_status"@,
            if b.ci@.len() == 0 {
                JsonView::Null
            } else {
                JsonView::Text(b.ci@)
            },
        ).insert("last_activity_secs"@, number_or_null(b.age)).insert(
            "dev_port"@,
            if b.wt_path is Some {
                JsonView::Number(b.dev_port)
            } else {
                JsonView::Null
            },
        ).insert("worktree_path"@, text_or_null(opt_view(b.wt_path))).insert(
            "working_tree"@,
            if b.wt_path is Some {
                JsonView::Object(
                    no_fields().insert(
                        "staged"@,
                        JsonView::Number(b.wt_status.staged as u64),
                    ).insert("modified"@, JsonView::Number(b.wt_status.modified as u64)).insert(
                        "untracked"@,
                        JsonView::Number(b.wt_status.untracked as u64),
                    ),
                )
            } else {
                JsonView::Null
            },
        ).insert(
            "worktree_lock"@,
            match b.wt_lock {
                Some(l) => lock_json(b.name@, l),
                None => JsonView::Null,
            },
        ),
    )
}

fn branch_entry(current: &str, b: &BranchData) -> (r: Json)
    ensures
        r@ == branch_json(current@, *b),
{
    let ci: Json = if b.ci.as_str().is_empty() {
        Json::Null
    } else {
        Json::text(&b.ci)
    };
    let port: Json = if b.wt_path.is_some() {
        Json::Number(b.dev_port)
    } else {
        Json::Null
    };
    let tree: Json = if b.wt_path.is_some() {
        JsonObject::new().field("staged", Json::count(b.wt_status.staged)).field(
            "modified",
            Json::count(b.wt_status.modified),
        ).field("untracked", Json::count(b.wt_status.untracked)).done()
    } else {
        Json::Null
    };
    let lock: Json = match &b.wt_lock {
        Some(l) => worktree_lock_json(&b.name, l),
        None => Json::Null,
    };
    JsonObject::new().field("branch", Json::text(&b.name)).field(
        "is_managed",
        Json::Bool(b.is_managed),
    ).field("is_current", Json::Bool(same(&b.name, current))).field(
        "parent",
        Json::opt_text(&b.parent),
    ).field("pr_number", Json::opt_number(b.pr_number)).field("ci_status", ci).field(
        "last_activity_secs",
        Json::opt_number(b.age),
    ).field("dev_port", port).field("worktree_path", Json::opt_text(&b.wt_path)).field(
        "working_tree",
        tree,
    ).field("worktree_lock", lock).done()
}

/// The entry of the trunk in a listing.
pub open spec fn trunk_json(s: StackView, current: Seq<char>) -> JsonView {
    JsonView::Object(
        no_fields().insert("branch"@, JsonView::Text(s.trunk)).insert(
            "is_trunk"@,
            JsonView::Bool(true),
        ).insert("is_current"@, JsonView::Bool(current == s.trunk)),
    )
}

/// The entries of a listing: the trunk, then the branches.
pub fn json_entries(state: &StackState, current: &str, branches: &Vec<BranchData>) -> (r: Vec<Json>)
    ensures
        r.len() == branches.len() + 1,
        r@[0]@ == trunk_json(state@, current@),
        forall|i: int|
            0 <= i < branches.len() ==> (#[trigger] r@[i + 1])@ == branch_json(
                current@,
                branches@[i],
            ),
{
    let mut out: Vec<Json> = Vec::new();
    out.push(
        JsonObject::new().field("branch", Json::text(&state.trunk)).field(
            "is_trunk",
            Json::Bool(true),
        ).field("is_current", Json::Bool(same(current, &state.trunk))).done(),
    );
    let mut i: usize = 0;
    while i < branches.len()
        invariant
            i <= branches.len(),
            out.len() == i + 1,
            out@[0]@ == trunk_json(state@, current@),
            forall|j: int|
                0 <= j < i ==> (#[trigger] out@[j + 1])@ == branch_json(current@, branches@[j]),
        decreases branches.len() - i,
    {
        let ghost held = out@;
        out.push(branch_entry(current, &branches[i]));
        assert forall|j: int| 0 <= j < i + 1 implies (#[trigger] out@[j + 1])@ == branch_json(
            current@,
            branches@[j],
        ) by {
            if j < i {
                assert(out@[j + 1] == held[j + 1]);
            }
        }
        i += 1;
    }
    out
}

/// What is known of one branch: the pull request that GitHub reports goes before the recorded
/// one.
pub fn branch_data(
    state: &StackState,
    name: &str,
    found_pr: Option<u64>,
    wt_path: Option<String>,
    wt_lock: Option<LockInfo>,
    ci: String,
    age: Option<u64>,
    wt_status: StatusCounts,
    dev_port: u64,
) -> (r: BranchData)
    ensures
        r.name@ == name@,
        r.is_managed == state@.managed(name@),
        r.pr_number == if found_pr is Some {
            found_pr
        } else if state@.managed(name@) {
            state@.branches[name@].pr_number
        } else {
            None
        },
        opt_view(r.parent) == if state@.managed(name@) {
            Some(state@.branches[name@].parent)
        } else {
            None
        },
        r.wt_path == wt_path,
        r.wt_lock == wt_lock,
        r.ci == ci,
        r.age == age,
        r.wt_status == wt_status,
        r.dev_port == dev_port,
{
    let (is_managed, recorded, parent): (bool, Option<u64>, Option<String>) = match state.branches.get(
        name,
    ) {
        Some(m) => (true, m.pr_number, Some(m.parent.clone())),
        None => (false, None, None),
    };
    let pr_number: Option<u64> = match found_pr {
        Some(n) => Some(n),
        None => recorded,
    };
    BranchData {
        name: name.to_owned(),
        is_managed,
        pr_number,
        parent,
        wt_path,
        wt_lock,
        ci,
        age,
        wt_status,
        dev_port,
    }
}

/// A row of the table.
pub open spec fn row_text(
    m: Seq<char>,
    b: Seq<char>,
    pr: Seq<char>,
    ci: Seq<char>,
    age: Seq<char>,
    port: Seq<char>,
    st: Seq<char>,
) -> Seq<char> {
    padded(m, 4) + " "@ + padded(b, 30) + " "@ + padded(pr, 8) + " "@ + padded(ci, 6) + " "@
        + padded(age, 6) + " "@ + padded(port, 7) + " "@ + st
}

/// The mark of the current branch.
pub open spec fn current_mark(b: Seq<char>, current: Seq<char>) -> Seq<char> {
    if b == current {
        " *"@
    } else {
        "  "@
    }
}

fn current_marker(b: &str, current: &str) -> (r: &'static str)
    ensures
        r@ == current_mark(b@, current@),
{
    if same(b, current) {
        " *"
    } else {
        "  "
    }
}

/// The row of a branch.
pub open spec fn branch_row(b: BranchData, current: Seq<char>) -> Seq<char> {
    row_text(
        current_mark(b.name@, current),
        b.name@,
        match b.pr_number {
            Some(n) => "#"@ + decimal(n as nat),
            None => "-"@,
        },
        if b.ci@.len() == 0 {
            "-"@
        } else {
            b.ci@
        },
        age_text(b.age),
        if b.wt_path is Some {
            decimal(b.dev_port as nat)
        } else {
            "-"@
        },
        match b.wt_lock {
            Some(l) => status_text(b.is_managed, b.wt_path is Some, b.wt_status) + "; "@
                + lock_text(b.name@, l),
            None => status_text(b.is_managed, b.wt_path is Some, b.wt_status),
        },
    )
}

fn branch_line(b: &BranchData, current: &str) -> (r: String)
    ensures
        r@ == branch_row(*b, current@),
{
    let pr: String = match b.pr_number {
        Some(n) => String::from_str("#").concat(&number(n)),
        None => String::from_str("-"),
    };
    let ci: &str = if b.ci.as_str().is_empty() {
        "-"
    } else {
        b.ci.as_str()
    };
    let age: String = format_age(b.age);
    let port: String = if b.wt_path.is_some() {
        number(b.dev_port)
    } else {
        String::from_str("-")
    };
    let base: String = branch_status_label(b.is_managed, b.wt_path.is_some(), b.wt_status);
    let status: String = match &b.wt_lock {
        Some(l) => {
            let lock: String = worktree_lock_label(&b.name, l);
            base.concat("; ").concat(&lock)
        },
        None => base,
    };
    row(current_marker(&b.name, current), &b.name, &pr, ci, &age, &port, &status)
}

/// The rows of the table: the trunk, then the branches.
pub open spec fn table(
    s: StackView,
    current: Seq<char>,
    trunk_age: Option<u64>,
    branches: Seq<BranchData>,
) -> Seq<Seq<char>> {
    seq![
        row_text(
            current_mark(s.trunk, current),
            s.trunk + " (trunk)"@,
            "-"@,
            "-"@,
            age_text(trunk_age),
            "-"@,
            "-"@,
        ),
    ] + Seq::new(branches.len(), |i: int| branch_row(branches[i], current))
}

/// The rows of the table, and whether a branch in it is not tracked.
pub fn run(
    state: &StackState,
    current: &str,
    trunk_age: Option<u64>,
    branches: &Vec<BranchData>,
) -> (r: (Vec<String>, bool))
    ensures
        views(r.0@) == table(state@, current@, trunk_age, branches@),
        r.1 == exists|i: int| 0 <= i < branches.len() && !(#[trigger] branches@[i]).is_managed,
{
    let ghost rows = table(state@, current@, trunk_age, branches@);
    let mut out: Vec<String> = Vec::new();
    let label: String = state.trunk.clone().concat(" (trunk)");
    let age: String = format_age(trunk_age);
    out.push(row(current_marker(&state.trunk, current), &label, "-", "-", &age, "-", "-"));
    assert(views(out@) =~= rows.take(1));
    let mut untracked: bool = false;
    let mut i: usize = 0;
    while i < branches.len()
        invariant
            i <= branches.len(),
            rows == table(state@, current@, trunk_age, branches@),
            rows.len() == branches.len() + 1,
            views(out@) == rows.take(i + 1),
            untracked == exists|j: int| 0 <= j < i && !(#[trigger] branches@[j]).is_managed,
        decreases branches.len() - i,
    {
        let ghost held = views(out@);
        let line: String = branch_line(&branches[i], current);
        let ghost l = line@;
        out.push(line);
        proof {
            assert(rows[i + 1] == l);
            assert(views(out@) =~= held.push(l));
            assert(rows.take(i + 2) =~= rows.take(i + 1).push(rows[i + 1]));
        }
        if !branches[i].is_managed {
            untracked = true;
        }
        i += 1;
    }
    assert(rows.take(branches.len() + 1) =~= rows);
    (out, untracked)
}

/// An age is told in the largest unit that it fills, rounded down.
pub proof fn law_age_is_rounded_down(s: u64, n: nat)
    ensures
        age_text(None) == "-"@,
        s < 60 && n == s ==> age_text(Some(s)) == decimal(n) + "s"@,
        60 <= s < 3600 && n * 60 <= s && s < (n + 1) * 60 ==> age_text(Some(s)) == decimal(n) + "m"@,
        3600 <= s < 86400 && n * 3600 <= s && s < (n + 1) * 3600 ==> age_text(Some(s)) == decimal(n)
            + "h"@,
        86400 <= s && n * 86400 <= s && s < (n + 1) * 86400 ==> age_text(Some(s)) == decimal(n)
            + "d"@,
{
}

/// A worktree is clean exactly where nothing is staged, modified or untold to git; what is not
/// recorded is told to be so.
pub proof fn law_status_tells_changes(is_managed: bool, c: StatusCounts)
    ensures
        c.staged == 0 && c.modified == 0 && c.untracked == 0 ==> status_text(true, true, c)
            == "clean"@,
        status_text(true, false, c) == "no worktree"@,
        status_text(false, false, c) == "not tracked"@,
        status_text(false, true, c) == status_text(true, true, c) + "; not tracked"@,
        status_parts(c).len() == (if c.staged > 0 {
            1int
        } else {
            0
        }) + (if c.modified > 0 {
            1int
        } else {
            0
        }) + (if c.untracked > 0 {
            1int
        } else {
            0
        }),
        status_parts(c).len() > 0 ==> status_text(true, true, c) == joined(status_parts(c), " "@),
        status_parts(c).contains(decimal(c.staged as nat) + "S"@) || c.staged == 0,
        status_parts(c).contains(decimal(c.modified as nat) + "M"@) || c.modified == 0,
        status_parts(c).contains(decimal(c.untracked as nat) + "U"@) || c.untracked == 0,
{
    let p = status_parts(c);
    let a: int = if c.staged > 0 {
        1int
    } else {
        0
    };
    let b: int = if c.modified > 0 {
        a + 1
    } else {
        a
    };
    if c.staged > 0 {
        assert(p[0] == decimal(c.staged as nat) + "S"@);
    }
    if c.modified > 0 {
        assert(p[a] == decimal(c.modified as nat) + "M"@);
    }
    if c.untracked > 0 {
        assert(p[b] == decimal(c.untracked as nat) + "U"@);
    }
}

/// A lock is a claim exactly where its lease is for this branch.
pub proof fn law_lock_is_told_by_its_lease(branch: Seq<char>, l: LockInfo)
    ensures
        l.lease matches Some(x) && x.branch@ == branch && x.stale ==> lock_text(branch, l)
            == "stale lease: "@ + l.lease->0.owner@,
        l.lease matches Some(x) && x.branch@ == branch && !x.stale ==> lock_text(branch, l)
            == "claimed: "@ + l.lease->0.owner@,
        (l.lease is None || l.lease->0.branch@ != branch) && l.reason@.len() > 0 ==> lock_text(
            branch,
            l,
        ) == "locked: "@ + l.reason@,
        (l.lease is None || l.lease->0.branch@ != branch) && l.reason@.len() == 0 ==> lock_text(
            branch,
            l,
        ) == "locked"@,
{
}

/// A table has the trunk first and a row for each branch; the mark of a row tells the current
/// branch from the others.
pub proof fn law_table_has_a_row_for_each_branch(
    s: StackView,
    current: Seq<char>,
    trunk_age: Option<u64>,
    branches: Seq<BranchData>,
    i: int,
)
    requires
        0 <= i < branches.len(),
    ensures
        ({
            let t = table(s, current, trunk_age, branches);
            &&& t.len() == branches.len() + 1
            &&& t[i + 1].take(2) == (if branches[i].name@ == current {
                seq![' ', '*']
            } else {
                seq![' ', ' ']
            })
            &&& t[i + 1].subrange(5, 5 + branches[i].name@.len() as int) == branches[i].name@
            &&& t[0].subrange(5, 5 + s.trunk.len() as int) == s.trunk
        }),
{
    reveal_strlit(" *");
    reveal_strlit("  ");
    reveal_strlit(" ");
    reveal_strlit(" (trunk)");
    assert(" *"@ =~= seq![' ', '*']);
    assert("  "@ =~= seq![' ', ' ']);
    let t = table(s, current, trunk_age, branches);
    let b = branches[i];
    assert(t[i + 1] == branch_row(b, current));
    assert(b.name@ + Seq::<char>::empty() =~= b.name@);
    lemma_row_shows_mark_and_name(t[i + 1], current_mark(b.name@, current), b.name@, Seq::empty());
    lemma_row_shows_mark_and_name(t[0], current_mark(s.trunk, current), s.trunk, " (trunk)"@);
}

proof fn lemma_row_shows_mark_and_name(
    row: Seq<char>,
    mark: Seq<char>,
    name: Seq<char>,
    more: Seq<char>,
)
    requires
        mark.len() == 2,
        exists|pr: Seq<char>, ci: Seq<char>, age: Seq<char>, port: Seq<char>, st: Seq<char>|
            row == #[trigger] row_text(mark, name + more, pr, ci, age, port, st),
    ensures
        row.take(2) == mark,
        row.subrange(5, 5 + name.len() as int) == name,
{
    let (pr, ci, age, port, st) = choose|
        pr: Seq<char>,
        ci: Seq<char>,
        age: Seq<char>,
        port: Seq<char>,
        st: Seq<char>,
    | row == #[trigger] row_text(mark, name + more, pr, ci, age, port, st);
    reveal_strlit(" ");
    let head = padded(mark, 4) + " "@ + padded(name + more, 30);
    let a = head + " "@ + padded(pr, 8);
    let b = a + " "@ + padded(ci, 6);
    let c = b + " "@ + padded(age, 6);
    let d = c + " "@ + padded(port, 7);
    assert(row == d + " "@ + st);
    assert(head.take(2) =~= mark);
    assert(head.subrange(5, 5 + name.len() as int) =~= name);
    let n: int = 5 + name.len() as int;
    lemma_begins_with(head, " "@ + padded(pr, 8), n);
    assert(a =~= head + (" "@ + padded(pr, 8)));
    lemma_begins_with(a, " "@ + padded(ci, 6), n);
    assert(b =~= a + (" "@ + padded(ci, 6)));
    lemma_begins_with(b, " "@ + padded(age, 6), n);
    assert(c =~= b + (" "@ + padded(age, 6)));
    lemma_begins_with(c, " "@ + padded(port, 7), n);
    assert(d =~= c + (" "@ + padded(port, 7)));
    lemma_begins_with(d, " "@ + st, n);
    assert(row =~= d + (" "@ + st));
}

proof fn lemma_begins_with(head: Seq<char>, rest: Seq<char>, n: int)
    requires
        5 <= n <= head.len(),
    ensures
        (head + rest).take(2) == head.take(2),
        (head + rest).subrange(5, n) == head.subrange(5, n),
        (head + rest).len() >= n,
{
    assert((head + rest).take(2) =~= head.take(2));
    assert((head + rest).subrange(5, n) =~= head.subrange(5, n));
}

/// An entry of the list names the branch, marks the current one, and tells its parent, pull request
/// and worktree.
pub proof fn law_list_entry_tells_the_branch(current: Seq<char>, b: BranchData)
    ensures
        branch_json(current, b) matches JsonView::Object(m) && {
            &&& m["branch"@] == JsonView::Text(b.name@)
            &&& m["is_managed"@] == JsonView::Bool(b.is_managed)
            &&& m["is_current"@] == JsonView::Bool(b.name@ == current)
            &&& m["parent"@] == text_or_null(opt_view(b.parent))
            &&& m["pr_number"@] == number_or_null(b.pr_number)
            &&& b.wt_path is None ==> m["dev_port"@] == JsonView::Null && m["working_tree"@] == JsonView::Null
            &&& b.wt_path is Some ==> m["dev_port"@] == JsonView::Number(b.dev_port)
            &&& m["worktree_path"@] == text_or_null(opt_view(b.wt_path))
        },
{
    reveal_strlit("branch");
    reveal_strlit("is_managed");
    reveal_strlit("is_current");
    reveal_strlit("parent");
    reveal_strlit("pr_number");
    reveal_strlit("ci_status");
    reveal_strlit("last_activity_secs");
    reveal_strlit("dev_port");
    reveal_strlit("worktree_path");
    reveal_strlit("working_tree");
    reveal_strlit("worktree_lock");
    assert("branch"@.len() == 6);
    assert("is_managed"@.len() == 10);
    assert("is_current"@.len() == 10);
    assert("parent"@.len() == 6);
    assert("pr_number"@.len() == 9);
    assert("ci_status"@.len() == 9);
    assert("last_activity_secs"@.len() == 18);
    assert("dev_port"@.len() == 8);
    assert("worktree_path"@.len() == 13);
    assert("working_tree"@.len() == 12);
    assert("worktree_lock"@.len() == 13);
    assert("branch"@[0] == 'b');
    assert("parent"@[0] == 'p');
    assert("is_managed"@[3] == 'm');
    assert("is_current"@[3] == 'c');
    assert("pr_number"@[0] == 'p');
    assert("ci_status"@[0] == 'c');
    assert("worktree_path"@[9] == 'p');
    assert("worktree_lock"@[9] == 'l');
}

} // verus!
