//! What must hold before a commit is made.

use crate::branch_map::{BranchMeta, MetaView, ScopeMode};
use crate::cmd::committing::{fresh_commit, Committing};
use crate::error::{ErrorView, EzError};
use crate::scope::{evaluate_scope, sifted, ScopeDecision, ScopeReport};
use crate::stack::{StackState, StackView};
use crate::text::{copy_all, holds, opt_view, views};
use vstd::prelude::*;
use vstd::string::*;

verus! {

/// What is staged before a commit.
#[derive(Clone, Copy, Debug, PartialEq, Eq, Structural)]
pub enum StageMode {
    /// The files that git tracks.
    TrackedOnly,
    /// All files.
    All,
}

/// The hint that untracked files are left out, if there are any.
pub fn tracked_only_untracked_hint(untracked_count: usize) -> (r: Option<&'static str>)
    ensures
        match r {
            Some(t) => untracked_count > 0 && t@
                == "Untracked files detected. `-a` stages tracked files only, use `-A`/`-Am` to include them."@,
            None => untracked_count == 0,
        },
{
    if untracked_count > 0 {
        Some(
            "Untracked files detected. `-a` stages tracked files only, use `-A`/`-Am` to include them.",
        )
    } else {
        None
    }
}

/// What a receipt says of a branch's scope.
#[derive(Debug)]
pub struct ScopeReceiptData {
    pub scope_defined: bool,
    pub scope_mode: Option<String>,
    pub out_of_scope_files: Vec<String>,
}

/// The contents of a `ScopeReceiptData`.
#[verifier::ext_equal]
pub struct ScopeView {
    pub scope_defined: bool,
    pub scope_mode: Option<Seq<char>>,
    pub out_of_scope_files: Seq<Seq<char>>,
}

impl View for ScopeReceiptData {
    type V = ScopeView;

    open spec fn view(&self) -> ScopeView {
        ScopeView {
            scope_defined: self.scope_defined,
            scope_mode: opt_view(self.scope_mode),
            out_of_scope_files: views(self.out_of_scope_files@),
        }
    }
}

/// A commit that was made.
#[derive(Debug)]
pub struct CommitOutcome {
    pub current: String,
    pub before: String,
    pub after: String,
    pub files_changed: u64,
    pub insertions: u64,
    pub deletions: u64,
    pub scope: ScopeReceiptData,
}

/// What is staged for a commit.
#[derive(Clone, Copy, Debug, PartialEq, Eq, Structural)]
pub enum Staging {
    /// The paths given.
    Paths,
    /// The files that git tracks.
    TrackedOnly,
    /// All files.
    All,
    /// Nothing but what is staged already.
    AsIs,
}

/// Why a commit on `current` is refused, before anything is staged, if it is.
pub open spec fn guard_fault(
    s: StackView,
    current: Seq<char>,
    stage_mode: Option<StageMode>,
    paths: nat,
) -> Option<ErrorView> {
    if current == s.trunk {
        Some(ErrorView::OnTrunk)
    } else if !s.managed(current) {
        Some(ErrorView::BranchNotInStack(current))
    } else if stage_mode is Some && paths > 0 {
        Some(
            ErrorView::UserMessage(
                "cannot combine --all (-a) or --all-files (-A) with path arguments\n  → Use `ez commit -am \"msg\"` for tracked files, `ez commit -Am \"msg\"` to include untracked files, or `ez commit -m \"msg\" -- <paths>` to stage specific files"@,
            ),
        )
    } else {
        None
    }
}

/// What is staged for a commit.
pub open spec fn staging_for(stage_mode: Option<StageMode>, paths: nat) -> Staging {
    if paths > 0 {
        Staging::Paths
    } else {
        match stage_mode {
            Some(StageMode::TrackedOnly) => Staging::TrackedOnly,
            Some(StageMode::All) => Staging::All,
            None => Staging::AsIs,
        }
    }
}

/// Starts a commit on `current`, if it is allowed: only on a recorded branch other than the
/// trunk, and not staged by flag and by path at once. With `if_changed`, a commit of nothing is
/// passed over.
pub fn commit_with_guard(
    state: &StackState,
    current: &str,
    stage_mode: Option<StageMode>,
    if_changed: bool,
    paths: &Vec<String>,
) -> (r: Result<Committing, EzError>)
    ensures
        match r {
            Ok(c) => {
                &&& guard_fault(state@, current@, stage_mode, paths@.len()) is None
                &&& c@ == fresh_commit(
                    current@,
                    state@.branches[current@],
                    staging_for(stage_mode, paths@.len()),
                    if_changed,
                )
            },
            Err(e) => guard_fault(state@, current@, stage_mode, paths@.len()) == Some(e@),
        },
{
    if state.is_trunk(current) {
        return Err(EzError::OnTrunk);
    }
    let meta: &BranchMeta = match state.get_branch(current) {
        Ok(m) => m,
        Err(e) => return Err(e),
    };
    if stage_mode.is_some() && paths.len() > 0 {
        return Err(
            EzError::UserMessage(
                String::from_str(
                    "cannot combine --all (-a) or --all-files (-A) with path arguments\n  → Use `ez commit -am \"msg\"` for tracked files, `ez commit -Am \"msg\"` to include untracked files, or `ez commit -m \"msg\" -- <paths>` to stage specific files",
                ),
            ),
        );
    }
    let staging: Staging = if paths.len() > 0 {
        Staging::Paths
    } else {
        match stage_mode {
            Some(StageMode::TrackedOnly) => Staging::TrackedOnly,
            Some(StageMode::All) => Staging::All,
            None => Staging::AsIs,
        }
    };
    Ok(Committing::begin(current, meta, staging, if_changed))
}

/// Whether a commit goes on once files are staged: with nothing staged it is passed over if that
/// was asked for, and refused otherwise.
pub fn proceed_after_staging(if_changed: bool, has_staged: bool) -> (r: Result<bool, EzError>)
    ensures
        match r {
            Ok(go) => go == has_staged && (has_staged || if_changed),
            Err(e) => !has_staged && !if_changed && e@ == ErrorView::NothingToCommit,
        },
{
    if has_staged {
        Ok(true)
    } else if if_changed {
        Ok(false)
    } else {
        Err(EzError::NothingToCommit)
    }
}

/// The name of a scope mode.
pub open spec fn mode_name(mode: ScopeMode) -> Seq<char> {
    match mode {
        ScopeMode::Warn => "warn"@,
        ScopeMode::Strict => "strict"@,
    }
}

/// The name of a scope mode.
pub fn scope_mode_str(mode: ScopeMode) -> (r: &'static str)
    ensures
        r@ == mode_name(mode),
{
    match mode {
        ScopeMode::Warn => "warn",
        ScopeMode::Strict => "strict",
    }
}

/// What a receipt says where there is no scope.
pub open spec fn no_scope() -> ScopeView {
    ScopeView { scope_defined: false, scope_mode: None, out_of_scope_files: Seq::empty() }
}

/// What a receipt says of a scope, given its mode and the files outside it.
pub open spec fn scoped(mode: ScopeMode, outside: Seq<Seq<char>>) -> ScopeView {
    ScopeView {
        scope_defined: true,
        scope_mode: Some(mode_name(mode)),
        out_of_scope_files: outside,
    }
}

/// What a receipt says of a decision.
pub open spec fn receipt_for(d: ScopeDecision) -> ScopeView {
    match d {
        ScopeDecision::NoConfig => no_scope(),
        ScopeDecision::InBounds(report) => scoped(report.mode, views(report.out_of_scope_files@)),
        ScopeDecision::OutOfBounds(report) => scoped(
            report.mode,
            views(report.out_of_scope_files@),
        ),
    }
}

/// What a receipt says where there is no scope.
pub fn unscoped() -> (r: ScopeReceiptData)
    ensures
        r@ == no_scope(),
{
    let out_of_scope_files: Vec<String> = Vec::new();
    assert(views(out_of_scope_files@) =~= Seq::<Seq<char>>::empty());
    ScopeReceiptData { scope_defined: false, scope_mode: None, out_of_scope_files }
}

fn scope_data(report: &ScopeReport) -> (r: ScopeReceiptData)
    ensures
        r@ == scoped(report.mode, views(report.out_of_scope_files@)),
{
    ScopeReceiptData {
        scope_defined: true,
        scope_mode: Some(scope_mode_str(report.mode).to_owned()),
        out_of_scope_files: copy_all(&report.out_of_scope_files),
    }
}

/// What a receipt says of a decision.
pub fn receipt_data_from_scope_decision(decision: &ScopeDecision) -> (r: ScopeReceiptData)
    ensures
        r@ == receipt_for(*decision),
{
    match decision {
        ScopeDecision::NoConfig => unscoped(),
        ScopeDecision::InBounds(report) => scope_data(report),
        ScopeDecision::OutOfBounds(report) => scope_data(report),
    }
}

/// The contents of what git matched with a scope.
pub open spec fn matched_view(m: Result<Vec<String>, String>) -> Result<Seq<Seq<char>>, Seq<char>> {
    match m {
        Ok(v) => Ok(views(v@)),
        Err(t) => Err(t@),
    }
}

/// The staged files outside a branch's scope, as far as it has one and git matched them.
pub open spec fn outside_scope(
    meta: MetaView,
    staged: Seq<Seq<char>>,
    matched: Result<Seq<Seq<char>>, Seq<char>>,
) -> Seq<Seq<char>> {
    match (meta.scope, matched) {
        (Some(patterns), Ok(m)) => if patterns.len() > 0 {
            sifted(staged, m, false)
        } else {
            Seq::empty()
        },
        _ => Seq::empty(),
    }
}

/// Whether the staged files may be committed on a branch, and what the receipt says of its
/// scope: files outside a strict scope stop the commit.
pub open spec fn scope_verdict(
    branch: Seq<char>,
    meta: MetaView,
    staged: Seq<Seq<char>>,
    matched: Result<Seq<Seq<char>>, Seq<char>>,
) -> Result<ScopeView, ErrorView> {
    match meta.scope {
        None => Ok(no_scope()),
        Some(patterns) => match matched {
            Err(t) => Err(ErrorView::Other(t)),
            Ok(_) => {
                let outside = outside_scope(meta, staged, matched);
                if patterns.len() == 0 {
                    Ok(no_scope())
                } else if outside.len() > 0 && meta.effective_scope_mode() == ScopeMode::Strict {
                    Err(
                        ErrorView::UserMessage(
                            "staged files are outside the scope for `"@ + branch + "`"@,
                        ),
                    )
                } else {
                    Ok(scoped(meta.effective_scope_mode(), outside))
                }
            },
        },
    }
}

/// The staged files outside a branch's scope, as far as it has one and git matched them.
pub fn out_of_scope(
    meta: &BranchMeta,
    staged_files: &Vec<String>,
    matched_files: &Result<Vec<String>, String>,
) -> (r: Vec<String>)
    ensures
        views(r@) == outside_scope(meta@, views(staged_files@), matched_view(*matched_files)),
{
    let none: Vec<String> = Vec::new();
    assert(views(none@) =~= Seq::<Seq<char>>::empty());
    match (&meta.scope, matched_files) {
        (Some(patterns), Ok(matched)) => {
            assert(views(patterns@).len() == patterns.len());
            match evaluate_scope(patterns, meta.effective_scope_mode(), staged_files, matched) {
                ScopeDecision::NoConfig => none,
                ScopeDecision::InBounds(report) => report.out_of_scope_files,
                ScopeDecision::OutOfBounds(report) => report.out_of_scope_files,
            }
        },
        _ => none,
    }
}

/// Whether the staged files may be committed on a branch, and what the receipt says of its
/// scope. Files outside a strict scope stop the commit; otherwise they are reported.
pub fn scope_preflight(
    branch: &str,
    meta: &BranchMeta,
    staged_files: &Vec<String>,
    matched_files: Result<Vec<String>, String>,
) -> (r: Result<ScopeReceiptData, EzError>)
    ensures
        (match r {
            Ok(d) => Ok(d@),
            Err(e) => Err(e@),
        }) == scope_verdict(
            branch@,
            meta@,
            views(staged_files@),
            matched_view(matched_files),
        ),
{
    let patterns: &Vec<String> = match &meta.scope {
        Some(p) => p,
        None => {
            return Ok(unscoped());
        },
    };
    assert(views(patterns@).len() == patterns.len());
    let mode: ScopeMode = meta.effective_scope_mode();
    let matched: Vec<String> = match matched_files {
        Ok(v) => v,
        Err(t) => {
            return Err(EzError::Other(t));
        },
    };
    let decision: ScopeDecision = evaluate_scope(patterns, mode, staged_files, &matched);
    let receipt: ScopeReceiptData = receipt_data_from_scope_decision(&decision);
    if let ScopeDecision::OutOfBounds(report) = &decision {
        assert(views(report.out_of_scope_files@).len() == report.out_of_scope_files.len());
        if report.mode == ScopeMode::Strict {
            return Err(
                EzError::UserMessage(
                    String::from_str("staged files are outside the scope for `").concat(
                        branch,
                    ).concat("`"),
                ),
            );
        }
    }
    if let ScopeDecision::InBounds(report) = &decision {
        assert(views(report.out_of_scope_files@).len() == report.out_of_scope_files.len());
    }
    Ok(receipt)
}

/// The files that a commit hook changed: those modified after it but not before.
pub fn hook_changes(pre_modified: &Vec<String>, post_modified: &Vec<String>) -> (r: Vec<String>)
    ensures
        views(r@) == sifted(views(post_modified@), views(pre_modified@), false),
{
    let ghost all = views(post_modified@);
    let mut out: Vec<String> = Vec::new();
    let mut i: usize = 0;
    assert(all.take(0) =~= Seq::<Seq<char>>::empty());
    assert(views(out@) =~= Seq::<Seq<char>>::empty());
    while i < post_modified.len()
        invariant
            i <= post_modified.len(),
            all == views(post_modified@),
            views(out@) == sifted(all.take(i as int), views(pre_modified@), false),
        decreases post_modified.len() - i,
    {
        let ghost held = views(out@);
        assert(all.take(i + 1).drop_last() =~= all.take(i as int));
        assert(all.take(i + 1).last() == post_modified@[i as int]@);
        if !holds(pre_modified, &post_modified[i]) {
            out.push(post_modified[i].clone());
            assert(views(out@) =~= held.push(post_modified@[i as int]@));
        }
        i += 1;
    }
    assert(all.take(post_modified.len() as int) =~= all);
    out
}

/// A strict scope lets a commit pass exactly where git matched every staged file; any staged file
/// that it did not match refuses the commit.
pub proof fn law_strict_scope_passes_matched_files_only(
    branch: Seq<char>,
    meta: MetaView,
    staged: Seq<Seq<char>>,
    matched: Seq<Seq<char>>,
)
    requires
        meta.scope matches Some(patterns) && patterns.len() > 0,
        meta.scope_mode == Some(ScopeMode::Strict),
    ensures
        scope_verdict(branch, meta, staged, Ok(matched)) is Ok <==> forall|f: Seq<char>| #[trigger]
            staged.contains(f) ==> matched.contains(f),
{
    let outside = outside_scope(meta, staged, Ok(matched));
    assert forall|f: Seq<char>| #[trigger] outside.contains(f) <==> staged.contains(f)
        && !matched.contains(f) by {
        crate::scope::law_sifting_tells_files_apart(staged, matched, f);
    }
    if outside.len() > 0 {
        assert(outside.contains(outside[0]));
    } else {
        assert forall|f: Seq<char>| #[trigger] staged.contains(f) implies matched.contains(f) by {
            assert(!outside.contains(f));
        }
    }
}

/// A scope that only warns lets every commit pass, and tells of exactly the staged files that git
/// did not match; without a scope there is nothing to tell.
pub proof fn law_warning_scope_tells_of_unmatched_files(
    branch: Seq<char>,
    meta: MetaView,
    staged: Seq<Seq<char>>,
    matched: Seq<Seq<char>>,
)
    requires
        meta.scope_mode != Some(ScopeMode::Strict),
    ensures
        scope_verdict(branch, meta, staged, Ok(matched)) matches Ok(told) && {
            &&& told.scope_defined <==> (meta.scope matches Some(patterns) && patterns.len() > 0)
            &&& told.scope_defined ==> told.scope_mode == Some("warn"@)
            &&& told.scope_defined ==> forall|f: Seq<char>| #[trigger]
                told.out_of_scope_files.contains(f) <==> staged.contains(f) && !matched.contains(f)
            &&& !told.scope_defined ==> told.scope_mode is None && told.out_of_scope_files.len()
                == 0
        },
{
    assert forall|f: Seq<char>| #[trigger] sifted(staged, matched, false).contains(f)
        <==> staged.contains(f) && !matched.contains(f) by {
        crate::scope::law_sifting_tells_files_apart(staged, matched, f);
    }
}

/// A commit is refused on the trunk, on a branch that is not recorded, and where all files and
/// some paths are asked for at once, and nowhere else.
pub proof fn law_commit_is_refused_for_cause(
    s: StackView,
    current: Seq<char>,
    stage_mode: Option<StageMode>,
    paths: nat,
)
    ensures
        guard_fault(s, current, stage_mode, paths) is None <==> current != s.trunk
            && s.branches.contains_key(current) && (stage_mode is None || paths == 0),
        current == s.trunk ==> guard_fault(s, current, stage_mode, paths) == Some(
            ErrorView::OnTrunk,
        ),
        current != s.trunk && !s.branches.contains_key(current) ==> guard_fault(
            s,
            current,
            stage_mode,
            paths,
        ) == Some(ErrorView::BranchNotInStack(current)),
{
}

/// Paths given are what is staged; without them the mode decides, and without a mode nothing is
/// staged.
pub proof fn law_staging_goes_by_paths_first(stage_mode: Option<StageMode>, paths: nat)
    ensures
        staging_for(stage_mode, paths) == Staging::Paths <==> paths > 0,
        staging_for(stage_mode, paths) == Staging::AsIs <==> paths == 0 && stage_mode is None,
        staging_for(stage_mode, paths) == Staging::All <==> paths == 0 && stage_mode == Some(
            StageMode::All,
        ),
        staging_for(stage_mode, paths) == Staging::TrackedOnly <==> paths == 0 && stage_mode
            == Some(StageMode::TrackedOnly),
{
}

/// A receipt tells the files outside the scope as they were found, and a scope exactly where one
/// is set.
pub proof fn law_scope_receipt_tells_what_was_found(d: ScopeDecision)
    ensures
        receipt_for(d).scope_defined <==> !(d is NoConfig),
        d matches ScopeDecision::InBounds(report) ==> receipt_for(d).out_of_scope_files == views(
            report.out_of_scope_files@,
        ),
        d matches ScopeDecision::OutOfBounds(report) ==> receipt_for(d).out_of_scope_files == views(
            report.out_of_scope_files@,
        ),
        d is NoConfig ==> receipt_for(d).out_of_scope_files.len() == 0 && receipt_for(
            d,
        ).scope_mode is None,
{
}

} // verus!
