use ez_stack::cmd::pr_edit::{
    self, body_changed, buffer_name, resolve_editor, updated_note, Attempt, BodySource, EditBuffer,
    EditPlan, SearchPhase,
};
use ez_stack::cmd::pr_link::{self, pr_url, reported_url, Link};
use ez_stack::cmd::pr_view;
use ez_stack::cmd::push::{
    self, base_note, edit_note, head_ref, push_or_update_pr, push_receipt, push_target,
    resolve_draft, resolve_no_pr, stack_ancestors, BasePlan, PrFacts, PrPlan, PrWish,
    PushRequest,
};
use ez_stack::cmd::pushing::{PushPhase, PushReply};
use ez_stack::cmd::mutation_guard::{unscoped, ScopeReceiptData};
use ez_stack::cmd::submit::{
    self, branches_to_submit, Submission, SubmitPhase, SubmitReply, SubmitRequest,
};
use ez_stack::error::EzError;
use ez_stack::github::{NativeStackOutcome, PrInfo};
use ez_stack::json::{receipt_line, to_value};
use ez_stack::stack::StackState;
use ez_stack::stack_body::{build_stack_body, AncestorPr};

fn pr(number: u64, base: &str) -> PrInfo {
    PrInfo {
        number,
        url: format!("https://github.com/org/repo/pull/{number}"),
        state: "OPEN".to_string(),
        title: "t".to_string(),
        base: base.to_string(),
        is_draft: false,
        merged: false,
    }
}

fn stack() -> StackState {
    let mut state = StackState::new("main".to_string());
    state.add_branch("feat/a", "main", "aaa", None, None);
    state.add_branch("feat/b", "feat/a", "bbb", None, None);
    state.add_branch("feat/c", "feat/b", "ccc", None, None);
    state
}

#[test]
fn test_pr_url_construction() {
    assert_eq!(pr_url("owner/repo", 42), "https://github.com/owner/repo/pull/42");
}

#[test]
fn configured_repo_url_needs_no_discovery_inputs() {
    assert_eq!(
        pr_url("upstream/project", 123),
        "https://github.com/upstream/project/pull/123"
    );
}

#[test]
fn pr_link_prefers_the_configured_repository() {
    let mut state = stack();
    state.set_pr_number("feat/a", Some(5)).unwrap();
    assert!(matches!(pr_link::run(&state, "feat/a", None).unwrap(), Link::Ask(5)));
    assert!(matches!(
        pr_link::run(&state, "feat/a", Some("found/repo")).unwrap(),
        Link::Url(u) if u == "https://github.com/found/repo/pull/5"
    ));
    state.repo = Some("own/repo".to_string());
    assert!(matches!(
        pr_link::run(&state, "feat/a", Some("found/repo")).unwrap(),
        Link::Url(u) if u == "https://github.com/own/repo/pull/5"
    ));
    assert_eq!(reported_url(5, Some(pr(5, "main"))).unwrap(), pr(5, "main").url);
    assert_eq!(reported_url(5, None).unwrap_err().message(), "Could not find PR #5");
}

#[test]
fn pr_view_names_the_pull_request() {
    let mut state = stack();
    assert!(matches!(pr_view::run(&state, "main"), Err(EzError::BranchNotInStack(_))));
    assert!(matches!(pr_view::run(&state, "feat/a"), Err(EzError::UserMessage(_))));
    state.set_pr_number("feat/a", Some(5)).unwrap();
    assert_eq!(
        pr_view::run(&state, "feat/a").unwrap(),
        (5, "Opened PR for `feat/a`".to_string())
    );
}

#[test]
fn test_editor_resolution() {
    assert_eq!(resolve_editor(Some("code"), Some("vim")), "code");
    assert_eq!(resolve_editor(None, Some("vim")), "vim");
    assert_eq!(resolve_editor(None, None), "vi");
}

#[test]
fn edit_buffer_avoids_collisions_is_private_and_cleans_up() {
    let search = EditBuffer::begin(42, 1000, 7);
    let collision = search.path();
    assert_eq!(collision, "ez-pr-42-1000-7.md");
    let search = search.step(Attempt::Taken);
    assert_eq!(search.phase(), SearchPhase::Try);
    assert_ne!(search.path(), collision);
    assert_eq!(search.path(), buffer_name(42, 1000, 8));
    let made = search.step(Attempt::Made);
    assert_eq!(made.phase(), SearchPhase::Made);
    assert_eq!(made.path(), "ez-pr-42-1000-8.md");

    let mut exhausted = EditBuffer::begin(42, 1000, 7);
    for _ in 0..99 {
        exhausted = exhausted.step(Attempt::Taken);
        assert_eq!(exhausted.phase(), SearchPhase::Try);
    }
    let exhausted = exhausted.step(Attempt::Taken);
    assert_eq!(exhausted.phase(), SearchPhase::Failed);
    assert!(exhausted.error().unwrap().contains("after 100 attempts"));

    let failed = EditBuffer::begin(42, 1000, 7).step(Attempt::Failed("missing".to_string()));
    assert!(failed
        .error()
        .unwrap()
        .contains("failed to create temporary PR edit buffer"));
}

#[test]
fn edit_buffer_ids_wrap_around() {
    let search = EditBuffer::begin(1, 2, u64::MAX).step(Attempt::Taken);
    assert_eq!(search.path(), "ez-pr-1-2-0.md");
}

#[test]
fn pr_edit_opens_the_editor_only_where_nothing_is_given() {
    let mut state = stack();
    state.set_pr_number("feat/a", Some(9)).unwrap();
    let (n, plan) = pr_edit::run(&state, "feat/a", None, None, None).unwrap();
    assert_eq!(n, 9);
    assert!(matches!(plan, EditPlan::Editor));
    let (_, plan) = pr_edit::run(
        &state,
        "feat/a",
        Some("t".to_string()),
        Some("b".to_string()),
        Some("f.md".to_string()),
    )
    .unwrap();
    assert!(matches!(
        plan,
        EditPlan::Given { title: Some(t), body: BodySource::File(f) } if t == "t" && f == "f.md"
    ));
    let (_, plan) =
        pr_edit::run(&state, "feat/a", None, Some("b".to_string()), None).unwrap();
    assert!(matches!(
        plan,
        EditPlan::Given { title: None, body: BodySource::Text(b) } if b == "b"
    ));
    let (_, plan) =
        pr_edit::run(&state, "feat/a", Some("t".to_string()), None, None).unwrap();
    assert!(matches!(plan, EditPlan::Given { body: BodySource::Keep, .. }));
    assert!(matches!(pr_edit::run(&state, "main", None, None, None), Err(EzError::OnTrunk)));
    assert!(matches!(
        pr_edit::run(&state, "x", None, None, None),
        Err(EzError::BranchNotInStack(_))
    ));
    assert_eq!(
        pr_edit::run(&state, "feat/b", None, None, None).unwrap_err().message(),
        "No PR found for branch `feat/b` — run `ez push` to create one first"
    );
}

#[test]
fn pr_edit_notes() {
    assert!(body_changed("a", "b"));
    assert!(!body_changed("a", "a"));
    assert_eq!(
        updated_note(3, &Some(pr(3, "main")), true),
        "Updated PR #3: https://github.com/org/repo/pull/3"
    );
    assert_eq!(updated_note(3, &None, true), "Updated PR #3 body");
    assert_eq!(updated_note(3, &None, false), "Updated PR #3");
}

#[test]
fn stack_ancestors_orders_trunk_closest_first_and_builds_urls() {
    let mut state = stack();
    state.set_pr_number("feat/a", Some(10)).expect("a");
    state.set_pr_number("feat/b", Some(20)).expect("b");

    let ancestors = stack_ancestors(&state, "feat/c", "org/repo");
    assert_eq!(ancestors.len(), 2);
    assert_eq!(ancestors[0].branch, "feat/a");
    assert_eq!(ancestors[1].branch, "feat/b");
    assert_eq!(
        ancestors[0].pr_url.as_deref(),
        Some("https://github.com/org/repo/pull/10")
    );
    assert_eq!(
        ancestors[1].pr_url.as_deref(),
        Some("https://github.com/org/repo/pull/20")
    );
}

#[test]
fn stack_ancestors_handles_empty_repo_name() {
    let mut state = StackState::new("main".to_string());
    state.add_branch("feat/a", "main", "aaa", None, None);
    state.add_branch("feat/b", "feat/a", "bbb", None, None);
    state.set_pr_number("feat/a", Some(10)).expect("a");

    let ancestors = stack_ancestors(&state, "feat/b", "");
    assert_eq!(ancestors.len(), 1);
    assert!(ancestors[0].pr_url.is_none());
}

#[test]
fn a_body_shows_the_stack_below() {
    assert_eq!(build_stack_body(&Vec::new(), "text"), "text");
    let ancestors = vec![
        AncestorPr {
            branch: "feat/a".to_string(),
            pr_number: Some(10),
            pr_url: Some("https://x/10".to_string()),
        },
        AncestorPr { branch: "feat/b".to_string(), pr_number: Some(11), pr_url: None },
        AncestorPr { branch: "feat/c".to_string(), pr_number: None, pr_url: None },
    ];
    assert_eq!(
        build_stack_body(&ancestors, "text"),
        "text\n\n---\n**Stack:**\n\n- [#10](https://x/10) `feat/a`\n- #11 `feat/b`\n- `feat/c`"
    );
}

#[test]
fn flags_go_before_configuration() {
    assert!(resolve_draft(true, false, None));
    assert!(!resolve_draft(false, true, Some(true)));
    assert!(resolve_draft(false, false, Some(true)));
    assert!(!resolve_draft(false, false, None));
    assert!(resolve_no_pr(true, false, None));
    assert!(!resolve_no_pr(false, true, Some(true)));
    assert!(resolve_no_pr(false, false, Some(true)));
    assert!(!resolve_no_pr(false, false, Some(false)));
}

#[test]
fn a_fork_qualifies_the_head() {
    let mut state = stack();
    let target = push_target(&state, &None, &None, &None);
    assert_eq!(target.remote, "origin");
    assert!(!target.fork_workflow);
    assert_eq!(head_ref(&target, "feat/a"), "feat/a");
    state.remote = "fork".to_string();
    state.upstream_remote = Some("upstream".to_string());
    state.repo = Some("upstream-owner/project".to_string());
    state.fork_repo = Some("my-user/project".to_string());
    let target = push_target(&state, &None, &None, &None);
    assert!(target.fork_workflow);
    assert_eq!(head_ref(&target, "feat/auth"), "my-user:feat/auth");
    let target = push_target(
        &stack(),
        &Some("fork".to_string()),
        &Some("up/p".to_string()),
        &Some("me/p".to_string()),
    );
    assert_eq!(target.remote, "fork");
    assert_eq!(head_ref(&target, "feat/a"), "me:feat/a");
}

#[test]
fn push_takes_the_parent_as_base() {
    let state = stack();
    let push = |branch: &str, r: PushRequest| push::run(&state, branch, r, unscoped());
    assert_eq!(push("feat/b", push_request()).unwrap().parent(), "feat/a");
    let elsewhere = PushRequest { base: Some("dev".to_string()), ..push_request() };
    assert_eq!(push("feat/b", elsewhere).unwrap().parent(), "dev");
    assert!(matches!(push("main", push_request()), Err(EzError::OnTrunk)));
    assert!(matches!(push("x", push_request()), Err(EzError::BranchNotInStack(_))));
}

fn push_request() -> PushRequest {
    PushRequest {
        base: None,
        no_pr: false,
        pr: false,
        draft: false,
        no_draft: false,
        title: None,
        body: None,
        remote: None,
        repo: None,
        fork_repo: None,
    }
}

fn bare_facts() -> PrFacts {
    PrFacts {
        existing: None,
        parent_is_ancestor: true,
        subject: Some("first".to_string()),
        repo_name: "o/r".to_string(),
    }
}

#[test]
fn a_pull_request_is_opened_only_after_the_push() {
    let mut state = stack();
    state.set_pr_number("feat/b", None).unwrap();
    let work = push::run(&state, "feat/b", push_request(), unscoped()).unwrap();
    assert_eq!(work.phase(), PushPhase::Fetch);
    let work = work.step(PushReply::Facts(bare_facts()));
    assert_eq!(work.phase(), PushPhase::Fetch, "nothing is looked at before the push");
    let work = work.step(PushReply::Done);
    assert_eq!(work.phase(), PushPhase::Push);
    let work = work.step(PushReply::Done).step(PushReply::Facts(bare_facts()));
    assert_eq!(work.phase(), PushPhase::Create);
    assert!(matches!(
        work.plan(),
        Some(PrPlan::Create { title, base, .. }) if title == "first" && base == "feat/a"
    ));
    let work = work.step(PushReply::Opened(pr(9, "feat/a")));
    assert_eq!(work.phase(), PushPhase::Save);
    assert_eq!(work.state().get_branch("feat/b").unwrap().pr_number, Some(9));
    let (url, receipt) = work.step(PushReply::Done).finish().unwrap();
    assert!(url.is_some());
    let receipt = to_value(&receipt.unwrap());
    assert_eq!(receipt["pr_number"], 9);
    assert_eq!(receipt["created"], true);
}

#[test]
fn a_push_without_pull_requests_ends_with_the_push() {
    let alone = PushRequest { no_pr: true, ..push_request() };
    let work = push::run(&stack(), "feat/b", alone, unscoped()).unwrap();
    let work = work.step(PushReply::Done).step(PushReply::Done);
    assert_eq!(work.phase(), PushPhase::Finished);
    let (url, receipt) = work.finish().unwrap();
    assert!(url.is_none());
    assert_eq!(to_value(&receipt.unwrap())["created"], false);
    let mut quiet = stack();
    quiet.no_pr = Some(true);
    let work = push::run(&quiet, "feat/b", push_request(), unscoped()).unwrap();
    assert_eq!(work.step(PushReply::Done).step(PushReply::Done).phase(), PushPhase::Finished);
    let asked = PushRequest { pr: true, ..push_request() };
    let work = push::run(&quiet, "feat/b", asked, unscoped()).unwrap();
    assert_eq!(work.step(PushReply::Done).step(PushReply::Done).phase(), PushPhase::Look);
}

#[test]
fn a_refused_push_leaves_the_pull_request_alone() {
    let work = push::run(&stack(), "feat/b", push_request(), unscoped()).unwrap();
    let work = work.step(PushReply::Done).step(PushReply::Failed("stale info".to_string()));
    assert_eq!(work.phase(), PushPhase::Failed);
    assert!(work.plan().is_none());
    assert_eq!(work.finish().unwrap_err().message(), "stale info");
}

fn wish(title: Option<&str>, body: Option<&str>) -> PrWish {
    PrWish {
        draft: true,
        title: title.map(|s| s.to_string()),
        body: body.map(|s| s.to_string()),
        body_set: body.is_some(),
    }
}

fn facts(existing: Option<PrInfo>, parent_is_ancestor: bool, subject: Option<&str>) -> PrFacts {
    PrFacts {
        existing,
        parent_is_ancestor,
        subject: subject.map(|s| s.to_string()),
        repo_name: "org/repo".to_string(),
    }
}

#[test]
fn an_existing_pull_request_is_recorded_and_brought_in_line() {
    let mut state = stack();
    let plan = push_or_update_pr(
        &mut state,
        "feat/b",
        "feat/a",
        "feat/b",
        &wish(None, None),
        &facts(Some(pr(20, "main")), true, None),
    )
    .unwrap();
    assert!(matches!(
        plan,
        PrPlan::Update { number: 20, base_plan: BasePlan::Change, edit: None, .. }
    ));
    assert_eq!(state.get_branch("feat/b").unwrap().pr_number, Some(20));
    let plan = push_or_update_pr(
        &mut state,
        "feat/b",
        "feat/a",
        "feat/b",
        &wish(Some("T"), Some("B")),
        &facts(Some(pr(20, "main")), false, None),
    )
    .unwrap();
    assert!(matches!(
        plan,
        PrPlan::Update { base_plan: BasePlan::Stale, edit: Some((Some(t), Some(b))), .. }
            if t == "T" && b == "B\n\n---\n**Stack:**\n\n- `feat/a`"
    ));
    let plan = push_or_update_pr(
        &mut state,
        "feat/b",
        "feat/a",
        "feat/b",
        &wish(Some("T"), None),
        &facts(Some(pr(20, "feat/a")), false, None),
    )
    .unwrap();
    assert!(matches!(
        plan,
        PrPlan::Update { base_plan: BasePlan::Keep, edit: Some((Some(_), None)), .. }
    ));
    assert!(push_or_update_pr(
        &mut state,
        "unknown",
        "main",
        "unknown",
        &wish(None, None),
        &facts(Some(pr(1, "main")), true, None),
    )
    .is_err());
}

#[test]
fn a_new_pull_request_takes_its_title_from_the_first_commit() {
    let mut state = stack();
    let plan = push_or_update_pr(
        &mut state,
        "feat/a",
        "main",
        "me:feat/a",
        &wish(None, None),
        &facts(None, true, Some("add a")),
    )
    .unwrap();
    assert!(matches!(
        plan,
        PrPlan::Create { title, body, base, head, draft: true }
            if title == "add a"
                && body == "Part of a stack managed by `ez`."
                && base == "main"
                && head == "me:feat/a"
    ));
    assert_eq!(state.get_branch("feat/a").unwrap().pr_number, None);
    let plan = push_or_update_pr(
        &mut state,
        "feat/a",
        "main",
        "feat/a",
        &wish(None, None),
        &facts(None, true, None),
    )
    .unwrap();
    assert!(matches!(plan, PrPlan::Create { title, .. } if title == "feat/a"));
}

#[test]
fn push_notes_and_receipt() {
    assert_eq!(base_note(4, "p", "b", BasePlan::Keep, &None), None);
    assert_eq!(
        base_note(4, "p", "b", BasePlan::Change, &None).unwrap(),
        "Updated PR #4 base to `p`"
    );
    assert_eq!(
        base_note(4, "p", "b", BasePlan::Change, &Some("no".to_string())).unwrap(),
        "Push succeeded but PR #4 base could not be updated to `p`: no"
    );
    assert!(base_note(4, "p", "b", BasePlan::Stale, &None)
        .unwrap()
        .starts_with("PR #4 base not updated: `p` is not an ancestor of `b`"));
    assert_eq!(edit_note(4, true, &None), "Updated PR #4");
    assert_eq!(edit_note(4, false, &None), "Updated PR #4 title");
    assert_eq!(
        edit_note(4, false, &Some("no".to_string())),
        "Push succeeded but PR #4 title could not be updated: no"
    );
    let scope = ScopeReceiptData {
        scope_defined: false,
        scope_mode: None,
        out_of_scope_files: Vec::new(),
    };
    assert_eq!(
        receipt_line(&push_receipt("b", Some(4), &None, false, &scope)),
        "{\"branch\":\"b\",\"cmd\":\"push\",\"created\":false,\"out_of_scope_count\":0,\"out_of_scope_files\":[],\"pr_number\":4,\"pr_url\":null,\"scope_defined\":false,\"scope_mode\":null}"
    );
}

#[test]
fn branches_to_submit_orders_bottom_to_top_and_skips_trunk() {
    let path = vec![
        "feat/c".to_string(),
        "feat/b".to_string(),
        "feat/a".to_string(),
        "main".to_string(),
    ];
    assert_eq!(
        branches_to_submit(&path, "main"),
        vec!["feat/a".to_string(), "feat/b".to_string(), "feat/c".to_string()]
    );
}

#[test]
fn branches_to_submit_handles_trunk_only_path() {
    let path = vec!["main".to_string()];
    assert!(branches_to_submit(&path, "main").is_empty());
}

fn request() -> SubmitRequest {
    SubmitRequest {
        draft: false,
        no_draft: false,
        title: None,
        body: None,
        remote: None,
        repo: None,
        fork_repo: None,
    }
}

fn two_layers() -> StackState {
    let mut state = StackState::new("main".to_string());
    state.add_branch("feat/a", "main", "m0", None, None);
    state.add_branch("feat/b", "feat/a", "a0", None, None);
    state
}

#[test]
fn submit_atomic_push_failure_aborts_before_github_mutation() {
    let mut state = two_layers();
    state.remote = "missing-origin".to_string();
    let s = submit::run(&state, "feat/b", request()).expect("submission");
    assert_eq!(s.target().remote, "missing-origin");
    assert_eq!(s.phase(), SubmitPhase::Fetch);
    let s = s.step(SubmitReply::Done).step(SubmitReply::Done);
    assert_eq!(s.phase(), SubmitPhase::Push);
    let s = s.step(SubmitReply::Failed(
        "'missing-origin' does not appear to be a git repository".to_string(),
    ));
    assert_eq!(s.phase(), SubmitPhase::Failed);
    assert_eq!(s.state().get_branch("feat/a").expect("feat/a").pr_number, None);
    assert_eq!(s.state().get_branch("feat/b").expect("feat/b").pr_number, None);
    assert!(s.numbers().is_empty());
    let err = s.finish().expect_err("atomic push should fail");
    assert!(err.message().contains("missing-origin"));
}

fn pushed(state: &StackState) -> Submission {
    submit::run(state, "feat/b", request())
        .unwrap()
        .step(SubmitReply::Done)
        .step(SubmitReply::Done)
        .step(SubmitReply::Done)
}

#[test]
fn submit_records_every_pull_request_and_links_them() {
    let s = pushed(&two_layers());
    assert_eq!(s.phase(), SubmitPhase::Look);
    assert_eq!(s.branch().unwrap(), "feat/a");
    let s = s.step(SubmitReply::Facts(facts(None, true, Some("add a"))));
    assert_eq!(s.phase(), SubmitPhase::Create);
    assert!(matches!(s.plan().unwrap(), PrPlan::Create { base, .. } if base == "main"));
    let s = s.step(SubmitReply::Opened(pr(1, "main")));
    assert_eq!(s.phase(), SubmitPhase::Look);
    let s = s.step(SubmitReply::Facts(facts(Some(pr(2, "main")), true, None)));
    assert_eq!(s.phase(), SubmitPhase::Update);
    let s = s.step(SubmitReply::Done);
    assert_eq!(s.phase(), SubmitPhase::Save);
    assert_eq!(s.state().get_branch("feat/a").unwrap().pr_number, Some(1));
    assert_eq!(s.state().get_branch("feat/b").unwrap().pr_number, Some(2));
    let s = s.step(SubmitReply::Done);
    assert_eq!(s.phase(), SubmitPhase::Link);
    assert_eq!(s.numbers(), vec![1, 2]);
    assert_eq!(s.branches(), vec!["feat/a".to_string(), "feat/b".to_string()]);
    let s = s.step(SubmitReply::Linked(NativeStackOutcome::Created { number: 8 }));
    assert_eq!(s.phase(), SubmitPhase::Finished);
    let (urls, receipts) = s.finish().unwrap();
    assert_eq!(urls, vec![pr(1, "main").url, pr(2, "main").url]);
    assert_eq!(receipts.len(), 3);
    assert_eq!(
        receipt_line(&receipts[0]),
        "{\"branch\":\"feat/a\",\"cmd\":\"submit\",\"fork_repo\":null,\"pr_number\":1,\"pr_url\":\"https://github.com/org/repo/pull/1\",\"remote\":\"origin\",\"repo\":null}"
    );
    assert_eq!(
        receipt_line(&receipts[2]),
        "{\"branches\":[\"feat/a\",\"feat/b\"],\"cmd\":\"submit\",\"native_stack_action\":\"created\",\"native_stack_number\":8,\"pull_requests\":[1,2]}"
    );
}

#[test]
fn submit_survives_a_native_stack_that_cannot_be_linked() {
    let s = pushed(&two_layers())
        .step(SubmitReply::Facts(facts(Some(pr(1, "main")), true, None)))
        .step(SubmitReply::Done)
        .step(SubmitReply::Facts(facts(Some(pr(2, "feat/a")), true, None)))
        .step(SubmitReply::Done)
        .step(SubmitReply::Done)
        .step(SubmitReply::Failed("no such API".to_string()));
    assert_eq!(s.phase(), SubmitPhase::Finished);
    let (_, receipts) = s.finish().unwrap();
    assert!(receipt_line(&receipts[2]).contains("\"native_stack_error\":\"no such API\""));
}

#[test]
fn submit_skips_native_stacks_in_a_fork_workflow() {
    let mut state = two_layers();
    state.fork_repo = Some("me/p".to_string());
    let s = pushed(&state)
        .step(SubmitReply::Facts(facts(Some(pr(1, "main")), true, None)))
        .step(SubmitReply::Done)
        .step(SubmitReply::Facts(facts(Some(pr(2, "feat/a")), true, None)))
        .step(SubmitReply::Done)
        .step(SubmitReply::Done);
    assert_eq!(s.phase(), SubmitPhase::Finished);
    let (_, receipts) = s.finish().unwrap();
    assert!(receipt_line(&receipts[2]).contains("\"native_stack_action\":\"not_applicable\""));
}

#[test]
fn submit_needs_a_recorded_branch() {
    assert!(matches!(submit::run(&two_layers(), "main", request()), Err(EzError::OnTrunk)));
    assert!(matches!(
        submit::run(&two_layers(), "x", request()),
        Err(EzError::BranchNotInStack(_))
    ));
}
