use ez_stack::cmd::config::{
    find_key, get, get_value, is_known_key, list, set_value, unset, ConfigKey,
};
use ez_stack::cmd::{draft, init};
use ez_stack::error::EzError;
use ez_stack::json::receipt_line;
use ez_stack::stack::StackState;

fn fresh() -> StackState {
    StackState::new("main".to_string())
}

#[test]
fn get_returns_trunk() {
    let state = fresh();
    assert_eq!(get_value(&state, "trunk"), Some("main".to_string()));
}

#[test]
fn get_returns_remote() {
    let state = fresh();
    assert_eq!(get_value(&state, "remote"), Some("origin".to_string()));
}

#[test]
fn get_returns_none_for_unset_optional_keys() {
    let state = fresh();
    assert_eq!(get_value(&state, "default_from"), None);
    assert_eq!(get_value(&state, "repo"), None);
}

#[test]
fn set_updates_trunk() {
    let mut state = fresh();
    set_value(&mut state, "trunk", "develop").unwrap();
    assert_eq!(state.trunk, "develop");
}

#[test]
fn set_updates_remote() {
    let mut state = fresh();
    set_value(&mut state, "remote", "fork").unwrap();
    assert_eq!(state.remote, "fork");
}

#[test]
fn set_updates_default_from() {
    let mut state = fresh();
    set_value(&mut state, "default_from", "dev").unwrap();
    assert_eq!(state.default_from, Some("dev".to_string()));
}

#[test]
fn set_updates_repo() {
    let mut state = fresh();
    set_value(&mut state, "repo", "owner/repo").unwrap();
    assert_eq!(state.repo, Some("owner/repo".to_string()));
}

#[test]
fn unknown_key_returns_none() {
    let state = fresh();
    assert_eq!(get_value(&state, "nonexistent"), None);
}

#[test]
fn unknown_key_fails_on_set() {
    let mut state = fresh();
    let err = set_value(&mut state, "nonexistent", "val").expect_err("should fail");
    assert!(err.message().contains("unknown config key"));
}

#[test]
fn is_known_key_works() {
    assert!(is_known_key("trunk"));
    assert!(is_known_key("remote"));
    assert!(is_known_key("default_from"));
    assert!(is_known_key("repo"));
    assert!(!is_known_key("garbage"));
}

#[test]
fn list_does_not_panic() {
    let lines = list(&fresh());
    assert_eq!(lines.len(), 9);
    assert_eq!(lines[0].0, "  trunk           = main");
    assert_eq!(lines[0].1, "Trunk branch name (e.g. main, master, develop)");
    assert_eq!(lines[2].0, "  default_from    = (not set)");
}

#[test]
fn get_unknown_key_fails() {
    let err = get(&fresh(), "bogus").expect_err("should fail");
    assert!(err.message().contains("unknown config key"));
    assert_eq!(
        err.message(),
        "unknown config key `bogus`\n  → Known keys: trunk, remote, default_from, repo, upstream_remote, fork_repo, draft, no_pr, rerere"
    );
}

#[test]
fn get_unset_key_fails() {
    let err = get(&fresh(), "default_from").expect_err("should fail");
    assert!(err.message().contains("not set"));
}

#[test]
fn roundtrip_set_get() {
    let mut state = fresh();
    let (note, receipt) = ez_stack::cmd::config::set(&mut state, "remote", "myfork").expect("set should succeed");
    assert_eq!(state.remote, "myfork");
    assert_eq!(note, "remote: origin → myfork");
    assert_eq!(
        receipt_line(&receipt),
        "{\"cmd\":\"config set\",\"key\":\"remote\",\"value\":\"myfork\"}"
    );
    let (again, _) = ez_stack::cmd::config::set(&mut state, "remote", "myfork").expect("set should succeed");
    assert_eq!(again, "remote is already set to `myfork`");
    let (first, _) = ez_stack::cmd::config::set(&mut state, "repo", "owner/name").expect("set should succeed");
    assert_eq!(first, "repo = owner/name");
}

#[test]
fn every_setting_reads_back_what_was_set() {
    for (key, value) in [
        ("trunk", "develop"),
        ("remote", "fork"),
        ("default_from", "dev"),
        ("repo", "up/project"),
        ("upstream_remote", "upstream"),
        ("fork_repo", "me/project"),
        ("draft", "true"),
        ("no_pr", "false"),
        ("rerere", "true"),
    ] {
        let mut state = fresh();
        set_value(&mut state, key, value).unwrap();
        assert_eq!(get(&state, key).unwrap(), value);
        for other in ["trunk", "remote", "default_from", "repo", "draft", "no_pr"] {
            if other != key {
                assert_eq!(get_value(&state, other), get_value(&fresh(), other));
            }
        }
    }
}

#[test]
fn switches_take_only_true_and_false() {
    let mut state = fresh();
    let err = set_value(&mut state, "draft", "yes").expect_err("not a switch");
    assert_eq!(
        err.message(),
        "invalid value `yes` for config key `draft`\n  → Use `true` or `false`"
    );
    assert_eq!(state.draft, None);
}

#[test]
fn unset_takes_a_setting_back() {
    let mut state = fresh();
    set_value(&mut state, "repo", "owner/name").unwrap();
    set_value(&mut state, "remote", "fork").unwrap();
    let receipt = unset(&mut state, "repo").unwrap();
    assert_eq!(receipt_line(&receipt), "{\"cmd\":\"config unset\",\"key\":\"repo\"}");
    assert_eq!(get_value(&state, "repo"), None);
    unset(&mut state, "remote").unwrap();
    assert_eq!(state.remote, "origin");
    assert_eq!(
        unset(&mut state, "trunk").expect_err("trunk stays").message(),
        "config key `trunk` cannot be unset"
    );
    assert!(unset(&mut state, "bogus").is_err());
}

#[test]
fn setting_names_are_found() {
    assert_eq!(find_key("no_pr"), Some(ConfigKey::NoPr));
    assert_eq!(find_key("rerere"), Some(ConfigKey::Rerere));
    assert_eq!(find_key("No_pr"), None);
    assert_eq!(ConfigKey::ForkRepo.name(), "fork_repo");
}

fn facts(is_repo: bool, initialized: bool) -> init::InitFacts {
    init::InitFacts {
        is_repo,
        initialized,
        default_branch: Ok("main".to_string()),
    }
}

#[test]
fn init_fails_outside_git_repo() {
    let err = init::run(None, facts(false, false)).expect_err("non-repo should fail");
    assert!(matches!(err, EzError::NotARepo));
}

#[test]
fn init_fails_when_state_already_exists() {
    let err = init::run(None, facts(true, true)).expect_err("double init should fail");
    assert!(matches!(err, EzError::AlreadyInitialized));
}

#[test]
fn init_uses_default_branch_when_trunk_not_provided() {
    let state = init::run(None, facts(true, false)).expect("init should succeed");
    assert_eq!(state.trunk, "main");
    assert_eq!(state.remote, "origin");
}

#[test]
fn init_takes_the_given_trunk_and_reports_a_missing_default() {
    let state = init::run(Some("develop".to_string()), facts(true, false)).unwrap();
    assert_eq!(state.trunk, "develop");
    assert_eq!(state.rerere, None);
    let lost = init::InitFacts {
        is_repo: true,
        initialized: false,
        default_branch: Err("no default branch".to_string()),
    };
    assert_eq!(init::run(None, lost).unwrap_err().message(), "no default branch");
}

#[test]
fn init_records_only_an_accepted_offer() {
    let mut state = fresh();
    init::record_rerere(&mut state, false);
    assert_eq!(state.rerere, None);
    init::record_rerere(&mut state, true);
    assert_eq!(state.rerere, Some(true));
}

#[test]
fn test_ready_semantics() {
    let mut state = fresh();
    state.add_branch("feat/a", "main", "aaa", None, None);
    state.set_pr_number("feat/a", Some(7)).unwrap();
    assert_eq!(
        draft::run(&state, "feat/a", true).unwrap(),
        (7, "PR #7 marked as ready for review".to_string())
    );
    assert_eq!(
        draft::run(&state, "feat/a", false).unwrap(),
        (7, "PR #7 marked as draft".to_string())
    );
}

#[test]
fn draft_needs_a_recorded_branch_with_a_pull_request() {
    let mut state = fresh();
    state.add_branch("feat/a", "main", "aaa", None, None);
    assert!(matches!(draft::run(&state, "main", true), Err(EzError::OnTrunk)));
    assert!(matches!(
        draft::run(&state, "feat/x", true),
        Err(EzError::BranchNotInStack(b)) if b == "feat/x"
    ));
    assert_eq!(
        draft::run(&state, "feat/a", true).unwrap_err().message(),
        "No PR found for `feat/a` — run `ez push` to create one first"
    );
}

#[test]
fn conflicts_have_their_own_exit_code() {
    assert_eq!(EzError::RebaseConflict("feat/a".to_string()).exit_code(), 3);
    let left = EzError::RestackIncomplete { count: 2, branches: "a, b".to_string() };
    assert_eq!(left.exit_code(), 3);
    assert_eq!(left.message(), "2 branch(es) could not be restacked: a, b");
    assert_eq!(EzError::OnTrunk.exit_code(), 1);
}
