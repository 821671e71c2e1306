use ez_stack::cmd::setup::{
    appended, detect_shell_name, ez_home, find_rc_file, is_setup_done, planned_setup_lines,
    rc_display, rc_file_for_home, run, SetupStep,
};
use ez_stack::cmd::skill::{
    agent_roots, agent_skill_dirs, agent_skill_file, canonical_skill_dir, canonical_skill_file, canonical_stale,
    ensure_agent_skill_target, install, install_report, install_status, is_ez_workflow_skill,
    is_managed_agent_skill_target, managed_fallback_copy_content, relative_path, removes_dir,
    skill_places, uninstall, uninstall_message, uninstall_plan, AgentAction, AgentInstallStatus, Entry,
    SkillFile,
};

const SKILL: &str = "---\nname: ez-workflow\n---\nUse ez.\n";

#[test]
fn detect_shell_name_accepts_supported_shells_only() {
    assert_eq!(detect_shell_name("/bin/zsh").as_deref(), Some("zsh"));
    assert_eq!(detect_shell_name("/usr/local/bin/bash").as_deref(), Some("bash"));
    assert_eq!(detect_shell_name("fish").as_deref(), Some("fish"));
    assert_eq!(detect_shell_name("/bin/tcsh"), None);
}

#[test]
fn rc_file_for_home_picks_expected_shell_config() {
    let home = "/tmp/home";
    assert_eq!(rc_file_for_home("zsh", home, false).as_deref(), Some("/tmp/home/.zshrc"));
    assert_eq!(
        rc_file_for_home("fish", home, false).as_deref(),
        Some("/tmp/home/.config/fish/config.fish")
    );
    assert_eq!(rc_file_for_home("bash", home, true).as_deref(), Some("/tmp/home/.bashrc"));
    assert_eq!(
        rc_file_for_home("bash", home, false).as_deref(),
        Some("/tmp/home/.bash_profile")
    );
}

#[test]
fn planned_setup_lines_adds_only_missing_lines() {
    assert_eq!(
        planned_setup_lines("zsh", Some("/bin/ez"), "", ""),
        vec![
            r#"export PATH="/bin/ez:$PATH""#.to_string(),
            r#"eval "$(ez shell-init)""#.to_string()
        ]
    );
    assert_eq!(
        planned_setup_lines("fish", Some("/bin/ez"), "/bin/ez:/usr/bin", "ez shell-init"),
        Vec::<String>::new()
    );
}

#[test]
fn setting_up_twice_adds_nothing() {
    for shell in ["zsh", "fish"] {
        let lines = planned_setup_lines(shell, Some("/opt/ez/bin"), "/usr/bin", "alias x=y\n");
        assert_eq!(lines.len(), 2);
        let rc = appended("alias x=y\n", &lines);
        assert!(planned_setup_lines(shell, Some("/opt/ez/bin"), "/usr/bin", &rc).is_empty());
    }
    assert_eq!(
        appended("a\n", &vec!["b".to_string(), "c".to_string()]),
        "a\n\n# ez-stack shell integration\nb\nc\n"
    );
}

#[test]
fn setup_asks_only_where_an_answer_is_needed() {
    let lines = vec!["x".to_string()];
    assert_eq!(run(&Vec::new(), false, true), SetupStep::Configured);
    assert_eq!(run(&lines, false, true), SetupStep::Confirm);
    assert_eq!(run(&lines, true, true), SetupStep::Write);
    assert_eq!(run(&lines, false, false), SetupStep::Write);
}

#[test]
fn setup_reports_an_unknown_shell_or_home() {
    let (shell, rc) = find_rc_file(Some("/bin/bash"), Some("/home/u"), true).unwrap();
    assert_eq!((shell.as_str(), rc.as_str()), ("bash", "/home/u/.bashrc"));
    let err = find_rc_file(Some("/bin/tcsh"), Some("/home/u"), true).unwrap_err();
    assert!(err.message().starts_with("could not detect shell from $SHELL"));
    let err = find_rc_file(None, Some("/home/u"), true).unwrap_err();
    assert!(err.message().starts_with("could not detect shell from $SHELL"));
    let err = find_rc_file(Some("zsh"), None, true).unwrap_err();
    assert!(err.message().starts_with("could not determine rc file for shell `zsh`"));
}

#[test]
fn setup_paths_and_display() {
    assert_eq!(ez_home("/home/u"), "/home/u/.ez");
    assert_eq!(ez_home("/"), "/.ez");
    assert_eq!(rc_display("/home/u/.zshrc", "/home/u"), "~/.zshrc");
    assert!(is_setup_done(true, true));
    assert!(!is_setup_done(false, true));
    assert!(!is_setup_done(true, false));
}

#[test]
fn canonical_skill_dir_points_to_agents_skills() {
    assert_eq!(canonical_skill_dir("/repo"), "/repo/.agents/skills/ez-workflow");
    assert_eq!(canonical_skill_file("/repo"), "/repo/.agents/skills/ez-workflow/SKILL.md");
}

fn roots() -> Vec<String> {
    vec![".helper/skills".to_string()]
}

#[test]
fn agent_skill_dirs_stand_under_each_agent_root() {
    assert_eq!(
        agent_skill_dirs("/repo", &roots()),
        vec![
            "/repo/.helper/skills/ez-workflow".to_string(),
            "/repo/.codex/skills/ez-workflow".to_string(),
        ]
    );
    assert_eq!(agent_roots(&Vec::new()), vec![".codex/skills".to_string()]);
    assert_eq!(
        install("/repo", &Vec::new()).agents,
        vec!["/repo/.codex/skills/ez-workflow".to_string()]
    );
}

#[test]
fn links_are_compared_as_paths() {
    let places = skill_places("/repo", &roots());
    for text in [
        "../../.agents/skills/ez-workflow/",
        "../..//.agents/skills/ez-workflow",
        ".././../.agents/skills/./ez-workflow",
    ] {
        let link = Entry::Link(text.to_string());
        assert!(matches!(
            ensure_agent_skill_target(&places.dir, &places.agents[0], &link, SKILL).unwrap(),
            AgentAction::Nothing
        ));
        assert!(is_managed_agent_skill_target(&places.dir, &places.agents[0], &link).unwrap());
    }
    for text in ["./../../.agents/skills/ez-workflow", "/repo/.agents/skills/ez-workflow"] {
        let link = Entry::Link(text.to_string());
        assert!(matches!(
            ensure_agent_skill_target(&places.dir, &places.agents[0], &link, SKILL).unwrap(),
            AgentAction::Relink(t) if t == "../../.agents/skills/ez-workflow"
        ));
        assert!(!is_managed_agent_skill_target(&places.dir, &places.agents[0], &link).unwrap());
    }
}

#[test]
fn relative_path_walks_between_agent_dirs() {
    assert_eq!(
        relative_path("/repo/.helper/skills", "/repo/.agents/skills/ez-workflow"),
        "../../.agents/skills/ez-workflow"
    );
}

#[test]
fn relative_path_returns_dot_for_identical_paths() {
    assert_eq!(relative_path("/repo/.agents", "/repo/.agents"), ".");
}

#[test]
fn relative_path_from_a_relative_place_to_the_root() {
    assert_eq!(relative_path("a/b", "/x/y"), "/x/y");
    assert_eq!(relative_path("a/b", "a/c/d"), "../c/d");
}

#[test]
fn ez_workflow_skill_detection_requires_front_matter_name_before_close() {
    assert!(!is_ez_workflow_skill("name: ez-workflow\n"));
    assert!(!is_ez_workflow_skill("---\n---\nname: ez-workflow\n"));
    assert!(!is_ez_workflow_skill("---\nname: other-workflow\n---\n"));
    assert!(!is_ez_workflow_skill("---\nsummary: missing name\n"));
    assert!(is_ez_workflow_skill("---\nname: ez-workflow\n---\n"));
}

fn directory(entries: &[(&str, bool)], skill: Option<&str>) -> Entry {
    Entry::Directory {
        entries: entries.iter().map(|(n, f)| (n.to_string(), *f)).collect(),
        skill: skill.map(|s| s.to_string()),
    }
}

#[test]
fn managed_fallback_copy_content_rejects_unmanaged_shapes() {
    assert!(managed_fallback_copy_content(&Entry::Other).is_none());
    assert!(managed_fallback_copy_content(&directory(&[], None)).is_none());
    assert!(managed_fallback_copy_content(&directory(&[("README.md", true)], None)).is_none());
    assert!(managed_fallback_copy_content(&directory(
        &[("SKILL.md", true), ("notes.txt", true)],
        Some(SKILL)
    ))
    .is_none());
    assert!(
        managed_fallback_copy_content(&directory(&[("SKILL.md", false)], Some(SKILL))).is_none()
    );
    assert_eq!(
        managed_fallback_copy_content(&directory(&[("SKILL.md", true)], Some(SKILL))).as_deref(),
        Some(SKILL)
    );
}

#[test]
fn symlink_failure_installs_a_managed_compatibility_copy() {
    let places = skill_places("/home/u", &roots());
    let action =
        ensure_agent_skill_target(&places.dir, &places.agents[1], &Entry::Missing, SKILL).unwrap();
    assert!(matches!(
        &action,
        AgentAction::Link(t) if t == "../../.agents/skills/ez-workflow"
    ));
    assert_eq!(install_status(&action, false), AgentInstallStatus::Copied);
    assert_eq!(install_status(&action, true), AgentInstallStatus::Linked);
    assert_eq!(
        agent_skill_file(&places.agents[1]),
        "/home/u/.codex/skills/ez-workflow/SKILL.md"
    );
}

#[test]
fn uninstall_is_idempotent_when_nothing_is_installed() {
    let places = skill_places("/home/u", &roots());
    let plan =
        uninstall_plan(&places, &vec![Entry::Missing, Entry::Missing], SkillFile::Missing).unwrap();
    assert!(plan.agents.is_empty());
    assert_eq!(plan.file.unwrap(), false);
    assert_eq!(uninstall_message(false), "ez-workflow skill is not installed in this repo");
}

#[test]
fn managed_agent_target_recognizes_relative_symlink_and_fallback_copy() {
    let places = skill_places("/home/u", &roots());
    let link = Entry::Link("../../.agents/skills/ez-workflow".to_string());
    assert!(is_managed_agent_skill_target(&places.dir, &places.agents[0], &link).unwrap());
    let copy = directory(&[("SKILL.md", true)], Some(SKILL));
    assert!(is_managed_agent_skill_target(&places.dir, &places.agents[1], &copy).unwrap());
    assert!(matches!(
        ensure_agent_skill_target(&places.dir, &places.agents[1], &copy, SKILL).unwrap(),
        AgentAction::Nothing
    ));
    assert!(matches!(
        ensure_agent_skill_target(&places.dir, &places.agents[0], &link, SKILL).unwrap(),
        AgentAction::Nothing
    ));
    let other = directory(&[("SKILL.md", true)], Some("---\nname: other\n---\n"));
    assert!(!is_managed_agent_skill_target(&places.dir, &places.agents[1], &other).unwrap());
    assert!(is_managed_agent_skill_target(&places.dir, "/", &link).is_err());
}

#[test]
fn install_creates_canonical_skill_and_symlinks() {
    let places = install("/repo", &roots());
    assert_eq!(places.dir, "/repo/.agents/skills/ez-workflow");
    assert_eq!(places.file, "/repo/.agents/skills/ez-workflow/SKILL.md");
    assert_eq!(places.agents[1], "/repo/.codex/skills/ez-workflow");
    assert!(canonical_stale(&None, SKILL));
    let mut statuses = Vec::new();
    for dir in &places.agents {
        let action =
            ensure_agent_skill_target(&places.dir, dir, &Entry::Missing, SKILL).unwrap();
        statuses.push(install_status(&action, true));
    }
    let report = install_report(true, &places.agents, &statuses);
    assert!(report.changed);
    assert_eq!(report.message, "Installed ez-workflow skill");
    assert!(!report.copied);
    assert!(report.warnings.is_empty());
}

#[test]
fn install_preserves_existing_non_symlink_agent_skill_dir() {
    let places = skill_places("/home/u", &roots());
    let custom = directory(&[("custom.txt", true)], None);
    let action =
        ensure_agent_skill_target(&places.dir, &places.agents[0], &custom, SKILL).unwrap();
    assert!(matches!(action, AgentAction::Preserve));
    let statuses = vec![install_status(&action, true), AgentInstallStatus::Linked];
    let report = install_report(true, &places.agents, &statuses);
    assert_eq!(
        report.warnings,
        vec![
            "Preserved existing skill directory at `/home/u/.helper/skills/ez-workflow` instead of replacing it with a symlink"
                .to_string()
        ]
    );
}

#[test]
fn install_repairs_stale_canonical_symlink_and_managed_copy() {
    let places = skill_places("/home/u", &roots());
    assert!(canonical_stale(&Some("stale canonical\n".to_string()), SKILL));
    let stale_link = Entry::Link("../wrong-target".to_string());
    let action =
        ensure_agent_skill_target(&places.dir, &places.agents[0], &stale_link, SKILL).unwrap();
    assert!(matches!(
        action,
        AgentAction::Relink(t) if t == relative_path("/home/u/.helper/skills", &places.dir)
    ));
    let stale_copy =
        directory(&[("SKILL.md", true)], Some("---\nname: ez-workflow\n---\nstale\n"));
    let action =
        ensure_agent_skill_target(&places.dir, &places.agents[1], &stale_copy, SKILL).unwrap();
    assert!(matches!(action, AgentAction::Rewrite));
    assert_eq!(install_status(&action, true), AgentInstallStatus::Copied);
}

#[test]
fn install_recreates_a_missing_link_without_rewriting_canonical_skill() {
    let places = skill_places("/home/u", &roots());
    assert!(!canonical_stale(&Some(SKILL.to_string()), SKILL));
    let relinked = vec![AgentInstallStatus::Linked, AgentInstallStatus::Unchanged];
    let report = install_report(false, &places.agents, &relinked);
    assert_eq!(report.message, "Updated ez-workflow skill links");
    let idle = vec![AgentInstallStatus::Unchanged, AgentInstallStatus::Unchanged];
    let report = install_report(false, &places.agents, &idle);
    assert!(!report.changed);
    assert_eq!(report.message, "ez-workflow skill is already up to date");
}

#[test]
fn uninstall_removes_managed_targets_and_preserves_custom_skill_directory() {
    let places = uninstall("/repo", &roots());
    let entries = vec![
        Entry::Link("../../.agents/skills/ez-workflow".to_string()),
        directory(&[("custom.txt", true)], None),
    ];
    let plan = uninstall_plan(&places, &entries, SkillFile::File).unwrap();
    assert_eq!(plan.agents, vec!["/repo/.helper/skills/ez-workflow".to_string()]);
    assert_eq!(plan.file.unwrap(), true);
    assert_eq!(uninstall_message(true), "Uninstalled ez-workflow skill");
}

#[test]
fn uninstall_preserves_non_file_canonical_entry() {
    let places = skill_places("/home/u", &roots());
    let plan =
        uninstall_plan(&places, &vec![Entry::Missing, Entry::Missing], SkillFile::Other).unwrap();
    assert_eq!(plan.file.unwrap(), false);
}

#[test]
fn uninstall_propagates_canonical_metadata_permission_errors() {
    let places = skill_places("/home/u", &roots());
    let plan = uninstall_plan(
        &places,
        &vec![Entry::Missing, Entry::Missing],
        SkillFile::Unknown("Permission denied".to_string()),
    )
    .unwrap();
    assert_eq!(plan.file.unwrap_err().message(), "Permission denied");
}

#[test]
fn uninstall_after_install_removes_what_was_installed_and_no_more() {
    let places = install("/repo", &roots());
    let custom = || directory(&[("custom.txt", true)], None);
    let mut after = Vec::new();
    for (place, before) in places.agents.iter().zip([Entry::Missing, custom()]) {
        let action = ensure_agent_skill_target(&places.dir, place, &before, SKILL).unwrap();
        after.push(match action {
            AgentAction::Link(t) => Entry::Link(t),
            AgentAction::Preserve => before,
            other => panic!("unexpected {other:?}"),
        });
    }
    let places = uninstall("/repo", &roots());
    let plan = uninstall_plan(&places, &after, SkillFile::File).unwrap();
    assert_eq!(plan.agents, vec!["/repo/.helper/skills/ez-workflow".to_string()]);
    assert_eq!(plan.file.unwrap(), true);
    assert!(removes_dir(&Some(Vec::new())));
    assert!(!removes_dir(&Some(vec!["notes.txt".to_string()])));
    assert!(!removes_dir(&None));
    let again =
        uninstall_plan(&places, &vec![Entry::Missing, custom()], SkillFile::Missing).unwrap();
    assert!(again.agents.is_empty());
    assert_eq!(again.file.unwrap(), false);
}
