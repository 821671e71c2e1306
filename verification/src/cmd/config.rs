//! Settings of a repository.

use crate::error::{ErrorView, EzError};
use crate::json::{no_fields, Json, JsonObject, JsonView};
use crate::stack::{StackState, StackView};
use crate::text::{copy_opt, opt_view, pad, padded, same};
use vstd::prelude::*;
use vstd::string::*;

verus! {

/// A setting that can be read and changed by name.
#[derive(Clone, Copy, Debug, PartialEq, Eq, Structural)]
pub enum ConfigKey {
    Trunk,
    Remote,
    DefaultFrom,
    Repo,
    UpstreamRemote,
    ForkRepo,
    Draft,
    NoPr,
    Rerere,
}

/// The settings in the order in which they are listed.
pub open spec fn all_keys() -> Seq<ConfigKey> {
    seq![
        ConfigKey::Trunk,
        ConfigKey::Remote,
        ConfigKey::DefaultFrom,
        ConfigKey::Repo,
        ConfigKey::UpstreamRemote,
        ConfigKey::ForkRepo,
        ConfigKey::Draft,
        ConfigKey::NoPr,
        ConfigKey::Rerere,
    ]
}

impl ConfigKey {
    /// The name of the setting.
    pub open spec fn named(self) -> Seq<char> {
        match self {
            ConfigKey::Trunk => "trunk"@,
            ConfigKey::Remote => "remote"@,
            ConfigKey::DefaultFrom => "default_from"@,
            ConfigKey::Repo => "repo"@,
            ConfigKey::UpstreamRemote => "upstream_remote"@,
            ConfigKey::ForkRepo => "fork_repo"@,
            ConfigKey::Draft => "draft"@,
            ConfigKey::NoPr => "no_pr"@,
            ConfigKey::Rerere => "rerere"@,
        }
    }

    /// The name of the setting.
    pub fn name(&self) -> (r: &'static str)
        ensures
            r@ == self.named(),
    {
        match self {
            ConfigKey::Trunk => "trunk",
            ConfigKey::Remote => "remote",
            ConfigKey::DefaultFrom => "default_from",
            ConfigKey::Repo => "repo",
            ConfigKey::UpstreamRemote => "upstream_remote",
            ConfigKey::ForkRepo => "fork_repo",
            ConfigKey::Draft => "draft",
            ConfigKey::NoPr => "no_pr",
            ConfigKey::Rerere => "rerere",
        }
    }

    /// What the setting is for.
    pub open spec fn explained(self) -> Seq<char> {
        match self {
            ConfigKey::Trunk => "Trunk branch name (e.g. main, master, develop)"@,
            ConfigKey::Remote => "Default git remote (e.g. origin, fork, upstream)"@,
            ConfigKey::DefaultFrom => "Default parent for `ez create` when on trunk"@,
            ConfigKey::Repo => "GitHub repo for PR operations (owner/name)"@,
            ConfigKey::UpstreamRemote => "Trunk and PR-ref fetch remote (defaults to remote)"@,
            ConfigKey::ForkRepo => "Fork GitHub repo that qualifies PR heads (owner/name)"@,
            ConfigKey::Draft => "Create new PRs as drafts (true or false)"@,
            ConfigKey::NoPr => "Push without creating or updating PRs (true or false)"@,
            ConfigKey::Rerere => "Record conflict resolutions with git rerere (true or false)"@,
        }
    }

    /// What the setting is for.
    pub fn description(&self) -> (r: &'static str)
        ensures
            r@ == self.explained(),
    {
        match self {
            ConfigKey::Trunk => "Trunk branch name (e.g. main, master, develop)",
            ConfigKey::Remote => "Default git remote (e.g. origin, fork, upstream)",
            ConfigKey::DefaultFrom => "Default parent for `ez create` when on trunk",
            ConfigKey::Repo => "GitHub repo for PR operations (owner/name)",
            ConfigKey::UpstreamRemote => "Trunk and PR-ref fetch remote (defaults to remote)",
            ConfigKey::ForkRepo => "Fork GitHub repo that qualifies PR heads (owner/name)",
            ConfigKey::Draft => "Create new PRs as drafts (true or false)",
            ConfigKey::NoPr => "Push without creating or updating PRs (true or false)",
            ConfigKey::Rerere => "Record conflict resolutions with git rerere (true or false)",
        }
    }
}

/// The setting of a name, if there is one.
pub open spec fn key_of(name: Seq<char>) -> Option<ConfigKey> {
    if exists|k: ConfigKey| #[trigger] k.named() == name {
        Some(choose|k: ConfigKey| #[trigger] k.named() == name)
    } else {
        None
    }
}

/// Different settings have different names.
pub proof fn law_names_are_distinct(a: ConfigKey, b: ConfigKey)
    requires
        a.named() == b.named(),
    ensures
        a == b,
{
    reveal_strlit("trunk");
    reveal_strlit("remote");
    reveal_strlit("default_from");
    reveal_strlit("repo");
    reveal_strlit("upstream_remote");
    reveal_strlit("fork_repo");
    reveal_strlit("draft");
    reveal_strlit("no_pr");
    reveal_strlit("rerere");
    assert("trunk"@.len() == 5 && "remote"@.len() == 6 && "default_from"@.len() == 12);
    assert("repo"@.len() == 4 && "upstream_remote"@.len() == 15 && "fork_repo"@.len() == 9);
    assert("draft"@.len() == 5 && "no_pr"@.len() == 5 && "rerere"@.len() == 6);
    assert("trunk"@[0] != "draft"@[0]);
    assert("trunk"@[0] != "no_pr"@[0]);
    assert("draft"@[0] != "no_pr"@[0]);
    assert("remote"@[2] != "rerere"@[2]);
}

/// The setting of a name, if there is one.
pub fn find_key(name: &str) -> (r: Option<ConfigKey>)
    ensures
        r == key_of(name@),
{
    let keys: [ConfigKey; 9] = [
        ConfigKey::Trunk,
        ConfigKey::Remote,
        ConfigKey::DefaultFrom,
        ConfigKey::Repo,
        ConfigKey::UpstreamRemote,
        ConfigKey::ForkRepo,
        ConfigKey::Draft,
        ConfigKey::NoPr,
        ConfigKey::Rerere,
    ];
    let mut i: usize = 0;
    while i < 9
        invariant
            i <= 9,
            keys@ == all_keys(),
            forall|j: int| 0 <= j < i ==> (#[trigger] keys@[j]).named() != name@,
        decreases 9 - i,
    {
        if same(keys[i].name(), name) {
            proof {
                let k = choose|k: ConfigKey| #[trigger] k.named() == name@;
                law_names_are_distinct(k, keys@[i as int]);
            }
            return Some(keys[i]);
        }
        i += 1;
    }
    assert forall|k: ConfigKey| #[trigger] k.named() != name@ by {
        assert(keys@[0].named() != name@);
        assert(keys@[1].named() != name@);
        assert(keys@[2].named() != name@);
        assert(keys@[3].named() != name@);
        assert(keys@[4].named() != name@);
        assert(keys@[5].named() != name@);
        assert(keys@[6].named() != name@);
        assert(keys@[7].named() != name@);
        assert(keys@[8].named() != name@);
    }
    None
}

/// Whether a setting has that name.
pub fn is_known_key(key: &str) -> (r: bool)
    ensures
        r == key_of(key@) is Some,
{
    find_key(key).is_some()
}

/// How a switch is written.
pub open spec fn switch_text(b: bool) -> Seq<char> {
    if b {
        "true"@
    } else {
        "false"@
    }
}

/// How an optional switch is written.
pub open spec fn opt_switch_text(b: Option<bool>) -> Option<Seq<char>> {
    match b {
        Some(x) => Some(switch_text(x)),
        None => None,
    }
}

fn switch_string(b: &Option<bool>) -> (r: Option<String>)
    ensures
        opt_view(r) == opt_switch_text(*b),
{
    match b {
        Some(true) => Some(String::from_str("true")),
        Some(false) => Some(String::from_str("false")),
        None => None,
    }
}

/// The switch that a text stands for, if any.
pub open spec fn switch_of(text: Seq<char>) -> Option<bool> {
    if text == "true"@ {
        Some(true)
    } else if text == "false"@ {
        Some(false)
    } else {
        None
    }
}

fn parse_switch(text: &str) -> (r: Option<bool>)
    ensures
        r == switch_of(text@),
{
    if same(text, "true") {
        Some(true)
    } else if same(text, "false") {
        Some(false)
    } else {
        None
    }
}

/// The value of a setting, where it is set.
pub open spec fn setting(s: StackView, key: ConfigKey) -> Option<Seq<char>> {
    match key {
        ConfigKey::Trunk => Some(s.trunk),
        ConfigKey::Remote => Some(s.remote),
        ConfigKey::DefaultFrom => s.default_from,
        ConfigKey::Repo => s.repo,
        ConfigKey::UpstreamRemote => s.upstream_remote,
        ConfigKey::ForkRepo => s.fork_repo,
        ConfigKey::Draft => opt_switch_text(s.draft),
        ConfigKey::NoPr => opt_switch_text(s.no_pr),
        ConfigKey::Rerere => opt_switch_text(s.rerere),
    }
}

/// Whether a setting is on or off, not a text.
pub open spec fn is_switch(key: ConfigKey) -> bool {
    key == ConfigKey::Draft || key == ConfigKey::NoPr || key == ConfigKey::Rerere
}

/// Whether a setting can have that value.
pub open spec fn accepts(key: ConfigKey, value: Seq<char>) -> bool {
    is_switch(key) ==> switch_of(value) is Some
}

/// The settings with one of them changed.
pub open spec fn changed(s: StackView, key: ConfigKey, value: Seq<char>) -> StackView {
    match key {
        ConfigKey::Trunk => StackView { trunk: value, ..s },
        ConfigKey::Remote => StackView { remote: value, ..s },
        ConfigKey::DefaultFrom => StackView { default_from: Some(value), ..s },
        ConfigKey::Repo => StackView { repo: Some(value), ..s },
        ConfigKey::UpstreamRemote => StackView { upstream_remote: Some(value), ..s },
        ConfigKey::ForkRepo => StackView { fork_repo: Some(value), ..s },
        ConfigKey::Draft => StackView { draft: switch_of(value), ..s },
        ConfigKey::NoPr => StackView { no_pr: switch_of(value), ..s },
        ConfigKey::Rerere => StackView { rerere: switch_of(value), ..s },
    }
}

/// The settings with one of them taken back: `origin` for the remote, otherwise nothing.
pub open spec fn cleared(s: StackView, key: ConfigKey) -> StackView {
    match key {
        ConfigKey::Trunk => s,
        ConfigKey::Remote => StackView { remote: "origin"@, ..s },
        ConfigKey::DefaultFrom => StackView { default_from: None, ..s },
        ConfigKey::Repo => StackView { repo: None, ..s },
        ConfigKey::UpstreamRemote => StackView { upstream_remote: None, ..s },
        ConfigKey::ForkRepo => StackView { fork_repo: None, ..s },
        ConfigKey::Draft => StackView { draft: None, ..s },
        ConfigKey::NoPr => StackView { no_pr: None, ..s },
        ConfigKey::Rerere => StackView { rerere: None, ..s },
    }
}

/// A value that was set is what is read; every other setting, and the recorded branches, stay.
pub proof fn law_set_is_read(s: StackView, key: ConfigKey, value: Seq<char>)
    requires
        accepts(key, value),
    ensures
        setting(changed(s, key, value), key) == Some(value),
        forall|k: ConfigKey| k != key ==> #[trigger] setting(changed(s, key, value), k) == setting(s, k),
        changed(s, key, value).branches == s.branches,
{
}

/// What was taken back is not read any more; every other setting, and the recorded branches,
/// stay.
pub proof fn law_unset_is_not_read(s: StackView, key: ConfigKey)
    requires
        key != ConfigKey::Trunk,
    ensures
        setting(cleared(s, key), key) == if key == ConfigKey::Remote {
            Some("origin"@)
        } else {
            None
        },
        forall|k: ConfigKey| k != key ==> #[trigger] setting(cleared(s, key), k) == setting(s, k),
        cleared(s, key).branches == s.branches,
{
}

/// The value of the setting of that name, where there is one and it is set.
pub open spec fn value_of(s: StackView, name: Seq<char>) -> Option<Seq<char>> {
    match key_of(name) {
        Some(k) => setting(s, k),
        None => None,
    }
}

fn read(state: &StackState, key: ConfigKey) -> (r: Option<String>)
    ensures
        opt_view(r) == setting(state@, key),
{
    match key {
        ConfigKey::Trunk => Some(state.trunk.clone()),
        ConfigKey::Remote => Some(state.remote.clone()),
        ConfigKey::DefaultFrom => copy_opt(&state.default_from),
        ConfigKey::Repo => copy_opt(&state.repo),
        ConfigKey::UpstreamRemote => copy_opt(&state.upstream_remote),
        ConfigKey::ForkRepo => copy_opt(&state.fork_repo),
        ConfigKey::Draft => switch_string(&state.draft),
        ConfigKey::NoPr => switch_string(&state.no_pr),
        ConfigKey::Rerere => switch_string(&state.rerere),
    }
}

/// The value of the setting of that name, where there is one and it is set.
pub fn get_value(state: &StackState, key: &str) -> (r: Option<String>)
    ensures
        opt_view(r) == value_of(state@, key@),
{
    match find_key(key) {
        Some(k) => read(state, k),
        None => None,
    }
}

/// The message that no setting has that name.
pub open spec fn unknown_text(name: Seq<char>) -> Seq<char> {
    "unknown config key `"@ + name
        + "`\n  → Known keys: trunk, remote, default_from, repo, upstream_remote, fork_repo, draft, no_pr, rerere"@
}

fn unknown_key(name: &str) -> (r: EzError)
    ensures
        r@ == ErrorView::UserMessage(unknown_text(name@)),
{
    EzError::UserMessage(
        String::from_str("unknown config key `").concat(name).concat(
            "`\n  → Known keys: trunk, remote, default_from, repo, upstream_remote, fork_repo, draft, no_pr, rerere",
        ),
    )
}

/// The message that a switch is neither on nor off.
pub open spec fn no_switch_text(name: Seq<char>, value: Seq<char>) -> Seq<char> {
    "invalid value `"@ + value + "` for config key `"@ + name + "`\n  → Use `true` or `false`"@
}

fn no_switch(name: &str, value: &str) -> (r: EzError)
    ensures
        r@ == ErrorView::UserMessage(no_switch_text(name@, value@)),
{
    EzError::UserMessage(
        String::from_str("invalid value `").concat(value).concat("` for config key `").concat(
            name,
        ).concat("`\n  → Use `true` or `false`"),
    )
}

/// What changing a setting by name gives: the settings, or why they stay as they are.
pub open spec fn set_result(s: StackView, name: Seq<char>, value: Seq<char>) -> Result<
    StackView,
    ErrorView,
> {
    match key_of(name) {
        None => Err(ErrorView::UserMessage(unknown_text(name))),
        Some(k) => if accepts(k, value) {
            Ok(changed(s, k, value))
        } else {
            Err(ErrorView::UserMessage(no_switch_text(name, value)))
        },
    }
}

/// Changes the setting of that name.
pub fn set_value(state: &mut StackState, key: &str, value: &str) -> (r: Result<(), EzError>)
    ensures
        match set_result(old(state)@, key@, value@) {
            Ok(s) => r is Ok && final(state)@ == s,
            Err(e) => r matches Err(f) && f@ == e && final(state)@ == old(state)@,
        },
{
    let k: ConfigKey = match find_key(key) {
        Some(k) => k,
        None => return Err(unknown_key(key)),
    };
    let on: Option<bool> = parse_switch(value);
    match k {
        ConfigKey::Draft | ConfigKey::NoPr | ConfigKey::Rerere => if on.is_none() {
            return Err(no_switch(key, value));
        },
        _ => {},
    }
    match k {
        ConfigKey::Trunk => state.trunk = value.to_owned(),
        ConfigKey::Remote => state.remote = value.to_owned(),
        ConfigKey::DefaultFrom => state.default_from = Some(value.to_owned()),
        ConfigKey::Repo => state.repo = Some(value.to_owned()),
        ConfigKey::UpstreamRemote => state.upstream_remote = Some(value.to_owned()),
        ConfigKey::ForkRepo => state.fork_repo = Some(value.to_owned()),
        ConfigKey::Draft => state.draft = on,
        ConfigKey::NoPr => state.no_pr = on,
        ConfigKey::Rerere => state.rerere = on,
    }
    Ok(())
}

/// The value to print for a setting; the error where no setting has that name, or it is not set.
pub fn get(state: &StackState, key: &str) -> (r: Result<String, EzError>)
    ensures
        match r {
            Ok(v) => value_of(state@, key@) == Some(v@),
            Err(e) => value_of(state@, key@) is None && e@ == ErrorView::UserMessage(
                if key_of(key@) is None {
                    unknown_text(key@)
                } else {
                    "config key `"@ + key@ + "` is not set\n  → Set it with: ez config set "@ + key@
                        + " <value>"@
                },
            ),
        },
{
    match find_key(key) {
        None => Err(unknown_key(key)),
        Some(k) => match read(state, k) {
            Some(v) => Ok(v),
            None => Err(
                EzError::UserMessage(
                    String::from_str("config key `").concat(key).concat(
                        "` is not set\n  → Set it with: ez config set ",
                    ).concat(key).concat(" <value>"),
                ),
            ),
        },
    }
}

/// What is said of a changed setting.
pub open spec fn set_note(name: Seq<char>, before: Option<Seq<char>>, value: Seq<char>) -> Seq<char> {
    match before {
        Some(o) => if o != value {
            name + ": "@ + o + " → "@ + value
        } else {
            name + " is already set to `"@ + value + "`"@
        },
        None => name + " = "@ + value,
    }
}

/// The receipt for a changed setting.
pub open spec fn set_receipt(name: Seq<char>, value: Seq<char>) -> JsonView {
    JsonView::Object(
        no_fields().insert("cmd"@, JsonView::Text("config set"@)).insert(
            "key"@,
            JsonView::Text(name),
        ).insert("value"@, JsonView::Text(value)),
    )
}

/// Changes a setting and tells what to say of it, with the receipt.
pub fn set(state: &mut StackState, key: &str, value: &str) -> (r: Result<(String, Json), EzError>)
    ensures
        match set_result(old(state)@, key@, value@) {
            Ok(s) => {
                &&& final(state)@ == s
                &&& r matches Ok(p)
                &&& p.0@ == set_note(key@, value_of(old(state)@, key@), value@)
                &&& p.1@ == set_receipt(key@, value@)
            },
            Err(e) => r matches Err(f) && f@ == e && final(state)@ == old(state)@,
        },
{
    let before: Option<String> = get_value(state, key);
    match set_value(state, key, value) {
        Err(e) => Err(e),
        Ok(_) => {
            let note: String = match &before {
                Some(o) => if same(o, value) {
                    key.to_owned().concat(" is already set to `").concat(value).concat("`")
                } else {
                    key.to_owned().concat(": ").concat(o).concat(" → ").concat(value)
                },
                None => key.to_owned().concat(" = ").concat(value),
            };
            let receipt: Json = JsonObject::new().field("cmd", Json::text("config set")).field(
                "key",
                Json::text(key),
            ).field("value", Json::text(value)).done();
            Ok((note, receipt))
        },
    }
}

/// What taking a setting back gives: the settings, or why they stay as they are.
pub open spec fn unset_result(s: StackView, name: Seq<char>) -> Result<StackView, ErrorView> {
    match key_of(name) {
        None => Err(ErrorView::UserMessage(unknown_text(name))),
        Some(ConfigKey::Trunk) => Err(
            ErrorView::UserMessage("config key `trunk` cannot be unset"@),
        ),
        Some(k) => Ok(cleared(s, k)),
    }
}

/// Takes the setting of that name back.
pub fn unset(state: &mut StackState, key: &str) -> (r: Result<Json, EzError>)
    ensures
        match unset_result(old(state)@, key@) {
            Ok(s) => {
                &&& final(state)@ == s
                &&& r matches Ok(j)
                &&& j@ == JsonView::Object(
                    no_fields().insert("cmd"@, JsonView::Text("config unset"@)).insert(
                        "key"@,
                        JsonView::Text(key@),
                    ),
                )
            },
            Err(e) => r matches Err(f) && f@ == e && final(state)@ == old(state)@,
        },
{
    match find_key(key) {
        None => return Err(unknown_key(key)),
        Some(ConfigKey::Trunk) => return Err(
            EzError::UserMessage(String::from_str("config key `trunk` cannot be unset")),
        ),
        Some(ConfigKey::Remote) => state.remote = String::from_str("origin"),
        Some(ConfigKey::DefaultFrom) => state.default_from = None,
        Some(ConfigKey::Repo) => state.repo = None,
        Some(ConfigKey::UpstreamRemote) => state.upstream_remote = None,
        Some(ConfigKey::ForkRepo) => state.fork_repo = None,
        Some(ConfigKey::Draft) => state.draft = None,
        Some(ConfigKey::NoPr) => state.no_pr = None,
        Some(ConfigKey::Rerere) => state.rerere = None,
    }
    Ok(
        JsonObject::new().field("cmd", Json::text("config unset")).field(
            "key",
            Json::text(key),
        ).done(),
    )
}

/// The line that shows a setting.
pub open spec fn setting_line(s: StackView, key: ConfigKey) -> Seq<char> {
    "  "@ + padded(key.named(), 15) + " = "@ + match setting(s, key) {
        Some(v) => v,
        None => "(not set)"@,
    }
}

/// A line for each setting, and what it is for.
pub fn list(state: &StackState) -> (r: Vec<(String, &'static str)>)
    ensures
        r.len() == all_keys().len(),
        forall|i: int|
            0 <= i < r.len() ==> (#[trigger] r@[i]).0@ == setting_line(state@, all_keys()[i])
                && r@[i].1@ == all_keys()[i].explained(),
{
    let keys: [ConfigKey; 9] = [
        ConfigKey::Trunk,
        ConfigKey::Remote,
        ConfigKey::DefaultFrom,
        ConfigKey::Repo,
        ConfigKey::UpstreamRemote,
        ConfigKey::ForkRepo,
        ConfigKey::Draft,
        ConfigKey::NoPr,
        ConfigKey::Rerere,
    ];
    let mut out: Vec<(String, &'static str)> = Vec::new();
    let mut i: usize = 0;
    while i < 9
        invariant
            i <= 9,
            keys@ == all_keys(),
            out.len() == i,
            forall|j: int|
                0 <= j < i ==> (#[trigger] out@[j]).0@ == setting_line(state@, all_keys()[j])
                    && out@[j].1@ == all_keys()[j].explained(),
        decreases 9 - i,
    {
        let k: ConfigKey = keys[i];
        let name: String = pad(k.name(), 15);
        let head: String = String::from_str("  ").concat(&name).concat(" = ");
        let line: String = match read(state, k) {
            Some(v) => head.concat(&v),
            None => head.concat("(not set)"),
        };
        out.push((line, k.description()));
        i += 1;
    }
    out
}

/// Each setting reads and writes the field of its own name, and its name finds it.
pub proof fn law_setting_is_its_field(s: StackView, key: ConfigKey, value: Seq<char>)
    ensures
        key_of(key.named()) == Some(key),
        value_of(s, "trunk"@) == Some(s.trunk),
        value_of(s, "remote"@) == Some(s.remote),
        value_of(s, "default_from"@) == s.default_from,
        value_of(s, "repo"@) == s.repo,
        value_of(s, "upstream_remote"@) == s.upstream_remote,
        value_of(s, "fork_repo"@) == s.fork_repo,
        value_of(s, "draft"@) is Some <==> s.draft is Some,
        value_of(s, "no_pr"@) is Some <==> s.no_pr is Some,
        value_of(s, "rerere"@) is Some <==> s.rerere is Some,
        s.draft == Some(true) ==> value_of(s, "draft"@) == Some("true"@),
        s.draft == Some(false) ==> value_of(s, "draft"@) == Some("false"@),
        s.no_pr == Some(true) ==> value_of(s, "no_pr"@) == Some("true"@),
        s.no_pr == Some(false) ==> value_of(s, "no_pr"@) == Some("false"@),
        s.rerere == Some(true) ==> value_of(s, "rerere"@) == Some("true"@),
        s.rerere == Some(false) ==> value_of(s, "rerere"@) == Some("false"@),
{
    lemma_key_found(key);
    lemma_key_found(ConfigKey::Trunk);
    lemma_key_found(ConfigKey::Remote);
    lemma_key_found(ConfigKey::DefaultFrom);
    lemma_key_found(ConfigKey::Repo);
    lemma_key_found(ConfigKey::UpstreamRemote);
    lemma_key_found(ConfigKey::ForkRepo);
    lemma_key_found(ConfigKey::Draft);
    lemma_key_found(ConfigKey::NoPr);
    lemma_key_found(ConfigKey::Rerere);
}

proof fn lemma_key_found(key: ConfigKey)
    ensures
        key_of(key.named()) == Some(key),
{
    let k = choose|k: ConfigKey| #[trigger] k.named() == key.named();
    law_names_are_distinct(k, key);
}

/// A switch takes nothing but the two words, an unknown key takes nothing at all, any other key
/// takes every text; only the trunk cannot be taken away.
pub proof fn law_settings_are_refused_for_cause(s: StackView, key: ConfigKey, value: Seq<char>)
    ensures
        key == ConfigKey::Draft || key == ConfigKey::NoPr || key == ConfigKey::Rerere ==> (
        set_result(s, key.named(), value) is Ok <==> value == "true"@ || value == "false"@),
        !(key == ConfigKey::Draft || key == ConfigKey::NoPr || key == ConfigKey::Rerere)
            ==> set_result(s, key.named(), value) is Ok,
        unset_result(s, key.named()) is Ok <==> key != ConfigKey::Trunk,
        key_of(value) is None ==> set_result(s, value, value) is Err && unset_result(s, value) is Err
            && value_of(s, value) is None,
        set_result(s, "draft"@, "true"@) == Ok::<StackView, ErrorView>(
            StackView { draft: Some(true), ..s },
        ),
        set_result(s, "no_pr"@, "true"@) == Ok::<StackView, ErrorView>(
            StackView { no_pr: Some(true), ..s },
        ),
        set_result(s, "repo"@, value) == Ok::<StackView, ErrorView>(
            StackView { repo: Some(value), ..s },
        ),
        set_result(s, "trunk"@, value) == Ok::<StackView, ErrorView>(
            StackView { trunk: value, ..s },
        ),
{
    lemma_key_found(key);
    lemma_key_found(ConfigKey::Draft);
    lemma_key_found(ConfigKey::NoPr);
    lemma_key_found(ConfigKey::Repo);
    lemma_key_found(ConfigKey::Trunk);
}

} // verus!
