//! Splitting a branch into one branch per commit.

use crate::branch_map::MetaView;
use crate::error::{error_view, ErrorView, EzError};
use crate::json::{json_view, no_fields, Json, JsonObject, JsonView};
use crate::stack::{fresh_meta, Forest, StackState, StackView};
use crate::text::{
    count, decimal, holds, join, joined, number, opt_view, prefix, short, trim, trimmed, views,
};
use vstd::prelude::*;
use vstd::string::*;

verus! {

/// One branch of the stack that a split makes.
#[derive(Debug)]
pub struct SplitLayer {
    pub name: String,
    /// The commit that the branch points at.
    pub sha: String,
    pub subject: String,
    pub parent: String,
    /// The commit that the branch leaves its parent at.
    pub parent_head: String,
    /// Whether this is the branch that is split, which keeps its name and its tip.
    pub is_original: bool,
}

/// The contents of a `SplitLayer`.
#[verifier::ext_equal]
pub struct LayerView {
    pub name: Seq<char>,
    pub sha: Seq<char>,
    pub subject: Seq<char>,
    pub parent: Seq<char>,
    pub parent_head: Seq<char>,
    pub is_original: bool,
}

impl View for SplitLayer {
    type V = LayerView;

    open spec fn view(&self) -> LayerView {
        LayerView {
            name: self.name@,
            sha: self.sha@,
            subject: self.subject@,
            parent: self.parent@,
            parent_head: self.parent_head@,
            is_original: self.is_original,
        }
    }
}

/// The contents of a list of layers.
pub open spec fn layer_views(s: Seq<SplitLayer>) -> Seq<LayerView> {
    s.map_values(|l: SplitLayer| l@)
}

/// The name of layer `i` of `n`: the topmost is the branch itself.
pub open spec fn layer_name(branch: Seq<char>, base: Seq<char>, n: nat, i: int) -> Seq<char> {
    if i == n - 1 {
        branch
    } else {
        base + "-"@ + decimal((i + 1) as nat)
    }
}

/// Layer `i` of a split.
pub open spec fn layer(
    branch: Seq<char>,
    base: Seq<char>,
    parent: Seq<char>,
    fork_point: Seq<char>,
    commits: Seq<(String, String)>,
    i: int,
) -> LayerView {
    LayerView {
        name: layer_name(branch, base, commits.len(), i),
        sha: commits[i].0@,
        subject: commits[i].1@,
        parent: if i == 0 {
            parent
        } else {
            layer_name(branch, base, commits.len(), i - 1)
        },
        parent_head: if i == 0 {
            fork_point
        } else {
            commits[i - 1].0@
        },
        is_original: i == commits.len() - 1,
    }
}

/// The layers of a split.
pub open spec fn split_plan(
    branch: Seq<char>,
    base: Seq<char>,
    parent: Seq<char>,
    fork_point: Seq<char>,
    commits: Seq<(String, String)>,
) -> Seq<LayerView> {
    Seq::new(commits.len(), |i: int| layer(branch, base, parent, fork_point, commits, i))
}

fn name_for(branch: &str, base: &str, n: usize, i: usize) -> (r: String)
    requires
        i < n,
    ensures
        r@ == layer_name(branch@, base@, n as nat, i as int),
{
    if i == n - 1 {
        branch.to_owned()
    } else {
        base.to_owned().concat("-").concat(&count(i + 1))
    }
}

/// One branch per commit, oldest first. The branch itself becomes the topmost, so that nothing
/// about it moves; the others are new.
pub fn plan_split(
    branch: &str,
    prefix: &str,
    parent: &str,
    fork_point: &str,
    commits: &Vec<(String, String)>,
) -> (r: Vec<SplitLayer>)
    ensures
        layer_views(r@) == split_plan(branch@, prefix@, parent@, fork_point@, commits@),
{
    let n: usize = commits.len();
    let mut out: Vec<SplitLayer> = Vec::new();
    let mut i: usize = 0;
    while i < n
        invariant
            n == commits.len(),
            i <= n,
            out.len() == i,
            forall|j: int|
                0 <= j < i ==> (#[trigger] out@[j])@ == layer(
                    branch@,
                    prefix@,
                    parent@,
                    fork_point@,
                    commits@,
                    j,
                ),
        decreases n - i,
    {
        let (below, below_head): (String, String) = if i == 0 {
            (parent.to_owned(), fork_point.to_owned())
        } else {
            (name_for(branch, prefix, n, i - 1), commits[i - 1].0.clone())
        };
        out.push(
            SplitLayer {
                name: name_for(branch, prefix, n, i),
                sha: commits[i].0.clone(),
                subject: commits[i].1.clone(),
                parent: below,
                parent_head: below_head,
                is_original: i == n - 1,
            },
        );
        i += 1;
    }
    assert(layer_views(out@) =~= split_plan(branch@, prefix@, parent@, fork_point@, commits@));
    out
}

/// The layers of a split stand one on another: each on the branch before it, at that branch's
/// tip, the lowest on the parent where the branch left it. Each commit is the tip of one layer,
/// and the topmost layer alone is the branch that is split.
pub proof fn law_split_is_a_chain(
    branch: Seq<char>,
    base: Seq<char>,
    parent: Seq<char>,
    fork_point: Seq<char>,
    commits: Seq<(String, String)>,
)
    requires
        commits.len() > 0,
    ensures
        ({
            let p = split_plan(branch, base, parent, fork_point, commits);
            &&& p.len() == commits.len()
            &&& p[0].parent == parent
            &&& p[0].parent_head == fork_point
            &&& p.last().name == branch
            &&& forall|i: int|
                0 < i < p.len() ==> (#[trigger] p[i]).parent == p[i - 1].name && p[i].parent_head
                    == p[i - 1].sha
            &&& forall|i: int| 0 <= i < p.len() ==> (#[trigger] p[i]).sha == commits[i].0@
            &&& forall|i: int|
                0 <= i < p.len() ==> ((#[trigger] p[i]).is_original <==> i == p.len() - 1)
        }),
{
}

/// The parent of a branch that is to be split, if it can be.
pub fn split_parent(state: &StackState, target: &str) -> (r: Result<String, EzError>)
    ensures
        match r {
            Ok(parent) => target@ != state@.trunk && state@.managed(target@) && parent@
                == state@.branches[target@].parent,
            Err(e) => if target@ == state@.trunk {
                e@ == ErrorView::OnTrunk
            } else {
                !state@.managed(target@) && e@ == ErrorView::BranchNotInStack(target@)
            },
        },
{
    if state.is_trunk(target) {
        return Err(EzError::OnTrunk);
    }
    match state.get_branch(target) {
        Ok(meta) => Ok(meta.parent.clone()),
        Err(e) => Err(e),
    }
}

/// Where a branch left its parent: what git says, else what is recorded.
pub fn fork_point(state: &StackState, target: &str, merge_base: Option<String>) -> (r: Result<
    String,
    EzError,
>)
    ensures
        match r {
            Ok(p) => state@.managed(target@) && p@ == match merge_base {
                Some(b) => trimmed(b@),
                None => state@.branches[target@].parent_head,
            },
            Err(e) => !state@.managed(target@) && e@ == ErrorView::BranchNotInStack(target@),
        },
{
    match state.get_branch(target) {
        Err(e) => Err(e),
        Ok(meta) => match merge_base {
            Some(b) => Ok(trim(&b).to_owned()),
            None => Ok(meta.parent_head.clone()),
        },
    }
}

/// Whether there is anything to split: fewer than two commits are not split, and merge commits
/// cannot be.
pub fn splittable(target: &str, parent: &str, commits: usize, merges: u64) -> (r: Result<
    bool,
    EzError,
>)
    ensures
        match r {
            Ok(go) => go == (commits >= 2) && (go ==> merges == 0),
            Err(e) => commits >= 2 && merges > 0 && e@ == ErrorView::UserMessage(
                "`"@ + target@ + "` contains "@ + decimal(merges as nat)
                    + " merge commit(s), which cannot be split into single-commit layers\n  → Rebase them away first: `git rebase "@
                    + parent@ + "`, then rerun `ez split`"@,
            ),
        },
{
    if commits < 2 {
        return Ok(false);
    }
    if merges > 0 {
        return Err(
            EzError::UserMessage(
                String::from_str("`").concat(target).concat("` contains ").concat(
                    &number(merges),
                ).concat(
                    " merge commit(s), which cannot be split into single-commit layers\n  → Rebase them away first: `git rebase ",
                ).concat(parent).concat("`, then rerun `ez split`"),
            ),
        );
    }
    Ok(true)
}

/// The new names among the layers that are taken.
pub open spec fn taken(s: Seq<LayerView>, local: Seq<Seq<char>>) -> Seq<Seq<char>>
    decreases s.len(),
{
    if s.len() == 0 {
        Seq::empty()
    } else {
        let low = taken(s.drop_last(), local);
        if !s.last().is_original && local.contains(s.last().name) {
            low.push(s.last().name)
        } else {
            low
        }
    }
}

/// Whether every new name is free; nothing is made otherwise.
pub fn ensure_names_free(layers: &Vec<SplitLayer>, local: &Vec<String>) -> (r: Result<(), EzError>)
    ensures
        ({
            let t = taken(layer_views(layers@), views(local@));
            match r {
                Ok(_) => t.len() == 0,
                Err(e) => t.len() > 0 && e@ == ErrorView::UserMessage(
                    "branch name(s) already taken: "@ + joined(t, ", "@)
                        + "\n  → Pick a different base name with `ez split --prefix <name>`"@,
                ),
            }
        }),
{
    let ghost all = layer_views(layers@);
    let mut names: Vec<String> = Vec::new();
    let mut i: usize = 0;
    assert(all.take(0) =~= Seq::<LayerView>::empty());
    assert(views(names@) =~= Seq::<Seq<char>>::empty());
    while i < layers.len()
        invariant
            i <= layers.len(),
            all == layer_views(layers@),
            views(names@) == taken(all.take(i as int), views(local@)),
        decreases layers.len() - i,
    {
        let ghost held = views(names@);
        let l: &SplitLayer = &layers[i];
        assert(all.take(i + 1).drop_last() =~= all.take(i as int));
        assert(all.take(i + 1).last() == l@);
        if !l.is_original && holds(local, &l.name) {
            names.push(l.name.clone());
            assert(views(names@) =~= held.push(l@.name));
        }
        i += 1;
    }
    assert(all.take(layers.len() as int) =~= all);
    assert(views(names@).len() == names.len());
    if names.len() > 0 {
        return Err(
            EzError::UserMessage(
                String::from_str("branch name(s) already taken: ").concat(
                    &join(&names, ", "),
                ).concat("\n  → Pick a different base name with `ez split --prefix <name>`"),
            ),
        );
    }
    Ok(())
}

/// The branches with the layers recorded: the branch that is split gets another parent, the
/// others are new.
pub open spec fn split_recorded(m: Forest, s: Seq<LayerView>) -> Forest
    decreases s.len(),
{
    if s.len() == 0 {
        m
    } else {
        let low = split_recorded(m, s.drop_last());
        let l = s.last();
        if l.is_original {
            if low.contains_key(l.name) {
                low.insert(
                    l.name,
                    MetaView { parent: l.parent, parent_head: l.parent_head, ..low[l.name] },
                )
            } else {
                low
            }
        } else {
            low.insert(l.name, fresh_meta(l.parent, l.parent_head, None, None))
        }
    }
}

/// Records the layers of a split.
pub fn record_split(state: &mut StackState, layers: &Vec<SplitLayer>)
    ensures
        final(state)@ == old(state)@.with_branches(
            split_recorded(old(state)@.branches, layer_views(layers@)),
        ),
{
    let ghost start = state@;
    let ghost all = layer_views(layers@);
    let mut i: usize = 0;
    assert(all.take(0) =~= Seq::<LayerView>::empty());
    while i < layers.len()
        invariant
            i <= layers.len(),
            all == layer_views(layers@),
            state@ == start.with_branches(
                split_recorded(start.branches, all.take(i as int)),
            ),
        decreases layers.len() - i,
    {
        let l: &SplitLayer = &layers[i];
        assert(all.take(i + 1).drop_last() =~= all.take(i as int));
        assert(all.take(i + 1).last() == l@);
        if l.is_original {
            let _ = state.set_parent(&l.name, &l.parent, &l.parent_head);
        } else {
            state.add_branch(&l.name, &l.parent, &l.parent_head, None, None);
        }
        i += 1;
    }
    assert(all.take(layers.len() as int) =~= all);
}

/// What a receipt says of a layer.
pub open spec fn layer_receipt(l: LayerView) -> JsonView {
    JsonView::Object(
        no_fields().insert("branch"@, JsonView::Text(l.name)).insert(
            "sha"@,
            JsonView::Text(prefix(l.sha, 7)),
        ).insert("parent"@, JsonView::Text(l.parent)).insert(
            "is_original"@,
            JsonView::Bool(l.is_original),
        ),
    )
}

fn layer_list(layers: &Vec<SplitLayer>) -> (r: Json)
    ensures
        r@ == JsonView::List(
            Seq::new(layers@.len(), |i: int| layer_receipt(layers@[i]@)),
        ),
{
    let mut out: Vec<Json> = Vec::new();
    let mut i: usize = 0;
    while i < layers.len()
        invariant
            i <= layers.len(),
            out.len() == i,
            forall|j: int|
                0 <= j < i ==> json_view(#[trigger] out@[j]) == layer_receipt(layers@[j]@),
        decreases layers.len() - i,
    {
        let l: &SplitLayer = &layers[i];
        let entry: Json = JsonObject::new().field("branch", Json::text(&l.name)).field(
            "sha",
            Json::Text(short(&l.sha)),
        ).field("parent", Json::text(&l.parent)).field(
            "is_original",
            Json::Bool(l.is_original),
        ).done();
        assert(entry@ == layer_receipt(l@));
        out.push(entry);
        i += 1;
    }
    assert(Seq::new(out@.len(), |j: int| json_view(out@[j])) =~= Seq::new(
        layers@.len(),
        |j: int| layer_receipt(layers@[j]@),
    ));
    Json::list(out)
}

/// The receipt for a split that is only shown.
pub fn dry_run_receipt(target: &str, parent: &str, layers: &Vec<SplitLayer>) -> (r: Json)
    ensures
        r@ == JsonView::Object(
            no_fields().insert("cmd"@, JsonView::Text("split"@)).insert(
                "branch"@,
                JsonView::Text(target@),
            ).insert("action"@, JsonView::Text("dry_run"@)).insert(
                "parent"@,
                JsonView::Text(parent@),
            ).insert(
                "layers"@,
                JsonView::List(
                    Seq::new(layers@.len(), |i: int| layer_receipt(layers@[i]@)),
                ),
            ),
        ),
{
    JsonObject::new().field("cmd", Json::text("split")).field("branch", Json::text(target)).field(
        "action",
        Json::text("dry_run"),
    ).field("parent", Json::text(parent)).field("layers", layer_list(layers)).done()
}

/// The receipt for a split; the topmost layer is not counted as made.
pub open spec fn split_done_receipt(
    target: Seq<char>,
    parent: Seq<char>,
    layers: Seq<LayerView>,
) -> JsonView {
    JsonView::Object(
        no_fields().insert("cmd"@, JsonView::Text("split"@)).insert(
            "branch"@,
            JsonView::Text(target),
        ).insert("action"@, JsonView::Text("split"@)).insert(
            "parent"@,
            JsonView::Text(parent),
        ).insert("created"@, JsonView::Number((layers.len() - 1) as u64)).insert(
            "layers"@,
            JsonView::List(Seq::new(layers.len(), |i: int| layer_receipt(layers[i]))),
        ),
    )
}

/// The receipt for a split; the topmost layer is not counted as made.
pub fn split_receipt(target: &str, parent: &str, layers: &Vec<SplitLayer>) -> (r: Json)
    requires
        layers.len() > 0,
    ensures
        r@ == split_done_receipt(target@, parent@, layer_views(layers@)),
{
    proof {
        let l = layer_views(layers@);
        assert(Seq::new(l.len(), |i: int| layer_receipt(l[i])) =~= Seq::new(
            layers@.len(),
            |i: int| layer_receipt(layers@[i]@),
        ));
    }
    JsonObject::new().field("cmd", Json::text("split")).field("branch", Json::text(target)).field(
        "action",
        Json::text("split"),
    ).field("parent", Json::text(parent)).field("created", Json::count(layers.len() - 1)).field(
        "layers",
        layer_list(layers),
    ).done()
}

/// The receipt where there is nothing to split.
pub fn noop_receipt(target: &str, commits: usize) -> (r: Json)
    ensures
        r@ == JsonView::Object(
            no_fields().insert("cmd"@, JsonView::Text("split"@)).insert(
                "branch"@,
                JsonView::Text(target@),
            ).insert("action"@, JsonView::Text("noop"@)).insert(
                "reason"@,
                JsonView::Text("fewer_than_two_commits"@),
            ).insert("commits"@, JsonView::Number(commits as u64)),
        ),
{
    JsonObject::new().field("cmd", Json::text("split")).field("branch", Json::text(target)).field(
        "action",
        Json::text("noop"),
    ).field("reason", Json::text("fewer_than_two_commits")).field(
        "commits",
        Json::count(commits),
    ).done()
}

/// What git knows of a branch that is to be split.
#[derive(Debug)]
pub struct SplitFacts {
    /// Where the branch left its parent, if git can tell.
    pub merge_base: Option<String>,
    /// The commits of the branch, each with its subject, oldest first.
    pub commits: Vec<(String, String)>,
    /// How many of them are merges.
    pub merges: u64,
    /// The local branches.
    pub local: Vec<String>,
}

/// What comes of a request to split.
#[verifier::ext_equal]
pub enum SplitVerdict {
    /// There are too few commits.
    Noop(nat),
    /// The layers are only shown.
    Preview(Seq<LayerView>),
    /// The layers are made.
    Go(Seq<LayerView>),
}

/// The layers that a branch is split into.
pub open spec fn layers_of(
    s: StackView,
    target: Seq<char>,
    prefix: Option<Seq<char>>,
    facts: SplitFacts,
) -> Seq<LayerView> {
    split_plan(
        target,
        match prefix {
            Some(p) => p,
            None => target,
        },
        s.branches[target].parent,
        match facts.merge_base {
            Some(b) => trimmed(b@),
            None => s.branches[target].parent_head,
        },
        facts.commits@,
    )
}

/// What comes of a request to split: the branch is looked at, its commits are, every new name is,
/// and only then is anything shown or made.
pub open spec fn split_verdict(
    s: StackView,
    target: Seq<char>,
    prefix: Option<Seq<char>>,
    dry_run: bool,
    facts: SplitFacts,
) -> Result<SplitVerdict, ErrorView> {
    let layers = layers_of(s, target, prefix, facts);
    let clash = taken(layers, views(facts.local@));
    if target == s.trunk {
        Err(ErrorView::OnTrunk)
    } else if !s.managed(target) {
        Err(ErrorView::BranchNotInStack(target))
    } else if facts.commits@.len() < 2 {
        Ok(SplitVerdict::Noop(facts.commits@.len()))
    } else if facts.merges > 0 {
        Err(
            ErrorView::UserMessage(
                "`"@ + target + "` contains "@ + decimal(facts.merges as nat)
                    + " merge commit(s), which cannot be split into single-commit layers\n  → Rebase them away first: `git rebase "@
                    + s.branches[target].parent + "`, then rerun `ez split`"@,
            ),
        )
    } else if clash.len() > 0 {
        Err(
            ErrorView::UserMessage(
                "branch name(s) already taken: "@ + joined(clash, ", "@)
                    + "\n  → Pick a different base name with `ez split --prefix <name>`"@,
            ),
        )
    } else if dry_run {
        Ok(SplitVerdict::Preview(layers))
    } else {
        Ok(SplitVerdict::Go(layers))
    }
}

/// What comes of a request to split.
#[derive(Debug)]
pub enum SplitStart {
    /// There are too few commits: so many.
    Noop(usize),
    /// The layers are only shown.
    Preview { parent: String, layers: Vec<SplitLayer> },
    /// The layers are made.
    Go(Splitting),
}

/// What a split is waiting for.
#[derive(Clone, Copy, Debug, PartialEq, Eq, Structural)]
pub enum SplitPhase {
    /// The branch of a layer being made.
    Create,
    /// The saving of the stack.
    Save,
    Finished,
    Failed,
}

/// The answer to what a split waits for.
#[derive(Debug)]
pub enum SplitReply {
    Done,
    Failed(String),
}

/// The contents of a `Splitting`.
#[verifier::ext_equal]
pub struct SplittingView {
    pub state: StackView,
    pub target: Seq<char>,
    pub parent: Seq<char>,
    pub layers: Seq<LayerView>,
    pub phase: SplitPhase,
    /// The layer in work: those below it are made.
    pub at: int,
    pub error: Option<ErrorView>,
}

impl SplittingView {
    /// Goes on with layer `i`; past the last new one, the layers are recorded.
    pub open spec fn on(self, i: int) -> SplittingView {
        if i < self.layers.len() - 1 {
            SplittingView { at: i, phase: SplitPhase::Create, ..self }
        } else {
            SplittingView {
                at: i,
                phase: SplitPhase::Save,
                state: self.state.with_branches(split_recorded(self.state.branches, self.layers)),
                ..self
            }
        }
    }

    pub open spec fn end(self, e: ErrorView) -> SplittingView {
        SplittingView { phase: SplitPhase::Failed, error: Some(e), ..self }
    }

    /// The split after a reply. A reply that it does not wait for changes nothing.
    pub open spec fn step(self, reply: SplitReply) -> SplittingView {
        match (self.phase, reply) {
            (SplitPhase::Create, SplitReply::Done) => self.on(self.at + 1),
            (SplitPhase::Save, SplitReply::Done) => SplittingView {
                phase: SplitPhase::Finished,
                ..self
            },
            (SplitPhase::Create, SplitReply::Failed(t))
            | (SplitPhase::Save, SplitReply::Failed(t)) => self.end(ErrorView::Other(t@)),
            _ => self,
        }
    }

    /// What holds throughout a split.
    pub open spec fn wf(self) -> bool {
        &&& self.layers.len() >= 2
        &&& 0 <= self.at < self.layers.len()
        &&& self.phase is Create ==> self.at < self.layers.len() - 1
    }

    /// The split after `n` things that it waited for were done.
    pub open spec fn after_done(self, n: nat) -> SplittingView
        decreases n,
    {
        if n == 0 {
            self
        } else {
            self.after_done((n - 1) as nat).step(SplitReply::Done)
        }
    }
}

/// A split at its start.
pub open spec fn fresh_split(
    state: StackView,
    target: Seq<char>,
    layers: Seq<LayerView>,
) -> SplittingView {
    SplittingView {
        state,
        target,
        parent: state.branches[target].parent,
        layers,
        phase: SplitPhase::Create,
        at: 0,
        error: None,
    }
}

/// Every reply keeps what holds throughout a split.
pub proof fn law_split_keeps_order(v: SplittingView, reply: SplitReply)
    requires
        v.wf(),
    ensures
        v.step(reply).wf(),
{
}

/// A split is begun only where the name of every new layer is free, and never in a dry run.
pub proof fn law_split_checks_every_name_first(
    s: StackView,
    target: Seq<char>,
    prefix: Option<Seq<char>>,
    dry_run: bool,
    facts: SplitFacts,
)
    requires
        split_verdict(s, target, prefix, dry_run, facts) matches Ok(SplitVerdict::Go(_)),
    ensures
        !dry_run,
        forall|i: int|
            0 <= i < facts.commits@.len() - 1 ==> !views(facts.local@).contains(
                (#[trigger] layers_of(s, target, prefix, facts)[i]).name,
            ),
{
    let layers = layers_of(s, target, prefix, facts);
    assert forall|i: int| 0 <= i < facts.commits@.len() - 1 implies !views(facts.local@).contains(
        (#[trigger] layers[i]).name,
    ) by {
        if views(facts.local@).contains(layers[i].name) {
            lemma_taken_is_told(layers, views(facts.local@), i);
        }
    }
}

proof fn lemma_taken_is_told(s: Seq<LayerView>, local: Seq<Seq<char>>, i: int)
    requires
        0 <= i < s.len(),
        !s[i].is_original,
        local.contains(s[i].name),
    ensures
        taken(s, local).len() > 0,
    decreases s.len(),
{
    if i < s.len() - 1 {
        lemma_taken_is_told(s.drop_last(), local, i);
    }
}

/// A layer that could not be made ends a split before anything is recorded.
pub proof fn law_failed_split_records_nothing(v: SplittingView, text: String)
    requires
        v.phase is Create,
    ensures
        v.step(SplitReply::Failed(text)).state == v.state,
        v.step(SplitReply::Failed(text)).phase is Failed,
{
}

/// A split makes one branch for each commit but the last, records all layers once they are made,
/// and is finished when that is saved.
pub proof fn law_split_records_after_all_are_made(
    state: StackView,
    target: Seq<char>,
    layers: Seq<LayerView>,
    n: nat,
)
    requires
        layers.len() >= 2,
        n < layers.len(),
    ensures
        ({
            let w = fresh_split(state, target, layers).after_done(n);
            let last = fresh_split(state, target, layers).after_done(layers.len());
            &&& w.at == n
            &&& n < layers.len() - 1 ==> w.phase is Create && w.state == state
            &&& n == layers.len() - 1 ==> w.phase is Save && w.state == state.with_branches(
                split_recorded(state.branches, layers),
            )
            &&& last.phase is Finished
            &&& last.error is None
        }),
{
    let v = fresh_split(state, target, layers);
    lemma_layers_made(v, n);
    let most = (layers.len() - 1) as nat;
    lemma_layers_made(v, most);
    assert(v.after_done(layers.len()) == v.after_done(most).step(SplitReply::Done));
}

proof fn lemma_layers_made(v: SplittingView, n: nat)
    requires
        v == fresh_split(v.state, v.target, v.layers),
        v.layers.len() >= 2,
        n < v.layers.len(),
    ensures
        v.after_done(n) == v.on(n as int),
    decreases n,
{
    if n > 0 {
        lemma_layers_made(v, (n - 1) as nat);
    }
}

#[derive(Debug)]
struct SplittingData {
    state: StackState,
    target: String,
    parent: String,
    layers: Vec<SplitLayer>,
    phase: SplitPhase,
    at: usize,
    error: Option<EzError>,
}

impl View for SplittingData {
    type V = SplittingView;

    closed spec fn view(&self) -> SplittingView {
        SplittingView {
            state: self.state@,
            target: self.target@,
            parent: self.parent@,
            layers: layer_views(self.layers@),
            phase: self.phase,
            at: self.at as int,
            error: error_view(self.error),
        }
    }
}

/// A split in progress.
#[derive(Debug)]
pub struct Splitting {
    data: SplittingData,
}

impl View for Splitting {
    type V = SplittingView;

    closed spec fn view(&self) -> SplittingView {
        self.data@
    }
}

/// Splits a branch, shows how it would be split, or tells why it is not. With no prefix the new
/// branches are named after it.
pub fn run(
    state: &StackState,
    target: &str,
    prefix: Option<String>,
    dry_run: bool,
    facts: SplitFacts,
) -> (r: Result<SplitStart, EzError>)
    ensures
        match split_verdict(state@, target@, opt_view(prefix), dry_run, facts) {
            Err(e) => r matches Err(x) && x@ == e,
            Ok(SplitVerdict::Noop(n)) => r matches Ok(SplitStart::Noop(m)) && m == n,
            Ok(SplitVerdict::Preview(l)) => r matches Ok(SplitStart::Preview { parent, layers })
                && parent@ == state@.branches[target@].parent && layer_views(layers@) == l,
            Ok(SplitVerdict::Go(l)) => r matches Ok(SplitStart::Go(s)) && s@ == fresh_split(
                state@,
                target@,
                l,
            ),
        },
{
    let parent: String = match split_parent(state, target) {
        Ok(p) => p,
        Err(e) => return Err(e),
    };
    let base: String = match fork_point(state, target, facts.merge_base) {
        Ok(b) => b,
        Err(e) => return Err(e),
    };
    match splittable(target, &parent, facts.commits.len(), facts.merges) {
        Ok(go) => if !go {
            return Ok(SplitStart::Noop(facts.commits.len()));
        },
        Err(e) => return Err(e),
    }
    let name: String = match prefix {
        Some(p) => p,
        None => target.to_owned(),
    };
    let layers: Vec<SplitLayer> = plan_split(target, &name, &parent, &base, &facts.commits);
    match ensure_names_free(&layers, &facts.local) {
        Ok(_) => {},
        Err(e) => return Err(e),
    }
    if dry_run {
        return Ok(SplitStart::Preview { parent, layers });
    }
    let data = SplittingData {
        state: state.copy(),
        target: target.to_owned(),
        parent,
        layers,
        phase: SplitPhase::Create,
        at: 0,
        error: None,
    };
    assert(data@.layers.len() == facts.commits.len());
    Ok(SplitStart::Go(Splitting { data }))
}

impl Splitting {
    #[verifier::type_invariant]
    spec fn in_order(self) -> bool {
        self.data@.wf()
    }

    /// The split after a reply to what it waits for.
    pub fn step(self, reply: SplitReply) -> (r: Splitting)
        ensures
            r@ == self@.step(reply),
    {
        proof {
            use_type_invariant(&self);
            law_split_keeps_order(self@, reply);
        }
        let ghost v = self@;
        let mut d = self.data;
        assert(d@.layers.len() == d.layers.len());
        match (d.phase, reply) {
            (SplitPhase::Create, SplitReply::Done) => {
                let next: usize = d.at + 1;
                d.at = next;
                if next < d.layers.len() - 1 {
                    d.phase = SplitPhase::Create;
                } else {
                    d.phase = SplitPhase::Save;
                    record_split(&mut d.state, &d.layers);
                }
            },
            (SplitPhase::Save, SplitReply::Done) => {
                d.phase = SplitPhase::Finished;
            },
            (SplitPhase::Create, SplitReply::Failed(t)) => {
                d.phase = SplitPhase::Failed;
                d.error = Some(EzError::Other(t));
            },
            (SplitPhase::Save, SplitReply::Failed(t)) => {
                d.phase = SplitPhase::Failed;
                d.error = Some(EzError::Other(t));
            },
            _ => {},
        }
        assert(d@ =~= v.step(reply));
        Splitting { data: d }
    }

    /// What the split waits for.
    pub fn phase(&self) -> (r: SplitPhase)
        ensures
            r == self@.phase,
    {
        self.data.phase
    }

    /// The layer in work.
    pub fn layer(&self) -> (r: &SplitLayer)
        ensures
            r@ == self@.layers[self@.at],
    {
        proof {
            use_type_invariant(self);
            assert(self@.layers.len() == self.data.layers.len());
        }
        &self.data.layers[self.data.at]
    }

    /// All layers, from the bottom up.
    pub fn layers(&self) -> (r: &Vec<SplitLayer>)
        ensures
            layer_views(r@) == self@.layers,
    {
        &self.data.layers
    }

    /// The stack so far.
    pub fn state(&self) -> (r: &StackState)
        ensures
            r@ == self@.state,
    {
        &self.data.state
    }

    /// The receipt for the split, or why it failed.
    pub fn finish(self) -> (r: Result<Json, EzError>)
        ensures
            match self@.error {
                Some(e) => r matches Err(x) && x@ == e,
                None => r matches Ok(j) && j@ == split_done_receipt(
                    self@.target,
                    self@.parent,
                    self@.layers,
                ),
            },
    {
        proof {
            use_type_invariant(&self);
            assert(self@.layers.len() == self.data.layers.len());
        }
        let d = self.data;
        match d.error {
            Some(e) => Err(e),
            None => Ok(split_receipt(&d.target, &d.parent, &d.layers)),
        }
    }
}

/// Recording a split records each new layer on its parent at its parent commit, without a pull
/// request, and changes of the branch that is split only where it stands; no other branch changes.
pub proof fn law_split_records_its_layers(m: Forest, s: Seq<LayerView>, k: Seq<char>)
    requires
        forall|i: int, j: int|
            #![trigger s[i], s[j]]
            0 <= i < j < s.len() ==> s[i].name != s[j].name,
    ensures
        forall|i: int|
            0 <= i < s.len() && !(#[trigger] s[i]).is_original ==> {
                let meta = split_recorded(m, s)[s[i].name];
                &&& split_recorded(m, s).contains_key(s[i].name)
                &&& meta.parent == s[i].parent
                &&& meta.parent_head == s[i].parent_head
                &&& meta.pr_number is None
            },
        forall|i: int|
            0 <= i < s.len() && (#[trigger] s[i]).is_original && m.contains_key(s[i].name) ==> {
                let meta = split_recorded(m, s)[s[i].name];
                &&& split_recorded(m, s).contains_key(s[i].name)
                &&& meta.parent == s[i].parent
                &&& meta.parent_head == s[i].parent_head
                &&& meta.pr_number == m[s[i].name].pr_number
                &&& meta.scope == m[s[i].name].scope
            },
        (forall|i: int| 0 <= i < s.len() ==> (#[trigger] s[i]).name != k) ==> (split_recorded(
            m,
            s,
        ).contains_key(k) <==> m.contains_key(k)) && (m.contains_key(k) ==> split_recorded(m, s)[k]
            == m[k]),
    decreases s.len(),
{
    if s.len() > 0 {
        let low = s.drop_last();
        let l = s.last();
        assert forall|i: int, j: int|
            #![trigger low[i], low[j]]
            0 <= i < j < low.len() implies low[i].name != low[j].name by {
            assert(s[i] == low[i] && s[j] == low[j]);
        }
        law_split_records_its_layers(m, low, k);
        law_split_records_its_layers(m, low, l.name);
        assert forall|i: int| 0 <= i < low.len() implies (#[trigger] low[i]).name != l.name by {
            assert(s[i] == low[i]);
            assert(s[s.len() - 1] == l);
        }
        assert forall|i: int| 0 <= i < s.len() && !(#[trigger] s[i]).is_original implies {
            let meta = split_recorded(m, s)[s[i].name];
            &&& split_recorded(m, s).contains_key(s[i].name)
            &&& meta.parent == s[i].parent
            &&& meta.parent_head == s[i].parent_head
            &&& meta.pr_number is None
        } by {
            if i < low.len() {
                assert(low[i] == s[i]);
                assert(low[i].name != l.name);
            }
        }
        assert forall|i: int|
            0 <= i < s.len() && (#[trigger] s[i]).is_original && m.contains_key(s[i].name) implies {
            let meta = split_recorded(m, s)[s[i].name];
            &&& split_recorded(m, s).contains_key(s[i].name)
            &&& meta.parent == s[i].parent
            &&& meta.parent_head == s[i].parent_head
            &&& meta.pr_number == m[s[i].name].pr_number
            &&& meta.scope == m[s[i].name].scope
        } by {
            if i < low.len() {
                assert(low[i] == s[i]);
                assert(low[i].name != l.name);
            }
        }
        if forall|i: int| 0 <= i < s.len() ==> (#[trigger] s[i]).name != k {
            assert forall|i: int| 0 <= i < low.len() implies (#[trigger] low[i]).name != k by {
                assert(s[i] == low[i]);
            }
            assert(s[s.len() - 1] == l);
        }
    }
}

/// A split is refused exactly for the trunk, a branch that is not recorded, merge commits, or a
/// new name that is taken; with fewer than two commits there is nothing to do, and a dry run only
/// shows the layers.
pub proof fn law_split_is_refused_for_cause(
    s: StackView,
    target: Seq<char>,
    prefix: Option<Seq<char>>,
    dry_run: bool,
    facts: SplitFacts,
)
    ensures
        ({
            let r = split_verdict(s, target, prefix, dry_run, facts);
            let n = facts.commits@.len();
            let known = target != s.trunk && s.branches.contains_key(target);
            &&& !known ==> r is Err
            &&& known && n < 2 ==> r == Ok::<SplitVerdict, ErrorView>(SplitVerdict::Noop(n))
            &&& known && n >= 2 && facts.merges > 0 ==> r is Err
            &&& known && n >= 2 && facts.merges == 0 && taken(
                layers_of(s, target, prefix, facts),
                views(facts.local@),
            ).len() > 0 ==> r is Err
            &&& r is Ok && n >= 2 && dry_run ==> r == Ok::<SplitVerdict, ErrorView>(
                SplitVerdict::Preview(layers_of(s, target, prefix, facts)),
            )
            &&& r is Ok && n >= 2 && !dry_run ==> r == Ok::<SplitVerdict, ErrorView>(
                SplitVerdict::Go(layers_of(s, target, prefix, facts)),
            )
        }),
{
}

/// The names reported as taken are those of new layers that are local branches.
pub proof fn law_taken_names_are_local(s: Seq<LayerView>, local: Seq<Seq<char>>, b: Seq<char>)
    ensures
        taken(s, local).contains(b) <==> local.contains(b) && exists|i: int|
            0 <= i < s.len() && (#[trigger] s[i]).name == b && !s[i].is_original,
    decreases s.len(),
{
    if s.len() > 0 {
        let low = s.drop_last();
        law_taken_names_are_local(low, local, b);
        vstd::seq_lib::lemma_seq_contains_after_push(taken(low, local), s.last().name, b);
        if exists|i: int| 0 <= i < low.len() && (#[trigger] low[i]).name == b && !low[i].is_original {
            let i = choose|i: int|
                0 <= i < low.len() && (#[trigger] low[i]).name == b && !low[i].is_original;
            assert(s[i] == low[i]);
        }
        if exists|i: int| 0 <= i < s.len() && (#[trigger] s[i]).name == b && !s[i].is_original {
            let i = choose|i: int|
                0 <= i < s.len() && (#[trigger] s[i]).name == b && !s[i].is_original;
            if i < low.len() {
                assert(low[i] == s[i]);
            }
        }
        assert(s[s.len() - 1] == s.last());
    }
}

/// The lowest layer leaves the parent where the branch did: at the merge base that git knows, or
/// else at the recorded parent commit.
pub proof fn law_split_begins_where_the_branch_left(
    s: StackView,
    target: Seq<char>,
    prefix: Option<Seq<char>>,
    facts: SplitFacts,
)
    requires
        facts.commits@.len() >= 2,
    ensures
        ({
            let l = layers_of(s, target, prefix, facts);
            &&& l.len() == facts.commits@.len()
            &&& l[0].parent == s.branches[target].parent
            &&& facts.merge_base matches Some(b) ==> l[0].parent_head == trimmed(b@)
            &&& facts.merge_base is None ==> l[0].parent_head == s.branches[target].parent_head
            &&& l.last().name == target
            &&& l.last().is_original
            &&& l[0].name == (match prefix {
                Some(p) => p,
                None => target,
            }) + "-"@ + decimal(1)
        }),
{
}

/// A receipt of a split names the branch, its parent, and each layer; all but one are new.
pub proof fn law_split_receipt_tells_the_layers(
    target: Seq<char>,
    parent: Seq<char>,
    layers: Seq<LayerView>,
)
    ensures
        split_done_receipt(target, parent, layers) matches JsonView::Object(m) && {
            &&& m["cmd"@] == JsonView::Text("split"@)
            &&& m["branch"@] == JsonView::Text(target)
            &&& m["parent"@] == JsonView::Text(parent)
            &&& m["created"@] == JsonView::Number((layers.len() - 1) as u64)
            &&& m["layers"@] matches JsonView::List(l) && l.len() == layers.len() && forall|i: int|
                0 <= i < l.len() ==> #[trigger] l[i] == layer_receipt(layers[i])
        },
{
    reveal_strlit("cmd");
    reveal_strlit("branch");
    reveal_strlit("action");
    reveal_strlit("parent");
    reveal_strlit("created");
    reveal_strlit("layers");
    assert("cmd"@.len() == 3);
    assert("branch"@.len() == 6);
    assert("action"@.len() == 6);
    assert("parent"@.len() == 6);
    assert("created"@.len() == 7);
    assert("layers"@.len() == 6);
    assert("branch"@[0] == 'b');
    assert("action"@[0] == 'a');
    assert("parent"@[0] == 'p');
    assert("layers"@[0] == 'l');
}

/// Of a layer are told its name, its commit in short form, its parent, and whether it is the branch
/// that was split.
pub proof fn law_layer_receipt_tells_the_layer(l: LayerView)
    ensures
        layer_receipt(l) matches JsonView::Object(m) && {
            &&& m["branch"@] == JsonView::Text(l.name)
            &&& m["sha"@] == JsonView::Text(prefix(l.sha, 7))
            &&& m["parent"@] == JsonView::Text(l.parent)
            &&& m["is_original"@] == JsonView::Bool(l.is_original)
        },
{
    reveal_strlit("branch");
    reveal_strlit("sha");
    reveal_strlit("parent");
    reveal_strlit("is_original");
    assert("branch"@.len() == 6);
    assert("sha"@.len() == 3);
    assert("parent"@.len() == 6);
    assert("is_original"@.len() == 11);
    assert("branch"@[0] == 'b');
    assert("parent"@[0] == 'p');
}

/// A split begins with the lowest layer, on the recorded parent of the branch, with nothing done.
pub proof fn law_split_begins_with_the_lowest(
    state: StackView,
    target: Seq<char>,
    layers: Seq<LayerView>,
)
    ensures
        ({
            let v = fresh_split(state, target, layers);
            &&& v.state == state
            &&& v.target == target
            &&& v.parent == state.branches[target].parent
            &&& v.layers == layers
            &&& v.phase is Create
            &&& v.at == 0
            &&& v.error is None
        }),
{
}

} // verus!
