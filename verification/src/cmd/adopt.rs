//! Taking existing branches and pull requests into the stack.

use crate::error::{ErrorView, EzError};
use crate::github::{NativeStackInfo, NativeStackLookup, PrInfo};
use crate::json::{number_or_null, Json, JsonObject, JsonView};
use crate::json::{json_view, no_fields, text_list};
use crate::name_map::NameMap;
use crate::names::{lemma_sorted_distinct, ranks};
use crate::stack::{StackState, StackView};
use crate::text::{copy_all, decimal, holds, lex_less, number, same, sorted, views};
use vstd::prelude::*;
use vstd::string::*;

verus! {

/// Pull requests by head branch.
pub type Pulls = Map<Seq<char>, PrInfo>;

/// A branch that can be taken into the stack.
#[derive(Debug)]
pub struct AdoptCandidate {
    pub branch: String,
    pub base: String,
    pub pr_number: Option<u64>,
    pub title: String,
    pub is_draft: bool,
}

/// The contents of an `AdoptCandidate`.
#[verifier::ext_equal]
pub struct CandidateView {
    pub branch: Seq<char>,
    pub base: Seq<char>,
    pub pr_number: Option<u64>,
    pub title: Seq<char>,
    pub is_draft: bool,
}

impl View for AdoptCandidate {
    type V = CandidateView;

    open spec fn view(&self) -> CandidateView {
        CandidateView {
            branch: self.branch@,
            base: self.base@,
            pr_number: self.pr_number,
            title: self.title@,
            is_draft: self.is_draft,
        }
    }
}

/// The contents of a list of candidates.
pub open spec fn candidate_views(s: Seq<AdoptCandidate>) -> Seq<CandidateView> {
    s.map_values(|c: AdoptCandidate| c@)
}

/// The branches of a list of candidates.
pub open spec fn branches_of(s: Seq<CandidateView>) -> Seq<Seq<char>> {
    s.map_values(|c: CandidateView| c.branch)
}

/// Whether a pull request is open and not merged.
pub open spec fn active(pr: PrInfo) -> bool {
    pr.state@ == "OPEN"@ && !pr.merged
}

/// Whether a pull request is open and not merged.
pub fn is_active_pr(pr: &PrInfo) -> (r: bool)
    ensures
        r == active(*pr),
{
    same(&pr.state, "OPEN") && !pr.merged
}

/// The candidate for a pull request of `branch`, stacked on `base`.
pub open spec fn pull_candidate(branch: Seq<char>, base: Seq<char>, pr: PrInfo) -> CandidateView {
    CandidateView {
        branch,
        base,
        pr_number: Some(pr.number),
        title: pr.title@,
        is_draft: pr.is_draft,
    }
}

fn candidate_for(branch: &str, base: &str, pr: &PrInfo) -> (r: AdoptCandidate)
    ensures
        r@ == pull_candidate(branch@, base@, *pr),
{
    AdoptCandidate {
        branch: branch.to_owned(),
        base: base.to_owned(),
        pr_number: Some(pr.number),
        title: pr.title.clone(),
        is_draft: pr.is_draft,
    }
}

/// Whether the base of the active pull request of `b`, at most `n` further ones down, is the
/// trunk.
pub open spec fn leads(m: Pulls, trunk: Seq<char>, b: Seq<char>, n: nat) -> bool
    decreases n,
{
    &&& b != trunk
    &&& m.contains_key(b)
    &&& active(m[b])
    &&& m[b].base@ == trunk || (n > 0 && leads(m, trunk, m[b].base@, (n - 1) as nat))
}

/// Whether a chain of active pull requests leads from `b` down to the trunk.
pub open spec fn adoptable(m: Pulls, trunk: Seq<char>, b: Seq<char>) -> bool {
    exists|n: nat| leads(m, trunk, b, n)
}

/// Whether each candidate stands on the trunk or on an earlier candidate.
pub open spec fn parents_first(trunk: Seq<char>, s: Seq<CandidateView>) -> bool {
    forall|i: int|
        0 <= i < s.len() ==> (#[trigger] s[i]).base == trunk || branches_of(
            s.take(i),
        ).contains(s[i].base)
}

/// The candidates for the pull requests that lead down to the trunk: each once, under its own
/// base, after the candidate that it stands on.
pub open spec fn adopt_graph(trunk: Seq<char>, m: Pulls, s: Seq<CandidateView>) -> bool {
    &&& branches_of(s).no_duplicates()
    &&& forall|b: Seq<char>| #[trigger] branches_of(s).contains(b) <==> adoptable(m, trunk, b)
    &&& forall|i: int|
        0 <= i < s.len() ==> (#[trigger] s[i]) == pull_candidate(
            s[i].branch,
            m[s[i].branch].base@,
            m[s[i].branch],
        )
    &&& parents_first(trunk, s)
}

/// Whether the branches listed so far are taken, and nothing else.
spec fn grown(trunk: Seq<char>, m: Pulls, s: Seq<CandidateView>) -> bool {
    &&& branches_of(s).no_duplicates()
    &&& forall|i: int|
        0 <= i < s.len() ==> (#[trigger] s[i]) == pull_candidate(
            s[i].branch,
            m[s[i].branch].base@,
            m[s[i].branch],
        )
    &&& forall|b: Seq<char>| #[trigger] branches_of(s).contains(b) ==> adoptable(m, trunk, b)
    &&& parents_first(trunk, s)
}

/// Whether the branch can be taken on top of those of `s`.
spec fn ready(trunk: Seq<char>, m: Pulls, s: Seq<CandidateView>, b: Seq<char>) -> bool {
    &&& b != trunk
    &&& m.contains_key(b)
    &&& active(m[b])
    &&& m[b].base@ == trunk || branches_of(s).contains(m[b].base@)
}

proof fn lemma_grow(trunk: Seq<char>, m: Pulls, s: Seq<CandidateView>, b: Seq<char>)
    requires
        grown(trunk, m, s),
        ready(trunk, m, s, b),
        !branches_of(s).contains(b),
    ensures
        grown(trunk, m, s.push(pull_candidate(b, m[b].base@, m[b]))),
{
    let c = pull_candidate(b, m[b].base@, m[b]);
    let t = s.push(c);
    assert(branches_of(t) =~= branches_of(s).push(b));
    if m[b].base@ == trunk {
        assert(leads(m, trunk, b, 0));
    } else {
        let p = m[b].base@;
        assert(adoptable(m, trunk, p));
        let n = choose|n: nat| leads(m, trunk, p, n);
        assert(leads(m, trunk, b, (n + 1) as nat));
    }
    assert forall|k: Seq<char>| #[trigger] branches_of(t).contains(k) implies adoptable(
        m,
        trunk,
        k,
    ) by {
        vstd::seq_lib::lemma_seq_contains_after_push(branches_of(s), b, k);
    }
    assert forall|i: int| 0 <= i < t.len() implies (#[trigger] t[i]).base == trunk || branches_of(
        t.take(i),
    ).contains(t[i].base) by {
        if i < s.len() {
            assert(t.take(i) =~= s.take(i));
            assert(t[i] == s[i]);
        } else {
            assert(t.take(i) =~= s);
        }
    }
}

/// Takes each branch of `keys` that can be taken; returns whether there was one.
fn take_ready(
    trunk: &str,
    prs: &NameMap<PrInfo>,
    keys: &Vec<String>,
    out: &mut Vec<AdoptCandidate>,
) -> (more: bool)
    requires
        grown(trunk@, prs@, candidate_views(old(out)@)),
        forall|b: Seq<char>| #[trigger] views(keys@).contains(b) <==> prs@.contains_key(b),
    ensures
        grown(trunk@, prs@, candidate_views(final(out)@)),
        final(out).len() >= old(out).len(),
        more ==> final(out).len() > old(out).len(),
        !more ==> forall|b: Seq<char>| #[trigger]
            ready(trunk@, prs@, candidate_views(final(out)@), b) ==> branches_of(
                candidate_views(final(out)@),
            ).contains(b),
{
    let ghost m = prs@;
    let ghost names = views(keys@);
    let ghost start = candidate_views(out@);
    let mut more: bool = false;
    let mut i: usize = 0;
    while i < keys.len()
        invariant
            i <= keys.len(),
            m == prs@,
            names == views(keys@),
            grown(trunk@, m, candidate_views(out@)),
            out.len() >= start.len(),
            more ==> out.len() > start.len(),
            !more ==> candidate_views(out@) == start,
            !more ==> forall|j: int|
                0 <= j < i && ready(trunk@, m, start, names[j]) ==> branches_of(start).contains(
                    #[trigger] names[j],
                ),
        decreases keys.len() - i,
    {
        let ghost held = candidate_views(out@);
        let branch: &String = &keys[i];
        assert(names[i as int] == branch@);
        let mut taken: bool = false;
        let mut j: usize = 0;
        while j < out.len()
            invariant
                j <= out.len(),
                held == candidate_views(out@),
                taken == branches_of(held).take(j as int).contains(branch@),
            decreases out.len() - j,
        {
            let ghost low = branches_of(held).take(j as int);
            assert(branches_of(held).take(j + 1) =~= low.push(out@[j as int].branch@));
            proof {
                vstd::seq_lib::lemma_seq_contains_after_push(
                    low,
                    out@[j as int].branch@,
                    branch@,
                );
            }
            if same(&out[j].branch, branch) {
                taken = true;
            }
            j += 1;
        }
        assert(branches_of(held).take(out.len() as int) =~= branches_of(held));
        if !taken && !same(branch, trunk) {
            if let Some(pr) = prs.get(branch) {
                if is_active_pr(pr) {
                    let mut base_taken: bool = same(&pr.base, trunk);
                    let mut k: usize = 0;
                    while k < out.len()
                        invariant
                            k <= out.len(),
                            held == candidate_views(out@),
                            base_taken == (pr.base@ == trunk@ || branches_of(held).take(
                                k as int,
                            ).contains(pr.base@)),
                        decreases out.len() - k,
                    {
                        let ghost low = branches_of(held).take(k as int);
                        assert(branches_of(held).take(k + 1) =~= low.push(out@[k as int].branch@));
                        proof {
                            vstd::seq_lib::lemma_seq_contains_after_push(
                                low,
                                out@[k as int].branch@,
                                pr.base@,
                            );
                        }
                        if same(&out[k].branch, &pr.base) {
                            base_taken = true;
                        }
                        k += 1;
                    }
                    assert(branches_of(held).take(out.len() as int) =~= branches_of(held));
                    if base_taken {
                        proof {
                            assert(ready(trunk@, m, held, branch@));
                            lemma_grow(trunk@, m, held, branch@);
                        }
                        out.push(candidate_for(branch, &pr.base, pr));
                        assert(candidate_views(out@) =~= held.push(
                            pull_candidate(branch@, m[branch@].base@, m[branch@]),
                        ));
                        more = true;
                    }
                }
            }
        }
        i += 1;
    }
    proof {
        if !more {
            assert forall|b: Seq<char>| #[trigger]
                ready(trunk@, m, start, b) implies branches_of(start).contains(b) by {
                assert(names.contains(b));
                let j = choose|j: int| 0 <= j < names.len() && names[j] == b;
                assert(branches_of(start).contains(names[j]));
            }
        }
    }
    more
}

proof fn lemma_all_taken(
    trunk: Seq<char>,
    m: Pulls,
    s: Seq<CandidateView>,
    b: Seq<char>,
    n: nat,
)
    requires
        leads(m, trunk, b, n),
        forall|k: Seq<char>| #[trigger] ready(trunk, m, s, k) ==> branches_of(s).contains(k),
    ensures
        branches_of(s).contains(b),
    decreases n,
{
    if m[b].base@ != trunk {
        lemma_all_taken(trunk, m, s, m[b].base@, (n - 1) as nat);
    }
    assert(ready(trunk, m, s, b));
}

/// The candidates for the active pull requests whose bases lead down to the trunk, parents
/// before children.
pub fn build_adopt_graph(trunk: &str, prs: &NameMap<PrInfo>) -> (r: Vec<AdoptCandidate>)
    ensures
        adopt_graph(trunk@, prs@, candidate_views(r@)),
{
    let ghost m = prs@;
    let keys: Vec<String> = prs.keys();
    let mut out: Vec<AdoptCandidate> = Vec::new();
    assert(candidate_views(out@) =~= Seq::<CandidateView>::empty());
    assert(branches_of(candidate_views(out@)) =~= Seq::<Seq<char>>::empty());
    let mut more: bool = true;
    while more
        invariant
            m == prs@,
            m.dom().finite(),
            forall|b: Seq<char>| #[trigger] views(keys@).contains(b) <==> prs@.contains_key(b),
            grown(trunk@, m, candidate_views(out@)),
            !more ==> forall|b: Seq<char>| #[trigger]
                ready(trunk@, m, candidate_views(out@), b) ==> branches_of(
                    candidate_views(out@),
                ).contains(b),
        decreases m.len() + 1 - out.len(), (if more { 1int } else { 0 }),
    {
        proof {
            lemma_taken_within(trunk@, m, candidate_views(out@));
        }
        more = take_ready(trunk, prs, &keys, &mut out);
        proof {
            lemma_taken_within(trunk@, m, candidate_views(out@));
        }
    }
    proof {
        let s = candidate_views(out@);
        assert forall|b: Seq<char>| adoptable(m, trunk@, b) implies #[trigger] branches_of(
            s,
        ).contains(b) by {
            let n = choose|n: nat| leads(m, trunk@, b, n);
            lemma_all_taken(trunk@, m, s, b, n);
        }
    }
    out
}

proof fn lemma_taken_within(trunk: Seq<char>, m: Pulls, s: Seq<CandidateView>)
    requires
        m.dom().finite(),
        grown(trunk, m, s),
    ensures
        s.len() <= m.len(),
{
    let names = branches_of(s);
    names.unique_seq_to_set();
    assert forall|k: Seq<char>| #[trigger] names.to_set().contains(k) implies m.dom().contains(
        k,
    ) by {
        assert(names.contains(k));
        let n = choose|n: nat| leads(m, trunk, k, n);
        assert(leads(m, trunk, k, n));
    }
    vstd::set_lib::lemma_len_subset(names.to_set(), m.dom());
}

/// A pull request with its head branch.
pub type Headed = (String, PrInfo);

/// The candidates of a native stack: its active pull requests, each on the one before it.
pub open spec fn stacked(trunk: Seq<char>, items: Seq<Headed>) -> Seq<CandidateView> {
    Seq::new(
        items.len(),
        |i: int|
            pull_candidate(
                items[i].0@,
                if i == 0 {
                    trunk
                } else {
                    items[i - 1].0@
                },
                items[i].1,
            ),
    )
}

/// The candidates of a native stack, given its pull requests from the trunk up: the active
/// ones, each on the one before it, whatever bases they report.
pub fn build_native_adopt_candidates(trunk: &str, ordered_prs: &Vec<Headed>) -> (r: Vec<
    AdoptCandidate,
>)
    ensures
        candidate_views(r@) == stacked(
            trunk@,
            ordered_prs@.filter(|h: Headed| active(h.1)),
        ),
{
    let ghost live = |h: Headed| active(h.1);
    let mut out: Vec<AdoptCandidate> = Vec::new();
    let mut parent: String = trunk.to_owned();
    let mut i: usize = 0;
    reveal(Seq::filter);
    assert(ordered_prs@.take(0) =~= Seq::<Headed>::empty());
    assert(candidate_views(out@) =~= stacked(trunk@, ordered_prs@.take(0).filter(live)));
    while i < ordered_prs.len()
        invariant
            i <= ordered_prs.len(),
            live == (|h: Headed| active(h.1)),
            candidate_views(out@) == stacked(trunk@, ordered_prs@.take(i as int).filter(live)),
            parent@ == ({
                let kept = ordered_prs@.take(i as int).filter(live);
                if kept.len() == 0 {
                    trunk@
                } else {
                    kept.last().0@
                }
            }),
        decreases ordered_prs.len() - i,
    {
        let ghost kept = ordered_prs@.take(i as int).filter(live);
        let ghost item = ordered_prs@[i as int];
        let ghost held = candidate_views(out@);
        proof {
            assert(ordered_prs@.take(i + 1) =~= ordered_prs@.take(i as int).push(item));
            ordered_prs@.take(i as int).lemma_filter_push(item, live);
        }
        if is_active_pr(&ordered_prs[i].1) {
            out.push(candidate_for(&ordered_prs[i].0, &parent, &ordered_prs[i].1));
            proof {
                assert(candidate_views(out@) =~= held.push(
                    pull_candidate(item.0@, parent@, item.1),
                ));
                assert(candidate_views(out@) =~= stacked(trunk@, kept.push(item)));
            }
            parent = ordered_prs[i].0.clone();
        }
        i += 1;
    }
    assert(ordered_prs@.take(ordered_prs.len() as int) =~= ordered_prs@);
    out
}

/// What branch `i` of an explicit chain is stacked on.
pub open spec fn explicit_parent(trunk: Seq<char>, branches: Seq<Seq<char>>, i: int) -> Seq<char> {
    if i == 0 {
        trunk
    } else {
        branches[i - 1]
    }
}

/// What is wrong with branch `i` of an explicit chain, if anything: it is named twice, it is
/// the trunk, or its active pull request has another base.
pub open spec fn explicit_fault(
    trunk: Seq<char>,
    branches: Seq<Seq<char>>,
    m: Pulls,
    i: int,
) -> Option<Seq<char>> {
    let b = branches[i];
    let parent = explicit_parent(trunk, branches, i);
    if branches.take(i).contains(b) {
        Some("branch `"@ + b + "` was specified more than once"@)
    } else if b == trunk {
        Some("cannot adopt trunk branch `"@ + trunk + "` as a stacked branch"@)
    } else if m.contains_key(b) && active(m[b]) && m[b].base@ != parent {
        Some(
            "`"@ + b + "` has open PR #"@ + decimal(m[b].number as nat)
                + " with reported base `"@ + m[b].base@ + "`, but its explicit parent is `"@
                + parent
                + "`. Reorder the branch arguments or use `ez adopt --pr "@ + decimal(
                m[b].number as nat,
            ) + "` to adopt the PR stack from GitHub."@,
        )
    } else {
        None
    }
}

/// The candidate for branch `i` of an explicit chain.
pub open spec fn explicit_candidate(
    trunk: Seq<char>,
    branches: Seq<Seq<char>>,
    m: Pulls,
    i: int,
) -> CandidateView {
    let b = branches[i];
    let parent = explicit_parent(trunk, branches, i);
    if m.contains_key(b) && active(m[b]) {
        pull_candidate(b, parent, m[b])
    } else {
        CandidateView { branch: b, base: parent, pr_number: None, title: b, is_draft: false }
    }
}

/// The candidates for branches named from the trunk up, or the first fault among them.
pub fn build_explicit_chain_candidates(
    trunk: &str,
    branches: &Vec<String>,
    prs: &NameMap<PrInfo>,
) -> (r: Result<Vec<AdoptCandidate>, EzError>)
    ensures
        match r {
            Ok(v) => {
                &&& forall|i: int|
                    0 <= i < branches.len() ==> #[trigger] explicit_fault(
                        trunk@,
                        views(branches@),
                        prs@,
                        i,
                    ) is None
                &&& candidate_views(v@) == Seq::new(
                    branches@.len(),
                    |i: int| explicit_candidate(trunk@, views(branches@), prs@, i),
                )
                &&& v@.len() == branches@.len()
                &&& forall|i: int|
                    0 <= i < v@.len() ==> (#[trigger] v@[i]).branch@ == branches@[i]@ && v@[i].base@
                        == (if i == 0 {
                        trunk@
                    } else {
                        v@[i - 1].branch@
                    })
            },
            Err(e) => exists|i: int|
                #![trigger explicit_fault(trunk@, views(branches@), prs@, i)]
                {
                    &&& 0 <= i < branches.len()
                    &&& explicit_fault(trunk@, views(branches@), prs@, i) matches Some(text) && e@
                        == ErrorView::UserMessage(text)
                    &&& forall|j: int|
                        0 <= j < i ==> explicit_fault(trunk@, views(branches@), prs@, j) is None
                },
        },
{
    let ghost names = views(branches@);
    let ghost m = prs@;
    let mut out: Vec<AdoptCandidate> = Vec::new();
    let mut seen: Vec<String> = Vec::new();
    let mut parent: String = trunk.to_owned();
    let mut i: usize = 0;
    assert(views(seen@) =~= names.take(0));
    while i < branches.len()
        invariant
            i <= branches.len(),
            names == views(branches@),
            m == prs@,
            views(seen@) == names.take(i as int),
            parent@ == explicit_parent(trunk@, names, i as int),
            out.len() == i,
            forall|j: int|
                0 <= j < i ==> #[trigger] explicit_fault(trunk@, names, m, j) is None,
            forall|j: int|
                0 <= j < i ==> (#[trigger] out@[j])@ == explicit_candidate(trunk@, names, m, j),
        decreases branches.len() - i,
    {
        let branch: &String = &branches[i];
        assert(names[i as int] == branch@);
        if holds(&seen, branch) {
            let text: String = String::from_str("branch `").concat(branch).concat(
                "` was specified more than once",
            );
            assert(explicit_fault(trunk@, names, m, i as int) == Some(text@));
            return Err(EzError::UserMessage(text));
        }
        if same(branch, trunk) {
            let text: String = String::from_str("cannot adopt trunk branch `").concat(
                trunk,
            ).concat("` as a stacked branch");
            assert(explicit_fault(trunk@, names, m, i as int) == Some(text@));
            return Err(EzError::UserMessage(text));
        }
        let mut pulled: bool = false;
        if let Some(pr) = prs.get(branch) {
            if is_active_pr(pr) {
                pulled = true;
                if !same(&pr.base, &parent) {
                    let text: String = String::from_str("`").concat(branch).concat(
                        "` has open PR #",
                    ).concat(&number(pr.number)).concat(" with reported base `").concat(
                        &pr.base,
                    ).concat("`, but its explicit parent is `").concat(&parent).concat(
                        "`. Reorder the branch arguments or use `ez adopt --pr ",
                    ).concat(&number(pr.number)).concat(
                        "` to adopt the PR stack from GitHub.",
                    );
                    assert(explicit_fault(trunk@, names, m, i as int) == Some(text@));
                    return Err(EzError::UserMessage(text));
                }
                out.push(candidate_for(branch, &parent, pr));
            }
        }
        if !pulled {
            out.push(
                AdoptCandidate {
                    branch: branch.clone(),
                    base: parent.clone(),
                    pr_number: None,
                    title: branch.clone(),
                    is_draft: false,
                },
            );
        }
        proof {
            assert(explicit_fault(trunk@, names, m, i as int) is None);
            assert(out@[i as int]@ == explicit_candidate(trunk@, names, m, i as int));
        }
        let ghost held = views(seen@);
        seen.push(branch.clone());
        assert(views(seen@) =~= held.push(branch@));
        assert(names.take(i + 1) =~= held.push(branch@));
        parent = branch.clone();
        i += 1;
    }
    assert(candidate_views(out@) =~= Seq::new(
        branches@.len(),
        |j: int| explicit_candidate(trunk@, names, m, j),
    ));
    Ok(out)
}

/// The head branches whose pull request has a base that is neither the trunk nor another head.
pub open spec fn orphans(m: Pulls, trunk: Seq<char>) -> Set<Seq<char>> {
    Set::new(
        |b: Seq<char>|
            m.contains_key(b) && m[b].base@ != trunk && !m.contains_key(m[b].base@),
    )
}

/// The head branches whose pull request has a base that is neither the trunk nor another head,
/// by name.
pub fn orphan_local_prs(prs: &NameMap<PrInfo>, trunk: &str) -> (r: Vec<String>)
    ensures
        ranks(views(r@), orphans(prs@, trunk@)),
{
    let ghost m = prs@;
    let keys: Vec<String> = prs.keys();
    let ghost names = views(keys@);
    let mut out: Vec<String> = Vec::new();
    let mut i: usize = 0;
    while i < keys.len()
        invariant
            i <= keys.len(),
            m == prs@,
            names == views(keys@),
            sorted(names),
            sorted(views(out@)),
            forall|k: Seq<char>| #[trigger]
                views(out@).contains(k) <==> names.take(i as int).contains(k) && orphans(
                    m,
                    trunk@,
                ).contains(k),
        decreases keys.len() - i,
    {
        let ghost name = names[i as int];
        let ghost low = names.take(i as int);
        assert(name == keys@[i as int]@);
        assert(names.take(i + 1) =~= low.push(name));
        let orphan: bool = match prs.get(&keys[i]) {
            Some(pr) => !same(&pr.base, trunk) && !prs.contains_key(&pr.base),
            None => false,
        };
        assert(orphan == orphans(m, trunk@).contains(name));
        let ghost held = views(out@);
        if orphan {
            out.push(keys[i].clone());
        }
        proof {
            let now = views(out@);
            if orphan {
                assert(now =~= held.push(name));
                assert forall|a: int, b: int| 0 <= a < b < now.len() implies lex_less(
                    #[trigger] now[a],
                    #[trigger] now[b],
                ) by {
                    if b == held.len() {
                        assert(held.contains(held[a]));
                        let z = choose|z: int| 0 <= z < low.len() && low[z] == held[a];
                        assert(lex_less(names[z], names[i as int]));
                    } else {
                        assert(lex_less(held[a], held[b]));
                    }
                }
            }
            assert forall|k: Seq<char>| #[trigger]
                now.contains(k) <==> names.take(i + 1).contains(k) && orphans(
                    m,
                    trunk@,
                ).contains(k) by {
                vstd::seq_lib::lemma_seq_contains_after_push(low, name, k);
                vstd::seq_lib::lemma_seq_contains_after_push(held, name, k);
            }
        }
        i += 1;
    }
    proof {
        assert(names.take(keys.len() as int) =~= names);
        assert forall|k: Seq<char>| #[trigger]
            views(out@).contains(k) <==> orphans(m, trunk@).contains(k) by {
            assert(names.contains(k) <==> m.contains_key(k));
        }
    }
    out
}

/// The pull requests that are open and not merged.
pub open spec fn active_only(m: Pulls) -> Pulls {
    Map::new(|b: Seq<char>| m.contains_key(b) && active(m[b]), |b: Seq<char>| m[b])
}

/// Drops the pull requests that are closed or merged.
pub fn retain_active(prs: &mut NameMap<PrInfo>)
    ensures
        final(prs)@ == active_only(old(prs)@),
{
    let ghost m = prs@;
    let keys: Vec<String> = prs.keys();
    let ghost names = views(keys@);
    proof {
        lemma_sorted_distinct(names);
    }
    let mut i: usize = 0;
    while i < keys.len()
        invariant
            i <= keys.len(),
            names == views(keys@),
            names.no_duplicates(),
            forall|k: Seq<char>| #[trigger] names.contains(k) <==> m.contains_key(k),
            forall|k: Seq<char>| #[trigger]
                prs@.contains_key(k) <==> m.contains_key(k) && (names.take(i as int).contains(k)
                    ==> active(m[k])),
            forall|k: Seq<char>| #[trigger] prs@.contains_key(k) ==> prs@[k] == m[k],
        decreases keys.len() - i,
    {
        let ghost name = names[i as int];
        let ghost low = names.take(i as int);
        let ghost held = prs@;
        assert(name == keys@[i as int]@);
        assert(names.contains(name));
        assert(names.take(i + 1) =~= low.push(name));
        assert(!low.contains(name)) by {
            if low.contains(name) {
                let z = choose|z: int| 0 <= z < low.len() && low[z] == name;
                assert(names[z] == name);
            }
        }
        let keep: bool = match prs.get(&keys[i]) {
            Some(pr) => is_active_pr(pr),
            None => true,
        };
        assert(held.contains_key(name));
        if !keep {
            prs.remove(&keys[i]);
        }
        proof {
            assert forall|k: Seq<char>| #[trigger] prs@.contains_key(k) <==> m.contains_key(k) && (
            names.take(i + 1).contains(k) ==> active(m[k])) by {
                vstd::seq_lib::lemma_seq_contains_after_push(low, name, k);
                assert(held.contains_key(k) <==> m.contains_key(k) && (low.contains(k) ==> active(
                    m[k],
                )));
            }
            assert forall|k: Seq<char>| #[trigger] prs@.contains_key(k) implies prs@[k] == m[k] by {
                assert(held.contains_key(k));
            }
        }
        i += 1;
    }
    proof {
        assert(names.take(keys.len() as int) =~= names);
        assert forall|k: Seq<char>| prs@.contains_key(k) == active_only(m).contains_key(k) by {
            assert(names.contains(k) <==> m.contains_key(k));
        }
        assert(prs@ =~= active_only(m));
    }
}

/// A pull request number as it is shown, or `none`.
pub open spec fn pr_label(n: Option<u64>) -> Seq<char> {
    match n {
        Some(x) => "#"@ + decimal(x as nat),
        None => "none"@,
    }
}

/// A pull request number as it is shown, or `none`.
pub fn format_pr_number(n: Option<u64>) -> (r: String)
    ensures
        r@ == pr_label(n),
{
    match n {
        Some(x) => String::from_str("#").concat(&number(x)),
        None => String::from_str("none"),
    }
}

/// Whether a recorded branch can be adopted again as it is: its parent is the candidate's base,
/// and its pull request, if one is recorded, is the candidate's.
pub open spec fn agrees(s: StackView, c: CandidateView) -> bool {
    s.managed(c.branch) ==> {
        &&& s.branches[c.branch].parent == c.base
        &&& s.branches[c.branch].pr_number is Some ==> s.branches[c.branch].pr_number
            == c.pr_number
    }
}

/// What is reported of a recorded branch that does not agree with a candidate.
pub open spec fn conflict_text(s: StackView, c: CandidateView, native: Option<u64>) -> Seq<char> {
    (match native {
        Some(n) => "native stack #"@ + decimal(n as nat) + " "@,
        None => ""@,
    }) + "conflicts with local ez metadata for `"@ + c.branch + "`: local parent=`"@
        + s.branches[c.branch].parent + "`, remote parent=`"@ + c.base + "`, local PR="@
        + pr_label(s.branches[c.branch].pr_number) + ", remote PR="@ + pr_label(c.pr_number)
        + ". Resolve the local stack metadata before adopting this branch."@
}

/// Whether every candidate agrees with what is recorded; else the first conflict.
pub fn validate_managed_adopt_candidates(
    state: &StackState,
    candidates: &Vec<AdoptCandidate>,
    native_stack_number: Option<u64>,
) -> (r: Result<(), EzError>)
    ensures
        match r {
            Ok(_) => forall|i: int|
                0 <= i < candidates.len() ==> agrees(state@, (#[trigger] candidates@[i])@),
            Err(e) => exists|i: int|
                {
                    &&& 0 <= i < candidates.len()
                    &&& !agrees(state@, (#[trigger] candidates@[i])@)
                    &&& e@ == ErrorView::UserMessage(
                        conflict_text(state@, candidates@[i]@, native_stack_number),
                    )
                    &&& forall|j: int| 0 <= j < i ==> agrees(state@, (#[trigger] candidates@[j])@)
                },
        },
{
    let mut i: usize = 0;
    while i < candidates.len()
        invariant
            i <= candidates.len(),
            forall|j: int| 0 <= j < i ==> agrees(state@, (#[trigger] candidates@[j])@),
        decreases candidates.len() - i,
    {
        let candidate: &AdoptCandidate = &candidates[i];
        if let Some(meta) = state.branches.get(&candidate.branch) {
            let pr_conflicts: bool = match (meta.pr_number, candidate.pr_number) {
                (None, _) => false,
                (Some(local), Some(remote)) => local != remote,
                (Some(_), None) => true,
            };
            if !(same(&meta.parent, &candidate.base) && !pr_conflicts) {
                let context: String = match native_stack_number {
                    Some(n) => String::from_str("native stack #").concat(&number(n)).concat(" "),
                    None => String::from_str(""),
                };
                let text: String = context.concat("conflicts with local ez metadata for `").concat(
                    &candidate.branch,
                ).concat("`: local parent=`").concat(&meta.parent).concat(
                    "`, remote parent=`",
                ).concat(&candidate.base).concat("`, local PR=").concat(
                    &format_pr_number(meta.pr_number),
                ).concat(", remote PR=").concat(&format_pr_number(candidate.pr_number)).concat(
                    ". Resolve the local stack metadata before adopting this branch.",
                );
                assert(text@ == conflict_text(state@, candidate@, native_stack_number));
                assert(!agrees(state@, candidates@[i as int]@));
                return Err(EzError::UserMessage(text));
            }
        }
        i += 1;
    }
    Ok(())
}

/// The ref that a candidate without a pull request comes from: the fetched remote branch, or
/// none where the branch exists locally.
pub fn branch_source(
    remote: &str,
    candidate: &AdoptCandidate,
    local_exists: bool,
    fetched: Result<String, String>,
) -> (r: Result<Option<String>, EzError>)
    ensures
        match fetched {
            Ok(name) => r == Ok::<Option<String>, EzError>(Some(name)),
            Err(text) => if local_exists {
                r == Ok::<Option<String>, EzError>(None)
            } else {
                r matches Err(e) && e@ == ErrorView::UserMessage(
                    "branch `"@ + candidate.branch@ + "` was not found locally or on remote `"@
                        + remote@ + "`: "@ + text@,
                )
            },
        },
{
    match fetched {
        Ok(name) => Ok(Some(name)),
        Err(text) => {
            if local_exists {
                Ok(None)
            } else {
                Err(
                    EzError::UserMessage(
                        String::from_str("branch `").concat(&candidate.branch).concat(
                            "` was not found locally or on remote `",
                        ).concat(remote).concat("`: ").concat(&text),
                    ),
                )
            }
        },
    }
}

/// What git says of a candidate's local branch and the ref it would come from.
#[derive(Debug)]
pub struct RefFacts {
    pub local_exists: bool,
    pub source_ref: Option<String>,
    /// Whether the source ref is an ancestor of the local branch.
    pub contained: bool,
}

/// Whether a local branch, if there is one, holds everything that its source ref does.
pub open spec fn holds_source(f: RefFacts) -> bool {
    !f.local_exists || f.source_ref is None || f.contained
}

/// What is reported of a local branch that lacks commits of its source ref.
pub open spec fn lacks_text(c: CandidateView, source: Seq<char>) -> Seq<char> {
    "local branch `"@ + c.branch + "` does not contain "@ + (match c.pr_number {
        Some(n) => "PR #"@ + decimal(n as nat) + " head"@,
        None => "remote branch"@,
    }) + " `"@ + source + "`"@
}

/// Whether every local branch among the candidates holds everything that its source ref does;
/// else the first that does not.
pub fn validate_existing_branch_pr_refs(
    candidates: &Vec<AdoptCandidate>,
    facts: &Vec<RefFacts>,
) -> (r: Result<(), EzError>)
    requires
        facts.len() == candidates.len(),
    ensures
        match r {
            Ok(_) => forall|i: int|
                0 <= i < facts.len() ==> holds_source(#[trigger] facts@[i]),
            Err(e) => exists|i: int|
                {
                    &&& 0 <= i < facts.len()
                    &&& !holds_source(#[trigger] facts@[i])
                    &&& e@ == ErrorView::UserMessage(
                        lacks_text(candidates@[i]@, facts@[i].source_ref->0@),
                    )
                    &&& forall|j: int| 0 <= j < i ==> holds_source(#[trigger] facts@[j])
                },
        },
{
    let mut i: usize = 0;
    while i < candidates.len()
        invariant
            i <= candidates.len(),
            facts.len() == candidates.len(),
            forall|j: int| 0 <= j < i ==> holds_source(#[trigger] facts@[j]),
        decreases candidates.len() - i,
    {
        let candidate: &AdoptCandidate = &candidates[i];
        let fact: &RefFacts = &facts[i];
        if fact.local_exists {
            if let Some(source) = &fact.source_ref {
                if !fact.contained {
                    let detail: String = match candidate.pr_number {
                        Some(n) => String::from_str("PR #").concat(&number(n)).concat(" head"),
                        None => String::from_str("remote branch"),
                    };
                    let text: String = String::from_str("local branch `").concat(
                        &candidate.branch,
                    ).concat("` does not contain ").concat(&detail).concat(" `").concat(
                        source,
                    ).concat("`");
                    assert(!holds_source(facts@[i as int]));
                    return Err(EzError::UserMessage(text));
                }
            }
        }
        i += 1;
    }
    Ok(())
}

/// The title to show for a native stack: that of the requested pull request, where the stack
/// lists it, else the number of the stack.
pub open spec fn native_title(
    numbers: Seq<u64>,
    pulls: Seq<Headed>,
    requested: u64,
    stack: u64,
) -> Seq<char>
    decreases pulls.len(),
{
    if pulls.len() == 0 {
        "native stack #"@ + decimal(stack as nat)
    } else if numbers[pulls.len() - 1] == requested {
        pulls.last().1.title@
    } else {
        native_title(numbers, pulls.drop_last(), requested, stack)
    }
}

/// The title to show for a native stack, given its pull requests from the trunk up.
pub fn native_stack_title(
    numbers: &Vec<u64>,
    pulls: &Vec<Headed>,
    requested: u64,
    stack: u64,
) -> (r: String)
    requires
        numbers@.len() == pulls@.len(),
    ensures
        r@ == native_title(numbers@, pulls@, requested, stack),
{
    let mut i: usize = pulls.len();
    assert(pulls@.take(i as int) =~= pulls@);
    while i > 0
        invariant
            i <= pulls.len(),
            numbers@.len() == pulls@.len(),
            native_title(numbers@, pulls@, requested, stack) == native_title(
                numbers@,
                pulls@.take(i as int),
                requested,
                stack,
            ),
        decreases i,
    {
        i -= 1;
        assert(pulls@.take(i + 1).drop_last() =~= pulls@.take(i as int));
        if numbers[i] == requested {
            return pulls[i].1.title.clone();
        }
    }
    String::from_str("native stack #").concat(&number(stack))
}

/// Where the candidates of a pull request come from.
#[derive(Debug)]
pub enum PullSource {
    /// The native stack that GitHub keeps of it.
    Native(NativeStackInfo),
    /// The chain of its bases.
    Chain,
}

/// Where the candidates of a pull request come from: from its native stack where there is one,
/// else from the chain of its bases. Pull requests of a fork have no native stack. A lookup that
/// failed is an error, for the chain could be another one.
pub fn pull_source(fork_workflow: bool, native: Result<NativeStackLookup, String>) -> (r: Result<
    PullSource,
    EzError,
>)
    ensures
        if fork_workflow {
            r matches Ok(PullSource::Chain)
        } else {
            match native {
                Err(text) => r matches Err(e) && e@ == ErrorView::Other(text@),
                Ok(NativeStackLookup::Found(info)) => r matches Ok(PullSource::Native(i)) && i
                    == info,
                Ok(_) => r matches Ok(PullSource::Chain),
            }
        },
{
    if fork_workflow {
        return Ok(PullSource::Chain);
    }
    match native {
        Err(text) => Err(EzError::Other(text)),
        Ok(NativeStackLookup::Found(info)) => Ok(PullSource::Native(info)),
        Ok(_) => Ok(PullSource::Chain),
    }
}

/// What is said of a pull request that GitHub does not know.
pub open spec fn absent_text(number: u64, stack: Option<u64>) -> Seq<char> {
    "PR #"@ + decimal(number as nat) + (match stack {
        Some(s) => " from native stack #"@ + decimal(s as nat),
        None => ""@,
    }) + " not found — make sure it exists and is accessible"@
}

fn absent_error(pr_number: u64, stack: Option<u64>) -> (r: EzError)
    ensures
        r@ == ErrorView::Other(absent_text(pr_number, stack)),
{
    let place: String = match stack {
        Some(s) => String::from_str(" from native stack #").concat(&number(s)),
        None => String::from_str(""),
    };
    EzError::Other(
        String::from_str("PR #").concat(&number(pr_number)).concat(&place).concat(
            " not found — make sure it exists and is accessible",
        ),
    )
}

/// The pull request that was asked for, if GitHub knows it.
pub fn requested_pull(number: u64, pull: Option<Headed>) -> (r: Result<Headed, EzError>)
    ensures
        match pull {
            Some(h) => r matches Ok(x) && x == h,
            None => r matches Err(e) && e@ == ErrorView::Other(absent_text(number, None)),
        },
{
    match pull {
        Some(h) => Ok(h),
        None => Err(absent_error(number, None)),
    }
}

/// The pull requests that are there.
pub open spec fn pulls_there(pulls: Seq<Option<Headed>>) -> Seq<Headed> {
    Seq::new(pulls.len(), |i: int| pulls[i]->0)
}

/// Whether entry `i` is the first that is absent.
pub open spec fn first_absent(pulls: Seq<Option<Headed>>, i: int) -> bool {
    &&& 0 <= i < pulls.len()
    &&& pulls[i] is None
    &&& forall|j: int| 0 <= j < i ==> (#[trigger] pulls[j]) is Some
}

/// The title and the candidates of a native stack, given what GitHub knows of each of its pull
/// requests, from the trunk up. None of them may be absent: what stands above would be taken for
/// standing on what is below.
pub fn native_pull_candidates(
    trunk: &str,
    requested: u64,
    info: &NativeStackInfo,
    pulls: Vec<Option<Headed>>,
) -> (r: Result<(String, Vec<AdoptCandidate>), EzError>)
    requires
        pulls@.len() == info.pull_requests@.len(),
    ensures
        match r {
            Ok(found) => {
                let all = pulls_there(pulls@);
                &&& forall|i: int| 0 <= i < pulls@.len() ==> (#[trigger] pulls@[i]) is Some
                &&& found.0@ == native_title(info.pull_requests@, all, requested, info.number)
                &&& candidate_views(found.1@) == stacked(
                    trunk@,
                    all.filter(|h: Headed| active(h.1)),
                )
            },
            Err(e) => exists|i: int| #[trigger]
                first_absent(pulls@, i) && e@ == ErrorView::Other(
                    absent_text(info.pull_requests@[i], Some(info.number)),
                ),
        },
{
    let ghost given = pulls@;
    let mut rest: Vec<Option<Headed>> = pulls;
    let mut ordered: Vec<Headed> = Vec::new();
    let mut i: usize = 0;
    assert(given.skip(0) =~= given);
    while rest.len() > 0
        invariant
            i <= given.len(),
            given == pulls@,
            given.len() == info.pull_requests.len(),
            rest@ == given.skip(i as int),
            ordered.len() == i,
            forall|j: int| 0 <= j < i ==> (#[trigger] given[j]) is Some,
            forall|j: int| 0 <= j < i ==> (#[trigger] ordered@[j]) == given[j]->0,
        decreases rest.len(),
    {
        assert(rest@[0] == given[i as int]);
        match rest.remove(0) {
            Some(pull) => ordered.push(pull),
            None => {
                assert(first_absent(given, i as int));
                return Err(absent_error(info.pull_requests[i], Some(info.number)));
            },
        }
        assert(rest@ =~= given.skip(i + 1));
        i += 1;
    }
    assert(ordered@ =~= pulls_there(given));
    let title: String = native_stack_title(&info.pull_requests, &ordered, requested, info.number);
    Ok((title, build_native_adopt_candidates(trunk, &ordered)))
}

/// A search for the pull requests below given ones: which bases to ask for next.
#[derive(Debug)]
pub struct AncestorSearch {
    pub prs: NameMap<PrInfo>,
    pub tried: Vec<String>,
    pub finished: bool,
}

/// The bases that are neither the trunk nor a known head, and have not been asked for.
pub open spec fn missing_bases(
    m: Pulls,
    trunk: Seq<char>,
    tried: Seq<Seq<char>>,
) -> Set<Seq<char>> {
    Set::new(
        |b: Seq<char>|
            b != trunk && !m.contains_key(b) && !tried.contains(b) && exists|h: Seq<char>| #[trigger]
                m.contains_key(h) && m[h].base@ == b,
    )
}

impl AncestorSearch {
    /// A search from the given pull requests.
    pub fn new(prs: NameMap<PrInfo>) -> (r: AncestorSearch)
        ensures
            r.prs == prs,
            r.tried@ == Seq::<String>::empty(),
            !r.finished,
    {
        AncestorSearch { prs, tried: Vec::new(), finished: false }
    }

    /// The bases to ask for now, by name. Where there are none the search is finished.
    pub fn ask(&mut self, trunk: &str) -> (r: Vec<String>)
        ensures
            final(self).prs == old(self).prs,
            !old(self).finished ==> ranks(
                views(r@),
                missing_bases(old(self).prs@, trunk@, views(old(self).tried@)),
            ),
            old(self).finished ==> r.len() == 0,
            views(final(self).tried@) == views(old(self).tried@) + views(r@),
            final(self).finished == (r.len() == 0),
    {
        let ghost start = views(self.tried@);
        if self.finished {
            let none: Vec<String> = Vec::new();
            assert(start + views(none@) =~= start);
            return none;
        }
        let ghost m = self.prs@;
        let ghost goal = missing_bases(m, trunk@, start);
        let keys: Vec<String> = self.prs.keys();
        let ghost names = views(keys@);
        let mut found: Vec<String> = Vec::new();
        let mut i: usize = 0;
        while i < keys.len()
            invariant
                i <= keys.len(),
                m == self.prs@,
                start == views(self.tried@),
                goal == missing_bases(m, trunk@, start),
                names == views(keys@),
                forall|k: Seq<char>| #[trigger] names.contains(k) <==> m.contains_key(k),
                forall|b: Seq<char>| #[trigger] views(found@).contains(b) ==> goal.contains(b),
                forall|j: int|
                    0 <= j < i && goal.contains(m[names[j]].base@) ==> views(found@).contains(
                        m[#[trigger] names[j]].base@,
                    ),
            decreases keys.len() - i,
        {
            let ghost held = views(found@);
            assert(names[i as int] == keys@[i as int]@);
            assert(names.contains(names[i as int]));
            if let Some(pr) = self.prs.get(&keys[i]) {
                if !same(&pr.base, trunk) && !self.prs.contains_key(&pr.base) && !holds(
                    &self.tried,
                    &pr.base,
                ) {
                    found.push(pr.base.clone());
                    proof {
                        let b = pr.base@;
                        assert(m.contains_key(names[i as int]) && m[names[i as int]].base@ == b);
                        assert(goal.contains(b));
                        let now = views(found@);
                        assert(now =~= held.push(b));
                        assert forall|k: Seq<char>| #[trigger] now.contains(k) implies goal.contains(
                            k,
                        ) by {
                            vstd::seq_lib::lemma_seq_contains_after_push(held, b, k);
                        }
                        assert forall|j: int|
                            0 <= j < i + 1 && goal.contains(m[names[j]].base@) implies now.contains(
                            m[#[trigger] names[j]].base@,
                        ) by {
                            vstd::seq_lib::lemma_seq_contains_after_push(
                                held,
                                b,
                                m[names[j]].base@,
                            );
                        }
                    }
                }
            }
            i += 1;
        }
        let mut asked: Vec<String> = crate::names::rank_names(&found);
        proof {
            assert(views(found@).to_set() =~= goal) by {
                assert forall|b: Seq<char>| goal.contains(b) implies views(found@).contains(b) by {
                    let h = choose|h: Seq<char>| #[trigger] m.contains_key(h) && m[h].base@ == b;
                    assert(names.contains(h));
                    let j = choose|j: int| 0 <= j < names.len() && names[j] == h;
                    assert(views(found@).contains(m[names[j]].base@));
                }
                assert forall|b: Seq<char>| views(found@).to_set().contains(b) == goal.contains(
                    b,
                ) by {
                    assert(views(found@).to_set().contains(b) == views(found@).contains(b));
                }
            }
        }
        let ghost before = self.tried@;
        let mut again: Vec<String> = copy_all(&asked);
        self.tried.append(&mut again);
        assert(views(before + asked@) =~= views(before) + views(asked@));
        self.finished = asked.len() == 0;
        asked
    }

    /// Takes in what was found for the bases asked for. Where nothing was found the search is
    /// finished.
    pub fn receive(&mut self, found: NameMap<PrInfo>)
        ensures
            final(self).prs@ == old(self).prs@.union_prefer_right(found@),
            final(self).tried == old(self).tried,
            final(self).finished == (old(self).finished || found@.len() == 0),
    {
        let ghost start = self.prs@;
        if found.len() == 0 {
            proof {
                assert(found@.dom() =~= Set::<Seq<char>>::empty());
                assert(start =~= start.union_prefer_right(found@));
            }
            self.finished = true;
            return;
        }
        let ghost more = found@;
        let keys: Vec<String> = found.keys();
        let ghost names = views(keys@);
        proof {
            lemma_sorted_distinct(names);
        }
        let mut prs: NameMap<PrInfo> = NameMap::new();
        std::mem::swap(&mut prs, &mut self.prs);
        let mut i: usize = 0;
        while i < keys.len()
            invariant
                i <= keys.len(),
                names == views(keys@),
                names.no_duplicates(),
                forall|k: Seq<char>| #[trigger] names.contains(k) <==> more.contains_key(k),
                more == found@,
                forall|k: Seq<char>| #[trigger]
                    prs@.contains_key(k) <==> start.contains_key(k) || names.take(
                        i as int,
                    ).contains(k),
                forall|k: Seq<char>| #[trigger]
                    prs@.contains_key(k) ==> prs@[k] == if names.take(i as int).contains(k) {
                        more[k]
                    } else {
                        start[k]
                    },
            decreases keys.len() - i,
        {
            let ghost name = names[i as int];
            let ghost low = names.take(i as int);
            let ghost held = prs@;
            assert(name == keys@[i as int]@);
            assert(names.contains(name));
            assert(names.take(i + 1) =~= low.push(name));
            if let Some(pr) = found.get(&keys[i]) {
                let copy = pr.copy();
                prs.insert(keys[i].clone(), copy);
            }
            proof {
                assert forall|k: Seq<char>| #[trigger] prs@.contains_key(k) <==> start.contains_key(
                    k,
                ) || names.take(i + 1).contains(k) by {
                    vstd::seq_lib::lemma_seq_contains_after_push(low, name, k);
                    assert(held.contains_key(k) <==> start.contains_key(k) || low.contains(k));
                }
                assert forall|k: Seq<char>| #[trigger] prs@.contains_key(k) implies prs@[k] == (
                if names.take(i + 1).contains(k) {
                    more[k]
                } else {
                    start[k]
                }) by {
                    vstd::seq_lib::lemma_seq_contains_after_push(low, name, k);
                    assert(held.contains_key(k) || k == name);
                }
            }
            i += 1;
        }
        proof {
            assert(names.take(keys.len() as int) =~= names);
            assert forall|k: Seq<char>| prs@.contains_key(k) == start.union_prefer_right(
                more,
            ).contains_key(k) by {
                assert(names.contains(k) <==> more.contains_key(k));
            }
            assert forall|k: Seq<char>| prs@.contains_key(k) implies prs@[k]
                == start.union_prefer_right(more)[k] by {
                assert(names.contains(k) <==> more.contains_key(k));
            }
            assert(prs@ =~= start.union_prefer_right(more));
        }
        self.prs = prs;
    }
}

/// The fields of the receipt for an adoption.
pub open spec fn receipt_fields(
    adopted: usize,
    skipped: usize,
    candidates: Seq<CandidateView>,
    native_stack_number: Option<u64>,
    created: usize,
    paths: Seq<Seq<char>>,
) -> Map<Seq<char>, JsonView> {
    no_fields().insert("cmd"@, JsonView::Text("adopt"@)).insert(
        "adopted"@,
        JsonView::Number(adopted as u64),
    ).insert("skipped"@, JsonView::Number(skipped as u64)).insert(
        "branches"@,
        text_list(branches_of(candidates)),
    ).insert("native_stack_number"@, number_or_null(native_stack_number)).insert(
        "pr_numbers"@,
        JsonView::List(
            Seq::new(candidates.len(), |i: int| number_or_null(candidates[i].pr_number)),
        ),
    ).insert("worktrees_created"@, JsonView::Number(created as u64)).insert(
        "worktree_paths"@,
        text_list(paths),
    )
}

/// The receipt for an adoption.
pub fn adopt_receipt_value(
    adopted: usize,
    skipped: usize,
    candidates: &Vec<AdoptCandidate>,
    native_stack_number: Option<u64>,
    worktrees_created: usize,
    worktree_paths: &Vec<String>,
) -> (r: Json)
    ensures
        r@ == JsonView::Object(
            receipt_fields(
                adopted,
                skipped,
                candidate_views(candidates@),
                native_stack_number,
                worktrees_created,
                views(worktree_paths@),
            ),
        ),
{
    let ghost all = candidate_views(candidates@);
    let mut names: Vec<String> = Vec::new();
    let mut numbers: Vec<Json> = Vec::new();
    let mut i: usize = 0;
    while i < candidates.len()
        invariant
            i <= candidates.len(),
            all == candidate_views(candidates@),
            names.len() == i,
            numbers.len() == i,
            forall|j: int| 0 <= j < i ==> (#[trigger] names@[j])@ == all[j].branch,
            forall|j: int|
                0 <= j < i ==> json_view(#[trigger] numbers@[j]) == number_or_null(
                    all[j].pr_number,
                ),
        decreases candidates.len() - i,
    {
        names.push(candidates[i].branch.clone());
        numbers.push(Json::opt_number(candidates[i].pr_number));
        i += 1;
    }
    proof {
        assert(views(names@) =~= branches_of(all));
        assert(Seq::new(numbers@.len(), |j: int| json_view(numbers@[j])) =~= Seq::new(
            all.len(),
            |j: int| number_or_null(all[j].pr_number),
        ));
    }
    JsonObject::new().field("cmd", Json::text("adopt")).field("adopted", Json::count(adopted)).field(
        "skipped",
        Json::count(skipped),
    ).field("branches", Json::texts(&names)).field(
        "native_stack_number",
        Json::opt_number(native_stack_number),
    ).field("pr_numbers", Json::list(numbers)).field(
        "worktrees_created",
        Json::count(worktrees_created),
    ).field("worktree_paths", Json::texts(worktree_paths)).done()
}

/// Where the candidates come from.
#[derive(Clone, Copy, Debug, PartialEq, Eq, Structural)]
pub enum AdoptSource {
    /// The stack of one pull request.
    Pull(u64),
    /// The branches named.
    Named,
    /// The pull requests of the local branches.
    Local,
}

/// Where the candidates come from: a given pull request, else the branches named, else the
/// local branches. Only branches that are named can do without access to GitHub.
pub fn run(pr: Option<u64>, specific_branches: &Vec<String>, gh_authenticated: bool) -> (r: Result<
    AdoptSource,
    EzError,
>)
    ensures
        match r {
            Ok(AdoptSource::Pull(n)) => gh_authenticated && pr == Some(n),
            Ok(AdoptSource::Named) => pr is None && specific_branches.len() > 0,
            Ok(AdoptSource::Local) => gh_authenticated && pr is None && specific_branches.len()
                == 0,
            Err(e) => {
                &&& !gh_authenticated
                &&& pr is Some || specific_branches.len() == 0
                &&& e@ == ErrorView::GhError("not authenticated — run `gh auth login` first"@)
            },
        },
{
    if (pr.is_some() || specific_branches.len() == 0) && !gh_authenticated {
        return Err(
            EzError::GhError("not authenticated — run `gh auth login` first".to_owned()),
        );
    }
    match pr {
        Some(n) => Ok(AdoptSource::Pull(n)),
        None => if specific_branches.len() > 0 {
            Ok(AdoptSource::Named)
        } else {
            Ok(AdoptSource::Local)
        },
    }
}

/// Whether every branch named has a pull request in `prs`; if not, the branches are taken as an
/// explicit chain.
pub fn all_have_open_pr(specific_branches: &Vec<String>, prs: &NameMap<PrInfo>) -> (r: bool)
    ensures
        r == (forall|i: int|
            0 <= i < specific_branches.len() ==> prs@.contains_key(
                (#[trigger] specific_branches@[i])@,
            )),
{
    let mut i: usize = 0;
    while i < specific_branches.len()
        invariant
            i <= specific_branches.len(),
            forall|j: int|
                0 <= j < i ==> prs@.contains_key((#[trigger] specific_branches@[j])@),
        decreases specific_branches.len() - i,
    {
        if !prs.contains_key(&specific_branches[i]) {
            assert(!prs@.contains_key(specific_branches@[i as int]@));
            return false;
        }
        i += 1;
    }
    true
}

/// The candidates for named branches that all have pull requests; there must be one.
pub fn named_candidates(trunk: &str, prs: &NameMap<PrInfo>) -> (r: Result<
    Vec<AdoptCandidate>,
    EzError,
>)
    ensures
        match r {
            Ok(v) => v.len() > 0 && adopt_graph(trunk@, prs@, candidate_views(v@)),
            Err(e) => {
                &&& forall|b: Seq<char>| !#[trigger] adoptable(prs@, trunk@, b)
                &&& e@ == ErrorView::Other(
                    "None of the specified branches have open PRs rooted on `"@ + trunk@ + "`"@,
                )
            },
        },
{
    let graph: Vec<AdoptCandidate> = build_adopt_graph(trunk, prs);
    if graph.len() == 0 {
        proof {
            let s = candidate_views(graph@);
            assert forall|b: Seq<char>| !#[trigger] adoptable(prs@, trunk@, b) by {
                assert(!branches_of(s).contains(b));
            }
        }
        return Err(
            EzError::Other(
                String::from_str("None of the specified branches have open PRs rooted on `").concat(
                    trunk,
                ).concat("`"),
            ),
        );
    }
    Ok(graph)
}

/// The candidates for a pull request; there must be one.
pub fn pull_candidates(
    trunk: &str,
    pr_number: u64,
    title: &str,
    graph: Vec<AdoptCandidate>,
) -> (r: Result<Vec<AdoptCandidate>, EzError>)
    ensures
        match r {
            Ok(v) => v == graph && graph.len() > 0,
            Err(e) => graph.len() == 0 && e@ == ErrorView::Other(
                "PR #"@ + decimal(pr_number as nat) + " (`"@ + title@
                    + "`) does not lead back to trunk `"@ + trunk@ + "`"@,
            ),
        },
{
    if graph.len() == 0 {
        return Err(
            EzError::Other(
                String::from_str("PR #").concat(&number(pr_number)).concat(" (`").concat(
                    title,
                ).concat("`) does not lead back to trunk `").concat(trunk).concat("`"),
            ),
        );
    }
    Ok(graph)
}

/// The candidates of an explicit chain stand one on another: the first on the trunk, each other on
/// the one before it, in the order given. One with an open pull request shows that.
pub proof fn law_explicit_chain_is_a_chain(
    trunk: Seq<char>,
    branches: Seq<Seq<char>>,
    m: Pulls,
    chain: Seq<CandidateView>,
)
    requires
        chain == Seq::new(
            branches.len(),
            |i: int| explicit_candidate(trunk, branches, m, i),
        ),
    ensures
        chain.len() == branches.len(),
        chain.len() > 0 ==> chain[0].base == trunk,
        forall|i: int| 0 <= i < chain.len() ==> (#[trigger] chain[i]).branch == branches[i],
        forall|i: int, j: int|
            #![trigger chain[i], chain[j]]
            0 <= i && j == i + 1 && j < chain.len() ==> chain[j].base == chain[i].branch,
        forall|i: int|
            0 <= i < chain.len() ==> {
                let c = #[trigger] chain[i];
                let b = branches[i];
                let open = m.contains_key(b) && m[b].state@ == "OPEN"@ && !m[b].merged;
                &&& open ==> c.pr_number == Some(m[b].number) && c.title == m[b].title@
                    && c.is_draft == m[b].is_draft
                &&& !open ==> c.pr_number is None && c.title == b && !c.is_draft
            },
{
}

/// An explicit chain is refused for a branch exactly where it was named before, is the trunk, or
/// has an open pull request whose base is not the branch named before it.
pub proof fn law_explicit_chain_is_refused_for_cause(
    trunk: Seq<char>,
    branches: Seq<Seq<char>>,
    m: Pulls,
    i: int,
)
    requires
        0 <= i < branches.len(),
    ensures
        explicit_fault(trunk, branches, m, i) is Some <==> {
            let b = branches[i];
            ||| exists|j: int| 0 <= j < i && #[trigger] branches[j] == b
            ||| b == trunk
            ||| (m.contains_key(b) && m[b].state@ == "OPEN"@ && !m[b].merged && m[b].base@ != (
            if i == 0 {
                trunk
            } else {
                branches[i - 1]
            }))
        },
{
    let b = branches[i];
    let low = branches.take(i);
    if low.contains(b) {
        let j = choose|j: int| 0 <= j < low.len() && low[j] == b;
        assert(branches[j] == b);
    }
    if exists|j: int| 0 <= j < i && #[trigger] branches[j] == b {
        let j = choose|j: int| 0 <= j < i && #[trigger] branches[j] == b;
        assert(low[j] == b);
    }
}

/// The candidates of a native stack stand one on another, the first on the trunk, in the order of
/// the stack, each with its own pull request, whatever bases those report.
pub proof fn law_native_stack_is_a_chain(trunk: Seq<char>, items: Seq<Headed>)
    ensures
        ({
            let chain = stacked(trunk, items);
            &&& chain.len() == items.len()
            &&& chain.len() > 0 ==> chain[0].base == trunk
            &&& forall|i: int|
                0 <= i < chain.len() ==> {
                    let c = #[trigger] chain[i];
                    &&& c.branch == items[i].0@
                    &&& c.pr_number == Some(items[i].1.number)
                    &&& c.title == items[i].1.title@
                    &&& c.is_draft == items[i].1.is_draft
                }
            &&& forall|i: int, j: int|
                #![trigger chain[i], chain[j]]
                0 <= i && j == i + 1 && j < chain.len() ==> chain[j].base == chain[i].branch
        }),
{
}

/// Every candidate of a chain of bases has an open pull request, stands on the base that this
/// reports, and that base is the trunk or a candidate before it; and every branch of which this
/// holds is a candidate.
pub proof fn law_adopt_graph_follows_bases(trunk: Seq<char>, m: Pulls, s: Seq<CandidateView>)
    requires
        adopt_graph(trunk, m, s),
    ensures
        forall|i: int|
            0 <= i < s.len() ==> {
                let c = #[trigger] s[i];
                &&& c.branch != trunk
                &&& m.contains_key(c.branch)
                &&& m[c.branch].state@ == "OPEN"@
                &&& !m[c.branch].merged
                &&& c.base == m[c.branch].base@
                &&& c.pr_number == Some(m[c.branch].number)
                &&& c.base == trunk || exists|j: int| 0 <= j < i && (#[trigger] s[j]).branch == c.base
            },
        forall|i: int, j: int|
            #![trigger s[i], s[j]]
            0 <= i < j < s.len() ==> s[i].branch != s[j].branch,
        forall|b: Seq<char>|
            #![trigger m.contains_key(b)]
            b != trunk && m.contains_key(b) && m[b].state@ == "OPEN"@ && !m[b].merged && (
            m[b].base@ == trunk || exists|j: int|
                0 <= j < s.len() && (#[trigger] s[j]).branch == m[b].base@) ==> exists|i: int|
                0 <= i < s.len() && (#[trigger] s[i]).branch == b,
{
    let names = branches_of(s);
    assert forall|i: int| 0 <= i < s.len() implies {
        let c = #[trigger] s[i];
        &&& c.branch != trunk
        &&& m.contains_key(c.branch)
        &&& m[c.branch].state@ == "OPEN"@
        &&& !m[c.branch].merged
        &&& c.base == m[c.branch].base@
        &&& c.pr_number == Some(m[c.branch].number)
        &&& c.base == trunk || exists|j: int| 0 <= j < i && (#[trigger] s[j]).branch == c.base
    } by {
        let c = s[i];
        assert(names[i] == c.branch);
        assert(names.contains(c.branch));
        let n = choose|n: nat| leads(m, trunk, c.branch, n);
        assert(leads(m, trunk, c.branch, n));
        if c.base != trunk {
            let low = branches_of(s.take(i));
            assert(low.contains(c.base));
            let j = choose|j: int| 0 <= j < low.len() && low[j] == c.base;
            assert(s.take(i)[j] == s[j]);
            assert(s[j].branch == c.base);
        }
    }
    assert forall|i: int, j: int|
        #![trigger s[i], s[j]]
        0 <= i < j < s.len() implies s[i].branch != s[j].branch by {
        assert(names[i] == s[i].branch && names[j] == s[j].branch);
    }
    assert forall|b: Seq<char>|
        #![trigger m.contains_key(b)]
        b != trunk && m.contains_key(b) && m[b].state@ == "OPEN"@ && !m[b].merged && (m[b].base@
            == trunk || exists|j: int|
            0 <= j < s.len() && (#[trigger] s[j]).branch == m[b].base@) implies exists|i: int|
        0 <= i < s.len() && (#[trigger] s[i]).branch == b by {
        if m[b].base@ == trunk {
            assert(leads(m, trunk, b, 0));
        } else {
            let j = choose|j: int| 0 <= j < s.len() && (#[trigger] s[j]).branch == m[b].base@;
            assert(names[j] == m[b].base@);
            assert(names.contains(m[b].base@));
            let n = choose|n: nat| leads(m, trunk, m[b].base@, n);
            assert(leads(m, trunk, b, n + 1));
        }
        assert(adoptable(m, trunk, b));
        assert(names.contains(b));
        let i = choose|i: int| 0 <= i < names.len() && names[i] == b;
        assert(s[i].branch == b);
    }
}

/// A candidate agrees with the record exactly where it is not recorded, or is recorded on the same
/// base with the same pull request or none.
pub proof fn law_candidate_agrees_with_record(s: StackView, c: CandidateView)
    ensures
        !s.branches.contains_key(c.branch) ==> agrees(s, c),
        s.branches.contains_key(c.branch) ==> (agrees(s, c) <==> s.branches[c.branch].parent
            == c.base && (s.branches[c.branch].pr_number is None
            || s.branches[c.branch].pr_number == c.pr_number)),
{
}

/// The pull requests kept are those that are open and not merged, and they are kept as they are.
pub proof fn law_only_active_pulls_are_kept(m: Pulls, b: Seq<char>)
    ensures
        active_only(m).contains_key(b) <==> m.contains_key(b) && m[b].state@ == "OPEN"@
            && !m[b].merged,
        active_only(m).contains_key(b) ==> active_only(m)[b] == m[b],
{
}

/// The bases asked for next are those that some known pull request reports, and that are neither
/// the trunk, nor known, nor asked for before.
pub proof fn law_missing_bases_are_asked_for_once(
    m: Pulls,
    trunk: Seq<char>,
    tried: Seq<Seq<char>>,
    h: Seq<char>,
)
    requires
        m.contains_key(h),
    ensures
        missing_bases(m, trunk, tried).contains(m[h].base@) <==> m[h].base@ != trunk
            && !m.contains_key(m[h].base@) && !tried.contains(m[h].base@),
{
}

/// A receipt of an adoption tells how many branches were adopted and skipped, which they are with
/// their pull requests, and the worktrees.
pub proof fn law_adopt_receipt_tells_the_counts(
    adopted: usize,
    skipped: usize,
    candidates: Seq<CandidateView>,
    number: Option<u64>,
    created: usize,
    paths: Seq<Seq<char>>,
)
    ensures
        JsonView::Object(receipt_fields(adopted, skipped, candidates, number, created, paths)) matches JsonView::Object(m) && {
            &&& m["adopted"@] == JsonView::Number(adopted as u64)
            &&& m["skipped"@] == JsonView::Number(skipped as u64)
            &&& m["branches"@] matches JsonView::List(l) && l.len() == candidates.len() && forall|i: int|
                0 <= i < l.len() ==> #[trigger] l[i] == JsonView::Text(candidates[i].branch)
            &&& m["worktrees_created"@] == JsonView::Number(created as u64)
            &&& m["worktree_paths"@] == text_list(paths)
        },
{
    reveal_strlit("cmd");
    reveal_strlit("adopted");
    reveal_strlit("skipped");
    reveal_strlit("branches");
    reveal_strlit("native_stack_number");
    reveal_strlit("pr_numbers");
    reveal_strlit("worktrees_created");
    reveal_strlit("worktree_paths");
    assert("cmd"@.len() == 3);
    assert("adopted"@.len() == 7);
    assert("skipped"@.len() == 7);
    assert("branches"@.len() == 8);
    assert("native_stack_number"@.len() == 19);
    assert("pr_numbers"@.len() == 10);
    assert("worktrees_created"@.len() == 17);
    assert("worktree_paths"@.len() == 14);
    assert("adopted"@[0] == 'a');
    assert("skipped"@[0] == 's');
}

} // verus!
