//! The address of a pull request.

use crate::cmd::pr_view::{current_pull, pull_of};
use crate::error::{ErrorView, EzError};
use crate::github::PrInfo;
use crate::stack::{StackState, StackView};
use crate::text::{decimal, number};
use vstd::prelude::*;
use vstd::string::*;

verus! {

/// The address of a pull request.
pub open spec fn pr_address(repo: Seq<char>, pr_number: u64) -> Seq<char> {
    "https://github.com/"@ + repo + "/pull/"@ + decimal(pr_number as nat)
}

/// The address of a pull request.
pub fn pr_url(repo: &str, pr_number: u64) -> (r: String)
    ensures
        r@ == pr_address(repo@, pr_number),
{
    let digits: String = number(pr_number);
    String::from_str("https://github.com/").concat(repo).concat("/pull/").concat(&digits)
}

/// Where the address of a pull request comes from.
#[derive(Debug)]
pub enum Link {
    /// It is known.
    Url(String),
    /// GitHub has to be asked about the pull request.
    Ask(u64),
}

/// The contents of a `Link`.
#[verifier::ext_equal]
pub enum LinkView {
    Url(Seq<char>),
    Ask(u64),
}

impl View for Link {
    type V = LinkView;

    open spec fn view(&self) -> LinkView {
        match *self {
            Link::Url(u) => LinkView::Url(u@),
            Link::Ask(n) => LinkView::Ask(n),
        }
    }
}

/// The address of the pull request of `current`: in the configured repository, else in the
/// discovered one, else what GitHub reports.
pub open spec fn link_of(s: StackView, current: Seq<char>, discovered: Option<Seq<char>>) -> Result<
    LinkView,
    ErrorView,
> {
    match pull_of(s, current) {
        Err(e) => Err(e),
        Ok(n) => Ok(
            match (s.repo, discovered) {
                (Some(repo), _) => LinkView::Url(pr_address(repo, n)),
                (None, Some(repo)) => LinkView::Url(pr_address(repo, n)),
                (None, None) => LinkView::Ask(n),
            },
        ),
    }
}

/// The address of the pull request of `current`. The discovered repository counts only where
/// none is configured.
pub fn run(state: &StackState, current: &str, discovered: Option<&str>) -> (r: Result<
    Link,
    EzError,
>)
    ensures
        match link_of(
            state@,
            current@,
            match discovered {
                Some(d) => Some(d@),
                None => None,
            },
        ) {
            Ok(l) => r matches Ok(m) && m@ == l,
            Err(e) => r matches Err(f) && f@ == e,
        },
{
    let n: u64 = match current_pull(state, current) {
        Ok(n) => n,
        Err(e) => return Err(e),
    };
    match (&state.repo, discovered) {
        (Some(repo), _) => Ok(Link::Url(pr_url(repo, n))),
        (None, Some(repo)) => Ok(Link::Url(pr_url(repo, n))),
        (None, None) => Ok(Link::Ask(n)),
    }
}

/// The address of a pull request that GitHub was asked about.
pub fn reported_url(pr_number: u64, reported: Option<PrInfo>) -> (r: Result<String, EzError>)
    ensures
        match reported {
            Some(pr) => r matches Ok(u) && u@ == pr.url@,
            None => r matches Err(e) && e@ == ErrorView::UserMessage(
                "Could not find PR #"@ + decimal(pr_number as nat),
            ),
        },
{
    match reported {
        Some(pr) => Ok(pr.url),
        None => {
            let digits: String = number(pr_number);
            Err(EzError::UserMessage(String::from_str("Could not find PR #").concat(&digits)))
        },
    }
}

/// A link is made of the recorded repository before a discovered one; without either it is asked
/// for by the recorded number.
pub proof fn law_link_goes_to_the_recorded_pull(
    s: StackView,
    current: Seq<char>,
    discovered: Option<Seq<char>>,
    n: u64,
)
    requires
        s.branches.contains_key(current),
        s.branches[current].pr_number == Some(n),
    ensures
        s.repo matches Some(repo) ==> link_of(s, current, discovered) == Ok::<LinkView, ErrorView>(
            LinkView::Url("https://github.com/"@ + repo + "/pull/"@ + decimal(n as nat)),
        ),
        s.repo is None ==> (discovered matches Some(repo) ==> link_of(s, current, discovered)
            == Ok::<LinkView, ErrorView>(
            LinkView::Url("https://github.com/"@ + repo + "/pull/"@ + decimal(n as nat)),
        )),
        s.repo is None && discovered is None ==> link_of(s, current, discovered) == Ok::<
            LinkView,
            ErrorView,
        >(LinkView::Ask(n)),
{
}

} // verus!
