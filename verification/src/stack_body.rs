//! The part of a pull request's body that shows the stack below it.

use crate::text::{number, decimal, opt_view};
use vstd::prelude::*;
use vstd::string::*;

verus! {

/// A branch below a pull request, with its own pull request where it has one.
#[derive(Debug)]
pub struct AncestorPr {
    pub branch: String,
    pub pr_number: Option<u64>,
    pub pr_url: Option<String>,
}

/// The contents of an `AncestorPr`.
#[verifier::ext_equal]
pub struct AncestorView {
    pub branch: Seq<char>,
    pub pr_number: Option<u64>,
    pub pr_url: Option<Seq<char>>,
}

impl View for AncestorPr {
    type V = AncestorView;

    open spec fn view(&self) -> AncestorView {
        AncestorView {
            branch: self.branch@,
            pr_number: self.pr_number,
            pr_url: opt_view(self.pr_url),
        }
    }
}

/// The contents of a list of ancestors.
pub open spec fn ancestor_views(s: Seq<AncestorPr>) -> Seq<AncestorView> {
    s.map_values(|a: AncestorPr| a@)
}

/// The line for one ancestor: its pull request, as a link where the address is known.
pub open spec fn ancestor_line(a: AncestorView) -> Seq<char> {
    match (a.pr_number, a.pr_url) {
        (Some(n), Some(u)) => "\n- [#"@ + decimal(n as nat) + "]("@ + u + ") `"@ + a.branch + "`"@,
        (Some(n), None) => "\n- #"@ + decimal(n as nat) + " `"@ + a.branch + "`"@,
        (None, _) => "\n- `"@ + a.branch + "`"@,
    }
}

/// The lines of the ancestors in order.
pub open spec fn ancestor_lines(s: Seq<AncestorView>) -> Seq<char>
    decreases s.len(),
{
    if s.len() == 0 {
        Seq::empty()
    } else {
        ancestor_lines(s.drop_last()) + ancestor_line(s.last())
    }
}

/// A body with the stack below the pull request, from the trunk up. Without ancestors it is the
/// body alone.
pub open spec fn stack_body(ancestors: Seq<AncestorView>, body: Seq<char>) -> Seq<char> {
    if ancestors.len() == 0 {
        body
    } else {
        body + "\n\n---\n**Stack:**\n"@ + ancestor_lines(ancestors)
    }
}

/// A body with the stack below the pull request.
pub fn build_stack_body(ancestors: &Vec<AncestorPr>, body: &str) -> (r: String)
    ensures
        r@ == stack_body(ancestor_views(ancestors@), body@),
{
    let ghost all = ancestor_views(ancestors@);
    if ancestors.len() == 0 {
        return body.to_owned();
    }
    let mut lines: String = String::new();
    let mut i: usize = 0;
    while i < ancestors.len()
        invariant
            i <= ancestors.len(),
            all == ancestor_views(ancestors@),
            lines@ == ancestor_lines(all.take(i as int)),
        decreases ancestors.len() - i,
    {
        let a: &AncestorPr = &ancestors[i];
        assert(all.take(i + 1).drop_last() =~= all.take(i as int));
        assert(all.take(i + 1).last() == a@);
        let line: String = match (&a.pr_number, &a.pr_url) {
            (Some(n), Some(u)) => {
                let digits: String = number(*n);
                String::from_str("\n- [#").concat(&digits).concat("](").concat(u).concat(
                    ") `",
                ).concat(&a.branch).concat("`")
            },
            (Some(n), None) => {
                let digits: String = number(*n);
                String::from_str("\n- #").concat(&digits).concat(" `").concat(&a.branch).concat("`")
            },
            (None, _) => String::from_str("\n- `").concat(&a.branch).concat("`"),
        };
        lines.append(&line);
        i += 1;
    }
    assert(all.take(ancestors.len() as int) =~= all);
    body.to_owned().concat("\n\n---\n**Stack:**\n").concat(&lines)
}

/// A pull request without ancestors has just its body; otherwise the body comes first, and behind
/// it one line for each ancestor, in their order.
pub proof fn law_body_comes_before_the_stack(
    below: Seq<AncestorView>,
    above: Seq<AncestorView>,
    body: Seq<char>,
)
    ensures
        stack_body(Seq::<AncestorView>::empty(), body) == body,
        stack_body(below, body).take(body.len() as int) == body,
        stack_body(below, body).len() >= body.len(),
        ancestor_lines(below + above) == ancestor_lines(below) + ancestor_lines(above),
        below.len() > 0 ==> stack_body(below, body) == body + "\n\n---\n**Stack:**\n"@
            + ancestor_lines(below),
    decreases above.len(),
{
    assert(stack_body(below, body).take(body.len() as int) =~= body);
    if above.len() == 0 {
        assert(below + above =~= below);
        assert(ancestor_lines(below) + ancestor_lines(above) =~= ancestor_lines(below));
    } else {
        law_body_comes_before_the_stack(below, above.drop_last(), body);
        assert((below + above).drop_last() =~= below + above.drop_last());
        assert(ancestor_lines(below + above) =~= ancestor_lines(below) + ancestor_lines(above));
    }
}

/// The line of an ancestor names its branch, with its pull request where it has one, as a link
/// where the address is known.
pub proof fn law_ancestor_line_names_the_branch(a: AncestorView)
    ensures
        a.pr_number is None ==> ancestor_line(a) == "\n- `"@ + a.branch + "`"@,
        a.pr_number matches Some(n) && a.pr_url is None ==> ancestor_line(a) == "\n- #"@ + decimal(
            a.pr_number->0 as nat,
        ) + " `"@ + a.branch + "`"@,
        a.pr_number is Some && a.pr_url is Some ==> ancestor_line(a) == "\n- [#"@ + decimal(
            a.pr_number->0 as nat,
        ) + "]("@ + a.pr_url->0 + ") `"@ + a.branch + "`"@,
        ancestor_lines(seq![a]) == ancestor_line(a),
{
    assert(seq![a].drop_last() =~= Seq::<AncestorView>::empty());
    assert(ancestor_lines(Seq::empty()) =~= Seq::<char>::empty());
    assert(ancestor_lines(seq![a]) == ancestor_lines(seq![a].drop_last()) + ancestor_line(
        seq![a].last(),
    ));
    assert(ancestor_lines(seq![a]) =~= ancestor_line(a));
}

} // verus!
