//! Which files belong to a branch.

use crate::branch_map::ScopeMode;
use crate::text::{copy_all, holds, views};
use vstd::prelude::*;

verus! {

/// The staged files held against a branch's scope.
#[derive(Debug)]
pub struct ScopeReport {
    pub mode: ScopeMode,
    pub patterns: Vec<String>,
    pub in_scope_files: Vec<String>,
    pub out_of_scope_files: Vec<String>,
}

/// Whether staged files are within a branch's scope.
#[derive(Debug)]
pub enum ScopeDecision {
    /// The branch has no scope.
    NoConfig,
    InBounds(ScopeReport),
    OutOfBounds(ScopeReport),
}

/// The files of `s` that `matched` holds, or with `inside` unset does not hold, in their order.
pub open spec fn sifted(s: Seq<Seq<char>>, matched: Seq<Seq<char>>, inside: bool) -> Seq<Seq<char>>
    decreases s.len(),
{
    if s.len() == 0 {
        Seq::empty()
    } else {
        let low = sifted(s.drop_last(), matched, inside);
        if matched.contains(s.last()) == inside {
            low.push(s.last())
        } else {
            low
        }
    }
}

fn sift(files: &Vec<String>, matched: &Vec<String>, inside: bool) -> (r: Vec<String>)
    ensures
        views(r@) == sifted(views(files@), views(matched@), inside),
{
    let ghost all = views(files@);
    let mut out: Vec<String> = Vec::new();
    let mut i: usize = 0;
    assert(all.take(0) =~= Seq::<Seq<char>>::empty());
    assert(views(out@) =~= Seq::<Seq<char>>::empty());
    while i < files.len()
        invariant
            i <= files.len(),
            all == views(files@),
            views(out@) == sifted(all.take(i as int), views(matched@), inside),
        decreases files.len() - i,
    {
        let ghost held = views(out@);
        assert(all.take(i + 1).drop_last() =~= all.take(i as int));
        assert(all.take(i + 1).last() == files@[i as int]@);
        if holds(matched, &files[i]) == inside {
            out.push(files[i].clone());
            assert(views(out@) =~= held.push(files@[i as int]@));
        }
        i += 1;
    }
    assert(all.take(files.len() as int) =~= all);
    out
}

/// Whether `r` tells the staged files that the scope matched from the others.
pub open spec fn reports(
    r: ScopeReport,
    patterns: Seq<Seq<char>>,
    mode: ScopeMode,
    staged: Seq<Seq<char>>,
    matched: Seq<Seq<char>>,
) -> bool {
    &&& r.mode == mode
    &&& views(r.patterns@) == patterns
    &&& views(r.in_scope_files@) == sifted(staged, matched, true)
    &&& views(r.out_of_scope_files@) == sifted(staged, matched, false)
}

/// Whether the staged files are within a scope: each must be among those that git matched with
/// the scope's patterns. No patterns are no scope.
pub fn evaluate_scope(
    patterns: &Vec<String>,
    mode: ScopeMode,
    staged_files: &Vec<String>,
    matched_files: &Vec<String>,
) -> (r: ScopeDecision)
    ensures
        match r {
            ScopeDecision::NoConfig => patterns.len() == 0,
            ScopeDecision::InBounds(report) => {
                &&& patterns.len() > 0
                &&& reports(
                    report,
                    views(patterns@),
                    mode,
                    views(staged_files@),
                    views(matched_files@),
                )
                &&& report.out_of_scope_files.len() == 0
                &&& forall|f: Seq<char>| #[trigger]
                    views(staged_files@).contains(f) ==> views(matched_files@).contains(f)
            },
            ScopeDecision::OutOfBounds(report) => {
                &&& patterns.len() > 0
                &&& reports(
                    report,
                    views(patterns@),
                    mode,
                    views(staged_files@),
                    views(matched_files@),
                )
                &&& report.out_of_scope_files.len() > 0
                &&& forall|f: Seq<char>| #[trigger]
                    views(report.out_of_scope_files@).contains(f) <==> views(
                        staged_files@,
                    ).contains(f) && !views(matched_files@).contains(f)
            },
        },
{
    if patterns.len() == 0 {
        return ScopeDecision::NoConfig;
    }
    let report = ScopeReport {
        mode,
        patterns: copy_all(patterns),
        in_scope_files: sift(staged_files, matched_files, true),
        out_of_scope_files: sift(staged_files, matched_files, false),
    };
    proof {
        let staged = views(staged_files@);
        let matched = views(matched_files@);
        let outside = sifted(staged, matched, false);
        assert forall|f: Seq<char>| #[trigger] outside.contains(f) <==> staged.contains(f)
            && !matched.contains(f) by {
            law_sifting_tells_files_apart(staged, matched, f);
        }
        assert(outside.len() == report.out_of_scope_files.len());
        assert forall|f: Seq<char>| #[trigger]
            staged.contains(f) && outside.len() == 0 implies matched.contains(f) by {
            assert(!outside.contains(f));
        }
    }
    if report.out_of_scope_files.len() == 0 {
        ScopeDecision::InBounds(report)
    } else {
        ScopeDecision::OutOfBounds(report)
    }
}

/// A file is sifted out exactly where it is among the files and git did not match it, and kept
/// exactly where it is among them and git did.
pub proof fn law_sifting_tells_files_apart(
    files: Seq<Seq<char>>,
    matched: Seq<Seq<char>>,
    f: Seq<char>,
)
    ensures
        sifted(files, matched, false).contains(f) <==> files.contains(f) && !matched.contains(f),
        sifted(files, matched, true).contains(f) <==> files.contains(f) && matched.contains(f),
        sifted(files, matched, true).len() + sifted(files, matched, false).len() == files.len(),
    decreases files.len(),
{
    if files.len() > 0 {
        let low = files.drop_last();
        law_sifting_tells_files_apart(low, matched, f);
        assert(files =~= low.push(files.last()));
        vstd::seq_lib::lemma_seq_contains_after_push(low, files.last(), f);
        vstd::seq_lib::lemma_seq_contains_after_push(
            sifted(low, matched, false),
            files.last(),
            f,
        );
        vstd::seq_lib::lemma_seq_contains_after_push(sifted(low, matched, true), files.last(), f);
    }
}

/// Files are sifted one by one, in their order: those of a list made of two are those of the
/// first and, behind them, those of the second.
pub proof fn law_sifting_keeps_order(
    first: Seq<Seq<char>>,
    second: Seq<Seq<char>>,
    matched: Seq<Seq<char>>,
    inside: bool,
)
    ensures
        sifted(first + second, matched, inside) == sifted(first, matched, inside) + sifted(
            second,
            matched,
            inside,
        ),
    decreases second.len(),
{
    if second.len() == 0 {
        assert(first + second =~= first);
        assert(sifted(first, matched, inside) + sifted(second, matched, inside) =~= sifted(
            first,
            matched,
            inside,
        ));
    } else {
        law_sifting_keeps_order(first, second.drop_last(), matched, inside);
        assert((first + second).drop_last() =~= first + second.drop_last());
        assert(sifted(first + second, matched, inside) =~= sifted(first, matched, inside)
            + sifted(second, matched, inside));
    }
}

/// A report repeats the patterns and the mode it was made for, and puts each staged file exactly
/// once: among those in scope where a pattern matched it, and outside otherwise.
pub proof fn law_report_splits_the_staged_files(
    r: ScopeReport,
    patterns: Seq<Seq<char>>,
    mode: ScopeMode,
    staged: Seq<Seq<char>>,
    matched: Seq<Seq<char>>,
    f: Seq<char>,
)
    requires
        reports(r, patterns, mode, staged, matched),
    ensures
        r.mode == mode,
        views(r.patterns@) == patterns,
        views(r.in_scope_files@).contains(f) <==> staged.contains(f) && matched.contains(f),
        views(r.out_of_scope_files@).contains(f) <==> staged.contains(f) && !matched.contains(f),
        r.in_scope_files@.len() + r.out_of_scope_files@.len() == staged.len(),
{
    law_sifting_tells_files_apart(staged, matched, f);
    assert(views(r.in_scope_files@).len() == r.in_scope_files@.len());
    assert(views(r.out_of_scope_files@).len() == r.out_of_scope_files@.len());
}

} // verus!
