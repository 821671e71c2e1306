//! Reporting a rebase that stopped on a conflict.

use crate::git::{ConflictView, RebaseConflict};
use crate::json::{no_fields, text_list, Json, JsonObject, JsonView};
use crate::text::{lines, lines_of, views};
use vstd::prelude::*;
use vstd::string::*;

verus! {

/// The receipt for a conflict.
pub open spec fn conflict_receipt(
    cmd: Seq<char>,
    branch: Seq<char>,
    parent: Seq<char>,
    conflict: ConflictView,
    next_command: Seq<char>,
) -> JsonView {
    JsonView::Object(
        no_fields().insert("cmd"@, JsonView::Text(cmd)).insert(
            "action"@,
            JsonView::Text("conflict"@),
        ).insert("branch"@, JsonView::Text(branch)).insert("parent"@, JsonView::Text(parent)).insert(
            "conflicting_files"@,
            text_list(conflict.conflicting_files),
        ).insert("git_stderr"@, JsonView::Text(conflict.stderr)).insert(
            "next_command"@,
            JsonView::Text(next_command),
        ),
    )
}

/// The receipt for a conflict.
pub fn receipt_value(
    cmd: &str,
    branch: &str,
    parent: &str,
    conflict: &RebaseConflict,
    next_command: &str,
) -> (r: Json)
    ensures
        r@ == conflict_receipt(cmd@, branch@, parent@, conflict@, next_command@),
{
    JsonObject::new().field("cmd", Json::text(cmd)).field("action", Json::text("conflict")).field(
        "branch",
        Json::text(branch),
    ).field("parent", Json::text(parent)).field(
        "conflicting_files",
        Json::texts(&conflict.conflicting_files),
    ).field("git_stderr", Json::text(&conflict.stderr)).field(
        "next_command",
        Json::text(next_command),
    ).done()
}

/// What a conflict report shows: the warning, the files, what git said, and what to do.
#[derive(Debug)]
pub struct ConflictReport {
    pub warning: String,
    pub files: Vec<String>,
    pub git_lines: Vec<String>,
    pub hints: Vec<String>,
    pub receipt: Json,
}

/// The report for a conflict.
pub fn report(
    cmd: &str,
    branch: &str,
    parent: &str,
    conflict: &RebaseConflict,
    next_command: &str,
) -> (r: ConflictReport)
    ensures
        r.warning@ == "Rebase conflict while updating `"@ + branch@ + "` onto `"@ + parent@ + "`"@,
        r.files@ == conflict.conflicting_files@,
        views(r.git_lines@) == lines_of(conflict.stderr@),
        views(r.hints@) == seq![
            "Review the files above and decide the intended merged result on this branch"@,
            "After updating the branch, run `"@ + next_command@ + "`"@,
        ],
        r.receipt@ == conflict_receipt(cmd@, branch@, parent@, conflict@, next_command@),
{
    let mut hints: Vec<String> = Vec::new();
    hints.push(
        String::from_str(
            "Review the files above and decide the intended merged result on this branch",
        ),
    );
    hints.push(
        String::from_str("After updating the branch, run `").concat(next_command).concat("`"),
    );
    assert(views(hints@) =~= seq![
        "Review the files above and decide the intended merged result on this branch"@,
        "After updating the branch, run `"@ + next_command@ + "`"@,
    ]);
    ConflictReport {
        warning: String::from_str("Rebase conflict while updating `").concat(branch).concat(
            "` onto `",
        ).concat(parent).concat("`"),
        files: crate::text::copy_all(&conflict.conflicting_files),
        git_lines: lines(&conflict.stderr),
        hints,
        receipt: receipt_value(cmd, branch, parent, conflict, next_command),
    }
}

} // verus!
