//! Moving a claimed worktree aside before it is removed, and moving it back.

use crate::cmd::delete::{find_registered, registered_at, text_or};
use crate::git::WorktreeInfo;
use crate::text::{decimal, names_in_path, number, opt_view, path_names, same, views};
use vstd::prelude::*;
use vstd::string::*;

verus! {

/// A worktree that is moved: from where, to where, of which branch, under which claim.
#[derive(Debug)]
pub struct Transfer {
    pub original: String,
    pub quarantine: String,
    pub branch: String,
    pub claim: String,
}

/// The answer to what a transfer waits for.
#[derive(Debug)]
pub enum TransferReply {
    Done,
    Failed(String),
    Flag(bool),
    Listed(Vec<WorktreeInfo>),
}

/// The claim under which a process deletes the worktree of a branch.
pub fn delete_claim(process: u64, branch: &str) -> (r: String)
    ensures
        r@ == "ez-delete:"@ + decimal(process as nat) + ":"@ + branch@,
{
    let owner: String = number(process);
    String::from_str("ez-delete:").concat(&owner).concat(":").concat(branch)
}

/// The name of a worktree: the last one of its path, where that names something.
pub open spec fn worktree_name(path: Seq<char>) -> Seq<char> {
    let names = path_names(path);
    if names.len() == 0 || names.last() == ".."@ || names.last() == "."@ {
        "worktree"@
    } else {
        names.last()
    }
}

fn worktree_label(path: &str) -> (r: String)
    ensures
        r@ == worktree_name(path@),
{
    let names: Vec<String> = names_in_path(path);
    let ghost all = views(names@);
    assert(all.len() == names.len());
    if names.len() == 0 {
        return String::from_str("worktree");
    }
    let last: &String = &names[names.len() - 1];
    assert(all.last() == last@);
    if same(last, "..") || same(last, ".") {
        String::from_str("worktree")
    } else {
        last.clone()
    }
}

/// The name under which a worktree is moved aside: `nonce` tells one attempt of a process from
/// another.
pub fn quarantine_name(worktree: &str, process: u64, nonce: &str) -> (r: String)
    ensures
        r@ == ".ez-delete-"@ + decimal(process as nat) + "-"@ + nonce@ + "-"@ + worktree_name(
            worktree@,
        ),
{
    let owner: String = number(process);
    let name: String = worktree_label(worktree);
    String::from_str(".ez-delete-").concat(&owner).concat("-").concat(nonce).concat("-").concat(
        &name,
    )
}

/// What moving a worktree aside waits for.
#[derive(Clone, Copy, Debug, PartialEq, Eq, Structural)]
pub enum QuarantinePhase {
    /// The directory being renamed.
    Rename,
    /// Git being told of the new path.
    Repair,
    /// The directory being renamed back.
    UndoRename,
    /// Git being told of the old path.
    UndoRepair,
    /// The claim being held against git's list.
    Verify,
    /// The worktree being moved back in full.
    Restore,
    Finished,
    Failed,
}

/// A worktree being moved aside.
#[derive(Debug)]
pub struct Quarantine {
    pub transfer: Transfer,
    pub phase: QuarantinePhase,
    /// What went wrong, while it is being undone; at the end, what is reported.
    pub text: String,
}

/// The phase and the text after a reply. A reply that is not waited for changes nothing.
pub open spec fn quarantine_step(
    t: Transfer,
    phase: QuarantinePhase,
    text: Seq<char>,
    reply: TransferReply,
) -> (QuarantinePhase, Seq<char>) {
    match (phase, reply) {
        (QuarantinePhase::Rename, TransferReply::Done) => (QuarantinePhase::Repair, text),
        (QuarantinePhase::Rename, TransferReply::Failed(e)) => (
            QuarantinePhase::Failed,
            "Could not quarantine `"@ + t.branch@ + "` worktree from `"@ + t.original@ + "` to `"@
                + t.quarantine@ + "`: "@ + e@,
        ),
        (QuarantinePhase::Repair, TransferReply::Done) => (QuarantinePhase::Verify, text),
        (QuarantinePhase::Repair, TransferReply::Failed(e)) => (
            QuarantinePhase::UndoRename,
            "Could not repair quarantined `"@ + t.branch@ + "` worktree at `"@ + t.quarantine@
                + "`: "@ + e@,
        ),
        (QuarantinePhase::UndoRename, TransferReply::Done) => (QuarantinePhase::UndoRepair, text),
        (QuarantinePhase::UndoRename, TransferReply::Failed(_)) => (
            QuarantinePhase::UndoRepair,
            text,
        ),
        (QuarantinePhase::UndoRepair, TransferReply::Done) => (QuarantinePhase::Failed, text),
        (QuarantinePhase::UndoRepair, TransferReply::Failed(_)) => (QuarantinePhase::Failed, text),
        (QuarantinePhase::Verify, TransferReply::Done) => (QuarantinePhase::Finished, text),
        (QuarantinePhase::Verify, TransferReply::Failed(e)) => (QuarantinePhase::Restore, e@),
        (QuarantinePhase::Restore, TransferReply::Done) => (QuarantinePhase::Failed, text),
        (QuarantinePhase::Restore, TransferReply::Failed(r)) => (
            QuarantinePhase::Failed,
            text + "\nWorktree-path rollback also failed: "@ + r@,
        ),
        _ => (phase, text),
    }
}

impl Quarantine {
    /// Starts to move a worktree aside.
    pub fn begin(transfer: Transfer) -> (r: Quarantine)
        ensures
            r.transfer == transfer,
            r.phase == QuarantinePhase::Rename,
            r.text@ == Seq::<char>::empty(),
    {
        Quarantine { transfer, phase: QuarantinePhase::Rename, text: String::new() }
    }

    /// The transfer after a reply to what it waits for.
    pub fn step(self, reply: TransferReply) -> (r: Quarantine)
        ensures
            r.transfer == self.transfer,
            (r.phase, r.text@) == quarantine_step(self.transfer, self.phase, self.text@, reply),
    {
        let t = self.transfer;
        let text = self.text;
        match (self.phase, reply) {
            (QuarantinePhase::Rename, TransferReply::Done) => Quarantine {
                transfer: t,
                phase: QuarantinePhase::Repair,
                text,
            },
            (QuarantinePhase::Rename, TransferReply::Failed(e)) => {
                let text: String = String::from_str("Could not quarantine `").concat(
                    &t.branch,
                ).concat("` worktree from `").concat(&t.original).concat("` to `").concat(
                    &t.quarantine,
                ).concat("`: ").concat(&e);
                Quarantine { transfer: t, phase: QuarantinePhase::Failed, text }
            },
            (QuarantinePhase::Repair, TransferReply::Done) => Quarantine {
                transfer: t,
                phase: QuarantinePhase::Verify,
                text,
            },
            (QuarantinePhase::Repair, TransferReply::Failed(e)) => {
                let text: String = String::from_str("Could not repair quarantined `").concat(
                    &t.branch,
                ).concat("` worktree at `").concat(&t.quarantine).concat("`: ").concat(&e);
                Quarantine { transfer: t, phase: QuarantinePhase::UndoRename, text }
            },
            (QuarantinePhase::UndoRename, TransferReply::Done) => Quarantine {
                transfer: t,
                phase: QuarantinePhase::UndoRepair,
                text,
            },
            (QuarantinePhase::UndoRename, TransferReply::Failed(_)) => Quarantine {
                transfer: t,
                phase: QuarantinePhase::UndoRepair,
                text,
            },
            (QuarantinePhase::UndoRepair, TransferReply::Done) => Quarantine {
                transfer: t,
                phase: QuarantinePhase::Failed,
                text,
            },
            (QuarantinePhase::UndoRepair, TransferReply::Failed(_)) => Quarantine {
                transfer: t,
                phase: QuarantinePhase::Failed,
                text,
            },
            (QuarantinePhase::Verify, TransferReply::Done) => Quarantine {
                transfer: t,
                phase: QuarantinePhase::Finished,
                text,
            },
            (QuarantinePhase::Verify, TransferReply::Failed(e)) => Quarantine {
                transfer: t,
                phase: QuarantinePhase::Restore,
                text: e,
            },
            (QuarantinePhase::Restore, TransferReply::Done) => Quarantine {
                transfer: t,
                phase: QuarantinePhase::Failed,
                text,
            },
            (QuarantinePhase::Restore, TransferReply::Failed(r)) => {
                let text: String = text.concat("\nWorktree-path rollback also failed: ").concat(&r);
                Quarantine { transfer: t, phase: QuarantinePhase::Failed, text }
            },
            (phase, _) => Quarantine { transfer: t, phase, text },
        }
    }
}

/// What moving a worktree back waits for.
#[derive(Clone, Copy, Debug, PartialEq, Eq, Structural)]
pub enum RestorePhase {
    /// Whether the moved directory is still there.
    LookAside,
    /// Whether its old place is taken.
    LookBack,
    /// The list of worktrees.
    List,
    /// The worktree being locked by the claim again.
    Lock,
    /// The claim being held against git's list.
    VerifyAside,
    /// The directory being renamed.
    Rename,
    /// Git being told of the old path.
    Repair,
    /// The claim being held against git's list, at the old path.
    VerifyBack,
    /// The worktree being unlocked.
    Unlock,
    Finished,
    Failed,
}

/// A worktree being moved back.
#[derive(Debug)]
pub struct Restore {
    pub transfer: Transfer,
    pub phase: RestorePhase,
    /// What went wrong.
    pub text: String,
}

/// What the list of worktrees says of the moved one: whether it has to be locked again, or what
/// is wrong with it.
pub open spec fn listed_ok(t: Transfer, s: Seq<WorktreeInfo>, r: Result<bool, Seq<char>>) -> bool {
    ||| exists|i: int| #[trigger]
        registered_at(s, t.quarantine@, i) && r == if opt_view(s[i].branch) != Some(t.branch@) {
            Err(
                "quarantined worktree ownership changed: expected `"@ + t.branch@ + "`, found `"@
                    + text_or(s[i].branch, "<detached HEAD>"@) + "`"@,
            )
        } else {
            Ok(opt_view(s[i].locked_reason) != Some(t.claim@))
        }
    ||| (r == Err::<bool, Seq<char>>(
        "quarantined worktree `"@ + t.quarantine@ + "` is no longer registered"@,
    ) && forall|j: int| 0 <= j < s.len() ==> (#[trigger] s[j]).path@ != t.quarantine@)
}

fn check_listed(t: &Transfer, worktrees: &Vec<WorktreeInfo>) -> (r: Result<bool, String>)
    ensures
        listed_ok(
            *t,
            worktrees@,
            match r {
                Ok(b) => Ok(b),
                Err(e) => Err(e@),
            },
        ),
{
    match find_registered(worktrees, &t.quarantine) {
        None => Err(
            String::from_str("quarantined worktree `").concat(&t.quarantine).concat(
                "` is no longer registered",
            ),
        ),
        Some(i) => {
            let w: &WorktreeInfo = &worktrees[i];
            assert(registered_at(worktrees@, t.quarantine@, i as int));
            let kept: bool = match &w.branch {
                Some(b) => same(b, &t.branch),
                None => false,
            };
            if !kept {
                let actual: &str = match &w.branch {
                    Some(b) => b,
                    None => "<detached HEAD>",
                };
                return Err(
                    String::from_str(
                        "quarantined worktree ownership changed: expected `",
                    ).concat(&t.branch).concat("`, found `").concat(actual).concat("`"),
                );
            }
            let locked: bool = match &w.locked_reason {
                Some(l) => same(l, &t.claim),
                None => false,
            };
            Ok(!locked)
        },
    }
}

/// Whether the phase and the text after a reply are `r`. Each step must succeed for the next: a
/// directory that someone else has put at either path is never touched.
pub open spec fn restore_steps(
    t: Transfer,
    phase: RestorePhase,
    text: Seq<char>,
    reply: TransferReply,
    r: (RestorePhase, Seq<char>),
) -> bool {
    match (phase, reply) {
        (RestorePhase::LookAside, TransferReply::Flag(there)) => r == if there {
            (RestorePhase::LookBack, text)
        } else {
            (
                RestorePhase::Failed,
                "quarantined worktree path `"@ + t.quarantine@ + "` no longer exists"@,
            )
        },
        (RestorePhase::LookBack, TransferReply::Flag(taken)) => r == if taken {
            (
                RestorePhase::Failed,
                "original worktree path `"@ + t.original@ + "` is now occupied"@,
            )
        } else {
            (RestorePhase::List, text)
        },
        (RestorePhase::List, TransferReply::Listed(v)) => exists|ok: Result<bool, Seq<char>>|
            #[trigger] listed_ok(t, v@, ok) && r == match ok {
                Ok(true) => (RestorePhase::Lock, text),
                Ok(false) => (RestorePhase::VerifyAside, text),
                Err(e) => (RestorePhase::Failed, e),
            },
        (RestorePhase::Lock, TransferReply::Done) => r == (RestorePhase::VerifyAside, text),
        (RestorePhase::VerifyAside, TransferReply::Done) => r == (RestorePhase::Rename, text),
        (RestorePhase::Rename, TransferReply::Done) => r == (RestorePhase::Repair, text),
        (RestorePhase::Rename, TransferReply::Failed(e)) => r == (
            RestorePhase::Failed,
            "Could not restore worktree path `"@ + t.original@ + "`: "@ + e@,
        ),
        (RestorePhase::Repair, TransferReply::Done) => r == (RestorePhase::VerifyBack, text),
        (RestorePhase::VerifyBack, TransferReply::Done) => r == (RestorePhase::Unlock, text),
        (RestorePhase::Unlock, TransferReply::Done) => r == (RestorePhase::Finished, text),
        (RestorePhase::List, TransferReply::Failed(e))
        | (RestorePhase::Lock, TransferReply::Failed(e))
        | (RestorePhase::VerifyAside, TransferReply::Failed(e))
        | (RestorePhase::Repair, TransferReply::Failed(e))
        | (RestorePhase::VerifyBack, TransferReply::Failed(e))
        | (RestorePhase::Unlock, TransferReply::Failed(e)) => r == (RestorePhase::Failed, e@),
        _ => r == (phase, text),
    }
}

impl Restore {
    /// Starts to move a worktree back.
    pub fn begin(transfer: Transfer) -> (r: Restore)
        ensures
            r.transfer == transfer,
            r.phase == RestorePhase::LookAside,
            r.text@ == Seq::<char>::empty(),
    {
        Restore { transfer, phase: RestorePhase::LookAside, text: String::new() }
    }

    fn fail(transfer: Transfer, text: String) -> (r: Restore)
        ensures
            r.transfer == transfer,
            r.phase == RestorePhase::Failed,
            r.text@ == text@,
    {
        Restore { transfer, phase: RestorePhase::Failed, text }
    }

    /// The transfer after a reply to what it waits for.
    pub fn step(self, reply: TransferReply) -> (r: Restore)
        ensures
            r.transfer == self.transfer,
            restore_steps(
                self.transfer,
                self.phase,
                self.text@,
                reply,
                (r.phase, r.text@),
            ),
    {
        let t = self.transfer;
        let text = self.text;
        match (self.phase, reply) {
            (RestorePhase::LookAside, TransferReply::Flag(there)) => {
                if there {
                    Restore { transfer: t, phase: RestorePhase::LookBack, text }
                } else {
                    let text: String = String::from_str("quarantined worktree path `").concat(
                        &t.quarantine,
                    ).concat("` no longer exists");
                    Restore::fail(t, text)
                }
            },
            (RestorePhase::LookBack, TransferReply::Flag(taken)) => {
                if taken {
                    let text: String = String::from_str("original worktree path `").concat(
                        &t.original,
                    ).concat("` is now occupied");
                    Restore::fail(t, text)
                } else {
                    Restore { transfer: t, phase: RestorePhase::List, text }
                }
            },
            (RestorePhase::List, TransferReply::Listed(v)) => {
                match check_listed(&t, &v) {
                    Ok(relock) => {
                        assert(listed_ok(t, v@, Ok(relock)));
                        let phase: RestorePhase = if relock {
                            RestorePhase::Lock
                        } else {
                            RestorePhase::VerifyAside
                        };
                        Restore { transfer: t, phase, text }
                    },
                    Err(e) => {
                        assert(listed_ok(t, v@, Err(e@)));
                        Restore::fail(t, e)
                    },
                }
            },
            (RestorePhase::Lock, TransferReply::Done) => Restore {
                transfer: t,
                phase: RestorePhase::VerifyAside,
                text,
            },
            (RestorePhase::VerifyAside, TransferReply::Done) => Restore {
                transfer: t,
                phase: RestorePhase::Rename,
                text,
            },
            (RestorePhase::Rename, TransferReply::Done) => Restore {
                transfer: t,
                phase: RestorePhase::Repair,
                text,
            },
            (RestorePhase::Rename, TransferReply::Failed(e)) => {
                let text: String = String::from_str("Could not restore worktree path `").concat(
                    &t.original,
                ).concat("`: ").concat(&e);
                Restore::fail(t, text)
            },
            (RestorePhase::Repair, TransferReply::Done) => Restore {
                transfer: t,
                phase: RestorePhase::VerifyBack,
                text,
            },
            (RestorePhase::VerifyBack, TransferReply::Done) => Restore {
                transfer: t,
                phase: RestorePhase::Unlock,
                text,
            },
            (RestorePhase::Unlock, TransferReply::Done) => Restore {
                transfer: t,
                phase: RestorePhase::Finished,
                text,
            },
            (RestorePhase::List, TransferReply::Failed(e)) => Restore::fail(t, e),
            (RestorePhase::Lock, TransferReply::Failed(e)) => Restore::fail(t, e),
            (RestorePhase::VerifyAside, TransferReply::Failed(e)) => Restore::fail(t, e),
            (RestorePhase::Repair, TransferReply::Failed(e)) => Restore::fail(t, e),
            (RestorePhase::VerifyBack, TransferReply::Failed(e)) => Restore::fail(t, e),
            (RestorePhase::Unlock, TransferReply::Failed(e)) => Restore::fail(t, e),
            (phase, _) => Restore { transfer: t, phase, text },
        }
    }
}

/// A directory is renamed back only after its old place was found free and the worktree was
/// found to be the claimed one.
pub proof fn law_restore_renames_after_checks(
    t: Transfer,
    phase: RestorePhase,
    text: Seq<char>,
    reply: TransferReply,
    r: (RestorePhase, Seq<char>),
)
    requires
        restore_steps(t, phase, text, reply, r),
        r.0 != phase,
    ensures
        r.0 is Rename ==> phase is VerifyAside && reply is Done,
        r.0 is VerifyAside ==> phase is List || phase is Lock,
        r.0 is List ==> phase is LookBack && reply == TransferReply::Flag(false),
        r.0 is LookBack ==> phase is LookAside && reply == TransferReply::Flag(true),
{
}

/// A worktree is set aside by a rename, a repair and a check, in this order; what fails after the
/// rename is taken back.
pub proof fn law_quarantine_goes_step_by_step(t: Transfer, text: Seq<char>, e: String)
    ensures
        quarantine_step(t, QuarantinePhase::Rename, text, TransferReply::Done).0 is Repair,
        quarantine_step(t, QuarantinePhase::Repair, text, TransferReply::Done).0 is Verify,
        quarantine_step(t, QuarantinePhase::Verify, text, TransferReply::Done).0 is Finished,
        quarantine_step(t, QuarantinePhase::Rename, text, TransferReply::Failed(e)).0 is Failed,
        quarantine_step(t, QuarantinePhase::Repair, text, TransferReply::Failed(e)).0 is UndoRename,
        quarantine_step(t, QuarantinePhase::UndoRename, text, TransferReply::Done).0 is UndoRepair,
        quarantine_step(t, QuarantinePhase::UndoRepair, text, TransferReply::Done)
            == (QuarantinePhase::Failed, text),
        quarantine_step(t, QuarantinePhase::Verify, text, TransferReply::Failed(e))
            == (QuarantinePhase::Restore, e@),
        quarantine_step(t, QuarantinePhase::Restore, text, TransferReply::Done)
            == (QuarantinePhase::Failed, text),
{
}

/// What was set aside is brought back only while git still lists it there for the same branch; it
/// is locked first exactly where it does not carry the claim.
pub proof fn law_restore_needs_the_same_owner(
    t: Transfer,
    s: Seq<WorktreeInfo>,
    r: Result<bool, Seq<char>>,
)
    requires
        listed_ok(t, s, r),
    ensures
        r is Ok ==> exists|i: int|
            0 <= i < s.len() && (#[trigger] s[i]).path@ == t.quarantine@ && opt_view(s[i].branch)
                == Some(t.branch@) && (r == Ok::<bool, Seq<char>>(true) <==> opt_view(
                s[i].locked_reason,
            ) != Some(t.claim@)),
        (forall|i: int| 0 <= i < s.len() ==> (#[trigger] s[i]).path@ != t.quarantine@) ==> r is Err,
        (forall|i: int| 0 <= i < s.len() ==> opt_view((#[trigger] s[i]).branch) != Some(t.branch@))
            ==> r is Err,
{
    if exists|i: int| #[trigger] registered_at(s, t.quarantine@, i) {
        let i = choose|i: int| #[trigger]
            registered_at(s, t.quarantine@, i) && r == if opt_view(s[i].branch) != Some(t.branch@) {
                Err(
                    "quarantined worktree ownership changed: expected `"@ + t.branch@
                        + "`, found `"@ + text_or(s[i].branch, "<detached HEAD>"@) + "`"@,
                )
            } else {
                Ok(opt_view(s[i].locked_reason) != Some(t.claim@))
            };
        if r is Ok {
            assert(registered_at(s, t.quarantine@, i));
            assert(s[i].path@ == t.quarantine@);
        }
    }
}

/// A worktree set aside keeps the last name of its path, where that is a name.
pub proof fn law_quarantine_keeps_the_name(dir: Seq<char>, name: Seq<char>)
    requires
        !name.contains('/'),
        dir.len() > 0,
        name.len() > 0,
        name != "."@,
    ensures
        name != ".."@ ==> worktree_name(dir + seq!['/'] + name) == name,
        name == ".."@ ==> worktree_name(dir + seq!['/'] + name) == "worktree"@,
{
    crate::text::law_path_goes_on_with_its_last_name(dir, name);
}

/// What was set aside is brought back by a check, a rename, a repair, another check and an unlock,
/// in this order.
pub proof fn law_restore_goes_step_by_step(
    t: Transfer,
    phase: RestorePhase,
    text: Seq<char>,
    r: (RestorePhase, Seq<char>),
)
    requires
        restore_steps(t, phase, text, TransferReply::Done, r),
    ensures
        phase is Lock ==> r.0 is VerifyAside,
        phase is VerifyAside ==> r.0 is Rename,
        phase is Rename ==> r.0 is Repair,
        phase is Repair ==> r.0 is VerifyBack,
        phase is VerifyBack ==> r.0 is Unlock,
        phase is Unlock ==> r.0 is Finished,
{
}

} // verus!
