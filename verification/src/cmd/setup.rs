//! Setting up the user's shell.

use crate::error::{ErrorView, EzError};
use crate::text::{
    begins, contains, holds, join_path, lemma_occurs_around, lemma_occurs_between, occurs,
    path_joined, pieces, replace, replaced, same, split, views,
};
use vstd::prelude::*;
use vstd::string::*;

verus! {

/// Whether setup was run: its mark stands in the user's directory.
pub fn is_setup_done(home_known: bool, mark_found: bool) -> (r: bool)
    ensures
        r == (home_known && mark_found),
{
    home_known && mark_found
}

/// The directory of the user's own settings.
pub fn ez_home(home: &str) -> (r: String)
    ensures
        r@ == path_joined(home@, ".ez"@),
{
    join_path(home, ".ez")
}

/// The name of a shell that can be set up, from its path.
pub open spec fn shell_name(shell: Seq<char>) -> Option<Seq<char>> {
    let name = pieces(shell, '/').last();
    if name == "bash"@ || name == "zsh"@ || name == "fish"@ {
        Some(name)
    } else {
        None
    }
}

/// The name of a shell that can be set up, from its path.
pub fn detect_shell_name(shell: &str) -> (r: Option<String>)
    ensures
        match r {
            Some(n) => shell_name(shell@) == Some(n@),
            None => shell_name(shell@) is None,
        },
{
    let parts: Vec<String> = split(shell, '/');
    assert(views(parts@).len() == parts.len());
    assert(pieces(shell@, '/').len() > 0);
    let name: &String = &parts[parts.len() - 1];
    assert(views(parts@).last() == name@);
    if same(name, "bash") || same(name, "zsh") || same(name, "fish") {
        Some(name.clone())
    } else {
        None
    }
}

/// The file that a shell reads when it starts.
pub open spec fn rc_file(shell: Seq<char>, home: Seq<char>, bashrc_exists: bool) -> Option<
    Seq<char>,
> {
    if shell == "zsh"@ {
        Some(path_joined(home, ".zshrc"@))
    } else if shell == "bash"@ {
        Some(
            path_joined(
                home,
                if bashrc_exists {
                    ".bashrc"@
                } else {
                    ".bash_profile"@
                },
            ),
        )
    } else if shell == "fish"@ {
        Some(path_joined(home, ".config/fish/config.fish"@))
    } else {
        None
    }
}

/// The file that a shell reads when it starts.
pub fn rc_file_for_home(shell: &str, home: &str, bashrc_exists: bool) -> (r: Option<String>)
    ensures
        match r {
            Some(p) => rc_file(shell@, home@, bashrc_exists) == Some(p@),
            None => rc_file(shell@, home@, bashrc_exists) is None,
        },
{
    if same(shell, "zsh") {
        Some(join_path(home, ".zshrc"))
    } else if same(shell, "bash") {
        if bashrc_exists {
            Some(join_path(home, ".bashrc"))
        } else {
            Some(join_path(home, ".bash_profile"))
        }
    } else if same(shell, "fish") {
        Some(join_path(home, ".config/fish/config.fish"))
    } else {
        None
    }
}

/// The line that starts the shell integration.
pub open spec fn init_line(shell: Seq<char>) -> Seq<char> {
    if shell == "fish"@ {
        "ez shell-init | source"@
    } else {
        "eval \"$(ez shell-init)\""@
    }
}

/// The line that starts the shell integration.
pub fn shell_init_line(shell: &str) -> (r: String)
    ensures
        r@ == init_line(shell@),
{
    if same(shell, "fish") {
        String::from_str("ez shell-init | source")
    } else {
        String::from_str("eval \"$(ez shell-init)\"")
    }
}

/// The line that adds a directory to the search path.
pub open spec fn export_line(shell: Seq<char>, install_dir: Seq<char>) -> Seq<char> {
    if shell == "fish"@ {
        "fish_add_path "@ + install_dir
    } else {
        "export PATH=\""@ + install_dir + ":$PATH\""@
    }
}

/// The line that adds a directory to the search path.
pub fn path_export_line(shell: &str, install_dir: &str) -> (r: String)
    ensures
        r@ == export_line(shell@, install_dir@),
{
    if same(shell, "fish") {
        String::from_str("fish_add_path ").concat(install_dir)
    } else {
        String::from_str("export PATH=\"").concat(install_dir).concat(":$PATH\"")
    }
}

/// Whether a directory has to be added to the search path: it is neither in it nor named in the
/// shell's file.
pub open spec fn needs_path(install_dir: Seq<char>, path_env: Seq<char>, rc: Seq<char>) -> bool {
    !pieces(path_env, ':').contains(install_dir) && !occurs(rc, install_dir)
}

/// The lines that are missing in the shell's file.
pub open spec fn missing_lines(
    shell: Seq<char>,
    install_dir: Option<Seq<char>>,
    path_env: Seq<char>,
    rc: Seq<char>,
) -> Seq<Seq<char>> {
    let path_lines = match install_dir {
        Some(d) => if needs_path(d, path_env, rc) {
            seq![export_line(shell, d)]
        } else {
            Seq::empty()
        },
        None => Seq::empty(),
    };
    if occurs(rc, "ez shell-init"@) {
        path_lines
    } else {
        path_lines.push(init_line(shell))
    }
}

/// The lines that are missing in the shell's file.
pub fn planned_setup_lines(
    shell: &str,
    install_dir: Option<&str>,
    path_env: &str,
    rc_content: &str,
) -> (r: Vec<String>)
    ensures
        views(r@) == missing_lines(
            shell@,
            match install_dir {
                Some(d) => Some(d@),
                None => None,
            },
            path_env@,
            rc_content@,
        ),
{
    let mut out: Vec<String> = Vec::new();
    assert(views(out@) =~= Seq::<Seq<char>>::empty());
    if let Some(d) = install_dir {
        let dirs: Vec<String> = split(path_env, ':');
        if !holds(&dirs, d) && !contains(rc_content, d) {
            let line: String = path_export_line(shell, d);
            let ghost l = line@;
            out.push(line);
            assert(views(out@) =~= seq![l]);
        }
    }
    let ghost held = views(out@);
    if !contains(rc_content, "ez shell-init") {
        let line: String = shell_init_line(shell);
        let ghost l = line@;
        out.push(line);
        assert(views(out@) =~= held.push(l));
    }
    out
}

/// Each line with its end.
pub open spec fn ended(lines: Seq<Seq<char>>) -> Seq<char>
    decreases lines.len(),
{
    if lines.len() == 0 {
        Seq::empty()
    } else {
        ended(lines.drop_last()) + lines.last() + "\n"@
    }
}

/// The shell's file with lines added.
pub open spec fn extended(rc: Seq<char>, lines: Seq<Seq<char>>) -> Seq<char> {
    rc + "\n# ez-stack shell integration\n"@ + ended(lines)
}

/// The shell's file with lines added.
pub fn appended(rc_content: &str, lines: &Vec<String>) -> (r: String)
    ensures
        r@ == extended(rc_content@, views(lines@)),
{
    let ghost all = views(lines@);
    let mut tail: String = String::new();
    let mut i: usize = 0;
    while i < lines.len()
        invariant
            i <= lines.len(),
            all == views(lines@),
            tail@ == ended(all.take(i as int)),
        decreases lines.len() - i,
    {
        assert(all.take(i + 1).drop_last() =~= all.take(i as int));
        assert(all.take(i + 1).last() == lines@[i as int]@);
        tail.append(&lines[i]);
        tail.append("\n");
        i += 1;
    }
    assert(all.take(lines.len() as int) =~= all);
    rc_content.to_owned().concat("\n# ez-stack shell integration\n").concat(&tail)
}

proof fn lemma_init_line(shell: Seq<char>)
    ensures
        occurs(init_line(shell), "ez shell-init"@),
{
    reveal_strlit("ez shell-init");
    reveal_strlit("ez shell-init | source");
    reveal_strlit("eval \"$(ez shell-init)\"");
    let p = "ez shell-init"@;
    if shell == "fish"@ {
        let s = "ez shell-init | source"@;
        assert(s.skip(0).take(13) =~= p);
        assert(begins(s.skip(0), p));
    } else {
        let s = "eval \"$(ez shell-init)\""@;
        assert(s.skip(8).take(13) =~= p);
        assert(begins(s.skip(8), p));
    }
}

proof fn lemma_export_line(shell: Seq<char>, d: Seq<char>)
    ensures
        occurs(export_line(shell, d), d),
{
    if shell == "fish"@ {
        lemma_occurs_between("fish_add_path "@, d, Seq::empty());
        assert("fish_add_path "@ + d + Seq::<char>::empty() =~= "fish_add_path "@ + d);
    } else {
        lemma_occurs_between("export PATH=\""@, d, ":$PATH\""@);
    }
}

proof fn lemma_line_occurs(lines: Seq<Seq<char>>, i: int, p: Seq<char>)
    requires
        0 <= i < lines.len(),
        occurs(lines[i], p),
    ensures
        occurs(ended(lines), p),
    decreases lines.len(),
{
    let low = ended(lines.drop_last());
    if i == lines.len() - 1 {
        lemma_occurs_around(low, lines.last(), "\n"@, p);
    } else {
        lemma_line_occurs(lines.drop_last(), i, p);
        lemma_occurs_around(Seq::empty(), low, lines.last() + "\n"@, p);
        assert(Seq::<char>::empty() + low + (lines.last() + "\n"@) =~= low + lines.last() + "\n"@);
    }
}

/// Setting up twice adds nothing: once the missing lines are in the shell's file, none is
/// missing.
pub proof fn law_setup_is_idempotent(
    shell: Seq<char>,
    install_dir: Option<Seq<char>>,
    path_env: Seq<char>,
    rc: Seq<char>,
)
    ensures
        missing_lines(
            shell,
            install_dir,
            path_env,
            extended(rc, missing_lines(shell, install_dir, path_env, rc)),
        ).len() == 0,
{
    let lines = missing_lines(shell, install_dir, path_env, rc);
    let head = "\n# ez-stack shell integration\n"@;
    let all = extended(rc, lines);
    let init = "ez shell-init"@;
    assert(all =~= Seq::<char>::empty() + rc + (head + ended(lines)));
    assert(all =~= (rc + head) + ended(lines) + Seq::<char>::empty());
    if occurs(rc, init) {
        lemma_occurs_around(Seq::empty(), rc, head + ended(lines), init);
    } else {
        lemma_init_line(shell);
        lemma_line_occurs(lines, lines.len() - 1, init);
        lemma_occurs_around(rc + head, ended(lines), Seq::empty(), init);
    }
    if let Some(d) = install_dir {
        if occurs(rc, d) {
            lemma_occurs_around(Seq::empty(), rc, head + ended(lines), d);
        } else if needs_path(d, path_env, rc) {
            lemma_export_line(shell, d);
            assert(lines[0] == export_line(shell, d));
            lemma_line_occurs(lines, 0, d);
            lemma_occurs_around(rc + head, ended(lines), Seq::empty(), d);
        }
    }
}

/// How setup goes on once the missing lines are known.
#[derive(Clone, Copy, Debug, PartialEq, Eq, Structural)]
pub enum SetupStep {
    /// Nothing is missing.
    Configured,
    /// The user has to agree first.
    Confirm,
    /// The lines are added.
    Write,
}

/// How setup goes on: the user is asked only where they can answer and have not agreed already.
pub fn run(lines: &Vec<String>, yes: bool, interactive: bool) -> (r: SetupStep)
    ensures
        r == if lines@.len() == 0 {
            SetupStep::Configured
        } else if !yes && interactive {
            SetupStep::Confirm
        } else {
            SetupStep::Write
        },
{
    if lines.len() == 0 {
        SetupStep::Configured
    } else if !yes && interactive {
        SetupStep::Confirm
    } else {
        SetupStep::Write
    }
}

/// The shell and its file, or why they cannot be told.
pub open spec fn shell_and_file(
    shell: Option<Seq<char>>,
    home: Option<Seq<char>>,
    bashrc_exists: bool,
) -> Result<(Seq<char>, Seq<char>), ErrorView> {
    match shell {
        Some(s) => match shell_name(s) {
            Some(name) => match home {
                Some(h) => match rc_file(name, h, bashrc_exists) {
                    Some(f) => Ok((name, f)),
                    None => Err(ErrorView::Other(no_file_text(name))),
                },
                None => Err(ErrorView::Other(no_file_text(name))),
            },
            None => Err(ErrorView::Other(no_shell_text())),
        },
        None => Err(ErrorView::Other(no_shell_text())),
    }
}

/// The message that the shell is not known.
pub open spec fn no_shell_text() -> Seq<char> {
    "could not detect shell from $SHELL\n  → Set $SHELL or manually add `eval \"$(ez shell-init)\"` to your shell config"@
}

/// The message that the shell's file is not known.
pub open spec fn no_file_text(shell: Seq<char>) -> Seq<char> {
    "could not determine rc file for shell `"@ + shell
        + "`\n  → Manually add `eval \"$(ez shell-init)\"` to your shell config"@
}

fn no_shell() -> (r: EzError)
    ensures
        r@ == ErrorView::Other(no_shell_text()),
{
    EzError::Other(
        String::from_str(
            "could not detect shell from $SHELL\n  → Set $SHELL or manually add `eval \"$(ez shell-init)\"` to your shell config",
        ),
    )
}

fn no_file(shell: &str) -> (r: EzError)
    ensures
        r@ == ErrorView::Other(no_file_text(shell@)),
{
    EzError::Other(
        String::from_str("could not determine rc file for shell `").concat(shell).concat(
            "`\n  → Manually add `eval \"$(ez shell-init)\"` to your shell config",
        ),
    )
}

/// The shell and its file, or why they cannot be told.
pub fn find_rc_file(shell: Option<&str>, home: Option<&str>, bashrc_exists: bool) -> (r: Result<
    (String, String),
    EzError,
>)
    ensures
        match shell_and_file(
            match shell {
                Some(s) => Some(s@),
                None => None,
            },
            match home {
                Some(h) => Some(h@),
                None => None,
            },
            bashrc_exists,
        ) {
            Ok(p) => r matches Ok(q) && q.0@ == p.0 && q.1@ == p.1,
            Err(e) => r matches Err(f) && f@ == e,
        },
{
    let name: String = match shell {
        Some(s) => match detect_shell_name(s) {
            Some(n) => n,
            None => return Err(no_shell()),
        },
        None => return Err(no_shell()),
    };
    match home {
        Some(h) => match rc_file_for_home(&name, h, bashrc_exists) {
            Some(f) => Ok((name, f)),
            None => Err(no_file(&name)),
        },
        None => Err(no_file(&name)),
    }
}

/// How the shell's file is shown: `~` stands for the user's directory.
pub fn rc_display(rc_path: &str, home: &str) -> (r: String)
    ensures
        r@ == replaced(rc_path@, home@, "~"@),
{
    replace(rc_path, home, "~")
}

/// A line is added exactly where what it does is missing: the hook where the file does not call
/// it, the path where the directory is neither on the path nor in the file. What was in the file
/// stays at its beginning.
pub proof fn law_setup_adds_what_is_missing(
    shell: Seq<char>,
    install_dir: Option<Seq<char>>,
    path_env: Seq<char>,
    rc: Seq<char>,
    lines: Seq<Seq<char>>,
)
    ensures
        ({
            let hook = !occurs(rc, "ez shell-init"@);
            let path = install_dir matches Some(d) && !pieces(path_env, ':').contains(d) && !occurs(
                rc,
                d,
            );
            let r = missing_lines(shell, install_dir, path_env, rc);
            &&& r.len() == (if hook {
                1int
            } else {
                0
            }) + (if path {
                1int
            } else {
                0
            })
            &&& hook ==> r.last() == init_line(shell)
            &&& path ==> r[0] == export_line(shell, install_dir->0)
        }),
        extended(rc, lines).take(rc.len() as int) == rc,
{
    assert(extended(rc, lines).take(rc.len() as int) =~= rc);
}

/// A shell is known by the last part of its path.
pub proof fn law_shell_is_the_last_part(dir: Seq<char>, name: Seq<char>)
    requires
        !name.contains('/'),
    ensures
        name == "bash"@ || name == "zsh"@ || name == "fish"@ ==> shell_name(dir + seq!['/'] + name)
            == Some(name),
        name != "bash"@ && name != "zsh"@ && name != "fish"@ ==> shell_name(
            dir + seq!['/'] + name,
        ) is None,
{
    lemma_last_piece(dir, name, '/');
}

proof fn lemma_last_piece(dir: Seq<char>, name: Seq<char>, c: char)
    requires
        !name.contains(c),
    ensures
        pieces(dir + seq![c] + name, c).last() == name,
        pieces(dir + seq![c] + name, c).len() > 0,
    decreases dir.len(),
{
    let t = dir + seq![c] + name;
    let n = crate::text::first_at(t, c);
    crate::text::lemma_first_place(t, c);
    assert(t[dir.len() as int] == c);
    assert(n <= dir.len()) by {
        if n > dir.len() {
            assert(t[dir.len() as int] != c);
        }
    }
    let rest = t.skip(n + 1);
    if n == dir.len() {
        assert(rest =~= name);
        assert forall|i: int| 0 <= i < name.len() implies name[i] != c by {
            assert(name.contains(name[i]));
        }
        crate::text::lemma_first_at(name, c, name.len() as int);
        assert(pieces(name, c) =~= seq![name]);
    } else {
        assert(rest =~= dir.skip(n + 1) + seq![c] + name);
        lemma_last_piece(dir.skip(n + 1), name, c);
    }
}

/// Each shell has its own file in the home directory; of bash's two, the one that is there.
pub proof fn law_shell_has_its_file(shell: Seq<char>, home: Seq<char>, bashrc_exists: bool)
    ensures
        rc_file("zsh"@, home, bashrc_exists) == Some(path_joined(home, ".zshrc"@)),
        rc_file("bash"@, home, true) == Some(path_joined(home, ".bashrc"@)),
        rc_file("bash"@, home, false) == Some(path_joined(home, ".bash_profile"@)),
        rc_file("fish"@, home, bashrc_exists) == Some(
            path_joined(home, ".config/fish/config.fish"@),
        ),
        rc_file(shell, home, bashrc_exists) is Some <==> shell == "zsh"@ || shell == "bash"@ || shell
            == "fish"@,
        init_line("fish"@) != init_line("bash"@),
        init_line("zsh"@) == init_line("bash"@),
        export_line("fish"@, home) == "fish_add_path "@ + home,
        export_line("zsh"@, home) == "export PATH=\""@ + home + ":$PATH\""@,
{
    reveal_strlit("zsh");
    reveal_strlit("bash");
    reveal_strlit("fish");
    reveal_strlit("ez shell-init | source");
    reveal_strlit("eval \"$(ez shell-init)\"");
    assert("bash"@[0] == 'b');
    assert("fish"@[0] == 'f');
    assert("ez shell-init | source"@[1] == 'z');
    assert("eval \"$(ez shell-init)\""@[1] == 'v');
}

} // verus!
