//! The shell side of the store: the script that exports the search path, and
//! the lines by which the shells come to read it. Texts are made here; reading
//! and writing files is left to the caller.

use vstd::prelude::*;
use vstd::string::StringExecFns;
use crate::config::config::Config;
use crate::config::entry::{valid_paths_of, PathEntry};
use crate::utilities::text::{chars_of, contains, has_infix, strings};

verus! {

/// The paths, each behind a colon.
pub open spec fn joined(paths: Seq<Seq<char>>) -> Seq<char>
    decreases paths.len(),
{
    if paths.len() == 0 {
        Seq::empty()
    } else {
        joined(paths.drop_last()) + seq![':'] + paths.last()
    }
}

/// The script: one statement that exports the search path, extended by the
/// given paths in their order.
pub open spec fn script_text(paths: Seq<Seq<char>>) -> Seq<char> {
    "#!/bin/sh\n\n"@ + "export PATH=\"$PATH"@ + joined(paths) + "\"\n"@
}

/// What one entry may contribute to the search path: its root, then the
/// discovered paths with a positive verdict.
pub open spec fn entry_candidates(e: PathEntry) -> Seq<Seq<char>> {
    seq![e.path@] + valid_paths_of(e.discovered_paths.items())
}

/// What the entries may contribute to the search path, in their order.
pub open spec fn candidates(entries: Seq<PathEntry>) -> Seq<Seq<char>>
    decreases entries.len(),
{
    if entries.len() == 0 {
        Seq::empty()
    } else {
        candidates(entries.drop_last()) + entry_candidates(entries.last())
    }
}

/// The paths that the script may name: of each entry in order its root and
/// then its discovered paths with a positive verdict. The caller leaves out
/// those that are no directory by the time the script is written.
pub fn script_candidates(config: &Config) -> (r: Vec<String>)
    ensures
        strings(r@) == candidates(config.path_entries@),
{
    let n: usize = config.path_entries.len();
    let mut r: Vec<String> = Vec::new();
    let mut i: usize = 0;
    proof {
        assert(config.path_entries@.take(0) =~= Seq::<PathEntry>::empty());
        assert(strings(r@) =~= Seq::<Seq<char>>::empty());
    }
    while i < n
        invariant
            n == config.path_entries@.len(),
            i <= n,
            strings(r@) == candidates(config.path_entries@.take(i as int)),
        decreases n - i,
    {
        let entry = &config.path_entries[i];
        let ghost done = strings(r@);
        proof {
            assert(config.path_entries@.take(i + 1).drop_last() =~= config.path_entries@.take(i as int));
            assert(config.path_entries@.take(i + 1).last() == *entry);
        }
        let root = entry.path.clone();
        proof {
            assert(strings(r@.push(root)) =~= done + seq![entry.path@]);
        }
        r.push(root);
        let valid = entry.valid_paths();
        let m: usize = valid.len();
        let mut k: usize = 0;
        proof {
            assert(strings(valid@).take(0) =~= Seq::<Seq<char>>::empty());
            assert(strings(r@) =~= done + seq![entry.path@] + strings(valid@).take(0));
        }
        while k < m
            invariant
                m == valid@.len(),
                k <= m,
                strings(r@) == done + seq![entry.path@] + strings(valid@).take(k as int),
            decreases m - k,
        {
            let path = valid[k].clone();
            proof {
                assert(strings(valid@).take(k + 1) =~= strings(valid@).take(k as int).push(path@));
                assert(strings(r@.push(path)) =~= strings(r@).push(path@));
            }
            r.push(path);
            k += 1;
        }
        proof {
            assert(strings(valid@).take(m as int) =~= strings(valid@));
            assert(done + seq![entry.path@] + strings(valid@) =~= done + entry_candidates(*entry));
        }
        i += 1;
    }
    proof {
        assert(config.path_entries@.take(n as int) =~= config.path_entries@);
    }
    r
}

/// Writes the script that exports the search path extended by `paths`.
pub fn render_script(paths: &Vec<String>) -> (r: String)
    ensures
        r@ == script_text(strings(paths@)),
{
    let mut text = String::new();
    text.append("#!/bin/sh\n\n");
    text.append("export PATH=\"$PATH");
    let n: usize = paths.len();
    let mut i: usize = 0;
    let ghost head = "#!/bin/sh\n\n"@ + "export PATH=\"$PATH"@;
    proof {
        assert(strings(paths@).take(0) =~= Seq::<Seq<char>>::empty());
        assert(text@ =~= head + joined(strings(paths@).take(0)));
    }
    while i < n
        invariant
            n == paths@.len(),
            i <= n,
            head == "#!/bin/sh\n\n"@ + "export PATH=\"$PATH"@,
            text@ == head + joined(strings(paths@).take(i as int)),
        decreases n - i,
    {
        proof {
            reveal_strlit(":");
            assert(":"@ =~= seq![':']);
            let next = strings(paths@).take(i + 1);
            assert(next.drop_last() =~= strings(paths@).take(i as int));
            assert(next.last() == paths@[i as int]@);
        }
        text.append(":");
        text.append(paths[i].as_str());
        proof {
            assert(text@ =~= head + joined(strings(paths@).take(i + 1)));
        }
        i += 1;
    }
    proof {
        assert(strings(paths@).take(n as int) =~= strings(paths@));
    }
    text.append("\"\n");
    text
}

/// The line that marks the block in the profile.
pub open spec fn profile_marker() -> Seq<char> {
    "#| Dots 'R' Us"@
}

/// The block that makes the profile read the script at `script_path`.
pub open spec fn profile_block_text(script_path: Seq<char>) -> Seq<char> {
    "\n"@ + profile_marker() + "\n[ -f "@ + script_path + " ] && . "@ + script_path + "\n\n"@
}

/// Whether the profile holds the marked block already.
pub fn has_profile_block(profile: &str) -> (r: bool)
    ensures
        r == has_infix(profile@, profile_marker()),
{
    let hay = chars_of(profile);
    let needle = chars_of("#| Dots 'R' Us");
    contains(hay.as_slice(), needle.as_slice())
}

/// The block to append to a profile that does not hold it yet.
pub fn profile_block(script_path: &str) -> (r: String)
    ensures
        r@ == profile_block_text(script_path@),
{
    let mut text = String::new();
    text.append("\n");
    text.append("#| Dots 'R' Us");
    text.append("\n[ -f ");
    text.append(script_path);
    text.append(" ] && . ");
    text.append(script_path);
    text.append("\n\n");
    assert(text@ =~= profile_block_text(script_path@));
    text
}

/// The two kinds of shell by the way they read a file.
#[derive(Debug, Clone, Copy, PartialEq, Eq, Structural)]
pub enum Shell {
    /// bash, zsh and their like.
    Posix,
    /// fish.
    Fish,
}

/// The lines by which a shell of the given kind reads the profile.
pub open spec fn source_line_text(shell: Shell) -> Seq<char> {
    match shell {
        Shell::Posix => "\n[ -f \"$HOME/.profile\" ] && . \"$HOME/.profile\"\n\n"@,
        Shell::Fish => "\nif test -f ~/.profile; source ~/.profile; end\n\n"@,
    }
}

/// Whether a resource file of the given kind of shell reads the profile.
pub open spec fn reads_profile(content: Seq<char>, shell: Shell) -> bool {
    match shell {
        Shell::Posix => has_infix(content, ". ~/.profile"@) || has_infix(
            content,
            ". \"$HOME/.profile\""@,
        ),
        Shell::Fish => has_infix(content, "source ~/.profile"@),
    }
}

/// The lines to append to a resource file that does not read the profile yet.
pub fn source_line(shell: Shell) -> (r: String)
    ensures
        r@ == source_line_text(shell),
{
    match shell {
        Shell::Posix => "\n[ -f \"$HOME/.profile\" ] && . \"$HOME/.profile\"\n\n".to_owned(),
        Shell::Fish => "\nif test -f ~/.profile; source ~/.profile; end\n\n".to_owned(),
    }
}

/// Whether the resource file with this content reads the profile already.
pub fn sources_profile(content: &str, shell: Shell) -> (r: bool)
    ensures
        r == reads_profile(content@, shell),
{
    let hay = chars_of(content);
    match shell {
        Shell::Posix => {
            let plain = chars_of(". ~/.profile");
            let home = chars_of(". \"$HOME/.profile\"");
            contains(hay.as_slice(), plain.as_slice()) || contains(hay.as_slice(), home.as_slice())
        },
        Shell::Fish => {
            let fish = chars_of("source ~/.profile");
            contains(hay.as_slice(), fish.as_slice())
        },
    }
}

/// A resource file below the home directory, and the kind of its shell.
#[derive(Debug)]
pub struct ShellFile {
    pub relative_path: String,
    pub shell: Shell,
}

/// The names of the resource files, in the order in which they are seen to.
pub open spec fn shell_file_names() -> Seq<Seq<char>> {
    seq![
        ".bashrc"@,
        ".bash_profile"@,
        ".bash_login"@,
        ".zshrc"@,
        ".zprofile"@,
        ".config/fish/config.fish"@,
    ]
}

/// The resource files that are made to read the profile: those of bash and
/// zsh, and that of fish.
pub fn shell_files() -> (r: Vec<ShellFile>)
    ensures
        r@.len() == shell_file_names().len(),
        forall|i: int|
            0 <= i < r@.len() ==> (#[trigger] r@[i]).relative_path@ == shell_file_names()[i] && (r@[i].shell
                == Shell::Fish <==> i == 5),
{
    let mut r: Vec<ShellFile> = Vec::new();
    r.push(ShellFile { relative_path: ".bashrc".to_owned(), shell: Shell::Posix });
    r.push(ShellFile { relative_path: ".bash_profile".to_owned(), shell: Shell::Posix });
    r.push(ShellFile { relative_path: ".bash_login".to_owned(), shell: Shell::Posix });
    r.push(ShellFile { relative_path: ".zshrc".to_owned(), shell: Shell::Posix });
    r.push(ShellFile { relative_path: ".zprofile".to_owned(), shell: Shell::Posix });
    r.push(ShellFile { relative_path: ".config/fish/config.fish".to_owned(), shell: Shell::Fish });
    r
}

} // verus!
