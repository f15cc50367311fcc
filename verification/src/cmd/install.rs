//! `unisonfs install`: where the binary goes, and the hint about `PATH`.

use crate::paths::{file_name, join_path, name_in, path_in};
use crate::text::{copy_text, opt_str_view, opt_view, same_text};
use vstd::prelude::*;

verus! {

/// `.local/bin` below a home directory.
pub open spec fn local_bin(home: Seq<char>) -> Seq<char> {
    path_in(path_in(home, ".local"@), "bin"@)
}

fn below_home(home: &str) -> (r: String)
    ensures
        r@ == local_bin(home@),
{
    join_path(join_path(home, ".local").as_str(), "bin")
}

/// Where the binary is installed.
pub open spec fn install_dir(home: Option<Seq<char>>, platform_home: Option<Seq<char>>) -> Seq<
    char,
> {
    match home {
        Some(h) => local_bin(h),
        None => match platform_home {
            Some(h) => local_bin(h),
            None => "/usr/local/bin"@,
        },
    }
}

/// Where the binary is installed: below `$HOME`, below the platform's home
/// directory, or in `/usr/local/bin`.
pub fn default_install_dir(home: Option<&str>, platform_home: Option<&str>) -> (r: String)
    ensures
        r@ == (match home {
            Some(h) => local_bin(h@),
            None => match platform_home {
                Some(h) => local_bin(h@),
                None => "/usr/local/bin"@,
            },
        }),
        r@ == install_dir(opt_str_view(home), opt_str_view(platform_home)),
{
    match home {
        Some(h) => below_home(h),
        None => match platform_home {
            Some(h) => below_home(h),
            None => copy_text("/usr/local/bin"),
        },
    }
}

/// The name of the shell in `$SHELL`.
pub fn detect_shell(shell: Option<&str>) -> (r: Option<String>)
    ensures
        opt_view(r) == (match shell {
            Some(s) => name_in(s@),
            None => None,
        }),
{
    match shell {
        Some(s) => file_name(s),
        None => None,
    }
}

/// The permission bits of a file that anyone may run.
pub fn executable(mode: u32) -> (r: u32)
    ensures
        r == mode | 0o111,
{
    mode | 0o111
}

/// The command that adds a directory to `PATH`.
pub open spec fn path_command(shell: Option<Seq<char>>, dir: Seq<char>) -> Seq<char> {
    if shell == Some("fish"@) {
        "fish_add_path \""@ + dir + "\""@
    } else if shell == Some("nu"@) {
        "$env.PATH = ($env.PATH | append \""@ + dir + "\")"@
    } else {
        "export PATH=\"$PATH:"@ + dir + "\""@
    }
}

/// The file that a shell reads when it starts.
pub open spec fn rc_name(shell: Option<Seq<char>>) -> Seq<char> {
    if shell == Some("fish"@) {
        "~/.config/fish/config.fish"@
    } else if shell == Some("zsh"@) {
        "~/.zshrc"@
    } else if shell == Some("bash"@) {
        "~/.bashrc"@
    } else {
        "your shell's rc file"@
    }
}

fn is_shell(shell: Option<&str>, name: &str) -> (r: bool)
    ensures
        r == (opt_str_view(shell) == Some(name@)),
{
    match shell {
        Some(s) => same_text(s, name),
        None => false,
    }
}

/// What is said where the directory is not in `PATH`.
pub fn path_hint(shell: Option<&str>, dir: &str) -> (r: String)
    ensures
        r@ == "\n"@ + dir@ + " is not in your PATH.\nAdd it by running:\n\n    "@ + path_command(
            opt_str_view(shell),
            dir@,
        ) + "\n\nor add to "@ + rc_name(opt_str_view(shell)) + ".\n"@,
{
    let snippet = if is_shell(shell, "fish") {
        copy_text("fish_add_path \"").concat(dir).concat("\"")
    } else if is_shell(shell, "nu") {
        copy_text("$env.PATH = ($env.PATH | append \"").concat(dir).concat("\")")
    } else {
        copy_text("export PATH=\"$PATH:").concat(dir).concat("\"")
    };
    let rc = if is_shell(shell, "fish") {
        "~/.config/fish/config.fish"
    } else if is_shell(shell, "zsh") {
        "~/.zshrc"
    } else if is_shell(shell, "bash") {
        "~/.bashrc"
    } else {
        "your shell's rc file"
    };
    copy_text("\n").concat(dir).concat(
        " is not in your PATH.\nAdd it by running:\n\n    ",
    ).concat(snippet.as_str()).concat("\n\nor add to ").concat(rc).concat(".\n")
}

} // verus!
