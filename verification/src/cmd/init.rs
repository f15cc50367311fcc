//! `unisonfs init`: the `sgrep` shell wrapper.

use crate::pattern::{contains, first_at};
use crate::text::{copy_text, same_text, trim, trimmed};
use vstd::prelude::*;

verus! {

/// The shell function that is installed.
pub const WRAPPER: &'static str =
    "\n# sgrep — semantic grep over the Unison brain\n# Installed by `unisonfs init`. Semantic when called without flags.\nsgrep() {\n    unisonfs grep \"$@\"\n}\n";

/// What tells that the wrapper is there.
pub const WRAPPER_SIGN: &'static str = "sgrep — semantic grep";

/// The shell that `$SHELL` names; bash where it names neither zsh nor bash.
pub open spec fn shell_in(shell: Option<Seq<char>>) -> Seq<char> {
    if shell is Some && first_at(shell->0, "zsh"@) is Some {
        "zsh"@
    } else {
        "bash"@
    }
}

/// The shell that `$SHELL` names; bash where it names neither zsh nor bash.
pub fn detect_shell(shell: Option<&str>) -> (r: String)
    ensures
        r@ == shell_in(crate::text::opt_str_view(shell)),
{
    match shell {
        Some(s) => if contains(s, "zsh") {
            copy_text("zsh")
        } else {
            copy_text("bash")
        },
        None => copy_text("bash"),
    }
}

/// The file below the home directory that a shell reads when it starts, where the
/// shell is supported.
pub open spec fn rc_of(shell: Seq<char>) -> Option<Seq<char>> {
    if shell == "bash"@ {
        Some(".bashrc"@)
    } else if shell == "zsh"@ {
        Some(".zshrc"@)
    } else {
        None
    }
}

/// The file below the home directory that the wrapper is written to, or what is
/// said where the shell is not supported.
pub fn rc_file(shell: &str) -> (r: Result<String, String>)
    ensures
        if shell@ == "bash"@ {
            r is Ok && r->Ok_0@ == ".bashrc"@
        } else if shell@ == "zsh"@ {
            r is Ok && r->Ok_0@ == ".zshrc"@
        } else {
            r is Err && r->Err_0@ == "unsupported shell '"@ + shell@ + "'; run manually:\n"@
                + trimmed(WRAPPER@)
        },
        (match r {
            Ok(s) => Some(s@),
            Err(_) => None,
        }) == rc_of(shell@),
{
    if same_text(shell, "bash") {
        Ok(copy_text(".bashrc"))
    } else if same_text(shell, "zsh") {
        Ok(copy_text(".zshrc"))
    } else {
        Err(
            copy_text("unsupported shell '").concat(shell).concat("'; run manually:\n").concat(
                trim(WRAPPER).as_str(),
            ),
        )
    }
}

/// Whether the wrapper is in a file already.
pub fn already_installed(rc: &str) -> (r: bool)
    ensures
        r == (first_at(rc@, WRAPPER_SIGN@) is Some),
{
    contains(rc, WRAPPER_SIGN)
}

} // verus!
