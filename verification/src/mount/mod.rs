//! Mount backends — FUSE (Linux) and NFS (macOS/Linux).

pub mod fuse;
pub mod laws;
pub mod nfs;

use crate::text::{ascii_lower, copy_text, same_text};
use vstd::prelude::*;

verus! {

/// Available mount backends.
#[derive(Debug, Clone, Copy, PartialEq, Eq, Structural)]
pub enum MountBackend {
    Fuse,
    Nfs,
}

/// What `str::to_lowercase` makes of a text.
pub uninterp spec fn lowercase(s: Seq<char>) -> Seq<char>;

/// `str::to_lowercase` gives the lowercase equivalent of a text, which depends
/// on the text alone: an ASCII text with its letters in lower case. The case
/// mapping beyond ASCII is not spelled out here.
#[verifier::external_body]
fn to_lowercase(s: &str) -> (r: String)
    ensures
        r@ == lowercase(s@),
        (forall|i: int| 0 <= i < s@.len() ==> #[trigger] s@[i] as int <= 127) ==> r@
            == s@.map_values(|c: char| ascii_lower(c)),
{
    s.to_lowercase()
}

/// The backend that a name in lower case stands for.
pub open spec fn backend_named(name: Seq<char>) -> Option<MountBackend> {
    if name == "fuse"@ {
        Some(MountBackend::Fuse)
    } else if name == "nfs"@ {
        Some(MountBackend::Nfs)
    } else {
        None
    }
}

impl MountBackend {
    /// Platform default: FUSE on Linux, NFS elsewhere.
    pub fn default_for_platform(linux: bool) -> (r: Self)
        ensures
            r == (if linux {
                MountBackend::Fuse
            } else {
                MountBackend::Nfs
            }),
    {
        if linux {
            MountBackend::Fuse
        } else {
            MountBackend::Nfs
        }
    }

    /// The backend with a name in lower case, or a description of the error.
    pub fn named(name: &str) -> (r: Result<Self, String>)
        ensures
            match backend_named(name@) {
                Some(b) => r == Ok::<MountBackend, String>(b),
                None => r is Err && r->Err_0@ == "unknown mount backend '"@ + name@
                    + "'; choose 'fuse' or 'nfs'"@,
            },
    {
        if same_text(name, "fuse") {
            Ok(MountBackend::Fuse)
        } else if same_text(name, "nfs") {
            Ok(MountBackend::Nfs)
        } else {
            Err(
                copy_text("unknown mount backend '").concat(name).concat(
                    "'; choose 'fuse' or 'nfs'",
                ),
            )
        }
    }

    /// The backend with this name, in lower or upper case.
    pub fn from_str(s: &str) -> (r: Result<Self, String>)
        ensures
            match backend_named(lowercase(s@)) {
                Some(b) => r == Ok::<MountBackend, String>(b),
                None => r is Err && r->Err_0@ == "unknown mount backend '"@ + lowercase(s@)
                    + "'; choose 'fuse' or 'nfs'"@,
            },
            (forall|i: int| 0 <= i < s@.len() ==> #[trigger] s@[i] as int <= 127) ==> lowercase(s@)
                == s@.map_values(|c: char| ascii_lower(c)),
    {
        MountBackend::named(to_lowercase(s).as_str())
    }

    /// The name of the backend.
    pub fn name(&self) -> (r: String)
        ensures
            r@ == (match self {
                MountBackend::Fuse => "fuse"@,
                MountBackend::Nfs => "nfs"@,
            }),
            backend_named(r@) == Some(*self),
    {
        proof {
            reveal_strlit("fuse");
            reveal_strlit("nfs");
            assert("fuse"@.len() != "nfs"@.len());
        }
        match self {
            MountBackend::Fuse => copy_text("fuse"),
            MountBackend::Nfs => copy_text("nfs"),
        }
    }
}

} // verus!
