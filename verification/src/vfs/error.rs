//! VFS error type.

use crate::text::copy_text;
use vstd::prelude::*;

verus! {

/// A failure of the local cache.
#[derive(Copy, Clone, Debug, PartialEq, Eq, Structural)]
pub enum DbError {
    /// The row that an operation needs is not there.
    NoRows,
    /// No inode number is left for a new inode.
    Full,
}

/// A failed I/O operation: the error number of the operating system, where it
/// gave one, and a description.
#[derive(Clone, Debug, PartialEq, Eq)]
pub struct IoError {
    pub os_error: Option<i32>,
    pub message: String,
}

#[derive(Clone, Debug, PartialEq, Eq)]
pub enum VfsError {
    NotFound,
    AlreadyExists,
    NotDirectory,
    IsDirectory,
    NotEmpty,
    InvalidArgument(String),
    PermissionDenied,
    NameTooLong,
    Io(IoError),
    Database(DbError),
    Other(String),
}

pub type VfsResult<T> = Result<T, VfsError>;

/// A [`VfsError`] with its texts as character sequences.
pub enum VfsErrorView {
    NotFound,
    AlreadyExists,
    NotDirectory,
    IsDirectory,
    NotEmpty,
    InvalidArgument(Seq<char>),
    PermissionDenied,
    NameTooLong,
    Io(Option<i32>, Seq<char>),
    Database(DbError),
    Other(Seq<char>),
}

impl View for VfsError {
    type V = VfsErrorView;

    open spec fn view(&self) -> VfsErrorView {
        match *self {
            VfsError::NotFound => VfsErrorView::NotFound,
            VfsError::AlreadyExists => VfsErrorView::AlreadyExists,
            VfsError::NotDirectory => VfsErrorView::NotDirectory,
            VfsError::IsDirectory => VfsErrorView::IsDirectory,
            VfsError::NotEmpty => VfsErrorView::NotEmpty,
            VfsError::InvalidArgument(s) => VfsErrorView::InvalidArgument(s@),
            VfsError::PermissionDenied => VfsErrorView::PermissionDenied,
            VfsError::NameTooLong => VfsErrorView::NameTooLong,
            VfsError::Io(e) => VfsErrorView::Io(e.os_error, e.message@),
            VfsError::Database(e) => VfsErrorView::Database(e),
            VfsError::Other(s) => VfsErrorView::Other(s@),
        }
    }
}

/// A result with its error as a [`VfsErrorView`].
pub open spec fn outcome<T>(r: VfsResult<T>) -> Result<T, VfsErrorView> {
    match r {
        Ok(v) => Ok(v),
        Err(e) => Err(e@),
    }
}

/// The error numbers of the operating system that errors are answered with.
#[derive(Copy, Clone, Debug, PartialEq, Eq, Structural)]
pub struct Errnos {
    pub enoent: i32,
    pub eexist: i32,
    pub enotdir: i32,
    pub eisdir: i32,
    pub enotempty: i32,
    pub einval: i32,
    pub eacces: i32,
    pub enametoolong: i32,
    pub eio: i32,
}

/// The numbers are those of Linux or macOS. Two of them are different there, and
/// among the architectures of Linux.
pub open spec fn are_known(t: Errnos) -> bool {
    &&& t.enoent == 2
    &&& t.eexist == 17
    &&& t.enotdir == 20
    &&& t.eisdir == 21
    &&& t.enotempty == 39 || t.enotempty == 66 || t.enotempty == 93
    &&& t.einval == 22
    &&& t.eacces == 13
    &&& t.enametoolong == 36 || t.enametoolong == 63 || t.enametoolong == 78
    &&& t.eio == 5
}

/// The constants `ENOENT`, `EEXIST`, `ENOTDIR`, `EISDIR`, `ENOTEMPTY`,
/// `EINVAL`, `EACCES`, `ENAMETOOLONG` and `EIO` of `libc`. Their values belong
/// to the operating system; what is claimed of them holds on Linux and on macOS,
/// the systems that can be mounted on. Which of the values of `ENOTEMPTY` and
/// `ENAMETOOLONG` it is, is left unsaid.
#[verifier::external_body]
fn libc_errnos() -> (r: Errnos)
    ensures
        are_known(r),
{
    Errnos {
        enoent: libc::ENOENT,
        eexist: libc::EEXIST,
        enotdir: libc::ENOTDIR,
        eisdir: libc::EISDIR,
        enotempty: libc::ENOTEMPTY,
        einval: libc::EINVAL,
        eacces: libc::EACCES,
        enametoolong: libc::ENAMETOOLONG,
        eio: libc::EIO,
    }
}

/// The error number that answers an error.
pub open spec fn errno_of(e: VfsErrorView, t: Errnos) -> i32 {
    match e {
        VfsErrorView::NotFound => t.enoent,
        VfsErrorView::AlreadyExists => t.eexist,
        VfsErrorView::NotDirectory => t.enotdir,
        VfsErrorView::IsDirectory => t.eisdir,
        VfsErrorView::NotEmpty => t.enotempty,
        VfsErrorView::InvalidArgument(_) => t.einval,
        VfsErrorView::PermissionDenied => t.eacces,
        VfsErrorView::NameTooLong => t.enametoolong,
        VfsErrorView::Io(Some(n), _) => n,
        VfsErrorView::Io(None, _) => t.eio,
        VfsErrorView::Database(_) => t.eio,
        VfsErrorView::Other(_) => t.eio,
    }
}

/// The description of an error.
pub open spec fn error_text(e: VfsErrorView) -> Seq<char> {
    match e {
        VfsErrorView::NotFound => "entry not found"@,
        VfsErrorView::AlreadyExists => "entry already exists"@,
        VfsErrorView::NotDirectory => "not a directory"@,
        VfsErrorView::IsDirectory => "is a directory"@,
        VfsErrorView::NotEmpty => "directory not empty"@,
        VfsErrorView::InvalidArgument(s) => "invalid argument: "@ + s,
        VfsErrorView::PermissionDenied => "permission denied"@,
        VfsErrorView::NameTooLong => "name too long"@,
        VfsErrorView::Io(_, s) => "I/O error: "@ + s,
        VfsErrorView::Database(DbError::NoRows) => "database error: "@ + "Query returned no rows"@,
        VfsErrorView::Database(DbError::Full) => "database error: "@
            + "database or disk is full"@,
        VfsErrorView::Other(s) => "other: "@ + s,
    }
}

impl VfsError {
    /// The POSIX error number for FUSE responses, among the numbers `t`.
    pub fn errno_in(&self, t: &Errnos) -> (r: i32)
        ensures
            r == errno_of(self@, *t),
    {
        match self {
            VfsError::NotFound => t.enoent,
            VfsError::AlreadyExists => t.eexist,
            VfsError::NotDirectory => t.enotdir,
            VfsError::IsDirectory => t.eisdir,
            VfsError::NotEmpty => t.enotempty,
            VfsError::InvalidArgument(_) => t.einval,
            VfsError::PermissionDenied => t.eacces,
            VfsError::NameTooLong => t.enametoolong,
            VfsError::Io(e) => match e.os_error {
                Some(n) => n,
                None => t.eio,
            },
            VfsError::Database(_) => t.eio,
            VfsError::Other(_) => t.eio,
        }
    }

    /// Convert to a POSIX errno value for FUSE responses.
    pub fn to_errno(&self) -> (r: i32)
        ensures
            exists|t: Errnos| r == #[trigger] errno_of(self@, t) && are_known(t),
    {
        let t = libc_errnos();
        self.errno_in(&t)
    }

    /// Describes the error.
    pub fn message(&self) -> (r: String)
        ensures
            r@ == error_text(self@),
    {
        match self {
            VfsError::NotFound => copy_text("entry not found"),
            VfsError::AlreadyExists => copy_text("entry already exists"),
            VfsError::NotDirectory => copy_text("not a directory"),
            VfsError::IsDirectory => copy_text("is a directory"),
            VfsError::NotEmpty => copy_text("directory not empty"),
            VfsError::InvalidArgument(s) => copy_text("invalid argument: ").concat(s.as_str()),
            VfsError::PermissionDenied => copy_text("permission denied"),
            VfsError::NameTooLong => copy_text("name too long"),
            VfsError::Io(e) => copy_text("I/O error: ").concat(e.message.as_str()),
            VfsError::Database(DbError::NoRows) => copy_text("database error: ").concat(
                "Query returned no rows",
            ),
            VfsError::Database(DbError::Full) => copy_text("database error: ").concat(
                "database or disk is full",
            ),
            VfsError::Other(s) => copy_text("other: ").concat(s.as_str()),
        }
    }
}

} // verus!
