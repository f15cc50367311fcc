//! POSIX mode constants.

use vstd::prelude::*;

verus! {

/// File type mask (upper 4 bits of the mode word).
pub const S_IFMT: u32 = 0o170000;

/// Regular file.
pub const S_IFREG: u32 = 0o100000;

/// Directory.
pub const S_IFDIR: u32 = 0o040000;

/// Symbolic link.
pub const S_IFLNK: u32 = 0o120000;

/// Default mode for a new regular file: `-rw-r--r--` (0644).
pub const DEFAULT_FILE_MODE: u32 = 0o100644;

/// Default mode for a new directory: `drwxr-xr-x` (0755).
pub const DEFAULT_DIR_MODE: u32 = 0o040755;

/// Default mode for a new symbolic link: `lrwxrwxrwx` (0777).
pub const DEFAULT_SYMLINK_MODE: u32 = 0o120777;

/// Maximum length of a single filename component (bytes).
pub const MAX_NAME_LEN: u32 = 255;

/// Preferred I/O block size returned in `FileAttr::blksize`.
pub const PREFERRED_BLOCK_SIZE: u32 = 4096;

/// Every default mode is its file type together with its permission bits, and
/// the permission bits stay clear of the type mask.
pub proof fn lemma_default_modes()
    ensures
        DEFAULT_FILE_MODE == S_IFREG | 0o644,
        DEFAULT_DIR_MODE == S_IFDIR | 0o755,
        DEFAULT_SYMLINK_MODE == S_IFLNK | 0o777,
        DEFAULT_FILE_MODE & S_IFMT == S_IFREG,
        DEFAULT_DIR_MODE & S_IFMT == S_IFDIR,
        DEFAULT_SYMLINK_MODE & S_IFMT == S_IFLNK,
{
    assert(0o100644u32 == 0o100000u32 | 0o644) by (bit_vector);
    assert(0o040755u32 == 0o040000u32 | 0o755) by (bit_vector);
    assert(0o120777u32 == 0o120000u32 | 0o777) by (bit_vector);
    assert(0o100644u32 & 0o170000 == 0o100000) by (bit_vector);
    assert(0o040755u32 & 0o170000 == 0o040000) by (bit_vector);
    assert(0o120777u32 & 0o170000 == 0o120000) by (bit_vector);
}

/// `mode` with the permission bits of `wanted` and its own file type.
pub open spec fn with_permissions(mode: u32, wanted: u32) -> u32 {
    (mode & S_IFMT) | (wanted & !S_IFMT)
}

/// Changing permissions keeps the file type and takes every other bit from the
/// request.
pub proof fn lemma_with_permissions(mode: u32, wanted: u32)
    ensures
        with_permissions(mode, wanted) & S_IFMT == mode & S_IFMT,
        with_permissions(mode, wanted) & !S_IFMT == wanted & !S_IFMT,
{
    assert((((mode & 0o170000) | (wanted & !0o170000u32)) & 0o170000 == mode & 0o170000) && (((mode
        & 0o170000) | (wanted & !0o170000u32)) & !0o170000u32 == wanted & !0o170000u32))
        by (bit_vector);
}

} // verus!
