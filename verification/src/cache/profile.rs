//! Virtual read-only `profile.md`: a human-readable summary of the brain at the
//! mount root.

use super::db::Db;
use super::rows::Tables;
use crate::api::dto::ProfileResp;
use crate::api::error::ApiError;
use crate::clock::now_ms;
use crate::sync::pull::SYNC_META_LAST_PULL_AT;
use crate::text::{
    copy_text, has_prefix, has_suffix, int_text, law_int_text_round_trip, parse_i64, print_int,
    text_i64, texts,
};
use crate::vfs::error::{VfsError, VfsResult};
use crate::vfs::types::{
    block_count, blocks_for, type_of_mode, FileAttr, FileType, Timestamp,
};
use vstd::prelude::*;
use vstd::string::*;
use vstd::utf8::encode_utf8;

verus! {

broadcast use vstd::string::group_string_axioms;

pub const PROFILE_INO: u64 = 0xffff_ffff_ffff_fffe;

pub const PROFILE_NAME: &'static str = "profile.md";

/// Pull silence, in milliseconds, after which `profile.md` starts carrying a
/// staleness banner.
pub const STALE_AFTER_MS: i64 = 600_000;

/// The mode of `profile.md`: a regular file that everyone may read.
pub const PROFILE_MODE: u32 = 0o100444;

// ── What is shown ───────────────────────────────────────────────────────────

/// The lines of a bullet list.
pub open spec fn bullets(items: Seq<Seq<char>>) -> Seq<char>
    decreases items.len(),
{
    if items.len() == 0 {
        Seq::empty()
    } else {
        bullets(items.drop_last()) + "- "@ + items.last() + "\n"@
    }
}

/// The entries of an optional list; none where it is not there.
pub open spec fn entries(list: Option<Vec<String>>) -> Seq<Seq<char>> {
    match list {
        Some(v) => texts(v@),
        None => Seq::empty(),
    }
}

/// The text of `profile.md`: a heading, then the core knowledge and the recent
/// context where there are any, or a note that there is nothing yet.
pub open spec fn profile_text(resp: ProfileResp) -> Seq<char> {
    let statics = entries(resp.profile.static_memories);
    let dynamics = entries(resp.profile.dynamic);
    let core = if statics.len() > 0 {
        "## Core Knowledge\n"@ + bullets(statics) + "\n"@
    } else {
        Seq::empty()
    };
    let recent = if dynamics.len() > 0 {
        "## Recent Context\n"@ + bullets(dynamics)
    } else {
        Seq::empty()
    };
    let note = if statics.len() == 0 && dynamics.len() == 0 {
        "(No memories yet. Write files to the brain to generate memories.)\n"@
    } else {
        Seq::empty()
    };
    "# Brain Profile\n# This file is auto-generated from your Unison brain.\n# It is read-only. Edit source files to update.\n\n"@
        + core + recent + note
}

/// How long ago the last successful pull was, in milliseconds, if that is known.
pub open spec fn pull_silence(t: Tables, now_ms: i64) -> Option<int> {
    match t.meta.get(SYNC_META_LAST_PULL_AT@) {
        Some(v) => match text_i64(v) {
            Some(last) => Some(now_ms - last),
            None => None,
        },
        None => None,
    }
}

/// The banner before the profile while pulls have been silent for too long.
pub open spec fn banner(t: Tables, now_ms: i64) -> Seq<char> {
    match pull_silence(t, now_ms) {
        Some(ms) => if ms < STALE_AFTER_MS {
            Seq::empty()
        } else {
            "⚠ SYNC STALE: last successful brain sync was "@ + int_text(ms / 60_000)
                + " minutes ago — mounted files may not reflect the brain's current state.\n\n"@
        },
        None => Seq::empty(),
    }
}

/// The bytes that `profile.md` holds: the banner, if any, and the cached
/// profile.
pub open spec fn profile_bytes(cache: Option<Seq<u8>>, t: Tables, now_ms: i64) -> Seq<u8> {
    encode_utf8(banner(t, now_ms)) + match cache {
        Some(b) => b,
        None => Seq::empty(),
    }
}

/// The bytes of `all` from `offset` on, at most `size` of them.
pub open spec fn part_of(all: Seq<u8>, offset: int, size: int) -> Seq<u8> {
    if offset >= all.len() {
        Seq::empty()
    } else if offset + size < all.len() {
        all.subrange(offset, offset + size)
    } else {
        all.skip(offset)
    }
}

/// The attributes of `profile.md`.
pub open spec fn profile_attr_of(
    cache: Option<Seq<u8>>,
    t: Tables,
    now: Timestamp,
    now_ms: i64,
) -> FileAttr {
    let size = profile_bytes(cache, t, now_ms).len() as u64;
    FileAttr {
        ino: PROFILE_INO,
        mode: PROFILE_MODE,
        nlink: 1,
        uid: 0,
        gid: 0,
        size,
        blocks: blocks_for(size),
        atime: now,
        mtime: now,
        ctime: now,
        rdev: 0,
        blksize: 4096,
    }
}

fn append_bullets(out: &mut String, items: &Vec<String>)
    ensures
        final(out)@ == old(out)@ + bullets(texts(items@)),
{
    let ghost before = out@;
    let ghost all = texts(items@);
    let mut i: usize = 0;
    assert(before + bullets(all.take(0)) =~= before);
    while i < items.len()
        invariant
            all == texts(items@),
            i <= items@.len(),
            out@ == before + bullets(all.take(i as int)),
        decreases items@.len() - i,
    {
        out.append("- ");
        out.append(items[i].as_str());
        out.append("\n");
        assert(all.take(i + 1).drop_last() =~= all.take(i as int));
        assert(out@ =~= before + bullets(all.take(i + 1)));
        i += 1;
    }
    assert(all.take(all.len() as int) =~= all);
}

/// Formats a profile as the text of `profile.md`.
pub fn format_profile(resp: &ProfileResp) -> (r: String)
    ensures
        r@ == profile_text(*resp),
{
    let mut out = copy_text(
        "# Brain Profile\n# This file is auto-generated from your Unison brain.\n# It is read-only. Edit source files to update.\n\n",
    );
    let ghost head = out@;
    let mut empty = true;
    match &resp.profile.static_memories {
        Some(v) => {
            if v.len() > 0 {
                empty = false;
                out.append("## Core Knowledge\n");
                append_bullets(&mut out, v);
                out.append("\n");
            }
        },
        None => {},
    }
    match &resp.profile.dynamic {
        Some(v) => {
            if v.len() > 0 {
                empty = false;
                out.append("## Recent Context\n");
                append_bullets(&mut out, v);
            }
        },
        None => {},
    }
    if empty {
        out.append("(No memories yet. Write files to the brain to generate memories.)\n");
    }
    assert(out@ =~= profile_text(*resp));
    out
}

/// The virtual `profile.md`.
#[derive(Debug)]
pub struct ProfileFile {
    cache: Option<Vec<u8>>,
}

impl View for ProfileFile {
    type V = Option<Seq<u8>>;

    closed spec fn view(&self) -> Option<Seq<u8>> {
        match self.cache {
            Some(v) => Some(v@),
            None => None,
        }
    }
}

impl ProfileFile {
    /// A profile of which nothing has been fetched yet.
    pub fn new() -> (r: Self)
        ensures
            r@ is None,
    {
        ProfileFile { cache: None }
    }

    /// Keeps a freshly fetched profile. A failed fetch leaves what was cached.
    pub fn warm(&mut self, reply: &Result<ProfileResp, ApiError>)
        ensures
            final(self)@ == (match *reply {
                Ok(resp) => Some(encode_utf8(profile_text(resp))),
                Err(_) => old(self)@,
            }),
    {
        match reply {
            Ok(resp) => {
                let text = format_profile(resp);
                self.cache = Some(vstd::slice::slice_to_vec(text.as_str().as_bytes()));
            },
            Err(_) => {},
        }
    }

    /// Banner prepended to `profile.md` while the sync loop is silently failing.
    fn staleness_banner(&self, db: &Db, now_ms: i64) -> (r: String)
        requires
            db.wf(),
        ensures
            r@ == banner(db.tables(), now_ms),
    {
        match db.sync_meta_get(SYNC_META_LAST_PULL_AT) {
            Some(v) => match parse_i64(v.as_str()) {
                Some(last) => {
                    let silent: i128 = now_ms as i128 - last as i128;
                    if silent < STALE_AFTER_MS as i128 {
                        String::new()
                    } else {
                        let minutes: i64 = (silent / 60_000) as i64;
                        let mut out = copy_text("⚠ SYNC STALE: last successful brain sync was ");
                        out.append(print_int(minutes).as_str());
                        out.append(
                            " minutes ago — mounted files may not reflect the brain's current state.\n\n",
                        );
                        out
                    }
                },
                None => String::new(),
            },
            None => String::new(),
        }
    }

    /// The bytes that a read serves: staleness banner (if any) and cached
    /// profile.
    pub fn content_bytes(&self, db: &Db, now_ms: i64) -> (r: Vec<u8>)
        requires
            db.wf(),
        ensures
            r@ == profile_bytes(self@, db.tables(), now_ms),
    {
        let text = self.staleness_banner(db, now_ms);
        let mut out = vstd::slice::slice_to_vec(text.as_str().as_bytes());
        let ghost head = out@;
        match &self.cache {
            Some(body) => {
                out.extend_from_slice(body.as_slice());
                assert(out@ =~= head + body@);
            },
            None => {
                assert(head =~= head + Seq::<u8>::empty());
            },
        }
        out
    }

    /// The attributes when the time is `now`, or `ms` epoch milliseconds. The
    /// size is that of what a read serves, banner included.
    pub fn profile_attr_at(&self, db: &Db, now: Timestamp, ms: i64) -> (r: FileAttr)
        requires
            db.wf(),
        ensures
            r == profile_attr_of(self@, db.tables(), now, ms),
    {
        let size: u64 = self.content_bytes(db, ms).len() as u64;
        FileAttr {
            ino: PROFILE_INO,
            mode: PROFILE_MODE,
            nlink: 1,
            uid: 0,
            gid: 0,
            size,
            blocks: block_count(size),
            atime: now,
            mtime: now,
            ctime: now,
            rdev: 0,
            blksize: 4096,
        }
    }

    /// The attributes now.
    pub fn profile_attr(&self, db: &Db) -> (r: FileAttr)
        requires
            db.wf(),
        ensures
            exists|now: Timestamp, ms: i64|
                r == #[trigger] profile_attr_of(self@, db.tables(), now, ms),
    {
        let now = Timestamp::now();
        let ms: i64 = now_ms();
        self.profile_attr_at(db, now, ms)
    }

    /// The bytes from `offset` on, at most `size` of them, when the time is
    /// `ms` epoch milliseconds.
    pub fn read_at(&self, db: &Db, offset: u64, size: usize, ms: i64) -> (r: VfsResult<Vec<u8>>)
        requires
            db.wf(),
        ensures
            r matches Ok(v) && v@ == ({
                let all = profile_bytes(self@, db.tables(), ms);
                if offset >= all.len() {
                    Seq::empty()
                } else if offset + size < all.len() {
                    all.subrange(offset as int, offset + size)
                } else {
                    all.skip(offset as int)
                }
            }),
            r matches Ok(v) && v@ == part_of(
                profile_bytes(self@, db.tables(), ms),
                offset as int,
                size as int,
            ),
    {
        let all = self.content_bytes(db, ms);
        if offset >= all.len() as u64 {
            return Ok(Vec::new());
        }
        let start: usize = offset as usize;
        let end: usize = if size < all.len() - start {
            start + size
        } else {
            all.len()
        };
        let out = vstd::slice::slice_to_vec(
            vstd::slice::slice_subrange(all.as_slice(), start, end),
        );
        assert(all@.subrange(start as int, all@.len() as int) =~= all@.skip(start as int));
        Ok(out)
    }

    /// The bytes from `offset` on, at most `size` of them.
    pub fn read(&self, db: &Db, offset: u64, size: usize) -> (r: VfsResult<Vec<u8>>)
        requires
            db.wf(),
        ensures
            r matches Ok(v) && exists|ms: i64|
                v@ == ({
                    let all = #[trigger] profile_bytes(self@, db.tables(), ms);
                    if offset >= all.len() {
                        Seq::empty()
                    } else if offset + size < all.len() {
                        all.subrange(offset as int, offset + size)
                    } else {
                        all.skip(offset as int)
                    }
                }),
    {
        let ms: i64 = now_ms();
        self.read_at(db, offset, size, ms)
    }

    /// Writes are refused.
    pub fn write(&self, _offset: u64, _data: &[u8]) -> (r: VfsResult<u32>)
        ensures
            r matches Err(e) && e == VfsError::PermissionDenied,
    {
        Err(VfsError::PermissionDenied)
    }

    /// Truncation is refused.
    pub fn truncate(&self, _size: u64) -> (r: VfsResult<()>)
        ensures
            r matches Err(e) && e == VfsError::PermissionDenied,
    {
        Err(VfsError::PermissionDenied)
    }

    pub fn flush(&self) -> (r: VfsResult<()>)
        ensures
            r is Ok,
    {
        Ok(())
    }

    pub fn fsync(&self) -> (r: VfsResult<()>)
        ensures
            r is Ok,
    {
        Ok(())
    }

    /// The attributes now.
    pub fn getattr(&self, db: &Db) -> (r: VfsResult<FileAttr>)
        requires
            db.wf(),
        ensures
            r matches Ok(a) && exists|now: Timestamp, ms: i64|
                a == #[trigger] profile_attr_of(self@, db.tables(), now, ms),
    {
        Ok(self.profile_attr(db))
    }
}

/// A read of the whole size that the attributes give returns everything, and
/// nothing is left beyond it.
pub proof fn law_profile_size_matches_content(
    cache: Option<Seq<u8>>,
    t: Tables,
    now: Timestamp,
    now_ms: i64,
)
    requires
        profile_bytes(cache, t, now_ms).len() <= u64::MAX,
    ensures
        profile_attr_of(cache, t, now, now_ms).size == profile_bytes(cache, t, now_ms).len(),
{
}

/// `profile.md` is a file that nobody may write to, under a number of its own.
pub proof fn law_profile_is_read_only(
    cache: Option<Seq<u8>>,
    t: Tables,
    now: Timestamp,
    now_ms: i64,
)
    ensures
        ({
            let a = profile_attr_of(cache, t, now, now_ms);
            &&& a.mode & 0o222 == 0
            &&& a.mode & 0o444 == 0o444
            &&& type_of_mode(a.mode) == FileType::Regular
            &&& a.ino == PROFILE_INO && a.nlink == 1
            &&& a.atime == now && a.mtime == now && a.ctime == now
            &&& a.blocks == blocks_for(a.size)
        }),
{
    assert(0o100444u32 & 0o222 == 0 && 0o100444u32 & 0o444 == 0o444 && 0o100444u32 & 0o170000
        == 0o100000) by (bit_vector);
}

/// Reads that follow each other give what one read over both gives, and a read of
/// all gives everything.
pub proof fn law_profile_is_read(all: Seq<u8>, offset: int, a: int, b: int, i: int)
    requires
        0 <= offset,
        0 <= a,
        0 <= b,
    ensures
        part_of(all, offset, a) + part_of(all, offset + a, b) == part_of(all, offset, a + b),
        part_of(all, 0, all.len() as int) == all,
        part_of(all, offset, a).len() <= a,
        0 <= i < part_of(all, offset, a).len() ==> part_of(all, offset, a)[i] == all[offset + i],
{
    assert(part_of(all, offset, a) + part_of(all, offset + a, b) =~= part_of(all, offset, a + b));
    assert(part_of(all, 0, all.len() as int) =~= all);
}

/// The profile is shown without a banner while the last pull is less than ten
/// minutes old. After that the banner says how many whole minutes it is, and the
/// profile follows it.
pub proof fn law_silence_is_shown(
    cache: Option<Seq<u8>>,
    t: Tables,
    last: i64,
    now_ms: i64,
    minutes: int,
)
    requires
        t.meta.get(SYNC_META_LAST_PULL_AT@) == Some(int_text(last as int)),
        minutes * 60_000 <= now_ms - last,
        now_ms - last < minutes * 60_000 + 60_000,
    ensures
        now_ms - last < 600_000 ==> banner(t, now_ms).len() == 0,
        now_ms - last < 600_000 && cache is Some ==> profile_bytes(cache, t, now_ms) == cache->0,
        now_ms - last >= 600_000 ==> banner(t, now_ms)
            == "⚠ SYNC STALE: last successful brain sync was "@ + int_text(minutes)
            + " minutes ago — mounted files may not reflect the brain's current state.\n\n"@,
        now_ms - last >= 600_000 && cache is Some ==> profile_bytes(cache, t, now_ms)
            == encode_utf8(banner(t, now_ms)) + cache->0,
{
    law_int_text_round_trip(last);
    assert((now_ms - last) / 60_000 == minutes);
    if now_ms - last < 600_000 && cache is Some {
        assert(encode_utf8(Seq::<char>::empty()) =~= Seq::<u8>::empty());
        assert(profile_bytes(cache, t, now_ms) =~= cache->0);
    }
}

/// Without a note of a pull there is no banner.
pub proof fn law_no_pull_no_banner(t: Tables, now_ms: i64)
    requires
        !t.meta.contains_key(SYNC_META_LAST_PULL_AT@),
    ensures
        banner(t, now_ms).len() == 0,
{
}

/// A list shows each entry in a line of its own, in order.
pub proof fn law_bullets_are_lines(a: Seq<Seq<char>>, item: Seq<char>, b: Seq<Seq<char>>)
    ensures
        bullets(a.push(item) + b) == bullets(a) + "- "@ + item + "\n"@ + bullets(b),
    decreases b.len(),
{
    let all = a.push(item) + b;
    if b.len() == 0 {
        assert(all =~= a.push(item));
        assert(all.drop_last() =~= a);
        assert(bullets(all) =~= bullets(a) + "- "@ + item + "\n"@ + bullets(b));
    } else {
        let front = b.drop_last();
        law_bullets_are_lines(a, item, front);
        assert(all.drop_last() =~= a.push(item) + front);
        assert(all.last() == b.last());
        assert(bullets(all) =~= bullets(a) + "- "@ + item + "\n"@ + bullets(b));
    }
}

/// What the brain knows is listed under its heading, the core knowledge before the
/// recent context. Where it knows nothing, a note says so.
pub proof fn law_profile_shows_what_is_known(resp: ProfileResp)
    ensures
        ({
            let core = entries(resp.profile.static_memories);
            let recent = entries(resp.profile.dynamic);
            let text = profile_text(resp);
            &&& core.len() > 0 ==> exists|head: Seq<char>, tail: Seq<char>|
                text == #[trigger] (head + ("## Core Knowledge\n"@ + bullets(core)) + tail)
            &&& recent.len() > 0 ==> has_suffix(text, "## Recent Context\n"@ + bullets(recent))
            &&& core.len() == 0 && recent.len() == 0 ==> has_suffix(
                text,
                "(No memories yet. Write files to the brain to generate memories.)\n"@,
            )
            &&& has_prefix(text, "# Brain Profile\n"@)
        }),
{
    let core = entries(resp.profile.static_memories);
    let recent = entries(resp.profile.dynamic);
    let text = profile_text(resp);
    let head = "# Brain Profile\n# This file is auto-generated from your Unison brain.\n# It is read-only. Edit source files to update.\n\n"@;
    let shown = if recent.len() > 0 {
        "## Recent Context\n"@ + bullets(recent)
    } else {
        Seq::empty()
    };
    let note = "(No memories yet. Write files to the brain to generate memories.)\n"@;
    if core.len() > 0 {
        let tail = "\n"@ + shown;
        assert(text =~= head + ("## Core Knowledge\n"@ + bullets(core)) + tail);
    }
    if recent.len() > 0 {
        assert(text.skip(text.len() - shown.len()) =~= shown);
    }
    if core.len() == 0 && recent.len() == 0 {
        assert(text.skip(text.len() - note.len()) =~= note);
    }
    reveal_strlit("# Brain Profile\n");
    reveal_strlit("# Brain Profile\n# This file is auto-generated from your Unison brain.\n# It is read-only. Edit source files to update.\n\n");
    assert(text.take("# Brain Profile\n"@.len() as int) =~= "# Brain Profile\n"@);
}

} // verus!
