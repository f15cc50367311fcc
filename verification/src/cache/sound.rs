//! What every operation of the cached filesystem keeps: its tables fit together.

use super::db::ROOT_INO;
use super::fs::{
    attrs_set, deletion_applied, delete_enqueued, dir_made, dir_removed, doc_released, entry_made,
    file_made, is_dir, linked, name_dropped, released, renamed, symlink_made, unlinked, FsState,
};
use super::model::{
    dentry_of, fresh_row, ino_for_remote_id, lemma_dentry_of_is_first, remote_path, with_root,
};
use super::rows::{changed, ChangeView, InodeRow, Tables, MAX_INO};
use crate::vfs::mode::{
    lemma_default_modes, lemma_with_permissions, DEFAULT_DIR_MODE, DEFAULT_FILE_MODE,
    DEFAULT_SYMLINK_MODE,
};
use crate::vfs::types::{type_of_mode, SetAttr, Timestamp};
use vstd::prelude::*;
use vstd::utf8::encode_utf8;

verus! {

/// The directory entries: parent and name, and the inode that they name.
pub type Entries = Map<(u64, Seq<char>), u64>;

/// The number is not one that a new inode can still get.
pub open spec fn given_out(t: Tables, ino: u64) -> bool {
    ino < t.next_ino || ino > MAX_INO
}

/// The names of an inode.
pub open spec fn names(dentries: Entries, ino: u64) -> Set<(u64, Seq<char>)> {
    dentries.dom().filter(|d: (u64, Seq<char>)| dentries[d] == ino)
}

/// How many links the row of an inode counts beyond the names that it has.
pub open spec fn spare(t: Tables, ino: u64) -> int {
    t.inodes[ino].nlink - names(t.dentries, ino).len()
}

/// The tables fit together: the root is a directory without a name, every
/// directory entry names an inode that is there, an inode's row counts its names,
/// and neither an inode nor an entry's directory has a number that a new inode
/// can still get.
pub open spec fn sound(t: Tables) -> bool {
    &&& is_dir(t, ROOT_INO)
    &&& t.dentries.dom().finite()
    &&& forall|k: (u64, Seq<char>)| #[trigger]
        t.dentries.contains_key(k) ==> t.inodes.contains_key(t.dentries[k]) && t.dentries[k]
            != ROOT_INO && given_out(t, k.0)
    &&& forall|ino: u64| #[trigger]
        t.inodes.contains_key(ino) ==> given_out(t, ino) && names(t.dentries, ino).len()
            <= t.inodes[ino].nlink
}

// ── One row at a time ───────────────────────────────────────────────────────

proof fn lemma_names_dropped(d: Entries, k: (u64, Seq<char>), ino: u64)
    requires
        d.dom().finite(),
        d.contains_key(k),
    ensures
        d.remove(k).dom().finite(),
        names(d.remove(k), ino).len() == names(d, ino).len() - (if d[k] == ino {
            1int
        } else {
            0
        }),
{
    d.dom().lemma_len_filter(|e: (u64, Seq<char>)| d[e] == ino);
    if d[k] == ino {
        assert(names(d.remove(k), ino) =~= names(d, ino).remove(k));
    } else {
        assert(names(d.remove(k), ino) =~= names(d, ino));
    }
}

proof fn lemma_names_put(d: Entries, k: (u64, Seq<char>), new: u64, ino: u64)
    requires
        d.dom().finite(),
        !d.contains_key(k),
    ensures
        d.insert(k, new).dom().finite(),
        names(d.insert(k, new), ino).len() == names(d, ino).len() + (if new == ino {
            1int
        } else {
            0
        }),
{
    d.dom().lemma_len_filter(|e: (u64, Seq<char>)| d[e] == ino);
    if new == ino {
        assert(names(d.insert(k, new), ino) =~= names(d, ino).insert(k));
    } else {
        assert(names(d.insert(k, new), ino) =~= names(d, ino));
    }
}

/// The tables differ in nothing that matters for how they fit together.
pub open spec fn same_shape(a: Tables, b: Tables) -> bool {
    &&& b.dentries == a.dentries
    &&& b.next_ino >= a.next_ino
    &&& forall|ino: u64| #[trigger] b.inodes.contains_key(ino) == a.inodes.contains_key(ino)
    &&& forall|ino: u64| #[trigger]
        b.inodes.contains_key(ino) ==> given_out(b, ino) && b.inodes[ino].nlink
            == a.inodes[ino].nlink && type_of_mode(b.inodes[ino].mode) == type_of_mode(
            a.inodes[ino].mode,
        )
}

/// What has the same shape fits together as well.
pub proof fn lemma_same_shape(a: Tables, b: Tables)
    requires
        sound(a),
        same_shape(a, b),
    ensures
        sound(b),
        forall|ino: u64| #[trigger] a.inodes.contains_key(ino) ==> spare(b, ino) == spare(a, ino),
{
    assert(a.inodes.contains_key(ROOT_INO));
    assert(b.inodes.contains_key(ROOT_INO));
    assert forall|k: (u64, Seq<char>)| #[trigger] b.dentries.contains_key(k) implies b.inodes
        .contains_key(b.dentries[k]) && b.dentries[k] != ROOT_INO && given_out(b, k.0) by {
        assert(a.dentries.contains_key(k));
        assert(a.inodes.contains_key(a.dentries[k]));
    }
    assert forall|ino: u64| #[trigger] b.inodes.contains_key(ino) implies names(b.dentries, ino).len()
        <= b.inodes[ino].nlink by {
        assert(a.inodes.contains_key(ino));
    }
    assert forall|ino: u64| #[trigger] a.inodes.contains_key(ino) implies spare(b, ino) == spare(
        a,
        ino,
    ) by {
        assert(b.inodes.contains_key(ino));
    }
}

/// A name is taken away: what it named has a link to spare.
proof fn lemma_name_dropped(t: Tables, k: (u64, Seq<char>))
    requires
        sound(t),
        t.dentries.contains_key(k),
    ensures
        ({
            let after = changed(t, ChangeView::DropDentry(k.0, k.1));
            &&& sound(after)
            &&& after.inodes == t.inodes
            &&& after.next_ino == t.next_ino
            &&& forall|o: u64| #[trigger]
                t.inodes.contains_key(o) ==> spare(after, o) == spare(t, o) + (if o
                    == t.dentries[k] {
                    1int
                } else {
                    0
                })
        }),
{
    let after = changed(t, ChangeView::DropDentry(k.0, k.1));
    assert(after.dentries == t.dentries.remove(k));
    lemma_names_dropped(t.dentries, k, t.dentries[k]);
    assert forall|o: u64| #[trigger] t.inodes.contains_key(o) implies spare(after, o) == spare(t, o)
        + (if o == t.dentries[k] {
        1int
    } else {
        0
    }) by {
        lemma_names_dropped(t.dentries, k, o);
    }
    assert forall|e: (u64, Seq<char>)| #[trigger] after.dentries.contains_key(e) implies after
        .inodes.contains_key(after.dentries[e]) && after.dentries[e] != ROOT_INO && given_out(
        after,
        e.0,
    ) by {
        assert(t.dentries.contains_key(e));
    }
    assert forall|o: u64| #[trigger] after.inodes.contains_key(o) implies given_out(after, o)
        && names(after.dentries, o).len() <= after.inodes[o].nlink by {
        assert(t.inodes.contains_key(o));
        assert(spare(after, o) >= spare(t, o));
    }
}

/// A name is given to an inode that has a link to spare.
proof fn lemma_name_put(t: Tables, k: (u64, Seq<char>), ino: u64)
    requires
        sound(t),
        !t.dentries.contains_key(k),
        t.inodes.contains_key(ino),
        ino != ROOT_INO,
        spare(t, ino) >= 1,
        given_out(t, k.0),
    ensures
        sound(changed(t, ChangeView::PutDentry(k.0, k.1, ino))),
{
    let after = changed(t, ChangeView::PutDentry(k.0, k.1, ino));
    assert(after.dentries == t.dentries.insert(k, ino));
    lemma_names_put(t.dentries, k, ino, ino);
    assert forall|o: u64| #[trigger] after.inodes.contains_key(o) implies given_out(after, o)
        && names(after.dentries, o).len() <= after.inodes[o].nlink by {
        lemma_names_put(t.dentries, k, ino, o);
        assert(t.inodes.contains_key(o));
    }
    assert forall|e: (u64, Seq<char>)| #[trigger] after.dentries.contains_key(e) implies after
        .inodes.contains_key(after.dentries[e]) && after.dentries[e] != ROOT_INO && given_out(
        after,
        e.0,
    ) by {
        if e != k {
            assert(t.dentries.contains_key(e));
        }
    }
}

/// `b` is `a` with one link of `ino` given up.
pub open spec fn one_link_less(a: Tables, b: Tables, ino: u64) -> bool {
    &&& b.dentries == a.dentries
    &&& b.next_ino == a.next_ino
    &&& if a.inodes[ino].nlink > 1 {
        b.inodes == a.inodes.insert(
            ino,
            InodeRow { nlink: (a.inodes[ino].nlink - 1) as i64, ..a.inodes[ino] },
        )
    } else {
        b.inodes == a.inodes.remove(ino)
    }
}

/// A link to spare is given up. The inode stays where its row counts another.
proof fn lemma_one_link_less(a: Tables, b: Tables, ino: u64)
    requires
        sound(a),
        a.inodes.contains_key(ino),
        ino != ROOT_INO,
        spare(a, ino) >= 1,
        one_link_less(a, b, ino),
    ensures
        sound(b),
        forall|o: u64| #[trigger]
            a.inodes.contains_key(o) && o != ino ==> b.inodes.contains_key(o) && spare(b, o)
                == spare(a, o),
        spare(a, ino) >= 2 ==> b.inodes.contains_key(ino) && spare(b, ino) == spare(a, ino) - 1,
{
    let d = a.dentries;
    d.dom().lemma_len_filter(|e: (u64, Seq<char>)| d[e] == ino);
    assert(a.inodes.contains_key(ROOT_INO));
    assert forall|k: (u64, Seq<char>)| #[trigger] b.dentries.contains_key(k) implies b.inodes
        .contains_key(b.dentries[k]) && b.dentries[k] != ROOT_INO && given_out(b, k.0) by {
        assert(d.contains_key(k));
        if d[k] == ino {
            assert(names(d, ino).contains(k));
            assert(names(d, ino).len() >= 1) by {
                if names(d, ino).len() == 0 {
                    assert(names(d, ino) =~= Set::empty());
                }
            }
        }
    }
    assert forall|o: u64| #[trigger] b.inodes.contains_key(o) implies given_out(b, o) && names(
        b.dentries,
        o,
    ).len() <= b.inodes[o].nlink by {
        assert(a.inodes.contains_key(o));
    }
}

/// A new inode has no name yet.
proof fn lemma_inode_made(t: Tables, row: InodeRow)
    requires
        sound(t),
        t.next_ino <= MAX_INO,
        row.nlink >= 1,
    ensures
        ({
            let after = changed(t, ChangeView::PutInode(t.next_ino, row));
            &&& sound(after)
            &&& after.dentries == t.dentries
            &&& after.inodes.contains_key(t.next_ino)
            &&& !t.inodes.contains_key(t.next_ino)
            &&& t.next_ino != ROOT_INO
            &&& spare(after, t.next_ino) >= 1
            &&& forall|o: u64| given_out(t, o) ==> #[trigger] given_out(after, o)
        }),
{
    let after = changed(t, ChangeView::PutInode(t.next_ino, row));
    let d = t.dentries;
    assert(t.inodes.contains_key(ROOT_INO));
    assert(names(d, t.next_ino) =~= Set::empty()) by {
        assert forall|k: (u64, Seq<char>)| !names(d, t.next_ino).contains(k) by {
            if names(d, t.next_ino).contains(k) {
                assert(d.contains_key(k));
                assert(t.inodes.contains_key(d[k]));
            }
        }
    }
    assert forall|o: u64| #[trigger] after.inodes.contains_key(o) implies given_out(after, o)
        && names(after.dentries, o).len() <= after.inodes[o].nlink by {
        if o != t.next_ino {
            assert(t.inodes.contains_key(o));
        }
    }
    assert forall|k: (u64, Seq<char>)| #[trigger] after.dentries.contains_key(k) implies after
        .inodes.contains_key(after.dentries[k]) && after.dentries[k] != ROOT_INO && given_out(
        after,
        k.0,
    ) by {
        assert(d.contains_key(k));
        assert(t.inodes.contains_key(d[k]));
    }
}

// ── What keeps the tables sound ─────────────────────────────────────────────

/// A store without anything but a root is sound.
pub proof fn law_empty_store_is_sound(t: Tables, now: Timestamp)
    requires
        t.inodes.dom() == Set::<u64>::empty(),
        t.dentries.dom() == Set::<(u64, Seq<char>)>::empty(),
    ensures
        sound(with_root(t, now)),
{
    let after = with_root(t, now);
    assert(!t.inodes.dom().contains(ROOT_INO));
    lemma_default_modes();
    assert forall|o: u64| #[trigger] after.inodes.contains_key(o) implies given_out(after, o)
        && names(after.dentries, o).len() <= after.inodes[o].nlink by {
        assert(!t.inodes.dom().contains(o) || o == ROOT_INO);
        assert(names(after.dentries, o) =~= Set::empty());
    }
    assert forall|k: (u64, Seq<char>)| !#[trigger] after.dentries.contains_key(k) by {
        assert(!t.dentries.dom().contains(k));
    }
}

/// A new entry under a name that is free keeps the tables sound.
pub proof fn lemma_entry_sound(s: FsState, parent: u64, name: Seq<char>, row: InodeRow)
    requires
        sound(s.t),
        given_out(s.t, parent),
        !s.t.dentries.contains_key((parent, name)),
        row.nlink >= 1,
    ensures
        sound(entry_made(s, parent, name, row).0.t),
{
    if s.t.next_ino <= MAX_INO {
        lemma_inode_made(s.t, row);
        let t = changed(s.t, ChangeView::PutInode(s.t.next_ino, row));
        assert(given_out(t, parent));
        lemma_name_put(t, (parent, name), s.t.next_ino);
    }
}

/// What is made keeps the tables sound, whether that succeeds or not.
pub proof fn law_making_keeps_tables_sound(
    s: FsState,
    parent: u64,
    name: Seq<char>,
    target: Seq<char>,
    uid: u32,
    gid: u32,
    now: Timestamp,
)
    requires
        sound(s.t),
    ensures
        sound(dir_made(s, parent, name, uid, gid, now).0.t),
        sound(file_made(s, parent, name, uid, gid, now).0.t),
        sound(symlink_made(s, parent, name, target, uid, gid, now).0.t),
{
    if is_dir(s.t, parent) && !s.t.dentries.contains_key((parent, name)) {
        assert(given_out(s.t, parent));
        lemma_entry_sound(s, parent, name, fresh_row(DEFAULT_DIR_MODE, 2, uid, gid, 0, now));
        lemma_entry_sound(s, parent, name, fresh_row(DEFAULT_FILE_MODE, 1, uid, gid, 0, now));
        let row = fresh_row(
            DEFAULT_SYMLINK_MODE,
            1,
            uid,
            gid,
            encode_utf8(target).len() as i64,
            now,
        );
        lemma_entry_sound(s, parent, name, row);
        if s.t.next_ino <= MAX_INO {
            lemma_same_shape(
                entry_made(s, parent, name, row).0.t,
                symlink_made(s, parent, name, target, uid, gid, now).0.t,
            );
        }
    }
}

/// What takes a name away keeps the tables sound.
pub proof fn law_removing_keeps_tables_sound(s: FsState, parent: u64, name: Seq<char>, ms: i64)
    requires
        sound(s.t),
    ensures
        sound(dir_removed(s, parent, name).0.t),
        sound(unlinked(s, parent, name, ms).0.t),
{
    let k = (parent, name);
    if s.t.dentries.contains_key(k) {
        let ino = s.t.dentries[k];
        lemma_name_dropped(s.t, k);
        let t1 = changed(s.t, ChangeView::DropDentry(parent, name));
        lemma_one_link_less(t1, released(t1, ino), ino);
        let queued = match remote_path(s.t, ino) {
            Some(path) => delete_enqueued(s.t, path, ms),
            None => s.t,
        };
        lemma_same_shape(s.t, queued);
        lemma_name_dropped(queued, k);
        let t2 = changed(queued, ChangeView::DropDentry(parent, name));
        lemma_one_link_less(t2, released(t2, ino), ino);
    }
}

/// A deletion that was made remotely keeps the tables sound.
pub proof fn law_deletion_keeps_tables_sound(s: FsState, id: Seq<char>)
    requires
        sound(s.t),
    ensures
        sound(deletion_applied(s, id).0.t),
{
    if ino_for_remote_id(s.t, id) is Some {
        let ino = ino_for_remote_id(s.t, id)->0;
        lemma_dentry_of_is_first(s.t, ino);
        if dentry_of(s.t, ino) is Some {
            let d = dentry_of(s.t, ino)->0;
            assert(s.t.dentries.contains_pair(d, ino));
            lemma_name_dropped(s.t, d);
            let t1 = name_dropped(s, d.0, d.1).t;
            lemma_one_link_less(t1, doc_released(t1, ino), ino);
        }
    }
}

/// A further name keeps the tables sound, where its directory is there and the
/// links can still be counted.
pub proof fn law_linking_keeps_tables_sound(s: FsState, ino: u64, parent: u64, name: Seq<char>)
    requires
        sound(s.t),
        given_out(s.t, parent),
        s.t.inodes.contains_key(ino) ==> s.t.inodes[ino].nlink < i64::MAX,
    ensures
        sound(linked(s, ino, parent, name).0.t),
{
    if linked(s, ino, parent, name).1 is Ok {
        let k = (parent, name);
        let t0 = if s.t.dentries.contains_key(k) {
            lemma_name_dropped(s.t, k);
            changed(s.t, ChangeView::DropDentry(parent, name))
        } else {
            s.t
        };
        let row = InodeRow { nlink: super::queue::bumped(s.t.inodes[ino].nlink), ..s.t.inodes[ino] };
        let t1 = changed(t0, ChangeView::PutInode(ino, row));
        assert(given_out(t0, ino));
        assert forall|o: u64| #[trigger] t1.inodes.contains_key(o) implies given_out(t1, o) && names(
            t1.dentries,
            o,
        ).len() <= t1.inodes[o].nlink by {
            assert(t0.inodes.contains_key(o));
        }
        assert forall|e: (u64, Seq<char>)| #[trigger] t1.dentries.contains_key(e) implies t1.inodes
            .contains_key(t1.dentries[e]) && t1.dentries[e] != ROOT_INO && given_out(t1, e.0) by {
            assert(t0.dentries.contains_key(e));
        }
        assert(t0.inodes.contains_key(ROOT_INO));
        assert(sound(t1));
        assert(t0.inodes.contains_key(ino));
        lemma_name_put(t1, k, ino);
        let t2 = changed(t1, ChangeView::PutDentry(parent, name, ino));
        assert(t2.dentries =~= linked(s, ino, parent, name).0.t.dentries);
        lemma_same_shape(t2, linked(s, ino, parent, name).0.t);
    }
}

/// A rename keeps the tables sound, where the new directory is there.
pub proof fn law_renaming_keeps_tables_sound(
    s: FsState,
    old_parent: u64,
    old_name: Seq<char>,
    new_parent: u64,
    new_name: Seq<char>,
    ms: i64,
)
    requires
        sound(s.t),
        given_out(s.t, new_parent),
    ensures
        sound(renamed(s, old_parent, old_name, new_parent, new_name, ms).0.t),
{
    let from = (old_parent, old_name);
    let to = (new_parent, new_name);
    if s.t.dentries.contains_key(from) {
        let ino = s.t.dentries[from];
        lemma_name_dropped(s.t, from);
        let t2 = changed(s.t, ChangeView::DropDentry(old_parent, old_name));
        assert(t2.inodes.contains_key(ino));
        let t4 = if t2.dentries.contains_key(to) {
            let d = t2.dentries[to];
            lemma_name_dropped(t2, to);
            let freed = changed(t2, ChangeView::DropDentry(new_parent, new_name));
            assert(freed.inodes.contains_key(d) && freed.inodes.contains_key(ino));
            lemma_one_link_less(freed, released(freed, d), d);
            released(freed, d)
        } else {
            t2
        };
        assert(t4.inodes.contains_key(ino) && spare(t4, ino) >= 1);
        let t5 = match remote_path(t4, ino) {
            Some(path) => super::queue::enqueued(
                t4,
                path,
                super::queue::PushOp::Rename,
                None,
                Some(new_name),
                ms,
            ),
            None => t4,
        };
        lemma_same_shape(t4, t5);
        lemma_name_put(t5, to, ino);
    }
}

/// An attribute update keeps the tables sound.
pub proof fn law_setattr_keeps_tables_sound(t: Tables, ino: u64, a: SetAttr, now: Timestamp)
    requires
        sound(t),
    ensures
        sound(attrs_set(t, ino, a, now).0),
{
    if t.inodes.contains_key(ino) {
        if a.mode is Some {
            lemma_with_permissions(t.inodes[ino].mode, a.mode->0);
        }
        lemma_same_shape(t, attrs_set(t, ino, a, now).0);
    } else if a.mode is None {
        lemma_same_shape(t, attrs_set(t, ino, a, now).0);
    }
}

} // verus!
