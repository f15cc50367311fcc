//! Deletion reconciliation: removes local files whose document has disappeared
//! from the server.

use super::pull::{prune_missing, pruned};
use crate::api::dto::{BrainDocument, ListDocsReq};
use crate::cache::fs::UnisonFs;
use crate::cache::model::all_remote_ids;
use crate::table::{Mark, Table};
use crate::text::copy_text;
use vstd::prelude::*;

verus! {

#[derive(Debug, Clone, Copy, PartialEq, Eq, Structural)]
pub struct DeletionScanProgress {
    pub page: u32,
    pub total_pages: u32,
    pub total_items: usize,
    pub remote_seen: usize,
}

/// The request for the documents that a scan goes by: all there are. What is not
/// in the list is removed here, so that the list has no limit.
pub fn scan_request() -> (r: ListDocsReq)
    ensures
        r.prefix is None,
        r.kind@.len() == 0,
        r.tag@.len() == 0,
        r.limit is None,
{
    ListDocsReq { prefix: None, kind: Vec::new(), tag: Vec::new(), limit: None }
}

/// The ids of a list of documents.
pub open spec fn doc_ids(docs: Seq<BrainDocument>) -> Set<Seq<char>>
    decreases docs.len(),
{
    if docs.len() == 0 {
        Set::empty()
    } else {
        doc_ids(docs.drop_last()).insert(docs.last().id@)
    }
}

/// Runs one deletion scan with the documents that the server lists. Returns how
/// many local files were removed because their document disappeared, and how
/// far the scan came: the server lists everything on one page.
pub fn deletion_scan(fs: &mut UnisonFs, docs: &Vec<BrainDocument>) -> (r: (
    usize,
    DeletionScanProgress,
))
    requires
        old(fs).wf(),
    ensures
        final(fs).follows(*old(fs)),
        (final(fs).state(), r.0 as nat) == pruned(
            old(fs).state(),
            all_remote_ids(old(fs).state().t),
            doc_ids(docs@),
        ),
        r.1.page == 1,
        r.1.total_pages == 1,
        r.1.total_items == doc_ids(docs@).len(),
        r.1.remote_seen == doc_ids(docs@).len(),
{
    let mut ids: Table<String, Mark> = Table::new();
    let mut i: usize = 0;
    assert(docs@.take(0) =~= Seq::empty());
    assert(ids@.dom() =~= doc_ids(docs@.take(0)));
    while i < docs.len()
        invariant
            ids.wf(),
            i <= docs@.len(),
            ids@.dom() == doc_ids(docs@.take(i as int)),
        decreases docs@.len() - i,
    {
        let ghost before = ids@.dom();
        assert(docs@.take(i + 1).drop_last() =~= docs@.take(i as int));
        ids.put(copy_text(docs[i].id.as_str()), Mark);
        assert(ids@.dom() =~= before.insert(docs@[i as int].id@));
        i += 1;
    }
    assert(docs@.take(docs@.len() as int) =~= docs@);
    let count: usize = ids.len();
    let removed: usize = prune_missing(fs, &ids);
    (
        removed,
        DeletionScanProgress { page: 1, total_pages: 1, total_items: count, remote_seen: count },
    )
}

} // verus!
