//! The document store: the corpus held in ascending id order, with lookup by
//! id and bounded previews.
use vstd::prelude::*;
use crate::model::{Document, SearchError};
use crate::text::{prefix_chars, snippet};

verus! {

/// Ids strictly ascend along `docs`, so each id names at most one document.
pub open spec fn ids_ascending(docs: Seq<Document>) -> bool {
    forall|i: int, j: int| 0 <= i < j < docs.len() ==> #[trigger] docs[i].id < #[trigger] docs[j].id
}

/// Some document of `docs` has the id `id`.
pub open spec fn has_id(docs: Seq<Document>, id: i64) -> bool {
    exists|k: int| 0 <= k < docs.len() && #[trigger] docs[k].id == id
}

/// The read-only corpus, kept in ascending id order.
pub struct DocumentStore {
    docs: Vec<Document>,
}

impl View for DocumentStore {
    type V = Seq<Document>;

    closed spec fn view(&self) -> Seq<Document> {
        self.docs@
    }
}

impl DocumentStore {
    /// The store is in ascending id order.
    pub open spec fn wf(&self) -> bool {
        ids_ascending(self@)
    }

    /// Builds a store from rows given in ascending id order; rows out of
    /// order, or two rows with one id, are refused.
    pub fn from_rows(rows: Vec<Document>) -> (r: Option<DocumentStore>)
        ensures
            r is Some <==> ids_ascending(rows@),
            r is Some ==> r->Some_0@ == rows@ && r->Some_0.wf(),
    {
        let mut i: usize = 1;
        while i < rows.len()
            invariant
                1 <= i,
                forall|a: int, b: int| 0 <= a < b < i && b < rows.len() ==> #[trigger] rows@[a].id
                    < #[trigger] rows@[b].id,
            decreases rows.len() - i,
        {
            if rows[i - 1].id >= rows[i].id {
                return None;
            }
            proof {
                assert forall|a: int, b: int| 0 <= a < b < i + 1 && b < rows.len() implies
                    #[trigger] rows@[a].id < #[trigger] rows@[b].id by {
                    if b == i && a < i - 1 {
                        assert(rows@[a].id < rows@[i - 1].id);
                    }
                }
            }
            i = i + 1;
        }
        Some(DocumentStore { docs: rows })
    }

    /// The number of documents.
    pub fn len(&self) -> (r: usize)
        ensures
            r == self@.len(),
    {
        self.docs.len()
    }

    /// The document at position `k` in id order.
    pub fn doc_at(&self, k: usize) -> (r: &Document)
        requires
            k < self@.len(),
        ensures
            *r == self@[k as int],
    {
        &self.docs[k]
    }

    /// The position of the document with id `id`, if there is one.
    fn position_of(&self, id: i64) -> (r: Option<usize>)
        requires
            self.wf(),
        ensures
            r is Some ==> r->Some_0 < self@.len() && self@[r->Some_0 as int].id == id,
            r is None ==> !has_id(self@, id),
    {
        let mut lo: usize = 0;
        let mut hi: usize = self.docs.len();
        while lo < hi
            invariant
                lo <= hi <= self.docs.len(),
                ids_ascending(self.docs@),
                forall|k: int| 0 <= k < lo ==> #[trigger] self.docs@[k].id < id,
                forall|k: int| hi <= k < self.docs.len() ==> #[trigger] self.docs@[k].id > id,
            decreases hi - lo,
        {
            let mid = lo + (hi - lo) / 2;
            let m = self.docs[mid].id;
            if m == id {
                return Some(mid);
            } else if m < id {
                proof {
                    assert forall|k: int| 0 <= k < mid + 1 implies #[trigger] self.docs@[k].id < id by {
                        if k < mid {
                            assert(self.docs@[k].id < self.docs@[mid as int].id);
                        }
                    }
                }
                lo = mid + 1;
            } else {
                proof {
                    assert forall|k: int| mid <= k < self.docs.len() implies #[trigger] self.docs@[k].id > id by {
                        if k > mid {
                            assert(self.docs@[mid as int].id < self.docs@[k].id);
                        }
                    }
                }
                hi = mid;
            }
        }
        None
    }

    /// The document with id `id`, whole and untruncated, or `None` when the
    /// corpus has no such document.
    pub fn get_by_id(&self, id: i64) -> (r: Option<Document>)
        requires
            self.wf(),
        ensures
            r is None <==> !has_id(self@, id),
            r is Some ==> exists|k: int| 0 <= k < self@.len() && self@[k] == r->Some_0,
            r is Some ==> r->Some_0.id == id,
    {
        match self.position_of(id) {
            Some(k) => Some(self.docs[k].duplicate()),
            None => None,
        }
    }

    /// The document with id `id`, or `NotFound` when the corpus has none.
    pub fn get_document(&self, id: i64) -> (r: Result<Document, SearchError>)
        requires
            self.wf(),
        ensures
            r is Err <==> !has_id(self@, id),
            r is Err ==> r == Err::<Document, SearchError>(SearchError::NotFound),
            r is Ok ==> r->Ok_0.id == id && exists|k: int| 0 <= k < self@.len() && self@[k] == r->Ok_0,
    {
        match self.get_by_id(id) {
            Some(d) => Ok(d),
            None => Err(SearchError::NotFound),
        }
    }

    /// The first `max_chars` characters of the content of the document with
    /// id `id`, or `None` when the corpus has no such document.
    pub fn get_snippet(&self, id: i64, max_chars: usize) -> (r: Option<String>)
        requires
            self.wf(),
        ensures
            r is None <==> !has_id(self@, id),
            r is Some ==> exists|k: int|
                0 <= k < self@.len() && self@[k].id == id && r->Some_0@ == prefix_chars(
                    self@[k].content@,
                    max_chars as nat,
                ),
    {
        match self.position_of(id) {
            Some(k) => Some(snippet(self.docs[k].content.as_str(), max_chars)),
            None => None,
        }
    }
}

} // verus!
