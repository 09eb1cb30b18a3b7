//! The values that flow through a search: documents, hits, paged results,
//! request targets and the error kinds a request can end in.
use vstd::prelude::*;

verus! {

/// Number of records on one page of results.
pub const PAGE_SIZE: u64 = 20;

/// Number of characters of content shown in a hit's preview.
pub const SNIPPET_CHARS: usize = 100;

/// One novel of the corpus.
pub struct Document {
    pub id: i64,
    pub title: String,
    pub content: String,
}

impl Document {
    /// A copy of this document.
    pub fn duplicate(&self) -> (r: Document)
        ensures
            r == *self,
    {
        Document { id: self.id, title: self.title.clone(), content: self.content.clone() }
    }
}

/// One record of a result page: a document's id and title with a preview of its content.
pub struct SearchHit {
    pub id: i64,
    pub title: String,
    pub snippet: String,
}

/// What a hit says, as plain values: id, title and snippet.
pub open spec fn hit_model(h: SearchHit) -> (i64, Seq<char>, Seq<char>) {
    (h.id, h.title@, h.snippet@)
}

/// One page of results. `total` counts every matching document, whatever the page.
pub struct PagedResult {
    pub total: u64,
    pub page: u64,
    pub page_size: u64,
    pub records: Vec<SearchHit>,
}

/// What an index lookup hands back for one document: its id, its title and its
/// rank, where a larger rank means a better match.
pub struct IndexHit {
    pub id: i64,
    pub rank: u32,
    pub title: String,
}

/// A field of a document that can be searched.
#[derive(PartialEq, Eq, Structural, Clone, Copy, Debug)]
pub enum IndexedField {
    Title,
    Content,
}

/// The fields a request searches.
#[derive(PartialEq, Eq, Structural, Clone, Copy, Debug)]
pub enum SearchTarget {
    Title,
    Content,
    Both,
}

/// The ways a request can fail.
#[derive(PartialEq, Eq, Structural, Clone, Copy, Debug)]
pub enum SearchError {
    /// The request is malformed: unknown target, page below one, or no keyword.
    InvalidQuery,
    /// No prebuilt index could be opened; search falls back to substring matching.
    IndexUnavailable,
    /// No document has the requested id.
    NotFound,
    /// The document store failed while answering.
    StoreUnavailable,
    /// The index failed while answering.
    IndexIoError,
}

impl SearchError {
    /// Whether the error is the client's doing (a 4xx answer) rather than the server's.
    pub fn is_client_error(&self) -> (r: bool)
        ensures
            r == (*self is InvalidQuery || *self is NotFound),
    {
        match self {
            SearchError::InvalidQuery | SearchError::NotFound => true,
            _ => false,
        }
    }
}

} // verus!
