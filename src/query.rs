//! Request validation and page arithmetic, shared by both search strategies.
use vstd::prelude::*;
use crate::model::{IndexedField, SearchError, SearchTarget, PAGE_SIZE};
use crate::text::{chars_of, split_tokens, tokens_of};

verus! {

/// The target a request parameter names, if it names one.
pub open spec fn target_named(s: Seq<char>) -> Option<SearchTarget> {
    if s == seq!['t', 'i', 't', 'l', 'e'] {
        Some(SearchTarget::Title)
    } else if s == seq!['c', 'o', 'n', 't', 'e', 'n', 't'] {
        Some(SearchTarget::Content)
    } else if s == seq!['b', 'o', 't', 'h'] {
        Some(SearchTarget::Both)
    } else {
        None
    }
}

/// The fields a target searches.
pub open spec fn fields_spec(t: SearchTarget) -> Seq<IndexedField> {
    match t {
        SearchTarget::Title => seq![IndexedField::Title],
        SearchTarget::Content => seq![IndexedField::Content],
        SearchTarget::Both => seq![IndexedField::Title, IndexedField::Content],
    }
}

/// Where a page starts among all matches.
pub open spec fn page_start(page: int) -> int {
    (page - 1) * PAGE_SIZE
}

/// How many records the page `page` holds when `total` documents match.
pub open spec fn window_len(total: int, page: int) -> int {
    let rest = total - page_start(page);
    if rest <= 0 {
        0
    } else if rest < PAGE_SIZE {
        rest
    } else {
        PAGE_SIZE as int
    }
}

fn same_chars(a: &Vec<char>, b: &Vec<char>) -> (r: bool)
    ensures
        r == (a@ == b@),
{
    if a.len() != b.len() {
        return false;
    }
    let mut i: usize = 0;
    while i < a.len()
        invariant
            a.len() == b.len(),
            i <= a.len(),
            forall|k: int| 0 <= k < i ==> a@[k] == b@[k],
        decreases a.len() - i,
    {
        if a[i] != b[i] {
            return false;
        }
        i = i + 1;
    }
    assert(a@ =~= b@);
    true
}

/// Reads a request's `target` parameter: `title`, `content` or `both`.
/// Anything else is the client's error.
pub fn parse_target(s: &str) -> (r: Result<SearchTarget, SearchError>)
    ensures
        match target_named(s@) {
            Some(t) => r == Ok::<SearchTarget, SearchError>(t),
            None => r == Err::<SearchTarget, SearchError>(SearchError::InvalidQuery),
        },
{
    let v = chars_of(s);
    let title = vec!['t', 'i', 't', 'l', 'e'];
    let content = vec!['c', 'o', 'n', 't', 'e', 'n', 't'];
    let both = vec!['b', 'o', 't', 'h'];
    assert(title@ =~= seq!['t', 'i', 't', 'l', 'e']);
    assert(content@ =~= seq!['c', 'o', 'n', 't', 'e', 'n', 't']);
    assert(both@ =~= seq!['b', 'o', 't', 'h']);
    if same_chars(&v, &title) {
        Ok(SearchTarget::Title)
    } else if same_chars(&v, &content) {
        Ok(SearchTarget::Content)
    } else if same_chars(&v, &both) {
        Ok(SearchTarget::Both)
    } else {
        Err(SearchError::InvalidQuery)
    }
}

/// The fields that a target searches, title before content.
pub fn fields_of(t: SearchTarget) -> (r: Vec<IndexedField>)
    ensures
        r@ == fields_spec(t),
{
    let r = match t {
        SearchTarget::Title => vec![IndexedField::Title],
        SearchTarget::Content => vec![IndexedField::Content],
        SearchTarget::Both => vec![IndexedField::Title, IndexedField::Content],
    };
    assert(r@ =~= fields_spec(t));
    r
}

/// The position of the first record of page `page` among all matches,
/// or `u64::MAX` where that position does not fit (no corpus reaches it).
pub fn page_offset(page: u64) -> (r: u64)
    requires
        page >= 1,
    ensures
        page_start(page as int) <= u64::MAX ==> r == page_start(page as int),
        page_start(page as int) > u64::MAX ==> r == u64::MAX,
{
    let skipped = page - 1;
    if skipped > u64::MAX / PAGE_SIZE {
        u64::MAX
    } else {
        skipped * PAGE_SIZE
    }
}

/// The page window for `total` matches: where page `page` starts and how many
/// records it holds. A page past the last one holds none.
pub fn page_window(total: u64, page: u64) -> (r: (u64, u64))
    requires
        page >= 1,
    ensures
        r.1 == window_len(total as int, page as int),
        r.1 > 0 ==> r.0 == page_start(page as int),
        r.0 + r.1 <= total,
{
    let start = page_offset(page);
    if start >= total {
        (0, 0)
    } else if total - start < PAGE_SIZE {
        (start, total - start)
    } else {
        (start, PAGE_SIZE)
    }
}

/// A validated index query: the fields to search, how many hits to fetch and
/// how many of the best hits to skip first.
pub struct IndexQuery {
    pub fields: Vec<IndexedField>,
    pub limit: u64,
    pub offset: u64,
}

/// Checks a search request and, where it is valid, says what to ask of the
/// index. A request is valid when its target is `title`, `content` or `both`,
/// its page is at least one and its keyword holds at least one token.
pub fn plan_index_query(target: &str, keyword: &str, page: u64) -> (r: Result<
    IndexQuery,
    SearchError,
>)
    ensures
        r is Ok <==> (target_named(target@) is Some && page >= 1 && tokens_of(keyword@).len()
            > 0),
        r is Err ==> r == Err::<IndexQuery, SearchError>(SearchError::InvalidQuery),
        r is Ok ==> {
            let q = r->Ok_0;
            &&& q.fields@ == fields_spec(target_named(target@)->Some_0)
            &&& q.limit == PAGE_SIZE
            &&& page_start(page as int) <= u64::MAX ==> q.offset == page_start(page as int)
            &&& page_start(page as int) > u64::MAX ==> q.offset == u64::MAX
        },
{
    let t = match parse_target(target) {
        Ok(t) => t,
        Err(e) => return Err(e),
    };
    if page < 1 {
        return Err(SearchError::InvalidQuery);
    }
    let kw = chars_of(keyword);
    let tokens = split_tokens(&kw);
    if tokens.len() == 0 {
        return Err(SearchError::InvalidQuery);
    }
    Ok(IndexQuery { fields: fields_of(t), limit: PAGE_SIZE, offset: page_offset(page) })
}

} // verus!
