//! The substring fallback search: used where no prebuilt index is available.
//! A document matches when every whitespace-separated token of the keyword
//! occurs as a substring of the searched text (title, content, or title followed
//! by content), ASCII letters compared without
//! regard to case and every other character exactly.
use vstd::prelude::*;
use crate::model::{hit_model, Document, PagedResult, SearchError, SearchHit, SearchTarget, PAGE_SIZE, SNIPPET_CHARS};
use crate::query::{page_offset, page_start, parse_target, target_named, window_len};
use crate::store::DocumentStore;
use crate::text::{chars_of, concat_chars, contains, lemma_substring_of_concat, has_substring, prefix_chars, split_tokens, tokens_of};

verus! {

/// The token `tok` occurs in the text of `d` that `t` searches: the title, the
/// content, or the two joined, title first.
pub open spec fn token_found(t: SearchTarget, d: Document, tok: Seq<char>) -> bool {
    match t {
        SearchTarget::Title => has_substring(d.title@, tok),
        SearchTarget::Content => has_substring(d.content@, tok),
        SearchTarget::Both => has_substring(d.title@ + d.content@, tok),
    }
}

/// Every token occurs in the text of `d` that `t` searches.
pub open spec fn doc_matches(t: SearchTarget, toks: Seq<Seq<char>>, d: Document) -> bool {
    forall|k: int| 0 <= k < toks.len() ==> #[trigger] token_found(t, d, toks[k])
}

/// The documents of `docs` that match, in their order.
pub open spec fn matching(docs: Seq<Document>, t: SearchTarget, toks: Seq<Seq<char>>) -> Seq<Document>
    decreases docs.len(),
{
    if docs.len() == 0 {
        Seq::empty()
    } else {
        let sub = matching(docs.drop_last(), t, toks);
        if doc_matches(t, toks, docs.last()) {
            sub.push(docs.last())
        } else {
            sub
        }
    }
}

/// The record that shows `d` on a result page.
pub open spec fn preview(d: Document) -> (i64, Seq<char>, Seq<char>) {
    (d.id, d.title@, prefix_chars(d.content@, SNIPPET_CHARS as nat))
}

/// What a fallback search returns for a valid request: all matches counted,
/// the page's window of them shown.
pub open spec fn fallback_page(
    docs: Seq<Document>,
    t: SearchTarget,
    toks: Seq<Seq<char>>,
    page: u64,
    r: PagedResult,
) -> bool {
    let m = matching(docs, t, toks);
    &&& r.total == m.len()
    &&& r.page == page
    &&& r.page_size == PAGE_SIZE
    &&& r.records.len() == window_len(m.len() as int, page as int)
    &&& forall|k: int|
        0 <= k < r.records.len() ==> #[trigger] hit_model(r.records[k]) == preview(
            m[page_start(page as int) + k],
        )
}

fn token_in(
    t: SearchTarget,
    title: &Vec<char>,
    content: &Vec<char>,
    joined: &Vec<char>,
    tok: &Vec<char>,
) -> (r: bool)
    requires
        t is Both ==> joined@ == title@ + content@,
    ensures
        r == match t {
            SearchTarget::Title => has_substring(title@, tok@),
            SearchTarget::Content => has_substring(content@, tok@),
            SearchTarget::Both => has_substring(title@ + content@, tok@),
        },
{
    match t {
        SearchTarget::Title => contains(title, tok),
        SearchTarget::Content => contains(content, tok),
        SearchTarget::Both => contains(joined, tok),
    }
}

/// Whether document `d` holds every token in the text that `t` searches.
pub fn matches_document(t: SearchTarget, toks: &Vec<Vec<char>>, d: &Document) -> (r: bool)
    ensures
        r == doc_matches(t, toks@.map_values(|v: Vec<char>| v@), *d),
{
    let ghost tv = toks@.map_values(|v: Vec<char>| v@);
    let title = chars_of(d.title.as_str());
    let content = chars_of(d.content.as_str());
    let joined = match t {
        SearchTarget::Both => concat_chars(&title, &content),
        _ => Vec::new(),
    };
    let mut k: usize = 0;
    while k < toks.len()
        invariant
            k <= toks.len(),
            tv == toks@.map_values(|v: Vec<char>| v@),
            title@ == d.title@,
            content@ == d.content@,
            t is Both ==> joined@ == title@ + content@,
            forall|j: int| 0 <= j < k ==> #[trigger] token_found(t, *d, tv[j]),
        decreases toks.len() - k,
    {
        if !token_in(t, &title, &content, &joined, &toks[k]) {
            assert(!token_found(t, *d, tv[k as int]));
            return false;
        }
        k = k + 1;
    }
    true
}

/// The fallback search on tokens already split: counts every document of
/// `store` that matches and shows those on page `page`, in id order.
pub fn search_tokens(store: &DocumentStore, t: SearchTarget, toks: &Vec<Vec<char>>, page: u64) -> (r: PagedResult)
    requires
        page >= 1,
    ensures
        fallback_page(store@, t, toks@.map_values(|v: Vec<char>| v@), page, r),
{
    let ghost tv = toks@.map_values(|v: Vec<char>| v@);
    let start = page_offset(page);
    let n = store.len();
    let mut count: usize = 0;
    let mut records: Vec<SearchHit> = Vec::new();
    let mut i: usize = 0;
    while i < n
        invariant
            n == store@.len(),
            i <= n,
            page >= 1,
            tv == toks@.map_values(|v: Vec<char>| v@),
            page_start(page as int) <= u64::MAX ==> start == page_start(page as int),
            page_start(page as int) > u64::MAX ==> start == u64::MAX,
            count == matching(store@.take(i as int), t, tv).len(),
            count <= i,
            records.len() == window_len(count as int, page as int),
            forall|k: int|
                0 <= k < records.len() ==> #[trigger] hit_model(records[k]) == preview(
                    matching(store@.take(i as int), t, tv)[page_start(page as int) + k],
                ),
        decreases n - i,
    {
        let d = store.doc_at(i);
        let ghost before = matching(store@.take(i as int), t, tv);
        assert(store@.take(i + 1).drop_last() =~= store@.take(i as int));
        assert(store@.take(i + 1).last() == store@[i as int]);
        if matches_document(t, toks, d) {
            assert(matching(store@.take(i + 1), t, tv) == before.push(*d));
            if count as u64 >= start && (count as u64 - start) < PAGE_SIZE {
                let hit = SearchHit {
                    id: d.id,
                    title: d.title.clone(),
                    snippet: crate::text::snippet(d.content.as_str(), SNIPPET_CHARS),
                };
                records.push(hit);
            }
            count = count + 1;
        } else {
            assert(matching(store@.take(i + 1), t, tv) == before);
        }
        i = i + 1;
    }
    assert(store@.take(n as int) =~= store@);
    PagedResult { total: count as u64, page, page_size: PAGE_SIZE, records }
}

/// A search request answered by substring matching over `store`.
/// The request is refused as `InvalidQuery` when its target is not `title`,
/// `content` or `both`, its page is below one, or its keyword holds no token.
pub fn fallback_search(store: &DocumentStore, target: &str, keyword: &str, page: u64) -> (r: Result<
    PagedResult,
    SearchError,
>)
    ensures
        r is Ok <==> (target_named(target@) is Some && page >= 1 && tokens_of(keyword@).len()
            > 0),
        r is Err ==> r == Err::<PagedResult, SearchError>(SearchError::InvalidQuery),
        r is Ok ==> fallback_page(
            store@,
            target_named(target@)->Some_0,
            tokens_of(keyword@),
            page,
            r->Ok_0,
        ),
{
    let t = match parse_target(target) {
        Ok(t) => t,
        Err(e) => return Err(e),
    };
    if page < 1 {
        return Err(SearchError::InvalidQuery);
    }
    let kw = chars_of(keyword);
    let toks = split_tokens(&kw);
    if toks.len() == 0 {
        return Err(SearchError::InvalidQuery);
    }
    assert(toks@.map_values(|v: Vec<char>| v@) =~= tokens_of(keyword@));
    Ok(search_tokens(store, t, &toks, page))
}

/// A document is among the matches exactly when it is in the corpus and matches.
pub proof fn lemma_matching_contains(docs: Seq<Document>, t: SearchTarget, toks: Seq<Seq<char>>, d: Document)
    ensures
        matching(docs, t, toks).contains(d) <==> (docs.contains(d) && doc_matches(t, toks, d)),
    decreases docs.len(),
{
    if docs.len() > 0 {
        let init = docs.drop_last();
        lemma_matching_contains(init, t, toks, d);
        assert(docs =~= init.push(docs.last()));
        if docs.contains(d) && d != docs.last() {
            let k = choose|k: int| 0 <= k < docs.len() && docs[k] == d;
            assert(init[k] == d);
        }
        if init.contains(d) {
            let k = choose|k: int| 0 <= k < init.len() && init[k] == d;
            assert(docs[k] == d);
        }
        let sub = matching(init, t, toks);
        if doc_matches(t, toks, docs.last()) {
            assert(sub.push(docs.last())[sub.len() as int] == docs.last());
            if sub.contains(d) {
                let k = choose|k: int| 0 <= k < sub.len() && sub[k] == d;
                assert(sub.push(docs.last())[k] == d);
            }
            if sub.push(docs.last()).contains(d) && d != docs.last() {
                let k = choose|k: int| 0 <= k < sub.len() + 1 && sub.push(docs.last())[k] == d;
                assert(sub[k] == d);
            }
        }
    }
}

/// A search of both fields finds every document that a search of the title
/// alone, or of the content alone, finds for the same keyword.
pub proof fn lemma_both_covers_each_field(docs: Seq<Document>, toks: Seq<Seq<char>>, d: Document)
    requires
        matching(docs, SearchTarget::Title, toks).contains(d) || matching(
            docs,
            SearchTarget::Content,
            toks,
        ).contains(d),
    ensures
        matching(docs, SearchTarget::Both, toks).contains(d),
{
    lemma_matching_contains(docs, SearchTarget::Title, toks, d);
    lemma_matching_contains(docs, SearchTarget::Content, toks, d);
    lemma_matching_contains(docs, SearchTarget::Both, toks, d);
    assert forall|k: int| 0 <= k < toks.len() implies #[trigger] token_found(SearchTarget::Both, d, toks[k]) by {
        if doc_matches(SearchTarget::Title, toks, d) {
            assert(token_found(SearchTarget::Title, d, toks[k]));
        } else {
            assert(token_found(SearchTarget::Content, d, toks[k]));
        }
        lemma_substring_of_concat(d.title@, d.content@, toks[k]);
    }
}

/// A page past the last one shows no record and reports the same total as
/// the first page of the same search.
pub proof fn lemma_past_last_page(
    docs: Seq<Document>,
    t: SearchTarget,
    toks: Seq<Seq<char>>,
    page: u64,
    first: PagedResult,
    later: PagedResult,
)
    requires
        page >= 1,
        fallback_page(docs, t, toks, 1, first),
        fallback_page(docs, t, toks, page, later),
        page_start(page as int) >= first.total,
    ensures
        later.records.len() == 0,
        later.total == first.total,
{
}

/// The number of records on a page is the page size, or what is left of the
/// matches after the earlier pages when that is less, and never below zero.
pub proof fn lemma_page_length(docs: Seq<Document>, t: SearchTarget, toks: Seq<Seq<char>>, page: u64, r: PagedResult)
    requires
        page >= 1,
        fallback_page(docs, t, toks, page, r),
    ensures
        r.records.len() == vstd::math::min(
            PAGE_SIZE as int,
            vstd::math::max(0, r.total - (page - 1) * PAGE_SIZE),
        ),
{
}

} // verus!
