use novel_search::indexed::{assemble_indexed, order_hits, select_page};
use novel_search::model::{Document, IndexHit, IndexedField, SearchError, SearchTarget, PAGE_SIZE};
use novel_search::query::{fields_of, page_offset, page_window, parse_target, plan_index_query};
use novel_search::search::fallback_search;
use novel_search::store::DocumentStore;
use novel_search::text::{chars_of, contains, snippet, split_tokens};

fn doc(id: i64, title: &str, content: &str) -> Document {
    Document { id, title: title.to_string(), content: content.to_string() }
}

fn store_of(docs: Vec<Document>) -> DocumentStore {
    DocumentStore::from_rows(docs).expect("ids ascend")
}

fn ids(r: &novel_search::model::PagedResult) -> Vec<i64> {
    r.records.iter().map(|h| h.id).collect()
}

#[test]
fn scenario_title_match_single_document() {
    let store = store_of(vec![doc(1, "The Fox", "a quick fox jumps")]);
    let r = fallback_search(&store, "title", "fox", 1).unwrap();
    assert_eq!(r.total, 1);
    assert_eq!(r.page, 1);
    assert_eq!(r.page_size, 20);
    assert_eq!(ids(&r), vec![1]);
    assert_eq!(r.records[0].title, "The Fox");
    assert_eq!(r.records[0].snippet, "a quick fox jumps");
}

#[test]
fn scenario_page_past_end_is_empty() {
    let docs: Vec<Document> = (1..=5).map(|i| doc(i, "t", "the river")).collect();
    let store = store_of(docs);
    let r = fallback_search(&store, "content", "river", 2).unwrap();
    assert_eq!(r.total, 5);
    assert!(r.records.is_empty());
    assert_eq!(r.page_size, PAGE_SIZE);
    let first = fallback_search(&store, "content", "river", 1).unwrap();
    assert_eq!(first.total, r.total);
    assert_eq!(first.records.len(), 5);
}

#[test]
fn scenario_invalid_target_is_client_error() {
    let store = store_of(vec![doc(1, "The Fox", "a quick fox jumps")]);
    let r = fallback_search(&store, "xyz", "fox", 1);
    assert!(matches!(r, Err(SearchError::InvalidQuery)));
    assert!(SearchError::InvalidQuery.is_client_error());
    assert!(matches!(plan_index_query("xyz", "fox", 1), Err(SearchError::InvalidQuery)));
}

#[test]
fn scenario_missing_document_not_found() {
    let store = store_of(vec![doc(1, "a", "b"), doc(2, "c", "d")]);
    assert!(matches!(store.get_document(999), Err(SearchError::NotFound)));
    assert!(SearchError::NotFound.is_client_error());
    assert!(!SearchError::StoreUnavailable.is_client_error());
    assert!(store.get_by_id(999).is_none());
    assert!(store.get_snippet(999, 10).is_none());
}

#[test]
fn scenario_fallback_requires_every_token() {
    let store = store_of(vec![
        doc(1, "one", "a quick brown fox"),
        doc(2, "two", "a quick dog"),
        doc(3, "three", "a fox alone"),
    ]);
    let r = fallback_search(&store, "content", "quick fox", 1).unwrap();
    assert_eq!(r.total, 1);
    assert_eq!(ids(&r), vec![1]);
}

#[test]
fn page_lengths_follow_total() {
    let docs: Vec<Document> = (1..=45).map(|i| doc(i, "novel", "text")).collect();
    let store = store_of(docs);
    let lens: Vec<usize> = (1..=4)
        .map(|p| fallback_search(&store, "title", "novel", p).unwrap().records.len())
        .collect();
    assert_eq!(lens, vec![20, 20, 5, 0]);
    let third = fallback_search(&store, "title", "novel", 3).unwrap();
    assert_eq!(third.total, 45);
    assert_eq!(ids(&third), vec![41, 42, 43, 44, 45]);
    let far = fallback_search(&store, "title", "novel", u64::MAX).unwrap();
    assert_eq!(far.total, 45);
    assert!(far.records.is_empty());
}

#[test]
fn page_zero_and_blank_keyword_are_invalid() {
    let store = store_of(vec![doc(1, "a", "b")]);
    assert!(matches!(fallback_search(&store, "title", "a", 0), Err(SearchError::InvalidQuery)));
    assert!(matches!(fallback_search(&store, "title", "  \t ", 1), Err(SearchError::InvalidQuery)));
    assert!(matches!(plan_index_query("both", "", 1), Err(SearchError::InvalidQuery)));
    assert!(matches!(plan_index_query("both", "x", 0), Err(SearchError::InvalidQuery)));
}

#[test]
fn both_covers_title_and_content_matches() {
    let store = store_of(vec![
        doc(1, "Moon Song", "nothing here"),
        doc(2, "Other", "under the moon"),
        doc(3, "Sun", "day"),
    ]);
    let title = fallback_search(&store, "title", "moon", 1).unwrap();
    let content = fallback_search(&store, "content", "moon", 1).unwrap();
    let both = fallback_search(&store, "both", "moon", 1).unwrap();
    assert_eq!(ids(&title), vec![1]);
    assert_eq!(ids(&content), vec![2]);
    assert_eq!(ids(&both), vec![1, 2]);
    let split = fallback_search(&store, "both", "song under", 1).unwrap();
    assert_eq!(split.total, 0);
    let across = fallback_search(&store, "both", "moon day", 1).unwrap();
    assert_eq!(across.total, 0);
}

#[test]
fn snippet_keeps_whole_characters() {
    assert_eq!(snippet("你好世界", 2), "你好");
    assert_eq!(snippet("你好世界", 10), "你好世界");
    assert_eq!(snippet("", 5), "");
    assert_eq!(snippet("abc", 0), "");
    let long: String = std::iter::repeat("字").take(150).collect();
    let s = snippet(&long, 100);
    assert_eq!(s.chars().count(), 100);
    assert!(long.starts_with(&s));
}

#[test]
fn fallback_snippet_is_bounded() {
    let long: String = std::iter::repeat("é").take(130).collect();
    let store = store_of(vec![doc(7, "accent", &long)]);
    let r = fallback_search(&store, "title", "ACCENT", 1).unwrap();
    assert_eq!(r.records[0].snippet.chars().count(), 100);
    assert_eq!(store.get_snippet(7, 3).unwrap(), "ééé");
    assert_eq!(store.get_document(7).unwrap().content, long);
}

#[test]
fn equal_ranks_come_out_by_ascending_id() {
    let hit = |id: i64, rank: u32| IndexHit { id, rank, title: format!("t{}", id) };
    let input = vec![hit(5, 3), hit(2, 3), hit(7, 9), hit(9, 3), hit(1, 1)];
    let once: Vec<i64> = order_hits(input).iter().map(|h| h.id).collect();
    assert_eq!(once, vec![7, 2, 5, 9, 1]);
    let again: Vec<i64> =
        order_hits(vec![hit(9, 3), hit(1, 1), hit(2, 3), hit(7, 9), hit(5, 3)]).iter().map(|h| h.id).collect();
    assert_eq!(again, once);
    assert!(order_hits(Vec::new()).is_empty());
}

#[test]
fn indexed_page_drops_hits_missing_from_store() {
    let hit = |id: i64| IndexHit { id, rank: 1, title: format!("t{}", id) };
    let long: String = std::iter::repeat("x").take(120).collect();
    let fetched = vec![(hit(1), Some("first".to_string())), (hit(2), None), (hit(3), Some(long))];
    let r = assemble_indexed(12, 2, fetched);
    assert_eq!(r.total, 12);
    assert_eq!(r.page, 2);
    assert_eq!(r.page_size, 20);
    assert_eq!(ids(&r), vec![1, 3]);
    assert_eq!(r.records[0].snippet, "first");
    assert_eq!(r.records[1].title, "t3");
    assert_eq!(r.records[1].snippet.len(), 100);
}

#[test]
fn index_plan_fields_and_offset() {
    let q = plan_index_query("both", "river", 3).unwrap();
    assert_eq!(q.fields, vec![IndexedField::Title, IndexedField::Content]);
    assert_eq!(q.limit, 20);
    assert_eq!(q.offset, 40);
    assert_eq!(plan_index_query("title", "x", 1).unwrap().fields, vec![IndexedField::Title]);
    assert_eq!(fields_of(SearchTarget::Content), vec![IndexedField::Content]);
}

#[test]
fn page_arithmetic() {
    assert_eq!(page_offset(1), 0);
    assert_eq!(page_offset(2), 20);
    assert_eq!(page_offset(u64::MAX), u64::MAX);
    assert_eq!(page_window(45, 3), (40, 5));
    assert_eq!(page_window(45, 1), (0, 20));
    assert_eq!(page_window(45, 4).1, 0);
    assert_eq!(page_window(0, 1).1, 0);
}

#[test]
fn targets_parse_exactly() {
    assert_eq!(parse_target("title"), Ok(SearchTarget::Title));
    assert_eq!(parse_target("content"), Ok(SearchTarget::Content));
    assert_eq!(parse_target("both"), Ok(SearchTarget::Both));
    assert_eq!(parse_target("Title"), Err(SearchError::InvalidQuery));
    assert_eq!(parse_target(""), Err(SearchError::InvalidQuery));
}

#[test]
fn store_refuses_rows_out_of_order() {
    assert!(DocumentStore::from_rows(vec![doc(2, "a", "b"), doc(1, "c", "d")]).is_none());
    assert!(DocumentStore::from_rows(vec![doc(1, "a", "b"), doc(1, "c", "d")]).is_none());
    let s = DocumentStore::from_rows(Vec::new()).unwrap();
    assert_eq!(s.len(), 0);
    let found = store_of(vec![doc(1, "a", "b"), doc(4, "c", "d"), doc(9, "e", "f")]);
    assert_eq!(found.get_by_id(4).unwrap().title, "c");
    assert_eq!(found.get_by_id(9).unwrap().title, "e");
    assert!(found.get_by_id(5).is_none());
}

#[test]
fn tokens_and_substrings() {
    let toks = split_tokens(&chars_of("  quick \t fox\u{3000}狐狸 "));
    let words: Vec<String> = toks.iter().map(|t| t.iter().collect()).collect();
    assert_eq!(words, vec!["quick", "fox", "狐狸"]);
    assert!(split_tokens(&chars_of("   ")).is_empty());
    assert!(contains(&chars_of("The Fox"), &chars_of("fox")));
    assert!(contains(&chars_of("abc"), &chars_of("")));
    assert!(!contains(&chars_of("ab"), &chars_of("abc")));
    assert!(!contains(&chars_of("Été"), &chars_of("été")));
}

#[test]
fn both_searches_title_and_content_joined() {
    let store = store_of(vec![doc(1, "foxqu", "ick"), doc(2, "fox", "slow")]);
    let both = fallback_search(&store, "both", "quick fox", 1).unwrap();
    assert_eq!(both.total, 1);
    assert_eq!(ids(&both), vec![1]);
    assert_eq!(fallback_search(&store, "title", "quick fox", 1).unwrap().total, 0);
    assert_eq!(fallback_search(&store, "content", "quick fox", 1).unwrap().total, 0);
}

#[test]
fn equal_ranks_keep_id_order_across_pages() {
    let hit = |id: i64, rank: u32| IndexHit { id, rank, title: format!("t{}", id) };
    // 25 hits of one rank, handed over in descending id order.
    let candidates: Vec<IndexHit> = (1..=25).rev().map(|id| hit(id, 4)).collect();
    let first: Vec<i64> = select_page(candidates, 1).iter().map(|h| h.id).collect();
    assert_eq!(first, (1..=20).collect::<Vec<i64>>());
    let candidates: Vec<IndexHit> = (1..=25).rev().map(|id| hit(id, 4)).collect();
    let second: Vec<i64> = select_page(candidates, 2).iter().map(|h| h.id).collect();
    assert_eq!(second, vec![21, 22, 23, 24, 25]);
    let candidates: Vec<IndexHit> = vec![hit(3, 1), hit(8, 9), hit(2, 1)];
    let only: Vec<i64> = select_page(candidates, 1).iter().map(|h| h.id).collect();
    assert_eq!(only, vec![8, 2, 3]);
    assert!(select_page(vec![hit(1, 1)], 2).is_empty());
}

#[test]
fn indexed_page_holds_at_most_page_size_records() {
    let fetched: Vec<(IndexHit, Option<String>)> =
        (1..=30).map(|id| (IndexHit { id, rank: 1, title: "t".to_string() }, Some("c".to_string()))).collect();
    let r = assemble_indexed(30, 1, fetched);
    assert_eq!(r.records.len(), 20);
    assert_eq!(ids(&r), (1..=20).collect::<Vec<i64>>());
}
