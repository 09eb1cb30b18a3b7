//! The indexed search path: ordering the hits that the index returns and
//! joining them with previews from the document store.
use vstd::prelude::*;
use vstd::multiset::Multiset;
use vstd::relations::{sorted_by, total_ordering};
use crate::model::{hit_model, IndexHit, PagedResult, SearchHit, PAGE_SIZE, SNIPPET_CHARS};
use crate::query::{page_start, page_window, window_len};
use crate::text::{prefix_chars, snippet};

verus! {

broadcast use vstd::seq_lib::group_to_multiset_ensures;

/// What orders a hit: its rank, then its id.
pub open spec fn hit_key(h: IndexHit) -> (u32, i64) {
    (h.rank, h.id)
}

/// `a` comes no later than `b`: a higher rank first, and on equal rank the lower id.
pub open spec fn key_leq(a: (u32, i64), b: (u32, i64)) -> bool {
    a.0 > b.0 || (a.0 == b.0 && a.1 <= b.1)
}

/// The keys of a sequence of hits, in order.
pub open spec fn keys_of(hits: Seq<IndexHit>) -> Seq<(u32, i64)> {
    hits.map_values(|h: IndexHit| hit_key(h))
}

/// `out` holds the hits of `hits`, each as often, by descending rank and
/// ascending id among equal ranks.
pub open spec fn ordered_hits(hits: Seq<IndexHit>, out: Seq<IndexHit>) -> bool {
    &&& out.to_multiset() == hits.to_multiset()
    &&& keys_of(out).to_multiset() == keys_of(hits).to_multiset()
    &&& sorted_by(keys_of(out), |a: (u32, i64), b: (u32, i64)| key_leq(a, b))
}

/// Puts hits in result order: best rank first, and hits of equal rank by
/// ascending id, so that equal ranks come out the same way on every call.
pub fn order_hits(hits: Vec<IndexHit>) -> (r: Vec<IndexHit>)
    ensures
        ordered_hits(hits@, r@),
{
    let ghost input = hits@;
    let mut rest = hits;
    let mut out: Vec<IndexHit> = Vec::new();
    let ghost leq = |a: (u32, i64), b: (u32, i64)| key_leq(a, b);
    while rest.len() > 0
        invariant
            leq == (|a: (u32, i64), b: (u32, i64)| key_leq(a, b)),
            out@.to_multiset().add(rest@.to_multiset()) == input.to_multiset(),
            keys_of(out@).to_multiset().add(keys_of(rest@).to_multiset()) == keys_of(input).to_multiset(),
            sorted_by(keys_of(out@), leq),
        decreases rest.len(),
    {
        let ghost before = rest@;
        let h = rest.pop().unwrap();
        proof {
            assert(before =~= rest@.push(h));
            assert(keys_of(before) =~= keys_of(rest@).push(hit_key(h)));
        }
        let mut p: usize = 0;
        while p < out.len() && !(h.rank > out[p].rank || (h.rank == out[p].rank && h.id < out[p].id))
            invariant
                p <= out.len(),
                forall|q: int| 0 <= q < p ==> key_leq(hit_key(#[trigger] out@[q]), hit_key(h)),
            decreases out.len() - p,
        {
            p = p + 1;
        }
        let ghost old_out = out@;
        out.insert(p, h);
        proof {
            assert(keys_of(out@) =~= keys_of(old_out).insert(p as int, hit_key(h)));
            assert(out@.to_multiset().add(rest@.to_multiset()) =~= input.to_multiset());
            assert(keys_of(out@).to_multiset().add(keys_of(rest@).to_multiset())
                =~= keys_of(input).to_multiset());
            assert forall|i: int, j: int| 0 <= i < j < out@.len() implies #[trigger] leq(
                keys_of(out@)[i],
                keys_of(out@)[j],
            ) by {
                if i < p && j == p {
                } else if i == p && j > p {
                    assert(leq(keys_of(old_out)[p as int], keys_of(old_out)[j - 1]) || j - 1 == p);
                } else if i < p && j > p {
                    assert(leq(keys_of(old_out)[i], keys_of(old_out)[j - 1]));
                } else if i > p {
                    assert(leq(keys_of(old_out)[i - 1], keys_of(old_out)[j - 1]));
                } else {
                    assert(leq(keys_of(old_out)[i], keys_of(old_out)[j]));
                }
            }
        }
    }
    proof {
        assert(rest@.to_multiset() =~= Multiset::empty());
        assert(keys_of(rest@).to_multiset() =~= Multiset::empty());
        assert(out@.to_multiset() =~= input.to_multiset());
        assert(keys_of(out@).to_multiset() =~= keys_of(input).to_multiset());
    }
    out
}

/// Hits of equal key multisets come out in one and the same key order: a
/// repeated query lists equally ranked documents the same way, by ascending id.
pub proof fn lemma_hit_order_deterministic(
    a: Seq<IndexHit>,
    b: Seq<IndexHit>,
    ra: Seq<IndexHit>,
    rb: Seq<IndexHit>,
)
    requires
        keys_of(a).to_multiset() == keys_of(b).to_multiset(),
        ordered_hits(a, ra),
        ordered_hits(b, rb),
    ensures
        keys_of(ra) == keys_of(rb),
{
    let leq = |x: (u32, i64), y: (u32, i64)| key_leq(x, y);
    assert(total_ordering(leq));
    vstd::seq_lib::lemma_sorted_unique(keys_of(ra), keys_of(rb), leq);
}

/// The hits of page `page`: all of `candidates` put in result order (rank
/// descending, id ascending), then the window of that page cut from them. Given
/// every match as candidates, a page boundary never splits equal ranks out of
/// id order.
pub fn select_page(candidates: Vec<IndexHit>, page: u64) -> (r: Vec<IndexHit>)
    requires
        page >= 1,
    ensures
        r.len() == window_len(candidates.len() as int, page as int),
        r.len() <= PAGE_SIZE,
        exists|o: Seq<IndexHit>|
            ordered_hits(candidates@, o) && forall|k: int|
                0 <= k < r.len() ==> #[trigger] r@[k] == o[page_start(page as int) + k],
{
    let ghost input = candidates@;
    let mut o = order_hits(candidates);
    let ghost all = o@;
    assert(o@.len() == input.len()) by {
        assert(o@.to_multiset().len() == input.to_multiset().len());
    }
    let (start, n) = page_window(o.len() as u64, page);
    if n == 0 {
        assert(ordered_hits(input, all));
        return Vec::new();
    }
    o.truncate((start + n) as usize);
    let r = o.split_off(start as usize);
    assert forall|k: int| 0 <= k < r.len() implies #[trigger] r@[k] == all[page_start(page as int) + k] by {}
    r
}

/// The records that the hits of `fetched` give, in order: a hit whose
/// document the store no longer holds (`None`) is left out.
pub open spec fn enriched(fetched: Seq<(IndexHit, Option<String>)>) -> Seq<(i64, Seq<char>, Seq<char>)>
    decreases fetched.len(),
{
    if fetched.len() == 0 {
        Seq::empty()
    } else {
        let prev = enriched(fetched.drop_last());
        let (h, c) = fetched.last();
        match c {
            Some(content) => prev.push((h.id, h.title@, prefix_chars(content@, SNIPPET_CHARS as nat))),
            None => prev,
        }
    }
}

/// Builds page `page` of an indexed search from the hits that the index gave
/// for it, each with the content the store holds for it, and the index's count
/// of all matches. Hits missing from the store are dropped, not reported, and
/// no more than a page's worth of hits is read.
pub fn assemble_indexed(total: u64, page: u64, fetched: Vec<(IndexHit, Option<String>)>) -> (r: PagedResult)
    ensures
        r.total == total,
        r.page == page,
        r.page_size == PAGE_SIZE,
        r.records.len() <= PAGE_SIZE,
        fetched.len() <= PAGE_SIZE ==> r.records@.map_values(|h: SearchHit| hit_model(h))
            == enriched(fetched@),
        fetched.len() > PAGE_SIZE ==> r.records@.map_values(|h: SearchHit| hit_model(h))
            == enriched(fetched@.take(PAGE_SIZE as int)),
{
    let mut records: Vec<SearchHit> = Vec::new();
    let mut i: usize = 0;
    let limit: usize = if fetched.len() < PAGE_SIZE as usize { fetched.len() } else { PAGE_SIZE as usize };
    while i < limit
        invariant
            limit <= fetched.len(),
            limit <= PAGE_SIZE,
            i <= limit,
            records.len() <= i,
            records@.map_values(|h: SearchHit| hit_model(h)) == enriched(fetched@.take(i as int)),
        decreases fetched.len() - i,
    {
        let ghost prev = records@;
        assert(fetched@.take(i + 1).drop_last() =~= fetched@.take(i as int));
        assert(fetched@.take(i + 1).last() == fetched@[i as int]);
        let h = &fetched[i].0;
        match &fetched[i].1 {
            Some(content) => {
                records.push(SearchHit {
                    id: h.id,
                    title: h.title.clone(),
                    snippet: snippet(content.as_str(), SNIPPET_CHARS),
                });
                assert(records@.map_values(|h: SearchHit| hit_model(h)) =~= prev.map_values(
                    |h: SearchHit| hit_model(h),
                ).push(hit_model(records@.last())));
            },
            None => {},
        }
        i = i + 1;
    }
    assert(fetched@.take(fetched.len() as int) =~= fetched@);
    PagedResult { total, page, page_size: PAGE_SIZE, records }
}

} // verus!
