//! Character-level text operations: snippets, whitespace tokens and
//! substring tests, all stated over sequences of Unicode scalar values.
use vstd::prelude::*;
use vstd::string::StrSliceExecFns;

verus! {

broadcast use vstd::string::axiom_spec_iter;

/// The prefix of `s` of at most `max_chars` characters.
pub open spec fn prefix_chars(s: Seq<char>, max_chars: nat) -> Seq<char> {
    if s.len() <= max_chars {
        s
    } else {
        s.take(max_chars as int)
    }
}

/// The characters of `s`, one element each.
pub fn chars_of(s: &str) -> (r: Vec<char>)
    ensures
        r@ == s@,
{
    let mut out: Vec<char> = Vec::new();
    for c in it: s.chars()
        invariant
            it.seq() == s@,
            out@ == s@.take(it.index() as int),
    {
        out.push(c);
        assert(out@ =~= s@.take(it.index() + 1));
    }
    assert(s@.take(s@.len() as int) =~= s@);
    out
}

/// A preview of `content`: its first `max_chars` characters, or all of it
/// when it is shorter. The cut is made between characters, never inside one.
pub fn snippet(content: &str, max_chars: usize) -> (r: String)
    ensures
        r@ == prefix_chars(content@, max_chars as nat),
        r@.len() <= max_chars,
        r@ == content@.take(r@.len() as int),
{
    let len = content.unicode_len();
    let n: usize = if len <= max_chars { len } else { max_chars };
    let part = content.substring_char(0, n);
    let r = String::from_str(part);
    assert(content@.len() <= max_chars ==> content@.subrange(0, n as int) =~= content@);
    r
}

/// The characters that separate keyword tokens: the Unicode `White_Space` set.
pub open spec fn is_space_spec(c: char) -> bool {
    ('\u{9}' <= c && c <= '\u{d}') || c == ' ' || c == '\u{85}' || c == '\u{a0}'
        || c == '\u{1680}' || ('\u{2000}' <= c && c <= '\u{200a}') || c == '\u{2028}'
        || c == '\u{2029}' || c == '\u{202f}' || c == '\u{205f}' || c == '\u{3000}'
}

/// Whether `c` separates keyword tokens.
#[verifier::when_used_as_spec(is_space_spec)]
pub fn is_space(c: char) -> (r: bool)
    ensures
        r == is_space_spec(c),
{
    ('\u{9}' <= c && c <= '\u{d}') || c == ' ' || c == '\u{85}' || c == '\u{a0}'
        || c == '\u{1680}' || ('\u{2000}' <= c && c <= '\u{200a}') || c == '\u{2028}'
        || c == '\u{2029}' || c == '\u{202f}' || c == '\u{205f}' || c == '\u{3000}'
}

/// The word being read, as a list of zero or one finished tokens.
pub open spec fn flush(cur: Seq<char>) -> Seq<Seq<char>> {
    if cur.len() == 0 {
        Seq::empty()
    } else {
        seq![cur]
    }
}

/// The tokens of `s` when the word read so far is `cur`.
pub open spec fn tokens_from(s: Seq<char>, cur: Seq<char>) -> Seq<Seq<char>>
    decreases s.len(),
{
    if s.len() == 0 {
        flush(cur)
    } else if is_space_spec(s[0]) {
        flush(cur) + tokens_from(s.drop_first(), Seq::empty())
    } else {
        tokens_from(s.drop_first(), cur.push(s[0]))
    }
}

/// The maximal runs of non-space characters of `s`, in order.
pub open spec fn tokens_of(s: Seq<char>) -> Seq<Seq<char>> {
    tokens_from(s, Seq::empty())
}

/// Splits `s` into its whitespace-separated tokens.
pub fn split_tokens(s: &Vec<char>) -> (r: Vec<Vec<char>>)
    ensures
        r.len() == tokens_of(s@).len(),
        forall|k: int| 0 <= k < r.len() ==> #[trigger] r[k]@ == tokens_of(s@)[k],
{
    let mut out: Vec<Vec<char>> = Vec::new();
    let mut cur: Vec<char> = Vec::new();
    let ghost done: Seq<Seq<char>> = Seq::empty();
    let mut i: usize = 0;
    assert(s@.skip(0) =~= s@);
    assert(done + tokens_from(s@, cur@) =~= tokens_of(s@));
    while i < s.len()
        invariant
            i <= s.len(),
            out.len() == done.len(),
            forall|k: int| 0 <= k < out.len() ==> #[trigger] out[k]@ == done[k],
            done + tokens_from(s@.skip(i as int), cur@) == tokens_of(s@),
        decreases s.len() - i,
    {
        let c = s[i];
        let ghost rest = s@.skip(i as int);
        let ghost cv = cur@;
        let ghost old_done = done;
        assert(rest.drop_first() =~= s@.skip(i + 1));
        assert(rest[0] == c);
        if is_space(c) {
            if cur.len() > 0 {
                proof {
                    done = done.push(cur@);
                }
                out.push(cur);
                cur = Vec::new();
            }
            assert(tokens_from(rest, cv) == flush(cv) + tokens_from(s@.skip(i + 1), Seq::empty()));
            assert(cur@ =~= Seq::<char>::empty());
            assert(old_done + flush(cv) =~= done);
            assert(old_done + (flush(cv) + tokens_from(s@.skip(i + 1), Seq::empty()))
                =~= done + tokens_from(s@.skip(i + 1), Seq::empty()));
        } else {
            cur.push(c);
            assert(cur@ =~= cv.push(c));
            assert(tokens_from(rest, cv) == tokens_from(s@.skip(i + 1), cur@));
        }
        i = i + 1;
    }
    assert(s@.skip(i as int) =~= Seq::<char>::empty());
    if cur.len() > 0 {
        proof {
            done = done.push(cur@);
        }
        out.push(cur);
    }
    assert(done =~= tokens_of(s@));
    out
}

/// The code of `c` with ASCII capitals taken to small letters; matching
/// ignores ASCII case and compares every other character exactly.
pub open spec fn fold_spec(c: char) -> u32 {
    if 'A' <= c && c <= 'Z' {
        (c as u32 + 32) as u32
    } else {
        c as u32
    }
}

/// The code of `c` with ASCII capitals taken to small letters.
#[verifier::when_used_as_spec(fold_spec)]
pub fn fold(c: char) -> (r: u32)
    ensures
        r == fold_spec(c),
{
    if 'A' <= c && c <= 'Z' {
        c as u32 + 32
    } else {
        c as u32
    }
}

/// `needle` occurs in `hay` starting at position `i`, ignoring ASCII case.
pub open spec fn occurs_at(hay: Seq<char>, needle: Seq<char>, i: int) -> bool {
    &&& 0 <= i
    &&& i + needle.len() <= hay.len()
    &&& forall|k: int| 0 <= k < needle.len() ==> fold_spec(#[trigger] hay[i + k]) == fold_spec(needle[k])
}

/// `needle` occurs somewhere in `hay`, ignoring ASCII case; the empty needle
/// occurs in every text.
pub open spec fn has_substring(hay: Seq<char>, needle: Seq<char>) -> bool {
    exists|i: int| occurs_at(hay, needle, i)
}

/// Whether `needle` occurs at position `i` of `hay`.
fn matches_at(hay: &Vec<char>, needle: &Vec<char>, i: usize) -> (r: bool)
    requires
        i + needle.len() <= hay.len(),
    ensures
        r == occurs_at(hay@, needle@, i as int),
{
    let mut j: usize = 0;
    while j < needle.len()
        invariant
            j <= needle.len(),
            i + needle.len() <= hay.len(),
            forall|k: int| 0 <= k < j ==> fold_spec(#[trigger] hay@[i + k]) == fold_spec(needle@[k]),
        decreases needle.len() - j,
    {
        if fold(hay[i + j]) != fold(needle[j]) {
            assert(fold_spec(hay@[i + j]) != fold_spec(needle@[j as int]));
            return false;
        }
        j = j + 1;
    }
    true
}

/// A text found in either part of a joined text is found in the whole.
pub proof fn lemma_substring_of_concat(a: Seq<char>, b: Seq<char>, needle: Seq<char>)
    ensures
        has_substring(a, needle) ==> has_substring(a + b, needle),
        has_substring(b, needle) ==> has_substring(a + b, needle),
{
    if has_substring(a, needle) {
        let i = choose|i: int| occurs_at(a, needle, i);
        assert forall|k: int| 0 <= k < needle.len() implies fold_spec(#[trigger] (a + b)[i + k]) == fold_spec(needle[k]) by {
            assert(fold_spec(a[i + k]) == fold_spec(needle[k]));
        }
        assert(occurs_at(a + b, needle, i));
    }
    if has_substring(b, needle) {
        let i = choose|i: int| occurs_at(b, needle, i);
        let j = i + a.len();
        assert forall|k: int| 0 <= k < needle.len() implies fold_spec(#[trigger] (a + b)[j + k]) == fold_spec(needle[k]) by {
            assert(fold_spec(b[i + k]) == fold_spec(needle[k]));
        }
        assert(occurs_at(a + b, needle, j));
    }
}

/// The characters of `a` followed by those of `b`.
pub fn concat_chars(a: &Vec<char>, b: &Vec<char>) -> (r: Vec<char>)
    ensures
        r@ == a@ + b@,
{
    let mut r: Vec<char> = Vec::new();
    let mut i: usize = 0;
    while i < a.len()
        invariant
            i <= a.len(),
            r@ == a@.take(i as int),
        decreases a.len() - i,
    {
        r.push(a[i]);
        i = i + 1;
        assert(r@ =~= a@.take(i as int));
    }
    assert(a@.take(a.len() as int) =~= a@);
    let mut j: usize = 0;
    while j < b.len()
        invariant
            j <= b.len(),
            r@ == a@ + b@.take(j as int),
        decreases b.len() - j,
    {
        r.push(b[j]);
        j = j + 1;
        assert(r@ =~= a@ + b@.take(j as int));
    }
    assert(b@.take(b.len() as int) =~= b@);
    r
}

/// Whether `needle` occurs anywhere in `hay`.
pub fn contains(hay: &Vec<char>, needle: &Vec<char>) -> (r: bool)
    ensures
        r == has_substring(hay@, needle@),
{
    if needle.len() > hay.len() {
        return false;
    }
    let last = hay.len() - needle.len();
    let mut i: usize = 0;
    while i <= last
        invariant
            last + needle.len() == hay.len(),
            forall|k: int| 0 <= k < i ==> !occurs_at(hay@, needle@, k),
        decreases last + 1 - i,
    {
        if matches_at(hay, needle, i) {
            return true;
        }
        if i == last {
            return false;
        }
        i = i + 1;
    }
    false
}

} // verus!
