//! The `/` search shared by the log and bookmarks tabs: the query, which
//! items match it, and how the selection moves between matches.
use vstd::prelude::*;

use crate::text::chars_of;
use crate::text::contains;
use crate::text::contains_sub;
use crate::text::trim;
use crate::text::trim_string;

verus! {

/// The lowercase of a text, as `str::to_lowercase` gives it (full Unicode
/// case mapping).
pub uninterp spec fn lowercase(s: Seq<char>) -> Seq<char>;

/// The lowercase of `s` (`str::to_lowercase`). The result is a function of
/// `s` alone, named [lowercase]; Unicode's case mapping is not stated.
#[verifier::external_body]
pub(crate) fn to_lowercase(s: &str) -> (res: String)
    ensures
        res@ == lowercase(s@),
{
    s.to_lowercase()
}

/// The active search query of a pane: none, or the query lowercased.
#[derive(Debug, Clone)]
pub struct SearchState {
    query: Option<String>,
}

impl View for SearchState {
    type V = Option<Seq<char>>;

    closed spec fn view(&self) -> Option<Seq<char>> {
        match self.query {
            Some(q) => Some(q@),
            None => None,
        }
    }
}

/// The query that raw input sets: none where the input is empty or white
/// space; else the input trimmed and lowercased.
pub open spec fn spec_query_of(input: Seq<char>) -> Option<Seq<char>> {
    if trim(input).len() == 0 {
        None
    } else {
        Some(lowercase(trim(input)))
    }
}

impl SearchState {
    /// No search in effect.
    pub fn new() -> (res: SearchState)
        ensures
            res@ is None,
    {
        SearchState { query: None }
    }

    /// Whether a search is in effect.
    pub fn is_active(&self) -> (res: bool)
        ensures
            res == self@ is Some,
    {
        self.query.is_some()
    }

    /// The active query, lowercased.
    pub fn query(&self) -> (res: Option<&str>)
        ensures
            match res {
                Some(q) => self@ == Some(q@),
                None => self@ is None,
            },
    {
        match &self.query {
            Some(q) => Some(q.as_str()),
            None => None,
        }
    }

    /// Set the query from raw input; an empty or white-space input clears
    /// the search.
    pub fn set_query(&mut self, query: &str)
        ensures
            final(self)@ == spec_query_of(query@),
    {
        let trimmed = trim_string(query);
        if trimmed.as_str().is_empty() {
            self.query = None;
        } else {
            self.query = Some(to_lowercase(trimmed.as_str()));
        }
    }

    /// Clear the search.
    pub fn clear(&mut self)
        ensures
            final(self)@ is None,
    {
        self.query = None;
    }
}

/// The positions, in order, of the texts that contain `q`.
pub open spec fn matching(texts: Seq<Seq<char>>, q: Seq<char>) -> Seq<usize>
    decreases texts.len(),
{
    if texts.len() == 0 {
        Seq::empty()
    } else if contains_sub(texts.last(), q) {
        matching(texts.drop_last(), q).push((texts.len() - 1) as usize)
    } else {
        matching(texts.drop_last(), q)
    }
}

/// The lowercase of each text.
pub open spec fn lowercases(texts: Seq<String>) -> Seq<Seq<char>> {
    texts.map_values(|t: String| lowercase(t@))
}

/// The positions of `items` whose displayed text contains `query` (already
/// lowercased), ignoring case; none for an empty query. `text_of` gives the
/// displayed text of an item.
pub fn match_indices<T, F: Fn(&T) -> String>(items: &[T], query: &str, text_of: F) -> (res: Vec<usize>)
    requires
        forall|i: int| 0 <= i < items@.len() ==> text_of.requires((&items@[i],)),
    ensures
        query@.len() == 0 ==> res@.len() == 0,
        query@.len() > 0 ==> exists|texts: Seq<String>|
            #![trigger lowercases(texts)]
            texts.len() == items@.len()
            && (forall|i: int| 0 <= i < texts.len() ==> text_of.ensures((&items@[i],), #[trigger] texts[i]))
            && res@ == matching(lowercases(texts), query@),
{
    let mut res: Vec<usize> = Vec::new();
    if query.is_empty() {
        return res;
    }
    let q = chars_of(query);
    let ghost mut texts: Seq<String> = Seq::empty();
    let mut i: usize = 0;
    while i < items.len()
        invariant
            i <= items@.len(),
            q@ == query@,
            texts.len() == i,
            forall|j: int| 0 <= j < items@.len() ==> text_of.requires((&items@[j],)),
            forall|j: int| 0 <= j < i ==> text_of.ensures((&items@[j],), #[trigger] texts[j]),
            res@ == matching(lowercases(texts), query@),
        decreases items@.len() - i,
    {
        let t = text_of(&items[i]);
        let lower = to_lowercase(t.as_str());
        let lc = chars_of(lower.as_str());
        let ghost old_texts = texts;
        proof {
            texts = texts.push(t);
            assert(lowercases(texts).drop_last() =~= lowercases(old_texts));
            assert(lowercases(texts).last() == lower@);
        }
        if contains(&lc, &q) {
            res.push(i);
        }
        i = i + 1;
    }
    res
}

/// The first position of `v` in `s`, or -1.
pub open spec fn first_pos(s: Seq<usize>, v: usize) -> int
    decreases s.len(),
{
    if s.len() == 0 {
        -1
    } else {
        let p = first_pos(s.drop_last(), v);
        if p >= 0 {
            p
        } else if s.last() == v {
            s.len() - 1
        } else {
            -1
        }
    }
}

/// Where `v` first stands in `s`: a position holding `v`, before which no
/// position holds it; or -1 where none holds it.
pub proof fn lemma_first_pos(s: Seq<usize>, v: usize)
    ensures
        -1 <= first_pos(s, v) < s.len(),
        first_pos(s, v) >= 0 ==> s[first_pos(s, v)] == v,
        forall|j: int| 0 <= j < s.len() && (first_pos(s, v) < 0 || j < first_pos(s, v)) ==> s[j] != v,
    decreases s.len(),
{
    if s.len() > 0 {
        lemma_first_pos(s.drop_last(), v);
        assert forall|j: int| 0 <= j < s.len() - 1 implies s.drop_last()[j] == s[j] by {}
    }
}

/// The first element of `s` greater than `v`.
pub open spec fn first_greater(s: Seq<usize>, v: usize) -> Option<usize>
    decreases s.len(),
{
    if s.len() == 0 {
        None
    } else {
        match first_greater(s.drop_last(), v) {
            Some(m) => Some(m),
            None => if s.last() > v { Some(s.last()) } else { None },
        }
    }
}

/// The first element of `s` at least `v`.
pub open spec fn first_at_least(s: Seq<usize>, v: usize) -> Option<usize>
    decreases s.len(),
{
    if s.len() == 0 {
        None
    } else {
        match first_at_least(s.drop_last(), v) {
            Some(m) => Some(m),
            None => if s.last() >= v { Some(s.last()) } else { None },
        }
    }
}

/// The last element of `s` less than `v`.
pub open spec fn last_less(s: Seq<usize>, v: usize) -> Option<usize>
    decreases s.len(),
{
    if s.len() == 0 {
        None
    } else if s.last() < v {
        Some(s.last())
    } else {
        last_less(s.drop_last(), v)
    }
}

/// The match that `n` (forward) or `N` (backward) moves to from `current`:
/// from a match, the next or previous one, wrapping around; from elsewhere,
/// the nearest in that direction, wrapping around; none without matches.
pub open spec fn spec_next_match(matches: Seq<usize>, current: usize, forward: bool) -> Option<usize> {
    if matches.len() == 0 {
        None
    } else {
        let pos = first_pos(matches, current);
        if pos >= 0 {
            if forward {
                Some(matches[(pos + 1) % (matches.len() as int)])
            } else {
                Some(matches[(pos + matches.len() - 1) % (matches.len() as int)])
            }
        } else if forward {
            match first_greater(matches, current) {
                Some(m) => Some(m),
                None => Some(matches[0]),
            }
        } else {
            match last_less(matches, current) {
                Some(m) => Some(m),
                None => Some(matches.last()),
            }
        }
    }
}

/// The match Enter jumps to: the first at or after `current`, wrapping to
/// the first match; none without matches.
pub open spec fn spec_first_match_at_or_after(matches: Seq<usize>, current: usize) -> Option<usize> {
    if matches.len() == 0 {
        None
    } else {
        match first_at_least(matches, current) {
            Some(m) => Some(m),
            None => Some(matches[0]),
        }
    }
}

/// The first position of `v` in `s`, or -1.
fn position_of(s: &[usize], v: usize) -> (res: i64)
    requires
        s@.len() < i64::MAX,
    ensures
        res == first_pos(s@, v),
{
    let mut i: usize = 0;
    let mut res: i64 = -1;
    while i < s.len()
        invariant
            i <= s@.len() < i64::MAX,
            res == first_pos(s@.take(i as int), v),
        decreases s@.len() - i,
    {
        proof {
            assert(s@.take(i + 1).drop_last() =~= s@.take(i as int));
        }
        if res < 0 && s[i] == v {
            res = i as i64;
        }
        i = i + 1;
    }
    proof {
        assert(s@.take(i as int) =~= s@);
    }
    res
}

/// The first element of `s` greater than `v`, or at least `v` where
/// `inclusive`.
fn find_after(s: &[usize], v: usize, inclusive: bool) -> (res: Option<usize>)
    ensures
        res == (if inclusive { first_at_least(s@, v) } else { first_greater(s@, v) }),
{
    let mut i: usize = 0;
    let mut res: Option<usize> = None;
    while i < s.len()
        invariant
            i <= s@.len(),
            res == (if inclusive { first_at_least(s@.take(i as int), v) } else { first_greater(s@.take(i as int), v) }),
        decreases s@.len() - i,
    {
        proof {
            assert(s@.take(i + 1).drop_last() =~= s@.take(i as int));
        }
        if res.is_none() && (s[i] > v || (inclusive && s[i] == v)) {
            res = Some(s[i]);
        }
        i = i + 1;
    }
    proof {
        assert(s@.take(i as int) =~= s@);
    }
    res
}

/// The last element of `s` less than `v`.
fn find_before(s: &[usize], v: usize) -> (res: Option<usize>)
    ensures
        res == last_less(s@, v),
{
    let mut i: usize = 0;
    let mut res: Option<usize> = None;
    while i < s.len()
        invariant
            i <= s@.len(),
            res == last_less(s@.take(i as int), v),
        decreases s@.len() - i,
    {
        proof {
            assert(s@.take(i + 1).drop_last() =~= s@.take(i as int));
        }
        if s[i] < v {
            res = Some(s[i]);
        }
        i = i + 1;
    }
    proof {
        assert(s@.take(i as int) =~= s@);
    }
    res
}

/// The match that `n` (forward) or `N` (backward) moves the selection to.
pub fn next_match_index(matches: &[usize], current: usize, forward: bool) -> (res: Option<usize>)
    requires
        matches@.len() < i64::MAX,
    ensures
        res == spec_next_match(matches@, current, forward),
{
    if matches.len() == 0 {
        return None;
    }
    let pos = position_of(matches, current);
    proof {
        lemma_first_pos(matches@, current);
    }
    if pos >= 0 {
        let p = pos as usize;
        let len = matches.len();
        let next = if forward {
            if p + 1 == len { 0 } else { p + 1 }
        } else {
            if p == 0 { len - 1 } else { p - 1 }
        };
        proof {
            if forward {
                if p + 1 == len {
                    assert((pos + 1) % (len as int) == 0) by (nonlinear_arith)
                        requires pos + 1 == len, len > 0;
                } else {
                    assert((pos + 1) % (len as int) == pos + 1) by (nonlinear_arith)
                        requires 0 <= pos + 1 < len;
                }
            } else {
                if p == 0 {
                    assert((pos + len - 1) % (len as int) == len - 1) by (nonlinear_arith)
                        requires pos == 0, len > 0;
                } else {
                    assert((pos + len - 1) % (len as int) == pos - 1) by (nonlinear_arith)
                        requires 0 < pos < len;
                }
            }
        }
        Some(matches[next])
    } else if forward {
        match find_after(matches, current, false) {
            Some(m) => Some(m),
            None => Some(matches[0]),
        }
    } else {
        match find_before(matches, current) {
            Some(m) => Some(m),
            None => Some(matches[matches.len() - 1]),
        }
    }
}

/// The match Enter jumps to: the first at or after `current`, wrapping.
pub fn first_match_index_at_or_after(matches: &[usize], current: usize) -> (res: Option<usize>)
    ensures
        res == spec_first_match_at_or_after(matches@, current),
{
    if matches.len() == 0 {
        return None;
    }
    match find_after(matches, current, true) {
        Some(m) => Some(m),
        None => Some(matches[0]),
    }
}

/// Whether the positions of `s` are in strictly increasing order.
pub open spec fn increasing(s: Seq<usize>) -> bool {
    forall|i: int, j: int| 0 <= i < j < s.len() ==> s[i] < s[j]
}

/// What the helpers pick is an element of the sequence.
proof fn lemma_picks_are_elements(s: Seq<usize>, v: usize)
    ensures
        first_greater(s, v) matches Some(m) ==> s.contains(m) && m > v,
        first_at_least(s, v) matches Some(m) ==> s.contains(m) && m >= v,
        last_less(s, v) matches Some(m) ==> s.contains(m) && m < v,
    decreases s.len(),
{
    if s.len() > 0 {
        lemma_picks_are_elements(s.drop_last(), v);
        assert(s[s.len() - 1] == s.last());
        if let Some(m) = first_greater(s.drop_last(), v) {
            let k = choose|k: int| 0 <= k < s.drop_last().len() && s.drop_last()[k] == m;
            assert(s[k] == m);
        }
        if let Some(m) = first_at_least(s.drop_last(), v) {
            let k = choose|k: int| 0 <= k < s.drop_last().len() && s.drop_last()[k] == m;
            assert(s[k] == m);
        }
        if s.last() >= v {
            if let Some(m) = last_less(s.drop_last(), v) {
                let k = choose|k: int| 0 <= k < s.drop_last().len() && s.drop_last()[k] == m;
                assert(s[k] == m);
            }
        }
    }
}

/// In an increasing sequence, the first position of an element is where it
/// stands.
proof fn lemma_first_pos_increasing(s: Seq<usize>, k: int)
    requires
        increasing(s),
        0 <= k < s.len(),
    ensures
        first_pos(s, s[k]) == k,
{
    lemma_first_pos(s, s[k]);
}

/// `n` and `N` land on a match whenever there is one, and on nothing
/// otherwise.
pub proof fn lemma_next_match_is_a_match(matches: Seq<usize>, current: usize, forward: bool)
    ensures
        matches.len() == 0 <==> spec_next_match(matches, current, forward) is None,
        spec_next_match(matches, current, forward) matches Some(m) ==> matches.contains(m),
{
    lemma_first_pos(matches, current);
    lemma_picks_are_elements(matches, current);
    if matches.len() > 0 {
        let pos = first_pos(matches, current);
        let len = matches.len() as int;
        if pos >= 0 {
            assert(0 <= (pos + 1) % len < len) by (nonlinear_arith) requires len > 0;
            assert(0 <= (pos + len - 1) % len < len) by (nonlinear_arith) requires len > 0;
            assert(matches[(pos + 1) % len] == matches[(pos + 1) % len]);
        } else {
            assert(matches[0] == matches[0]);
            assert(matches[len - 1] == matches.last());
        }
    }
}

/// On a match of an increasing list, `n` then `N` (or `N` then `n`) comes
/// back to it.
pub proof fn lemma_next_then_back(matches: Seq<usize>, k: int, forward: bool)
    requires
        increasing(matches),
        0 <= k < matches.len(),
    ensures
        spec_next_match(matches, matches[k], forward) matches Some(m)
            && spec_next_match(matches, m, !forward) == Some(matches[k]),
{
    let len = matches.len() as int;
    lemma_first_pos_increasing(matches, k);
    if forward {
        let k2 = (k + 1) % len;
        assert(0 <= k2 < len) by (nonlinear_arith) requires len > 0, k2 == (k + 1) % len;
        assert((k2 + len - 1) % len == k) by (nonlinear_arith)
            requires 0 <= k < len, k2 == (k + 1) % len;
        lemma_first_pos_increasing(matches, k2);
    } else {
        let k2 = (k + len - 1) % len;
        assert(0 <= k2 < len) by (nonlinear_arith) requires len > 0, k2 == (k + len - 1) % len;
        assert((k2 + 1) % len == k) by (nonlinear_arith)
            requires 0 <= k < len, k2 == (k + len - 1) % len;
        lemma_first_pos_increasing(matches, k2);
    }
}

/// The first position of an increasing sequence whose element is at least
/// `v`: its element is what [first_at_least] picks.
proof fn lemma_first_at_least_increasing(s: Seq<usize>, v: usize, k: int)
    requires
        increasing(s),
        0 <= k < s.len(),
        s[k] >= v,
        forall|j: int| 0 <= j < k ==> s[j] < v,
    ensures
        first_at_least(s, v) == Some(s[k]),
    decreases s.len(),
{
    if k < s.len() - 1 {
        let t = s.drop_last();
        assert(increasing(t));
        assert(t[k] == s[k]);
        assert forall|j: int| 0 <= j < k implies t[j] < v by {
            assert(t[j] == s[j]);
        }
        lemma_first_at_least_increasing(t, v, k);
    } else {
        assert(first_at_least(s.drop_last(), v) is None) by {
            lemma_picks_are_elements(s.drop_last(), v);
            if let Some(m) = first_at_least(s.drop_last(), v) {
                let j = choose|j: int| 0 <= j < s.drop_last().len() && s.drop_last()[j] == m;
                assert(s[j] == m);
            }
        }
    }
}

/// Enter stays on the selection when it is a match of an increasing list,
/// and otherwise lands on a match at or after it, or wraps to the first.
pub proof fn lemma_first_match_at_or_after(matches: Seq<usize>, current: usize)
    requires
        increasing(matches),
    ensures
        matches.contains(current) ==> spec_first_match_at_or_after(matches, current) == Some(current),
        spec_first_match_at_or_after(matches, current) matches Some(m) ==> matches.contains(m)
            && (m >= current || m == matches[0]),
        matches.len() == 0 <==> spec_first_match_at_or_after(matches, current) is None,
{
    lemma_picks_are_elements(matches, current);
    if matches.contains(current) {
        let k = choose|k: int| 0 <= k < matches.len() && matches[k] == current;
        lemma_first_at_least_increasing(matches, current, k);
    }
    if matches.len() > 0 {
        assert(matches[0] == matches[0]);
    }
}

/// Where `v` is not an element, the first element at least `v` is the first
/// greater than it.
proof fn lemma_at_least_is_greater(s: Seq<usize>, v: usize)
    requires
        !s.contains(v),
    ensures
        first_at_least(s, v) == first_greater(s, v),
    decreases s.len(),
{
    if s.len() > 0 {
        assert(!s.drop_last().contains(v)) by {
            if s.drop_last().contains(v) {
                let k = choose|k: int| 0 <= k < s.drop_last().len() && s.drop_last()[k] == v;
                assert(s[k] == v);
            }
        }
        assert(s[s.len() - 1] == s.last());
        lemma_at_least_is_greater(s.drop_last(), v);
    }
}

/// In an increasing sequence, [first_at_least] finds an element wherever
/// one is at least `v`, and the one it finds is the least of them.
proof fn lemma_first_at_least_least(s: Seq<usize>, v: usize)
    requires
        increasing(s),
    ensures
        (exists|j: int| 0 <= j < s.len() && s[j] >= v) ==> first_at_least(s, v) is Some,
        first_at_least(s, v) matches Some(m) ==> forall|j: int| 0 <= j < s.len() && s[j] >= v ==> m <= s[j],
    decreases s.len(),
{
    if s.len() > 0 {
        let t = s.drop_last();
        assert(increasing(t));
        lemma_first_at_least_least(t, v);
        lemma_picks_are_elements(t, v);
        assert(s[s.len() - 1] == s.last());
        assert forall|j: int| 0 <= j < t.len() implies t[j] == s[j] by {}
        if exists|j: int| 0 <= j < s.len() && s[j] >= v {
            let j = choose|j: int| 0 <= j < s.len() && s[j] >= v;
            if j < s.len() - 1 {
                assert(t[j] >= v);
            }
        }
        if let Some(m) = first_at_least(s, v) {
            assert forall|j: int| 0 <= j < s.len() && s[j] >= v implies m <= s[j] by {
                if let Some(mt) = first_at_least(t, v) {
                    let k = choose|k: int| 0 <= k < t.len() && t[k] == mt;
                    assert(s[k] < s[s.len() - 1]);
                } else {
                    if j < s.len() - 1 {
                        assert(t[j] >= v);
                    }
                }
            }
        }
    }
}

/// On an increasing list of matches, Enter lands on the least match at or
/// after the selection, or wraps to the first match where none is; and
/// where the selection is not a match, it lands where `n` would.
pub proof fn lemma_first_match_is_least(matches: Seq<usize>, current: usize)
    requires
        increasing(matches),
    ensures
        (exists|j: int| 0 <= j < matches.len() && matches[j] >= current) ==> (
            spec_first_match_at_or_after(matches, current) matches Some(m) && m >= current
                && matches.contains(m)
                && forall|j: int| 0 <= j < matches.len() && matches[j] >= current ==> m <= matches[j]),
        matches.len() > 0 && (forall|j: int| 0 <= j < matches.len() ==> matches[j] < current)
            ==> spec_first_match_at_or_after(matches, current) == Some(matches[0]),
        !matches.contains(current) ==> spec_first_match_at_or_after(matches, current) == spec_next_match(matches, current, true),
{
    lemma_first_at_least_least(matches, current);
    lemma_picks_are_elements(matches, current);
    lemma_first_pos(matches, current);
    if first_at_least(matches, current) is Some {
        let m = first_at_least(matches, current).unwrap();
        let k = choose|k: int| 0 <= k < matches.len() && matches[k] == m;
    }
    if !matches.contains(current) {
        lemma_at_least_is_greater(matches, current);
        if first_pos(matches, current) >= 0 {
            assert(matches[first_pos(matches, current)] == current);
        }
    }
}

/// The matches of a search are increasing positions of the texts.
pub proof fn lemma_matching_increasing(texts: Seq<Seq<char>>, q: Seq<char>)
    requires
        texts.len() <= usize::MAX,
    ensures
        increasing(matching(texts, q)),
        forall|i: int| 0 <= i < matching(texts, q).len() ==> #[trigger] matching(texts, q)[i] < texts.len(),
    decreases texts.len(),
{
    if texts.len() > 0 {
        lemma_matching_increasing(texts.drop_last(), q);
        let prev = matching(texts.drop_last(), q);
        if contains_sub(texts.last(), q) {
            let cur = prev.push((texts.len() - 1) as usize);
            assert forall|i: int, j: int| 0 <= i < j < cur.len() implies cur[i] < cur[j] by {
                if j == cur.len() - 1 {
                    assert(prev[i] < texts.drop_last().len());
                } else {
                    assert(prev[i] < prev[j]);
                }
            }
            assert forall|i: int| 0 <= i < cur.len() implies #[trigger] cur[i] < texts.len() by {
                if i < cur.len() - 1 {
                    assert(prev[i] < texts.drop_last().len());
                }
            }
        }
    }
}

/// There are no more matches than texts.
pub proof fn lemma_matching_len(texts: Seq<Seq<char>>, q: Seq<char>)
    ensures
        matching(texts, q).len() <= texts.len(),
    decreases texts.len(),
{
    if texts.len() > 0 {
        lemma_matching_len(texts.drop_last(), q);
    }
}

} // verus!
