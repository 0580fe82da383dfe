//! Character-level helpers shared by the parsers and formatters of the crate.
use vstd::prelude::*;
use vstd::std_specs::iter::IteratorSpec;

verus! {

broadcast use vstd::string::group_string_axioms;

/// Appends one character to a `String` (std's `String::push`).
pub assume_specification[ String::push ](s: &mut String, ch: char)
    ensures
        final(s)@ == old(s)@.push(ch),
;

/// Appends a string slice to a `String` (std's `String::push_str`).
pub assume_specification[ String::push_str ](s: &mut String, other: &str)
    ensures
        final(s)@ == old(s)@ + other@,
;

/// The characters of `s`, in order.
pub fn chars_of(s: &str) -> (res: Vec<char>)
    ensures
        res@ == s@,
{
    let mut res: Vec<char> = Vec::new();
    let mut it = s.chars();
    loop
        invariant
            res@ + it.remaining() == s@,
            it.decrease() is Some,
        ensures
            res@ == s@,
        decreases it.decrease()->0,
    {
        match it.next() {
            Some(c) => {
                res.push(c);
            },
            None => {
                break;
            },
        }
    }
    res
}

/// Unicode `White_Space` property, as used by `char::is_whitespace`,
/// `str::trim` and `str::split_whitespace`.
pub open spec fn is_ws(c: char) -> bool {
    ||| ('\u{9}' <= c && c <= '\u{d}')
    ||| c == ' '
    ||| c == '\u{85}'
    ||| c == '\u{a0}'
    ||| c == '\u{1680}'
    ||| ('\u{2000}' <= c && c <= '\u{200a}')
    ||| c == '\u{2028}'
    ||| c == '\u{2029}'
    ||| c == '\u{202f}'
    ||| c == '\u{205f}'
    ||| c == '\u{3000}'
}

/// Whether `c` is white space in the Unicode sense.
pub fn is_whitespace(c: char) -> (res: bool)
    ensures
        res == is_ws(c),
{
    ('\u{9}' <= c && c <= '\u{d}') || c == ' ' || c == '\u{85}' || c == '\u{a0}'
        || c == '\u{1680}' || ('\u{2000}' <= c && c <= '\u{200a}') || c == '\u{2028}'
        || c == '\u{2029}' || c == '\u{202f}' || c == '\u{205f}' || c == '\u{3000}'
}

/// `s` without its leading white space.
pub open spec fn trim_start(s: Seq<char>) -> Seq<char>
    decreases s.len(),
{
    if s.len() > 0 && is_ws(s[0]) {
        trim_start(s.drop_first())
    } else {
        s
    }
}

/// `s` without its trailing white space.
pub open spec fn trim_end(s: Seq<char>) -> Seq<char>
    decreases s.len(),
{
    if s.len() > 0 && is_ws(s.last()) {
        trim_end(s.drop_last())
    } else {
        s
    }
}

/// `s` without leading and trailing white space (`str::trim`).
pub open spec fn trim(s: Seq<char>) -> Seq<char> {
    trim_end(trim_start(s))
}

/// Whether `p` is a prefix of `s`.
pub open spec fn has_prefix(s: Seq<char>, p: Seq<char>) -> bool {
    p.len() <= s.len() && s.take(p.len() as int) == p
}

/// Whether `p` is a suffix of `s`.
pub open spec fn has_suffix(s: Seq<char>, p: Seq<char>) -> bool {
    p.len() <= s.len() && s.skip(s.len() - p.len()) == p
}

/// Whether `q` occurs in `s` starting at position `i`.
pub open spec fn occurs_at(s: Seq<char>, q: Seq<char>, i: int) -> bool {
    0 <= i && i + q.len() <= s.len() && s.subrange(i, i + q.len()) == q
}

/// Whether `q` occurs somewhere in `s` (`str::contains`).
pub open spec fn contains_sub(s: Seq<char>, q: Seq<char>) -> bool {
    exists|i: int| occurs_at(s, q, i)
}

/// Position of the first `c` in `s`, or `s.len()` when there is none.
pub open spec fn find_char(s: Seq<char>, c: char) -> int
    decreases s.len(),
{
    if s.len() == 0 {
        0
    } else if s[0] == c {
        0
    } else {
        1 + find_char(s.drop_first(), c)
    }
}

/// Position of the first white space in `s`, or `s.len()` when there is none.
pub open spec fn find_ws(s: Seq<char>) -> int
    decreases s.len(),
{
    if s.len() == 0 {
        0
    } else if is_ws(s[0]) {
        0
    } else {
        1 + find_ws(s.drop_first())
    }
}

/// A line without the `'\r'` of a `"\r\n"` ending.
pub open spec fn strip_cr(line: Seq<char>) -> Seq<char> {
    if line.len() > 0 && line.last() == '\r' {
        line.drop_last()
    } else {
        line
    }
}

/// The lines of `s`, as `str::lines` yields them: split at `'\n'`, a
/// `'\r'` right before a `'\n'` dropped, and no empty line after a final
/// line ending.
pub open spec fn lines(s: Seq<char>) -> Seq<Seq<char>>
    decreases s.len(),
{
    if s.len() == 0 {
        Seq::empty()
    } else {
        let k = find_char(s, '\n');
        if k < 0 || k >= s.len() {
            seq![s]
        } else {
            seq![strip_cr(s.take(k))] + lines(s.skip(k + 1))
        }
    }
}

/// The white-space separated words of `s` (`str::split_whitespace`).
pub open spec fn words(s: Seq<char>) -> Seq<Seq<char>>
    decreases s.len(),
{
    let t = trim_start(s);
    proof {
        lemma_trim_start_len(s);
    }
    if t.len() == 0 {
        Seq::empty()
    } else {
        let k = find_ws(t);
        if k <= 0 || k > t.len() {
            seq![t]
        } else {
            seq![t.take(k)] + words(t.skip(k))
        }
    }
}

pub proof fn lemma_trim_start_len(s: Seq<char>)
    ensures
        trim_start(s).len() <= s.len(),
    decreases s.len(),
{
    if s.len() > 0 && is_ws(s[0]) {
        lemma_trim_start_len(s.drop_first());
    }
}

pub proof fn lemma_find_char_bounds(s: Seq<char>, c: char)
    ensures
        0 <= find_char(s, c) <= s.len(),
        find_char(s, c) < s.len() ==> s[find_char(s, c)] == c,
        forall|j: int| 0 <= j < find_char(s, c) ==> s[j] != c,
    decreases s.len(),
{
    if s.len() > 0 && s[0] != c {
        lemma_find_char_bounds(s.drop_first(), c);
        assert forall|j: int| 0 <= j < find_char(s, c) implies s[j] != c by {
            if j > 0 {
                assert(s[j] == s.drop_first()[j - 1]);
            }
        }
    }
}

pub proof fn lemma_find_char_is(s: Seq<char>, c: char, k: int)
    requires
        0 <= k <= s.len(),
        k < s.len() ==> s[k] == c,
        forall|j: int| 0 <= j < k ==> s[j] != c,
    ensures
        find_char(s, c) == k,
    decreases s.len(),
{
    if s.len() > 0 && s[0] != c {
        lemma_find_char_is(s.drop_first(), c, k - 1);
    }
}

pub proof fn lemma_find_ws_bounds(s: Seq<char>)
    ensures
        0 <= find_ws(s) <= s.len(),
        find_ws(s) < s.len() ==> is_ws(s[find_ws(s)]),
        forall|j: int| 0 <= j < find_ws(s) ==> !is_ws(s[j]),
    decreases s.len(),
{
    if s.len() > 0 && !is_ws(s[0]) {
        lemma_find_ws_bounds(s.drop_first());
        assert forall|j: int| 0 <= j < find_ws(s) implies !is_ws(s[j]) by {
            if j > 0 {
                assert(s[j] == s.drop_first()[j - 1]);
            }
        }
    }
}

pub proof fn lemma_find_ws_is(s: Seq<char>, k: int)
    requires
        0 <= k <= s.len(),
        k < s.len() ==> is_ws(s[k]),
        forall|j: int| 0 <= j < k ==> !is_ws(s[j]),
    ensures
        find_ws(s) == k,
    decreases s.len(),
{
    if s.len() > 0 && !is_ws(s[0]) {
        lemma_find_ws_is(s.drop_first(), k - 1);
    }
}

pub proof fn lemma_trim_start_skip(s: Seq<char>, k: int)
    requires
        0 <= k <= s.len(),
        forall|j: int| 0 <= j < k ==> is_ws(s[j]),
        k < s.len() ==> !is_ws(s[k]),
    ensures
        trim_start(s) == s.skip(k),
    decreases s.len(),
{
    if k > 0 {
        assert(s.drop_first().skip(k - 1) =~= s.skip(k));
        lemma_trim_start_skip(s.drop_first(), k - 1);
    } else {
        assert(s.skip(0) =~= s);
    }
}

pub proof fn lemma_trim_end_take(s: Seq<char>, k: int)
    requires
        0 <= k <= s.len(),
        forall|j: int| k <= j < s.len() ==> is_ws(s[j]),
        k > 0 ==> !is_ws(s[k - 1]),
    ensures
        trim_end(s) == s.take(k),
    decreases s.len(),
{
    if k < s.len() {
        assert(s.drop_last().take(k) =~= s.take(k));
        lemma_trim_end_take(s.drop_last(), k);
    } else {
        assert(s.take(k) =~= s);
    }
}

/// A `String` holding the characters `cs`.
pub fn string_from(cs: &[char]) -> (res: String)
    ensures
        res@ == cs@,
{
    let mut res = String::new();
    let mut i: usize = 0;
    while i < cs.len()
        invariant
            i <= cs.len(),
            res@ == cs@.take(i as int),
        decreases cs.len() - i,
    {
        res.push(cs[i]);
        i = i + 1;
        proof {
            assert(res@ =~= cs@.take(i as int));
        }
    }
    proof {
        assert(cs@.take(i as int) =~= cs@);
    }
    res
}

/// A copy of `s`.
pub fn copy_string(s: &str) -> (res: String)
    ensures
        res@ == s@,
{
    s.to_owned()
}

/// Whether `p` is a prefix of `s`.
pub fn starts_with(s: &[char], p: &[char]) -> (res: bool)
    ensures
        res == has_prefix(s@, p@),
{
    if p.len() > s.len() {
        return false;
    }
    let mut i: usize = 0;
    while i < p.len()
        invariant
            i <= p.len() <= s.len(),
            forall|j: int| 0 <= j < i ==> s@[j] == p@[j],
        decreases p.len() - i,
    {
        if s[i] != p[i] {
            assert(s@.take(p.len() as int)[i as int] != p@[i as int]);
            return false;
        }
        i = i + 1;
    }
    assert(s@.take(p.len() as int) =~= p@);
    true
}

/// Whether `q` occurs in `s` at position `at`.
pub fn matches_at(s: &[char], q: &[char], at: usize) -> (res: bool)
    ensures
        res == occurs_at(s@, q@, at as int),
{
    if at > s.len() || q.len() > s.len() - at {
        return false;
    }
    let mut i: usize = 0;
    while i < q.len()
        invariant
            i <= q.len(),
            at + q.len() <= s.len(),
            forall|j: int| 0 <= j < i ==> s@[at + j] == q@[j],
        decreases q.len() - i,
    {
        if s[at + i] != q[i] {
            assert(s@.subrange(at as int, at + q.len())[i as int] != q@[i as int]);
            return false;
        }
        i = i + 1;
    }
    assert(s@.subrange(at as int, at + q.len()) =~= q@);
    true
}

/// Whether `q` occurs somewhere in `s`.
pub fn contains(s: &[char], q: &[char]) -> (res: bool)
    ensures
        res == contains_sub(s@, q@),
{
    if q.len() == 0 {
        assert(s@.subrange(0, 0) =~= q@);
        assert(occurs_at(s@, q@, 0));
        return true;
    }
    if q.len() > s.len() {
        return false;
    }
    let mut at: usize = 0;
    while at <= s.len() - q.len()
        invariant
            1 <= q.len() <= s.len(),
            at <= s.len() - q.len() + 1,
            forall|j: int| 0 <= j < at ==> !occurs_at(s@, q@, j),
        decreases s.len() - q.len() + 1 - at,
    {
        if matches_at(s, q, at) {
            return true;
        }
        at = at + 1;
    }
    assert forall|j: int| !occurs_at(s@, q@, j) by {
        if 0 <= j < at {
        }
    }
    false
}

/// Positions `start..end` of `s` without white space at either end.
pub fn trim_bounds(s: &[char]) -> (res: (usize, usize))
    ensures
        res.0 <= res.1 <= s.len(),
        trim(s@) == s@.subrange(res.0 as int, res.1 as int),
        trim_start(s@) == s@.skip(res.0 as int),
{
    let mut start: usize = 0;
    while start < s.len() && is_whitespace(s[start])
        invariant
            start <= s.len(),
            forall|j: int| 0 <= j < start ==> is_ws(s@[j]),
        decreases s.len() - start,
    {
        start = start + 1;
    }
    proof {
        lemma_trim_start_skip(s@, start as int);
    }
    let mut end: usize = s.len();
    while end > start && is_whitespace(s[end - 1])
        invariant
            start <= end <= s.len(),
            forall|j: int| end <= j < s.len() ==> is_ws(s@[j]),
        decreases end,
    {
        end = end - 1;
    }
    proof {
        let t = s@.skip(start as int);
        assert forall|j: int| end - start <= j < t.len() implies is_ws(t[j]) by {
            assert(t[j] == s@[start + j]);
        }
        lemma_trim_end_take(t, end - start);
        assert(t.take(end - start) =~= s@.subrange(start as int, end as int));
    }
    (start, end)
}

/// `s` without leading and trailing white space.
pub fn trim_chars(s: &[char]) -> (res: Vec<char>)
    ensures
        res@ == trim(s@),
{
    let (start, end) = trim_bounds(s);
    let mut res: Vec<char> = Vec::new();
    let mut i = start;
    while i < end
        invariant
            start <= i <= end <= s.len(),
            res@ == s@.subrange(start as int, i as int),
        decreases end - i,
    {
        res.push(s[i]);
        i = i + 1;
        proof {
            assert(res@ =~= s@.subrange(start as int, i as int));
        }
    }
    res
}

/// A copy of `s[from..to]`.
pub fn slice_to_vec(s: &[char], from: usize, to: usize) -> (res: Vec<char>)
    requires
        from <= to <= s.len(),
    ensures
        res@ == s@.subrange(from as int, to as int),
{
    let mut res: Vec<char> = Vec::new();
    let mut i = from;
    while i < to
        invariant
            from <= i <= to <= s.len(),
            res@ == s@.subrange(from as int, i as int),
        decreases to - i,
    {
        res.push(s[i]);
        i = i + 1;
        proof {
            assert(res@ =~= s@.subrange(from as int, i as int));
        }
    }
    res
}

/// The lines of `s`, as `str::lines` yields them.
pub fn lines_of(s: &[char]) -> (res: Vec<Vec<char>>)
    ensures
        res@.len() == lines(s@).len(),
        forall|i: int| 0 <= i < res@.len() ==> #[trigger] res@[i]@ == lines(s@)[i],
{
    let mut res: Vec<Vec<char>> = Vec::new();
    let mut pos: usize = 0;
    let ghost done: Seq<Seq<char>> = Seq::empty();
    proof {
        assert(s@.skip(0) =~= s@);
        assert(done + lines(s@) =~= lines(s@));
        assert(done + words(s@) =~= words(s@));
    }
    while pos < s.len()
        invariant
            pos <= s.len(),
            res@.len() == done.len(),
            forall|i: int| 0 <= i < res@.len() ==> #[trigger] res@[i]@ == done[i],
            done + lines(s@.skip(pos as int)) == lines(s@),
        decreases s.len() - pos,
    {
        let ghost rest = s@.skip(pos as int);
        let mut j = pos;
        while j < s.len() && s[j] != '\n'
            invariant
                pos <= j <= s.len(),
                forall|m: int| pos <= m < j ==> s@[m] != '\n',
            decreases s.len() - j,
        {
            j = j + 1;
        }
        proof {
            lemma_find_char_is(rest, '\n', j - pos);
        }
        let mut end = j;
        if j < s.len() && end > pos && s[end - 1] == '\r' {
            end = end - 1;
        }
        let line = slice_to_vec(s, pos, end);
        proof {
            if j < s.len() {
                assert(rest.take(j - pos) =~= s@.subrange(pos as int, j as int));
                assert(line@ =~= strip_cr(rest.take(j - pos)));
                assert(rest.skip(j - pos + 1) =~= s@.skip(j + 1));
                assert(lines(rest) == seq![line@] + lines(s@.skip(j + 1)));
            } else {
                assert(rest =~= line@);
                assert(lines(rest) == seq![line@]);
                assert(s@.skip(s.len() as int) =~= Seq::<char>::empty());
            }
            done = done.push(line@);
        }
        res.push(line);
        if j < s.len() {
            pos = j + 1;
        } else {
            pos = s.len();
        }
        proof {
            assert(done + lines(s@.skip(pos as int)) =~= lines(s@)) by {
                assert(done.drop_last() + lines(rest) == lines(s@));
                if j < s.len() {
                    assert(done + lines(s@.skip(pos as int)) =~= done.drop_last() + (seq![line@] + lines(s@.skip(j + 1))));
                } else {
                    assert(lines(s@.skip(pos as int)) =~= Seq::<Seq<char>>::empty());
                    assert(done + lines(s@.skip(pos as int)) =~= done.drop_last() + seq![line@]);
                }
            }
        }
    }
    proof {
        assert(s@.skip(pos as int) =~= Seq::<char>::empty());
        assert(done + Seq::<Seq<char>>::empty() =~= done);
    }
    res
}

/// The white-space separated words of `s`.
pub fn words_of(s: &[char]) -> (res: Vec<Vec<char>>)
    ensures
        res@.len() == words(s@).len(),
        forall|i: int| 0 <= i < res@.len() ==> #[trigger] res@[i]@ == words(s@)[i],
{
    let mut res: Vec<Vec<char>> = Vec::new();
    let mut pos: usize = 0;
    let ghost done: Seq<Seq<char>> = Seq::empty();
    proof {
        assert(s@.skip(0) =~= s@);
        assert(done + lines(s@) =~= lines(s@));
        assert(done + words(s@) =~= words(s@));
    }
    while pos < s.len()
        invariant
            pos <= s.len(),
            res@.len() == done.len(),
            forall|i: int| 0 <= i < res@.len() ==> #[trigger] res@[i]@ == done[i],
            done + words(s@.skip(pos as int)) == words(s@),
        decreases s.len() - pos,
    {
        let ghost rest = s@.skip(pos as int);
        let mut a = pos;
        while a < s.len() && is_whitespace(s[a])
            invariant
                pos <= a <= s.len(),
                forall|m: int| pos <= m < a ==> is_ws(s@[m]),
            decreases s.len() - a,
        {
            a = a + 1;
        }
        proof {
            lemma_trim_start_skip(rest, a - pos);
            assert(rest.skip(a - pos) =~= s@.skip(a as int));
        }
        if a == s.len() {
            proof {
                assert(s@.skip(a as int) =~= Seq::<char>::empty());
                assert(words(rest) =~= Seq::<Seq<char>>::empty());
                assert(done + words(s@.skip(a as int)) =~= done);
            }
            pos = a;
        } else {
            let mut b = a;
            while b < s.len() && !is_whitespace(s[b])
                invariant
                    a <= b <= s.len(),
                    forall|m: int| a <= m < b ==> !is_ws(s@[m]),
                decreases s.len() - b,
            {
                b = b + 1;
            }
            let ghost t = s@.skip(a as int);
            proof {
                lemma_find_ws_is(t, b - a);
            }
            let word = slice_to_vec(s, a, b);
            proof {
                assert(t.take(b - a) =~= word@);
                assert(t.skip(b - a) =~= s@.skip(b as int));
                if b < s.len() {
                    assert(words(rest) == seq![word@] + words(s@.skip(b as int)));
                } else {
                    assert(t =~= word@);
                    assert(s@.skip(b as int) =~= Seq::<char>::empty());
                    assert(trim_start(Seq::<char>::empty()) =~= Seq::<char>::empty());
                    assert(words(s@.skip(b as int)) =~= Seq::<Seq<char>>::empty());
                    assert(words(rest) =~= seq![word@]);
                }
                done = done.push(word@);
                assert(done + words(s@.skip(b as int)) =~= words(s@)) by {
                    assert(done.drop_last() + words(rest) == words(s@));
                    if b < s.len() {
                        assert(done + words(s@.skip(b as int)) =~= done.drop_last() + (seq![word@] + words(s@.skip(b as int))));
                    } else {
                        assert(done + words(s@.skip(b as int)) =~= done.drop_last() + seq![word@]);
                    }
                }
            }
            res.push(word);
            pos = b;
        }
    }
    proof {
        assert(s@.skip(pos as int) =~= Seq::<char>::empty());
        assert(done + Seq::<Seq<char>>::empty() =~= done);
    }
    res
}

/// A `String` holding `s[from..to]`.
pub fn sub_string(s: &[char], from: usize, to: usize) -> (res: String)
    requires
        from <= to <= s.len(),
    ensures
        res@ == s@.subrange(from as int, to as int),
{
    let mut res = String::new();
    let mut i = from;
    while i < to
        invariant
            from <= i <= to <= s.len(),
            res@ == s@.subrange(from as int, i as int),
        decreases to - i,
    {
        res.push(s[i]);
        i = i + 1;
        proof {
            assert(res@ =~= s@.subrange(from as int, i as int));
        }
    }
    res
}

/// The texts `parts` joined with `sep` between each two of them.
pub open spec fn join(parts: Seq<Seq<char>>, sep: Seq<char>) -> Seq<char>
    decreases parts.len(),
{
    if parts.len() == 0 {
        Seq::empty()
    } else if parts.len() == 1 {
        parts[0]
    } else {
        parts[0] + sep + join(parts.drop_first(), sep)
    }
}

/// The views of a list of string slices.
pub open spec fn views_of(parts: Seq<&str>) -> Seq<Seq<char>> {
    parts.map_values(|p: &str| p@)
}

pub proof fn lemma_join_push(parts: Seq<Seq<char>>, sep: Seq<char>, last: Seq<char>)
    ensures
        join(parts.push(last), sep) == if parts.len() == 0 {
            last
        } else {
            join(parts, sep) + sep + last
        },
    decreases parts.len(),
{
    if parts.len() == 0 {
        assert(parts.push(last) =~= seq![last]);
    } else if parts.len() == 1 {
        assert(parts.push(last).drop_first() =~= seq![last]);
        assert(parts.push(last)[0] == parts[0]);
        assert(join(seq![last], sep) == last);
    } else {
        lemma_join_push(parts.drop_first(), sep, last);
        assert(parts.push(last)[0] == parts[0]);
        assert(parts.push(last).drop_first() =~= parts.drop_first().push(last));
        assert(parts[0] + sep + (join(parts.drop_first(), sep) + sep + last) =~= parts[0] + sep
            + join(parts.drop_first(), sep) + sep + last);
    }
}

/// The texts `parts` joined with `sep` between each two of them.
pub fn join_strs(parts: &[&str], sep: &str) -> (res: String)
    ensures
        res@ == join(views_of(parts@), sep@),
{
    let mut res = String::new();
    let mut i: usize = 0;
    while i < parts.len()
        invariant
            i <= parts.len(),
            res@ == join(views_of(parts@.take(i as int)), sep@),
        decreases parts.len() - i,
    {
        proof {
            assert(parts@.take(i + 1) =~= parts@.take(i as int).push(parts@[i as int]));
            assert(views_of(parts@.take(i + 1)) =~= views_of(parts@.take(i as int)).push(parts@[i as int]@));
            lemma_join_push(views_of(parts@.take(i as int)), sep@, parts@[i as int]@);
        }
        if i > 0 {
            res.push_str(sep);
        }
        res.push_str(parts[i]);
        i = i + 1;
    }
    proof {
        assert(parts@.take(i as int) =~= parts@);
    }
    res
}

/// The views of a list of strings.
pub open spec fn strs(v: Seq<String>) -> Seq<Seq<char>> {
    v.map_values(|x: String| x@)
}

/// Append a copy of `s` to `v`.
pub fn push_arg(v: &mut Vec<String>, s: &str)
    ensures
        strs(final(v)@) == strs(old(v)@).push(s@),
{
    v.push(copy_string(s));
    proof {
        assert(strs(v@) =~= strs(old(v)@).push(s@));
    }
}

/// Whether the strings `a` and `b` hold the same text.
pub fn same_text(a: &String, b: &String) -> (res: bool)
    ensures
        res == (a@ == b@),
{
    a.eq(b)
}

/// `s` without one final line ending (`"\n"` or `"\r\n"`).
pub open spec fn without_end_line(s: Seq<char>) -> Seq<char> {
    if s.len() > 0 && s.last() == '\n' {
        strip_cr(s.drop_last())
    } else {
        s
    }
}

/// `s` without one final line ending.
pub fn remove_end_line_of(s: &str) -> (res: String)
    ensures
        res@ == without_end_line(s@),
{
    let t = chars_of(s);
    let mut end = t.len();
    if end > 0 && t[end - 1] == '\n' {
        end = end - 1;
        if end > 0 && t[end - 1] == '\r' {
            end = end - 1;
        }
    }
    let res = sub_string(&t, 0, end);
    proof {
        if t@.len() > 0 && t@.last() == '\n' {
            assert(t@.drop_last() =~= t@.subrange(0, t@.len() - 1));
            if end < t@.len() - 1 {
                assert(t@.drop_last().drop_last() =~= t@.subrange(0, end as int));
            }
        } else {
            assert(t@.subrange(0, end as int) =~= t@);
        }
    }
    res
}

/// Copies of the texts `parts`, in order.
pub fn args_of(parts: &[&str]) -> (res: Vec<String>)
    ensures
        strs(res@) == views_of(parts@),
{
    let mut res: Vec<String> = Vec::new();
    let mut i: usize = 0;
    while i < parts.len()
        invariant
            i <= parts.len(),
            strs(res@) == views_of(parts@.take(i as int)),
        decreases parts.len() - i,
    {
        push_arg(&mut res, parts[i]);
        i = i + 1;
        proof {
            assert(views_of(parts@.take(i as int)) =~= views_of(parts@.take(i - 1)).push(parts@[i - 1]@));
        }
    }
    proof {
        assert(parts@.take(i as int) =~= parts@);
    }
    res
}

/// Whether `s` is exactly `true`.
pub open spec fn is_true_text(s: Seq<char>) -> bool {
    s == seq!['t', 'r', 'u', 'e']
}

/// Whether the text `s` is exactly `true`.
pub fn is_true(s: &str) -> (res: bool)
    ensures
        res == is_true_text(s@),
{
    let t = chars_of(s);
    let r = t.len() == 4 && t[0] == 't' && t[1] == 'r' && t[2] == 'u' && t[3] == 'e';
    proof {
        if r {
            assert(t@ =~= seq!['t', 'r', 'u', 'e']);
        } else if t@ == seq!['t', 'r', 'u', 'e'] {
            assert(t@[0] == 't');
        }
    }
    r
}

/// Whether `s` reads `true` with any letters in upper case
/// (`eq_ignore_ascii_case("true")`).
pub open spec fn is_true_any_case(s: Seq<char>) -> bool {
    &&& s.len() == 4
    &&& (s[0] == 't' || s[0] == 'T')
    &&& (s[1] == 'r' || s[1] == 'R')
    &&& (s[2] == 'u' || s[2] == 'U')
    &&& (s[3] == 'e' || s[3] == 'E')
}

/// Whether the value of a switch in the environment turns it on: `1`, or
/// `true` in any case.
pub fn is_enabled_flag(s: &str) -> (res: bool)
    ensures
        res == (s@ == seq!['1'] || is_true_any_case(s@)),
{
    let t = chars_of(s);
    if t.len() == 1 && t[0] == '1' {
        proof {
            assert(t@ =~= seq!['1']);
        }
        return true;
    }
    proof {
        if s@ == seq!['1'] {
            assert(t@[0] == '1');
        }
    }
    t.len() == 4 && (t[0] == 't' || t[0] == 'T') && (t[1] == 'r' || t[1] == 'R') && (t[2] == 'u' || t[2] == 'U')
        && (t[3] == 'e' || t[3] == 'E')
}

/// Whether `c` occurs in `s`.
pub open spec fn has_char(s: Seq<char>, c: char) -> bool {
    exists|i: int| 0 <= i < s.len() && s[i] == c
}

pub proof fn lemma_lines_no_newline(s: Seq<char>)
    ensures
        forall|i: int| 0 <= i < lines(s).len() ==> !has_char(#[trigger] lines(s)[i], '\n'),
    decreases s.len(),
{
    if s.len() > 0 {
        let k = find_char(s, '\n');
        lemma_find_char_bounds(s, '\n');
        if k < s.len() {
            lemma_lines_no_newline(s.skip(k + 1));
            let first = strip_cr(s.take(k));
            assert(!has_char(first, '\n')) by {
                if has_char(first, '\n') {
                    let j = choose|j: int| 0 <= j < first.len() && first[j] == '\n';
                    assert(s.take(k)[j] == '\n');
                }
            }
            assert forall|i: int| 0 <= i < lines(s).len() implies !has_char(#[trigger] lines(s)[i], '\n') by {
                if i > 0 {
                    assert(lines(s)[i] == lines(s.skip(k + 1))[i - 1]);
                }
            }
        } else {
            assert(!has_char(s, '\n'));
        }
    }
}

/// The decimal digit `d`.
pub open spec fn digit_char(d: int) -> char {
    if d == 0 { '0' }
    else if d == 1 { '1' }
    else if d == 2 { '2' }
    else if d == 3 { '3' }
    else if d == 4 { '4' }
    else if d == 5 { '5' }
    else if d == 6 { '6' }
    else if d == 7 { '7' }
    else if d == 8 { '8' }
    else { '9' }
}

/// The decimal notation of `n`, without leading zeros.
pub open spec fn decimal(n: nat) -> Seq<char>
    decreases n,
{
    if n < 10 {
        seq![digit_char(n as int)]
    } else {
        decimal(n / 10) + seq![digit_char((n % 10) as int)]
    }
}

fn digit(d: usize) -> (res: char)
    requires
        d < 10,
    ensures
        res == digit_char(d as int),
{
    if d == 0 { '0' }
    else if d == 1 { '1' }
    else if d == 2 { '2' }
    else if d == 3 { '3' }
    else if d == 4 { '4' }
    else if d == 5 { '5' }
    else if d == 6 { '6' }
    else if d == 7 { '7' }
    else if d == 8 { '8' }
    else { '9' }
}

/// The decimal notation of `n` (as `usize::to_string` writes it).
pub fn decimal_string(n: usize) -> (res: String)
    ensures
        res@ == decimal(n as nat),
    decreases n,
{
    if n < 10 {
        let mut res = String::new();
        res.push(digit(n));
        proof {
            assert(res@ =~= seq![digit_char(n as int)]);
        }
        res
    } else {
        let mut res = decimal_string(n / 10);
        res.push(digit(n % 10));
        res
    }
}

/// The pieces of `s` between the occurrences of `c` (`str::split`).
pub open spec fn split_on(s: Seq<char>, c: char) -> Seq<Seq<char>>
    decreases s.len(),
{
    let k = find_char(s, c);
    if k < 0 || k >= s.len() {
        seq![s]
    } else {
        seq![s.take(k)] + split_on(s.skip(k + 1), c)
    }
}

/// The pieces of `s` between the occurrences of `c`.
pub fn split_chars(s: &[char], c: char) -> (res: Vec<Vec<char>>)
    ensures
        res@.len() == split_on(s@, c).len(),
        forall|i: int| 0 <= i < res@.len() ==> #[trigger] res@[i]@ == split_on(s@, c)[i],
{
    let mut res: Vec<Vec<char>> = Vec::new();
    let mut pos: usize = 0;
    let ghost done: Seq<Seq<char>> = Seq::empty();
    proof {
        assert(s@.skip(0) =~= s@);
        assert(done + split_on(s@, c) =~= split_on(s@, c));
    }
    loop
        invariant
            pos <= s.len(),
            res@.len() == done.len(),
            forall|i: int| 0 <= i < res@.len() ==> #[trigger] res@[i]@ == done[i],
            done + split_on(s@.skip(pos as int), c) == split_on(s@, c),
        decreases s.len() - pos,
    {
        let ghost rest = s@.skip(pos as int);
        let mut j = pos;
        while j < s.len() && s[j] != c
            invariant
                pos <= j <= s.len(),
                forall|m: int| pos <= m < j ==> s@[m] != c,
            decreases s.len() - j,
        {
            j = j + 1;
        }
        proof {
            lemma_find_char_is(rest, c, j - pos);
        }
        let piece = slice_to_vec(s, pos, j);
        res.push(piece);
        if j >= s.len() {
            proof {
                assert(rest =~= piece@);
                assert(split_on(rest, c) == seq![piece@]);
                done = done.push(piece@);
                assert(done =~= done.drop_last() + seq![piece@]);
            }
            return res;
        }
        proof {
            assert(rest.take(j - pos) =~= piece@);
            assert(rest.skip(j - pos + 1) =~= s@.skip(j + 1));
            assert(split_on(rest, c) == seq![piece@] + split_on(s@.skip(j + 1), c));
            let old_done = done;
            done = done.push(piece@);
            assert(done + split_on(s@.skip(j + 1), c) =~= old_done + (seq![piece@] + split_on(s@.skip(j + 1), c)));
        }
        pos = j + 1;
    }
}

/// Whether the characters `t` spell `lit`.
pub fn chars_eq(t: &[char], lit: &str) -> (res: bool)
    ensures
        res == (t@ == lit@),
{
    let l = chars_of(lit);
    if t.len() != l.len() {
        return false;
    }
    let mut i: usize = 0;
    while i < t.len()
        invariant
            i <= t.len(),
            t.len() == l.len(),
            l@ == lit@,
            forall|j: int| 0 <= j < i ==> t@[j] == l@[j],
        decreases t.len() - i,
    {
        if t[i] != l[i] {
            return false;
        }
        i = i + 1;
    }
    proof {
        assert(t@ =~= l@);
    }
    true
}

/// `s` without leading and trailing white space (`str::trim`).
pub fn trim_string(s: &str) -> (res: String)
    ensures
        res@ == trim(s@),
{
    let cs = chars_of(s);
    let (start, end) = trim_bounds(&cs);
    sub_string(&cs, start, end)
}

/// `s` without the prefix `p`; `s` itself where it does not start with `p`.
pub open spec fn without_prefix(s: Seq<char>, p: Seq<char>) -> Seq<char> {
    if has_prefix(s, p) { s.skip(p.len() as int) } else { s }
}

/// `s` without the suffix `p`; `s` itself where it does not end with `p`.
pub open spec fn without_suffix(s: Seq<char>, p: Seq<char>) -> Seq<char> {
    if has_suffix(s, p) { s.take(s.len() - p.len()) } else { s }
}

/// `s` without the prefix `p`, where it starts with it.
pub fn remove_prefix(s: &str, p: &str) -> (res: String)
    ensures
        res@ == without_prefix(s@, p@),
{
    let cs = chars_of(s);
    let ps = chars_of(p);
    if starts_with(&cs, &ps) {
        sub_string(&cs, ps.len(), cs.len())
    } else {
        copy_string(s)
    }
}

/// `s` without the suffix `p`, where it ends with it.
pub fn remove_suffix(s: &str, p: &str) -> (res: String)
    ensures
        res@ == without_suffix(s@, p@),
{
    let cs = chars_of(s);
    let ps = chars_of(p);
    if ps.len() <= cs.len() && matches_at(&cs, &ps, cs.len() - ps.len()) {
        proof {
            assert(cs@.subrange((cs@.len() - ps@.len()) as int, cs@.len() as int) =~= cs@.skip(cs@.len() - ps@.len()));
        }
        sub_string(&cs, 0, cs.len() - ps.len())
    } else {
        proof {
            if has_suffix(s@, p@) {
                assert(cs@.subrange((cs@.len() - ps@.len()) as int, cs@.len() as int) =~= cs@.skip(cs@.len() - ps@.len()));
            }
        }
        copy_string(s)
    }
}

/// The words of a text are not empty.
pub proof fn lemma_words_nonempty(s: Seq<char>)
    ensures
        forall|i: int| 0 <= i < words(s).len() ==> #[trigger] words(s)[i].len() > 0,
    decreases s.len(),
{
    lemma_trim_start_len(s);
    let t = trim_start(s);
    if t.len() > 0 {
        let k = find_ws(t);
        if 0 < k <= t.len() {
            lemma_trim_start_len(s);
            lemma_words_nonempty(t.skip(k));
            let rest = words(t.skip(k));
            assert forall|i: int| 0 <= i < words(s).len() implies #[trigger] words(s)[i].len() > 0 by {
                if i > 0 {
                    assert(words(s)[i] == rest[i - 1]);
                }
            }
        }
    }
}

} // verus!
