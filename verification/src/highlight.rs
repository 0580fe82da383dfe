//! Highlighting the matches of a search in a line of styled text.
use vstd::prelude::*;

use vstd::string::StringSliceAdditionalSpecFns;
use vstd::utf8::encode_scalar;
use vstd::utf8::encode_utf8;

use crate::search::lowercase;
use crate::search::to_lowercase;
use crate::style::lemma_patch_twice;
use crate::style::spec_patch;
use crate::style::TermColor;
use crate::style::TextStyle;
use crate::text::chars_of;
use crate::text::occurs_at;

verus! {

/// A piece of text in one style.
pub struct StyledSpan {
    pub content: String,
    pub style: TextStyle,
}

/// A line of text, in pieces of one style each.
pub struct StyledLine {
    pub spans: Vec<StyledSpan>,
}

/// The view of a line: its pieces of text with their styles.
pub open spec fn line_view(spans: Seq<StyledSpan>) -> Seq<(Seq<char>, TextStyle)> {
    spans.map_values(|s: StyledSpan| (s.content@, s.style))
}

impl View for StyledLine {
    type V = Seq<(Seq<char>, TextStyle)>;

    open spec fn view(&self) -> Seq<(Seq<char>, TextStyle)> {
        line_view(self.spans@)
    }
}

/// The style of search matches: black on yellow, as editors mark search
/// hits, to stand out against the selection.
pub open spec fn match_style() -> TextStyle {
    TextStyle {
        fg: Some(TermColor::Black),
        bg: Some(TermColor::Yellow),
        underline_color: None,
        add_modifier: 0,
        sub_modifier: 0,
    }
}

/// The style of search matches.
pub fn search_match_style() -> (res: TextStyle)
    ensures
        res == match_style(),
{
    TextStyle::default().bg(TermColor::Yellow).fg(TermColor::Black)
}

/// The characters of a line, each with its style.
pub open spec fn line_chars(spans: Seq<(Seq<char>, TextStyle)>) -> Seq<(char, TextStyle)>
    decreases spans.len(),
{
    if spans.len() == 0 {
        Seq::empty()
    } else {
        line_chars(spans.drop_last()) + spans.last().0.map_values(|c: char| (c, spans.last().1))
    }
}

/// The pieces of a line rebuilt from its characters: each run of
/// characters of one style makes a piece.
pub open spec fn runs(cs: Seq<(char, TextStyle)>) -> Seq<(Seq<char>, TextStyle)>
    decreases cs.len(),
{
    if cs.len() == 0 {
        Seq::empty()
    } else {
        let r = runs(cs.drop_last());
        let (c, st) = cs.last();
        if r.len() > 0 && r.last().1 == st {
            r.drop_last().push((r.last().0.push(c), st))
        } else {
            r.push((seq![c], st))
        }
    }
}

/// The characters of a line, each with its style.
fn chars_with_styles(line: &StyledLine) -> (res: Vec<(char, TextStyle)>)
    ensures
        res@ == line_chars(line@),
{
    let mut res: Vec<(char, TextStyle)> = Vec::new();
    let mut i: usize = 0;
    while i < line.spans.len()
        invariant
            i <= line.spans@.len(),
            res@ == line_chars(line_view(line.spans@.take(i as int))),
        decreases line.spans@.len() - i,
    {
        let style = line.spans[i].style;
        let cs = chars_of(line.spans[i].content.as_str());
        let ghost before = res@;
        let mut k: usize = 0;
        while k < cs.len()
            invariant
                k <= cs@.len(),
                res@ == before + cs@.take(k as int).map_values(|c: char| (c, style)),
            decreases cs@.len() - k,
        {
            res.push((cs[k], style));
            proof {
                assert(cs@.take(k + 1).map_values(|c: char| (c, style)) =~= cs@.take(k as int).map_values(|c: char| (c, style)).push((cs@[k as int], style)));
            }
            k = k + 1;
        }
        proof {
            let v = line_view(line.spans@.take(i + 1));
            assert(v.drop_last() =~= line_view(line.spans@.take(i as int)));
            assert(v.last() == (line.spans@[i as int].content@, style));
            assert(cs@.take(k as int) =~= cs@);
            assert(res@ =~= line_chars(v));
        }
        i = i + 1;
    }
    proof {
        assert(line.spans@.take(i as int) =~= line.spans@);
    }
    res
}

/// The characters with the styles they are shown in: a marked character
/// gets `overlay` laid over its style.
pub open spec fn styled(cs: Seq<(char, TextStyle)>, flags: Seq<bool>, overlay: TextStyle) -> Seq<(char, TextStyle)> {
    Seq::new(cs.len(), |i: int| (cs[i].0, if flags[i] { spec_patch(cs[i].1, overlay) } else { cs[i].1 }))
}

/// The pieces of a line from its characters, the marked ones in `overlay`
/// laid over their style.
fn rebuild(cs: &Vec<(char, TextStyle)>, flags: &Vec<bool>, overlay: TextStyle) -> (res: Vec<StyledSpan>)
    requires
        flags@.len() == cs@.len(),
    ensures
        line_view(res@) == runs(styled(cs@, flags@, overlay)),
{
    let ghost all = styled(cs@, flags@, overlay);
    let mut spans: Vec<StyledSpan> = Vec::new();
    let mut current = String::new();
    let mut current_style: Option<TextStyle> = None;
    let mut i: usize = 0;
    while i < cs.len()
        invariant
            i <= cs@.len() == flags@.len(),
            all == styled(cs@, flags@, overlay),
            current_style is None ==> i == 0 && spans@.len() == 0 && current@.len() == 0,
            current_style matches Some(st) ==> runs(all.take(i as int)) == line_view(spans@).push((current@, st)),
        decreases cs@.len() - i,
    {
        let (c, base) = cs[i];
        let style = if flags[i] { base.patch(overlay) } else { base };
        proof {
            assert(all.take(i + 1).drop_last() =~= all.take(i as int));
            assert(all.take(i + 1).last() == (c, style));
        }
        let same = match &current_style {
            Some(st) => *st == style,
            None => false,
        };
        if same {
            current.push(c);
            proof {
                let r = runs(all.take(i as int));
                assert(r.last().1 == style);
                assert(r.drop_last() =~= line_view(spans@));
            }
        } else {
            match current_style {
                Some(prev) => {
                    let ghost before = line_view(spans@);
                    let mut finished = String::new();
                    std::mem::swap(&mut finished, &mut current);
                    spans.push(StyledSpan { content: finished, style: prev });
                    proof {
                        assert(line_view(spans@) =~= before.push((finished@, prev)));
                    }
                },
                None => {
                    proof {
                        assert(all.take(0) =~= Seq::<(char, TextStyle)>::empty());
                    }
                },
            }
            proof {
                assert(current@.len() == 0);
            }
            current.push(c);
            proof {
                assert(current@ =~= seq![c]);
                let r = runs(all.take(i as int));
                if i > 0 {
                    assert(r.last().1 != style);
                }
                assert(runs(all.take(i + 1)) =~= line_view(spans@).push((current@, style)));
            }
            current_style = Some(style);
        }
        i = i + 1;
    }
    proof {
        assert(all.take(i as int) =~= all);
    }
    match current_style {
        Some(prev) => {
            let ghost before = line_view(spans@);
            spans.push(StyledSpan { content: current, style: prev });
            proof {
                assert(line_view(spans@) =~= before.push((current@, prev)));
            }
        },
        None => {
            proof {
                assert(all =~= Seq::<(char, TextStyle)>::empty());
            }
        },
    }
    spans
}

/// The lowercase of a character, as `char::to_lowercase` gives it (one or
/// more characters).
pub uninterp spec fn char_lowercase(c: char) -> Seq<char>;

/// The lowercase of `c` (`char::to_lowercase`, collected). The result is a
/// function of `c` alone, named [char_lowercase]; Unicode's case mapping is
/// not stated.
#[verifier::external_body]
fn lowercase_char(c: char) -> (res: Vec<char>)
    ensures
        res@ == char_lowercase(c),
{
    c.to_lowercase().collect()
}

/// The lowercase of each character, one after the other.
pub open spec fn flat_lower(cs: Seq<char>) -> Seq<char>
    decreases cs.len(),
{
    if cs.len() == 0 {
        Seq::empty()
    } else {
        flat_lower(cs.drop_last()) + char_lowercase(cs.last())
    }
}

/// Where the lowercase of the `k`-th character starts among the lowercased
/// characters: the length of the lowercase of the characters before it.
pub open spec fn lower_start(chars: Seq<char>, k: int) -> int {
    flat_lower(chars.take(k)).len() as int
}

/// Whether an occurrence of `q` in `lc` that starts before `limit` overlaps
/// the positions from `lo` up to `hi`.
pub open spec fn overlaps(lc: Seq<char>, q: Seq<char>, limit: int, lo: int, hi: int) -> bool {
    exists|st: int| 0 <= st < limit && st < hi && lo < st + q.len() && #[trigger] occurs_at(lc, q, st)
}

/// The marks of the fallback matcher, used where lowercasing changed the
/// length in bytes: a character is marked where its lowercase overlaps an
/// occurrence of the query among the lowercased characters.
pub open spec fn fallback_flags(chars: Seq<char>, q: Seq<char>) -> Seq<bool> {
    let lc = flat_lower(chars);
    Seq::new(
        chars.len(),
        |k: int| overlaps(lc, q, lc.len() + 1int, lower_start(chars, k), lower_start(chars, k + 1)),
    )
}

/// The characters of a sequence of styled characters.
pub open spec fn just_chars(cs: Seq<(char, TextStyle)>) -> Seq<char> {
    cs.map_values(|p: (char, TextStyle)| p.0)
}

/// The marks of the fallback matcher.
fn flags_by_chars(chars: &Vec<(char, TextStyle)>, query: &str) -> (res: Vec<bool>)
    requires
        query@.len() > 0,
    ensures
        res@ == fallback_flags(just_chars(chars@), query@),
{
    let ghost cv = just_chars(chars@);
    let q = chars_of(query);
    let mut lc: Vec<char> = Vec::new();
    let mut starts: Vec<usize> = Vec::new();
    starts.push(0);
    proof {
        assert(cv.take(0) =~= Seq::<char>::empty());
    }
    let mut i: usize = 0;
    while i < chars.len()
        invariant
            i <= chars@.len(),
            cv == just_chars(chars@),
            lc@ == flat_lower(cv.take(i as int)),
            starts@.len() == i + 1,
            forall|k: int| 0 <= k <= i ==> starts@[k] == lower_start(cv, k),
        decreases chars@.len() - i,
    {
        let l = lowercase_char(chars[i].0);
        let mut k: usize = 0;
        let ghost before = lc@;
        while k < l.len()
            invariant
                k <= l@.len(),
                lc@ == before + l@.take(k as int),
            decreases l@.len() - k,
        {
            lc.push(l[k]);
            proof {
                assert(l@.take(k + 1) =~= l@.take(k as int).push(l@[k as int]));
            }
            k = k + 1;
        }
        proof {
            assert(l@.take(k as int) =~= l@);
            assert(cv.take(i + 1).drop_last() =~= cv.take(i as int));
            assert(cv.take(i + 1).last() == chars@[i as int].0);
        }
        starts.push(lc.len());
        i = i + 1;
    }
    proof {
        assert(cv.take(i as int) =~= cv);
    }
    let n = chars.len();
    let mut flags: Vec<bool> = Vec::new();
    let mut j: usize = 0;
    while j < n
        invariant
            j <= n == chars@.len(),
            flags@ == Seq::new(j as nat, |x: int| false),
        decreases n - j,
    {
        flags.push(false);
        proof {
            assert(flags@ =~= Seq::new((j + 1) as nat, |x: int| false));
        }
        j = j + 1;
    }
    let ql = q.len();
    let ll = lc.len();
    if ql <= ll {
        let mut st: usize = 0;
        while st <= ll - ql
            invariant
                0 < ql == q@.len() <= ll == lc@.len(),
                n == flags@.len() == chars@.len(),
                starts@.len() == n + 1,
                st <= ll - ql + 1,
                forall|x: int| 0 <= x <= n ==> starts@[x] == lower_start(cv, x),
                forall|x: int| 0 <= x < n ==> flags@[x] == overlaps(lc@, q@, st as int, starts@[x] as int, starts@[x + 1] as int),
            decreases ll - ql + 1 - st,
        {
            let hit = crate::text::matches_at(&lc, &q, st);
            if hit {
                let mut k: usize = 0;
                while k < n
                    invariant
                        k <= n == flags@.len(),
                        starts@.len() == n + 1,
                        st + ql <= ll,
                        forall|x: int| 0 <= x < n ==> flags@[x] == (overlaps(lc@, q@, st as int, starts@[x] as int, starts@[x + 1] as int)
                            || (x < k && starts@[x] < st + ql && st < starts@[x + 1])),
                    decreases n - k,
                {
                    if starts[k] < st + ql && st < starts[k + 1] {
                        flags.set(k, true);
                    }
                    k = k + 1;
                }
            }
            proof {
                assert forall|x: int| 0 <= x < n implies flags@[x] == overlaps(lc@, q@, st + 1, starts@[x] as int, starts@[x + 1] as int) by {
                    let lo = starts@[x] as int;
                    let hi = starts@[x + 1] as int;
                    if overlaps(lc@, q@, st + 1, lo, hi) && !overlaps(lc@, q@, st as int, lo, hi) {
                        let w = choose|w: int| 0 <= w < st + 1 && w < hi && lo < w + q@.len() && #[trigger] occurs_at(lc@, q@, w);
                        assert(w == st);
                    }
                    if hit && lo < st + ql && st < hi {
                        assert(occurs_at(lc@, q@, st as int));
                    }
                }
            }
            st = st + 1;
        }
        proof {
            assert forall|x: int| 0 <= x < n implies flags@[x] == overlaps(lc@, q@, ll + 1, lower_start(cv, x), lower_start(cv, x + 1)) by {
                let lo = starts@[x] as int;
                let hi = starts@[x + 1] as int;
                if overlaps(lc@, q@, ll + 1, lo, hi) {
                    let w = choose|w: int| 0 <= w < ll + 1 && w < hi && lo < w + q@.len() && #[trigger] occurs_at(lc@, q@, w);
                    assert(w < st);
                }
            }
            assert(flags@ =~= fallback_flags(cv, query@));
        }
    } else {
        proof {
            assert forall|x: int| 0 <= x < n implies !#[trigger] overlaps(lc@, q@, ll + 1, lower_start(cv, x), lower_start(cv, x + 1)) by {
                if overlaps(lc@, q@, ll + 1, lower_start(cv, x), lower_start(cv, x + 1)) {
                    let w = choose|w: int| 0 <= w < ll + 1 && w < lower_start(cv, x + 1) && lower_start(cv, x) < w + q@.len() && #[trigger] occurs_at(lc@, q@, w);
                }
            }
            assert(flags@ =~= fallback_flags(cv, query@));
        }
    }
    flags
}

/// The encoding of two texts one after the other is the encoding of the one
/// followed by that of the other.
proof fn lemma_encode_concat(a: Seq<char>, b: Seq<char>)
    ensures
        encode_utf8(a + b) == encode_utf8(a) + encode_utf8(b),
    decreases a.len(),
{
    if a.len() == 0 {
        assert(a + b =~= b);
        assert(encode_utf8(a) =~= Seq::<u8>::empty());
        assert(encode_utf8(a) + encode_utf8(b) =~= encode_utf8(b));
    } else {
        lemma_encode_concat(a.drop_first(), b);
        assert((a + b).drop_first() =~= a.drop_first() + b);
        assert((a + b)[0] == a[0]);
        assert(encode_scalar(a[0] as u32) + (encode_utf8(a.drop_first()) + encode_utf8(b))
            =~= (encode_scalar(a[0] as u32) + encode_utf8(a.drop_first())) + encode_utf8(b));
    }
}

/// The byte offset of the `k`-th character of `s` in its UTF-8 encoding.
pub open spec fn offset(s: Seq<char>, k: int) -> int {
    encode_utf8(s.take(k)).len() as int
}

/// The offset of the next character is that of this one plus its width.
proof fn lemma_offset_step(s: Seq<char>, k: int)
    requires
        0 <= k < s.len(),
    ensures
        offset(s, k + 1) == offset(s, k) + encode_scalar(s[k] as u32).len(),
{
    assert(s.take(k + 1) =~= s.take(k) + seq![s[k]]);
    lemma_encode_concat(s.take(k), seq![s[k]]);
    assert(seq![s[k]].drop_first() =~= Seq::<char>::empty());
    assert(encode_utf8(seq![s[k]]) =~= encode_scalar(s[k] as u32) + encode_utf8(Seq::<char>::empty()));
}

/// Offsets grow with the position.
proof fn lemma_offset_monotonic(s: Seq<char>, j: int, k: int)
    requires
        0 <= j <= k <= s.len(),
    ensures
        offset(s, j) <= offset(s, k),
    decreases k - j,
{
    if j < k {
        lemma_offset_step(s, k - 1);
        lemma_offset_monotonic(s, j, k - 1);
    }
}

/// The width in bytes of a character's UTF-8 encoding.
fn char_width(c: char) -> (w: usize)
    ensures
        w == encode_scalar(c as u32).len(),
{
    let u = c as u32;
    if u <= 0x7F {
        1
    } else if u <= 0x7FF {
        2
    } else if u <= 0xFFFF {
        3
    } else {
        4
    }
}

/// The table from byte offsets (up to `len`) to character positions, after
/// the first `i` characters of `s` were entered: each character's offset
/// maps to its position, other offsets to 0.
pub open spec fn offsets_table(s: Seq<char>, len: int, i: int) -> Seq<usize>
    decreases i,
{
    if i <= 0 {
        Seq::new((len + 1) as nat, |b: int| 0usize)
    } else {
        let t = offsets_table(s, len, i - 1);
        let o = offset(s, i - 1);
        if 0 <= o < t.len() { t.update(o, (i - 1) as usize) } else { t }
    }
}

/// The table has an entry for each offset up to `len`.
pub proof fn lemma_table_len(s: Seq<char>, len: int, i: int)
    requires
        len >= 0,
    ensures
        offsets_table(s, len, i).len() == len + 1,
    decreases i,
{
    if i > 0 {
        lemma_table_len(s, len, i - 1);
    }
}

/// The table from byte offsets to character positions, the end mapping to
/// the number of characters.
pub open spec fn byte_to_char(s: Seq<char>, len: int) -> Seq<usize> {
    offsets_table(s, len, s.len() as int).update(len, s.len() as usize)
}

/// Whether `nd` occurs in `h` at byte `p`.
pub open spec fn bytes_at(h: Seq<u8>, nd: Seq<u8>, p: int) -> bool {
    0 <= p && p + nd.len() <= h.len() && h.subrange(p, p + nd.len()) == nd
}

/// Whether character `k` lies in an occurrence of `nd` in `h` that starts
/// before byte `limit`: from the character at its first byte to the one at
/// its end, by the table `t` from byte offsets to characters.
pub open spec fn byte_covered(h: Seq<u8>, nd: Seq<u8>, t: Seq<usize>, limit: int, k: int) -> bool {
    exists|p: int| 0 <= p < limit && #[trigger] bytes_at(h, nd, p) && t[p] <= k < t[p + nd.len()]
}

/// The marks of the main matcher, used where lowercasing kept the length in
/// bytes: every occurrence of the query in the bytes of the lowercased text,
/// overlapping ones too, marks the characters from the one at its first
/// byte to the one at its end, by the table of the unlowered text's offsets.
pub open spec fn main_flags(chars: Seq<char>, lower: Seq<char>, q: Seq<char>) -> Seq<bool> {
    let h = encode_utf8(lower);
    let nd = encode_utf8(q);
    let t = byte_to_char(chars, h.len() as int);
    Seq::new(chars.len(), |k: int| byte_covered(h, nd, t, h.len() + 1int, k))
}

/// Whether `nd` occurs in `h` at byte `p`.
fn bytes_match(h: &[u8], nd: &[u8], p: usize) -> (res: bool)
    ensures
        res == bytes_at(h@, nd@, p as int),
{
    if p > h.len() || nd.len() > h.len() - p {
        return false;
    }
    let mut i: usize = 0;
    while i < nd.len()
        invariant
            i <= nd.len(),
            p + nd.len() <= h.len(),
            forall|j: int| 0 <= j < i ==> h@[p + j] == nd@[j],
        decreases nd@.len() - i,
    {
        if h[p + i] != nd[i] {
            assert(h@.subrange(p as int, p + nd@.len())[i as int] != nd@[i as int]);
            return false;
        }
        i = i + 1;
    }
    assert(h@.subrange(p as int, p + nd@.len()) =~= nd@);
    true
}

/// The marks of the main matcher.
fn flags_by_bytes(chars: &Vec<(char, TextStyle)>, text: &str, lower: &str, query: &str) -> (res: Vec<bool>)
    requires
        text@ == just_chars(chars@),
        lower.spec_bytes().len() == text.spec_bytes().len(),
        query@.len() > 0,
    ensures
        res@ == main_flags(just_chars(chars@), lower@, query@),
{
    let ghost cv = just_chars(chars@);
    let n = chars.len();
    let len = lower.as_bytes().len();
    let tl = text.as_bytes().len();
    let ghost ilen = len as int;
    let mut table: Vec<usize> = Vec::new();
    let mut b: usize = 0;
    while b < len
        invariant
            b <= len,
            len == lower.spec_bytes().len(),
            table@ == Seq::new(b as nat, |x: int| 0usize),
        decreases len - b,
    {
        table.push(0);
        proof {
            assert(table@ =~= Seq::new((b + 1) as nat, |x: int| 0usize));
        }
        b = b + 1;
    }
    table.push(0);
    proof {
        assert(table@ =~= offsets_table(cv, ilen, 0));
        assert(cv.take(n as int) =~= cv);
        assert(cv =~= text@);
    }
    let mut off: usize = 0;
    let mut k: usize = 0;
    while k < n
        invariant
            k <= n == chars@.len() == cv.len(),
            cv == just_chars(chars@),
            len == lower.spec_bytes().len() == text.spec_bytes().len(),
            text.spec_bytes() == encode_utf8(cv),
            ilen == len,
            off == offset(cv, k as int),
            table@ == offsets_table(cv, ilen, k as int),
            table@.len() == len + 1,
        decreases n - k,
    {
        proof {
            assert(cv.take(n as int) =~= cv);
            lemma_offset_step(cv, k as int);
            lemma_offset_monotonic(cv, k + 1, n as int);
        }
        if off <= len {
            table.set(off, k);
        }
        let w = char_width(chars[k].0);
        off = off + w;
        k = k + 1;
    }
    table.set(len, n);
    proof {
        lemma_table_len(cv, ilen, n as int);
        assert(table@ =~= byte_to_char(cv, ilen));
    }
    let h = lower.as_bytes();
    let nd = query.as_bytes();
    proof {
        lemma_table_len(cv, ilen, n as int);
        let q = query@;
        assert(encode_utf8(q) =~= encode_scalar(q[0] as u32) + encode_utf8(q.drop_first()));
        assert(nd@.len() > 0);
    }
    let ghost t = table@;
    let ql = nd.len();
    let mut flags: Vec<bool> = Vec::new();
    let mut j: usize = 0;
    while j < n
        invariant
            j <= n,
            flags@ == Seq::new(j as nat, |x: int| false),
        decreases n - j,
    {
        flags.push(false);
        proof {
            assert(flags@ =~= Seq::new((j + 1) as nat, |x: int| false));
        }
        j = j + 1;
    }
    if ql <= len {
        let mut p: usize = 0;
        while p <= len - ql
            invariant
                n == chars@.len() == flags@.len(),
                h@ == lower.spec_bytes(),
                len == h@.len(),
                nd@ == query.spec_bytes(),
                ql == nd@.len(),
                0 < ql <= len,
                p <= len - ql + 1,
                t == table@,
                table@.len() == len + 1,
                forall|x: int| 0 <= x < n ==> flags@[x] == byte_covered(h@, nd@, t, p as int, x),
            decreases len - ql + 1 - p,
        {
            let hit = bytes_match(h, nd, p);
            let sc = table[p];
            let ec = table[p + ql];
            let stop = if ec < n { ec } else { n };
            let mut m = sc;
            if hit {
                while m < stop
                    invariant
                        sc <= m,
                        m == sc || m <= stop,
                        stop <= n == flags@.len(),
                        forall|x: int| 0 <= x < n ==> flags@[x] == (byte_covered(h@, nd@, t, p as int, x) || (sc <= x < m)),
                    decreases stop - m,
                {
                    flags.set(m, true);
                    m = m + 1;
                }
            }
            proof {
                assert forall|x: int| 0 <= x < n implies flags@[x] == byte_covered(h@, nd@, t, p + 1, x) by {
                    if byte_covered(h@, nd@, t, p + 1, x) && !byte_covered(h@, nd@, t, p as int, x) {
                        let pp = choose|pp: int| 0 <= pp < p + 1 && #[trigger] bytes_at(h@, nd@, pp) && t[pp] <= x < t[pp + nd@.len()];
                        assert(pp == p);
                    }
                    if hit && sc <= x < m {
                        assert(bytes_at(h@, nd@, p as int));
                    }
                }
            }
            p = p + 1;
        }
        proof {
            assert forall|x: int| 0 <= x < n implies flags@[x] == byte_covered(h@, nd@, t, len + 1, x) by {
                if byte_covered(h@, nd@, t, len + 1, x) {
                    let pp = choose|pp: int| 0 <= pp < len + 1 && #[trigger] bytes_at(h@, nd@, pp) && t[pp] <= x < t[pp + nd@.len()];
                    assert(pp < p);
                }
            }
            assert(flags@ =~= main_flags(cv, lower@, query@));
        }
    } else {
        proof {
            assert forall|x: int| 0 <= x < n implies !#[trigger] byte_covered(h@, nd@, t, len + 1, x) by {
                if byte_covered(h@, nd@, t, len + 1, x) {
                    let pp = choose|pp: int| 0 <= pp < len + 1 && #[trigger] bytes_at(h@, nd@, pp) && t[pp] <= x < t[pp + nd@.len()];
                }
            }
            assert(flags@ =~= main_flags(cv, lower@, query@));
        }
    }
    flags
}

/// The marks of a search in a line's characters: by the bytes of the
/// lowercased text where lowercasing kept its length in bytes, else by its
/// characters.
pub open spec fn match_flags(chars: Seq<char>, q: Seq<char>) -> Seq<bool> {
    let lower = lowercase(chars);
    if encode_utf8(lower).len() != encode_utf8(chars).len() {
        fallback_flags(chars, q)
    } else {
        main_flags(chars, lower, q)
    }
}

/// A line with the matches of `q` (already lowercased) in `overlay`: the
/// line itself for an empty query or where nothing matches; else the line
/// rebuilt from its characters, the matched ones in `overlay` laid over
/// their style, each run of one style a piece.
pub open spec fn spec_highlight(line: Seq<(Seq<char>, TextStyle)>, q: Seq<char>, overlay: TextStyle) -> Seq<(Seq<char>, TextStyle)> {
    if q.len() == 0 {
        line
    } else {
        let cs = line_chars(line);
        let flags = match_flags(just_chars(cs), q);
        if !(exists|k: int| 0 <= k < flags.len() && flags[k]) {
            line
        } else {
            runs(styled(cs, flags, overlay))
        }
    }
}

/// Restyle the matches of `query` (already lowercased) in `line` with
/// `overlay`, splitting pieces at the match boundaries so that only the
/// matched characters change.
pub fn highlight_matches_with(line: &mut StyledLine, query: &str, overlay: TextStyle)
    ensures
        final(line)@ == spec_highlight(old(line)@, query@, overlay),
{
    if query.is_empty() {
        return;
    }
    let chars = chars_with_styles(line);
    let ghost cv = just_chars(chars@);
    let mut text = String::new();
    let mut i: usize = 0;
    while i < chars.len()
        invariant
            i <= chars@.len(),
            cv == just_chars(chars@),
            text@ == cv.take(i as int),
        decreases chars@.len() - i,
    {
        text.push(chars[i].0);
        proof {
            assert(text@ =~= cv.take(i + 1));
        }
        i = i + 1;
    }
    proof {
        assert(cv.take(i as int) =~= cv);
    }
    let lower = to_lowercase(text.as_str());
    let same_len = lower.as_str().as_bytes().len() == text.as_str().as_bytes().len();
    let flags = if same_len {
        flags_by_bytes(&chars, text.as_str(), lower.as_str(), query)
    } else {
        flags_by_chars(&chars, query)
    };
    proof {
        assert(flags@ == match_flags(cv, query@));
    }
    let mut any = false;
    let mut k: usize = 0;
    while k < flags.len()
        invariant
            k <= flags@.len(),
            any == (exists|j: int| 0 <= j < k && flags@[j]),
        decreases flags@.len() - k,
    {
        if flags[k] {
            any = true;
        }
        k = k + 1;
    }
    if !any {
        return;
    }
    proof {
        assert(flags@.len() == chars@.len());
    }
    let spans = rebuild(&chars, &flags, overlay);
    line.spans = spans;
}

/// Restyle the matches of `query` (already lowercased) in `line` with the
/// style of search matches.
pub fn highlight_matches(line: &mut StyledLine, query: &str)
    ensures
        final(line)@ == spec_highlight(old(line)@, query@, match_style()),
{
    let overlay = search_match_style();
    highlight_matches_with(line, query, overlay);
}

/// The characters of a line's pieces with one more character added are the
/// characters before and the new one.
proof fn lemma_line_chars_push(spans: Seq<(Seq<char>, TextStyle)>, piece: (Seq<char>, TextStyle))
    ensures
        line_chars(spans.push(piece)) == line_chars(spans) + piece.0.map_values(|c: char| (c, piece.1)),
{
    assert(spans.push(piece).drop_last() =~= spans);
}

/// The pieces rebuilt from characters give those characters back.
pub proof fn lemma_runs_chars(cs: Seq<(char, TextStyle)>)
    ensures
        line_chars(runs(cs)) == cs,
    decreases cs.len(),
{
    if cs.len() > 0 {
        let r = runs(cs.drop_last());
        let (c, st) = cs.last();
        lemma_runs_chars(cs.drop_last());
        if r.len() > 0 && r.last().1 == st {
            let front = r.drop_last();
            let piece = (r.last().0.push(c), st);
            lemma_line_chars_push(front, piece);
            assert(front.push(r.last()) =~= r);
            lemma_line_chars_push(front, r.last());
            assert(piece.0.map_values(|x: char| (x, piece.1)) =~= r.last().0.map_values(|x: char| (x, r.last().1)).push((c, st)));
            assert(cs =~= cs.drop_last().push((c, st)));
        } else {
            lemma_line_chars_push(r, (seq![c], st));
            assert(seq![c].map_values(|x: char| (x, st)) =~= seq![(c, st)]);
            assert(cs =~= cs.drop_last().push((c, st)));
        }
    }
}

/// Highlighting keeps the text of a line and restyles exactly the marked
/// characters: each character keeps its style, with the overlay laid over
/// it where the search marks it.
pub proof fn lemma_highlight_chars(line: Seq<(Seq<char>, TextStyle)>, q: Seq<char>, overlay: TextStyle)
    ensures
        just_chars(line_chars(spec_highlight(line, q, overlay))) == just_chars(line_chars(line)),
        q.len() > 0 ==> line_chars(spec_highlight(line, q, overlay))
            == styled(line_chars(line), match_flags(just_chars(line_chars(line)), q), overlay),
{
    let cs = line_chars(line);
    if q.len() > 0 {
        let flags = match_flags(just_chars(cs), q);
        let once = styled(cs, flags, overlay);
        if exists|k: int| 0 <= k < flags.len() && flags[k] {
            lemma_runs_chars(once);
        } else {
            assert(once =~= cs);
        }
        assert(just_chars(once) =~= just_chars(cs));
    }
}

/// Highlighting the matches of a query in a line that was already
/// highlighted for it changes nothing.
pub proof fn lemma_highlight_twice(line: Seq<(Seq<char>, TextStyle)>, q: Seq<char>, overlay: TextStyle)
    ensures
        spec_highlight(spec_highlight(line, q, overlay), q, overlay) == spec_highlight(line, q, overlay),
{
    if q.len() > 0 {
        let cs = line_chars(line);
        let flags = match_flags(just_chars(cs), q);
        if exists|k: int| 0 <= k < flags.len() && flags[k] {
            let once = styled(cs, flags, overlay);
            lemma_runs_chars(once);
            assert(just_chars(once) =~= just_chars(cs));
            assert forall|i: int| 0 <= i < cs.len() && flags[i] implies spec_patch(once[i].1, overlay) == once[i].1 by {
                lemma_patch_twice(cs[i].1, overlay);
            }
            assert(styled(once, flags, overlay) =~= once);
        }
    }
}

} // verus!
