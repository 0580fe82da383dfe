//! Bookmarks, as listed by `jj bookmark list`.
use vstd::prelude::*;

use crate::text::chars_eq;
use crate::text::chars_of;
use crate::log::flag_text;
use crate::text::copy_string;
use crate::text::decimal;
use crate::text::digit_char;
use crate::text::find_char;
use crate::text::lemma_find_char_is;
use crate::text::lines;
use crate::text::lines_of;
use crate::text::push_arg;
use crate::text::slice_to_vec;
use crate::text::split_chars;
use crate::text::split_on;
use crate::text::string_from;
use crate::text::strs;
use crate::text::sub_string;

verus! {

/// A bookmark, local or on a remote.
#[derive(Debug, PartialEq, Eq)]
pub struct Bookmark {
    pub name: String,
    pub remote: Option<String>,
    pub present: bool,
    pub timestamp: i64,
}

/// A line of the bookmark list: a bookmark, or text that names none.
#[derive(Debug, PartialEq, Eq)]
pub enum BookmarkLine {
    Parsed { text: String, bookmark: Bookmark },
    Unparsable(String),
}

/// How a bookmark is named in revsets and shown: `name` or `name@remote`.
pub open spec fn bookmark_text(name: Seq<char>, remote: Option<Seq<char>>) -> Seq<char> {
    match remote {
        Some(r) => name + seq!['@'] + r,
        None => name,
    }
}

/// The remote of a bookmark, as text.
pub open spec fn remote_view(remote: Option<String>) -> Option<Seq<char>> {
    match remote {
        Some(r) => Some(r@),
        None => None,
    }
}

/// The mathematical value of a [Bookmark].
pub struct BookmarkView {
    pub name: Seq<char>,
    pub remote: Option<Seq<char>>,
    pub present: bool,
    pub timestamp: i64,
}

impl View for Bookmark {
    type V = BookmarkView;

    open spec fn view(&self) -> BookmarkView {
        BookmarkView { name: self.name@, remote: remote_view(self.remote), present: self.present, timestamp: self.timestamp }
    }
}

/// A copy of an optional string.
pub fn copy_remote(r: &Option<String>) -> (res: Option<String>)
    ensures
        remote_view(res) == remote_view(*r),
{
    match r {
        Some(t) => Some(copy_string(t.as_str())),
        None => None,
    }
}

impl Clone for Bookmark {
    fn clone(&self) -> (res: Self)
        ensures
            res@ == self@,
    {
        Bookmark {
            name: copy_string(self.name.as_str()),
            remote: copy_remote(&self.remote),
            present: self.present,
            timestamp: self.timestamp,
        }
    }
}

/// The mathematical value of a [BookmarkLine].
pub enum BookmarkLineView {
    Parsed { text: Seq<char>, bookmark: BookmarkView },
    Unparsable(Seq<char>),
}

impl View for BookmarkLine {
    type V = BookmarkLineView;

    open spec fn view(&self) -> BookmarkLineView {
        match self {
            BookmarkLine::Parsed { text, bookmark } => BookmarkLineView::Parsed { text: text@, bookmark: bookmark@ },
            BookmarkLine::Unparsable(t) => BookmarkLineView::Unparsable(t@),
        }
    }
}

impl Clone for BookmarkLine {
    fn clone(&self) -> (res: Self)
        ensures
            res@ == self@,
    {
        match self {
            BookmarkLine::Parsed { text, bookmark } => BookmarkLine::Parsed {
                text: copy_string(text.as_str()),
                bookmark: bookmark.clone(),
            },
            BookmarkLine::Unparsable(t) => BookmarkLine::Unparsable(copy_string(t.as_str())),
        }
    }
}

impl Bookmark {
    /// The bookmark as shown and as named in revsets: `name` or `name@remote`.
    pub fn to_text(&self) -> (res: String)
        ensures
            res@ == bookmark_text(self.name@, remote_view(self.remote)),
    {
        let mut res = copy_string(self.name.as_str());
        match &self.remote {
            Some(remote) => {
                res.push('@');
                res.push_str(remote.as_str());
            },
            None => {},
        }
        res
    }
}


/// Whether `c` is a decimal digit.
pub open spec fn is_digit(c: char) -> bool {
    '0' <= c && c <= '9'
}

/// Whether `s` is one or more decimal digits.
pub open spec fn all_digits(s: Seq<char>) -> bool {
    s.len() > 0 && forall|i: int| 0 <= i < s.len() ==> is_digit(#[trigger] s[i])
}

/// The value of the decimal digits `s`.
pub open spec fn digits_value(s: Seq<char>) -> int
    decreases s.len(),
{
    if s.len() == 0 {
        0
    } else {
        digits_value(s.drop_last()) * 10 + (s.last() as int - '0' as int)
    }
}

/// The integer that `s` spells: decimal digits after an optional `-`.
pub open spec fn spec_parse_int(s: Seq<char>) -> Option<int> {
    if s.len() > 0 && s[0] == '-' {
        if all_digits(s.drop_first()) {
            Some(-digits_value(s.drop_first()))
        } else {
            None
        }
    } else if all_digits(s) {
        Some(digits_value(s))
    } else {
        None
    }
}

/// Digits are worth no less than any of their prefixes, and nothing is
/// worth less than zero.
proof fn lemma_digits_prefix(s: Seq<char>, k: int)
    requires
        0 <= k <= s.len(),
        forall|i: int| 0 <= i < s.len() ==> is_digit(#[trigger] s[i]),
    ensures
        0 <= digits_value(s.take(k)) <= digits_value(s),
    decreases s.len(),
{
    if s.len() == 0 {
        assert(s.take(k) =~= s);
    } else {
        let dl = s.drop_last();
        assert forall|i: int| 0 <= i < dl.len() implies is_digit(#[trigger] dl[i]) by {
            assert(dl[i] == s[i]);
        }
        lemma_digits_prefix(dl, dl.len() as int);
        assert(dl.take(dl.len() as int) =~= dl);
        assert(is_digit(s[s.len() - 1]));
        assert(s.last() == s[s.len() - 1]);
        assert(digits_value(s) >= digits_value(dl));
        if k == s.len() {
            assert(s.take(k) =~= s);
        } else {
            lemma_digits_prefix(dl, k);
            assert(dl.take(k) =~= s.take(k));
        }
    }
}

/// The value of the digits `s[from..]`, where they are digits and the value
/// fits in a `u64`.
fn digits_u64(s: &[char], from: usize) -> (res: Option<u64>)
    requires
        from <= s.len(),
    ensures
        all_digits(s@.skip(from as int)) && digits_value(s@.skip(from as int)) <= u64::MAX
            ==> res == Some(digits_value(s@.skip(from as int)) as u64),
        !(all_digits(s@.skip(from as int)) && digits_value(s@.skip(from as int)) <= u64::MAX) ==> res is None,
{
    let ghost t = s@.skip(from as int);
    if from >= s.len() {
        return None;
    }
    let mut v: u64 = 0;
    let mut i: usize = from;
    while i < s.len()
        invariant
            from <= i <= s.len(),
            t == s@.skip(from as int),
            forall|m: int| 0 <= m < i - from ==> is_digit(#[trigger] t[m]),
            v as int == digits_value(t.take(i - from)),
        decreases s.len() - i,
    {
        let c = s[i];
        if !('0' <= c && c <= '9') {
            proof {
                assert(t[i - from] == c);
            }
            return None;
        }
        let d: u64 = (c as u32 - '0' as u32) as u64;
        proof {
            assert(d as int == c as int - '0' as int);
            assert(t.take(i - from + 1).drop_last() =~= t.take(i - from));
            assert(t.take(i - from + 1).last() == c);
        }
        if v > (u64::MAX - d) / 10 {
            proof {
                assert(v * 10 + d > u64::MAX) by (nonlinear_arith)
                    requires
                        v > (u64::MAX - d) / 10,
                        d <= 9,
                ;
                assert(is_digit(t[i - from]));
            }
            if i + 1 < s.len() {
                let mut k = i + 1;
                while k < s.len()
                    invariant
                        from <= i,
                        i + 1 <= k <= s.len(),
                        v * 10 + d > u64::MAX,
                        v as int == digits_value(t.take(i - from)),
                        d as int == s@[i as int] as int - '0' as int,
                        t.take(i - from + 1).drop_last() == t.take(i - from),
                        t.take(i - from + 1).last() == s@[i as int],
                        t == s@.skip(from as int),
                        forall|m: int| 0 <= m < k - from ==> is_digit(#[trigger] t[m]),
                    decreases s.len() - k,
                {
                    let e = s[k];
                    if !('0' <= e && e <= '9') {
                        proof {
                            assert(t[k - from] == e);
                        }
                        return None;
                    }
                    k = k + 1;
                }
            }
            proof {
                assert(t.len() == s@.len() - from);
                lemma_digits_prefix(t, i - from + 1);
                assert(digits_value(t.take(i - from + 1)) == v * 10 + d);
            }
            return None;
        }
        proof {
            assert(v * 10 + d <= u64::MAX) by (nonlinear_arith)
                requires
                    v <= (u64::MAX - d) / 10,
                    d <= 9,
            ;
        }
        v = v * 10 + d;
        i = i + 1;
    }
    proof {
        assert(t.take(i - from) =~= t);
    }
    Some(v)
}

/// The integer that `s` spells, where it fits in an `i64`.
proof fn lemma_i64_cast(x: int)
    requires
        i64::MIN <= x <= i64::MAX,
    ensures
        (x as i64) as int == x,
{
}

proof fn lemma_u64_cast(x: int)
    requires
        0 <= x <= u64::MAX,
    ensures
        (x as u64) as int == x,
{
}

pub fn parse_i64(s: &[char]) -> (res: Option<i64>)
    ensures
        match spec_parse_int(s@) {
            Some(v) => if i64::MIN <= v && v <= i64::MAX {
                res == Some(v as i64)
            } else {
                res is None
            },
            None => res is None,
        },
{
    if s.len() > 0 && s[0] == '-' {
        proof {
            assert(s@.skip(1) =~= s@.drop_first());
        }
        match digits_u64(s, 1) {
            Some(m) => {
                proof {
                    let dv = digits_value(s@.drop_first());
                    lemma_digits_prefix(s@.drop_first(), 0);
                    lemma_u64_cast(dv);
                    assert(m as int == dv);
                    if m <= 9223372036854775808u64 {
                        lemma_i64_cast(-dv);
                    }
                }
                if m == 9223372036854775808u64 {
                    Some(i64::MIN)
                } else if m < 9223372036854775808u64 {
                    Some(-(m as i64))
                } else {
                    None
                }
            },
            None => None,
        }
    } else {
        proof {
            assert(s@.skip(0) =~= s@);
        }
        match digits_u64(s, 0) {
            Some(m) => {
                proof {
                    let dv = digits_value(s@);
                    lemma_digits_prefix(s@, 0);
                    lemma_u64_cast(dv);
                    assert(m as int == dv);
                    if m <= 9223372036854775807u64 {
                        lemma_i64_cast(dv);
                    }
                }
                if m <= 9223372036854775807u64 {
                    Some(m as i64)
                } else {
                    None
                }
            },
            None => None,
        }
    }
}

/// The template of the bookmark list: for each bookmark a line
/// `[name|remote|present|timestamp]` followed by the bookmark as shown, the
/// timestamp being its target's committer time in seconds.
pub const BOOKMARK_TEMPLATE: &'static str = "\"[\" ++ name ++ \"|\" ++ if(remote, remote, \"\") ++ \"|\" ++ present ++ \"|\" ++ if(normal_target, normal_target.committer().timestamp().format(\"%s\"), \"0\") ++ \"]\" ++ label(\"bookmark\", name ++ if(remote, \"@\" ++ remote)) ++ \"\\n\"";

/// A line of the bookmark list, read as [BOOKMARK_TEMPLATE] writes it; any
/// other line is kept as text.
pub open spec fn spec_bookmark_line(l: Seq<char>) -> BookmarkLineView {
    let j = find_char(l, ']');
    if l.len() > 0 && l[0] == '[' && j < l.len() {
        let fields = split_on(l.subrange(1, j), '|');
        if fields.len() == 4 {
            match spec_parse_int(fields[3]) {
                Some(t) => if i64::MIN <= t && t <= i64::MAX {
                    BookmarkLineView::Parsed {
                        text: l.skip(j + 1),
                        bookmark: BookmarkView {
                            name: fields[0],
                            remote: if fields[1].len() == 0 { None } else { Some(fields[1]) },
                            present: fields[2] == "true"@,
                            timestamp: t as i64,
                        },
                    }
                } else {
                    BookmarkLineView::Unparsable(l)
                },
                None => BookmarkLineView::Unparsable(l),
            }
        } else {
            BookmarkLineView::Unparsable(l)
        }
    } else {
        BookmarkLineView::Unparsable(l)
    }
}

/// A line of the bookmark list.
pub fn parse_bookmark_line(l: &[char]) -> (res: BookmarkLine)
    ensures
        res@ == spec_bookmark_line(l@),
{
    let mut j: usize = 0;
    while j < l.len() && l[j] != ']'
        invariant
            j <= l.len(),
            forall|m: int| 0 <= m < j ==> l@[m] != ']',
        decreases l.len() - j,
    {
        j = j + 1;
    }
    proof {
        lemma_find_char_is(l@, ']', j as int);
    }
    if l.len() > 0 && l[0] == '[' && j < l.len() {
        let inner = slice_to_vec(l, 1, j);
        let fields = split_chars(&inner, '|');
        if fields.len() == 4 {
            match parse_i64(&fields[3]) {
                Some(t) => {
                    let name = string_from(&fields[0]);
                    let remote = if fields[1].len() == 0 {
                        None
                    } else {
                        Some(string_from(&fields[1]))
                    };
                    let present = chars_eq(&fields[2], "true");
                    let text = sub_string(l, j + 1, l.len());
                    proof {
                        assert(l@.subrange(j + 1, l@.len() as int) =~= l@.skip(j + 1));
                    }
                    return BookmarkLine::Parsed {
                        text,
                        bookmark: Bookmark { name, remote, present, timestamp: t },
                    };
                },
                None => {},
            }
        }
    }
    BookmarkLine::Unparsable(string_from(l))
}

/// The decimal notation of a number is digits worth that number.
proof fn lemma_decimal_digits(n: nat)
    ensures
        all_digits(decimal(n)),
        digits_value(decimal(n)) == n,
    decreases n,
{
    let s = decimal(n);
    if n < 10 {
        assert(s.drop_last() =~= Seq::<char>::empty());
        assert(digits_value(s.drop_last()) == 0);
        assert(s.last() == digit_char(n as int));
        assert(digit_char(n as int) as int - '0' as int == n);
        assert(is_digit(s[0]));
    } else {
        lemma_decimal_digits(n / 10);
        let r = (n % 10) as int;
        assert(s.drop_last() =~= decimal(n / 10));
        assert(s.last() == digit_char(r));
        assert(digit_char(r) as int - '0' as int == r);
        assert forall|i: int| 0 <= i < s.len() implies is_digit(#[trigger] s[i]) by {
            if i < s.len() - 1 {
                assert(s[i] == decimal(n / 10)[i]);
            }
        }
    }
}

/// How the bookmark template writes a timestamp: its decimal notation,
/// after `-` where it is negative.
pub open spec fn int_text(n: int) -> Seq<char> {
    if n < 0 {
        seq!['-'] + decimal((-n) as nat)
    } else {
        decimal(n as nat)
    }
}

/// Whether a name holds neither `|` nor `]`, which delimit the fields of a
/// bookmark line.
pub open spec fn plain_name(s: Seq<char>) -> bool {
    forall|i: int| 0 <= i < s.len() ==> s[i] != '|' && s[i] != ']'
}

/// A bookmark's line as [BOOKMARK_TEMPLATE] writes it:
/// `[name|remote|present|timestamp]` followed by how it is shown.
pub open spec fn bookmark_line_text(b: BookmarkView, shown: Seq<char>) -> Seq<char> {
    seq!['['] + b.name + seq!['|'] + (match b.remote {
        Some(r) => r,
        None => Seq::empty(),
    }) + seq!['|'] + flag_text(b.present) + seq!['|'] + int_text(b.timestamp as int) + seq![']'] + shown
}

/// Splitting at `|` after a piece without `|` gives that piece first.
proof fn lemma_split_first(a: Seq<char>, rest: Seq<char>)
    requires
        forall|i: int| 0 <= i < a.len() ==> a[i] != '|',
    ensures
        split_on(a + seq!['|'] + rest, '|') == seq![a] + split_on(rest, '|'),
{
    let t = a + seq!['|'] + rest;
    lemma_find_char_is(t, '|', a.len() as int);
    assert(t.take(a.len() as int) =~= a);
    assert(t.skip(a.len() as int + 1) =~= rest);
}

/// A piece without `|` is split into itself.
proof fn lemma_split_none(a: Seq<char>)
    requires
        forall|i: int| 0 <= i < a.len() ==> a[i] != '|',
    ensures
        split_on(a, '|') == seq![a],
{
    lemma_find_char_is(a, '|', a.len() as int);
}

/// What the bookmark template writes, the bookmark list reads back: a
/// bookmark whose name and remote hold no delimiter (and whose remote, where
/// it has one, is not empty) is parsed from its line as itself, with the
/// rest of the line as its shown text.
#[verifier::rlimit(40)]
pub proof fn lemma_parse_bookmark_line_text(b: BookmarkView, shown: Seq<char>)
    requires
        plain_name(b.name),
        match b.remote {
            Some(r) => r.len() > 0 && plain_name(r),
            None => true,
        },
    ensures
        spec_bookmark_line(bookmark_line_text(b, shown)) == (BookmarkLineView::Parsed { text: shown, bookmark: b }),
{
    reveal_strlit("true");
    let r = match b.remote {
        Some(r) => r,
        None => Seq::<char>::empty(),
    };
    let f = flag_text(b.present);
    let n = int_text(b.timestamp as int);
    let ts = b.timestamp as int;
    let inner = b.name + seq!['|'] + r + seq!['|'] + f + seq!['|'] + n;
    let l = bookmark_line_text(b, shown);
    assert(l =~= seq!['['] + inner + seq![']'] + shown);
    let p: int = 1 + inner.len() as int;
    // The timestamp's text: digits, after `-` where negative.
    if ts < 0 {
        lemma_decimal_digits((-ts) as nat);
        assert(n.drop_first() =~= decimal((-ts) as nat));
    } else {
        lemma_decimal_digits(ts as nat);
    }
    assert forall|i: int| 0 <= i < n.len() implies n[i] != '|' && n[i] != ']' by {
        if ts < 0 {
            if i > 0 {
                assert(n[i] == decimal((-ts) as nat)[i - 1]);
                assert(is_digit(decimal((-ts) as nat)[i - 1]));
            }
        } else {
            assert(is_digit(decimal(ts as nat)[i]));
        }
    }
    assert forall|i: int| 0 <= i < f.len() implies f[i] != '|' && f[i] != ']' by {}
    // The first `]` closes the fields.
    assert forall|i: int| 0 <= i < p implies l[i] != ']' by {
        if i >= 1 {
            assert(l[i] == inner[i - 1]);
            let q = i - 1;
            let o1 = b.name.len() as int;
            let o2 = o1 + 1 + r.len();
            let o3 = o2 + 1 + f.len();
            if q < o1 {
                assert(inner[q] == b.name[q]);
            } else if o1 < q < o2 {
                assert(inner[q] == r[q - o1 - 1]);
            } else if o2 < q < o3 {
                assert(inner[q] == f[q - o2 - 1]);
            } else if o3 < q {
                assert(inner[q] == n[q - o3 - 1]);
            }
        }
    }
    assert(l[p] == ']');
    lemma_find_char_is(l, ']', p);
    assert(l.subrange(1, p) =~= inner);
    assert(l.skip(p + 1) =~= shown);
    // The fields between the `|`.
    lemma_split_none(n);
    lemma_split_first(f, n);
    lemma_split_first(r, f + seq!['|'] + n);
    assert(inner =~= b.name + seq!['|'] + (r + seq!['|'] + (f + seq!['|'] + n)));
    assert(r + seq!['|'] + (f + seq!['|'] + n) =~= r + seq!['|'] + f + seq!['|'] + n);
    lemma_split_first(b.name, r + seq!['|'] + (f + seq!['|'] + n));
    let fields = split_on(inner, '|');
    assert(fields =~= seq![b.name, r, f, n]);
    assert(spec_parse_int(n) == Some(ts));
    lemma_i64_cast(ts);
    assert("true"@ =~= seq!['t', 'r', 'u', 'e']);
    if !b.present {
        assert(f.len() != "true"@.len());
    }
    assert((f == "true"@) == b.present);
}

/// The views of bookmark lines.
pub open spec fn line_views(v: Seq<BookmarkLine>) -> Seq<BookmarkLineView>
    decreases v.len(),
{
    if v.len() == 0 {
        Seq::empty()
    } else {
        line_views(v.drop_last()).push(v.last()@)
    }
}

/// The lines of a bookmark list, each read as [spec_bookmark_line] says.
pub open spec fn spec_bookmark_lines(ls: Seq<Seq<char>>) -> Seq<BookmarkLineView>
    decreases ls.len(),
{
    if ls.len() == 0 {
        Seq::empty()
    } else {
        spec_bookmark_lines(ls.drop_last()).push(spec_bookmark_line(ls.last()))
    }
}

/// The lines of the output of `jj bookmark list` with [BOOKMARK_TEMPLATE].
pub fn parse_bookmark_lines(output: &str) -> (res: Vec<BookmarkLine>)
    ensures
        line_views(res@) == spec_bookmark_lines(lines(output@)),
{
    let cs = chars_of(output);
    let ls = lines_of(&cs);
    let mut res: Vec<BookmarkLine> = Vec::new();
    let mut i: usize = 0;
    while i < ls.len()
        invariant
            i <= ls@.len(),
            cs@ == output@,
            ls@.len() == lines(cs@).len(),
            forall|m: int| 0 <= m < ls@.len() ==> #[trigger] ls@[m]@ == lines(cs@)[m],
            res@.len() == i,
            line_views(res@) == spec_bookmark_lines(lines(cs@).take(i as int)),
        decreases ls@.len() - i,
    {
        let line = parse_bookmark_line(&ls[i]);
        let ghost before = res@;
        res.push(line);
        proof {
            assert(res@.drop_last() =~= before);
            let taken = lines(cs@).take(i + 1);
            assert(taken.drop_last() =~= lines(cs@).take(i as int));
        }
        i = i + 1;
    }
    proof {
        assert(lines(cs@).take(i as int) =~= lines(cs@));
    }
    res
}

/// The bookmarks among the views of bookmark lines, in order.
pub open spec fn parsed_bookmarks(v: Seq<BookmarkLineView>) -> Seq<BookmarkView>
    decreases v.len(),
{
    if v.len() == 0 {
        Seq::empty()
    } else {
        match v.last() {
            BookmarkLineView::Parsed { bookmark, .. } => parsed_bookmarks(v.drop_last()).push(bookmark),
            BookmarkLineView::Unparsable(_) => parsed_bookmarks(v.drop_last()),
        }
    }
}

/// The views of bookmarks.
pub open spec fn bookmark_views(v: Seq<Bookmark>) -> Seq<BookmarkView>
    decreases v.len(),
{
    if v.len() == 0 {
        Seq::empty()
    } else {
        bookmark_views(v.drop_last()).push(v.last()@)
    }
}

/// The bookmarks in the output of `jj bookmark list` with
/// [BOOKMARK_TEMPLATE], lines naming none left out.
pub fn parse_bookmarks(output: &str) -> (res: Vec<Bookmark>)
    ensures
        bookmark_views(res@) == parsed_bookmarks(spec_bookmark_lines(lines(output@))),
{
    let all = parse_bookmark_lines(output);
    let mut res: Vec<Bookmark> = Vec::new();
    let mut i: usize = 0;
    while i < all.len()
        invariant
            i <= all@.len(),
            line_views(all@) == spec_bookmark_lines(lines(output@)),
            bookmark_views(res@) == parsed_bookmarks(line_views(all@.take(i as int))),
        decreases all@.len() - i,
    {
        proof {
            let taken = all@.take(i + 1);
            assert(taken.drop_last() =~= all@.take(i as int));
            assert(taken.last() == all@[i as int]);
            let lv = line_views(taken);
            assert(lv.drop_last() =~= line_views(all@.take(i as int)));
            assert(lv.last() == all@[i as int]@);
        }
        match &all[i] {
            BookmarkLine::Parsed { bookmark, .. } => {
                let ghost before = res@;
                res.push(bookmark.clone());
                proof {
                    assert(res@.drop_last() =~= before);
                }
            },
            BookmarkLine::Unparsable(_) => {},
        }
        i = i + 1;
    }
    proof {
        assert(all@.take(i as int) =~= all@);
    }
    res
}

/// `jj bookmark list --template <template>`, with `--all-remotes` when
/// every remote bookmark is asked for.
pub fn bookmark_list_args(all_remotes: bool) -> (res: Vec<String>)
    ensures
        strs(res@) == seq!["bookmark"@, "list"@] + (if all_remotes {
            seq!["--all-remotes"@]
        } else {
            Seq::empty()
        }) + seq!["--template"@, BOOKMARK_TEMPLATE@],
{
    let mut res: Vec<String> = Vec::new();
    push_arg(&mut res, "bookmark");
    push_arg(&mut res, "list");
    if all_remotes {
        push_arg(&mut res, "--all-remotes");
    }
    push_arg(&mut res, "--template");
    push_arg(&mut res, BOOKMARK_TEMPLATE);
    proof {
        assert(strs(res@) =~= seq!["bookmark"@, "list"@] + (if all_remotes {
            seq!["--all-remotes"@]
        } else {
            Seq::empty()
        }) + seq!["--template"@, BOOKMARK_TEMPLATE@]);
    }
    res
}

/// `jj bookmark list -r <revision> --template <template>`: the bookmarks
/// that point at a revision.
pub fn bookmarks_at_args(revision: &str) -> (res: Vec<String>)
    ensures
        strs(res@) == seq!["bookmark"@, "list"@, "-r"@, revision@, "--template"@, BOOKMARK_TEMPLATE@],
{
    let mut res: Vec<String> = Vec::new();
    push_arg(&mut res, "bookmark");
    push_arg(&mut res, "list");
    push_arg(&mut res, "-r");
    push_arg(&mut res, revision);
    push_arg(&mut res, "--template");
    push_arg(&mut res, BOOKMARK_TEMPLATE);
    proof {
        assert(strs(res@) =~= seq!["bookmark"@, "list"@, "-r"@, revision@, "--template"@, BOOKMARK_TEMPLATE@]);
    }
    res
}

} // verus!
