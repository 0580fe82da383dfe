//! jj log output: the heads of changes, and the parsing of the head template.
use vstd::prelude::*;

use crate::commander::diff_args;
use crate::commander::ignore_working_copy_args;
use crate::commander::push_diff_args;
use crate::env::DiffFormat;
use crate::ids::ChangeId;
use crate::ids::CommitId;
use crate::text::find_char;
use crate::text::lemma_find_char_is;
use crate::text::chars_of;
use crate::text::copy_string;
use crate::text::sub_string;
use crate::text::join;
use crate::text::join_strs;
use crate::text::views_of;
use crate::text::lines;
use crate::text::lines_of;
use crate::text::same_text;
use crate::text::strs;
use crate::text::push_arg;
use crate::text::args_of;
use crate::text::without_end_line;
use crate::text::remove_end_line_of;
use crate::text::is_true;
use crate::text::is_true_text;

verus! {

/// A change as seen in the log: its IDs and two of its flags.
#[derive(PartialEq, Eq, Hash, Debug)]
pub struct Head {
    pub change_id: ChangeId,
    pub commit_id: CommitId,
    pub divergent: bool,
    pub immutable: bool,
}

/// The mathematical value of a [Head].
pub struct HeadView {
    pub change_id: Seq<char>,
    pub commit_id: Seq<char>,
    pub divergent: bool,
    pub immutable: bool,
}

impl View for Head {
    type V = HeadView;

    open spec fn view(&self) -> HeadView {
        HeadView {
            change_id: self.change_id@,
            commit_id: self.commit_id@,
            divergent: self.divergent,
            immutable: self.immutable,
        }
    }
}

impl Clone for Head {
    fn clone(&self) -> (res: Self)
        ensures
            res@ == self@,
    {
        Head {
            change_id: self.change_id.clone(),
            commit_id: self.commit_id.clone(),
            divergent: self.divergent,
            immutable: self.immutable,
        }
    }
}

/// The text that did not hold a head.
#[derive(Debug)]
pub struct HeadParseError(pub String);

impl HeadParseError {
    /// The message shown to the user.
    pub fn message(&self) -> (res: String)
        ensures
            res@ == seq!['H', 'e', 'a', 'd', ' ', 'p', 'a', 'r', 's', 'e', ' ', 'e', 'r', 'r', 'o', 'r', ':', ' '] + self.0@,
    {
        let mut res = String::new();
        let prefix = ['H', 'e', 'a', 'd', ' ', 'p', 'a', 'r', 's', 'e', ' ', 'e', 'r', 'r', 'o', 'r', ':', ' '];
        let mut i: usize = 0;
        while i < prefix.len()
            invariant
                i <= prefix@.len(),
                res@ == prefix@.take(i as int),
            decreases prefix.len() - i,
        {
            res.push(prefix[i]);
            i = i + 1;
            proof {
                assert(res@ =~= prefix@.take(i as int));
            }
        }
        proof {
            assert(prefix@.take(i as int) =~= seq!['H', 'e', 'a', 'd', ' ', 'p', 'a', 'r', 's', 'e', ' ', 'e', 'r', 'r', 'o', 'r', ':', ' ']);
        }
        res.push_str(self.0.as_str());
        res
    }
}

/// The largest `j` in `lo..hi` with `t[j] == c`, or `lo - 1` when there is none.
pub open spec fn last_in(t: Seq<char>, c: char, lo: int, hi: int) -> int
    decreases hi - lo,
{
    if hi <= lo {
        lo - 1
    } else if t[hi - 1] == c {
        hi - 1
    } else {
        last_in(t, c, lo, hi - 1)
    }
}

/// The end of the line that position `s` lies in: the first `'\n'` at or
/// after `s`, or the end of `t`.
pub open spec fn line_end(t: Seq<char>, s: int) -> int {
    s + find_char(t.skip(s), '\n')
}

/// For a `'['` at `s`: the `']'` that closes the head, the last one on the line.
pub open spec fn close_of(t: Seq<char>, s: int) -> int {
    last_in(t, ']', s + 1, line_end(t, s + 1))
}

/// For a `'['` at `s`: the third separator, the last `'|'` before the close.
pub open spec fn bar3_of(t: Seq<char>, s: int) -> int {
    last_in(t, '|', s + 1, close_of(t, s))
}

/// For a `'['` at `s`: the second separator.
pub open spec fn bar2_of(t: Seq<char>, s: int) -> int {
    last_in(t, '|', s + 1, bar3_of(t, s))
}

/// For a `'['` at `s`: the first separator.
pub open spec fn bar1_of(t: Seq<char>, s: int) -> int {
    last_in(t, '|', s + 1, bar2_of(t, s))
}

/// Whether a head `[a|b|c|d]` starts at position `s` of `t`, where the four
/// fields hold no line break.
pub open spec fn head_starts_at(t: Seq<char>, s: int) -> bool {
    0 <= s < t.len() && t[s] == '[' && bar1_of(t, s) > s
}

/// The first position at or after `i` where a head starts.
pub open spec fn head_start_from(t: Seq<char>, i: int) -> Option<int>
    decreases t.len() - i,
{
    if i < 0 || i >= t.len() {
        None
    } else if head_starts_at(t, i) {
        Some(i)
    } else {
        head_start_from(t, i + 1)
    }
}

/// The text `true`.
pub open spec fn true_text() -> Seq<char> {
    seq!['t', 'r', 'u', 'e']
}

/// The head whose `'['` is at position `s` of `t`.
pub open spec fn head_at(t: Seq<char>, s: int) -> HeadView {
    HeadView {
        change_id: t.subrange(s + 1, bar1_of(t, s)),
        commit_id: t.subrange(bar1_of(t, s) + 1, bar2_of(t, s)),
        divergent: t.subrange(bar2_of(t, s) + 1, bar3_of(t, s)) == true_text(),
        immutable: t.subrange(bar3_of(t, s) + 1, close_of(t, s)) == true_text(),
    }
}

/// What `parse_head` finds in `t`: the leftmost head `[change|commit|divergent|immutable]`,
/// where the fields take as much of their line as they can (the last `']'`
/// of the line closes the head, and the separators are the last three `'|'`
/// before it).
pub open spec fn spec_parse_head(t: Seq<char>) -> Option<HeadView> {
    match head_start_from(t, 0) {
        Some(s) => Some(head_at(t, s)),
        None => None,
    }
}

proof fn lemma_last_in_bounds(t: Seq<char>, c: char, lo: int, hi: int)
    requires
        lo <= hi,
    ensures
        lo - 1 <= last_in(t, c, lo, hi) < hi,
        last_in(t, c, lo, hi) >= lo ==> t[last_in(t, c, lo, hi)] == c,
    decreases hi - lo,
{
    if hi > lo && t[hi - 1] != c {
        lemma_last_in_bounds(t, c, lo, hi - 1);
    }
}

/// The last `c` in `lo..hi` is at `k` when `t[k]` is `c` and none follows
/// it before `hi`.
proof fn lemma_last_in_is(t: Seq<char>, c: char, lo: int, hi: int, k: int)
    requires
        lo <= k < hi,
        t[k] == c,
        forall|j: int| k < j < hi ==> t[j] != c,
    ensures
        last_in(t, c, lo, hi) == k,
    decreases hi - lo,
{
    if hi - 1 != k {
        lemma_last_in_is(t, c, lo, hi - 1, k);
    }
}

/// How the head template writes a flag: `true` or `false`.
pub open spec fn flag_text(b: bool) -> Seq<char> {
    if b {
        seq!['t', 'r', 'u', 'e']
    } else {
        seq!['f', 'a', 'l', 's', 'e']
    }
}

/// A head as [HEAD_TEMPLATE] writes it: `[change_id|commit_id|divergent|immutable]`.
pub open spec fn head_text(h: HeadView) -> Seq<char> {
    seq!['['] + h.change_id + seq!['|'] + h.commit_id + seq!['|'] + flag_text(h.divergent) + seq!['|']
        + flag_text(h.immutable) + seq![']']
}

/// Whether an ID holds none of the characters that delimit a head, nor a
/// line break (change and commit IDs are letters and digits).
pub open spec fn plain_id(s: Seq<char>) -> bool {
    forall|i: int| 0 <= i < s.len() ==> s[i] != '[' && s[i] != '|' && s[i] != ']' && s[i] != '\n'
}

/// A search for a head from `i` passes over positions that hold no `'['`.
proof fn lemma_head_start_skip(t: Seq<char>, i: int, o: int)
    requires
        0 <= i <= o,
        head_starts_at(t, o),
        forall|j: int| i <= j < o ==> t[j] != '[',
    ensures
        head_start_from(t, i) == Some(o),
    decreases o - i,
{
    if i < o {
        lemma_head_start_skip(t, i + 1, o);
    }
}

/// What the head template writes, [parse_head] reads back, whatever graph
/// text stands before and after it on its line: a head whose IDs hold no
/// delimiter, between texts that hold none either, is parsed as itself.
pub proof fn lemma_parse_head_in_line(pre: Seq<char>, h: HeadView, post: Seq<char>)
    requires
        plain_id(pre),
        plain_id(h.change_id),
        plain_id(h.commit_id),
        plain_id(post),
    ensures
        spec_parse_head(pre + head_text(h) + post) == Some(h),
{
    let ht = head_text(h);
    let t = pre + ht + post;
    let o = pre.len() as int;
    let c = h.change_id.len() as int;
    let m = h.commit_id.len() as int;
    let dt = flag_text(h.divergent);
    let it = flag_text(h.immutable);
    let d = dt.len() as int;
    let e = it.len() as int;
    let b1 = 1 + c;
    let b2 = b1 + 1 + m;
    let b3 = b2 + 1 + d;
    let close = b3 + 1 + e;
    let n = t.len() as int;
    assert(ht.len() == close + 1);
    assert(n == o + close + 1 + post.len());
    assert forall|j: int| 0 <= j < o implies #[trigger] t[j] == pre[j] by {}
    assert forall|j: int| o + close < j < n implies #[trigger] t[j] == post[j - o - close - 1] by {}
    assert forall|j: int| o < j < o + b1 implies #[trigger] t[j] == h.change_id[j - o - 1] by {}
    assert forall|j: int| o + b1 < j < o + b2 implies #[trigger] t[j] == h.commit_id[j - o - b1 - 1] by {}
    assert forall|j: int| o + b2 < j < o + b3 implies #[trigger] t[j] == dt[j - o - b2 - 1] by {}
    assert forall|j: int| o + b3 < j < o + close implies #[trigger] t[j] == it[j - o - b3 - 1] by {}
    assert(t[o] == '[');
    assert(t[o + b1] == '|');
    assert(t[o + b2] == '|');
    assert(t[o + b3] == '|');
    assert(t[o + close] == ']');
    assert forall|j: int| 0 <= j < d implies dt[j] != '|' && dt[j] != ']' && dt[j] != '\n' by {}
    assert forall|j: int| 0 <= j < e implies it[j] != '|' && it[j] != ']' && it[j] != '\n' by {}
    // No line break after the `[`: the line ends at the end of the text.
    assert forall|j: int| 0 <= j < t.skip(o + 1).len() implies #[trigger] t.skip(o + 1)[j] != '\n' by {
        let q = j + o + 1;
        assert(t.skip(o + 1)[j] == t[q]);
        if q < o + b1 {
            assert(t[q] == h.change_id[q - o - 1]);
        } else if o + b1 < q < o + b2 {
            assert(t[q] == h.commit_id[q - o - b1 - 1]);
        } else if o + b2 < q < o + b3 {
            assert(t[q] == dt[q - o - b2 - 1]);
        } else if o + b3 < q < o + close {
            assert(t[q] == it[q - o - b3 - 1]);
        } else if o + close < q {
            assert(t[q] == post[q - o - close - 1]);
        }
    }
    lemma_find_char_is(t.skip(o + 1), '\n', t.skip(o + 1).len() as int);
    assert(line_end(t, o + 1) == n);
    assert forall|j: int| o + close < j < n implies t[j] != ']' by {
        assert(t[j] == post[j - o - close - 1]);
    }
    lemma_last_in_is(t, ']', o + 1, n, o + close);
    assert(close_of(t, o) == o + close);
    assert forall|j: int| o + b3 < j < o + close implies t[j] != '|' by {
        assert(t[j] == it[j - o - b3 - 1]);
    }
    lemma_last_in_is(t, '|', o + 1, o + close, o + b3);
    assert(bar3_of(t, o) == o + b3);
    assert forall|j: int| o + b2 < j < o + b3 implies t[j] != '|' by {
        assert(t[j] == dt[j - o - b2 - 1]);
    }
    lemma_last_in_is(t, '|', o + 1, o + b3, o + b2);
    assert(bar2_of(t, o) == o + b2);
    assert forall|j: int| o + b1 < j < o + b2 implies t[j] != '|' by {
        assert(t[j] == h.commit_id[j - o - b1 - 1]);
    }
    lemma_last_in_is(t, '|', o + 1, o + b2, o + b1);
    assert(bar1_of(t, o) == o + b1);
    assert(head_starts_at(t, o));
    assert forall|j: int| 0 <= j < o implies t[j] != '[' by {
        assert(t[j] == pre[j]);
    }
    lemma_head_start_skip(t, 0, o);
    assert(t.subrange(o + 1, o + b1) =~= h.change_id);
    assert(t.subrange(o + b1 + 1, o + b2) =~= h.commit_id);
    assert(t.subrange(o + b2 + 1, o + b3) =~= dt);
    assert(t.subrange(o + b3 + 1, o + close) =~= it);
    assert((dt == true_text()) == h.divergent);
    assert((it == true_text()) == h.immutable);
    assert(head_at(t, o) == h);
}

/// What the head template writes, [parse_head] reads back: a head whose IDs
/// hold no delimiter is parsed from its text as itself.
pub proof fn lemma_parse_head_text(h: HeadView)
    requires
        plain_id(h.change_id),
        plain_id(h.commit_id),
    ensures
        spec_parse_head(head_text(h)) == Some(h),
{
    let none = Seq::<char>::empty();
    lemma_parse_head_in_line(none, h, none);
    assert(none + head_text(h) + none =~= head_text(h));
}

/// `last_in` computed by scanning down from `hi`.
fn last_index_in(t: &[char], c: char, lo: usize, hi: usize) -> (res: usize)
    requires
        1 <= lo,
        hi <= t.len(),
    ensures
        res as int == last_in(t@, c, lo as int, hi as int),
{
    if hi <= lo {
        return lo - 1;
    }
    let mut j = hi;
    while j > lo && t[j - 1] != c
        invariant
            lo <= j <= hi <= t.len(),
            last_in(t@, c, lo as int, hi as int) == last_in(t@, c, lo as int, j as int),
        decreases j,
    {
        j = j - 1;
    }
    if j > lo {
        j - 1
    } else {
        lo - 1
    }
}

/// The end of the line that position `s` lies in.
fn line_end_at(t: &[char], s: usize) -> (res: usize)
    requires
        s <= t.len(),
    ensures
        res as int == line_end(t@, s as int),
        s <= res <= t.len(),
{
    let mut j = s;
    while j < t.len() && t[j] != '\n'
        invariant
            s <= j <= t.len(),
            forall|m: int| s <= m < j ==> t@[m] != '\n',
        decreases t.len() - j,
    {
        j = j + 1;
    }
    proof {
        lemma_find_char_is(t@.skip(s as int), '\n', j - s);
    }
    j
}

/// Whether `t[from..to]` is the text `true`.
fn is_true_at(t: &[char], from: usize, to: usize) -> (res: bool)
    requires
        from <= to <= t.len(),
    ensures
        res == (t@.subrange(from as int, to as int) == true_text()),
{
    if to - from != 4 {
        assert(t@.subrange(from as int, to as int).len() != true_text().len());
        return false;
    }
    let r = t[from] == 't' && t[from + 1] == 'r' && t[from + 2] == 'u' && t[from + 3] == 'e';
    proof {
        if r {
            assert(t@.subrange(from as int, to as int) =~= true_text());
        } else {
            let w = t@.subrange(from as int, to as int);
            if w == true_text() {
                assert(w[0] == 't' && w[1] == 'r' && w[2] == 'u' && w[3] == 'e');
            }
        }
    }
    r
}

/// The separators and close of a head starting at `s`: `(bar1, bar2, bar3, close)`.
fn head_bounds(t: &[char], s: usize) -> (res: (usize, usize, usize, usize))
    requires
        s < t.len(),
    ensures
        res.0 as int == bar1_of(t@, s as int),
        res.1 as int == bar2_of(t@, s as int),
        res.2 as int == bar3_of(t@, s as int),
        res.3 as int == close_of(t@, s as int),
        s <= res.0 <= res.1 <= res.2 <= res.3 <= t.len(),
        res.0 > s ==> s < res.0 < res.1 < res.2 < res.3 < t.len(),
{
    let le = line_end_at(t, s + 1);
    let close = last_index_in(t, ']', s + 1, le);
    proof {
        lemma_last_in_bounds(t@, ']', s + 1, le as int);
    }
    let bar3 = last_index_in(t, '|', s + 1, close);
    proof {
        if close >= s + 1 {
            lemma_last_in_bounds(t@, '|', s + 1, close as int);
        }
    }
    let bar2 = last_index_in(t, '|', s + 1, bar3);
    proof {
        if bar3 >= s + 1 {
            lemma_last_in_bounds(t@, '|', s + 1, bar3 as int);
        }
    }
    let bar1 = last_index_in(t, '|', s + 1, bar2);
    proof {
        if bar2 >= s + 1 {
            lemma_last_in_bounds(t@, '|', s + 1, bar2 as int);
        }
    }
    (bar1, bar2, bar3, close)
}

/// The head found in the characters `t`, if any.
pub fn parse_head_chars(t: &[char]) -> (res: Option<Head>)
    ensures
        match spec_parse_head(t@) {
            Some(h) => res matches Some(head) && head@ == h,
            None => res is None,
        },
{
    let mut s: usize = 0;
    while s < t.len()
        invariant
            s <= t.len(),
            head_start_from(t@, 0) == head_start_from(t@, s as int),
        decreases t.len() - s,
    {
        if t[s] == '[' {
            let (bar1, bar2, bar3, close) = head_bounds(t, s);
            if bar1 > s {
                let head = Head {
                    change_id: ChangeId(sub_string(t, s + 1, bar1)),
                    commit_id: CommitId(sub_string(t, bar1 + 1, bar2)),
                    divergent: is_true_at(t, bar2 + 1, bar3),
                    immutable: is_true_at(t, bar3 + 1, close),
                };
                assert(head_starts_at(t@, s as int));
                return Some(head);
            }
        }
        s = s + 1;
    }
    None
}

/// Parse the head template output `[change_id|commit_id|divergent|immutable]`
/// out of a line of jj output.
///
/// The leftmost `'['` that opens a head is used; its fields take as much of
/// the line as they can.
pub fn parse_head(text: &str) -> (res: Result<Head, HeadParseError>)
    ensures
        match spec_parse_head(text@) {
            Some(h) => res matches Ok(head) && head@ == h,
            None => res matches Err(e) && e.0@ == text@,
        },
{
    let t = chars_of(text);
    match parse_head_chars(&t) {
        Some(head) => Ok(head),
        None => Err(HeadParseError(copy_string(text))),
    }
}

/// The node glyph template for a list of `(glyph, ids)` overrides: a chain of
/// `if(self.contained_in("<ids>"), "<glyph>", ...)` ending in jj's
/// `builtin_log_node`. Overrides with no IDs are left out, and earlier ones
/// are tested first.
pub open spec fn node_template(overrides: Seq<(char, &[&str])>) -> Seq<char>
    decreases overrides.len(),
{
    if overrides.len() == 0 {
        "builtin_log_node"@
    } else if overrides[0].1@.len() == 0 {
        node_template(overrides.drop_first())
    } else {
        "if(self.contained_in(\""@ + join(views_of(overrides[0].1@), "|"@) + "\"), \""@
            + seq![overrides[0].0] + "\", "@ + node_template(overrides.drop_first()) + ")"@
    }
}

/// Whether some override names at least one ID.
pub open spec fn has_override(overrides: Seq<(char, &[&str])>) -> bool {
    exists|i: int| 0 <= i < overrides.len() && #[trigger] overrides[i].1@.len() > 0
}

/// The `--config` value that replaces the graph node glyph of the given
/// commits, or `None` when no override names an ID. Elided-revision nodes,
/// which are not commits, keep jj's usual node.
pub open spec fn spec_log_node_config(overrides: Seq<(char, &[&str])>) -> Option<Seq<char>> {
    if has_override(overrides) {
        Some("templates.log_node=if(!self, builtin_log_node, "@ + node_template(overrides) + ")"@)
    } else {
        None
    }
}

/// Build a `templates.log_node=...` config override string that replaces the
/// graph node glyph with `glyph` for each of `ids`, falling back to jj's usual
/// node otherwise. Returns `None` if there is nothing to override.
pub fn build_log_node_config(overrides: &[(char, &[&str])]) -> (res: Option<String>)
    ensures
        res matches Some(t) ==> spec_log_node_config(overrides@) == Some(t@),
        res is None ==> spec_log_node_config(overrides@) is None,
{
    let mut template = copy_string("builtin_log_node");
    let mut any = false;
    let mut i = overrides.len();
    proof {
        assert(overrides@.skip(i as int) =~= Seq::<(char, &[&str])>::empty());
    }
    while i > 0
        invariant
            i <= overrides.len(),
            template@ == node_template(overrides@.skip(i as int)),
            any == has_override(overrides@.skip(i as int)),
        decreases i,
    {
        i = i - 1;
        let (glyph, ids) = overrides[i];
        let ghost rest = overrides@.skip(i + 1);
        proof {
            assert(overrides@.skip(i as int).drop_first() =~= rest);
            assert(overrides@.skip(i as int)[0] == overrides@[i as int]);
        }
        if ids.len() > 0 {
            let mut t = copy_string("if(self.contained_in(\"");
            let joined = join_strs(ids, "|");
            t.push_str(joined.as_str());
            t.push_str("\"), \"");
            t.push(glyph);
            t.push_str("\", ");
            t.push_str(template.as_str());
            t.push_str(")");
            template = t;
            any = true;
            proof {
                assert(overrides@.skip(i as int)[0].1@.len() > 0);
            }
        } else {
            proof {
                assert forall|k: int| 0 <= k < overrides@.skip(i as int).len() && #[trigger] overrides@.skip(i as int)[k].1@.len() > 0
                    implies k >= 1 && rest[k - 1].1@.len() > 0 by {
                    if k >= 1 {
                        assert(overrides@.skip(i as int)[k] == rest[k - 1]);
                    }
                }
                assert forall|k: int| 0 <= k < rest.len() && #[trigger] rest[k].1@.len() > 0
                    implies overrides@.skip(i as int)[k + 1].1@.len() > 0 by {
                    assert(overrides@.skip(i as int)[k + 1] == rest[k]);
                }
            }
        }
        proof {
            if any {
                assert(overrides@.skip(i as int)[0].1@.len() > 0 || has_override(rest));
            }
            if has_override(rest) {
                let k = choose|k: int| 0 <= k < rest.len() && #[trigger] rest[k].1@.len() > 0;
                assert(overrides@.skip(i as int)[k + 1] == rest[k]);
            }
        }
    }
    proof {
        assert(overrides@.skip(0) =~= overrides@);
    }
    if any {
        let mut res = copy_string("templates.log_node=if(!self, builtin_log_node, ");
        res.push_str(template.as_str());
        res.push_str(")");
        Some(res)
    } else {
        None
    }
}

/// The output of `jj log`: the graph as shown, and the head shown on each line.
#[derive(Debug)]
pub struct LogOutput {
    pub graph: String,
    /// Maps graph line -> head
    pub graph_heads: Vec<Option<Head>>,
    pub heads: Vec<Head>,
}

impl LogOutput {
    /// The head shown on graph line `line`, if any.
    pub fn head_at(&self, line: usize) -> (res: Option<&Head>)
        ensures
            line < self.graph_heads.len() ==> res == match self.graph_heads@[line as int] {
                Some(h) => Some(&h),
                None => None::<&Head>,
            },
            line >= self.graph_heads.len() ==> res is None,
    {
        if line < self.graph_heads.len() {
            match &self.graph_heads[line] {
                Some(h) => Some(h),
                None => None,
            }
        } else {
            None
        }
    }
}

/// The heads of a list of optional heads, in order.
pub open spec fn present_heads(s: Seq<Option<HeadView>>) -> Seq<HeadView>
    decreases s.len(),
{
    if s.len() == 0 {
        Seq::empty()
    } else {
        let rest = present_heads(s.drop_last());
        match s.last() {
            Some(h) => rest.push(h),
            None => rest,
        }
    }
}

/// `s` with every element after its first occurrence removed.
pub open spec fn first_occurrences(s: Seq<HeadView>) -> Seq<HeadView>
    decreases s.len(),
{
    if s.len() == 0 {
        Seq::empty()
    } else {
        let rest = first_occurrences(s.drop_last());
        if rest.contains(s.last()) {
            rest
        } else {
            rest.push(s.last())
        }
    }
}

/// The views of optional heads.
pub open spec fn opt_heads(s: Seq<Option<Head>>) -> Seq<Option<HeadView>> {
    s.map_values(|o: Option<Head>| match o {
        Some(h) => Some(h@),
        None => None,
    })
}

/// The views of heads.
pub open spec fn heads_view(s: Seq<Head>) -> Seq<HeadView> {
    s.map_values(|h: Head| h@)
}

/// Whether two heads are the same.
pub fn same_head(a: &Head, b: &Head) -> (res: bool)
    ensures
        res == (a@ == b@),
{
    same_text(&a.change_id.0, &b.change_id.0) && same_text(&a.commit_id.0, &b.commit_id.0)
        && a.divergent == b.divergent && a.immutable == b.immutable
}

/// Whether `head` is one of `heads`.
fn contains_head(heads: &Vec<Head>, head: &Head) -> (res: bool)
    ensures
        res == heads_view(heads@).contains(head@),
{
    let mut i: usize = 0;
    while i < heads.len()
        invariant
            i <= heads.len(),
            forall|j: int| 0 <= j < i ==> heads@[j]@ != head@,
        decreases heads.len() - i,
    {
        if same_head(&heads[i], head) {
            assert(heads_view(heads@)[i as int] == head@);
            return true;
        }
        i = i + 1;
    }
    proof {
        if heads_view(heads@).contains(head@) {
            let j = choose|j: int| 0 <= j < heads_view(heads@).len() && heads_view(heads@)[j] == head@;
            assert(heads@[j]@ == head@);
        }
    }
    false
}

/// What a sequence holds after its last element is dropped, with that
/// element: what it held.
proof fn lemma_contains_drop_last<A>(s: Seq<A>, x: A)
    requires
        s.len() > 0,
    ensures
        s.contains(x) <==> (s.drop_last().contains(x) || x == s.last()),
{
    if s.contains(x) && x != s.last() {
        let k = choose|k: int| 0 <= k < s.len() && s[k] == x;
        assert(s.drop_last()[k] == x);
    }
    if s.drop_last().contains(x) {
        let k = choose|k: int| 0 <= k < s.drop_last().len() && s.drop_last()[k] == x;
        assert(s[k] == x);
    }
    if x == s.last() {
        assert(s[s.len() - 1] == x);
    }
}

/// Keeping the first occurrence of each element leaves no element twice and
/// keeps every element.
proof fn lemma_first_occurrences(s: Seq<HeadView>)
    ensures
        first_occurrences(s).no_duplicates(),
        forall|x: HeadView| first_occurrences(s).contains(x) <==> s.contains(x),
    decreases s.len(),
{
    if s.len() > 0 {
        let rest = first_occurrences(s.drop_last());
        lemma_first_occurrences(s.drop_last());
        assert forall|x: HeadView| first_occurrences(s).contains(x) <==> s.contains(x) by {
            lemma_contains_drop_last(s, x);
            if !rest.contains(s.last()) {
                lemma_contains_drop_last(rest.push(s.last()), x);
                assert(rest.push(s.last()).drop_last() =~= rest);
            }
        }
        if !rest.contains(s.last()) {
            let r = rest.push(s.last());
            assert forall|i: int, j: int| 0 <= i < r.len() && 0 <= j < r.len() && i != j implies r[i] != r[j] by {
                if i == r.len() - 1 {
                    assert(rest[j] == r[j]);
                } else if j == r.len() - 1 {
                    assert(rest[i] == r[i]);
                } else {
                    assert(rest[i] == r[i] && rest[j] == r[j]);
                }
            }
        }
    }
}

/// The present heads are those of the graph lines that show one.
proof fn lemma_present_heads(g: Seq<Option<HeadView>>)
    ensures
        forall|x: HeadView| present_heads(g).contains(x) <==> (exists|i: int| 0 <= i < g.len() && g[i] == Some(x)),
    decreases g.len(),
{
    if g.len() > 0 {
        lemma_present_heads(g.drop_last());
        assert forall|x: HeadView| present_heads(g).contains(x) <==> (exists|i: int| 0 <= i < g.len() && g[i] == Some(x)) by {
            let rest = present_heads(g.drop_last());
            if let Some(h) = g.last() {
                lemma_contains_drop_last(rest.push(h), x);
                assert(rest.push(h).drop_last() =~= rest);
            }
            if exists|i: int| 0 <= i < g.len() && g[i] == Some(x) {
                let i = choose|i: int| 0 <= i < g.len() && g[i] == Some(x);
                if i < g.len() - 1 {
                    assert(g.drop_last()[i] == Some(x));
                }
            }
            if exists|i: int| 0 <= i < g.drop_last().len() && g.drop_last()[i] == Some(x) {
                let i = choose|i: int| 0 <= i < g.drop_last().len() && g.drop_last()[i] == Some(x);
                assert(g[i] == Some(x));
            }
        }
    }
}

/// The heads of a log hold each head of its graph lines exactly once, and
/// nothing else.
pub proof fn lemma_unique_heads(g: Seq<Option<HeadView>>)
    ensures
        first_occurrences(present_heads(g)).no_duplicates(),
        forall|i: int| 0 <= i < g.len() && g[i] is Some ==> first_occurrences(present_heads(g)).contains(g[i]->0),
        forall|x: HeadView| #[trigger] first_occurrences(present_heads(g)).contains(x)
            ==> exists|i: int| 0 <= i < g.len() && g[i] == Some(x),
{
    lemma_first_occurrences(present_heads(g));
    lemma_present_heads(g);
    assert forall|i: int| 0 <= i < g.len() && g[i] is Some implies first_occurrences(present_heads(g)).contains(g[i]->0) by {
        let x = g[i]->0;
        assert(g[i] == Some(x));
        assert(exists|j: int| 0 <= j < g.len() && g[j] == Some(x));
        assert(present_heads(g).contains(x));
    }
    assert forall|x: HeadView| #[trigger] first_occurrences(present_heads(g)).contains(x)
        implies exists|i: int| 0 <= i < g.len() && g[i] == Some(x) by {
        assert(present_heads(g).contains(x));
    }
}

/// The distinct heads shown in a log, in the order they first appear.
pub fn unique_heads(graph_heads: &Vec<Option<Head>>) -> (res: Vec<Head>)
    ensures
        heads_view(res@) == first_occurrences(present_heads(opt_heads(graph_heads@))),
        heads_view(res@).no_duplicates(),
        forall|i: int| 0 <= i < graph_heads@.len() && opt_heads(graph_heads@)[i] is Some
            ==> heads_view(res@).contains(opt_heads(graph_heads@)[i]->0),
        forall|x: HeadView| #[trigger] heads_view(res@).contains(x)
            ==> exists|i: int| 0 <= i < graph_heads@.len() && opt_heads(graph_heads@)[i] == Some(x),
{
    proof {
        lemma_unique_heads(opt_heads(graph_heads@));
    }
    let mut res: Vec<Head> = Vec::new();
    let mut i: usize = 0;
    while i < graph_heads.len()
        invariant
            i <= graph_heads.len(),
            heads_view(res@) == first_occurrences(present_heads(opt_heads(graph_heads@.take(i as int)))),
        decreases graph_heads.len() - i,
    {
        let ghost before = graph_heads@.take(i as int);
        proof {
            assert(graph_heads@.take(i + 1) =~= before.push(graph_heads@[i as int]));
            assert(opt_heads(before.push(graph_heads@[i as int])) =~= opt_heads(before).push(
                opt_heads(graph_heads@)[i as int]));
            assert(opt_heads(before.push(graph_heads@[i as int])).drop_last() =~= opt_heads(before));
        }
        match &graph_heads[i] {
            Some(h) => {
                let ghost p = present_heads(opt_heads(before));
                proof {
                    assert(present_heads(opt_heads(graph_heads@.take(i + 1))) == p.push(h@));
                    assert(p.push(h@).drop_last() =~= p);
                }
                if !contains_head(&res, h) {
                    let ghost prev = res@;
                    res.push(h.clone());
                    proof {
                        assert(heads_view(res@) =~= heads_view(prev).push(h@));
                    }
                }
            },
            None => {
                proof {
                    assert(present_heads(opt_heads(graph_heads@.take(i + 1))) == present_heads(opt_heads(before)));
                }
            },
        }
        i = i + 1;
    }
    proof {
        assert(graph_heads@.take(i as int) =~= graph_heads@);
    }
    res
}

/// The head shown on each line of a log.
pub open spec fn spec_graph_heads(text: Seq<char>) -> Seq<Option<HeadView>> {
    lines(text).map_values(|l: Seq<char>| spec_parse_head(l))
}

/// The head on each line of `output`, `None` for lines without one.
pub fn parse_graph_heads(output: &str) -> (res: Vec<Option<Head>>)
    ensures
        opt_heads(res@) == spec_graph_heads(output@),
{
    let t = chars_of(output);
    let ls = lines_of(&t);
    let mut res: Vec<Option<Head>> = Vec::new();
    let mut i: usize = 0;
    while i < ls.len()
        invariant
            i <= ls.len(),
            ls@.len() == lines(t@).len(),
            forall|j: int| 0 <= j < ls@.len() ==> #[trigger] ls@[j]@ == lines(t@)[j],
            t@ == output@,
            opt_heads(res@) == spec_graph_heads(output@).take(i as int),
        decreases ls.len() - i,
    {
        let h = parse_head_chars(&ls[i]);
        let ghost prev = res@;
        res.push(h);
        i = i + 1;
        proof {
            assert(opt_heads(res@) =~= opt_heads(prev).push(opt_heads(res@)[i - 1]));
            assert(opt_heads(res@) =~= spec_graph_heads(output@).take(i as int));
        }
    }
    proof {
        assert(spec_graph_heads(output@).take(i as int) =~= spec_graph_heads(output@));
    }
    res
}

/// The heads of lines `ls`, or the first line that holds none.
pub open spec fn spec_parse_heads(ls: Seq<Seq<char>>) -> Result<Seq<HeadView>, Seq<char>>
    decreases ls.len(),
{
    if ls.len() == 0 {
        Ok(Seq::empty())
    } else {
        match spec_parse_head(ls[0]) {
            None => Err(ls[0]),
            Some(h) => match spec_parse_heads(ls.drop_first()) {
                Ok(rest) => Ok(seq![h] + rest),
                Err(e) => Err(e),
            },
        }
    }
}

proof fn lemma_parse_heads_prefix(ls: Seq<Seq<char>>, i: int, done: Seq<HeadView>)
    requires
        0 <= i <= ls.len(),
        done.len() == i,
        forall|j: int| 0 <= j < i ==> spec_parse_head(#[trigger] ls[j]) == Some(done[j]),
    ensures
        spec_parse_heads(ls) == match spec_parse_heads(ls.skip(i)) {
            Ok(rest) => Ok(done + rest),
            Err(e) => Err::<Seq<HeadView>, Seq<char>>(e),
        },
    decreases i,
{
    if i == 0 {
        assert(ls.skip(0) =~= ls);
        match spec_parse_heads(ls) {
            Ok(rest) => {
                assert(done + rest =~= rest);
            },
            Err(e) => {},
        }
    } else {
        assert(spec_parse_head(ls[0]) == Some(done[0]));
        let tail = ls.drop_first();
        assert forall|j: int| 0 <= j < i - 1 implies spec_parse_head(#[trigger] tail[j]) == Some(done.drop_first()[j]) by {
            assert(tail[j] == ls[j + 1]);
        }
        lemma_parse_heads_prefix(tail, i - 1, done.drop_first());
        assert(tail.skip(i - 1) =~= ls.skip(i));
        match spec_parse_heads(ls.skip(i)) {
            Ok(rest) => {
                assert(seq![done[0]] + (done.drop_first() + rest) =~= done + rest);
            },
            Err(e) => {},
        }
    }
}

/// Parse one head per line of `output`; fails on the first line without one.
pub fn parse_heads(output: &str) -> (res: Result<Vec<Head>, HeadParseError>)
    ensures
        match spec_parse_heads(lines(output@)) {
            Ok(hs) => res matches Ok(v) && heads_view(v@) == hs,
            Err(l) => res matches Err(e) && e.0@ == l,
        },
{
    let t = chars_of(output);
    let ls = lines_of(&t);
    let ghost lv = lines(output@);
    let mut res: Vec<Head> = Vec::new();
    let mut i: usize = 0;
    while i < ls.len()
        invariant
            i <= ls.len(),
            t@ == output@,
            lv == lines(t@),
            ls@.len() == lv.len(),
            forall|j: int| 0 <= j < ls@.len() ==> #[trigger] ls@[j]@ == lv[j],
            res@.len() == i,
            forall|j: int| 0 <= j < i ==> spec_parse_head(#[trigger] lv[j]) == Some(res@[j]@),
        decreases ls.len() - i,
    {
        match parse_head_chars(&ls[i]) {
            Some(h) => {
                res.push(h);
            },
            None => {
                proof {
                    assert forall|j: int| 0 <= j < i implies spec_parse_head(#[trigger] lv[j]) == Some(heads_view(res@)[j]) by {}
                    lemma_parse_heads_prefix(lv, i as int, heads_view(res@));
                    assert(lv.skip(i as int)[0] == lv[i as int]);
                }
                let line = sub_string(&ls[i], 0, ls[i].len());
                proof {
                    assert(ls@[i as int]@.subrange(0, ls@[i as int]@.len() as int) =~= ls@[i as int]@);
                }
                return Err(HeadParseError(line));
            },
        }
        i = i + 1;
    }
    proof {
        assert forall|j: int| 0 <= j < i implies spec_parse_head(#[trigger] lv[j]) == Some(heads_view(res@)[j]) by {}
        lemma_parse_heads_prefix(lv, i as int, heads_view(res@));
        assert(lv.skip(i as int) =~= Seq::<Seq<char>>::empty());
        assert(heads_view(res@) + Seq::<HeadView>::empty() =~= heads_view(res@));
    }
    Ok(res)
}

/// The head on the first line of `output`, if there is a line at all.
pub open spec fn spec_first_head(text: Seq<char>) -> Result<Option<HeadView>, Seq<char>> {
    if lines(text).len() == 0 {
        Ok(None)
    } else {
        match spec_parse_head(lines(text)[0]) {
            Some(h) => Ok(Some(h)),
            None => Err(lines(text)[0]),
        }
    }
}

/// The head on the first line of `output`: `None` when there are no lines,
/// an error when the first line holds no head.
pub fn parse_first_head(output: &str) -> (res: Result<Option<Head>, HeadParseError>)
    ensures
        match spec_first_head(output@) {
            Ok(None) => res matches Ok(None),
            Ok(Some(h)) => res matches Ok(Some(head)) && head@ == h,
            Err(l) => res matches Err(e) && e.0@ == l,
        },
{
    let t = chars_of(output);
    let ls = lines_of(&t);
    if ls.len() == 0 {
        return Ok(None);
    }
    match parse_head_chars(&ls[0]) {
        Some(h) => Ok(Some(h)),
        None => {
            let line = sub_string(&ls[0], 0, ls[0].len());
            proof {
                assert(ls@[0]@.subrange(0, ls@[0]@.len() as int) =~= ls@[0]@);
            }
            Err(HeadParseError(line))
        },
    }
}

/// The first of `heads` that is `head` itself, if any.
pub fn find_same_head(heads: &Vec<Head>, head: &Head) -> (res: Option<Head>)
    ensures
        res is Some <==> heads_view(heads@).contains(head@),
        res matches Some(h) ==> h@ == head@,
{
    if contains_head(heads, head) {
        Some(head.clone())
    } else {
        None
    }
}

/// The views of commit IDs.
pub open spec fn commit_ids_view(s: Seq<CommitId>) -> Seq<Seq<char>> {
    s.map_values(|c: CommitId| c@)
}

/// The non-empty lines of `s`.
pub open spec fn non_empty_lines(s: Seq<char>) -> Seq<Seq<char>> {
    lines(s).filter(|l: Seq<char>| l.len() > 0)
}

/// One commit ID per line of `output`.
pub fn parse_commit_id_lines(output: &str) -> (res: Vec<CommitId>)
    ensures
        commit_ids_view(res@) == lines(output@),
{
    let t = chars_of(output);
    let ls = lines_of(&t);
    let mut res: Vec<CommitId> = Vec::new();
    let mut i: usize = 0;
    while i < ls.len()
        invariant
            i <= ls.len(),
            t@ == output@,
            ls@.len() == lines(t@).len(),
            forall|j: int| 0 <= j < ls@.len() ==> #[trigger] ls@[j]@ == lines(t@)[j],
            commit_ids_view(res@) == lines(output@).take(i as int),
        decreases ls.len() - i,
    {
        let id = CommitId(sub_string(&ls[i], 0, ls[i].len()));
        proof {
            assert(ls@[i as int]@.subrange(0, ls@[i as int]@.len() as int) =~= ls@[i as int]@);
        }
        let ghost prev = res@;
        res.push(id);
        i = i + 1;
        proof {
            assert(commit_ids_view(res@) =~= commit_ids_view(prev).push(lines(output@)[i - 1]));
            assert(commit_ids_view(res@) =~= lines(output@).take(i as int));
        }
    }
    proof {
        assert(lines(output@).take(i as int) =~= lines(output@));
    }
    res
}

/// One commit ID per non-empty line of `output`.
pub fn parse_commit_ids(output: &str) -> (res: Vec<CommitId>)
    ensures
        commit_ids_view(res@) == non_empty_lines(output@),
{
    let t = chars_of(output);
    let ls = lines_of(&t);
    let mut res: Vec<CommitId> = Vec::new();
    let mut i: usize = 0;
    let ghost lv = lines(output@);
    while i < ls.len()
        invariant
            i <= ls.len(),
            t@ == output@,
            lv == lines(t@),
            ls@.len() == lv.len(),
            forall|j: int| 0 <= j < ls@.len() ==> #[trigger] ls@[j]@ == lv[j],
            commit_ids_view(res@) == lv.take(i as int).filter(|l: Seq<char>| l.len() > 0),
        decreases ls.len() - i,
    {
        proof {
            assert(lv.take(i + 1).drop_last() =~= lv.take(i as int));
            reveal_with_fuel(Seq::<_>::filter, 1);
        }
        if ls[i].len() > 0 {
            let id = CommitId(sub_string(&ls[i], 0, ls[i].len()));
            proof {
                assert(ls@[i as int]@.subrange(0, ls@[i as int]@.len() as int) =~= ls@[i as int]@);
            }
            let ghost prev = res@;
            res.push(id);
            proof {
                assert(commit_ids_view(res@) =~= commit_ids_view(prev).push(lv[i as int]));
            }
        }
        i = i + 1;
    }
    proof {
        assert(lv.take(i as int) =~= lv);
    }
    res
}

/// Whether one line of an obslog output is the change ID `change_id`.
pub fn obslog_mentions(output: &str, change_id: &ChangeId) -> (res: bool)
    ensures
        res == lines(output@).contains(change_id@),
{
    let ids = parse_commit_id_lines(output);
    let mut i: usize = 0;
    while i < ids.len()
        invariant
            i <= ids.len(),
            commit_ids_view(ids@) == lines(output@),
            forall|j: int| 0 <= j < i ==> ids@[j]@ != change_id@,
        decreases ids.len() - i,
    {
        if same_text(&ids[i].0, &change_id.0) {
            assert(lines(output@)[i as int] == change_id@);
            return true;
        }
        i = i + 1;
    }
    proof {
        if lines(output@).contains(change_id@) {
            let j = choose|j: int| 0 <= j < lines(output@).len() && lines(output@)[j] == change_id@;
            assert(commit_ids_view(ids@)[j] == ids@[j]@);
        }
    }
    false
}

/// Whether the output of a `immutable` template says `true`.
pub fn is_true_output(output: &str) -> (res: bool)
    ensures
        res == is_true_text(without_end_line(output@)),
{
    let trimmed = remove_end_line_of(output);
    is_true(trimmed.as_str())
}

/// Template that outputs `[change_id|commit_id|divergent|immutable]`.
pub const HEAD_TEMPLATE: &'static str = "\"[\" ++ change_id ++ \"|\" ++ commit_id ++ \"|\" ++ divergent ++ \"|\" ++ immutable ++ \"]\"";

/// [HEAD_TEMPLATE] followed by a line break.
pub const HEAD_TEMPLATE_NL: &'static str = "\"[\" ++ change_id ++ \"|\" ++ commit_id ++ \"|\" ++ divergent ++ \"|\" ++ immutable ++ \"]\" ++ \"\\n\"";

/// Template listing a commit's parents in parent order, one commit ID per line.
pub const PARENTS_TEMPLATE: &'static str = "parents.map(|p| p.commit_id()).join(\"\\n\") ++ \"\\n\"";

/// Template giving one commit ID per line.
pub const COMMIT_ID_LINE_TEMPLATE: &'static str = "commit_id ++ \"\\n\"";

/// Template giving a commit's description.
pub const DESCRIPTION_TEMPLATE: &'static str = "description";

/// Template telling whether a commit is immutable.
pub const IMMUTABLE_TEMPLATE: &'static str = "immutable";

/// The head template matching `builtin_log_compact`'s two lines per change.
pub const GRAPH_HEADS_TEMPLATE: &'static str = "\"[\" ++ change_id ++ \"|\" ++ commit_id ++ \"|\" ++ divergent ++ \"|\" ++ immutable ++ \"]\" ++ \" \" ++ bookmarks ++\"\\n\" ++ \"[\" ++ change_id ++ \"|\" ++ commit_id ++ \"|\" ++ divergent ++ \"|\" ++ immutable ++ \"]\"";

/// `jj log --no-graph --template <template> -r <revset>`.
pub fn log_args(revset: &str, template: &str) -> (res: Vec<String>)
    ensures
        strs(res@) == seq!["log"@, "--no-graph"@, "--template"@, template@, "-r"@, revset@],
{
    let mut res: Vec<String> = Vec::new();
    push_arg(&mut res, "log");
    push_arg(&mut res, "--no-graph");
    push_arg(&mut res, "--template");
    push_arg(&mut res, template);
    push_arg(&mut res, "-r");
    push_arg(&mut res, revset);
    proof {
        assert(strs(res@) =~= seq!["log"@, "--no-graph"@, "--template"@, template@, "-r"@, revset@]);
    }
    res
}

/// `jj show <revision>` with the diff format's arguments, and
/// `--ignore-working-copy` when asked for.
pub fn show_args(revision: &str, diff_format: &DiffFormat, ignore_working_copy: bool) -> (res: Vec<String>)
    ensures
        strs(res@) == seq!["show"@, revision@] + diff_args(diff_format@) + ignore_working_copy_args(ignore_working_copy),
{
    let mut res: Vec<String> = Vec::new();
    push_arg(&mut res, "show");
    push_arg(&mut res, revision);
    push_diff_args(&mut res, diff_format);
    if ignore_working_copy {
        push_arg(&mut res, "--ignore-working-copy");
    }
    proof {
        assert(strs(res@) =~= seq!["show"@, revision@] + diff_args(diff_format@) + ignore_working_copy_args(ignore_working_copy));
    }
    res
}

/// [log_args] limited to one revision.
pub fn log_one_args(revset: &str, template: &str) -> (res: Vec<String>)
    ensures
        strs(res@) == seq!["log"@, "--no-graph"@, "--template"@, template@, "-r"@, revset@, "--limit"@, "1"@],
{
    let mut res = log_args(revset, template);
    push_arg(&mut res, "--limit");
    push_arg(&mut res, "1");
    proof {
        assert(strs(res@) =~= seq!["log"@, "--no-graph"@, "--template"@, template@, "-r"@, revset@, "--limit"@, "1"@]);
    }
    res
}

/// `-r <revset>` when a revset is given, nothing otherwise.
pub open spec fn revset_args(revset: Option<String>) -> Seq<Seq<char>> {
    match revset {
        Some(r) => seq!["-r"@, r@],
        None => Seq::empty(),
    }
}

fn push_revset(args: &mut Vec<String>, revset: &Option<String>)
    ensures
        strs(final(args)@) == strs(old(args)@) + revset_args(*revset),
{
    match revset {
        Some(r) => {
            push_arg(args, "-r");
            push_arg(args, r.as_str());
            proof {
                assert(strs(args@) =~= strs(old(args)@) + revset_args(*revset));
            }
        },
        None => {
            proof {
                assert(strs(args@) =~= strs(old(args)@) + revset_args(*revset));
            }
        },
    }
}

/// The arguments of the `jj log` call that draws the graph shown to the user:
/// the compact two-line template, the node glyph overrides, and the revset.
pub fn log_graph_args(revset: &Option<String>, node_config: &Option<String>) -> (res: Vec<String>)
    ensures
        strs(res@) == seq!["log"@, "--template"@, "builtin_log_compact"@] + match node_config {
            Some(c) => seq!["--config"@, c@],
            None => Seq::empty(),
        } + revset_args(*revset),
{
    let mut res: Vec<String> = Vec::new();
    push_arg(&mut res, "log");
    push_arg(&mut res, "--template");
    push_arg(&mut res, "builtin_log_compact");
    let ghost base = strs(res@);
    match node_config {
        Some(c) => {
            push_arg(&mut res, "--config");
            push_arg(&mut res, c.as_str());
        },
        None => {},
    }
    let ghost mid = strs(res@);
    push_revset(&mut res, revset);
    proof {
        assert(base =~= seq!["log"@, "--template"@, "builtin_log_compact"@]);
        match node_config {
            Some(c) => assert(mid =~= base + seq!["--config"@, c@]),
            None => assert(mid =~= base + Seq::<Seq<char>>::empty()),
        }
    }
    res
}

/// The arguments of the `jj log` call whose lines hold the head of each graph line.
pub fn log_heads_args(revset: &Option<String>) -> (res: Vec<String>)
    ensures
        strs(res@) == seq!["log"@, "--template"@, GRAPH_HEADS_TEMPLATE@] + revset_args(*revset),
{
    let mut res: Vec<String> = Vec::new();
    push_arg(&mut res, "log");
    push_arg(&mut res, "--template");
    push_arg(&mut res, GRAPH_HEADS_TEMPLATE);
    proof {
        assert(strs(res@) =~= seq!["log"@, "--template"@, GRAPH_HEADS_TEMPLATE@]);
    }
    push_revset(&mut res, revset);
    res
}

/// `jj obslog` listing the change IDs a commit evolved from, one per line.
pub fn obslog_args(commit_id: &CommitId) -> (res: Vec<String>)
    ensures
        strs(res@) == seq!["obslog"@, "--no-graph"@, "--template"@,
            "commit.change_id() ++ \"\\n\""@, "-r"@, commit_id@],
{
    let mut res: Vec<String> = Vec::new();
    push_arg(&mut res, "obslog");
    push_arg(&mut res, "--no-graph");
    push_arg(&mut res, "--template");
    push_arg(&mut res, "commit.change_id() ++ \"\\n\"");
    push_arg(&mut res, "-r");
    push_arg(&mut res, commit_id.as_str());
    proof {
        assert(strs(res@) =~= seq!["obslog"@, "--no-graph"@, "--template"@,
            "commit.change_id() ++ \"\\n\""@, "-r"@, commit_id@]);
    }
    res
}

/// The revset of all commits of a change: `change_id(<id>)`.
pub fn change_revset(change_id: &ChangeId) -> (res: String)
    ensures
        res@ == "change_id("@ + change_id@ + ")"@,
{
    let mut res = copy_string("change_id(");
    res.push_str(change_id.as_str());
    res.push_str(")");
    res
}

/// The revset of a commit's parents: `<id>-`.
pub fn parent_revset(commit_id: &CommitId) -> (res: String)
    ensures
        res@ == commit_id@ + "-"@,
{
    let mut res = copy_string(commit_id.as_str());
    res.push_str("-");
    res
}

/// The revset of the heads among commits: `heads(<id>|<id>|...)`.
pub fn heads_among_revset(commit_ids: &[CommitId]) -> (res: String)
    ensures
        res@ == "heads("@ + join(commit_ids_view(commit_ids@), "|"@) + ")"@,
{
    let mut joined = String::new();
    let mut i: usize = 0;
    while i < commit_ids.len()
        invariant
            i <= commit_ids.len(),
            joined@ == join(commit_ids_view(commit_ids@.take(i as int)), "|"@),
        decreases commit_ids.len() - i,
    {
        proof {
            assert(commit_ids@.take(i + 1) =~= commit_ids@.take(i as int).push(commit_ids@[i as int]));
            assert(commit_ids_view(commit_ids@.take(i + 1)) =~= commit_ids_view(commit_ids@.take(i as int)).push(commit_ids@[i as int]@));
            crate::text::lemma_join_push(commit_ids_view(commit_ids@.take(i as int)), "|"@, commit_ids@[i as int]@);
        }
        if i > 0 {
            joined.push_str("|");
        }
        joined.push_str(commit_ids[i].as_str());
        i = i + 1;
    }
    proof {
        assert(commit_ids@.take(i as int) =~= commit_ids@);
    }
    let mut res = copy_string("heads(");
    res.push_str(joined.as_str());
    res.push_str(")");
    res
}

} // verus!
