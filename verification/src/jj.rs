//! Simpler jj commands: the arguments they take and the output they report.
use vstd::prelude::*;

use crate::bookmarks::Bookmark;
use crate::bookmarks::bookmark_text;
use crate::bookmarks::remote_view;
use crate::ids::CommitId;
use crate::log::Head;
use crate::log::HeadView;
use crate::log::heads_view;
use crate::log::commit_ids_view;
use crate::text::chars_of;
use crate::text::has_prefix;
use crate::text::lines;
use crate::text::lines_of;
use crate::text::push_arg;
use crate::text::starts_with;
use crate::text::strs;
use crate::text::sub_string;
use crate::text::words;
use crate::text::words_of;
use crate::text::views_of;
use crate::text::same_text;
use crate::log::same_head;

verus! {

/// The revisions `jj absorb` rewrote, split by why they were rewritten.
#[derive(Debug)]
pub struct AbsorbOutcome {
    /// Revisions that actually received absorbed hunks.
    pub absorbed: Vec<Head>,
    /// Revisions rewritten only because they descend from an absorbed
    /// revision and were rebased along with it.
    pub rebased: Vec<Head>,
}

/// `Created new commit `.
pub open spec fn created_prefix() -> Seq<char> {
    "Created new commit "@
}

/// The index of the first of `ls` that starts with `p`, or `ls.len()`.
pub open spec fn first_line_with_prefix(ls: Seq<Seq<char>>, p: Seq<char>) -> int
    decreases ls.len(),
{
    if ls.len() == 0 {
        0
    } else if has_prefix(ls[0], p) {
        0
    } else {
        1 + first_line_with_prefix(ls.drop_first(), p)
    }
}

proof fn lemma_first_line_with_prefix_is(ls: Seq<Seq<char>>, p: Seq<char>, k: int)
    requires
        0 <= k <= ls.len(),
        k < ls.len() ==> has_prefix(ls[k], p),
        forall|j: int| 0 <= j < k ==> !has_prefix(#[trigger] ls[j], p),
    ensures
        first_line_with_prefix(ls, p) == k,
    decreases ls.len(),
{
    if ls.len() > 0 && !has_prefix(ls[0], p) {
        assert forall|j: int| 0 <= j < k - 1 implies !has_prefix(#[trigger] ls.drop_first()[j], p) by {
            assert(ls.drop_first()[j] == ls[j + 1]);
        }
        lemma_first_line_with_prefix_is(ls.drop_first(), p, k - 1);
    }
}

/// The commit named in `jj new --no-edit`'s `Created new commit <change_id>
/// <commit_id> ...` message: the second word after the prefix, on the first
/// line that starts with it.
pub open spec fn spec_created_commit(stderr: Seq<char>) -> Option<Seq<char>> {
    let ls = lines(stderr);
    let k = first_line_with_prefix(ls, created_prefix());
    if 0 <= k < ls.len() && words(ls[k].skip(created_prefix().len() as int)).len() > 1 {
        Some(words(ls[k].skip(created_prefix().len() as int))[1])
    } else {
        None
    }
}

/// Parse the commit ID prefix out of `jj new --no-edit`'s
/// `Created new commit <change_id> <commit_id> ...` message.
pub fn parse_created_commit(stderr: &str) -> (res: Option<String>)
    ensures
        (match res {
            Some(c) => Some(c@),
            None => None,
        }) == spec_created_commit(stderr@),
{
    let t = chars_of(stderr);
    let ls = lines_of(&t);
    let prefix = chars_of("Created new commit ");
    let mut k: usize = 0;
    while k < ls.len() && !starts_with(&ls[k], &prefix)
        invariant
            k <= ls.len(),
            t@ == stderr@,
            prefix@ == created_prefix(),
            ls@.len() == lines(t@).len(),
            forall|j: int| 0 <= j < ls@.len() ==> #[trigger] ls@[j]@ == lines(t@)[j],
            forall|j: int| 0 <= j < k ==> !has_prefix(#[trigger] lines(t@)[j], prefix@),
        decreases ls.len() - k,
    {
        k = k + 1;
    }
    proof {
        lemma_first_line_with_prefix_is(lines(t@), prefix@, k as int);
    }
    if k == ls.len() {
        return None;
    }
    let rest = sub_string(&ls[k], prefix.len(), ls[k].len());
    let rest_chars = chars_of(rest.as_str());
    proof {
        assert(rest_chars@ =~= lines(t@)[k as int].skip(prefix@.len() as int));
    }
    let ws = words_of(&rest_chars);
    if ws.len() > 1 {
        Some(sub_string(&ws[1], 0, ws[1].len()))
    } else {
        None
    }
}

/// `Absorbed changes into`.
pub open spec fn absorbed_prefix() -> Seq<char> {
    "Absorbed changes into"@
}

/// The first word of each entry line (`  <change_id> <commit_id> <description>`)
/// at the start of `ls`, up to the first line that does not start with two spaces.
pub open spec fn absorb_entries(ls: Seq<Seq<char>>) -> Seq<Seq<char>>
    decreases ls.len(),
{
    if ls.len() == 0 || !has_prefix(ls[0], seq![' ', ' ']) {
        Seq::empty()
    } else {
        let ws = words(ls[0].skip(2));
        (if ws.len() > 0 {
            seq![ws[0]]
        } else {
            Seq::empty()
        }) + absorb_entries(ls.drop_first())
    }
}

/// The change ID prefixes listed under `jj absorb`'s "Absorbed changes into N
/// revisions:" line; empty when that line is missing.
pub open spec fn spec_absorb_destinations(stderr: Seq<char>) -> Seq<Seq<char>> {
    let ls = lines(stderr);
    let k = first_line_with_prefix(ls, absorbed_prefix());
    if 0 <= k < ls.len() {
        absorb_entries(ls.skip(k + 1))
    } else {
        Seq::empty()
    }
}

proof fn lemma_absorb_entries_step(ls: Seq<Seq<char>>, i: int)
    requires
        0 <= i < ls.len(),
        has_prefix(ls[i], seq![' ', ' ']),
    ensures
        absorb_entries(ls.skip(i)) == (if words(ls[i].skip(2)).len() > 0 {
            seq![words(ls[i].skip(2))[0]]
        } else {
            Seq::<Seq<char>>::empty()
        }) + absorb_entries(ls.skip(i + 1)),
{
    assert(ls.skip(i).drop_first() =~= ls.skip(i + 1));
    assert(ls.skip(i)[0] == ls[i]);
}

/// Parse the change ID prefixes out of `jj absorb`'s "Absorbed changes into
/// N revisions:" listing, whose entries look like `  wnzmyvwk b9a3db4b commit-A`.
/// Returns an empty list if the message isn't present.
pub fn parse_absorb_destinations(stderr: &str) -> (res: Vec<String>)
    ensures
        strs(res@) == spec_absorb_destinations(stderr@),
{
    let t = chars_of(stderr);
    let ls = lines_of(&t);
    let prefix = chars_of("Absorbed changes into");
    let mut k: usize = 0;
    while k < ls.len() && !starts_with(&ls[k], &prefix)
        invariant
            k <= ls.len(),
            t@ == stderr@,
            prefix@ == absorbed_prefix(),
            ls@.len() == lines(t@).len(),
            forall|j: int| 0 <= j < ls@.len() ==> #[trigger] ls@[j]@ == lines(t@)[j],
            forall|j: int| 0 <= j < k ==> !has_prefix(#[trigger] lines(t@)[j], prefix@),
        decreases ls.len() - k,
    {
        k = k + 1;
    }
    proof {
        lemma_first_line_with_prefix_is(lines(t@), prefix@, k as int);
    }
    let mut res: Vec<String> = Vec::new();
    if k == ls.len() {
        proof {
            assert(strs(res@) =~= Seq::<Seq<char>>::empty());
        }
        return res;
    }
    let ghost lv = lines(t@);
    let indent = [' ', ' '];
    proof {
        assert(indent@ =~= seq![' ', ' ']);
    }
    let mut i = k + 1;
    while i < ls.len() && starts_with(&ls[i], &indent)
        invariant
            k < i <= ls.len(),
            lv == lines(t@),
            t@ == stderr@,
            indent@ == seq![' ', ' '],
            ls@.len() == lv.len(),
            forall|j: int| 0 <= j < ls@.len() ==> #[trigger] ls@[j]@ == lv[j],
            strs(res@) + absorb_entries(lv.skip(i as int)) == absorb_entries(lv.skip(k + 1)),
        decreases ls.len() - i,
    {
        proof {
            lemma_absorb_entries_step(lv, i as int);
        }
        let entry = sub_string(&ls[i], 2, ls[i].len());
        let entry_chars = chars_of(entry.as_str());
        proof {
            assert(entry_chars@ =~= lv[i as int].skip(2));
        }
        let ws = words_of(&entry_chars);
        let ghost prev = strs(res@);
        if ws.len() > 0 {
            let first = sub_string(&ws[0], 0, ws[0].len());
            proof {
                assert(ws@[0]@.subrange(0, ws@[0]@.len() as int) =~= ws@[0]@);
            }
            res.push(first);
            proof {
                assert(strs(res@) =~= prev + seq![words(lv[i as int].skip(2))[0]]);
                assert(strs(res@) + absorb_entries(lv.skip(i + 1)) =~= prev + (seq![words(lv[i as int].skip(2))[0]] + absorb_entries(lv.skip(i + 1))));
            }
        } else {
            proof {
                assert(Seq::<Seq<char>>::empty() + absorb_entries(lv.skip(i + 1)) =~= absorb_entries(lv.skip(i + 1)));
            }
        }
        i = i + 1;
    }
    proof {
        if i < ls.len() {
            assert(lv.skip(i as int)[0] == lv[i as int]);
        } else {
            assert(lv.skip(i as int) =~= Seq::<Seq<char>>::empty());
        }
        assert(absorb_entries(lv.skip(i as int)) =~= Seq::<Seq<char>>::empty());
        assert(strs(res@) + Seq::<Seq<char>>::empty() =~= strs(res@));
    }
    res
}

/// The last of `after` whose change ID is `change_id`.
pub open spec fn last_with_change(after: Seq<HeadView>, change_id: Seq<char>) -> Option<HeadView>
    decreases after.len(),
{
    if after.len() == 0 {
        None
    } else if after.last().change_id == change_id {
        Some(after.last())
    } else {
        last_with_change(after.drop_last(), change_id)
    }
}

/// The new heads of the changes in `before` whose commit changed between
/// `before` and `after`, leaving out the commit `revision` itself.
pub open spec fn rewritten_heads(before: Seq<HeadView>, revision: Seq<char>, after: Seq<HeadView>) -> Seq<HeadView>
    decreases before.len(),
{
    if before.len() == 0 {
        Seq::empty()
    } else {
        let rest = rewritten_heads(before.drop_last(), revision, after);
        let old = before.last();
        match last_with_change(after, old.change_id) {
            Some(new) => if old.commit_id != revision && new.commit_id != old.commit_id {
                rest.push(new)
            } else {
                rest
            },
            None => rest,
        }
    }
}

/// Whether a rewritten head received absorbed hunks: its change ID starts
/// with one of the listed destination prefixes.
pub open spec fn is_absorb_destination(h: HeadView, destinations: Seq<Seq<char>>) -> bool {
    exists|i: int| 0 <= i < destinations.len() && has_prefix(h.change_id, #[trigger] destinations[i])
}

/// The outcome of `jj absorb`: the rewritten heads that received hunks and
/// those only rebased. When heads were rewritten but no destination was
/// listed, all of them count as absorbed.
pub open spec fn spec_absorb_outcome(
    before: Seq<HeadView>,
    revision: Seq<char>,
    destinations: Seq<Seq<char>>,
    after: Seq<HeadView>,
) -> (Seq<HeadView>, Seq<HeadView>) {
    let r = rewritten_heads(before, revision, after);
    if r.len() > 0 && destinations.len() == 0 {
        (r, Seq::empty())
    } else {
        (
            r.filter(|h: HeadView| is_absorb_destination(h, destinations)),
            r.filter(|h: HeadView| !is_absorb_destination(h, destinations)),
        )
    }
}

/// The head found for a change is a head of `after` with that change ID.
proof fn lemma_last_with_change(after: Seq<HeadView>, change_id: Seq<char>)
    ensures
        last_with_change(after, change_id) matches Some(h) ==> after.contains(h) && h.change_id == change_id,
    decreases after.len(),
{
    if after.len() > 0 {
        lemma_last_with_change(after.drop_last(), change_id);
        if after.last().change_id == change_id {
            assert(after[after.len() - 1] == after.last());
        } else if let Some(h) = last_with_change(after.drop_last(), change_id) {
            let k = choose|k: int| 0 <= k < after.drop_last().len() && after.drop_last()[k] == h;
            assert(after[k] == h);
        }
    }
}

/// Each rewritten head is a head of `after` whose change had another commit
/// in `before`, and that commit was not the absorbed revision.
proof fn lemma_rewritten_heads(before: Seq<HeadView>, revision: Seq<char>, after: Seq<HeadView>)
    ensures
        forall|h: HeadView| #[trigger] rewritten_heads(before, revision, after).contains(h) ==> after.contains(h)
            && exists|j: int| 0 <= j < before.len() && before[j].change_id == h.change_id
                && before[j].commit_id != revision && before[j].commit_id != h.commit_id,
    decreases before.len(),
{
    if before.len() > 0 {
        let rest = rewritten_heads(before.drop_last(), revision, after);
        let old = before.last();
        lemma_rewritten_heads(before.drop_last(), revision, after);
        lemma_last_with_change(after, old.change_id);
        assert forall|h: HeadView| #[trigger] rewritten_heads(before, revision, after).contains(h) implies after.contains(h)
            && exists|j: int| 0 <= j < before.len() && before[j].change_id == h.change_id
                && before[j].commit_id != revision && before[j].commit_id != h.commit_id by {
            let r = rewritten_heads(before, revision, after);
            let k = choose|k: int| 0 <= k < r.len() && r[k] == h;
            if k < rest.len() && r[k] == rest[k] {
                assert(rest.contains(h));
                let j = choose|j: int| 0 <= j < before.drop_last().len() && before.drop_last()[j].change_id == h.change_id
                    && before.drop_last()[j].commit_id != revision && before.drop_last()[j].commit_id != h.commit_id;
                assert(before[j] == before.drop_last()[j]);
            } else {
                assert(before[before.len() - 1] == old);
            }
        }
    }
}

/// What a filter keeps was in the sequence.
proof fn lemma_filter_within(s: Seq<HeadView>, pred: spec_fn(HeadView) -> bool)
    ensures
        forall|x: HeadView| #[trigger] s.filter(pred).contains(x) ==> s.contains(x),
    decreases s.len(),
{
    reveal(Seq::filter);
    if s.len() > 0 {
        lemma_filter_within(s.drop_last(), pred);
        assert forall|x: HeadView| #[trigger] s.filter(pred).contains(x) implies s.contains(x) by {
            let f = s.filter(pred);
            let k = choose|k: int| 0 <= k < f.len() && f[k] == x;
            let sub = s.drop_last().filter(pred);
            if pred(s.last()) && k == f.len() - 1 {
                assert(s[s.len() - 1] == x);
            } else {
                assert(sub[k] == x);
                assert(sub.contains(x));
                let m = choose|m: int| 0 <= m < s.drop_last().len() && s.drop_last()[m] == x;
                assert(s[m] == x);
            }
        }
    }
}

/// What absorb reports was rewritten by it: every head reported (absorbed
/// or rebased) is a head after the absorb whose change had another commit
/// before it, other than the absorbed revision. So the change of the
/// absorbed revision itself is never reported, unless another of its
/// commits (a divergent one) was rewritten.
pub proof fn lemma_absorb_outcome(
    before: Seq<HeadView>,
    revision: Seq<char>,
    destinations: Seq<Seq<char>>,
    after: Seq<HeadView>,
)
    ensures
        forall|h: HeadView|
            #![trigger spec_absorb_outcome(before, revision, destinations, after).0.contains(h)]
            #![trigger spec_absorb_outcome(before, revision, destinations, after).1.contains(h)]
            spec_absorb_outcome(before, revision, destinations, after).0.contains(h)
                || spec_absorb_outcome(before, revision, destinations, after).1.contains(h)
            ==> after.contains(h) && exists|j: int| 0 <= j < before.len() && before[j].change_id == h.change_id
                && before[j].commit_id != revision && before[j].commit_id != h.commit_id,
        forall|i: int, h: HeadView|
            #![trigger before[i], spec_absorb_outcome(before, revision, destinations, after).0.contains(h)]
            #![trigger before[i], spec_absorb_outcome(before, revision, destinations, after).1.contains(h)]
            0 <= i < before.len() && before[i].commit_id == revision
                && (forall|j: int| 0 <= j < before.len() && before[j].change_id == before[i].change_id
                    ==> before[j].commit_id == revision)
                && (spec_absorb_outcome(before, revision, destinations, after).0.contains(h)
                    || spec_absorb_outcome(before, revision, destinations, after).1.contains(h))
            ==> h.change_id != before[i].change_id,
{
    let r = rewritten_heads(before, revision, after);
    lemma_rewritten_heads(before, revision, after);
    assert forall|pred: spec_fn(HeadView) -> bool, x: HeadView| #[trigger] r.filter(pred).contains(x) implies r.contains(x) by {
        lemma_filter_within(r, pred);
    }
    assert forall|h: HeadView|
        spec_absorb_outcome(before, revision, destinations, after).0.contains(h)
            || spec_absorb_outcome(before, revision, destinations, after).1.contains(h)
        implies r.contains(h) by {
        if spec_absorb_outcome(before, revision, destinations, after).1.contains(h) {
            assert(!(r.len() > 0 && destinations.len() == 0));
        }
    }
}

fn find_last_with_change(after: &Vec<Head>, change_id: &String) -> (res: Option<usize>)
    ensures
        match last_with_change(heads_view(after@), change_id@) {
            Some(h) => res matches Some(i) && i < after.len() && after@[i as int]@ == h,
            None => res is None,
        },
{
    let mut i = after.len();
    proof {
        assert(after@.take(i as int) =~= after@);
    }
    while i > 0
        invariant
            i <= after.len(),
            last_with_change(heads_view(after@), change_id@) == last_with_change(heads_view(after@.take(i as int)), change_id@),
        decreases i,
    {
        proof {
            assert(heads_view(after@.take(i as int)).drop_last() =~= heads_view(after@.take(i - 1)));
            assert(heads_view(after@.take(i as int)).last() == after@[i - 1]@);
        }
        if same_text(&after[i - 1].change_id.0, change_id) {
            return Some(i - 1);
        }
        i = i - 1;
    }
    proof {
        assert(heads_view(after@.take(0)) =~= Seq::<HeadView>::empty());
    }
    None
}

fn starts_with_any(change_id: &String, destinations: &Vec<String>) -> (res: bool)
    ensures
        res == exists|i: int| 0 <= i < destinations@.len() && has_prefix(change_id@, #[trigger] strs(destinations@)[i]),
{
    let c = chars_of(change_id.as_str());
    let mut i: usize = 0;
    while i < destinations.len()
        invariant
            i <= destinations.len(),
            c@ == change_id@,
            forall|j: int| 0 <= j < i ==> !has_prefix(change_id@, #[trigger] strs(destinations@)[j]),
        decreases destinations.len() - i,
    {
        let d = chars_of(destinations[i].as_str());
        if starts_with(&c, &d) {
            assert(has_prefix(change_id@, strs(destinations@)[i as int]));
            return true;
        }
        i = i + 1;
    }
    false
}

/// Split the revisions rewritten by `jj absorb` into those that received
/// hunks and those only rebased along. `before` and `after` are the mutable
/// heads before and after the absorb, `revision` the absorbed commit, and
/// `destinations` the change ID prefixes absorb listed.
pub fn absorb_outcome(
    before: &Vec<Head>,
    revision: &str,
    destinations: &Vec<String>,
    after: &Vec<Head>,
) -> (res: AbsorbOutcome)
    ensures
        (heads_view(res.absorbed@), heads_view(res.rebased@)) == spec_absorb_outcome(
            heads_view(before@),
            revision@,
            strs(destinations@),
            heads_view(after@),
        ),
        forall|h: HeadView|
            heads_view(res.absorbed@).contains(h) || heads_view(res.rebased@).contains(h)
            ==> heads_view(after@).contains(h) && exists|j: int| 0 <= j < before@.len()
                && before@[j]@.change_id == h.change_id && before@[j]@.commit_id != revision@
                && before@[j]@.commit_id != h.commit_id,
{
    let res = split_absorbed(before, revision, destinations, after);
    proof {
        lemma_absorb_outcome(heads_view(before@), revision@, strs(destinations@), heads_view(after@));
        let bv = heads_view(before@);
        let out = spec_absorb_outcome(bv, revision@, strs(destinations@), heads_view(after@));
        let ab = out.0;
        let rb = out.1;
        assert(heads_view(res.absorbed@) == ab && heads_view(res.rebased@) == rb);
        assert forall|h: HeadView|
            heads_view(res.absorbed@).contains(h) || heads_view(res.rebased@).contains(h)
            implies heads_view(after@).contains(h) && exists|j: int| 0 <= j < before@.len()
                && before@[j]@.change_id == h.change_id && before@[j]@.commit_id != revision@
                && before@[j]@.commit_id != h.commit_id by {
            assert(ab.contains(h) || rb.contains(h));
            let j = choose|j: int| 0 <= j < bv.len() && bv[j].change_id == h.change_id
                && bv[j].commit_id != revision@ && bv[j].commit_id != h.commit_id;
            assert(bv[j] == before@[j]@);
        }
    }
    res
}

/// The split of the revisions rewritten by `jj absorb`.
fn split_absorbed(
    before: &Vec<Head>,
    revision: &str,
    destinations: &Vec<String>,
    after: &Vec<Head>,
) -> (res: AbsorbOutcome)
    ensures
        (heads_view(res.absorbed@), heads_view(res.rebased@)) == spec_absorb_outcome(
            heads_view(before@),
            revision@,
            strs(destinations@),
            heads_view(after@),
        ),
{
    let rev = crate::text::copy_string(revision);
    let mut rewritten: Vec<Head> = Vec::new();
    let mut i: usize = 0;
    while i < before.len()
        invariant
            i <= before.len(),
            rev@ == revision@,
            heads_view(rewritten@) == rewritten_heads(heads_view(before@.take(i as int)), revision@, heads_view(after@)),
        decreases before.len() - i,
    {
        proof {
            assert(heads_view(before@.take(i + 1)).drop_last() =~= heads_view(before@.take(i as int)));
            assert(heads_view(before@.take(i + 1)).last() == before@[i as int]@);
        }
        let old = &before[i];
        match find_last_with_change(after, &old.change_id.0) {
            Some(j) => {
                let new = &after[j];
                if !same_text(&old.commit_id.0, &rev) && !same_text(&new.commit_id.0, &old.commit_id.0) {
                    let ghost prev = rewritten@;
                    rewritten.push(new.clone());
                    proof {
                        assert(heads_view(rewritten@) =~= heads_view(prev).push(new@));
                    }
                }
            },
            None => {},
        }
        i = i + 1;
    }
    proof {
        assert(before@.take(i as int) =~= before@);
    }
    if rewritten.len() > 0 && destinations.len() == 0 {
        return AbsorbOutcome { absorbed: rewritten, rebased: Vec::new() };
    }
    let ghost r = heads_view(rewritten@);
    let ghost dv = strs(destinations@);
    let mut absorbed: Vec<Head> = Vec::new();
    let mut rebased: Vec<Head> = Vec::new();
    let mut k: usize = 0;
    while k < rewritten.len()
        invariant
            k <= rewritten.len(),
            r == heads_view(rewritten@),
            dv == strs(destinations@),
            heads_view(absorbed@) == r.take(k as int).filter(|h: HeadView| is_absorb_destination(h, dv)),
            heads_view(rebased@) == r.take(k as int).filter(|h: HeadView| !is_absorb_destination(h, dv)),
        decreases rewritten.len() - k,
    {
        proof {
            assert(r.take(k + 1).drop_last() =~= r.take(k as int));
            assert(r.take(k + 1).last() == rewritten@[k as int]@);
            reveal_with_fuel(Seq::<_>::filter, 1);
        }
        let h = &rewritten[k];
        let hit = starts_with_any(&h.change_id.0, destinations);
        proof {
            assert(hit == is_absorb_destination(h@, dv));
        }
        if hit {
            let ghost prev = absorbed@;
            absorbed.push(h.clone());
            proof {
                assert(heads_view(absorbed@) =~= heads_view(prev).push(h@));
            }
        } else {
            let ghost prev = rebased@;
            rebased.push(h.clone());
            proof {
                assert(heads_view(rebased@) =~= heads_view(prev).push(h@));
            }
        }
        k = k + 1;
    }
    proof {
        assert(r.take(k as int) =~= r);
    }
    AbsorbOutcome { absorbed, rebased }
}

/// `[flag, id]` for each of `ids`, in order.
pub open spec fn flag_each(flag: Seq<char>, ids: Seq<Seq<char>>) -> Seq<Seq<char>>
    decreases ids.len(),
{
    if ids.len() == 0 {
        Seq::empty()
    } else {
        flag_each(flag, ids.drop_last()) + seq![flag, ids.last()]
    }
}

/// Append `flag id` for each of `ids`.
fn push_flagged(args: &mut Vec<String>, flag: &str, ids: &[CommitId])
    ensures
        strs(final(args)@) == strs(old(args)@) + flag_each(flag@, commit_ids_view(ids@)),
{
    let ghost start = strs(args@);
    let mut i: usize = 0;
    proof {
        assert(commit_ids_view(ids@.take(0)) =~= Seq::<Seq<char>>::empty());
        assert(strs(args@) =~= start + flag_each(flag@, commit_ids_view(ids@.take(0))));
    }
    while i < ids.len()
        invariant
            i <= ids.len(),
            strs(args@) == start + flag_each(flag@, commit_ids_view(ids@.take(i as int))),
        decreases ids.len() - i,
    {
        push_arg(args, flag);
        push_arg(args, ids[i].as_str());
        proof {
            assert(commit_ids_view(ids@.take(i + 1)).drop_last() =~= commit_ids_view(ids@.take(i as int)));
            assert(commit_ids_view(ids@.take(i + 1)).last() == ids@[i as int]@);
        }
        i = i + 1;
        proof {
            assert(strs(args@) =~= start + flag_each(flag@, commit_ids_view(ids@.take(i as int))));
        }
    }
    proof {
        assert(ids@.take(i as int) =~= ids@);
    }
}

/// Append each of `parts`.
fn push_all(args: &mut Vec<String>, parts: &[&str])
    ensures
        strs(final(args)@) == strs(old(args)@) + views_of(parts@),
{
    let ghost start = strs(args@);
    let mut i: usize = 0;
    proof {
        assert(strs(args@) =~= start + views_of(parts@.take(0)));
    }
    while i < parts.len()
        invariant
            i <= parts.len(),
            strs(args@) == start + views_of(parts@.take(i as int)),
        decreases parts.len() - i,
    {
        push_arg(args, parts[i]);
        i = i + 1;
        proof {
            assert(views_of(parts@.take(i as int)) =~= views_of(parts@.take(i - 1)).push(parts@[i - 1]@));
            assert(strs(args@) =~= start + views_of(parts@.take(i as int)));
        }
    }
    proof {
        assert(parts@.take(i as int) =~= parts@);
    }
}

/// Append `--ignore-immutable` when asked to.
fn push_ignore_immutable(args: &mut Vec<String>, ignore_immutable: bool)
    ensures
        strs(final(args)@) == strs(old(args)@) + ignore_immutable_args(ignore_immutable),
{
    if ignore_immutable {
        push_arg(args, "--ignore-immutable");
    }
    proof {
        assert(strs(args@) =~= strs(old(args)@) + ignore_immutable_args(ignore_immutable));
    }
}

/// `--ignore-immutable` when asked for, nothing otherwise.
pub open spec fn ignore_immutable_args(ignore_immutable: bool) -> Seq<Seq<char>> {
    if ignore_immutable {
        seq!["--ignore-immutable"@]
    } else {
        Seq::empty()
    }
}

/// `jj new <revision>...`: a new change on the revisions, with `@` moved into it.
pub fn new_args(revisions: &[&str]) -> (res: Vec<String>)
    ensures
        strs(res@) == seq!["new"@] + views_of(revisions@),
{
    let mut res: Vec<String> = Vec::new();
    push_arg(&mut res, "new");
    push_all(&mut res, revisions);
    res
}

/// `jj new --no-edit <revision>...`: a new change on the revisions, `@` left alone.
pub fn new_no_edit_args(revisions: &[&str]) -> (res: Vec<String>)
    ensures
        strs(res@) == seq!["new"@, "--no-edit"@] + views_of(revisions@),
{
    let mut res: Vec<String> = Vec::new();
    push_arg(&mut res, "new");
    push_arg(&mut res, "--no-edit");
    push_all(&mut res, revisions);
    res
}

/// `jj new --no-edit -A <after>... -B <before>...`.
pub fn new_insert_args(after: &[CommitId], before: &[CommitId]) -> (res: Vec<String>)
    ensures
        strs(res@) == seq!["new"@, "--no-edit"@] + flag_each("-A"@, commit_ids_view(after@))
            + flag_each("-B"@, commit_ids_view(before@)),
{
    let mut res: Vec<String> = Vec::new();
    push_arg(&mut res, "new");
    push_arg(&mut res, "--no-edit");
    push_flagged(&mut res, "-A", after);
    push_flagged(&mut res, "-B", before);
    res
}

/// `jj rebase -r <revision> -A <after>... -B <before>...`.
pub fn rebase_insert_args(revision: &str, after: &[CommitId], before: &[CommitId]) -> (res: Vec<String>)
    ensures
        strs(res@) == seq!["rebase"@, "-r"@, revision@] + flag_each("-A"@, commit_ids_view(after@))
            + flag_each("-B"@, commit_ids_view(before@)),
{
    let mut res: Vec<String> = Vec::new();
    push_arg(&mut res, "rebase");
    push_arg(&mut res, "-r");
    push_arg(&mut res, revision);
    push_flagged(&mut res, "-A", after);
    push_flagged(&mut res, "-B", before);
    res
}

/// `jj duplicate <revision>`.
pub fn duplicate_args(revision: &str) -> (res: Vec<String>)
    ensures
        strs(res@) == seq!["duplicate"@, revision@],
{
    let mut res: Vec<String> = Vec::new();
    push_arg(&mut res, "duplicate");
    push_arg(&mut res, revision);
    res
}

/// `jj edit <revision> [--ignore-immutable]`.
pub fn edit_args(revision: &str, ignore_immutable: bool) -> (res: Vec<String>)
    ensures
        strs(res@) == seq!["edit"@, revision@] + ignore_immutable_args(ignore_immutable),
{
    let mut res: Vec<String> = Vec::new();
    push_arg(&mut res, "edit");
    push_arg(&mut res, revision);
    push_ignore_immutable(&mut res, ignore_immutable);
    res
}

/// `jj abandon <commit>...`.
pub fn abandon_args(commit_ids: &[CommitId]) -> (res: Vec<String>)
    ensures
        strs(res@) == seq!["abandon"@] + commit_ids_view(commit_ids@),
{
    let mut res: Vec<String> = Vec::new();
    push_arg(&mut res, "abandon");
    let ghost start = strs(res@);
    let mut i: usize = 0;
    proof {
        assert(strs(res@) =~= start + commit_ids_view(commit_ids@.take(0)));
    }
    while i < commit_ids.len()
        invariant
            i <= commit_ids.len(),
            start == seq!["abandon"@],
            strs(res@) == start + commit_ids_view(commit_ids@.take(i as int)),
        decreases commit_ids.len() - i,
    {
        push_arg(&mut res, commit_ids[i].as_str());
        i = i + 1;
        proof {
            assert(commit_ids_view(commit_ids@.take(i as int)) =~= commit_ids_view(commit_ids@.take(i - 1)).push(commit_ids@[i - 1]@));
            assert(strs(res@) =~= start + commit_ids_view(commit_ids@.take(i as int)));
        }
    }
    proof {
        assert(commit_ids@.take(i as int) =~= commit_ids@);
    }
    res
}

/// `jj describe <revision> --stdin`; the message goes on standard input, so
/// that one starting with a dash is not taken for a flag.
pub fn describe_args(revision: &str) -> (res: Vec<String>)
    ensures
        strs(res@) == seq!["describe"@, revision@, "--stdin"@],
{
    let mut res: Vec<String> = Vec::new();
    push_arg(&mut res, "describe");
    push_arg(&mut res, revision);
    push_arg(&mut res, "--stdin");
    res
}

/// `jj rebase <src_mode> <src>... <tgt_mode> <tgt>...`: every source with the
/// same source flag, every target with the same target flag.
pub fn rebase_args(src_mode: &str, src_revs: &[CommitId], tgt_mode: &str, tgt_revs: &[CommitId]) -> (res: Vec<String>)
    ensures
        strs(res@) == seq!["rebase"@] + flag_each(src_mode@, commit_ids_view(src_revs@))
            + flag_each(tgt_mode@, commit_ids_view(tgt_revs@)),
{
    let mut res: Vec<String> = Vec::new();
    push_arg(&mut res, "rebase");
    push_flagged(&mut res, src_mode, src_revs);
    push_flagged(&mut res, tgt_mode, tgt_revs);
    res
}

/// `jj squash -u --from <from>... --into <into> [--ignore-immutable]`; `-u`
/// keeps the destination's description.
pub fn squash_into_args(from: &[CommitId], into: &str, ignore_immutable: bool) -> (res: Vec<String>)
    ensures
        strs(res@) == seq!["squash"@, "-u"@] + flag_each("--from"@, commit_ids_view(from@))
            + seq!["--into"@, into@] + ignore_immutable_args(ignore_immutable),
{
    let mut res: Vec<String> = Vec::new();
    push_arg(&mut res, "squash");
    push_arg(&mut res, "-u");
    push_flagged(&mut res, "--from", from);
    push_arg(&mut res, "--into");
    push_arg(&mut res, into);
    let ghost mid = strs(res@);
    push_ignore_immutable(&mut res, ignore_immutable);
    proof {
        assert(strs(res@) =~= seq!["squash"@, "-u"@] + flag_each("--from"@, commit_ids_view(from@))
            + seq!["--into"@, into@] + ignore_immutable_args(ignore_immutable));
    }
    res
}

/// `jj simplify-parents -r|-s <revision>...`; `-s` also simplifies descendants.
pub fn simplify_parents_args(revisions: &[CommitId], include_descendants: bool) -> (res: Vec<String>)
    ensures
        strs(res@) == seq!["simplify-parents"@] + flag_each(
            if include_descendants { "-s"@ } else { "-r"@ },
            commit_ids_view(revisions@),
        ),
{
    let flag = if include_descendants { "-s" } else { "-r" };
    let mut res: Vec<String> = Vec::new();
    push_arg(&mut res, "simplify-parents");
    push_flagged(&mut res, flag, revisions);
    res
}

/// The summary line of `jj simplify-parents` ("Removed N edges ..."), if any.
pub open spec fn spec_simplify_summary(stderr: Seq<char>) -> Option<Seq<char>> {
    let ls = lines(stderr);
    let k = first_line_with_prefix(ls, "Removed "@);
    if 0 <= k < ls.len() {
        Some(ls[k])
    } else {
        None
    }
}

/// The summary line of `jj simplify-parents`: the first line starting with `Removed `.
pub fn parse_simplify_summary(stderr: &str) -> (res: Option<String>)
    ensures
        (match res {
            Some(l) => Some(l@),
            None => None,
        }) == spec_simplify_summary(stderr@),
{
    let t = chars_of(stderr);
    let ls = lines_of(&t);
    let prefix = chars_of("Removed ");
    let mut k: usize = 0;
    while k < ls.len() && !starts_with(&ls[k], &prefix)
        invariant
            k <= ls.len(),
            t@ == stderr@,
            prefix@ == "Removed "@,
            ls@.len() == lines(t@).len(),
            forall|j: int| 0 <= j < ls@.len() ==> #[trigger] ls@[j]@ == lines(t@)[j],
            forall|j: int| 0 <= j < k ==> !has_prefix(#[trigger] lines(t@)[j], prefix@),
        decreases ls.len() - k,
    {
        k = k + 1;
    }
    proof {
        lemma_first_line_with_prefix_is(lines(t@), prefix@, k as int);
    }
    if k == ls.len() {
        return None;
    }
    let line = sub_string(&ls[k], 0, ls[k].len());
    proof {
        assert(ls@[k as int]@.subrange(0, ls@[k as int]@.len() as int) =~= ls@[k as int]@);
    }
    Some(line)
}

/// `jj absorb --from <revision>`.
pub fn absorb_args(revision: &str) -> (res: Vec<String>)
    ensures
        strs(res@) == seq!["absorb"@, "--from"@, revision@],
{
    let mut res: Vec<String> = Vec::new();
    push_arg(&mut res, "absorb");
    push_arg(&mut res, "--from");
    push_arg(&mut res, revision);
    res
}

/// `jj metaedit --update-change-id <revision> [--ignore-immutable]`.
pub fn metaedit_update_change_id_args(revision: &str, ignore_immutable: bool) -> (res: Vec<String>)
    ensures
        strs(res@) == seq!["metaedit"@, "--update-change-id"@, revision@] + ignore_immutable_args(ignore_immutable),
{
    let mut res: Vec<String> = Vec::new();
    push_arg(&mut res, "metaedit");
    push_arg(&mut res, "--update-change-id");
    push_arg(&mut res, revision);
    push_ignore_immutable(&mut res, ignore_immutable);
    res
}

/// `jj bookmark create <name> [-r <commit>]`.
pub fn create_bookmark_args(name: &str, commit_id: Option<&CommitId>) -> (res: Vec<String>)
    ensures
        strs(res@) == seq!["bookmark"@, "create"@, name@] + match commit_id {
            Some(c) => seq!["-r"@, c@],
            None => Seq::empty(),
        },
{
    let mut res: Vec<String> = Vec::new();
    push_arg(&mut res, "bookmark");
    push_arg(&mut res, "create");
    push_arg(&mut res, name);
    let ghost base = strs(res@);
    match commit_id {
        Some(c) => {
            push_arg(&mut res, "-r");
            push_arg(&mut res, c.as_str());
            proof {
                assert(strs(res@) =~= base + seq!["-r"@, c@]);
            }
        },
        None => {
            proof {
                assert(strs(res@) =~= base + Seq::<Seq<char>>::empty());
            }
        },
    }
    res
}

/// The bookmark `jj bookmark create` makes: local, present, created at `timestamp`.
pub fn created_bookmark(name: &str, timestamp: i64) -> (res: Bookmark)
    ensures
        res.name@ == name@,
        res.remote is None,
        res.present,
        res.timestamp == timestamp,
{
    Bookmark { name: crate::text::copy_string(name), remote: None, present: true, timestamp }
}

/// `jj bookmark set <name> -r <commit> --allow-backwards`.
pub fn set_bookmark_commit_args(name: &str, commit_id: &CommitId) -> (res: Vec<String>)
    ensures
        strs(res@) == seq!["bookmark"@, "set"@, name@, "-r"@, commit_id@, "--allow-backwards"@],
{
    let mut res: Vec<String> = Vec::new();
    push_arg(&mut res, "bookmark");
    push_arg(&mut res, "set");
    push_arg(&mut res, name);
    push_arg(&mut res, "-r");
    push_arg(&mut res, commit_id.as_str());
    push_arg(&mut res, "--allow-backwards");
    res
}

/// `jj bookmark <action> <names>...` for rename, delete and forget.
pub fn bookmark_args(action: &str, names: &[&str]) -> (res: Vec<String>)
    ensures
        strs(res@) == seq!["bookmark"@, action@] + views_of(names@),
{
    let mut res: Vec<String> = Vec::new();
    push_arg(&mut res, "bookmark");
    push_arg(&mut res, action);
    push_all(&mut res, names);
    res
}

/// `jj bookmark track|untrack <name>@<remote>`.
pub fn track_bookmark_args(track: bool, bookmark: &Bookmark) -> (res: Vec<String>)
    ensures
        strs(res@) == seq!["bookmark"@, if track { "track"@ } else { "untrack"@ },
            bookmark_text(bookmark.name@, remote_view(bookmark.remote))],
{
    let mut res: Vec<String> = Vec::new();
    push_arg(&mut res, "bookmark");
    push_arg(&mut res, if track { "track" } else { "untrack" });
    let text = bookmark.to_text();
    push_arg(&mut res, text.as_str());
    res
}

/// `jj git push`: bookmarks pointing at the commit are pushed by name (`-b`),
/// since `-r` does not create new remote bookmarks; a commit without
/// bookmarks is pushed with `-r <commit>`.
pub fn git_push_args(commit_id: &CommitId, bookmark_names: &[&str]) -> (res: Vec<String>)
    ensures
        strs(res@) == seq!["git"@, "push"@] + if bookmark_names@.len() == 0 {
            seq!["-r"@, commit_id@]
        } else {
            flag_each("-b"@, views_of(bookmark_names@))
        },
{
    let mut res: Vec<String> = Vec::new();
    push_arg(&mut res, "git");
    push_arg(&mut res, "push");
    if bookmark_names.len() == 0 {
        push_arg(&mut res, "-r");
        push_arg(&mut res, commit_id.as_str());
        proof {
            assert(strs(res@) =~= seq!["git"@, "push"@] + seq!["-r"@, commit_id@]);
        }
    } else {
        let ghost start = strs(res@);
        let mut i: usize = 0;
        proof {
            assert(views_of(bookmark_names@.take(0)) =~= Seq::<Seq<char>>::empty());
            assert(strs(res@) =~= start + flag_each("-b"@, views_of(bookmark_names@.take(0))));
        }
        while i < bookmark_names.len()
            invariant
                i <= bookmark_names.len(),
                start == seq!["git"@, "push"@],
                strs(res@) == start + flag_each("-b"@, views_of(bookmark_names@.take(i as int))),
            decreases bookmark_names.len() - i,
        {
            push_arg(&mut res, "-b");
            push_arg(&mut res, bookmark_names[i]);
            proof {
                assert(views_of(bookmark_names@.take(i + 1)).drop_last() =~= views_of(bookmark_names@.take(i as int)));
                assert(views_of(bookmark_names@.take(i + 1)).last() == bookmark_names@[i as int]@);
            }
            i = i + 1;
            proof {
                assert(strs(res@) =~= start + flag_each("-b"@, views_of(bookmark_names@.take(i as int))));
            }
        }
        proof {
            assert(bookmark_names@.take(i as int) =~= bookmark_names@);
        }
    }
    res
}

/// `jj git push -b <name>`: one bookmark by name.
pub fn git_push_bookmark_args(name: &str) -> (res: Vec<String>)
    ensures
        strs(res@) == seq!["git"@, "push"@, "-b"@, name@],
{
    let mut res: Vec<String> = Vec::new();
    push_arg(&mut res, "git");
    push_arg(&mut res, "push");
    push_arg(&mut res, "-b");
    push_arg(&mut res, name);
    proof {
        assert(strs(res@) =~= seq!["git"@, "push"@, "-b"@, name@]);
    }
    res
}

/// `jj git push --all`: every bookmark.
pub fn git_push_all_args() -> (res: Vec<String>)
    ensures
        strs(res@) == seq!["git"@, "push"@, "--all"@],
{
    let mut res: Vec<String> = Vec::new();
    push_arg(&mut res, "git");
    push_arg(&mut res, "push");
    push_arg(&mut res, "--all");
    proof {
        assert(strs(res@) =~= seq!["git"@, "push"@, "--all"@]);
    }
    res
}

/// `jj git fetch [--all-remotes]`.
pub fn git_fetch_args(all_remotes: bool) -> (res: Vec<String>)
    ensures
        strs(res@) == seq!["git"@, "fetch"@] + if all_remotes {
            seq!["--all-remotes"@]
        } else {
            Seq::empty()
        },
{
    let mut res: Vec<String> = Vec::new();
    push_arg(&mut res, "git");
    push_arg(&mut res, "fetch");
    if all_remotes {
        push_arg(&mut res, "--all-remotes");
    }
    proof {
        assert(strs(res@) =~= seq!["git"@, "fetch"@] + if all_remotes {
            seq!["--all-remotes"@]
        } else {
            Seq::<Seq<char>>::empty()
        });
    }
    res
}

} // verus!
