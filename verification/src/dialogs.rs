//! The modal dialogs: help, rebase, setting a bookmark, and waiting for a
//! long operation.
use vstd::prelude::*;

use crate::bookmarks::Bookmark;
use crate::bookmarks::BookmarkView;
use crate::commander::CommandError;
use crate::ids::ChangeId;
use crate::ids::CommitId;
use crate::jj::create_bookmark_args;
use crate::jj::rebase_args;
use crate::jj::set_bookmark_commit_args;
use crate::keybinds::Key;
use crate::keybinds::Shortcut;
use crate::keybinds::normalized;
use crate::log::Head;
use crate::log::HeadView;
use crate::log::commit_ids_view;
use crate::text::chars_of;
use crate::text::copy_string;
use crate::text::same_text;
use crate::text::string_from;
use crate::text::strs;
use crate::text::trim;
use crate::text::trim_string;
use crate::text::words;
use crate::text::words_of;
use crate::text::join;
use crate::text::lemma_join_push;
use crate::text::lemma_words_nonempty;

verus! {

// ---------------------------------------------------------------- help

/// The greedy word wrap of `words` at `width` characters: the finished
/// lines, and the line being filled.
pub open spec fn wrap_state(ws: Seq<Seq<char>>, width: int) -> (Seq<Seq<char>>, Seq<char>)
    decreases ws.len(),
{
    if ws.len() == 0 {
        (Seq::empty(), Seq::empty())
    } else {
        let (done, line) = wrap_state(ws.drop_last(), width);
        let w = ws.last();
        if line.len() > 0 && line.len() + 1 + w.len() > width {
            (done.push(line), w)
        } else if line.len() > 0 {
            (done, line + seq![' '] + w)
        } else {
            (done, w)
        }
    }
}

/// The lines of `text` wrapped greedily at `width` characters (at least
/// one); a word longer than the width stands alone on its line.
pub open spec fn spec_wrap(text: Seq<char>, width: nat) -> Seq<Seq<char>> {
    let w = if width == 0 { 1 } else { width as int };
    let (done, line) = wrap_state(words(text), w);
    done.push(line)
}

/// The lines of `text` wrapped greedily at `width` characters: words are
/// kept whole, so a word longer than the width overflows its line.
pub fn wrap_text(text: &str, width: usize) -> (res: Vec<String>)
    ensures
        strs(res@) == spec_wrap(text@, width as nat),
{
    let width = if width == 0 { 1 } else { width };
    let t = chars_of(text);
    let ws = words_of(&t);
    let mut lines: Vec<String> = Vec::new();
    let mut line: Vec<char> = Vec::new();
    let ghost all = words(text@);
    let mut i: usize = 0;
    while i < ws.len()
        invariant
            i <= ws@.len() == all.len(),
            all == words(t@),
            t@ == text@,
            forall|j: int| 0 <= j < ws@.len() ==> #[trigger] ws@[j]@ == all[j],
            (strs(lines@), line@) == wrap_state(all.take(i as int), width as int),
        decreases ws@.len() - i,
    {
        proof {
            assert(all.take(i + 1).drop_last() =~= all.take(i as int));
            assert(all.take(i + 1).last() == ws@[i as int]@);
        }
        let w = &ws[i];
        let fits = match line.len().checked_add(1) {
            Some(a) => match a.checked_add(w.len()) {
                Some(b) => b <= width,
                None => false,
            },
            None => false,
        };
        if line.len() > 0 && !fits {
            let finished = string_from(&line);
            lines.push(finished);
            line = w.clone();
        } else if line.len() > 0 {
            line.push(' ');
            let mut k: usize = 0;
            let ghost before = line@;
            while k < w.len()
                invariant
                    k <= w@.len(),
                    line@ == before + w@.take(k as int),
                decreases w@.len() - k,
            {
                line.push(w[k]);
                proof {
                    assert(w@.take(k + 1) =~= w@.take(k as int).push(w@[k as int]));
                }
                k = k + 1;
            }
            proof {
                assert(w@.take(k as int) =~= w@);
            }
        } else {
            line = w.clone();
        }
        proof {
            assert(strs(lines@) =~= wrap_state(all.take(i + 1), width as int).0);
        }
        i = i + 1;
    }
    proof {
        assert(all.take(i as int) =~= all);
    }
    let last = string_from(&line);
    lines.push(last);
    proof {
        assert(strs(lines@) =~= spec_wrap(text@, width as nat));
    }
    lines
}

/// The state of the word wrap: its lines joined by spaces are the words
/// joined by spaces; every line fits, or is a single word.
proof fn lemma_wrap_state(ws: Seq<Seq<char>>, width: int)
    requires
        width >= 1,
        forall|i: int| 0 <= i < ws.len() ==> #[trigger] ws[i].len() > 0,
    ensures
        join(wrap_state(ws, width).0.push(wrap_state(ws, width).1), " "@) == join(ws, " "@),
        ws.len() > 0 ==> wrap_state(ws, width).1.len() > 0,
        ws.len() == 0 ==> wrap_state(ws, width).0.len() == 0 && wrap_state(ws, width).1.len() == 0,
        forall|i: int| 0 <= i < wrap_state(ws, width).0.len() ==> (#[trigger] wrap_state(ws, width).0[i]).len() <= width
            || ws.contains(wrap_state(ws, width).0[i]),
        wrap_state(ws, width).1.len() <= width || ws.contains(wrap_state(ws, width).1),
    decreases ws.len(),
{
    reveal_strlit(" ");
    if ws.len() == 0 {
        assert(Seq::<Seq<char>>::empty().push(Seq::<char>::empty()) =~= seq![Seq::<char>::empty()]);
    } else {
        let prev = ws.drop_last();
        assert forall|i: int| 0 <= i < prev.len() implies #[trigger] prev[i].len() > 0 by {
            assert(prev[i] == ws[i]);
        }
        lemma_wrap_state(prev, width);
        let (done, line) = wrap_state(prev, width);
        let w = ws.last();
        assert(ws =~= prev.push(w));
        lemma_join_push(prev, " "@, w);
        assert(ws.contains(w)) by {
            assert(ws[ws.len() - 1] == w);
        }
        assert forall|x: Seq<char>| prev.contains(x) implies ws.contains(x) by {
            let j = choose|j: int| 0 <= j < prev.len() && prev[j] == x;
            assert(ws[j] == x);
        }
        if line.len() > 0 && line.len() + 1 + w.len() > width {
            lemma_join_push(done.push(line), " "@, w);
        } else if line.len() > 0 {
            lemma_join_push(done, " "@, line);
            lemma_join_push(done, " "@, line + seq![' '] + w);
            assert(" "@ =~= seq![' ']);
            if done.len() > 0 {
                assert(join(done, " "@) + " "@ + (line + seq![' '] + w) =~= join(done, " "@) + " "@ + line + " "@ + w);
            } else {
                assert(line + seq![' '] + w =~= line + " "@ + w);
            }
        } else {
            assert(prev.len() == 0);
            assert(done.push(w) =~= seq![w]);
        }
    }
}

/// Wrapping loses no word and reorders none: the lines joined by spaces are
/// the words of the text joined by spaces. Each line fits in the width
/// (at least one), or is a single word too long for it.
pub proof fn lemma_wrap_text(text: Seq<char>, width: nat)
    ensures
        join(spec_wrap(text, width), " "@) == join(words(text), " "@),
        forall|i: int| 0 <= i < spec_wrap(text, width).len() ==>
            (#[trigger] spec_wrap(text, width)[i]).len() <= (if width == 0 { 1 } else { width as int })
            || words(text).contains(spec_wrap(text, width)[i]),
{
    let w = if width == 0 { 1 } else { width as int };
    lemma_words_nonempty(text);
    lemma_wrap_state(words(text), w);
    let (done, line) = wrap_state(words(text), w);
    assert forall|i: int| 0 <= i < spec_wrap(text, width).len() implies
        (#[trigger] spec_wrap(text, width)[i]).len() <= w || words(text).contains(spec_wrap(text, width)[i]) by {
        if i < done.len() {
            assert(spec_wrap(text, width)[i] == done[i]);
        } else {
            assert(spec_wrap(text, width)[i] == line);
        }
    }
}

/// `i` moved by `scroll`, stopping at 0 and at `usize::MAX`
/// (`usize::saturating_add_signed`).
pub open spec fn spec_step(i: usize, scroll: isize) -> usize {
    if i + scroll < 0 {
        0
    } else if i + scroll > usize::MAX {
        usize::MAX
    } else {
        (i + scroll) as usize
    }
}

/// `i` moved by `scroll`, stopping at 0 and at `usize::MAX`.
pub fn step(i: usize, scroll: isize) -> (res: usize)
    ensures
        res == spec_step(i, scroll),
{
    if scroll >= 0 {
        let s = scroll as usize;
        if i > usize::MAX - s {
            usize::MAX
        } else {
            i + s
        }
    } else {
        if scroll == isize::MIN {
            let s = (isize::MAX as usize) + 1;
            if i < s { 0 } else { i - s }
        } else {
            let s = (-scroll) as usize;
            if i < s { 0 } else { i - s }
        }
    }
}

/// The help popup: the key bindings of the main panel and of the details
/// panel, scrolled by rows.
pub struct HelpPopup {
    pub main_items: Vec<(String, String)>,
    pub details_items: Vec<(String, String)>,
    /// The number of rows at the last layout, to bound the scrolling.
    pub row_count: usize,
    pub scroll: usize,
}

/// The views of (key, description) items.
pub open spec fn item_views(v: Seq<(String, String)>) -> Seq<(Seq<char>, Seq<char>)> {
    v.map_values(|p: (String, String)| (p.0@, p.1@))
}

/// A row of the help table: the key, and the description in lines.
pub struct HelpRow {
    pub key: String,
    pub lines: Vec<String>,
}

/// The rows of a section: its title, then one row per item with the
/// description wrapped at `width`.
pub open spec fn section_rows_spec(title: Seq<char>, items: Seq<(Seq<char>, Seq<char>)>, width: nat) -> Seq<(Seq<char>, Seq<Seq<char>>)> {
    seq![(title, seq![Seq::<char>::empty()])] + item_rows(items, width)
}

/// One row per item: the key, and the description wrapped at `width`.
pub open spec fn item_rows(items: Seq<(Seq<char>, Seq<char>)>, width: nat) -> Seq<(Seq<char>, Seq<Seq<char>>)>
    decreases items.len(),
{
    if items.len() == 0 {
        Seq::empty()
    } else {
        item_rows(items.drop_last(), width).push((items.last().0, spec_wrap(items.last().1, width)))
    }
}

/// The views of help rows.
pub open spec fn row_views(rows: Seq<HelpRow>) -> Seq<(Seq<char>, Seq<Seq<char>>)> {
    rows.map_values(|r: HelpRow| (r.key@, strs(r.lines@)))
}

impl HelpPopup {
    /// A help popup showing the given items, scrolled to the top.
    pub fn new(main_items: Vec<(String, String)>, details_items: Vec<(String, String)>) -> (res: HelpPopup)
        ensures
            res.main_items == main_items,
            res.details_items == details_items,
            res.row_count == 0,
            res.scroll == 0,
    {
        HelpPopup { main_items, details_items, row_count: 0, scroll: 0 }
    }

    /// The rows of a section titled `title`, descriptions wrapped at `width`.
    pub fn section_rows(title: &str, items: &Vec<(String, String)>, width: usize) -> (res: Vec<HelpRow>)
        ensures
            row_views(res@) == section_rows_spec(title@, item_views(items@), width as nat),
    {
        let mut res: Vec<HelpRow> = Vec::new();
        let mut first: Vec<String> = Vec::new();
        first.push(String::new());
        res.push(HelpRow { key: copy_string(title), lines: first });
        proof {
            assert(strs(res@[0].lines@) =~= seq![Seq::<char>::empty()]);
            assert(row_views(res@) =~= section_rows_spec(title@, item_views(items@.take(0)), width as nat));
        }
        let mut i: usize = 0;
        while i < items.len()
            invariant
                i <= items@.len(),
                row_views(res@) == section_rows_spec(title@, item_views(items@.take(i as int)), width as nat),
            decreases items@.len() - i,
        {
            let ghost old_res = res@;
            let key = copy_string(items[i].0.as_str());
            let lines = wrap_text(items[i].1.as_str(), width);
            res.push(HelpRow { key, lines });
            proof {
                let a = item_views(items@.take(i as int));
                let b = item_views(items@.take(i + 1));
                assert(b =~= a.push((items@[i as int].0@, items@[i as int].1@)));
                assert(b.drop_last() =~= a);
                assert(section_rows_spec(title@, b, width as nat) =~= section_rows_spec(title@, a, width as nat).push(
                    (items@[i as int].0@, spec_wrap(items@[i as int].1@, width as nat))));
                assert(res@.drop_last() =~= old_res);
                assert(res@.last().key@ == items@[i as int].0@);
                assert(strs(res@.last().lines@) == spec_wrap(items@[i as int].1@, width as nat));
                assert(row_views(res@) =~= row_views(old_res).push((items@[i as int].0@, spec_wrap(items@[i as int].1@, width as nat))));
                assert(row_views(res@) =~= section_rows_spec(title@, b, width as nat));
            }
            i = i + 1;
        }
        proof {
            assert(items@.take(i as int) =~= items@);
        }
        res
    }

    /// The rows of the whole table: the main panel's section, an empty row,
    /// then the details panel's section; the row count is kept for scrolling.
    pub fn layout_rows(&mut self, desc_width: usize) -> (res: Vec<HelpRow>)
        ensures
            row_views(res@) == section_rows_spec("Main panel"@, item_views(old(self).main_items@), desc_width as nat)
                + seq![(Seq::<char>::empty(), seq![Seq::<char>::empty()])]
                + section_rows_spec("Details panel"@, item_views(old(self).details_items@), desc_width as nat),
            final(self).row_count == res@.len(),
            final(self).scroll == old(self).scroll,
            final(self).main_items == old(self).main_items,
            final(self).details_items == old(self).details_items,
    {
        let mut rows = HelpPopup::section_rows("Main panel", &self.main_items, desc_width);
        let mut blank: Vec<String> = Vec::new();
        blank.push(String::new());
        rows.push(HelpRow { key: String::new(), lines: blank });
        proof {
            assert(strs(rows@.last().lines@) =~= seq![Seq::<char>::empty()]);
            assert(row_views(rows@) =~= row_views(rows@.drop_last()).push((rows@.last().key@, strs(rows@.last().lines@))));
        }
        let mut details = HelpPopup::section_rows("Details panel", &self.details_items, desc_width);
        let ghost before = rows@;
        rows.append(&mut details);
        proof {
            assert(row_views(rows@) =~= row_views(before) + section_rows_spec("Details panel"@, item_views(self.details_items@), desc_width as nat));
        }
        self.row_count = rows.len();
        rows
    }
}

/// The widest key of the items, in characters, and at least as wide as the
/// title of the details section.
pub open spec fn key_width_spec(items: Seq<(Seq<char>, Seq<char>)>) -> int
    decreases items.len(),
{
    if items.len() == 0 {
        "Details panel"@.len() as int
    } else {
        let w = key_width_spec(items.drop_last());
        if items.last().0.len() > w { items.last().0.len() as int } else { w }
    }
}

/// The width of the description column: what the key column and its margin
/// leave of `inner_width`, but at least 20.
pub open spec fn desc_width_spec(inner_width: int, items: Seq<(Seq<char>, Seq<char>)>) -> int {
    let rest = inner_width - (key_width_spec(items) + 2);
    if rest < 20 { 20 } else { rest }
}

impl HelpPopup {
    /// The width of the key column: the widest key of both sections.
    pub fn key_width(&self) -> (res: usize)
        ensures
            res == key_width_spec(item_views(self.main_items@) + item_views(self.details_items@)),
    {
        let ghost all = item_views(self.main_items@) + item_views(self.details_items@);
        let mut w: usize = 13;
        proof {
            reveal_strlit("Details panel");
        }
        let mut i: usize = 0;
        let n = self.main_items.len();
        while i < n
            invariant
                n == self.main_items@.len(),
                all == item_views(self.main_items@) + item_views(self.details_items@),
                i <= n,
                w == key_width_spec(all.take(i as int)),
            decreases n - i,
        {
            let c = chars_of(self.main_items[i].0.as_str());
            proof {
                assert(all.take(i + 1).drop_last() =~= all.take(i as int));
                assert(all[i as int].0 == self.main_items@[i as int].0@);
            }
            if c.len() > w {
                w = c.len();
            }
            i = i + 1;
        }
        let mut k: usize = 0;
        while k < self.details_items.len()
            invariant
                n == self.main_items@.len(),
                all == item_views(self.main_items@) + item_views(self.details_items@),
                k <= self.details_items@.len(),
                w == key_width_spec(all.take(n + k)),
            decreases self.details_items@.len() - k,
        {
            let c = chars_of(self.details_items[k].0.as_str());
            proof {
                assert(all.take(n + k + 1).drop_last() =~= all.take(n + k));
                assert(all[n + k].0 == self.details_items@[k as int].0@);
            }
            if c.len() > w {
                w = c.len();
            }
            k = k + 1;
        }
        proof {
            assert(all.take(n + k) =~= all);
        }
        w
    }

    /// The width of the description column for a table `inner_width`
    /// characters wide.
    pub fn desc_width(&self, inner_width: usize) -> (res: usize)
        ensures
            res == desc_width_spec(inner_width as int, item_views(self.main_items@) + item_views(self.details_items@)),
    {
        let kw = self.key_width();
        let rest = if kw > usize::MAX - 2 { 0 } else { inner_width.saturating_sub(kw + 2) };
        if rest < 20 { 20 } else { rest }
    }

    /// Scroll on `j`/Down (down to the last row) and `k`/Up (up to the
    /// first); other keys are not handled.
    pub fn handle_key(&mut self, key: Key) -> (handled: bool)
        requires
            old(self).scroll < usize::MAX,
        ensures
            handled == (key == Key::Char('j') || key == Key::Down || key == Key::Char('k') || key == Key::Up),
            (key == Key::Char('j') || key == Key::Down) ==> final(self).scroll == (if old(self).scroll + 1 < old(self).row_count - 1 {
                old(self).scroll + 1
            } else if old(self).row_count == 0 {
                0
            } else {
                (old(self).row_count - 1) as int
            }),
            (key == Key::Char('k') || key == Key::Up) ==> final(self).scroll == (if old(self).scroll == 0 { 0 } else { old(self).scroll - 1 }),
            !handled ==> final(self).scroll == old(self).scroll,
            final(self).row_count == old(self).row_count,
            final(self).main_items == old(self).main_items,
            final(self).details_items == old(self).details_items,
    {
        if key == Key::Char('j') || key == Key::Down {
            let last = self.row_count.saturating_sub(1);
            let next = self.scroll + 1;
            self.scroll = if next < last { next } else { last };
            true
        } else if key == Key::Char('k') || key == Key::Up {
            self.scroll = self.scroll.saturating_sub(1);
            true
        } else {
            false
        }
    }
}

// ---------------------------------------------------------------- rebase

/// Which changes move with the source of a rebase.
#[derive(Debug, PartialEq, Eq, Structural, Clone, Copy)]
pub enum CutOption {
    /// The change and its descendants (`-s`).
    IncludeDescendants,
    /// The whole branch (`-b`).
    IncludeBranch,
    /// The change alone (`-r`).
    SingleRevision,
}

/// Where the moved changes land relative to the targets.
#[derive(Debug, PartialEq, Eq, Structural, Clone, Copy)]
pub enum PasteOption {
    /// On the targets, as a new branch (`-d`).
    NewBranch,
    /// After the targets (`-A`).
    InsertAfter,
    /// Before the targets (`-B`).
    InsertBefore,
}

/// What a key asks of the rebase popup.
#[derive(Debug, PartialEq, Eq, Structural, Clone, Copy)]
pub enum PopupAction {
    Confirm,
    Cancel,
    SetSourceMode(CutOption),
    SetTargetMode(PasteOption),
    Nothing,
}

/// How the rebase popup was closed, so the caller knows whether the marked
/// changes were consumed.
#[derive(Clone, Copy, Debug, PartialEq, Eq, Structural)]
pub enum RebasePopupExit {
    /// The popup handled the input and stays open.
    KeepOpen,
    /// The popup was dismissed without rebasing.
    Cancelled,
    /// The rebase is to run.
    Executed,
}

/// The action of a key in the rebase popup: `s`, `b`, `r` pick what moves;
/// `d`, `A`, `B` pick where it lands; Enter rebases; Esc and `q` cancel.
pub open spec fn spec_popup_action(key: Shortcut) -> PopupAction {
    if key == normalized(Key::Char('s'), false, false, false) {
        PopupAction::SetSourceMode(CutOption::IncludeDescendants)
    } else if key == normalized(Key::Char('b'), false, false, false) {
        PopupAction::SetSourceMode(CutOption::IncludeBranch)
    } else if key == normalized(Key::Char('r'), false, false, false) {
        PopupAction::SetSourceMode(CutOption::SingleRevision)
    } else if key == normalized(Key::Char('d'), false, false, false) {
        PopupAction::SetTargetMode(PasteOption::NewBranch)
    } else if key == normalized(Key::Char('a'), false, true, false) {
        PopupAction::SetTargetMode(PasteOption::InsertAfter)
    } else if key == normalized(Key::Char('b'), false, true, false) {
        PopupAction::SetTargetMode(PasteOption::InsertBefore)
    } else if key == normalized(Key::Enter, false, false, false) {
        PopupAction::Confirm
    } else if key == normalized(Key::Esc, false, false, false) || key == normalized(Key::Char('q'), false, false, false) {
        PopupAction::Cancel
    } else {
        PopupAction::Nothing
    }
}

/// The key bindings of the rebase popup.
pub struct RebaseKeybinds {}

impl Default for RebaseKeybinds {
    fn default() -> (res: Self) {
        RebaseKeybinds {}
    }
}

impl RebaseKeybinds {
    /// The action of a key.
    pub fn match_event(&self, key: Shortcut) -> (res: PopupAction)
        ensures
            res == spec_popup_action(key),
    {
        if key == Shortcut::new(Key::Char('s'), false, false, false) {
            PopupAction::SetSourceMode(CutOption::IncludeDescendants)
        } else if key == Shortcut::new(Key::Char('b'), false, false, false) {
            PopupAction::SetSourceMode(CutOption::IncludeBranch)
        } else if key == Shortcut::new(Key::Char('r'), false, false, false) {
            PopupAction::SetSourceMode(CutOption::SingleRevision)
        } else if key == Shortcut::new(Key::Char('d'), false, false, false) {
            PopupAction::SetTargetMode(PasteOption::NewBranch)
        } else if key == Shortcut::new(Key::Char('a'), false, true, false) {
            PopupAction::SetTargetMode(PasteOption::InsertAfter)
        } else if key == Shortcut::new(Key::Char('b'), false, true, false) {
            PopupAction::SetTargetMode(PasteOption::InsertBefore)
        } else if key == Shortcut::new(Key::Enter, false, false, false) {
            PopupAction::Confirm
        } else if key == Shortcut::new(Key::Esc, false, false, false) || key == Shortcut::new(Key::Char('q'), false, false, false) {
            PopupAction::Cancel
        } else {
            PopupAction::Nothing
        }
    }
}

/// A transient popup that configures a rebase of the selected change onto
/// the marked changes.
pub struct RebasePopup {
    pub keybinds: RebaseKeybinds,
    pub source_rev: Head,
    pub target_revs: Vec<CommitId>,
    pub source_mode: CutOption,
    pub target_mode: PasteOption,
}

/// The flag of a source mode.
pub open spec fn cut_flag(m: CutOption) -> Seq<char> {
    match m {
        CutOption::IncludeDescendants => "-s"@,
        CutOption::IncludeBranch => "-b"@,
        CutOption::SingleRevision => "-r"@,
    }
}

/// The flag of a target mode.
pub open spec fn paste_flag(m: PasteOption) -> Seq<char> {
    match m {
        PasteOption::NewBranch => "-d"@,
        PasteOption::InsertAfter => "-A"@,
        PasteOption::InsertBefore => "-B"@,
    }
}

impl RebasePopup {
    /// The popup for rebasing `source_rev` onto `target_revs`: the change
    /// alone, as a new branch, until the user picks otherwise.
    pub fn new(source_rev: Head, target_revs: Vec<CommitId>) -> (res: RebasePopup)
        ensures
            res.source_rev == source_rev,
            res.target_revs == target_revs,
            res.source_mode == CutOption::SingleRevision,
            res.target_mode == PasteOption::NewBranch,
    {
        RebasePopup {
            keybinds: RebaseKeybinds::default(),
            source_rev,
            target_revs,
            source_mode: CutOption::SingleRevision,
            target_mode: PasteOption::NewBranch,
        }
    }

    /// The arguments of the jj command the popup is set to run:
    /// `jj rebase <source flag> <source> <target flag> <target>...`.
    pub fn run_command(&self) -> (res: Vec<String>)
        ensures
            strs(res@) == seq!["rebase"@, cut_flag(self.source_mode), self.source_rev.commit_id@]
                + crate::jj::flag_each(paste_flag(self.target_mode), commit_ids_view(self.target_revs@)),
    {
        let src_mode = match self.source_mode {
            CutOption::IncludeDescendants => "-s",
            CutOption::IncludeBranch => "-b",
            CutOption::SingleRevision => "-r",
        };
        let tgt_mode = match self.target_mode {
            PasteOption::NewBranch => "-d",
            PasteOption::InsertAfter => "-A",
            PasteOption::InsertBefore => "-B",
        };
        let mut srcs: Vec<CommitId> = Vec::new();
        srcs.push(self.source_rev.commit_id.clone());
        let res = rebase_args(src_mode, srcs.as_slice(), tgt_mode, self.target_revs.as_slice());
        proof {
            let ids = commit_ids_view(srcs@);
            assert(ids =~= seq![self.source_rev.commit_id@]);
            assert(ids.drop_last() =~= Seq::<Seq<char>>::empty());
            assert(ids.last() == self.source_rev.commit_id@);
            assert(crate::jj::flag_each(src_mode@, ids.drop_last()) =~= Seq::<Seq<char>>::empty());
            assert(crate::jj::flag_each(src_mode@, ids) =~= seq![src_mode@, self.source_rev.commit_id@]);
            assert(strs(res@) =~= seq!["rebase"@, cut_flag(self.source_mode), self.source_rev.commit_id@]
                + crate::jj::flag_each(paste_flag(self.target_mode), commit_ids_view(self.target_revs@)));
        }
        res
    }

    /// Take a key: Enter asks for the rebase to run, Esc and `q` dismiss
    /// the popup, the mode keys set the modes and keep it open.
    pub fn handle_input(&mut self, key: Shortcut) -> (res: RebasePopupExit)
        ensures
            res == (match spec_popup_action(key) {
                PopupAction::Confirm => RebasePopupExit::Executed,
                PopupAction::Cancel => RebasePopupExit::Cancelled,
                _ => RebasePopupExit::KeepOpen,
            }),
            final(self).source_mode == (match spec_popup_action(key) {
                PopupAction::SetSourceMode(m) => m,
                _ => old(self).source_mode,
            }),
            final(self).target_mode == (match spec_popup_action(key) {
                PopupAction::SetTargetMode(m) => m,
                _ => old(self).target_mode,
            }),
            final(self).source_rev == old(self).source_rev,
            final(self).target_revs == old(self).target_revs,
    {
        match self.keybinds.match_event(key) {
            PopupAction::Confirm => RebasePopupExit::Executed,
            PopupAction::Cancel => RebasePopupExit::Cancelled,
            PopupAction::SetSourceMode(m) => {
                self.source_mode = m;
                RebasePopupExit::KeepOpen
            },
            PopupAction::SetTargetMode(m) => {
                self.target_mode = m;
                RebasePopupExit::KeepOpen
            },
            PopupAction::Nothing => RebasePopupExit::KeepOpen,
        }
    }
}

/// The first eight characters of an ID.
fn short_text(id: &str) -> (res: String)
    ensures
        res@ == crate::log_tab::short_id(id@),
{
    let cs = chars_of(id);
    let end = if cs.len() <= 8 { cs.len() } else { 8 };
    let res = crate::text::sub_string(&cs, 0, end);
    proof {
        if cs@.len() <= 8 {
            assert(cs@.subrange(0, end as int) =~= cs@);
        } else {
            assert(cs@.subrange(0, end as int) =~= cs@.take(8));
        }
    }
    res
}

impl RebasePopup {
    /// The heading of the source modes: the moved change's short IDs.
    pub fn source_label(&self) -> (res: String)
        ensures
            res@ == "Source "@ + crate::log_tab::short_id(self.source_rev.change_id@) + " "@
                + crate::log_tab::short_id(self.source_rev.commit_id@),
    {
        let mut res = copy_string("Source ");
        let c = short_text(self.source_rev.change_id.as_str());
        res.push_str(c.as_str());
        res.push_str(" ");
        let m = short_text(self.source_rev.commit_id.as_str());
        res.push_str(m.as_str());
        res
    }

    /// The heading of the target modes: the one destination's short ID, or
    /// how many destinations are marked.
    pub fn target_label(&self) -> (res: String)
        ensures
            self.target_revs@.len() == 1 ==> res@ == "Target "@ + crate::log_tab::short_id(self.target_revs@[0]@),
            self.target_revs@.len() != 1 ==> res@ == "Target "@ + crate::text::decimal(self.target_revs@.len())
                + " marked changes"@,
    {
        let mut res = copy_string("Target ");
        if self.target_revs.len() == 1 {
            let m = short_text(self.target_revs[0].as_str());
            res.push_str(m.as_str());
        } else {
            let n = crate::text::decimal_string(self.target_revs.len());
            res.push_str(n.as_str());
            res.push_str(" marked changes");
        }
        res
    }
}

// ---------------------------------------------------------------- bookmark set

/// An entry of the popup that sets a bookmark on a change.
#[derive(Debug)]
pub enum BookmarkSetOption {
    /// Create a bookmark with a typed name.
    CreateBookmark,
    /// The generated name, and whether a bookmark of that name exists.
    GeneratedName(String, bool),
    /// Move an existing local bookmark.
    Bookmark(Bookmark),
    /// Listing the bookmarks failed: the message.
    Error(String),
}

/// The mathematical value of a [BookmarkSetOption].
pub enum BookmarkSetOptionView {
    CreateBookmark,
    GeneratedName(Seq<char>, bool),
    Bookmark(BookmarkView),
    Error(Seq<char>),
}

impl View for BookmarkSetOption {
    type V = BookmarkSetOptionView;

    open spec fn view(&self) -> BookmarkSetOptionView {
        match self {
            BookmarkSetOption::CreateBookmark => BookmarkSetOptionView::CreateBookmark,
            BookmarkSetOption::GeneratedName(n, e) => BookmarkSetOptionView::GeneratedName(n@, *e),
            BookmarkSetOption::Bookmark(b) => BookmarkSetOptionView::Bookmark(b@),
            BookmarkSetOption::Error(e) => BookmarkSetOptionView::Error(e@),
        }
    }
}

/// The views of options.
pub open spec fn options_view(v: Seq<BookmarkSetOption>) -> Seq<BookmarkSetOptionView> {
    v.map_values(|o: BookmarkSetOption| o@)
}

/// The views of bookmarks.
pub open spec fn bookmarks_view(v: Seq<Bookmark>) -> Seq<BookmarkView> {
    v.map_values(|b: Bookmark| b@)
}

/// The local bookmarks among `bs` (those without a remote), in order.
pub open spec fn local_bookmarks(bs: Seq<BookmarkView>) -> Seq<BookmarkView>
    decreases bs.len(),
{
    if bs.len() == 0 {
        Seq::empty()
    } else if bs.last().remote is None {
        local_bookmarks(bs.drop_last()).push(bs.last())
    } else {
        local_bookmarks(bs.drop_last())
    }
}

/// Whether one of `bs` is named `name`.
pub open spec fn has_bookmark_named(bs: Seq<BookmarkView>, name: Seq<char>) -> bool {
    exists|i: int| 0 <= i < bs.len() && #[trigger] bs[i].name == name
}

/// The options of the popup: creating a bookmark; the generated name where
/// there is one, marked when a local bookmark has it; then the local
/// bookmarks, or the error of listing them.
pub open spec fn spec_options(generated: Option<Seq<char>>, bookmarks: Result<Seq<BookmarkView>, Seq<char>>) -> Seq<BookmarkSetOptionView> {
    seq![BookmarkSetOptionView::CreateBookmark]
        + match generated {
            Some(n) => seq![BookmarkSetOptionView::GeneratedName(n, match bookmarks {
                Ok(bs) => has_bookmark_named(local_bookmarks(bs), n),
                Err(_) => false,
            })],
            None => Seq::empty(),
        }
        + match bookmarks {
            Ok(bs) => as_options(local_bookmarks(bs)),
            Err(e) => seq![BookmarkSetOptionView::Error(e)],
        }
}

/// An option for each bookmark, in order.
pub open spec fn as_options(bs: Seq<BookmarkView>) -> Seq<BookmarkSetOptionView>
    decreases bs.len(),
{
    if bs.len() == 0 {
        Seq::empty()
    } else {
        as_options(bs.drop_last()).push(BookmarkSetOptionView::Bookmark(bs.last()))
    }
}

/// The view of a listing of bookmarks.
pub open spec fn listing_view(r: Result<Vec<Bookmark>, String>) -> Result<Seq<BookmarkView>, Seq<char>> {
    match r {
        Ok(v) => Ok(bookmarks_view(v@)),
        Err(e) => Err(e@),
    }
}

/// The local bookmarks of a list, copied.
pub fn local_only(bs: &Vec<Bookmark>) -> (res: Vec<Bookmark>)
    ensures
        bookmarks_view(res@) == local_bookmarks(bookmarks_view(bs@)),
{
    let mut res: Vec<Bookmark> = Vec::new();
    let mut i: usize = 0;
    while i < bs.len()
        invariant
            i <= bs@.len(),
            bookmarks_view(res@) == local_bookmarks(bookmarks_view(bs@.take(i as int))),
        decreases bs@.len() - i,
    {
        proof {
            assert(bookmarks_view(bs@.take(i + 1)).drop_last() =~= bookmarks_view(bs@.take(i as int)));
            assert(bookmarks_view(bs@.take(i + 1)).last() == bs@[i as int]@);
        }
        if bs[i].remote.is_none() {
            let ghost before = res@;
            res.push(bs[i].clone());
            proof {
                assert(bookmarks_view(res@) =~= bookmarks_view(before).push(bs@[i as int]@));
            }
        }
        i = i + 1;
    }
    proof {
        assert(bs@.take(i as int) =~= bs@);
    }
    res
}

/// Whether one of `bs` is named `name`.
pub fn bookmark_named(bs: &Vec<Bookmark>, name: &str) -> (res: bool)
    ensures
        res == has_bookmark_named(bookmarks_view(bs@), name@),
{
    let target = copy_string(name);
    let mut i: usize = 0;
    while i < bs.len()
        invariant
            i <= bs@.len(),
            target@ == name@,
            forall|j: int| 0 <= j < i ==> bs@[j].name@ != name@,
        decreases bs@.len() - i,
    {
        if same_text(&bs[i].name, &target) {
            proof {
                assert(bookmarks_view(bs@)[i as int].name == name@);
            }
            return true;
        }
        i = i + 1;
    }
    proof {
        assert forall|j: int| 0 <= j < bookmarks_view(bs@).len() implies #[trigger] bookmarks_view(bs@)[j].name != name@ by {
            assert(bookmarks_view(bs@)[j] == bs@[j]@);
        }
    }
    false
}

/// The options of the popup, from the generated name (where a change is
/// selected) and the listing of the bookmarks.
pub fn generate_options(generated: Option<String>, bookmarks: Result<Vec<Bookmark>, String>) -> (res: Vec<BookmarkSetOption>)
    ensures
        options_view(res@) == spec_options(opt_view(generated), listing_view(bookmarks)),
{
    let mut res: Vec<BookmarkSetOption> = Vec::new();
    res.push(BookmarkSetOption::CreateBookmark);
    let local = match &bookmarks {
        Ok(bs) => Ok(local_only(bs)),
        Err(e) => Err(copy_string(e.as_str())),
    };
    let ghost first = options_view(res@);
    match generated {
        Some(name) => {
            let exists = match &local {
                Ok(bs) => bookmark_named(bs, name.as_str()),
                Err(_) => false,
            };
            res.push(BookmarkSetOption::GeneratedName(name, exists));
        },
        None => {},
    }
    let ghost second = options_view(res@);
    proof {
        assert(options_view(res@) =~= seq![BookmarkSetOptionView::CreateBookmark] + match opt_view(generated) {
            Some(n) => seq![BookmarkSetOptionView::GeneratedName(n, match listing_view(bookmarks) {
                Ok(bs) => has_bookmark_named(local_bookmarks(bs), n),
                Err(_) => false,
            })],
            None => Seq::<BookmarkSetOptionView>::empty(),
        });
    }
    match local {
        Ok(bs) => {
            let ghost bv = bookmarks_view(bs@);
            let mut i: usize = 0;
            proof {
                assert(options_view(res@) =~= second + as_options(bv.take(0)));
            }
            while i < bs.len()
                invariant
                    i <= bs@.len(),
                    bv == bookmarks_view(bs@),
                    options_view(res@) == second + as_options(bv.take(i as int)),
                decreases bs@.len() - i,
            {
                let ghost before = options_view(res@);
                res.push(BookmarkSetOption::Bookmark(bs[i].clone()));
                proof {
                    assert(options_view(res@).drop_last() =~= before);
                    assert(bv.take(i + 1).drop_last() =~= bv.take(i as int));
                    assert(bv.take(i + 1).last() == bs@[i as int]@);
                    assert(options_view(res@) =~= options_view(res@).drop_last().push(BookmarkSetOptionView::Bookmark(bs@[i as int]@)));
                    assert(options_view(res@) =~= second + as_options(bv.take(i + 1)));
                }
                i = i + 1;
            }
            proof {
                assert(bv.take(i as int) =~= bv);
            }
        },
        Err(e) => {
            res.push(BookmarkSetOption::Error(e));
            proof {
                assert(options_view(res@) =~= second + seq![BookmarkSetOptionView::Error(e@)]);
            }
        },
    }
    res
}

/// The view of an optional string.
pub open spec fn opt_view(s: Option<String>) -> Option<Seq<char>> {
    match s {
        Some(t) => Some(t@),
        None => None,
    }
}

/// The name generated for a change, or `error-<change id>` where jj could
/// not generate one.
pub fn generate_name(change_id: &ChangeId, generated: Result<String, String>) -> (res: String)
    ensures
        res@ == (match generated {
            Ok(n) => n@,
            Err(_) => "error-"@ + change_id@,
        }),
{
    match generated {
        Ok(n) => n,
        Err(_) => {
            let mut res = copy_string("error-");
            res.push_str(change_id.as_str());
            res
        },
    }
}

/// The arguments that point the bookmark `name` at `commit_id`: moved where
/// a bookmark of that name exists among `existing`, created otherwise.
pub fn set_or_create_args(name: &str, commit_id: &CommitId, existing: &Vec<Bookmark>) -> (res: Vec<String>)
    ensures
        strs(res@) == (if has_bookmark_named(bookmarks_view(existing@), name@) {
            seq!["bookmark"@, "set"@, name@, "-r"@, commit_id@, "--allow-backwards"@]
        } else {
            seq!["bookmark"@, "create"@, name@, "-r"@, commit_id@]
        }),
{
    if bookmark_named(existing, name) {
        set_bookmark_commit_args(name, commit_id)
    } else {
        let res = create_bookmark_args(name, Some(commit_id));
        proof {
            assert(strs(res@) =~= seq!["bookmark"@, "create"@, name@, "-r"@, commit_id@]);
        }
        res
    }
}

/// How an option of the bookmark popup is listed: the keys that pick the
/// first two in brackets, a bookmark by its name (and remote), an error by
/// its message.
pub open spec fn spec_option_label(o: BookmarkSetOptionView) -> Seq<char> {
    match o {
        BookmarkSetOptionView::CreateBookmark => "(C)reate bookmark"@,
        BookmarkSetOptionView::GeneratedName(name, exists) => "(G)enerate bookmark: "@ + name
            + if exists { " (exists)"@ } else { Seq::empty() },
        BookmarkSetOptionView::Bookmark(b) => crate::bookmarks::bookmark_text(b.name, b.remote),
        BookmarkSetOptionView::Error(e) => e,
    }
}

impl BookmarkSetOption {
    /// How the option is listed.
    pub fn label(&self) -> (res: String)
        ensures
            res@ == spec_option_label(self@),
    {
        match self {
            BookmarkSetOption::CreateBookmark => copy_string("(C)reate bookmark"),
            BookmarkSetOption::GeneratedName(name, exists) => {
                let mut res = copy_string("(G)enerate bookmark: ");
                res.push_str(name.as_str());
                if *exists {
                    res.push_str(" (exists)");
                }
                res
            },
            BookmarkSetOption::Bookmark(b) => b.to_text(),
            BookmarkSetOption::Error(e) => copy_string(e.as_str()),
        }
    }
}

/// What a key asks of the bookmark popup.
#[derive(Debug)]
pub enum BookmarkSetStep {
    /// The key was taken; nothing to do.
    Handled,
    /// The key is not the popup's.
    NotHandled,
    /// Edit the typed name with the key.
    EditName,
    /// Start typing a new name.
    StartCreating,
    /// Move the selection by this many rows.
    Scroll(isize),
    /// Point the typed name at the change, then close.
    CreateNamed(String),
    /// Point the generated name at the change, then close.
    Generate,
    /// Move an existing bookmark to the change, then close.
    SetExisting(String),
    /// List the options again.
    Regenerate,
    /// Close without a change.
    Cancel,
    /// Close the name prompt, and the popup.
    CloseCreating,
}

/// The bookmark popup: its options, the selected one, and whether a name
/// is being typed.
pub struct BookmarkSetPopup {
    pub change_id: Option<ChangeId>,
    pub commit_id: CommitId,
    pub options: Vec<BookmarkSetOption>,
    pub selected: Option<usize>,
    pub list_height: u16,
    pub creating: bool,
}

/// The selection after scrolling by `scroll`: within the options, from
/// the first where none was selected.
pub open spec fn spec_scrolled(selected: Option<usize>, scroll: isize, len: nat) -> usize {
    let s = match selected {
        Some(i) => spec_step(i, scroll),
        None => 0,
    };
    let last: int = if len == 0 { 0 } else { len - 1 };
    if s > last { last as usize } else { s }
}

impl BookmarkSetPopup {
    /// The popup for pointing a bookmark at `commit_id`, with the given
    /// options and the first selected.
    pub fn new(change_id: Option<ChangeId>, commit_id: CommitId, options: Vec<BookmarkSetOption>) -> (res: BookmarkSetPopup)
        ensures
            res.change_id == change_id,
            res.commit_id == commit_id,
            res.options == options,
            res.selected == Some(0usize),
            !res.creating,
    {
        BookmarkSetPopup { change_id, commit_id, options, selected: Some(0), list_height: 0, creating: false }
    }

    /// Move the selection by `scroll` rows, within the options.
    pub fn scroll(&mut self, scroll: isize)
        ensures
            final(self).selected == Some(spec_scrolled(old(self).selected, scroll, old(self).options@.len())),
            final(self).options == old(self).options,
            final(self).creating == old(self).creating,
    {
        let s = match self.selected {
            Some(i) => step(i, scroll),
            None => 0,
        };
        let last = self.options.len().saturating_sub(1);
        self.selected = Some(if s > last { last } else { s });
    }

    /// What a key asks: with the name prompt open, ctrl+s and Enter save a
    /// name that is not blank, Esc closes, and other keys edit the name;
    /// else `j`/`k`/`J`/`K` scroll, `g` uses the generated name, `c` opens
    /// the prompt, Enter takes the selected option, `q` and Esc cancel.
    pub fn step_for(&self, key: Key, ctrl: bool, typed: &str) -> (res: BookmarkSetStep)
        ensures
            self.creating ==> (match res {
                BookmarkSetStep::CreateNamed(n) => ((key == Key::Char('s') && ctrl) || key == Key::Enter)
                    && trim(typed@).len() > 0 && n@ == typed@,
                BookmarkSetStep::Handled => ((key == Key::Char('s') && ctrl) || key == Key::Enter) && trim(typed@).len() == 0,
                BookmarkSetStep::CloseCreating => key == Key::Esc && !((key == Key::Char('s') && ctrl) || key == Key::Enter),
                BookmarkSetStep::EditName => !((key == Key::Char('s') && ctrl) || key == Key::Enter) && key != Key::Esc,
                _ => false,
            }),
            !self.creating ==> (match res {
                BookmarkSetStep::Scroll(n) => ((key == Key::Char('j') || key == Key::Down) && n == 1)
                    || ((key == Key::Char('k') || key == Key::Up) && n == -1)
                    || (key == Key::Char('J') && n == self.list_height / 2)
                    || (key == Key::Char('K') && n == -(self.list_height / 2)),
                BookmarkSetStep::Generate => key == Key::Char('g') || (key == Key::Enter
                    && selected_option(self) matches Some(BookmarkSetOptionView::GeneratedName(_, _))),
                BookmarkSetStep::StartCreating => key == Key::Char('c') || (key == Key::Enter
                    && selected_option(self) matches Some(BookmarkSetOptionView::CreateBookmark)),
                BookmarkSetStep::SetExisting(n) => key == Key::Enter
                    && (selected_option(self) matches Some(BookmarkSetOptionView::Bookmark(b)) && n@ == b.name),
                BookmarkSetStep::Regenerate => key == Key::Enter
                    && selected_option(self) matches Some(BookmarkSetOptionView::Error(_)),
                BookmarkSetStep::Handled => key == Key::Enter && selected_option(self) is None,
                BookmarkSetStep::Cancel => key == Key::Char('q') || key == Key::Esc,
                BookmarkSetStep::NotHandled => !(key == Key::Char('j') || key == Key::Down || key == Key::Char('k')
                    || key == Key::Up || key == Key::Char('J') || key == Key::Char('K') || key == Key::Char('g')
                    || key == Key::Char('c') || key == Key::Enter || key == Key::Char('q') || key == Key::Esc),
                _ => false,
            }),
    {
        if self.creating {
            if (key == Key::Char('s') && ctrl) || key == Key::Enter {
                let t = trim_string(typed);
                if t.as_str().is_empty() {
                    return BookmarkSetStep::Handled;
                }
                return BookmarkSetStep::CreateNamed(copy_string(typed));
            }
            if key == Key::Esc {
                return BookmarkSetStep::CloseCreating;
            }
            return BookmarkSetStep::EditName;
        }
        if key == Key::Char('j') || key == Key::Down {
            BookmarkSetStep::Scroll(1)
        } else if key == Key::Char('k') || key == Key::Up {
            BookmarkSetStep::Scroll(-1)
        } else if key == Key::Char('J') {
            BookmarkSetStep::Scroll((self.list_height / 2) as isize)
        } else if key == Key::Char('K') {
            BookmarkSetStep::Scroll(-((self.list_height / 2) as isize))
        } else if key == Key::Char('g') {
            BookmarkSetStep::Generate
        } else if key == Key::Char('c') {
            BookmarkSetStep::StartCreating
        } else if key == Key::Enter {
            let sel = match self.selected {
                Some(i) => if i < self.options.len() { Some(&self.options[i]) } else { None },
                None => None,
            };
            match sel {
                Some(BookmarkSetOption::CreateBookmark) => BookmarkSetStep::StartCreating,
                Some(BookmarkSetOption::GeneratedName(_, _)) => BookmarkSetStep::Generate,
                Some(BookmarkSetOption::Bookmark(b)) => BookmarkSetStep::SetExisting(copy_string(b.name.as_str())),
                Some(BookmarkSetOption::Error(_)) => BookmarkSetStep::Regenerate,
                None => BookmarkSetStep::Handled,
            }
        } else if key == Key::Char('q') || key == Key::Esc {
            BookmarkSetStep::Cancel
        } else {
            BookmarkSetStep::NotHandled
        }
    }
}

/// The option the popup has selected, if the selection is within the options.
pub open spec fn selected_option(p: &BookmarkSetPopup) -> Option<BookmarkSetOptionView> {
    match p.selected {
        Some(i) => if i < p.options@.len() { Some(p.options@[i as int]@) } else { None },
        None => None,
    }
}

// ---------------------------------------------------------------- loader

/// What the application does once a long operation finished.
#[derive(Debug)]
pub enum LoaderOutcome {
    /// Show what the operation printed in a popup titled `<name> message`,
    /// and refresh the tab.
    Message { title: String, text: String },
    /// Close the popup and refresh the tab.
    Done,
    /// Show the error in a popup titled `<name> error`.
    Failed { title: String, text: String },
}

/// What the application does once the operation named `name` finished
/// with `result`: a popup with its output, if it printed something; a popup
/// with its error, if it failed.
pub fn loader_outcome(name: &str, result: &Result<String, CommandError>) -> (res: LoaderOutcome)
    ensures
        match result {
            Ok(out) => if out@.len() > 0 {
                res matches LoaderOutcome::Message { title, text } && title@ == name@ + " message"@ && text@ == out@
            } else {
                res is Done
            },
            Err(CommandError::Status(msg, _)) => res matches LoaderOutcome::Failed { title, text }
                && title@ == name@ + " error"@ && text@ == msg@,
            Err(_) => res matches LoaderOutcome::Failed { title, text } && title@ == name@ + " error"@,
        },
{
    match result {
        Ok(out) => {
            if out.as_str().is_empty() {
                LoaderOutcome::Done
            } else {
                let mut title = copy_string(name);
                title.push_str(" message");
                LoaderOutcome::Message { title, text: copy_string(out.as_str()) }
            }
        },
        Err(err) => {
            let mut title = copy_string(name);
            title.push_str(" error");
            LoaderOutcome::Failed { title, text: err.message() }
        },
    }
}

} // verus!
