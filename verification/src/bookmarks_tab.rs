//! The decisions of the bookmarks tab: which bookmark is selected, where
//! the selection moves, and what a key asks for.
use vstd::prelude::*;

use crate::bookmarks::Bookmark;
use crate::bookmarks::BookmarkLine;
use crate::bookmarks::BookmarkLineView;
use crate::bookmarks::bookmark_text;
use crate::bookmarks::remote_view;
use crate::commander::CommandError;
use crate::env::DiffFormat;
use crate::env::DiffFormatView;
use crate::env::opt_opt_text;
use crate::env::spec_next_format;
use crate::keybinds::Key;
use crate::search::first_match_index_at_or_after;
use crate::search::lowercase;
use crate::search::match_indices;
use crate::search::matching;
use crate::search::next_match_index;
use crate::search::SearchState;
use crate::search::spec_first_match_at_or_after;
use crate::search::spec_next_match;
use crate::tabs::DetailsKey;
use crate::tabs::details_key;
use crate::tabs::scroll_target;
use crate::tabs::spec_details_key;
use crate::tabs::spec_scroll_target;
use crate::text::copy_string;
use crate::text::same_text;
use crate::text::trim;
use crate::text::trim_string;

verus! {

/// Whether two lines of the bookmark list name the same bookmark: the same
/// name and remote, or the same unparsable text.
pub open spec fn spec_lines_match(a: BookmarkLineView, b: BookmarkLineView) -> bool {
    match (a, b) {
        (BookmarkLineView::Parsed { bookmark: x, .. }, BookmarkLineView::Parsed { bookmark: y, .. }) =>
            x.name == y.name && x.remote == y.remote,
        (BookmarkLineView::Unparsable(x), BookmarkLineView::Unparsable(y)) => x == y,
        _ => false,
    }
}

fn same_remote(a: &Option<String>, b: &Option<String>) -> (res: bool)
    ensures
        res == (remote_view(*a) == remote_view(*b)),
{
    match (a, b) {
        (Some(x), Some(y)) => same_text(x, y),
        (None, None) => true,
        _ => false,
    }
}

/// Whether two lines of the bookmark list name the same bookmark.
pub fn bookmark_lines_match(current_bookmark: &BookmarkLine, bookmark: &BookmarkLine) -> (res: bool)
    ensures
        res == spec_lines_match(current_bookmark@, bookmark@),
{
    match (current_bookmark, bookmark) {
        (BookmarkLine::Parsed { bookmark: a, .. }, BookmarkLine::Parsed { bookmark: b, .. }) =>
            same_text(&a.name, &b.name) && same_remote(&a.remote, &b.remote),
        (BookmarkLine::Unparsable(a), BookmarkLine::Unparsable(b)) => same_text(a, b),
        _ => false,
    }
}

/// The text of a bookmark line that search looks in: what is displayed,
/// `name` or `name@remote`, or the unparsable line itself.
pub open spec fn spec_search_text(b: BookmarkLineView) -> Seq<char> {
    match b {
        BookmarkLineView::Parsed { bookmark, .. } => bookmark_text(bookmark.name, bookmark.remote),
        BookmarkLineView::Unparsable(t) => t,
    }
}

/// The text of a bookmark line that search looks in.
pub fn bookmark_search_text(bookmark: &BookmarkLine) -> (res: String)
    ensures
        res@ == spec_search_text(bookmark@),
{
    match bookmark {
        BookmarkLine::Parsed { bookmark, .. } => bookmark.to_text(),
        BookmarkLine::Unparsable(text) => copy_string(text.as_str()),
    }
}

/// The views of bookmark lines.
pub open spec fn lines_view(v: Seq<BookmarkLine>) -> Seq<BookmarkLineView> {
    v.map_values(|b: BookmarkLine| b@)
}

/// The first position of a line naming the same bookmark as `current`.
pub open spec fn spec_index_in_list(current: Option<BookmarkLineView>, bookmarks: Seq<BookmarkLineView>) -> Option<usize>
    decreases bookmarks.len(),
{
    match current {
        None => None,
        Some(c) => if bookmarks.len() == 0 {
            None
        } else {
            match spec_index_in_list(current, bookmarks.drop_last()) {
                Some(i) => Some(i),
                None => if spec_lines_match(c, bookmarks.last()) { Some((bookmarks.len() - 1) as usize) } else { None },
            }
        },
    }
}

/// The view of an optional bookmark line.
pub open spec fn opt_line(b: Option<&BookmarkLine>) -> Option<BookmarkLineView> {
    match b {
        Some(x) => Some(x@),
        None => None,
    }
}

/// The position in `bookmarks` of the bookmark `current_bookmark` names.
pub fn get_current_bookmark_index_in_list(current_bookmark: Option<&BookmarkLine>, bookmarks: &[BookmarkLine]) -> (res: Option<usize>)
    ensures
        res == spec_index_in_list(opt_line(current_bookmark), lines_view(bookmarks@)),
{
    match current_bookmark {
        None => None,
        Some(c) => {
            let mut i: usize = 0;
            let mut res: Option<usize> = None;
            while i < bookmarks.len()
                invariant
                    i <= bookmarks@.len(),
                    res == spec_index_in_list(Some(c@), lines_view(bookmarks@.take(i as int))),
                decreases bookmarks@.len() - i,
            {
                proof {
                    assert(lines_view(bookmarks@.take(i + 1)).drop_last() =~= lines_view(bookmarks@.take(i as int)));
                    assert(lines_view(bookmarks@.take(i + 1)).last() == bookmarks@[i as int]@);
                }
                if res.is_none() && bookmark_lines_match(c, &bookmarks[i]) {
                    res = Some(i);
                }
                i = i + 1;
            }
            proof {
                assert(bookmarks@.take(i as int) =~= bookmarks@);
            }
            res
        },
    }
}

/// The position of the bookmark `current_bookmark` names in the listing; none
/// where listing failed.
pub fn get_current_bookmark_index(current_bookmark: Option<&BookmarkLine>, bookmarks_output: &Result<Vec<BookmarkLine>, CommandError>) -> (res: Option<usize>)
    ensures
        res == (match bookmarks_output {
            Ok(v) => spec_index_in_list(opt_line(current_bookmark), lines_view(v@)),
            Err(_) => None,
        }),
{
    match bookmarks_output {
        Ok(v) => get_current_bookmark_index_in_list(current_bookmark, v.as_slice()),
        Err(_) => None,
    }
}

/// The bookmark selected once the list was refreshed: none in an empty
/// list; the same bookmark where it is still listed; else the first.
pub open spec fn spec_synced(bookmarks: Seq<BookmarkLineView>, current: Option<BookmarkLineView>) -> Option<BookmarkLineView> {
    if bookmarks.len() == 0 {
        None
    } else if spec_index_in_list(current, bookmarks) is Some {
        current
    } else {
        Some(bookmarks[0])
    }
}

/// The view of an optional owned bookmark line.
pub open spec fn opt_line_owned(b: Option<BookmarkLine>) -> Option<BookmarkLineView> {
    match b {
        Some(x) => Some(x@),
        None => None,
    }
}

/// The bookmark selected once the list was refreshed.
pub fn sync_selected_bookmark(bookmarks: &[BookmarkLine], current: Option<&BookmarkLine>) -> (res: Option<BookmarkLine>)
    ensures
        opt_line_owned(res) == spec_synced(lines_view(bookmarks@), opt_line(current)),
{
    if bookmarks.len() == 0 {
        return None;
    }
    match get_current_bookmark_index_in_list(current, bookmarks) {
        Some(_) => match current {
            Some(c) => Some(c.clone()),
            None => None,
        },
        None => Some(bookmarks[0].clone()),
    }
}

/// The bookmark the selection moves to when scrolling by `scroll`: within
/// the list, from the first where the selection is not listed.
pub fn scroll_bookmarks(bookmarks: &[BookmarkLine], current: Option<&BookmarkLine>, scroll: isize) -> (res: Option<BookmarkLine>)
    ensures
        match spec_scroll_target(bookmarks@.len(), spec_index_in_list(opt_line(current), lines_view(bookmarks@)), scroll) {
            Some(i) => opt_line_owned(res) == Some(bookmarks@[i as int]@),
            None => res is None,
        },
{
    let index = get_current_bookmark_index_in_list(current, bookmarks);
    match scroll_target(bookmarks.len(), index, scroll) {
        Some(i) => Some(bookmarks[i].clone()),
        None => None,
    }
}

/// How a search moves the selection.
#[derive(Debug, Clone, Copy, PartialEq, Eq, Structural)]
pub enum MatchMove {
    /// To the first match at or after the selection (Enter).
    FirstAtOrAfter,
    /// To the next match (`n`).
    Next,
    /// To the previous match (`N`).
    Previous,
}

/// Where a search moves the selection: the number of matches, and the
/// position of the match the selection moves to (from the first position
/// where the selection is not listed).
pub fn select_match(bookmarks: &[BookmarkLine], current: Option<&BookmarkLine>, query: &str, how: MatchMove) -> (res: (usize, Option<usize>))
    requires
        bookmarks@.len() < i64::MAX,
    ensures
        res.0 == 0 ==> res.1 is None,
        res.1 matches Some(i) ==> i < bookmarks@.len(),
        query@.len() > 0 ==> exists|texts: Seq<String>|
            #![trigger crate::search::lowercases(texts)]
            texts.len() == bookmarks@.len()
            && (forall|i: int| 0 <= i < texts.len() ==> #[trigger] texts[i]@ == spec_search_text(bookmarks@[i]@))
            && ({
                let ms = matching(crate::search::lowercases(texts), query@);
                let cur = match spec_index_in_list(opt_line(current), lines_view(bookmarks@)) {
                    Some(c) => c,
                    None => 0usize,
                };
                &&& res.0 == ms.len()
                &&& ms.len() > 0 ==> res.1 == (match how {
                    MatchMove::FirstAtOrAfter => spec_first_match_at_or_after(ms, cur),
                    MatchMove::Next => spec_next_match(ms, cur, true),
                    MatchMove::Previous => spec_next_match(ms, cur, false),
                })
            }),
        query@.len() == 0 ==> res == (0usize, None::<usize>),
{
    let text_of = |b: &BookmarkLine| -> (t: String)
        ensures
            t@ == spec_search_text(b@),
    { bookmark_search_text(b) };
    let count = bookmarks.len();
    let matches = match_indices(bookmarks, query, text_of);
    if query.is_empty() {
        return (0, None);
    }
    let ghost texts = choose|texts: Seq<String>|
        #![trigger crate::search::lowercases(texts)]
        texts.len() == bookmarks@.len()
        && (forall|i: int| 0 <= i < texts.len() ==> text_of.ensures((&bookmarks@[i],), #[trigger] texts[i]))
        && matches@ == matching(crate::search::lowercases(texts), query@);
    proof {
        assert(crate::search::lowercases(texts).len() == texts.len());
        assert(texts.len() == count);
        crate::search::lemma_matching_len(crate::search::lowercases(texts), query@);
        crate::search::lemma_matching_increasing(crate::search::lowercases(texts), query@);
        assert forall|i: int| 0 <= i < texts.len() implies #[trigger] texts[i]@ == spec_search_text(bookmarks@[i]@) by {
            assert(text_of.ensures((&bookmarks@[i],), texts[i]));
        }
    }
    if matches.len() == 0 {
        return (0, None);
    }
    let current_index = match get_current_bookmark_index_in_list(current, bookmarks) {
        Some(c) => c,
        None => 0,
    };
    let picked = match how {
        MatchMove::FirstAtOrAfter => first_match_index_at_or_after(matches.as_slice(), current_index),
        MatchMove::Next => next_match_index(matches.as_slice(), current_index, true),
        MatchMove::Previous => next_match_index(matches.as_slice(), current_index, false),
    };
    proof {
        let ms = matches@;
        crate::search::lemma_next_match_is_a_match(ms, current_index, true);
        crate::search::lemma_next_match_is_a_match(ms, current_index, false);
        crate::search::lemma_first_match_at_or_after(ms, current_index);
        if let Some(m) = picked {
            let k = choose|k: int| 0 <= k < ms.len() && ms[k] == m;
            assert(ms[k] < texts.len());
        }
    }
    let target = match picked {
        Some(i) => if i < bookmarks.len() { Some(i) } else { None },
        None => None,
    };
    (matches.len(), target)
}

/// What a key asks of the bookmarks tab.
#[derive(Debug, Clone, Copy, PartialEq, Eq, Structural)]
pub enum BookmarksCommand {
    ScrollDown,
    ScrollUp,
    ScrollDownHalf,
    ScrollUpHalf,
    ToggleDiffFormat,
    Refresh,
    ToggleShowAll,
    OpenSearch,
    Create,
    Rename,
    Delete,
    Forget,
    Track,
    Untrack,
    New { describe: bool },
    Push,
    Edit { ignore_immutable: bool },
    ViewInLog,
    Help,
    NotHandled,
}

/// The command of a key of the bookmarks tab.
pub open spec fn spec_bookmarks_command(key: Key) -> BookmarksCommand {
    if key == Key::Char('j') {
        BookmarksCommand::ScrollDown
    } else if key == Key::Down {
        BookmarksCommand::ScrollDown
    } else if key == Key::Char('k') {
        BookmarksCommand::ScrollUp
    } else if key == Key::Up {
        BookmarksCommand::ScrollUp
    } else if key == Key::Char('J') {
        BookmarksCommand::ScrollDownHalf
    } else if key == Key::Char('K') {
        BookmarksCommand::ScrollUpHalf
    } else if key == Key::Char('w') {
        BookmarksCommand::ToggleDiffFormat
    } else if key == Key::Char('R') {
        BookmarksCommand::Refresh
    } else if key == Key::F(5) {
        BookmarksCommand::Refresh
    } else if key == Key::Char('a') {
        BookmarksCommand::ToggleShowAll
    } else if key == Key::Char('/') {
        BookmarksCommand::OpenSearch
    } else if key == Key::Char('c') {
        BookmarksCommand::Create
    } else if key == Key::Char('r') {
        BookmarksCommand::Rename
    } else if key == Key::Char('d') {
        BookmarksCommand::Delete
    } else if key == Key::Char('f') {
        BookmarksCommand::Forget
    } else if key == Key::Char('t') {
        BookmarksCommand::Track
    } else if key == Key::Char('T') {
        BookmarksCommand::Untrack
    } else if key == Key::Char('n') {
        BookmarksCommand::New { describe: false }
    } else if key == Key::Char('N') {
        BookmarksCommand::New { describe: true }
    } else if key == Key::Char('p') {
        BookmarksCommand::Push
    } else if key == Key::Char('e') {
        BookmarksCommand::Edit { ignore_immutable: false }
    } else if key == Key::Char('E') {
        BookmarksCommand::Edit { ignore_immutable: true }
    } else if key == Key::Enter {
        BookmarksCommand::ViewInLog
    } else if key == Key::Char('?') {
        BookmarksCommand::Help
    } else {
        BookmarksCommand::NotHandled
    }
}

/// The command of a key of the bookmarks tab.
pub fn bookmarks_command(key: Key) -> (res: BookmarksCommand)
    ensures
        res == spec_bookmarks_command(key),
{
    if key == Key::Char('j') {
        BookmarksCommand::ScrollDown
    } else if key == Key::Down {
        BookmarksCommand::ScrollDown
    } else if key == Key::Char('k') {
        BookmarksCommand::ScrollUp
    } else if key == Key::Up {
        BookmarksCommand::ScrollUp
    } else if key == Key::Char('J') {
        BookmarksCommand::ScrollDownHalf
    } else if key == Key::Char('K') {
        BookmarksCommand::ScrollUpHalf
    } else if key == Key::Char('w') {
        BookmarksCommand::ToggleDiffFormat
    } else if key == Key::Char('R') {
        BookmarksCommand::Refresh
    } else if key == Key::F(5) {
        BookmarksCommand::Refresh
    } else if key == Key::Char('a') {
        BookmarksCommand::ToggleShowAll
    } else if key == Key::Char('/') {
        BookmarksCommand::OpenSearch
    } else if key == Key::Char('c') {
        BookmarksCommand::Create
    } else if key == Key::Char('r') {
        BookmarksCommand::Rename
    } else if key == Key::Char('d') {
        BookmarksCommand::Delete
    } else if key == Key::Char('f') {
        BookmarksCommand::Forget
    } else if key == Key::Char('t') {
        BookmarksCommand::Track
    } else if key == Key::Char('T') {
        BookmarksCommand::Untrack
    } else if key == Key::Char('n') {
        BookmarksCommand::New { describe: false }
    } else if key == Key::Char('N') {
        BookmarksCommand::New { describe: true }
    } else if key == Key::Char('p') {
        BookmarksCommand::Push
    } else if key == Key::Char('e') {
        BookmarksCommand::Edit { ignore_immutable: false }
    } else if key == Key::Char('E') {
        BookmarksCommand::Edit { ignore_immutable: true }
    } else if key == Key::Enter {
        BookmarksCommand::ViewInLog
    } else if key == Key::Char('?') {
        BookmarksCommand::Help
    } else {
        BookmarksCommand::NotHandled
    }
}

/// Whether a command applies to the selected line: renaming, deleting,
/// forgetting and editing need a bookmark; tracking and untracking a present
/// remote bookmark; a new change and viewing in the log a present bookmark;
/// pushing a present local bookmark. The other commands need nothing.
pub open spec fn spec_command_applies(cmd: BookmarksCommand, selected: Option<BookmarkLineView>) -> bool {
    match cmd {
        BookmarksCommand::Rename | BookmarksCommand::Delete | BookmarksCommand::Forget | BookmarksCommand::Edit { .. } =>
            selected matches Some(BookmarkLineView::Parsed { .. }),
        BookmarksCommand::Track | BookmarksCommand::Untrack =>
            selected matches Some(BookmarkLineView::Parsed { bookmark, .. }) && bookmark.remote is Some && bookmark.present,
        BookmarksCommand::New { .. } | BookmarksCommand::ViewInLog =>
            selected matches Some(BookmarkLineView::Parsed { bookmark, .. }) && bookmark.present,
        BookmarksCommand::Push =>
            selected matches Some(BookmarkLineView::Parsed { bookmark, .. }) && bookmark.present && bookmark.remote is None,
        _ => true,
    }
}

/// Whether a command applies to the selected line.
pub fn command_applies(cmd: BookmarksCommand, selected: Option<&BookmarkLine>) -> (res: bool)
    ensures
        res == spec_command_applies(cmd, opt_line(selected)),
{
    match cmd {
        BookmarksCommand::Rename | BookmarksCommand::Delete | BookmarksCommand::Forget | BookmarksCommand::Edit { .. } =>
            match selected {
                Some(BookmarkLine::Parsed { .. }) => true,
                _ => false,
            },
        BookmarksCommand::Track | BookmarksCommand::Untrack => match selected {
            Some(BookmarkLine::Parsed { bookmark, .. }) => bookmark.remote.is_some() && bookmark.present,
            _ => false,
        },
        BookmarksCommand::New { .. } | BookmarksCommand::ViewInLog => match selected {
            Some(BookmarkLine::Parsed { bookmark, .. }) => bookmark.present,
            _ => false,
        },
        BookmarksCommand::Push => match selected {
            Some(BookmarkLine::Parsed { bookmark, .. }) => bookmark.present && bookmark.remote.is_none(),
            _ => false,
        },
        _ => true,
    }
}

/// Whether a typed bookmark name can be saved: it must not be blank.
pub fn check_bookmark_name(name: &str) -> (res: Result<(), String>)
    ensures
        res is Ok <==> trim(name@).len() > 0,
        res matches Err(m) ==> m@ == "Bookmark name cannot be empty"@,
{
    let t = trim_string(name);
    if t.as_str().is_empty() {
        Err(copy_string("Bookmark name cannot be empty"))
    } else {
        Ok(())
    }
}

/// The first listed bookmark named `name`.
pub open spec fn spec_find_named(bookmarks: Seq<BookmarkLineView>, name: Seq<char>) -> Option<BookmarkLineView>
    decreases bookmarks.len(),
{
    if bookmarks.len() == 0 {
        None
    } else {
        match spec_find_named(bookmarks.drop_last(), name) {
            Some(b) => Some(b),
            None => if bookmarks.last() matches BookmarkLineView::Parsed { bookmark, .. } && bookmark.name == name {
                Some(bookmarks.last())
            } else {
                None
            },
        }
    }
}

/// The first listed bookmark named `name`: the one to select after creating
/// or renaming a bookmark.
pub fn find_bookmark_named(bookmarks: &[BookmarkLine], name: &str) -> (res: Option<BookmarkLine>)
    ensures
        opt_line_owned(res) == spec_find_named(lines_view(bookmarks@), name@),
{
    let target = copy_string(name);
    let mut res: Option<BookmarkLine> = None;
    let mut i: usize = 0;
    while i < bookmarks.len()
        invariant
            i <= bookmarks@.len(),
            target@ == name@,
            opt_line_owned(res) == spec_find_named(lines_view(bookmarks@.take(i as int)), name@),
        decreases bookmarks@.len() - i,
    {
        proof {
            assert(lines_view(bookmarks@.take(i + 1)).drop_last() =~= lines_view(bookmarks@.take(i as int)));
            assert(lines_view(bookmarks@.take(i + 1)).last() == bookmarks@[i as int]@);
        }
        if res.is_none() {
            match &bookmarks[i] {
                BookmarkLine::Parsed { bookmark, .. } => {
                    if same_text(&bookmark.name, &target) {
                        res = Some(bookmarks[i].clone());
                    }
                },
                _ => {},
            }
        }
        i = i + 1;
    }
    proof {
        assert(bookmarks@.take(i as int) =~= bookmarks@);
    }
    res
}

/// The question asked before deleting a bookmark.
pub fn delete_prompt(name: &str) -> (res: String)
    ensures
        res@ == "Are you sure you want to delete the "@ + name@ + " bookmark?"@,
{
    let mut res = copy_string("Are you sure you want to delete the ");
    res.push_str(name);
    res.push_str(" bookmark?");
    res
}

/// The question asked before forgetting a bookmark.
pub fn forget_prompt(name: &str) -> (res: String)
    ensures
        res@ == "Are you sure you want to forget the "@ + name@ + " bookmark?"@,
{
    let mut res = copy_string("Are you sure you want to forget the ");
    res.push_str(name);
    res.push_str(" bookmark?");
    res
}

/// The lines of the question asked before creating a change on a bookmark.
pub fn new_prompt(bookmark: &Bookmark) -> (res: Vec<String>)
    ensures
        res@.len() == 2,
        res@[0]@ == "Are you sure you want to create a new change?"@,
        res@[1]@ == "Bookmark: "@ + bookmark_text(bookmark.name@, remote_view(bookmark.remote)),
{
    let mut res: Vec<String> = Vec::new();
    res.push(copy_string("Are you sure you want to create a new change?"));
    let mut line = copy_string("Bookmark: ");
    let t = bookmark.to_text();
    line.push_str(t.as_str());
    res.push(line);
    res
}

/// The status message when a search finds nothing.
pub fn no_matches_message(query: &str) -> (res: String)
    ensures
        res@ == "No matches for \""@ + query@ + "\""@,
{
    let mut res = copy_string("No matches for \"");
    res.push_str(query);
    res.push_str("\"");
    res
}

/// The views of (key, description) pairs.
pub open spec fn pair_views(v: Seq<(String, String)>) -> Seq<(Seq<char>, Seq<char>)> {
    v.map_values(|p: (String, String)| (p.0@, p.1@))
}

/// The help of the bookmarks tab: its own keys, then the details panel's.
pub fn bookmarks_help() -> (res: (Vec<(String, String)>, Vec<(String, String)>))
    ensures
        pair_views(res.0@) == seq![("j/k"@, "scroll down/up"@), ("J/K"@, "scroll down by ½ page"@), ("/"@, "search bookmarks (n/N: next/previous match)"@), ("a"@, "show all remotes"@), ("c"@, "create bookmark"@), ("r"@, "rename bookmark"@), ("d/f"@, "delete/forget bookmark"@), ("t/T"@, "track/untrack bookmark"@), ("Enter"@, "view in log"@), ("n"@, "new from bookmark"@), ("N"@, "new and describe"@), ("e"@, "edit bookmark"@), ("p"@, "push bookmark"@), ("R/F5"@, "refresh the view"@)],
        pair_views(res.1@) == seq![("Ctrl+e/Ctrl+y"@, "scroll down/up"@), ("Ctrl+d/Ctrl+u"@, "scroll down/up by ½ page"@), ("Ctrl+f/Ctrl+b"@, "scroll down/up by page"@), ("w"@, "toggle diff format"@), ("W"@, "toggle wrapping"@)],
{
    let mut main: Vec<(String, String)> = Vec::new();
    main.push((copy_string("j/k"), copy_string("scroll down/up")));
    main.push((copy_string("J/K"), copy_string("scroll down by ½ page")));
    main.push((copy_string("/"), copy_string("search bookmarks (n/N: next/previous match)")));
    main.push((copy_string("a"), copy_string("show all remotes")));
    main.push((copy_string("c"), copy_string("create bookmark")));
    main.push((copy_string("r"), copy_string("rename bookmark")));
    main.push((copy_string("d/f"), copy_string("delete/forget bookmark")));
    main.push((copy_string("t/T"), copy_string("track/untrack bookmark")));
    main.push((copy_string("Enter"), copy_string("view in log")));
    main.push((copy_string("n"), copy_string("new from bookmark")));
    main.push((copy_string("N"), copy_string("new and describe")));
    main.push((copy_string("e"), copy_string("edit bookmark")));
    main.push((copy_string("p"), copy_string("push bookmark")));
    main.push((copy_string("R/F5"), copy_string("refresh the view")));
    let mut details: Vec<(String, String)> = Vec::new();
    details.push((copy_string("Ctrl+e/Ctrl+y"), copy_string("scroll down/up")));
    details.push((copy_string("Ctrl+d/Ctrl+u"), copy_string("scroll down/up by ½ page")));
    details.push((copy_string("Ctrl+f/Ctrl+b"), copy_string("scroll down/up by page")));
    details.push((copy_string("w"), copy_string("toggle diff format")));
    details.push((copy_string("W"), copy_string("toggle wrapping")));
    proof {
        assert(pair_views(main@) =~= seq![("j/k"@, "scroll down/up"@), ("J/K"@, "scroll down by ½ page"@), ("/"@, "search bookmarks (n/N: next/previous match)"@), ("a"@, "show all remotes"@), ("c"@, "create bookmark"@), ("r"@, "rename bookmark"@), ("d/f"@, "delete/forget bookmark"@), ("t/T"@, "track/untrack bookmark"@), ("Enter"@, "view in log"@), ("n"@, "new from bookmark"@), ("N"@, "new and describe"@), ("e"@, "edit bookmark"@), ("p"@, "push bookmark"@), ("R/F5"@, "refresh the view"@)]);
        assert(pair_views(details@) =~= seq![("Ctrl+e/Ctrl+y"@, "scroll down/up"@), ("Ctrl+d/Ctrl+u"@, "scroll down/up by ½ page"@), ("Ctrl+f/Ctrl+b"@, "scroll down/up by page"@), ("w"@, "toggle diff format"@), ("W"@, "toggle wrapping"@)]);
    }
    (main, details)
}

/// What a key does while the search bar is open.
#[derive(Debug, Clone, Copy, PartialEq, Eq, Structural)]
pub enum SearchBarStep {
    /// Enter: take the query and jump to the first match.
    Confirm,
    /// Esc: close the bar and clear the search.
    Cancel,
    /// Any other key edits the query.
    Edit,
}

/// What a key does while the search bar is open.
pub fn search_bar_step(key: Key) -> (res: SearchBarStep)
    ensures
        res == (if key == Key::Enter {
            SearchBarStep::Confirm
        } else if key == Key::Esc {
            SearchBarStep::Cancel
        } else {
            SearchBarStep::Edit
        }),
{
    if key == Key::Enter {
        SearchBarStep::Confirm
    } else if key == Key::Esc {
        SearchBarStep::Cancel
    } else {
        SearchBarStep::Edit
    }
}

/// What a key does while a search is in effect: `n` and `N` move to the
/// next and previous match, Esc clears the search (`None` inside); other
/// keys are left to the tab.
pub fn search_active_step(key: Key) -> (res: Option<Option<MatchMove>>)
    ensures
        res == (if key == Key::Char('n') {
            Some(Some(MatchMove::Next))
        } else if key == Key::Char('N') {
            Some(Some(MatchMove::Previous))
        } else if key == Key::Esc {
            Some(None::<MatchMove>)
        } else {
            None::<Option<MatchMove>>
        }),
{
    if key == Key::Char('n') {
        Some(Some(MatchMove::Next))
    } else if key == Key::Char('N') {
        Some(Some(MatchMove::Previous))
    } else if key == Key::Esc {
        Some(None)
    } else {
        None
    }
}

/// The check before editing a bookmark's change: an immutable change cannot
/// be edited unless immutability is ignored (`E`).
pub fn bookmark_edit_check(immutable: bool, ignore_immutable: bool) -> (res: Result<(), &'static str>)
    ensures
        (res is Err) <==> (immutable && !ignore_immutable),
        res matches Err(m) ==> m@ == "The change cannot be edited because it is immutable."@,
{
    if immutable && !ignore_immutable {
        Err("The change cannot be edited because it is immutable.")
    } else {
        Ok(())
    }
}

/// The status line after a search was confirmed: where a query is in effect
/// and nothing matches it, the "no matches" message; else none.
pub fn search_confirm_status(active: bool, matches: usize, query: &str) -> (res: Option<String>)
    ensures
        (res is Some) <==> (active && matches == 0),
        res matches Some(m) ==> m@ == "No matches for \""@ + query@ + "\""@,
{
    if active && matches == 0 {
        Some(no_matches_message(query))
    } else {
        None
    }
}

/// What is open in the bookmarks tab, and its settings: the prompt (create,
/// rename, describe), the search bar, a question, the search in effect,
/// whether the remote bookmarks of every remote show, and the diff format.
pub struct BookmarksTabState {
    pub prompt_open: bool,
    pub search_bar_open: bool,
    pub confirm_open: bool,
    pub search: SearchState,
    pub show_all: bool,
    pub diff_format: DiffFormat,
}

/// The mathematical value of a [BookmarksTabState].
pub struct BookmarksTabView {
    pub prompt_open: bool,
    pub search_bar_open: bool,
    pub confirm_open: bool,
    pub search: Option<Seq<char>>,
    pub show_all: bool,
    pub diff_format: DiffFormatView,
}

impl View for BookmarksTabState {
    type V = BookmarksTabView;

    open spec fn view(&self) -> BookmarksTabView {
        BookmarksTabView {
            prompt_open: self.prompt_open,
            search_bar_open: self.search_bar_open,
            confirm_open: self.confirm_open,
            search: self.search@,
            show_all: self.show_all,
            diff_format: self.diff_format@,
        }
    }
}

impl BookmarksTabState {
    /// Nothing open, no search, the local bookmarks only, and the given
    /// diff format.
    pub fn new(diff_format: DiffFormat) -> (res: BookmarksTabState)
        ensures
            res@ == (BookmarksTabView {
                prompt_open: false,
                search_bar_open: false,
                confirm_open: false,
                search: None,
                show_all: false,
                diff_format: diff_format@,
            }),
    {
        BookmarksTabState {
            prompt_open: false,
            search_bar_open: false,
            confirm_open: false,
            search: SearchState::new(),
            show_all: false,
            diff_format,
        }
    }
}

/// What the application does after a key in the bookmarks tab.
#[derive(Debug, Clone, Copy, PartialEq, Eq, Structural)]
pub enum BookmarksTabAction {
    /// The key is left to the application.
    NotHandled,
    /// Nothing more to do.
    Handled,
    /// Hand the key to the open prompt.
    ToPrompt,
    /// The search bar closed: its text becomes the query, and the selection
    /// moves to the first match at or after it.
    SearchConfirmed,
    /// The search bar closed and the search was cleared.
    SearchCancelled,
    /// Hand the key to the search bar, whose text becomes the query.
    ToSearchBar,
    /// Hand the key to the open question.
    ToConfirm,
    /// Move the selection to a match of the search.
    MoveToMatch(MatchMove),
    /// Hand the key to the details panel.
    ToDetails(DetailsKey),
    /// Carry out the command (the state already shows what it opened or
    /// toggled).
    Run(BookmarksCommand),
}

/// A command of the bookmarks tab, where it applies to the selected line:
/// toggling the remotes or the diff format changes the setting; the search
/// bar opens with the search cleared; creating and renaming open the
/// prompt; deleting, forgetting and a new change open a question.
pub open spec fn spec_command_step(
    s: BookmarksTabView,
    cmd: BookmarksCommand,
    selected: Option<BookmarkLineView>,
    tool: Option<Option<Seq<char>>>,
) -> (BookmarksTabView, BookmarksTabAction) {
    if !spec_command_applies(cmd, selected) {
        (s, BookmarksTabAction::Handled)
    } else {
        match cmd {
            BookmarksCommand::NotHandled => (s, BookmarksTabAction::NotHandled),
            BookmarksCommand::ToggleShowAll => (BookmarksTabView { show_all: !s.show_all, ..s }, BookmarksTabAction::Run(cmd)),
            BookmarksCommand::ToggleDiffFormat => (
                BookmarksTabView { diff_format: spec_next_format(s.diff_format, tool), ..s },
                BookmarksTabAction::Run(cmd),
            ),
            BookmarksCommand::OpenSearch => (
                BookmarksTabView { search_bar_open: true, search: None, ..s },
                BookmarksTabAction::Run(cmd),
            ),
            BookmarksCommand::Create | BookmarksCommand::Rename => (
                BookmarksTabView { prompt_open: true, ..s },
                BookmarksTabAction::Run(cmd),
            ),
            BookmarksCommand::Delete | BookmarksCommand::Forget | BookmarksCommand::New { .. } => (
                BookmarksTabView { confirm_open: true, ..s },
                BookmarksTabAction::Run(cmd),
            ),
            _ => (s, BookmarksTabAction::Run(cmd)),
        }
    }
}

/// A key of the bookmarks tab where no prompt is open: the search bar takes
/// it first (Enter confirms, Esc cancels, other keys edit); then an open
/// question; then, while a search is in effect, `n`, `N` and Esc (which
/// clears the search); then the details panel's keys; then the tab's
/// command.
pub open spec fn spec_key_step(
    s: BookmarksTabView,
    k: Key,
    ctrl: bool,
    selected: Option<BookmarkLineView>,
    tool: Option<Option<Seq<char>>>,
) -> (BookmarksTabView, BookmarksTabAction) {
    if s.search_bar_open {
        if k == Key::Enter {
            (BookmarksTabView { search_bar_open: false, ..s }, BookmarksTabAction::SearchConfirmed)
        } else if k == Key::Esc {
            (BookmarksTabView { search_bar_open: false, search: None, ..s }, BookmarksTabAction::SearchCancelled)
        } else {
            (s, BookmarksTabAction::ToSearchBar)
        }
    } else if s.confirm_open {
        (s, BookmarksTabAction::ToConfirm)
    } else if s.search is Some && k == Key::Char('n') {
        (s, BookmarksTabAction::MoveToMatch(MatchMove::Next))
    } else if s.search is Some && k == Key::Char('N') {
        (s, BookmarksTabAction::MoveToMatch(MatchMove::Previous))
    } else if s.search is Some && k == Key::Esc {
        (BookmarksTabView { search: None, ..s }, BookmarksTabAction::Handled)
    } else {
        match spec_details_key(k, ctrl) {
            Some(d) => (s, BookmarksTabAction::ToDetails(d)),
            None => spec_command_step(s, spec_bookmarks_command(k), selected, tool),
        }
    }
}

/// A key event of the bookmarks tab (`None` for a key that has no [Key]):
/// an open prompt takes every event; else the key goes as [spec_key_step]
/// says, and an event without a key is left to the application.
pub open spec fn spec_bookmarks_tab_step(
    s: BookmarksTabView,
    key: Option<Key>,
    ctrl: bool,
    selected: Option<BookmarkLineView>,
    tool: Option<Option<Seq<char>>>,
) -> (BookmarksTabView, BookmarksTabAction) {
    if s.prompt_open {
        (s, BookmarksTabAction::ToPrompt)
    } else {
        match key {
            None => (s, BookmarksTabAction::NotHandled),
            Some(k) => spec_key_step(s, k, ctrl, selected, tool),
        }
    }
}

/// Take a key event in the bookmarks tab: update what is open and the
/// settings, and say what the application does next. `selected` is the
/// selected line; `diff_tool` the configured diff tool.
pub fn bookmarks_tab_step(
    state: &mut BookmarksTabState,
    key: Option<Key>,
    ctrl: bool,
    selected: Option<&BookmarkLine>,
    diff_tool: Option<Option<String>>,
) -> (res: BookmarksTabAction)
    ensures
        (final(state)@, res) == spec_bookmarks_tab_step(old(state)@, key, ctrl, opt_line(selected), opt_opt_text(diff_tool)),
{
    if state.prompt_open {
        return BookmarksTabAction::ToPrompt;
    }
    let k = match key {
        None => return BookmarksTabAction::NotHandled,
        Some(k) => k,
    };
    if state.search_bar_open {
        match search_bar_step(k) {
            SearchBarStep::Confirm => {
                state.search_bar_open = false;
                return BookmarksTabAction::SearchConfirmed;
            },
            SearchBarStep::Cancel => {
                state.search_bar_open = false;
                state.search.clear();
                return BookmarksTabAction::SearchCancelled;
            },
            SearchBarStep::Edit => {
                return BookmarksTabAction::ToSearchBar;
            },
        }
    }
    if state.confirm_open {
        return BookmarksTabAction::ToConfirm;
    }
    if state.search.is_active() {
        match search_active_step(k) {
            Some(Some(how)) => return BookmarksTabAction::MoveToMatch(how),
            Some(None) => {
                state.search.clear();
                return BookmarksTabAction::Handled;
            },
            None => {},
        }
    }
    if let Some(d) = details_key(k, ctrl) {
        return BookmarksTabAction::ToDetails(d);
    }
    let cmd = bookmarks_command(k);
    if !command_applies(cmd, selected) {
        return BookmarksTabAction::Handled;
    }
    match cmd {
        BookmarksCommand::NotHandled => BookmarksTabAction::NotHandled,
        BookmarksCommand::ToggleShowAll => {
            state.show_all = !state.show_all;
            BookmarksTabAction::Run(cmd)
        },
        BookmarksCommand::ToggleDiffFormat => {
            state.diff_format = state.diff_format.get_next(diff_tool);
            BookmarksTabAction::Run(cmd)
        },
        BookmarksCommand::OpenSearch => {
            state.search_bar_open = true;
            state.search.clear();
            BookmarksTabAction::Run(cmd)
        },
        BookmarksCommand::Create | BookmarksCommand::Rename => {
            state.prompt_open = true;
            BookmarksTabAction::Run(cmd)
        },
        BookmarksCommand::Delete | BookmarksCommand::Forget | BookmarksCommand::New { .. } => {
            state.confirm_open = true;
            BookmarksTabAction::Run(cmd)
        },
        _ => BookmarksTabAction::Run(cmd),
    }
}

/// Laws of the bookmarks tab's step: an open prompt takes every key and
/// changes nothing else; with nothing open and no search, `a` twice shows
/// the remotes as before, and `/` then Esc leaves the tab as it was.
pub proof fn lemma_bookmarks_tab_step(
    s: BookmarksTabView,
    key: Option<Key>,
    ctrl: bool,
    selected: Option<BookmarkLineView>,
    tool: Option<Option<Seq<char>>>,
)
    ensures
        s.prompt_open ==> spec_bookmarks_tab_step(s, key, ctrl, selected, tool) == (s, BookmarksTabAction::ToPrompt),
        (!s.prompt_open && !s.search_bar_open && !s.confirm_open && s.search is None) ==> ({
            let once = spec_bookmarks_tab_step(s, Some(Key::Char('a')), false, selected, tool).0;
            spec_bookmarks_tab_step(once, Some(Key::Char('a')), false, selected, tool).0 == s
        }),
        (!s.prompt_open && !s.search_bar_open && !s.confirm_open && s.search is None) ==> ({
            let opened = spec_bookmarks_tab_step(s, Some(Key::Char('/')), false, selected, tool).0;
            spec_bookmarks_tab_step(opened, Some(Key::Esc), false, selected, tool).0 == s
        }),
{
}

} // verus!
