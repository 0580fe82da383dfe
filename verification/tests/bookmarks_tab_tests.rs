use blazingjj::bookmarks::Bookmark;
use blazingjj::bookmarks::BookmarkLine;
use blazingjj::bookmarks_tab::BookmarksCommand;
use blazingjj::bookmarks_tab::BookmarksTabAction;
use blazingjj::bookmarks_tab::BookmarksTabState;
use blazingjj::bookmarks_tab::bookmark_edit_check;
use blazingjj::bookmarks_tab::bookmarks_tab_step;
use blazingjj::bookmarks_tab::search_confirm_status;
use blazingjj::env::DiffFormat;
use blazingjj::tabs::DetailsKey;
use blazingjj::bookmarks_tab::MatchMove;
use blazingjj::bookmarks_tab::bookmark_lines_match;
use blazingjj::bookmarks_tab::bookmark_search_text;
use blazingjj::bookmarks_tab::bookmarks_command;
use blazingjj::bookmarks_tab::check_bookmark_name;
use blazingjj::bookmarks_tab::command_applies;
use blazingjj::bookmarks_tab::find_bookmark_named;
use blazingjj::bookmarks_tab::get_current_bookmark_index_in_list;
use blazingjj::bookmarks_tab::scroll_bookmarks;
use blazingjj::bookmarks_tab::select_match;
use blazingjj::bookmarks_tab::sync_selected_bookmark;
use blazingjj::keybinds::Key;
use blazingjj::search::match_indices;

fn parsed(name: &str, remote: Option<&str>) -> BookmarkLine {
    BookmarkLine::Parsed {
        text: String::new(),
        bookmark: Bookmark {
            name: name.into(),
            remote: remote.map(Into::into),
            present: true,
            timestamp: 0,
        },
    }
}

#[test]
fn search_text_includes_name_and_remote() {
    assert_eq!(bookmark_search_text(&parsed("feature/login", None)), "feature/login");
    assert_eq!(
        bookmark_search_text(&parsed("release", Some("origin"))),
        "release@origin"
    );
    assert_eq!(
        bookmark_search_text(&BookmarkLine::Unparsable("weird line".into())),
        "weird line"
    );
}

#[test]
fn search_matches_name_case_insensitively() {
    let bookmarks = vec![parsed("feature/login", None), parsed("main", None)];
    // Query is pre-lowercased by SearchState; pass lowercase here.
    let matches = match_indices(&bookmarks, "login", bookmark_search_text);
    assert_eq!(matches, vec![0]);
}

#[test]
fn search_matches_remote_name() {
    let bookmarks = vec![
        parsed("release", Some("origin")),
        parsed("dev", Some("upstream")),
    ];
    let matches = match_indices(&bookmarks, "origin", bookmark_search_text);
    assert_eq!(matches, vec![0]);
}

#[test]
fn search_matches_multiple_bookmarks() {
    let bookmarks = vec![
        parsed("apple-pie", None),
        parsed("banana", None),
        parsed("apple-cart", None),
    ];
    let matches = match_indices(&bookmarks, "apple", bookmark_search_text);
    assert_eq!(matches, vec![0, 2]);
}

#[test]
fn lines_match_by_name_and_remote() {
    assert!(bookmark_lines_match(&parsed("a", None), &parsed("a", None)));
    assert!(!bookmark_lines_match(&parsed("a", None), &parsed("a", Some("origin"))));
    assert!(bookmark_lines_match(
        &BookmarkLine::Unparsable("x".into()),
        &BookmarkLine::Unparsable("x".into())
    ));
    assert!(!bookmark_lines_match(&parsed("x", None), &BookmarkLine::Unparsable("x".into())));
}

#[test]
fn selection_follows_the_list() {
    let list = vec![parsed("a", None), parsed("b", None), parsed("c", None)];
    let b = parsed("b", None);
    assert_eq!(get_current_bookmark_index_in_list(Some(&b), &list), Some(1));
    assert_eq!(scroll_bookmarks(&list, Some(&b), 1), Some(parsed("c", None)));
    assert_eq!(scroll_bookmarks(&list, Some(&b), 10), Some(parsed("c", None)));
    assert_eq!(scroll_bookmarks(&list, Some(&b), -5), Some(parsed("a", None)));
    let gone = parsed("z", None);
    assert_eq!(scroll_bookmarks(&list, Some(&gone), 1), Some(parsed("a", None)));
    assert_eq!(sync_selected_bookmark(&list, Some(&b)), Some(parsed("b", None)));
    assert_eq!(sync_selected_bookmark(&list, Some(&gone)), Some(parsed("a", None)));
    assert_eq!(sync_selected_bookmark(&[], Some(&b)), None);
}

#[test]
fn select_match_moves_to_matches() {
    let list = vec![parsed("apple", None), parsed("b", None), parsed("apple2", None)];
    let b = parsed("b", None);
    assert_eq!(select_match(&list, Some(&b), "apple", MatchMove::FirstAtOrAfter), (2, Some(2)));
    assert_eq!(select_match(&list, Some(&b), "apple", MatchMove::Previous), (2, Some(0)));
    assert_eq!(select_match(&list, Some(&b), "zzz", MatchMove::Next), (0, None));
}

#[test]
fn commands_and_their_guards() {
    assert_eq!(bookmarks_command(Key::Char('J')), BookmarksCommand::ScrollDownHalf);
    assert_eq!(bookmarks_command(Key::F(5)), BookmarksCommand::Refresh);
    assert_eq!(bookmarks_command(Key::Char('N')), BookmarksCommand::New { describe: true });
    assert_eq!(bookmarks_command(Key::Char('z')), BookmarksCommand::NotHandled);
    let local = parsed("main", None);
    let remote = parsed("main", Some("origin"));
    assert!(command_applies(BookmarksCommand::Push, Some(&local)));
    assert!(!command_applies(BookmarksCommand::Push, Some(&remote)));
    assert!(command_applies(BookmarksCommand::Track, Some(&remote)));
    assert!(!command_applies(BookmarksCommand::Track, Some(&local)));
    assert!(!command_applies(BookmarksCommand::Rename, None));
    assert!(command_applies(BookmarksCommand::Help, None));
}

#[test]
fn names_are_checked_and_found() {
    assert_eq!(check_bookmark_name("  "), Err("Bookmark name cannot be empty".to_owned()));
    assert_eq!(check_bookmark_name("feature"), Ok(()));
    let list = vec![parsed("a", Some("origin")), parsed("a", None)];
    assert_eq!(find_bookmark_named(&list, "a"), Some(parsed("a", Some("origin"))));
    assert_eq!(find_bookmark_named(&list, "b"), None);
}

#[test]
fn bookmark_edit_refuses_immutable_unless_ignored() {
    assert_eq!(
        bookmark_edit_check(true, false),
        Err("The change cannot be edited because it is immutable.")
    );
    assert_eq!(bookmark_edit_check(true, true), Ok(()));
    assert_eq!(bookmark_edit_check(false, false), Ok(()));
    assert_eq!(bookmark_edit_check(false, true), Ok(()));
}

#[test]
fn search_confirm_status_only_without_matches() {
    assert_eq!(search_confirm_status(true, 0, "foo"), Some("No matches for \"foo\"".to_owned()));
    assert_eq!(search_confirm_status(true, 2, "foo"), None);
    assert_eq!(search_confirm_status(false, 0, ""), None);
}

fn step(state: &mut BookmarksTabState, key: Key, ctrl: bool, selected: Option<&BookmarkLine>) -> BookmarksTabAction {
    bookmarks_tab_step(state, Some(key), ctrl, selected, None)
}

#[test]
fn bookmarks_tab_step_search_bar_then_moves() {
    let line = parsed("main", None);
    let mut state = BookmarksTabState::new(DiffFormat::ColorWords);
    assert_eq!(step(&mut state, Key::Char('/'), false, Some(&line)), BookmarksTabAction::Run(BookmarksCommand::OpenSearch));
    assert!(state.search_bar_open);
    // While the bar is open, keys edit the query, even command keys.
    assert_eq!(step(&mut state, Key::Char('d'), false, Some(&line)), BookmarksTabAction::ToSearchBar);
    state.search.set_query("ma");
    assert_eq!(step(&mut state, Key::Enter, false, Some(&line)), BookmarksTabAction::SearchConfirmed);
    assert!(!state.search_bar_open);
    assert!(state.search.is_active());
    assert_eq!(step(&mut state, Key::Char('n'), false, Some(&line)), BookmarksTabAction::MoveToMatch(MatchMove::Next));
    assert_eq!(step(&mut state, Key::Char('N'), false, Some(&line)), BookmarksTabAction::MoveToMatch(MatchMove::Previous));
    assert_eq!(step(&mut state, Key::Esc, false, Some(&line)), BookmarksTabAction::Handled);
    assert!(!state.search.is_active());
    // Without a search, `n` is a new change again.
    assert_eq!(step(&mut state, Key::Char('n'), false, Some(&line)), BookmarksTabAction::Run(BookmarksCommand::New { describe: false }));
    assert!(state.confirm_open);
}

#[test]
fn bookmarks_tab_step_search_bar_cancel_clears() {
    let mut state = BookmarksTabState::new(DiffFormat::ColorWords);
    step(&mut state, Key::Char('/'), false, None);
    state.search.set_query("x");
    assert_eq!(step(&mut state, Key::Esc, false, None), BookmarksTabAction::SearchCancelled);
    assert!(!state.search_bar_open);
    assert!(!state.search.is_active());
}

#[test]
fn bookmarks_tab_step_modes_take_keys_first() {
    let line = parsed("main", None);
    let mut state = BookmarksTabState::new(DiffFormat::ColorWords);
    assert_eq!(step(&mut state, Key::Char('c'), false, Some(&line)), BookmarksTabAction::Run(BookmarksCommand::Create));
    assert!(state.prompt_open);
    assert_eq!(step(&mut state, Key::Char('q'), false, Some(&line)), BookmarksTabAction::ToPrompt);
    assert_eq!(bookmarks_tab_step(&mut state, None, false, Some(&line), None), BookmarksTabAction::ToPrompt);
    state.prompt_open = false;
    assert_eq!(bookmarks_tab_step(&mut state, None, false, Some(&line), None), BookmarksTabAction::NotHandled);
    assert_eq!(step(&mut state, Key::Char('d'), false, Some(&line)), BookmarksTabAction::Run(BookmarksCommand::Delete));
    assert!(state.confirm_open);
    assert_eq!(step(&mut state, Key::Char('j'), false, Some(&line)), BookmarksTabAction::ToConfirm);
    state.confirm_open = false;
    assert_eq!(step(&mut state, Key::Char('d'), true, Some(&line)), BookmarksTabAction::ToDetails(DetailsKey::HalfPage(true)));
    assert_eq!(step(&mut state, Key::Char('W'), false, Some(&line)), BookmarksTabAction::ToDetails(DetailsKey::ToggleWrap));
    assert_eq!(step(&mut state, Key::Char('j'), false, Some(&line)), BookmarksTabAction::Run(BookmarksCommand::ScrollDown));
    assert_eq!(step(&mut state, Key::Char('x'), false, Some(&line)), BookmarksTabAction::NotHandled);
}

#[test]
fn bookmarks_tab_step_toggles_and_applicability() {
    let mut state = BookmarksTabState::new(DiffFormat::ColorWords);
    assert_eq!(step(&mut state, Key::Char('a'), false, None), BookmarksTabAction::Run(BookmarksCommand::ToggleShowAll));
    assert!(state.show_all);
    step(&mut state, Key::Char('a'), false, None);
    assert!(!state.show_all);
    assert_eq!(step(&mut state, Key::Char('w'), false, None), BookmarksTabAction::Run(BookmarksCommand::ToggleDiffFormat));
    assert!(matches!(state.diff_format, DiffFormat::Git));
    step(&mut state, Key::Char('w'), false, None);
    assert!(matches!(state.diff_format, DiffFormat::ColorWords));
    // Deleting needs a selected bookmark: without one the key does nothing.
    assert_eq!(step(&mut state, Key::Char('d'), false, None), BookmarksTabAction::Handled);
    assert!(!state.confirm_open);
    // Pushing needs a local bookmark.
    let remote = parsed("main", Some("origin"));
    assert_eq!(step(&mut state, Key::Char('p'), false, Some(&remote)), BookmarksTabAction::Handled);
}
