use blazingjj::bookmarks::Bookmark;
use blazingjj::commander::CommandError;
use blazingjj::dialogs::BookmarkSetOption;
use blazingjj::dialogs::BookmarkSetPopup;
use blazingjj::dialogs::BookmarkSetStep;
use blazingjj::dialogs::CutOption;
use blazingjj::dialogs::HelpPopup;
use blazingjj::dialogs::LoaderOutcome;
use blazingjj::dialogs::PasteOption;
use blazingjj::dialogs::RebasePopup;
use blazingjj::dialogs::RebasePopupExit;
use blazingjj::dialogs::generate_name;
use blazingjj::dialogs::generate_options;
use blazingjj::dialogs::loader_outcome;
use blazingjj::dialogs::set_or_create_args;
use blazingjj::dialogs::wrap_text;
use blazingjj::ids::ChangeId;
use blazingjj::ids::CommitId;
use blazingjj::keybinds::Key;
use blazingjj::keybinds::Shortcut;
use blazingjj::log::Head;

fn head(change: &str, commit: &str) -> Head {
    Head {
        change_id: ChangeId(change.to_owned()),
        commit_id: CommitId(commit.to_owned()),
        divergent: false,
        immutable: false,
    }
}

fn bookmark(name: &str, remote: Option<&str>) -> Bookmark {
    Bookmark { name: name.to_owned(), remote: remote.map(Into::into), present: true, timestamp: 0 }
}

#[test]
fn wrap_text_wraps_greedily() {
    assert_eq!(wrap_text("one two three four", 9), vec!["one two", "three", "four"]);
    assert_eq!(wrap_text("averyveryverylongword x", 5), vec!["averyveryverylongword", "x"]);
    assert_eq!(wrap_text("", 10), vec![""]);
    assert_eq!(wrap_text("  a   b  ", 0), vec!["a", "b"]);
    assert_eq!(wrap_text("a b c", 5), vec!["a b c"]);
}

#[test]
fn help_popup_scrolls_within_rows() {
    let mut help = HelpPopup::new(
        vec![("j/k".to_owned(), "scroll down/up".to_owned())],
        vec![("w".to_owned(), "toggle diff format".to_owned())],
    );
    let width = help.desc_width(80);
    assert_eq!(width, 80 - (13 + 2));
    let rows = help.layout_rows(width);
    assert_eq!(rows.len(), 5);
    assert_eq!(rows[0].key, "Main panel");
    assert_eq!(rows[1].lines, vec!["scroll down/up"]);
    assert_eq!(rows[3].key, "Details panel");
    assert_eq!(help.row_count, 5);
    for _ in 0..10 {
        assert!(help.handle_key(Key::Char('j')));
    }
    assert_eq!(help.scroll, 4);
    assert!(help.handle_key(Key::Up));
    assert_eq!(help.scroll, 3);
    assert!(!help.handle_key(Key::Char('x')));
    assert_eq!(help.desc_width(10), 20);
}

#[test]
fn rebase_popup_builds_the_command() {
    let mut popup = RebasePopup::new(head("zsztoxlv", "093ab72d"), vec![CommitId("45a99ab4".to_owned())]);
    assert_eq!(popup.run_command(), vec!["rebase", "-r", "093ab72d", "-d", "45a99ab4"]);
    let shift_a = Shortcut::parse("shift+a").unwrap();
    assert_eq!(popup.handle_input(shift_a), RebasePopupExit::KeepOpen);
    assert_eq!(popup.target_mode, PasteOption::InsertAfter);
    let s = Shortcut::parse("s").unwrap();
    assert_eq!(popup.handle_input(s), RebasePopupExit::KeepOpen);
    assert_eq!(popup.source_mode, CutOption::IncludeDescendants);
    assert_eq!(popup.run_command(), vec!["rebase", "-s", "093ab72d", "-A", "45a99ab4"]);
    assert_eq!(popup.handle_input(Shortcut::parse("enter").unwrap()), RebasePopupExit::Executed);
    assert_eq!(popup.handle_input(Shortcut::parse("q").unwrap()), RebasePopupExit::Cancelled);
    assert_eq!(popup.handle_input(Shortcut::parse("esc").unwrap()), RebasePopupExit::Cancelled);
}

#[test]
fn bookmark_options_list_local_bookmarks() {
    let listing = Ok(vec![bookmark("main", None), bookmark("main", Some("origin")), bookmark("push-abc", None)]);
    let options = generate_options(Some("push-abc".to_owned()), listing);
    assert_eq!(options.len(), 4);
    assert!(matches!(options[0], BookmarkSetOption::CreateBookmark));
    assert!(matches!(&options[1], BookmarkSetOption::GeneratedName(n, true) if n == "push-abc"));
    assert!(matches!(&options[2], BookmarkSetOption::Bookmark(b) if b.name == "main" && b.remote.is_none()));
    let failed = generate_options(None, Err("boom".to_owned()));
    assert_eq!(failed.len(), 2);
    assert!(matches!(&failed[1], BookmarkSetOption::Error(e) if e == "boom"));
}

#[test]
fn bookmark_names_and_commands() {
    let change = ChangeId("kkmpptxz".to_owned());
    assert_eq!(generate_name(&change, Ok("push-kkmpptxz".to_owned())), "push-kkmpptxz");
    assert_eq!(generate_name(&change, Err("no template".to_owned())), "error-kkmpptxz");
    let commit = CommitId("abcd".to_owned());
    let existing = vec![bookmark("main", None)];
    assert_eq!(
        set_or_create_args("main", &commit, &existing),
        vec!["bookmark", "set", "main", "-r", "abcd", "--allow-backwards"]
    );
    assert_eq!(set_or_create_args("new", &commit, &existing), vec!["bookmark", "create", "new", "-r", "abcd"]);
}

#[test]
fn bookmark_popup_keys() {
    let options = generate_options(Some("gen".to_owned()), Ok(vec![bookmark("main", None)]));
    let mut popup = BookmarkSetPopup::new(None, CommitId("abcd".to_owned()), options);
    assert!(matches!(popup.step_for(Key::Enter, false, ""), BookmarkSetStep::StartCreating));
    popup.scroll(1);
    assert_eq!(popup.selected, Some(1));
    assert!(matches!(popup.step_for(Key::Enter, false, ""), BookmarkSetStep::Generate));
    popup.scroll(10);
    assert_eq!(popup.selected, Some(2));
    assert!(matches!(popup.step_for(Key::Enter, false, ""), BookmarkSetStep::SetExisting(n) if n == "main"));
    popup.scroll(-10);
    assert_eq!(popup.selected, Some(0));
    assert!(matches!(popup.step_for(Key::Esc, false, ""), BookmarkSetStep::Cancel));
    assert!(matches!(popup.step_for(Key::Char('z'), false, ""), BookmarkSetStep::NotHandled));
    popup.creating = true;
    assert!(matches!(popup.step_for(Key::Enter, false, "  "), BookmarkSetStep::Handled));
    assert!(matches!(popup.step_for(Key::Char('s'), true, "topic"), BookmarkSetStep::CreateNamed(n) if n == "topic"));
    assert!(matches!(popup.step_for(Key::Esc, false, "topic"), BookmarkSetStep::CloseCreating));
    assert!(matches!(popup.step_for(Key::Char('t'), false, "topic"), BookmarkSetStep::EditName));
}

#[test]
fn loader_outcomes() {
    let done = loader_outcome("Pushing", &Ok(String::new()));
    assert!(matches!(done, LoaderOutcome::Done));
    let msg = loader_outcome("Pushing", &Ok("pushed".to_owned()));
    assert!(matches!(msg, LoaderOutcome::Message { title, text } if title == "Pushing message" && text == "pushed"));
    let err = loader_outcome("Fetching", &Err(CommandError::Status("no remote".to_owned(), Some(1))));
    assert!(matches!(err, LoaderOutcome::Failed { title, text } if title == "Fetching error" && text == "no remote"));
}
