use blazingjj::bookmarks::Bookmark;
use blazingjj::dialogs::BookmarkSetOption;
use blazingjj::dialogs::RebasePopup;
use blazingjj::ids::ChangeId;
use blazingjj::ids::CommitId;
use blazingjj::log::Head;
use blazingjj::log_tab::DESCRIBE_IMMUTABLE;
use blazingjj::log_tab::describe_check;
use blazingjj::log_tab::details_help;

fn head(immutable: bool) -> Head {
    Head {
        change_id: ChangeId("qpvuntsmwlqt".to_owned()),
        commit_id: CommitId("0123456789abcdef".to_owned()),
        divergent: false,
        immutable,
    }
}

#[test]
fn describe_only_mutable_changes() {
    assert_eq!(describe_check(&head(false)), Ok(()));
    assert_eq!(describe_check(&head(true)), Err(DESCRIBE_IMMUTABLE));
    assert_eq!(
        DESCRIBE_IMMUTABLE,
        "The change cannot be described because it is immutable."
    );
}

#[test]
fn details_help_lists_panel_keys() {
    let help = details_help();
    assert_eq!(help.len(), 5);
    assert_eq!(help[0], ("Ctrl+e/Ctrl+y".to_owned(), "scroll down/up".to_owned()));
    assert_eq!(help[4], ("W".to_owned(), "toggle wrapping".to_owned()));
}

#[test]
fn bookmark_option_labels() {
    assert_eq!(BookmarkSetOption::CreateBookmark.label(), "(C)reate bookmark");
    assert_eq!(
        BookmarkSetOption::GeneratedName("push-abc".to_owned(), false).label(),
        "(G)enerate bookmark: push-abc"
    );
    assert_eq!(
        BookmarkSetOption::GeneratedName("push-abc".to_owned(), true).label(),
        "(G)enerate bookmark: push-abc (exists)"
    );
    let remote = Bookmark {
        name: "main".to_owned(),
        remote: Some("origin".to_owned()),
        present: true,
        timestamp: 0,
    };
    assert_eq!(BookmarkSetOption::Bookmark(remote).label(), "main@origin");
    assert_eq!(BookmarkSetOption::Error("boom".to_owned()).label(), "boom");
}

#[test]
fn rebase_popup_labels() {
    let one = RebasePopup::new(head(false), vec![CommitId("fedcba9876543210".to_owned())]);
    assert_eq!(one.source_label(), "Source qpvuntsm 01234567");
    assert_eq!(one.target_label(), "Target fedcba98");
    let two = RebasePopup::new(
        head(false),
        vec![CommitId("aaaaaaaaaaaa".to_owned()), CommitId("bbb".to_owned())],
    );
    assert_eq!(two.target_label(), "Target 2 marked changes");
}
