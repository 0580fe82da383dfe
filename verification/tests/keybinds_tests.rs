use blazingjj::keybinds::Key;
use blazingjj::keybinds::Keybind;
use blazingjj::keybinds::KeybindsConfig;
use blazingjj::keybinds::LogTabEvent;
use blazingjj::keybinds::LogTabKeybinds;
use blazingjj::keybinds::LogTabKeybindsConfig;
use blazingjj::keybinds::MessagePopupEvent;
use blazingjj::keybinds::MessagePopupKeybinds;
use blazingjj::keybinds::MessagePopupKeybindsConfig;
use blazingjj::keybinds::Shortcut;
use blazingjj::keybinds::event_push;

fn key(text: &str) -> Shortcut {
    Shortcut::parse(text).unwrap()
}

fn empty_log_tab_config() -> LogTabKeybindsConfig {
    LogTabKeybindsConfig {
        save: None,
        cancel: None,
        close_popup: None,
        scroll_down: None,
        scroll_up: None,
        scroll_down_half: None,
        scroll_up_half: None,
        focus_current: None,
        toggle_diff_format: None,
        refresh: None,
        duplicate: None,
        create_new: None,
        create_new_describe: None,
        squash: None,
        squash_ignore_immutable: None,
        edit_change: None,
        edit_change_ignore_immutable: None,
        abandon: None,
        absorb: None,
        simplify_parents: None,
        simplify_parents_descendants: None,
        resolve: None,
        resolve_destination: None,
        undo: None,
        redo: None,
        metaedit_update_change_id: None,
        metaedit_update_change_id_ignore_immutable: None,
        insert_new: None,
        insert_move: None,
        describe: None,
        edit_revset: None,
        set_bookmark: None,
        open_files: None,
        copy_change_id: None,
        copy_rev: None,
        rebase: None,
        push: None,
        push_all: None,
        fetch: None,
        fetch_all: None,
        open_help: None,
    }
}

#[test]
fn test_log_tab_keybinds_default() {
    let _ = LogTabKeybinds::default();
}

#[test]
fn shortcut_parse_modifiers_and_names() {
    assert_eq!(
        key("ctrl+s"),
        Shortcut { key: Key::Char('s'), ctrl: true, shift: false, alt: false }
    );
    assert_eq!(
        key("shift+j"),
        Shortcut { key: Key::Char('j'), ctrl: false, shift: true, alt: false }
    );
    assert_eq!(key("J"), key("shift+j"));
    assert_eq!(key("enter").key, Key::Enter);
    assert_eq!(key("space").key, Key::Char(' '));
    assert_eq!(key("f5").key, Key::F(5));
    assert_eq!(key("f12").key, Key::F(12));
    assert_eq!(
        key("ctrl+alt+pagedown"),
        Shortcut { key: Key::PageDown, ctrl: true, shift: false, alt: true }
    );
    assert_eq!(key("shift+?"), key("?"));
}

#[test]
fn shortcut_parse_rejects_unknown_names() {
    assert_eq!(Shortcut::parse("hyper+s"), None);
    assert_eq!(Shortcut::parse("f13"), None);
    assert_eq!(Shortcut::parse("bogus"), None);
    assert_eq!(Shortcut::parse(""), None);
}

#[test]
fn shortcut_text_round_trips() {
    for text in ["ctrl+s", "shift+j", "esc", "ctrl+end", "f5", "space", "ctrl+alt+shift+x", "?"] {
        let s = key(text);
        assert_eq!(Shortcut::parse(&s.to_text()), Some(s), "{text}");
    }
    assert_eq!(key("ctrl+shift+a").to_text(), "ctrl+shift+a");
}

#[test]
fn default_bindings_lead_to_their_events() {
    let keys = LogTabKeybinds::default();
    assert_eq!(keys.match_event(key("ctrl+s")), LogTabEvent::Save);
    assert_eq!(keys.match_event(key("j")), LogTabEvent::ScrollDown);
    assert_eq!(keys.match_event(key("down")), LogTabEvent::ScrollDown);
    assert_eq!(keys.match_event(key("shift+j")), LogTabEvent::ScrollDownHalf);
    assert_eq!(keys.match_event(key("f5")), LogTabEvent::Refresh);
    assert_eq!(keys.match_event(key("space")), LogTabEvent::ToggleHeadMark);
    assert_eq!(keys.match_event(key("shift+p")), event_push(true));
    assert_eq!(keys.match_event(key("p")), LogTabEvent::Push { all_bookmarks: false });
    assert_eq!(keys.match_event(key("?")), LogTabEvent::OpenHelp);
    assert_eq!(keys.match_event(key("ctrl+z")), LogTabEvent::Unbound);
}

#[test]
fn configured_bindings_replace_the_defaults() {
    let mut keys = LogTabKeybinds::default();
    let mut log_tab = empty_log_tab_config();
    log_tab.save = Some(Keybind::Multiple(vec![key("ctrl+s"), key("ctrl+shift+g")]));
    log_tab.abandon = Some(Keybind::Enable(false));
    log_tab.describe = Some(Keybind::Single(key("x")));
    log_tab.undo = Some(Keybind::Enable(true));
    let config = KeybindsConfig {
        scroll_down: Some(Keybind::Single(key("n"))),
        scroll_up: None,
        scroll_down_half: None,
        scroll_up_half: None,
        log_tab: Some(log_tab),
        message_popup: None,
    };
    keys.extend_from_config(&config);
    assert_eq!(keys.match_event(key("ctrl+shift+g")), LogTabEvent::Save);
    assert_eq!(keys.match_event(key("ctrl+s")), LogTabEvent::Save);
    assert_eq!(keys.match_event(key("a")), LogTabEvent::Unbound);
    assert_eq!(keys.match_event(key("x")), LogTabEvent::Describe);
    assert_eq!(keys.match_event(key("d")), LogTabEvent::Unbound);
    assert_eq!(keys.match_event(key("u")), LogTabEvent::Undo);
    // `n` was moved to scrolling, and `j` no longer scrolls.
    assert_eq!(keys.match_event(key("n")), LogTabEvent::ScrollDown);
    assert_eq!(keys.match_event(key("j")), LogTabEvent::Unbound);
    assert_eq!(keys.match_event(key("down")), LogTabEvent::Unbound);
}

#[test]
fn main_panel_help_joins_shortcuts() {
    let keys = LogTabKeybinds::default();
    let help = keys.make_main_panel_help();
    assert_eq!(help[0], ("j/down".to_owned(), "scroll down".to_owned()));
    assert_eq!(help[1], ("k/up".to_owned(), "scroll up".to_owned()));
    assert!(help.contains(&("shift+p".to_owned(), "git push all bookmarks".to_owned())));
    assert_eq!(help.len(), 35);
}

#[test]
fn main_panel_help_leaves_out_disabled_actions() {
    let mut keys = LogTabKeybinds::default();
    let mut log_tab = empty_log_tab_config();
    log_tab.abandon = Some(Keybind::Enable(false));
    let config = KeybindsConfig {
        scroll_down: None,
        scroll_up: None,
        scroll_down_half: None,
        scroll_up_half: None,
        log_tab: Some(log_tab),
        message_popup: None,
    };
    keys.extend_from_config(&config);
    let help = keys.make_main_panel_help();
    assert_eq!(help.len(), 34);
    assert!(!help.iter().any(|(_, d)| d == "abandon change"));
}

#[test]
fn message_popup_default_bindings() {
    let keys = MessagePopupKeybinds::default();
    assert_eq!(keys.match_event(key("j")), MessagePopupEvent::ScrollDown);
    assert_eq!(keys.match_event(key("down")), MessagePopupEvent::ScrollDown);
    assert_eq!(keys.match_event(key("k")), MessagePopupEvent::ScrollUp);
    assert_eq!(keys.match_event(key("up")), MessagePopupEvent::ScrollUp);
    assert_eq!(keys.match_event(key("ctrl+d")), MessagePopupEvent::ScrollDownHalf);
    assert_eq!(keys.match_event(key("ctrl+u")), MessagePopupEvent::ScrollUpHalf);
    assert_eq!(keys.match_event(key("ctrl+f")), MessagePopupEvent::ScrollDownPage);
    assert_eq!(keys.match_event(key("space")), MessagePopupEvent::ScrollDownPage);
    assert_eq!(keys.match_event(key("pagedown")), MessagePopupEvent::ScrollDownPage);
    assert_eq!(keys.match_event(key("ctrl+b")), MessagePopupEvent::ScrollUpPage);
    assert_eq!(keys.match_event(key("pageup")), MessagePopupEvent::ScrollUpPage);
    assert_eq!(keys.match_event(key("q")), MessagePopupEvent::Unbound);
    assert_eq!(keys.match_event(key("shift+j")), MessagePopupEvent::Unbound);
}

#[test]
fn message_popup_section_overrides_top_level_scroll_bindings() {
    let mut keys = MessagePopupKeybinds::default();
    let config = KeybindsConfig {
        scroll_down: Some(Keybind::Single(key("x"))),
        scroll_up: Some(Keybind::Multiple(vec![key("y"), key("z")])),
        scroll_down_half: Some(Keybind::Single(key("shift+j"))),
        scroll_up_half: None,
        log_tab: None,
        message_popup: Some(MessagePopupKeybindsConfig {
            scroll_down: Some(Keybind::Single(key("n"))),
            scroll_up: None,
            scroll_down_half: None,
            scroll_up_half: None,
            scroll_down_page: None,
            scroll_up_page: Some(Keybind::Enable(false)),
        }),
    };
    keys.extend_from_config(&config);
    assert_eq!(keys.match_event(key("n")), MessagePopupEvent::ScrollDown);
    assert_eq!(keys.match_event(key("x")), MessagePopupEvent::Unbound);
    assert_eq!(keys.match_event(key("j")), MessagePopupEvent::Unbound);
    assert_eq!(keys.match_event(key("y")), MessagePopupEvent::ScrollUp);
    assert_eq!(keys.match_event(key("z")), MessagePopupEvent::ScrollUp);
    assert_eq!(keys.match_event(key("k")), MessagePopupEvent::Unbound);
    assert_eq!(keys.match_event(key("shift+j")), MessagePopupEvent::ScrollDownHalf);
    assert_eq!(keys.match_event(key("ctrl+d")), MessagePopupEvent::Unbound);
    assert_eq!(keys.match_event(key("ctrl+u")), MessagePopupEvent::ScrollUpHalf);
    assert_eq!(keys.match_event(key("pageup")), MessagePopupEvent::Unbound);
    assert_eq!(keys.match_event(key("ctrl+b")), MessagePopupEvent::Unbound);
    assert_eq!(keys.match_event(key("space")), MessagePopupEvent::ScrollDownPage);
}
