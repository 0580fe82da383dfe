use blazingjj::commander::Commander;
use blazingjj::commander::RemoveEndLine;
use blazingjj::commander::get_output_args;
use blazingjj::env::DiffFormat;
use blazingjj::env::Env;
use blazingjj::env::JjConfig;
use blazingjj::keybinds::Key;
use blazingjj::tabs::GlobalAction;
use blazingjj::tabs::Tab;
use blazingjj::tabs::global_action;
use blazingjj::tabs::popup_closes;
use blazingjj::tabs::scroll_target;
use blazingjj::version::VersionError;
use blazingjj::version::check_jj_version_output;
use blazingjj::version::version_verdict;
use blazingjj::version::VersionRelation;

#[test]
fn tabs_wrap_around() {
    assert_eq!(Tab::Log.with_offset(1), Tab::Files);
    assert_eq!(Tab::Bookmarks.with_offset(1), Tab::Log);
    assert_eq!(Tab::Log.with_offset(-1), Tab::Bookmarks);
    assert_eq!(Tab::Files.with_offset(-1), Tab::Log);
    assert_eq!(Tab::Files.name(), "Files");
    assert_eq!(Tab::at(2), Some(Tab::Bookmarks));
    assert_eq!(Tab::at(3), None);
}

#[test]
fn global_keys() {
    assert_eq!(global_action(Key::Char('q'), false), GlobalAction::Quit);
    assert_eq!(global_action(Key::Char('c'), true), GlobalAction::Quit);
    assert_eq!(global_action(Key::Char('c'), false), GlobalAction::Ignore);
    assert_eq!(global_action(Key::Char('l'), false), GlobalAction::SwitchBy(1));
    assert_eq!(global_action(Key::Char('h'), false), GlobalAction::SwitchBy(-1));
    assert_eq!(global_action(Key::Char('3'), false), GlobalAction::SwitchTo(Tab::Bookmarks));
    assert_eq!(global_action(Key::Char(':'), false), GlobalAction::CommandPopup);
    assert!(popup_closes(Key::Char('y')));
    assert!(!popup_closes(Key::Char('x')));
}

#[test]
fn scrolling_stays_in_the_list() {
    assert_eq!(scroll_target(0, None, 1), None);
    assert_eq!(scroll_target(5, None, 3), Some(0));
    assert_eq!(scroll_target(5, Some(2), 10), Some(4));
    assert_eq!(scroll_target(5, Some(2), -10), Some(0));
    assert_eq!(scroll_target(5, Some(2), isize::MIN), Some(0));
    assert_eq!(scroll_target(5, Some(usize::MAX), isize::MAX), Some(4));
}

#[test]
fn output_args_follow_the_flags() {
    assert_eq!(get_output_args(true, true), vec!["--no-pager", "--color", "always", "--quiet"]);
    assert_eq!(get_output_args(false, false), vec!["--no-pager", "--color", "never"]);
}

#[test]
fn diff_format_args() {
    assert_eq!(DiffFormat::ColorWords.get_args(), vec!["--color-words"]);
    assert_eq!(DiffFormat::DiffTool(Some("difft".to_owned())).get_args(), vec!["--tool", "difft"]);
    assert!(DiffFormat::DiffTool(None).get_args().is_empty());
}

#[test]
fn remove_end_line_strips_one_line_ending() {
    assert_eq!("abc\r\n".to_owned().remove_end_line(), "abc");
    assert_eq!("abc\n\n".to_owned().remove_end_line(), "abc\n");
    assert_eq!("abc".to_owned().remove_end_line(), "abc");
}

#[test]
fn commands_carry_width_and_config() {
    let env = Env {
        jj_config: JjConfig::default(),
        root: "/repo".to_owned(),
        default_revset: None,
        jj_bin: "jj".to_owned(),
    };
    let mut commander = Commander::new(&env);
    commander.limit_width(10);
    assert_eq!(commander.columns, None);
    commander.limit_width(100);
    assert_eq!(commander.columns, Some(100));
    commander.jj_config_toml = Some(vec!["ui.color=\"never\"".to_owned()]);
    let cmd = commander.jj(&["log", "-r", "@"]).color().verbose();
    assert_eq!(cmd.program, "jj");
    assert_eq!(cmd.dir, "/repo");
    assert_eq!(cmd.env_var, vec![("COLUMNS".to_owned(), "100".to_owned())]);
    assert_eq!(
        cmd.command_args(),
        vec!["log", "-r", "@", "--no-pager", "--color", "always", "--config", "ui.color=\"never\""]
    );
    commander.force_no_color = true;
    let quiet = commander.jj(&["status"]).color().stdin("text");
    assert_eq!(quiet.command_args(), vec!["status", "--no-pager", "--color", "never", "--quiet", "--config", "ui.color=\"never\""]);
    assert_eq!(quiet.stdin, Some("text".to_owned()));
}

#[test]
fn jj_version_is_checked() {
    assert!(check_jj_version_output("jj 0.33.0\n").is_ok());
    assert!(check_jj_version_output("jj 0.40.1-abcdef\n").is_ok());
    assert!(matches!(check_jj_version_output("jj 0.20.0\n"), Err(VersionError::TooOld(v)) if v == "0.20.0"));
    assert!(matches!(check_jj_version_output("git version 2"), Err(VersionError::Unrecognized)));
    assert!(matches!(check_jj_version_output(""), Err(VersionError::Unrecognized)));
    assert!(matches!(check_jj_version_output("jj"), Err(VersionError::Unrecognized)));
    assert!(matches!(check_jj_version_output("jé"), Err(VersionError::Unrecognized)));
    assert!(version_verdict("x", None).is_err());
    assert!(version_verdict("1.0.0", Some(VersionRelation::Greater)).is_ok());
    assert_eq!(
        VersionError::TooOld("0.1.0".to_owned()).message(),
        "jj version is too old (0.1.0). Must be at least 0.33.0\nIf you want to continue anyway, use --ignore-jj-version"
    );
}
