use blazingjj::bookmarks::Bookmark;
use blazingjj::bookmarks::BookmarkLine;
use blazingjj::bookmarks::BOOKMARK_TEMPLATE;
use blazingjj::bookmarks::bookmark_list_args;
use blazingjj::bookmarks::bookmarks_at_args;
use blazingjj::bookmarks::parse_bookmark_line;
use blazingjj::bookmarks::parse_bookmark_lines;
use blazingjj::bookmarks::parse_bookmarks;
use blazingjj::bookmarks::parse_i64;
use blazingjj::commander::CommandError;
use blazingjj::env::DiffFormat;
use blazingjj::files::DiffType;
use blazingjj::files::File;
use blazingjj::files::FileColor;
use blazingjj::files::conflicts_from;
use blazingjj::files::file_diff_args;
use blazingjj::files::file_show_args;
use blazingjj::files::resolve_interactive_args;
use blazingjj::files::restore_file_args;
use blazingjj::files::untrack_file_args;
use blazingjj::files_tab::gitignore_has_line;
use blazingjj::files_tab::gitignore_pattern;
use blazingjj::files_tab::gitignore_with_line;
use blazingjj::ids::ChangeId;
use blazingjj::ids::CommitId;
use blazingjj::log::Head;
use blazingjj::log::parse_head;
use blazingjj::jj::git_push_all_args;
use blazingjj::jj::git_push_bookmark_args;
use blazingjj::log::show_args;
use blazingjj::text::is_enabled_flag;

fn chars(s: &str) -> Vec<char> {
    s.chars().collect()
}

#[test]
fn parse_i64_reads_signed_decimals() {
    assert_eq!(parse_i64(&chars("0")), Some(0));
    assert_eq!(parse_i64(&chars("1700000000")), Some(1_700_000_000));
    assert_eq!(parse_i64(&chars("-42")), Some(-42));
    assert_eq!(parse_i64(&chars("9223372036854775807")), Some(i64::MAX));
    assert_eq!(parse_i64(&chars("-9223372036854775808")), Some(i64::MIN));
}

#[test]
fn parse_i64_refuses_other_text() {
    assert_eq!(parse_i64(&chars("")), None);
    assert_eq!(parse_i64(&chars("-")), None);
    assert_eq!(parse_i64(&chars("12a")), None);
    assert_eq!(parse_i64(&chars("+1")), None);
    assert_eq!(parse_i64(&chars("9223372036854775808")), None);
    assert_eq!(parse_i64(&chars("-9223372036854775809")), None);
    assert_eq!(parse_i64(&chars("99999999999999999999999")), None);
}

#[test]
fn parse_bookmark_line_local_and_remote() {
    let local = parse_bookmark_line(&chars("[main||true|1700000000]main"));
    assert_eq!(
        local,
        BookmarkLine::Parsed {
            text: "main".to_owned(),
            bookmark: Bookmark {
                name: "main".to_owned(),
                remote: None,
                present: true,
                timestamp: 1_700_000_000,
            },
        }
    );
    let remote = parse_bookmark_line(&chars("[main|origin|false|0]main@origin"));
    assert_eq!(
        remote,
        BookmarkLine::Parsed {
            text: "main@origin".to_owned(),
            bookmark: Bookmark {
                name: "main".to_owned(),
                remote: Some("origin".to_owned()),
                present: false,
                timestamp: 0,
            },
        }
    );
}

#[test]
fn parse_bookmark_line_keeps_other_text() {
    for line in ["Hint: something", "[a|b|true]x", "[a|b|true|x]y", "main"] {
        assert_eq!(
            parse_bookmark_line(&chars(line)),
            BookmarkLine::Unparsable(line.to_owned())
        );
    }
}

#[test]
fn parse_bookmark_lines_and_bookmarks() {
    let output = "[a||true|1]a\nnoise\n[b|origin|true|2]b@origin\n";
    let lines = parse_bookmark_lines(output);
    assert_eq!(lines.len(), 3);
    assert_eq!(lines[1], BookmarkLine::Unparsable("noise".to_owned()));
    let bookmarks = parse_bookmarks(output);
    assert_eq!(
        bookmarks,
        vec![
            Bookmark {
                name: "a".to_owned(),
                remote: None,
                present: true,
                timestamp: 1,
            },
            Bookmark {
                name: "b".to_owned(),
                remote: Some("origin".to_owned()),
                present: true,
                timestamp: 2,
            },
        ]
    );
}

#[test]
fn bookmark_list_arguments() {
    assert_eq!(
        bookmark_list_args(false),
        vec!["bookmark", "list", "--template", BOOKMARK_TEMPLATE]
    );
    assert_eq!(
        bookmark_list_args(true),
        vec!["bookmark", "list", "--all-remotes", "--template", BOOKMARK_TEMPLATE]
    );
    assert_eq!(
        bookmarks_at_args("abc"),
        vec!["bookmark", "list", "-r", "abc", "--template", BOOKMARK_TEMPLATE]
    );
}

#[test]
fn show_arguments() {
    assert_eq!(
        show_args("abc", &DiffFormat::Git, true),
        vec!["show", "abc", "--git", "--ignore-working-copy"]
    );
    assert_eq!(
        show_args("abc", &DiffFormat::DiffTool(Some("difft".to_owned())), false),
        vec!["show", "abc", "--tool", "difft"]
    );
}

fn file(line: &str, path: Option<&str>, diff_type: Option<DiffType>) -> File {
    File {
        line: line.to_owned(),
        path: path.map(str::to_owned),
        diff_type,
    }
}

#[test]
fn file_diff_arguments() {
    let commit = CommitId("c0ffee".to_owned());
    let added = file("A README", Some("README"), Some(DiffType::Added));
    assert_eq!(
        file_diff_args(&commit, &added, &DiffFormat::ColorWords, true),
        Some(vec![
            "diff".to_owned(),
            "-r".to_owned(),
            "c0ffee".to_owned(),
            "file:\"README\"".to_owned(),
            "--color-words".to_owned(),
            "--ignore-working-copy".to_owned(),
        ])
    );
    let renamed = file("R {a => b}", Some("{a => b}"), Some(DiffType::Renamed));
    assert_eq!(
        file_diff_args(&commit, &renamed, &DiffFormat::Stat, false),
        Some(vec![
            "diff".to_owned(),
            "-r".to_owned(),
            "c0ffee".to_owned(),
            "file:\"b\"".to_owned(),
            "--stat".to_owned(),
        ])
    );
    let none = file("?", None, None);
    assert_eq!(file_diff_args(&commit, &none, &DiffFormat::Git, false), None);
}

#[test]
fn untrack_and_restore_arguments() {
    let modified = file("M src/a\"b.rs", Some("src/a\"b.rs"), Some(DiffType::Modified));
    assert_eq!(
        untrack_file_args(&modified),
        Some(vec!["file".to_owned(), "untrack".to_owned(), "file:\"src/a\\\"b.rs\"".to_owned()])
    );
    assert_eq!(
        restore_file_args(&modified),
        Some(vec!["restore".to_owned(), "file:\"src/a\\\"b.rs\"".to_owned()])
    );
    assert_eq!(restore_file_args(&file("?", None, None)), None);
}

#[test]
fn resolve_and_show_file_arguments() {
    assert_eq!(
        resolve_interactive_args("abc", Some("x.txt")),
        vec!["resolve", "-r", "abc", "file:\"x.txt\""]
    );
    assert_eq!(resolve_interactive_args("abc", None), vec!["resolve", "-r", "abc"]);
    assert_eq!(
        file_show_args("abc", "x.txt"),
        vec!["file", "show", "-r", "abc", "file:\"x.txt\""]
    );
}

#[test]
fn conflicts_from_exit_codes() {
    let listed = conflicts_from(Ok("a.txt    2-sided conflict\n".to_owned())).unwrap();
    assert_eq!(listed.len(), 1);
    assert_eq!(listed[0].path, "a.txt");
    let none = conflicts_from(Err(CommandError::Status("No conflicts".to_owned(), Some(2)))).unwrap();
    assert!(none.is_empty());
    assert!(conflicts_from(Err(CommandError::Status("boom".to_owned(), Some(1)))).is_err());
    assert!(conflicts_from(Err(CommandError::Status("killed".to_owned(), None))).is_err());
}

#[test]
fn diff_type_colors() {
    assert_eq!(DiffType::Added.color(), FileColor::Green);
    assert_eq!(DiffType::Modified.color(), FileColor::Cyan);
    assert_eq!(DiffType::Renamed.color(), FileColor::Cyan);
    assert_eq!(DiffType::Deleted.color(), FileColor::Red);
}

#[test]
fn gitignore_editing() {
    let pattern = gitignore_pattern("build/out.log");
    assert_eq!(pattern, "/build/out.log");
    assert!(gitignore_has_line("target\n/build/out.log\n", &pattern));
    assert!(!gitignore_has_line("target\n/build/out.log.bak\n", &pattern));
    assert_eq!(gitignore_with_line("", &pattern), "/build/out.log\n");
    assert_eq!(gitignore_with_line("target\n", &pattern), "target\n/build/out.log\n");
    assert_eq!(gitignore_with_line("target", &pattern), "target\n/build/out.log\n");
}

#[test]
fn push_arguments() {
    assert_eq!(git_push_bookmark_args("main"), vec!["git", "push", "-b", "main"]);
    assert_eq!(git_push_all_args(), vec!["git", "push", "--all"]);
}

#[test]
fn enabled_flags() {
    assert!(is_enabled_flag("1"));
    assert!(is_enabled_flag("true"));
    assert!(is_enabled_flag("TRUE"));
    assert!(is_enabled_flag("True"));
    assert!(!is_enabled_flag("0"));
    assert!(!is_enabled_flag("yes"));
    assert!(!is_enabled_flag(""));
    assert!(!is_enabled_flag("true "));
}

#[test]
fn bookmark_line_as_written_reads_back() {
    let line = format!("[{}|{}|{}|{}]{}", "feature", "upstream", "true", -5, "feature@upstream");
    assert_eq!(
        parse_bookmark_line(&chars(&line)),
        BookmarkLine::Parsed {
            text: "feature@upstream".to_owned(),
            bookmark: Bookmark {
                name: "feature".to_owned(),
                remote: Some("upstream".to_owned()),
                present: true,
                timestamp: -5,
            },
        }
    );
}

#[test]
fn head_as_written_reads_back() {
    let head = Head {
        change_id: ChangeId("kntqzsqtrwxn".to_owned()),
        commit_id: CommitId("4c30963b".to_owned()),
        divergent: false,
        immutable: true,
    };
    let text = format!(
        "[{}|{}|{}|{}]",
        head.change_id.as_str(),
        head.commit_id.as_str(),
        head.divergent,
        head.immutable
    );
    assert_eq!(parse_head(&text).unwrap(), head);
}

#[test]
fn head_as_written_reads_back_within_graph_text() {
    let head = Head {
        change_id: ChangeId("kntqzsqtrwxn".to_owned()),
        commit_id: CommitId("4c30963b".to_owned()),
        divergent: true,
        immutable: false,
    };
    let text = format!(
        "│ ○  [{}|{}|{}|{}] trailing text",
        head.change_id.as_str(),
        head.commit_id.as_str(),
        head.divergent,
        head.immutable
    );
    assert_eq!(parse_head(&text).unwrap(), head);
}
