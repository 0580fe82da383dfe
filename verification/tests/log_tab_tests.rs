use blazingjj::files::Conflict;
use blazingjj::files::ConflictSide;
use blazingjj::files::File;
use blazingjj::files_tab::FilesCommand;
use blazingjj::files_tab::ResolveCheck;
use blazingjj::files_tab::files_command;
use blazingjj::files_tab::files_title;
use blazingjj::files_tab::get_current_file_index;
use blazingjj::files_tab::resolve_check;
use blazingjj::files_tab::scroll_files;
use blazingjj::files_tab::untrack_message;
use blazingjj::ids::ChangeId;
use blazingjj::ids::CommitId;
use blazingjj::keybinds::Key;
use blazingjj::log::Head;
use blazingjj::log_tab::InsertState;
use blazingjj::log_tab::InsertStep;
use blazingjj::log_tab::absorb_status;
use blazingjj::log_tab::abandon_selection_step;
use blazingjj::log_tab::is_marked;
use blazingjj::log_tab::marked_or_selected;
use blazingjj::log_tab::squash_target;
use blazingjj::log_tab::toggle_mark;
use blazingjj::log_tab::abandon_check;
use blazingjj::log_tab::description_lines;
use blazingjj::log_tab::rebase_check;
use blazingjj::log_tab::rebase_targets;
use blazingjj::log_tab::resolve_prompt;
use blazingjj::log_tab::revset_from_input;
use blazingjj::log_tab::short_commit_ids;
use blazingjj::log_tab::squash_prompt;

fn head(change: &str, commit: &str, immutable: bool) -> Head {
    Head {
        change_id: ChangeId(change.to_owned()),
        commit_id: CommitId(commit.to_owned()),
        divergent: false,
        immutable,
    }
}

fn ids(v: &[&str]) -> Vec<CommitId> {
    v.iter().map(|s| CommitId(s.to_string())).collect()
}

fn file(path: &str) -> File {
    File { line: format!("M {path}"), path: Some(path.to_owned()), diff_type: None }
}

#[test]
fn short_ids_are_joined() {
    assert_eq!(short_commit_ids(&ids(&["0123456789ab", "fedcba98", "abc"])), "01234567, fedcba98, abc");
    assert_eq!(short_commit_ids(&[]), "");
}

#[test]
fn insert_flow_collects_both_phases() {
    let state = InsertState::start(None);
    assert_eq!(state.title().unwrap(), " Insert: mark AFTER-anchors (space: mark, enter: next, esc: cancel) ");
    let (state, step) = state.advance(ids(&["aaaaaaaaaa"]));
    assert!(matches!(step, InsertStep::Handled));
    assert!(state.title().unwrap().contains("BEFORE"));
    let (state, step) = state.advance(ids(&["bbbbbbbbbb"]));
    match step {
        InsertStep::Confirm(lines) => assert_eq!(
            lines,
            vec![
                "Are you sure you want to insert a new change here?".to_owned(),
                "After: aaaaaaaa".to_owned(),
                "Before: bbbbbbbb".to_owned(),
            ]
        ),
        _ => panic!("expected a question"),
    }
    assert_eq!(
        state.command().unwrap(),
        vec!["new", "--no-edit", "-A", "aaaaaaaaaa", "-B", "bbbbbbbbbb"]
    );
}

#[test]
fn insert_flow_without_anchors_ends() {
    let moving = head("zzz", "c0ffee", false);
    let state = InsertState::start(Some(moving));
    let (state, _) = state.advance(vec![]);
    let (state, step) = state.advance(vec![]);
    assert!(state.is_idle());
    assert!(matches!(step, InsertStep::NothingMarked(m) if m == "No after- or before-anchors were marked."));
    assert!(state.command().is_none());
}

#[test]
fn moving_insert_rebases() {
    let moving = head("zzz", "c0ffee", false);
    let (state, _) = InsertState::start(Some(moving)).advance(ids(&["a1"]));
    let (state, _) = state.advance(vec![]);
    assert_eq!(state.command().unwrap(), vec!["rebase", "-r", "c0ffee", "-A", "a1"]);
}

#[test]
fn checks_before_operations() {
    let h = head("kkk", "111", false);
    let imm = head("kkk", "111", true);
    assert_eq!(abandon_check(&imm, 0), Err("The change cannot be abandoned because it is immutable.".to_owned()));
    assert_eq!(abandon_check(&h, 3), Ok(vec!["Are you sure you want to abandon 3 marked changes?".to_owned()]));
    assert_eq!(rebase_check(0, false, false).is_some(), true);
    assert_eq!(rebase_check(2, false, true), Some("The selected change is one of the marked destinations."));
    assert_eq!(rebase_check(2, false, false), None);
    let target = head("ttt", "222", true);
    assert_eq!(squash_prompt(&h, &target, true, false), Err("Cannot squash into an immutable change."));
    assert_eq!(squash_prompt(&h, &h, false, false), Err("Cannot squash a change into itself."));
    assert_eq!(
        squash_prompt(&h, &target, true, true),
        Ok(vec![
            "Are you sure you want to squash this change into its parent?".to_owned(),
            "Squash kkk into ttt".to_owned(),
            "Immutability will be ignored.".to_owned(),
        ])
    );
}

#[test]
fn resolve_prompt_lists_a_few_conflicts() {
    let h = head("kkk", "111", false);
    let conflicts: Vec<Conflict> = (0..10).map(|i| Conflict { path: format!("f{i}") }).collect();
    let lines = resolve_prompt(&h, &conflicts, true).unwrap();
    assert_eq!(lines.len(), 2 + 8 + 1);
    assert_eq!(lines[2], "  f0");
    assert_eq!(lines[10], "  ...and 2 more");
    assert!(lines[0].starts_with("Resolve 10 conflicted file(s) in favor of the destination side"));
    assert_eq!(resolve_prompt(&h, &vec![], false), Err("The change has no conflicts to resolve."));
}

#[test]
fn absorb_status_messages() {
    assert_eq!(absorb_status(0, 3), "Nothing to absorb");
    assert_eq!(absorb_status(1, 0), "Absorbed into 1 revision (★)");
    assert_eq!(absorb_status(2, 1), "Absorbed into 2 revisions (★), rebased 1 other (☆)");
    assert_eq!(absorb_status(3, 4), "Absorbed into 3 revisions (★), rebased 4 others (☆)");
}

#[test]
fn rebase_targets_are_sorted() {
    let sorted = rebase_targets(ids(&["cc", "a", "b", "ab"]));
    assert_eq!(sorted, ids(&["a", "ab", "b", "cc"]));
}

#[test]
fn revset_and_description_inputs() {
    assert_eq!(revset_from_input("  \n"), None);
    assert_eq!(revset_from_input("trunk()..@"), Some("trunk()..@".to_owned()));
    assert_eq!(description_lines("a\n\nb"), vec!["a", "", "b"]);
}

#[test]
fn files_tab_selection_and_commands() {
    let files = vec![file("a"), file("b"), file("c")];
    let b = file("b");
    assert_eq!(get_current_file_index(Some(&b), Ok(&files)), Some(1));
    assert_eq!(scroll_files(&files, Some(&b), 1).unwrap().path, Some("c".to_owned()));
    assert_eq!(scroll_files(&files, None, 1).unwrap().path, Some("a".to_owned()));
    assert_eq!(files_command(Key::Char('V')), FilesCommand::Resolve(ConflictSide::Destination));
    assert_eq!(files_command(Key::Char('Z')), FilesCommand::NotHandled);
    assert_eq!(files_title(true, &ChangeId("kkk".to_owned())), " Files for @ (kkk) ");
    assert_eq!(untrack_message("x.log", false), "Untracked x.log (already in .gitignore) | u: undo");
    let conflicts = vec![Conflict { path: "b".to_owned() }];
    assert!(matches!(resolve_check(false, Some(&b), &conflicts), ResolveCheck::Resolve(p) if p == "b"));
    assert!(matches!(resolve_check(false, Some(&file("a")), &conflicts), ResolveCheck::NoConflict(_)));
    assert!(matches!(resolve_check(true, Some(&b), &conflicts), ResolveCheck::Immutable(_)));
    assert!(matches!(resolve_check(false, None, &conflicts), ResolveCheck::NoFile));
}

#[test]
fn squash_goes_into_the_first_mark() {
    let marks = ids(&["aaa", "bbb"]);
    assert_eq!(squash_target(&marks), Some(&CommitId("aaa".to_owned())));
    assert_eq!(squash_target(&[]), None);
}

#[test]
fn marked_or_selected_prefers_marks() {
    let head = CommitId("hhh".to_owned());
    assert_eq!(marked_or_selected(&[], &head), ids(&["hhh"]));
    assert_eq!(marked_or_selected(&ids(&["b", "a"]), &head), ids(&["b", "a"]));
}

#[test]
fn toggle_mark_adds_and_removes() {
    let mut marks = ids(&["a", "b"]);
    toggle_mark(&mut marks, &CommitId("c".to_owned()));
    assert_eq!(marks, ids(&["a", "b", "c"]));
    toggle_mark(&mut marks, &CommitId("a".to_owned()));
    assert_eq!(marks, ids(&["b", "c"]));
    assert!(is_marked(&marks, &CommitId("b".to_owned())));
    assert!(!is_marked(&marks, &CommitId("a".to_owned())));
}

#[test]
fn abandon_walks_past_marked_selection() {
    let marks = ids(&["c1", "c2"]);
    assert!(abandon_selection_step(&head("x", "c1", false), &marks));
    assert!(!abandon_selection_step(&head("x", "c3", false), &marks));
}
