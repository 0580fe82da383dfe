use blazingjj::ids::CommitId;
use blazingjj::jj::git_fetch_args;
use blazingjj::jj::new_insert_args;
use blazingjj::jj::parse_absorb_destinations;
use blazingjj::jj::parse_created_commit;
use blazingjj::jj::rebase_args;

#[test]
fn parse_absorb_destinations_listing() {
    let stderr = "\
Absorbed changes into 2 revisions:
  qpvuntsm 90e5407c commit A
  kntqzsqt 4c30963b commit B
Rebased 1 descendant commits.
Working copy  (@) now at: oymkkrtq 8e05ce0c (empty) wc
";
    assert_eq!(
        parse_absorb_destinations(stderr),
        vec!["qpvuntsm".to_owned(), "kntqzsqt".to_owned()]
    );
}

#[test]
fn parse_absorb_destinations_nothing() {
    assert_eq!(
        parse_absorb_destinations("Nothing changed.\n"),
        Vec::<String>::new()
    );
}

#[test]
fn parse_created_commit_takes_the_commit_id() {
    let stderr = "Working copy now at: abc\nCreated new commit kkmpptxz 3f2a1b0c (empty) (no description set)\n";
    assert_eq!(parse_created_commit(stderr), Some("3f2a1b0c".to_owned()));
    assert_eq!(parse_created_commit("Nothing changed.\n"), None);
}

#[test]
fn rebase_args_flag_every_revision() {
    let src = vec![CommitId("aaaa".to_owned())];
    let tgt = vec![CommitId("bbbb".to_owned()), CommitId("cccc".to_owned())];
    assert_eq!(
        rebase_args("-r", &src, "-d", &tgt),
        vec!["rebase", "-r", "aaaa", "-d", "bbbb", "-d", "cccc"]
    );
}

#[test]
fn new_insert_args_between_anchors() {
    let after = vec![CommitId("a1".to_owned())];
    let before = vec![CommitId("b1".to_owned()), CommitId("b2".to_owned())];
    assert_eq!(
        new_insert_args(&after, &before),
        vec!["new", "--no-edit", "-A", "a1", "-B", "b1", "-B", "b2"]
    );
}

#[test]
fn git_fetch_args_all_remotes() {
    let all = git_fetch_args(true);
    assert!(all.contains(&"--all-remotes".to_owned()));
    let one = git_fetch_args(false);
    assert!(!one.contains(&"--all-remotes".to_owned()));
}
