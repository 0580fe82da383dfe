//! The decisions of the files tab: which file is selected, where the
//! selection moves, and what a key asks for.
use vstd::prelude::*;

use crate::bookmarks_tab::pair_views;
use crate::commander::CommandError;
use crate::files::Conflict;
use crate::files::ConflictSide;
use crate::files::File;
use crate::files::file_view;
use crate::ids::ChangeId;
use crate::keybinds::Key;
use crate::tabs::scroll_target;
use crate::tabs::spec_scroll_target;
use crate::text::chars_eq;
use crate::text::chars_of;
use crate::text::copy_string;
use crate::text::lines;
use crate::text::lines_of;
use crate::text::same_text;

verus! {

/// The path of a file, as text.
pub open spec fn path_view(f: File) -> Option<Seq<char>> {
    match f.path {
        Some(p) => Some(p@),
        None => None,
    }
}

/// The views of files.
pub open spec fn files_view(v: Seq<File>) -> Seq<(Seq<char>, Option<Seq<char>>, Option<crate::files::DiffType>)> {
    v.map_values(|f: File| file_view(f))
}

/// The first position of a file with the path `p`.
pub open spec fn spec_path_index(files: Seq<File>, p: Seq<char>) -> Option<usize>
    decreases files.len(),
{
    if files.len() == 0 {
        None
    } else {
        match spec_path_index(files.drop_last(), p) {
            Some(i) => Some(i),
            None => if path_view(files.last()) == Some(p) { Some((files.len() - 1) as usize) } else { None },
        }
    }
}

/// The position of the selected file in the listing: the first file with
/// its path; none where no file is selected, it has no path, or listing failed.
pub open spec fn spec_file_index(current: Option<File>, files: Result<Seq<File>, ()>) -> Option<usize> {
    match (current, files) {
        (Some(c), Ok(fs)) => match path_view(c) {
            Some(p) => spec_path_index(fs, p),
            None => None,
        },
        _ => None,
    }
}

/// The view of an optional file reference.
pub open spec fn opt_file(f: Option<&File>) -> Option<File> {
    match f {
        Some(x) => Some(*x),
        None => None,
    }
}

/// The view of a listing of files.
pub open spec fn listing(r: Result<&Vec<File>, &CommandError>) -> Result<Seq<File>, ()> {
    match r {
        Ok(v) => Ok(v@),
        Err(_) => Err(()),
    }
}

/// The position of the selected file in the listing.
pub fn get_current_file_index(current_file: Option<&File>, files_output: Result<&Vec<File>, &CommandError>) -> (res: Option<usize>)
    ensures
        res == spec_file_index(opt_file(current_file), listing(files_output)),
        res matches Some(i) ==> (files_output matches Ok(v) && i < v@.len()),
{
    match (current_file, files_output) {
        (Some(c), Ok(files)) => match &c.path {
            Some(p) => {
                let mut i: usize = 0;
                let mut res: Option<usize> = None;
                while i < files.len()
                    invariant
                        i <= files@.len(),
                        res == spec_path_index(files@.take(i as int), p@),
                        res matches Some(k) ==> k < i,
                    decreases files@.len() - i,
                {
                    proof {
                        assert(files@.take(i + 1).drop_last() =~= files@.take(i as int));
                        assert(files@.take(i + 1).last() == files@[i as int]);
                    }
                    if res.is_none() {
                        let same = match &files[i].path {
                            Some(q) => same_text(q, p),
                            None => false,
                        };
                        if same {
                            res = Some(i);
                        }
                    }
                    i = i + 1;
                }
                proof {
                    assert(files@.take(i as int) =~= files@);
                }
                res
            },
            None => None,
        },
        _ => None,
    }
}

/// The file the selection moves to when scrolling by `scroll`: within the
/// list, from the first where the selection is not listed.
pub fn scroll_files(files: &Vec<File>, current_file: Option<&File>, scroll: isize) -> (res: Option<File>)
    ensures
        match spec_scroll_target(files@.len(), spec_file_index(opt_file(current_file), Ok(files@)), scroll) {
            Some(i) => (res matches Some(f) && file_view(f) == file_view(files@[i as int])),
            None => res is None,
        },
{
    let index = get_current_file_index(current_file, Ok(files));
    match scroll_target(files.len(), index, scroll) {
        Some(i) => Some(files[i].clone()),
        None => None,
    }
}

/// What a key asks of the files tab.
#[derive(Debug, Clone, Copy, PartialEq, Eq)]
pub enum FilesCommand {
    ScrollDown,
    ScrollUp,
    ScrollDownHalf,
    ScrollUpHalf,
    ToggleDiffFormat,
    Untrack,
    OpenFile,
    OpenTree,
    Restore,
    Resolve(ConflictSide),
    ResolveInEditor,
    Refresh,
    ViewCurrent,
    Help,
    NotHandled,
}

/// The command of a key of the files tab.
pub open spec fn spec_files_command(key: Key) -> FilesCommand {
    if key == Key::Char('j') {
        FilesCommand::ScrollDown
    } else if key == Key::Down {
        FilesCommand::ScrollDown
    } else if key == Key::Char('k') {
        FilesCommand::ScrollUp
    } else if key == Key::Up {
        FilesCommand::ScrollUp
    } else if key == Key::Char('J') {
        FilesCommand::ScrollDownHalf
    } else if key == Key::Char('K') {
        FilesCommand::ScrollUpHalf
    } else if key == Key::Char('w') {
        FilesCommand::ToggleDiffFormat
    } else if key == Key::Char('x') {
        FilesCommand::Untrack
    } else if key == Key::Enter {
        FilesCommand::OpenFile
    } else if key == Key::Char('o') {
        FilesCommand::OpenTree
    } else if key == Key::Char('r') {
        FilesCommand::Restore
    } else if key == Key::Char('v') {
        FilesCommand::Resolve(ConflictSide::Source)
    } else if key == Key::Char('V') {
        FilesCommand::Resolve(ConflictSide::Destination)
    } else if key == Key::Char('m') {
        FilesCommand::ResolveInEditor
    } else if key == Key::Char('R') {
        FilesCommand::Refresh
    } else if key == Key::F(5) {
        FilesCommand::Refresh
    } else if key == Key::Char('@') {
        FilesCommand::ViewCurrent
    } else if key == Key::Char('?') {
        FilesCommand::Help
    } else {
        FilesCommand::NotHandled
    }
}

/// The command of a key of the files tab.
pub fn files_command(key: Key) -> (res: FilesCommand)
    ensures
        res == spec_files_command(key),
{
    if key == Key::Char('j') {
        FilesCommand::ScrollDown
    } else if key == Key::Down {
        FilesCommand::ScrollDown
    } else if key == Key::Char('k') {
        FilesCommand::ScrollUp
    } else if key == Key::Up {
        FilesCommand::ScrollUp
    } else if key == Key::Char('J') {
        FilesCommand::ScrollDownHalf
    } else if key == Key::Char('K') {
        FilesCommand::ScrollUpHalf
    } else if key == Key::Char('w') {
        FilesCommand::ToggleDiffFormat
    } else if key == Key::Char('x') {
        FilesCommand::Untrack
    } else if key == Key::Enter {
        FilesCommand::OpenFile
    } else if key == Key::Char('o') {
        FilesCommand::OpenTree
    } else if key == Key::Char('r') {
        FilesCommand::Restore
    } else if key == Key::Char('v') {
        FilesCommand::Resolve(ConflictSide::Source)
    } else if key == Key::Char('V') {
        FilesCommand::Resolve(ConflictSide::Destination)
    } else if key == Key::Char('m') {
        FilesCommand::ResolveInEditor
    } else if key == Key::Char('R') {
        FilesCommand::Refresh
    } else if key == Key::F(5) {
        FilesCommand::Refresh
    } else if key == Key::Char('@') {
        FilesCommand::ViewCurrent
    } else if key == Key::Char('?') {
        FilesCommand::Help
    } else {
        FilesCommand::NotHandled
    }
}

/// Whether the selected file's conflict can be resolved.
#[derive(Debug)]
pub enum ResolveCheck {
    /// The change is immutable: the message to show.
    Immutable(String),
    /// No file with a path is selected: nothing to do.
    NoFile,
    /// The file has no conflict: the message to show.
    NoConflict(String),
    /// Resolve the conflict of the file at this path.
    Resolve(String),
}

/// Whether one of the conflicts is at `path`.
pub open spec fn has_conflict(conflicts: Seq<Conflict>, path: Seq<char>) -> bool {
    exists|i: int| 0 <= i < conflicts.len() && #[trigger] conflicts[i].path@ == path
}

/// Whether the selected file's conflict can be resolved: not in an
/// immutable change; only for a selected file with a path; only where that
/// path has a conflict.
pub fn resolve_check(head_immutable: bool, file: Option<&File>, conflicts: &Vec<Conflict>) -> (res: ResolveCheck)
    ensures
        head_immutable ==> (res matches ResolveCheck::Immutable(m)
            && m@ == "The conflict cannot be resolved because the change is immutable."@),
        !head_immutable ==> match opt_file(file) {
            Some(f) => match path_view(f) {
                Some(p) => if has_conflict(conflicts@, p) {
                    (res matches ResolveCheck::Resolve(q) && q@ == p)
                } else {
                    (res matches ResolveCheck::NoConflict(m) && m@ == "The selected file has no conflict to resolve."@)
                },
                None => res is NoFile,
            },
            None => res is NoFile,
        },
{
    if head_immutable {
        return ResolveCheck::Immutable(copy_string("The conflict cannot be resolved because the change is immutable."));
    }
    let path = match file {
        Some(f) => match &f.path {
            Some(p) => p,
            None => return ResolveCheck::NoFile,
        },
        None => return ResolveCheck::NoFile,
    };
    let mut i: usize = 0;
    while i < conflicts.len()
        invariant
            i <= conflicts@.len(),
            forall|j: int| 0 <= j < i ==> conflicts@[j].path@ != path@,
            !head_immutable,
            opt_file(file) matches Some(f) && path_view(f) == Some(path@),
        decreases conflicts@.len() - i,
    {
        if same_text(&conflicts[i].path, path) {
            return ResolveCheck::Resolve(copy_string(path.as_str()));
        }
        i = i + 1;
    }
    ResolveCheck::NoConflict(copy_string("The selected file has no conflict to resolve."))
}

/// The title of the files list: the change, marked `@` where it is the
/// working copy.
pub fn files_title(is_current_head: bool, change_id: &ChangeId) -> (res: String)
    ensures
        res@ == " Files for "@ + (if is_current_head { "@ ("@ + change_id@ + ")"@ } else { change_id@ }) + " "@,
{
    let mut res = copy_string(" Files for ");
    if is_current_head {
        res.push_str("@ (");
        res.push_str(change_id.as_str());
        res.push_str(")");
    } else {
        res.push_str(change_id.as_str());
    }
    res.push_str(" ");
    res
}

/// The line listing a conflicted file.
pub fn conflict_line(conflict: &Conflict) -> (res: String)
    ensures
        res@ == "C "@ + conflict.path@,
{
    let mut res = copy_string("C ");
    res.push_str(conflict.path.as_str());
    res
}

/// The status message once a file was untracked: whether its pattern was
/// added to `.gitignore`, and how to undo.
pub fn untrack_message(path: &str, added: bool) -> (res: String)
    ensures
        res@ == (if added {
            "Untracked "@ + path@ + " and added it to .gitignore | u: undo the untrack"@
        } else {
            "Untracked "@ + path@ + " (already in .gitignore) | u: undo"@
        }),
{
    let mut res = copy_string("Untracked ");
    res.push_str(path);
    if added {
        res.push_str(" and added it to .gitignore | u: undo the untrack");
    } else {
        res.push_str(" (already in .gitignore) | u: undo");
    }
    res
}

/// The `.gitignore` line that ignores exactly the file at `path`: the path
/// anchored at the repository root with a leading `/`.
pub fn gitignore_pattern(path: &str) -> (res: String)
    ensures
        res@ == seq!['/'] + path@,
{
    let mut res = String::new();
    res.push('/');
    res.push_str(path);
    proof {
        assert(res@ =~= seq!['/'] + path@);
    }
    res
}

/// Whether the `.gitignore` text already holds `pattern` as one of its
/// lines.
pub fn gitignore_has_line(content: &str, pattern: &str) -> (res: bool)
    ensures
        res == lines(content@).contains(pattern@),
{
    let t = chars_of(content);
    let ls = lines_of(&t);
    let p = chars_of(pattern);
    let mut i: usize = 0;
    while i < ls.len()
        invariant
            i <= ls@.len(),
            t@ == content@,
            p@ == pattern@,
            ls@.len() == lines(t@).len(),
            forall|m: int| 0 <= m < ls@.len() ==> #[trigger] ls@[m]@ == lines(t@)[m],
            forall|m: int| 0 <= m < i ==> lines(t@)[m] != pattern@,
        decreases ls@.len() - i,
    {
        if chars_eq(&ls[i], pattern) {
            proof {
                assert(lines(t@)[i as int] == pattern@);
            }
            return true;
        }
        i = i + 1;
    }
    false
}

/// The `.gitignore` text with `pattern` added as a last line, after a line
/// break where the text does not end with one.
pub fn gitignore_with_line(content: &str, pattern: &str) -> (res: String)
    ensures
        res@ == (if content@.len() == 0 || content@.last() == '\n' {
            content@ + pattern@ + seq!['\n']
        } else {
            content@ + seq!['\n'] + pattern@ + seq!['\n']
        }),
{
    let t = chars_of(content);
    let mut res = copy_string(content);
    if t.len() > 0 && t[t.len() - 1] != '\n' {
        res.push('\n');
    }
    res.push_str(pattern);
    res.push('\n');
    proof {
        if content@.len() == 0 || content@.last() == '\n' {
            assert(res@ =~= content@ + pattern@ + seq!['\n']);
        } else {
            assert(res@ =~= content@ + seq!['\n'] + pattern@ + seq!['\n']);
        }
    }
    res
}

/// The lines of the question asked before untracking a file and ignoring it
/// with `pattern`.
pub fn untrack_prompt(path: &str, pattern: &str) -> (res: Vec<String>)
    ensures
        res@.len() == 6,
        res@[0]@ == "Stop tracking this file and add it to .gitignore?"@,
        res@[1]@ == Seq::<char>::empty(),
        res@[2]@ == "File          : "@ + path@,
        res@[3]@ == ".gitignore    : "@ + pattern@,
        res@[4]@ == Seq::<char>::empty(),
        res@[5]@ == "The file itself is kept on disk."@,
{
    let mut res: Vec<String> = Vec::new();
    res.push(copy_string("Stop tracking this file and add it to .gitignore?"));
    res.push(String::new());
    let mut f = copy_string("File          : ");
    f.push_str(path);
    res.push(f);
    let mut g = copy_string(".gitignore    : ");
    g.push_str(pattern);
    res.push(g);
    res.push(String::new());
    res.push(copy_string("The file itself is kept on disk."));
    res
}

/// The help of the files tab: its own keys, then the details panel's.
pub fn files_help() -> (res: (Vec<(String, String)>, Vec<(String, String)>))
    ensures
        pair_views(res.0@) == seq![("j/k"@, "scroll down/up"@), ("J/K"@, "scroll down by ½ page"@), ("Enter"@, "open file in editor (read-only for non-@ revisions)"@), ("o"@, "browse the whole repo at this revision in your editor"@), ("x"@, "stop tracking the file and add it to .gitignore (keeps it on disk)"@), ("r"@, "restore file"@), ("v"@, "resolve conflict keeping the rebased/squashed revision's version"@), ("V"@, "resolve conflict keeping the rebase/squash destination's version"@), ("m"@, "resolve conflict in the merge editor"@), ("@"@, "view current change files"@), ("R/F5"@, "refresh the view"@)],
        pair_views(res.1@) == seq![("Ctrl+e/Ctrl+y"@, "scroll down/up"@), ("Ctrl+d/Ctrl+u"@, "scroll down/up by ½ page"@), ("Ctrl+f/Ctrl+b"@, "scroll down/up by page"@), ("w"@, "toggle diff format"@), ("W"@, "toggle wrapping"@)],
{
    let mut main: Vec<(String, String)> = Vec::new();
    main.push((copy_string("j/k"), copy_string("scroll down/up")));
    main.push((copy_string("J/K"), copy_string("scroll down by ½ page")));
    main.push((copy_string("Enter"), copy_string("open file in editor (read-only for non-@ revisions)")));
    main.push((copy_string("o"), copy_string("browse the whole repo at this revision in your editor")));
    main.push((copy_string("x"), copy_string("stop tracking the file and add it to .gitignore (keeps it on disk)")));
    main.push((copy_string("r"), copy_string("restore file")));
    main.push((copy_string("v"), copy_string("resolve conflict keeping the rebased/squashed revision's version")));
    main.push((copy_string("V"), copy_string("resolve conflict keeping the rebase/squash destination's version")));
    main.push((copy_string("m"), copy_string("resolve conflict in the merge editor")));
    main.push((copy_string("@"), copy_string("view current change files")));
    main.push((copy_string("R/F5"), copy_string("refresh the view")));
    let mut details: Vec<(String, String)> = Vec::new();
    details.push((copy_string("Ctrl+e/Ctrl+y"), copy_string("scroll down/up")));
    details.push((copy_string("Ctrl+d/Ctrl+u"), copy_string("scroll down/up by ½ page")));
    details.push((copy_string("Ctrl+f/Ctrl+b"), copy_string("scroll down/up by page")));
    details.push((copy_string("w"), copy_string("toggle diff format")));
    details.push((copy_string("W"), copy_string("toggle wrapping")));
    proof {
        assert(pair_views(main@) =~= seq![("j/k"@, "scroll down/up"@), ("J/K"@, "scroll down by ½ page"@), ("Enter"@, "open file in editor (read-only for non-@ revisions)"@), ("o"@, "browse the whole repo at this revision in your editor"@), ("x"@, "stop tracking the file and add it to .gitignore (keeps it on disk)"@), ("r"@, "restore file"@), ("v"@, "resolve conflict keeping the rebased/squashed revision's version"@), ("V"@, "resolve conflict keeping the rebase/squash destination's version"@), ("m"@, "resolve conflict in the merge editor"@), ("@"@, "view current change files"@), ("R/F5"@, "refresh the view"@)]);
        assert(pair_views(details@) =~= seq![("Ctrl+e/Ctrl+y"@, "scroll down/up"@), ("Ctrl+d/Ctrl+u"@, "scroll down/up by ½ page"@), ("Ctrl+f/Ctrl+b"@, "scroll down/up by page"@), ("w"@, "toggle diff format"@), ("W"@, "toggle wrapping"@)]);
    }
    (main, details)
}

} // verus!
