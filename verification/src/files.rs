//! Changed files and conflicts of a change, parsed from `jj diff --summary`
//! and `jj resolve --list`.
use vstd::prelude::*;

use crate::commander::CommandError;
use crate::commander::diff_args;
use crate::commander::ignore_working_copy_args;
use crate::commander::push_diff_args;
use crate::env::DiffFormat;
use crate::ids::CommitId;
use crate::text::chars_of;
use crate::text::copy_string;
use crate::text::has_char;
use crate::text::lemma_lines_no_newline;
use crate::text::lines;
use crate::text::lines_of;
use crate::text::occurs_at;
use crate::text::matches_at;
use crate::text::push_arg;
use crate::text::strs;
use crate::text::sub_string;

verus! {

/// A line of `jj diff --summary`, with what could be read from it.
#[derive(Debug, PartialEq)]
pub struct File {
    pub line: String,
    pub path: Option<String>,
    pub diff_type: Option<DiffType>,
}

impl Clone for File {
    fn clone(&self) -> (res: Self)
        ensures
            file_view(res) == file_view(*self),
    {
        File {
            line: copy_string(self.line.as_str()),
            path: match &self.path {
                Some(p) => Some(copy_string(p.as_str())),
                None => None,
            },
            diff_type: self.diff_type,
        }
    }
}

/// How a file changed.
#[derive(Clone, Copy, Debug, PartialEq, Eq)]
pub enum DiffType {
    Added,
    Modified,
    Deleted,
    Renamed,
}

/// A conflicted file.
#[derive(Debug, PartialEq)]
pub struct Conflict {
    pub path: String,
}

/// Which side of a conflict a resolution keeps.
///
/// jj orders the sides of a conflict by the roles in the operation that
/// introduced it: side #1 is the operation's destination and side #2 is the
/// revision that was moved.
#[derive(Clone, Copy, Debug, PartialEq, Eq)]
pub enum ConflictSide {
    /// Keep the moved revision's content (side #2, `:theirs`).
    Source,
    /// Keep the destination's content (side #1, `:ours`).
    Destination,
}

/// The diff type that a summary letter stands for.
pub open spec fn spec_diff_type(s: Seq<char>) -> Option<DiffType> {
    if s == seq!['A'] {
        Some(DiffType::Added)
    } else if s == seq!['M'] {
        Some(DiffType::Modified)
    } else if s == seq!['D'] {
        Some(DiffType::Deleted)
    } else if s == seq!['R'] {
        Some(DiffType::Renamed)
    } else {
        None
    }
}

fn diff_type_of_chars(t: &[char]) -> (res: Option<DiffType>)
    ensures
        res == spec_diff_type(t@),
{
    if t.len() != 1 {
        proof {
            assert(t@ != seq!['A'] && t@ != seq!['M'] && t@ != seq!['D'] && t@ != seq!['R']) by {
                assert(seq!['A'].len() == 1);
                assert(seq!['M'].len() == 1);
                assert(seq!['D'].len() == 1);
                assert(seq!['R'].len() == 1);
            }
        }
        return None;
    }
    let c = t[0];
    proof {
        assert(t@ =~= seq![c]);
    }
    if c == 'A' {
        Some(DiffType::Added)
    } else if c == 'M' {
        Some(DiffType::Modified)
    } else if c == 'D' {
        Some(DiffType::Deleted)
    } else if c == 'R' {
        Some(DiffType::Renamed)
    } else {
        proof {
            assert(seq![c][0] == c);
            assert(seq!['A'][0] == 'A');
            assert(seq!['M'][0] == 'M');
            assert(seq!['D'][0] == 'D');
            assert(seq!['R'][0] == 'R');
        }
        None
    }
}

impl DiffType {
    /// The diff type that a letter of `jj diff --summary` stands for.
    pub fn parse(value: &str) -> (res: Option<Self>)
        ensures
            res == spec_diff_type(value@),
    {
        let t = chars_of(value);
        diff_type_of_chars(&t)
    }

    /// The color a file line is shown in: green when added, red when
    /// deleted, cyan otherwise.
    pub fn color(&self) -> (res: FileColor)
        ensures
            res == (match self {
                DiffType::Added => FileColor::Green,
                DiffType::Deleted => FileColor::Red,
                _ => FileColor::Cyan,
            }),
    {
        match self {
            DiffType::Added => FileColor::Green,
            DiffType::Modified => FileColor::Cyan,
            DiffType::Renamed => FileColor::Cyan,
            DiffType::Deleted => FileColor::Red,
        }
    }
}

/// The colors of file lines.
#[derive(Clone, Copy, Debug, PartialEq, Eq, Structural)]
pub enum FileColor {
    Green,
    Cyan,
    Red,
}

/// The first position `i >= from` where a line `<letter> <path>` splits:
/// a character other than a line break followed by a space.
pub open spec fn file_split_from(t: Seq<char>, from: int) -> Option<int>
    decreases t.len() - from,
{
    if from < 0 || from + 1 >= t.len() {
        None
    } else if t[from] != '\n' && t[from + 1] == ' ' {
        Some(from)
    } else {
        file_split_from(t, from + 1)
    }
}

/// The file read from a line of `jj diff --summary`: `<letter> <path>`.
/// The first character followed by a space is the letter; the path is the
/// rest of the line.
pub open spec fn spec_file_fields(line: Seq<char>) -> (Option<Seq<char>>, Option<DiffType>) {
    match file_split_from(line, 0) {
        Some(i) => (Some(line.skip(i + 2)), spec_diff_type(line.subrange(i, i + 1))),
        None => (None, None),
    }
}

/// A summary line is a letter, a space and the path: the path read back is
/// exactly the text after the space, and the letter gives the kind of
/// change (`A` added, `M` modified, `D` deleted, `R` renamed).
pub proof fn lemma_file_fields(l: char, p: Seq<char>)
    requires
        l != '\n',
    ensures
        spec_file_fields(seq![l, ' '] + p).0 == Some(p),
        l == 'A' ==> spec_file_fields(seq![l, ' '] + p).1 == Some(DiffType::Added),
        l == 'M' ==> spec_file_fields(seq![l, ' '] + p).1 == Some(DiffType::Modified),
        l == 'D' ==> spec_file_fields(seq![l, ' '] + p).1 == Some(DiffType::Deleted),
        l == 'R' ==> spec_file_fields(seq![l, ' '] + p).1 == Some(DiffType::Renamed),
        !(l == 'A' || l == 'M' || l == 'D' || l == 'R') ==> spec_file_fields(seq![l, ' '] + p).1 is None,
{
    let t = seq![l, ' '] + p;
    assert(t[0] == l && t[1] == ' ');
    assert(file_split_from(t, 0) == Some(0int));
    assert(t.skip(2) =~= p);
    assert(t.subrange(0, 1) =~= seq![l]);
    if seq![l] == seq!['A'] || seq![l] == seq!['M'] || seq![l] == seq!['D'] || seq![l] == seq!['R'] {
        assert(seq![l][0] == l);
    }
}

fn file_from_line(line: &[char]) -> (res: File)
    requires
        !has_char(line@, '\n'),
    ensures
        res.line@ == line@,
        (match res.path {
            Some(p) => Some(p@),
            None => None,
        }) == spec_file_fields(line@).0,
        res.diff_type == spec_file_fields(line@).1,
{
    let whole = sub_string(line, 0, line.len());
    proof {
        assert(line@.subrange(0, line@.len() as int) =~= line@);
    }
    let mut i: usize = 0;
    while i < line.len() && i + 1 < line.len()
        invariant
            i <= line.len(),
            whole@ == line@,
            file_split_from(line@, 0) == file_split_from(line@, i as int),
        decreases line.len() - i,
    {
        if line[i] != '\n' && line[i + 1] == ' ' {
            let letter = diff_type_of_chars(&line[i..i + 1]);
            let path = sub_string(line, i + 2, line.len());
            proof {
                assert(line@.skip(i + 2) =~= line@.subrange(i + 2, line@.len() as int));
            }
            return File { line: whole, path: Some(path), diff_type: letter };
        }
        i = i + 1;
    }
    File { line: whole, path: None, diff_type: None }
}

/// The files listed by `jj diff --summary`, one per line.
pub open spec fn spec_files(output: Seq<char>) -> Seq<(Seq<char>, Option<Seq<char>>, Option<DiffType>)> {
    lines(output).map_values(
        |l: Seq<char>| (l, spec_file_fields(l).0, spec_file_fields(l).1),
    )
}

/// The view of a [File].
pub open spec fn file_view(f: File) -> (Seq<char>, Option<Seq<char>>, Option<DiffType>) {
    (
        f.line@,
        match f.path {
            Some(p) => Some(p@),
            None => None,
        },
        f.diff_type,
    )
}

/// Parse the output of `jj diff --summary`.
pub fn parse_files(output: &str) -> (res: Vec<File>)
    ensures
        res@.map_values(|f: File| file_view(f)) == spec_files(output@),
{
    let t = chars_of(output);
    let ls = lines_of(&t);
    proof {
        lemma_lines_no_newline(t@);
    }
    let mut res: Vec<File> = Vec::new();
    let mut i: usize = 0;
    while i < ls.len()
        invariant
            i <= ls.len(),
            t@ == output@,
            ls@.len() == lines(t@).len(),
            forall|j: int| 0 <= j < ls@.len() ==> #[trigger] ls@[j]@ == lines(t@)[j],
            forall|j: int| 0 <= j < lines(t@).len() ==> !has_char(#[trigger] lines(t@)[j], '\n'),
            res@.map_values(|f: File| file_view(f)) == spec_files(output@).take(i as int),
        decreases ls.len() - i,
    {
        proof {
            assert(!has_char(lines(t@)[i as int], '\n'));
        }
        let f = file_from_line(&ls[i]);
        let ghost prev = res@;
        res.push(f);
        i = i + 1;
        proof {
            assert(res@.map_values(|f: File| file_view(f)) =~= prev.map_values(|f: File| file_view(f)).push(file_view(res@[i - 1])));
            assert(res@.map_values(|f: File| file_view(f)) =~= spec_files(output@).take(i as int));
        }
    }
    proof {
        assert(spec_files(output@).take(i as int) =~= spec_files(output@));
    }
    res
}

/// The separator of a conflict listing line: four spaces.
pub open spec fn four_spaces() -> Seq<char> {
    seq![' ', ' ', ' ', ' ']
}

/// The largest `k <= hi` where `q` occurs in `t`, or `-1`.
pub open spec fn last_occurrence_upto(t: Seq<char>, q: Seq<char>, hi: int) -> int
    decreases hi + 1,
{
    if hi < 0 {
        -1
    } else if occurs_at(t, q, hi) {
        hi
    } else {
        last_occurrence_upto(t, q, hi - 1)
    }
}

/// The path of a line of `jj resolve --list`: what comes before the last
/// four spaces of the line, if the line holds four spaces at all.
pub open spec fn spec_conflict_path(line: Seq<char>) -> Option<Seq<char>> {
    let k = last_occurrence_upto(line, four_spaces(), line.len() - 4);
    if k < 0 {
        None
    } else {
        Some(line.take(k))
    }
}

proof fn lemma_last_occurrence_bounds(t: Seq<char>, q: Seq<char>, hi: int)
    ensures
        -1 <= last_occurrence_upto(t, q, hi) <= if hi < -1 { -1 } else { hi },
        last_occurrence_upto(t, q, hi) >= 0 ==> occurs_at(t, q, last_occurrence_upto(t, q, hi)),
    decreases hi + 1,
{
    if hi >= 0 && !occurs_at(t, q, hi) {
        lemma_last_occurrence_bounds(t, q, hi - 1);
    }
}

fn conflict_path_of(line: &[char]) -> (res: Option<String>)
    ensures
        (match res {
            Some(p) => Some(p@),
            None => None,
        }) == spec_conflict_path(line@),
{
    let sep = [' ', ' ', ' ', ' '];
    proof {
        assert(sep@ =~= four_spaces());
    }
    if line.len() < 4 {
        proof {
            assert(last_occurrence_upto(line@, four_spaces(), line@.len() - 4) == -1);
        }
        return None;
    }
    let mut k: usize = line.len() - 4 + 1;
    while k > 0
        invariant
            k <= line.len() - 3,
            line.len() >= 4,
            sep@ == four_spaces(),
            last_occurrence_upto(line@, four_spaces(), line@.len() - 4) == last_occurrence_upto(line@, four_spaces(), k - 1),
        decreases k,
    {
        if matches_at(line, &sep, k - 1) {
            proof {
                lemma_last_occurrence_bounds(line@, four_spaces(), k - 1);
            }
            let path = sub_string(line, 0, k - 1);
            proof {
                assert(line@.take(k - 1) =~= line@.subrange(0, k - 1));
            }
            return Some(path);
        }
        k = k - 1;
    }
    None
}

/// The conflicted files listed by `jj resolve --list`: one per line that
/// holds four spaces.
pub open spec fn spec_conflicts(output: Seq<char>) -> Seq<Seq<char>> {
    lines(output).filter(|l: Seq<char>| spec_conflict_path(l) is Some).map_values(
        |l: Seq<char>| spec_conflict_path(l)->0,
    )
}

/// Parse the output of `jj resolve --list`.
pub fn parse_conflicts(output: &str) -> (res: Vec<Conflict>)
    ensures
        res@.map_values(|c: Conflict| c.path@) == spec_conflicts(output@),
{
    let t = chars_of(output);
    let ls = lines_of(&t);
    let ghost lv = lines(output@);
    let mut res: Vec<Conflict> = Vec::new();
    let mut i: usize = 0;
    while i < ls.len()
        invariant
            i <= ls.len(),
            t@ == output@,
            lv == lines(t@),
            ls@.len() == lv.len(),
            forall|j: int| 0 <= j < ls@.len() ==> #[trigger] ls@[j]@ == lv[j],
            res@.map_values(|c: Conflict| c.path@) == lv.take(i as int).filter(
                |l: Seq<char>| spec_conflict_path(l) is Some,
            ).map_values(|l: Seq<char>| spec_conflict_path(l)->0),
        decreases ls.len() - i,
    {
        proof {
            assert(lv.take(i + 1).drop_last() =~= lv.take(i as int));
            reveal_with_fuel(Seq::<_>::filter, 1);
        }
        match conflict_path_of(&ls[i]) {
            Some(path) => {
                let ghost prev = res@;
                res.push(Conflict { path });
                proof {
                    let f = lv.take(i as int).filter(|l: Seq<char>| spec_conflict_path(l) is Some);
                    assert(lv.take(i + 1).filter(|l: Seq<char>| spec_conflict_path(l) is Some) == f.push(lv[i as int]));
                    assert(res@.map_values(|c: Conflict| c.path@) =~= prev.map_values(|c: Conflict| c.path@).push(spec_conflict_path(lv[i as int])->0));
                    assert(f.push(lv[i as int]).map_values(|l: Seq<char>| spec_conflict_path(l)->0) =~= f.map_values(|l: Seq<char>| spec_conflict_path(l)->0).push(spec_conflict_path(lv[i as int])->0));
                }
            },
            None => {},
        }
        i = i + 1;
    }
    proof {
        assert(lv.take(i as int) =~= lv);
    }
    res
}

/// The first position at or after `from` where `q` occurs in `t`, or a
/// position past `t.len() - q.len()` when there is none.
pub open spec fn first_occurrence_from(t: Seq<char>, q: Seq<char>, from: int) -> int
    decreases t.len() - from,
{
    if from < 0 || from >= t.len() || from + q.len() > t.len() {
        if from < 0 { t.len() as int } else { from }
    } else if occurs_at(t, q, from) {
        from
    } else {
        first_occurrence_from(t, q, from + 1)
    }
}

/// The separator of a renamed path: ` => `.
pub open spec fn arrow() -> Seq<char> {
    seq![' ', '=', '>', ' ']
}

/// The new path named by a renamed path `{old => new}`: the text between
/// the first ` => ` after the first `'{'` and the first `'}'` after it.
pub open spec fn spec_rename_target(path: Seq<char>) -> Option<Seq<char>> {
    let s = crate::text::find_char(path, '{');
    let p = first_occurrence_from(path, arrow(), s + 1);
    let q = p + 4 + crate::text::find_char(path.skip(p + 4), '}');
    if s >= path.len() || p + 4 > path.len() || q >= path.len() {
        None
    } else {
        Some(path.subrange(p + 4, q))
    }
}

fn rename_target_of(path: &[char]) -> (res: Option<String>)
    requires
        path.len() < usize::MAX - 8,
    ensures
        (match res {
            Some(p) => Some(p@),
            None => None,
        }) == spec_rename_target(path@),
{
    let mut s: usize = 0;
    while s < path.len() && path[s] != '{'
        invariant
            s <= path.len(),
            forall|m: int| 0 <= m < s ==> path@[m] != '{',
        decreases path.len() - s,
    {
        s = s + 1;
    }
    proof {
        crate::text::lemma_find_char_is(path@, '{', s as int);
    }
    if s >= path.len() {
        return None;
    }
    let arrow_chars = [' ', '=', '>', ' '];
    proof {
        assert(arrow_chars@ =~= arrow());
    }
    let mut p = s + 1;
    while p + 4 <= path.len() && !matches_at(path, &arrow_chars, p)
        invariant
            s + 1 <= p <= path.len() + 4,
            s < path.len(),
            path.len() < usize::MAX - 8,
            arrow_chars@ == arrow(),
            first_occurrence_from(path@, arrow(), s + 1) == first_occurrence_from(path@, arrow(), p as int),
        decreases path.len() + 4 - p,
    {
        p = p + 1;
    }
    if p + 4 > path.len() {
        return None;
    }
    let mut q = p + 4;
    while q < path.len() && path[q] != '}'
        invariant
            p + 4 <= q <= path.len(),
            forall|m: int| p + 4 <= m < q ==> path@[m] != '}',
        decreases path.len() - q,
    {
        q = q + 1;
    }
    proof {
        crate::text::lemma_find_char_is(path@.skip(p + 4), '}', q - (p + 4));
    }
    if q >= path.len() {
        return None;
    }
    Some(sub_string(path, p + 4, q))
}

/// The path that file commands should act on: for a rename `{old => new}`
/// the new path, otherwise the listed path.
pub open spec fn spec_target_path(path: Option<Seq<char>>, diff_type: Option<DiffType>) -> Option<Seq<char>> {
    match path {
        None => None,
        Some(p) => if diff_type == Some(DiffType::Renamed) && spec_rename_target(p) is Some {
            spec_rename_target(p)
        } else {
            Some(p)
        },
    }
}

impl File {
    /// The path that file commands should act on; `None` when the line held no path.
    pub fn target_path(&self) -> (res: Option<String>)
        requires
            self.path matches Some(p) ==> p@.len() < usize::MAX - 8,
        ensures
            (match res {
                Some(p) => Some(p@),
                None => None,
            }) == spec_target_path(
                match self.path {
                    Some(p) => Some(p@),
                    None => None,
                },
                self.diff_type,
            ),
    {
        match &self.path {
            None => None,
            Some(path) => {
                let chars = chars_of(path.as_str());
                let renamed = match self.diff_type {
                    Some(DiffType::Renamed) => true,
                    _ => false,
                };
                if renamed {
                    match rename_target_of(&chars) {
                        Some(target) => Some(target),
                        None => Some(copy_string(path.as_str())),
                    }
                } else {
                    Some(copy_string(path.as_str()))
                }
            },
        }
    }
}

/// `path` with `\` and `"` escaped by a backslash.
pub open spec fn escape_path(path: Seq<char>) -> Seq<char>
    decreases path.len(),
{
    if path.len() == 0 {
        Seq::empty()
    } else {
        let c = path.last();
        escape_path(path.drop_last()) + if c == '\\' {
            seq!['\\', '\\']
        } else if c == '"' {
            seq!['\\', '"']
        } else {
            seq![c]
        }
    }
}

/// The fileset naming exactly `path`: `file:"<path>"` with `\` and `"` escaped.
pub open spec fn spec_file_revset(path: Seq<char>) -> Seq<char> {
    seq!['f', 'i', 'l', 'e', ':', '"'] + escape_path(path) + seq!['"']
}

/// The fileset naming exactly `path`.
pub fn get_file_revset(path: &str) -> (res: String)
    ensures
        res@ == spec_file_revset(path@),
{
    let chars = chars_of(path);
    let mut res = String::new();
    res.push('f');
    res.push('i');
    res.push('l');
    res.push('e');
    res.push(':');
    res.push('"');
    let ghost head = res@;
    proof {
        assert(head =~= seq!['f', 'i', 'l', 'e', ':', '"']);
    }
    let mut i: usize = 0;
    while i < chars.len()
        invariant
            i <= chars.len(),
            res@ == head + escape_path(chars@.take(i as int)),
        decreases chars.len() - i,
    {
        let c = chars[i];
        proof {
            assert(chars@.take(i + 1).drop_last() =~= chars@.take(i as int));
        }
        if c == '\\' {
            res.push('\\');
            res.push('\\');
        } else if c == '"' {
            res.push('\\');
            res.push('"');
        } else {
            res.push(c);
        }
        i = i + 1;
        proof {
            assert(res@ =~= head + escape_path(chars@.take(i as int)));
        }
    }
    res.push('"');
    proof {
        assert(chars@.take(i as int) =~= path@);
    }
    res
}

/// The merge tool that keeps a side: `:theirs` for the moved revision,
/// `:ours` for the destination.
pub open spec fn resolve_tool(side: ConflictSide) -> Seq<char> {
    match side {
        ConflictSide::Source => ":theirs"@,
        ConflictSide::Destination => ":ours"@,
    }
}

/// `jj resolve -r <revision> --tool :ours|:theirs [<fileset>]`.
pub fn resolve_args(revision: &str, path: Option<&str>, side: ConflictSide) -> (res: Vec<String>)
    ensures
        strs(res@) == seq!["resolve"@, "-r"@, revision@, "--tool"@, resolve_tool(side)] + match path {
            Some(p) => seq![spec_file_revset(p@)],
            None => Seq::empty(),
        },
{
    let tool = match side {
        ConflictSide::Source => ":theirs",
        ConflictSide::Destination => ":ours",
    };
    let mut res: Vec<String> = Vec::new();
    push_arg(&mut res, "resolve");
    push_arg(&mut res, "-r");
    push_arg(&mut res, revision);
    push_arg(&mut res, "--tool");
    push_arg(&mut res, tool);
    let ghost base = strs(res@);
    match path {
        Some(p) => {
            let fileset = get_file_revset(p);
            push_arg(&mut res, fileset.as_str());
            proof {
                assert(strs(res@) =~= base + seq![spec_file_revset(p@)]);
            }
        },
        None => {
            proof {
                assert(strs(res@) =~= base + Seq::<Seq<char>>::empty());
            }
        },
    }
    res
}

/// An optional path, as text.
pub open spec fn opt_path(p: Option<String>) -> Option<Seq<char>> {
    match p {
        Some(t) => Some(t@),
        None => None,
    }
}

/// The fileset of the file that commands on `file` act on, where its line
/// names one.
pub open spec fn spec_file_fileset(file: File) -> Option<Seq<char>> {
    match spec_target_path(opt_path(file.path), file.diff_type) {
        Some(p) => Some(spec_file_revset(p)),
        None => None,
    }
}

/// The fileset of the file that commands on `file` act on.
fn file_fileset(file: &File) -> (res: Option<String>)
    requires
        file.path matches Some(p) ==> p@.len() < usize::MAX - 8,
    ensures
        opt_path(res) == spec_file_fileset(*file),
{
    match file.target_path() {
        Some(p) => Some(get_file_revset(p.as_str())),
        None => None,
    }
}

/// `jj diff -r <commit> <fileset>` with the diff format's arguments, and
/// `--ignore-working-copy` when asked for; `None` when the line names no file.
pub fn file_diff_args(commit_id: &CommitId, file: &File, diff_format: &DiffFormat, ignore_working_copy: bool) -> (res: Option<Vec<String>>)
    requires
        file.path matches Some(p) ==> p@.len() < usize::MAX - 8,
    ensures
        match spec_file_fileset(*file) {
            None => res is None,
            Some(fs) => res matches Some(a) && strs(a@) == seq!["diff"@, "-r"@, commit_id@, fs] + diff_args(diff_format@)
                + ignore_working_copy_args(ignore_working_copy),
        },
{
    match file_fileset(file) {
        None => None,
        Some(fs) => {
            let mut res: Vec<String> = Vec::new();
            push_arg(&mut res, "diff");
            push_arg(&mut res, "-r");
            push_arg(&mut res, commit_id.as_str());
            push_arg(&mut res, fs.as_str());
            push_diff_args(&mut res, diff_format);
            if ignore_working_copy {
                push_arg(&mut res, "--ignore-working-copy");
            }
            proof {
                assert(strs(res@) =~= seq!["diff"@, "-r"@, commit_id@, fs@] + diff_args(diff_format@)
                    + ignore_working_copy_args(ignore_working_copy));
            }
            Some(res)
        },
    }
}

/// `jj file untrack <fileset>`; `None` when the line names no file.
pub fn untrack_file_args(file: &File) -> (res: Option<Vec<String>>)
    requires
        file.path matches Some(p) ==> p@.len() < usize::MAX - 8,
    ensures
        match spec_file_fileset(*file) {
            None => res is None,
            Some(fs) => res matches Some(a) && strs(a@) == seq!["file"@, "untrack"@, fs],
        },
{
    match file_fileset(file) {
        None => None,
        Some(fs) => {
            let mut res: Vec<String> = Vec::new();
            push_arg(&mut res, "file");
            push_arg(&mut res, "untrack");
            push_arg(&mut res, fs.as_str());
            proof {
                assert(strs(res@) =~= seq!["file"@, "untrack"@, fs@]);
            }
            Some(res)
        },
    }
}

/// `jj restore <fileset>`; `None` when the line names no file.
pub fn restore_file_args(file: &File) -> (res: Option<Vec<String>>)
    requires
        file.path matches Some(p) ==> p@.len() < usize::MAX - 8,
    ensures
        match spec_file_fileset(*file) {
            None => res is None,
            Some(fs) => res matches Some(a) && strs(a@) == seq!["restore"@, fs],
        },
{
    match file_fileset(file) {
        None => None,
        Some(fs) => {
            let mut res: Vec<String> = Vec::new();
            push_arg(&mut res, "restore");
            push_arg(&mut res, fs.as_str());
            proof {
                assert(strs(res@) =~= seq!["restore"@, fs@]);
            }
            Some(res)
        },
    }
}

/// The conflicts of a change from what `jj resolve --list` gave: exit
/// code 2 means there are none; another failure is passed on.
pub fn conflicts_from(output: Result<String, CommandError>) -> (res: Result<Vec<Conflict>, CommandError>)
    ensures
        match output {
            Ok(out) => (res matches Ok(cs) && cs@.map_values(|c: Conflict| c.path@) == spec_conflicts(out@)),
            Err(e) => if (e matches CommandError::Status(_, Some(code)) && code == 2) {
                (res matches Ok(cs) && cs@.len() == 0)
            } else {
                res == Err::<Vec<Conflict>, CommandError>(e)
            },
        },
{
    match output {
        Ok(out) => Ok(parse_conflicts(out.as_str())),
        Err(CommandError::Status(msg, Some(code))) => {
            if code == 2 {
                Ok(Vec::new())
            } else {
                Err(CommandError::Status(msg, Some(code)))
            }
        },
        Err(e) => Err(e),
    }
}

/// `jj resolve -r <revision> [<fileset>]`: resolve in the configured merge
/// editor.
pub fn resolve_interactive_args(revision: &str, path: Option<&str>) -> (res: Vec<String>)
    ensures
        strs(res@) == seq!["resolve"@, "-r"@, revision@] + match path {
            Some(p) => seq![spec_file_revset(p@)],
            None => Seq::empty(),
        },
{
    let mut res: Vec<String> = Vec::new();
    push_arg(&mut res, "resolve");
    push_arg(&mut res, "-r");
    push_arg(&mut res, revision);
    let ghost base = strs(res@);
    match path {
        Some(p) => {
            let fileset = get_file_revset(p);
            push_arg(&mut res, fileset.as_str());
            proof {
                assert(strs(res@) =~= base + seq![spec_file_revset(p@)]);
            }
        },
        None => {
            proof {
                assert(strs(res@) =~= base + Seq::<Seq<char>>::empty());
            }
        },
    }
    res
}

/// `jj file show -r <revision> <fileset>`: a file's content at a revision.
pub fn file_show_args(revision: &str, path: &str) -> (res: Vec<String>)
    ensures
        strs(res@) == seq!["file"@, "show"@, "-r"@, revision@, spec_file_revset(path@)],
{
    let mut res: Vec<String> = Vec::new();
    push_arg(&mut res, "file");
    push_arg(&mut res, "show");
    push_arg(&mut res, "-r");
    push_arg(&mut res, revision);
    let fileset = get_file_revset(path);
    push_arg(&mut res, fileset.as_str());
    proof {
        assert(strs(res@) =~= seq!["file"@, "show"@, "-r"@, revision@, spec_file_revset(path@)]);
    }
    res
}

/// `jj diff -r <commit> --summary`.
pub fn files_args(commit_id: &CommitId) -> (res: Vec<String>)
    ensures
        strs(res@) == seq!["diff"@, "-r"@, commit_id@, "--summary"@],
{
    let mut res: Vec<String> = Vec::new();
    push_arg(&mut res, "diff");
    push_arg(&mut res, "-r");
    push_arg(&mut res, commit_id.as_str());
    push_arg(&mut res, "--summary");
    proof {
        assert(strs(res@) =~= seq!["diff"@, "-r"@, commit_id@, "--summary"@]);
    }
    res
}

/// `jj resolve --list -r <commit>`.
pub fn conflicts_args(commit_id: &CommitId) -> (res: Vec<String>)
    ensures
        strs(res@) == seq!["resolve"@, "--list"@, "-r"@, commit_id@],
{
    let mut res: Vec<String> = Vec::new();
    push_arg(&mut res, "resolve");
    push_arg(&mut res, "--list");
    push_arg(&mut res, "-r");
    push_arg(&mut res, commit_id.as_str());
    proof {
        assert(strs(res@) =~= seq!["resolve"@, "--list"@, "-r"@, commit_id@]);
    }
    res
}

} // verus!
