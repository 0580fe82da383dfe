//! The decisions of the log tab: the insert flow, the checks and questions
//! before each operation, and the messages after them.
use vstd::prelude::*;

use crate::files::Conflict;
use crate::ids::ChangeId;
use crate::ids::CommitId;
use crate::jj::flag_each;
use crate::jj::new_insert_args;
use crate::jj::rebase_insert_args;
use crate::bookmarks_tab::pair_views;
use crate::keybinds::Key;
use crate::keybinds::LogTabEvent;
use crate::log::Head;
use crate::log::HeadView;
use crate::log::commit_ids_view;
use crate::tabs::DetailsKey;
use crate::tabs::details_key;
use crate::tabs::spec_details_key;
use crate::text::chars_of;
use crate::text::copy_string;
use crate::text::decimal;
use crate::text::decimal_string;
use crate::text::join;
use crate::text::lemma_join_push;
use crate::text::split_chars;
use crate::text::split_on;
use crate::text::string_from;
use crate::text::strs;
use crate::text::trim;
use crate::text::trim_string;

verus! {

/// The short form of a commit ID: its first eight characters.
pub open spec fn short_id(id: Seq<char>) -> Seq<char> {
    if id.len() <= 8 { id } else { id.take(8) }
}

/// The short forms of the IDs.
pub open spec fn short_ids(ids: Seq<Seq<char>>) -> Seq<Seq<char>>
    decreases ids.len(),
{
    if ids.len() == 0 {
        Seq::empty()
    } else {
        short_ids(ids.drop_last()).push(short_id(ids.last()))
    }
}

/// The short forms of the commit IDs, joined by `, `.
pub fn short_commit_ids(commit_ids: &[CommitId]) -> (res: String)
    ensures
        res@ == join(short_ids(commit_ids_view(commit_ids@)), ", "@),
{
    let mut res = String::new();
    let mut i: usize = 0;
    while i < commit_ids.len()
        invariant
            i <= commit_ids@.len(),
            res@ == join(short_ids(commit_ids_view(commit_ids@.take(i as int))), ", "@),
        decreases commit_ids@.len() - i,
    {
        let ghost before = short_ids(commit_ids_view(commit_ids@.take(i as int)));
        proof {
            assert(commit_ids_view(commit_ids@.take(i + 1)) =~= commit_ids_view(commit_ids@.take(i as int)).push(commit_ids@[i as int]@));
            assert(commit_ids_view(commit_ids@.take(i + 1)).drop_last() =~= commit_ids_view(commit_ids@.take(i as int)));
            lemma_join_push(before, ", "@, short_id(commit_ids@[i as int]@));
        }
        if i > 0 {
            res.push_str(", ");
        }
        let c = chars_of(commit_ids[i].as_str());
        let end = if c.len() <= 8 { c.len() } else { 8 };
        let short = crate::text::sub_string(&c, 0, end);
        proof {
            assert(short@ =~= short_id(commit_ids@[i as int]@));
        }
        res.push_str(short.as_str());
        i = i + 1;
    }
    proof {
        assert(commit_ids@.take(i as int) =~= commit_ids@);
    }
    res
}

/// The two-phase flow that inserts a change between others: it collects the
/// changes to insert after (`-A`), then those to insert before (`-B`), then
/// asks for confirmation.
#[derive(Debug)]
pub enum InsertState {
    /// Not inserting.
    Idle,
    /// Marking the changes to insert after; `moving` is the change moved
    /// into place, or none where a new change is created.
    CollectingAfter { moving: Option<Head> },
    /// Marking the changes to insert before.
    CollectingBefore { moving: Option<Head>, after: Vec<CommitId> },
    /// Anchors collected; the question is showing.
    Confirming { moving: Option<Head>, after: Vec<CommitId>, before: Vec<CommitId> },
}

/// The mathematical value of an [InsertState].
pub enum InsertStateView {
    Idle,
    CollectingAfter { moving: Option<HeadView> },
    CollectingBefore { moving: Option<HeadView>, after: Seq<Seq<char>> },
    Confirming { moving: Option<HeadView>, after: Seq<Seq<char>>, before: Seq<Seq<char>> },
}

/// The view of an optional head.
pub open spec fn opt_head(h: Option<Head>) -> Option<HeadView> {
    match h {
        Some(x) => Some(x@),
        None => None,
    }
}

impl View for InsertState {
    type V = InsertStateView;

    open spec fn view(&self) -> InsertStateView {
        match self {
            InsertState::Idle => InsertStateView::Idle,
            InsertState::CollectingAfter { moving } => InsertStateView::CollectingAfter { moving: opt_head(*moving) },
            InsertState::CollectingBefore { moving, after } => InsertStateView::CollectingBefore {
                moving: opt_head(*moving),
                after: commit_ids_view(after@),
            },
            InsertState::Confirming { moving, after, before } => InsertStateView::Confirming {
                moving: opt_head(*moving),
                after: commit_ids_view(after@),
                before: commit_ids_view(before@),
            },
        }
    }
}

/// What advancing the insert flow asks of the tab.
#[derive(Debug)]
pub enum InsertStep {
    /// Nothing more.
    Handled,
    /// No anchor was marked: the message to show.
    NothingMarked(String),
    /// Ask for confirmation with these lines.
    Confirm(Vec<String>),
}

/// The lines of the question before inserting: what is inserted, then the
/// anchors after and before which it goes, where there are some.
pub open spec fn insert_question(moving: bool, after: Seq<Seq<char>>, before: Seq<Seq<char>>) -> Seq<Seq<char>> {
    seq![if moving {
        "Are you sure you want to move the selected change here?"@
    } else {
        "Are you sure you want to insert a new change here?"@
    }]
        + (if after.len() > 0 { seq!["After: "@ + join(short_ids(after), ", "@)] } else { Seq::empty() })
        + (if before.len() > 0 { seq!["Before: "@ + join(short_ids(before), ", "@)] } else { Seq::empty() })
}

/// The state of the flow once Enter was pressed with `marks` marked: the
/// marks become the after-anchors, then the before-anchors; with neither,
/// the flow ends.
pub open spec fn spec_advance(state: InsertStateView, marks: Seq<Seq<char>>) -> InsertStateView {
    match state {
        InsertStateView::CollectingAfter { moving } => InsertStateView::CollectingBefore { moving, after: marks },
        InsertStateView::CollectingBefore { moving, after } => if after.len() == 0 && marks.len() == 0 {
            InsertStateView::Idle
        } else {
            InsertStateView::Confirming { moving, after, before: marks }
        },
        _ => state,
    }
}

impl InsertState {
    /// Start the flow: collect after-anchors for moving `moving`, or for a
    /// new change.
    pub fn start(moving: Option<Head>) -> (res: InsertState)
        ensures
            res@ == (InsertStateView::CollectingAfter { moving: opt_head(moving) }),
    {
        InsertState::CollectingAfter { moving }
    }

    /// The title of the log panel while anchors are collected.
    pub fn title(&self) -> (res: Option<String>)
        ensures
            match self@ {
                InsertStateView::CollectingAfter { .. } => res matches Some(t)
                    && t@ == " Insert: mark AFTER-anchors (space: mark, enter: next, esc: cancel) "@,
                InsertStateView::CollectingBefore { .. } => res matches Some(t)
                    && t@ == " Insert: mark BEFORE-anchors (space: mark, enter: confirm, esc: cancel) "@,
                _ => res is None,
            },
    {
        match self {
            InsertState::CollectingAfter { .. } => Some(copy_string(" Insert: mark AFTER-anchors (space: mark, enter: next, esc: cancel) ")),
            InsertState::CollectingBefore { .. } => Some(copy_string(" Insert: mark BEFORE-anchors (space: mark, enter: confirm, esc: cancel) ")),
            _ => None,
        }
    }

    /// Whether the flow is under way.
    pub fn is_idle(&self) -> (res: bool)
        ensures
            res == (self@ is Idle),
    {
        match self {
            InsertState::Idle => true,
            _ => false,
        }
    }

    /// Advance the flow on Enter, with `marks` the changes marked in the
    /// phase that ends: the new state, and what to show.
    pub fn advance(self, marks: Vec<CommitId>) -> (res: (InsertState, InsertStep))
        ensures
            res.0@ == spec_advance(self@, commit_ids_view(marks@)),
            match (self@, res.1) {
                (InsertStateView::CollectingBefore { moving, after }, InsertStep::NothingMarked(m)) =>
                    after.len() == 0 && marks@.len() == 0 && m@ == "No after- or before-anchors were marked."@,
                (InsertStateView::CollectingBefore { moving, after }, InsertStep::Confirm(lines)) =>
                    !(after.len() == 0 && marks@.len() == 0)
                    && strs(lines@) == insert_question(moving is Some, after, commit_ids_view(marks@)),
                (InsertStateView::CollectingBefore { .. }, InsertStep::Handled) => false,
                (_, InsertStep::Handled) => true,
                _ => false,
            },
    {
        match self {
            InsertState::CollectingAfter { moving } => (InsertState::CollectingBefore { moving, after: marks }, InsertStep::Handled),
            InsertState::CollectingBefore { moving, after } => {
                if after.len() == 0 && marks.len() == 0 {
                    return (InsertState::Idle, InsertStep::NothingMarked(copy_string("No after- or before-anchors were marked.")));
                }
                let mut lines: Vec<String> = Vec::new();
                if moving.is_some() {
                    lines.push(copy_string("Are you sure you want to move the selected change here?"));
                } else {
                    lines.push(copy_string("Are you sure you want to insert a new change here?"));
                }
                if after.len() > 0 {
                    let mut l = copy_string("After: ");
                    let ids = short_commit_ids(after.as_slice());
                    l.push_str(ids.as_str());
                    lines.push(l);
                }
                if marks.len() > 0 {
                    let mut l = copy_string("Before: ");
                    let ids = short_commit_ids(marks.as_slice());
                    l.push_str(ids.as_str());
                    lines.push(l);
                }
                proof {
                    assert(strs(lines@) =~= insert_question(moving is Some, commit_ids_view(after@), commit_ids_view(marks@)));
                }
                (InsertState::Confirming { moving, after, before: marks }, InsertStep::Confirm(lines))
            },
            other => (other, InsertStep::Handled),
        }
    }

    /// The arguments of the command a confirmed insert runs: the moved
    /// change rebased between the anchors, or a new change created there;
    /// none where the flow is not confirming.
    pub fn command(&self) -> (res: Option<Vec<String>>)
        ensures
            match self@ {
                InsertStateView::Confirming { moving: Some(m), after, before } => res matches Some(a)
                    && strs(a@) == seq!["rebase"@, "-r"@, m.commit_id] + flag_each("-A"@, after) + flag_each("-B"@, before),
                InsertStateView::Confirming { moving: None, after, before } => res matches Some(a)
                    && strs(a@) == seq!["new"@, "--no-edit"@] + flag_each("-A"@, after) + flag_each("-B"@, before),
                _ => res is None,
            },
    {
        match self {
            InsertState::Confirming { moving: Some(m), after, before } =>
                Some(rebase_insert_args(m.commit_id.as_str(), after.as_slice(), before.as_slice())),
            InsertState::Confirming { moving: None, after, before } =>
                Some(new_insert_args(after.as_slice(), before.as_slice())),
            _ => None,
        }
    }
}

/// Advancing the flow twice from collecting after-anchors, with some anchor
/// marked, reaches the confirmation holding the anchors of each phase; with
/// none marked it ends.
pub proof fn lemma_insert_flow(moving: Option<HeadView>, after: Seq<Seq<char>>, before: Seq<Seq<char>>)
    ensures
        spec_advance(spec_advance(InsertStateView::CollectingAfter { moving }, after), before)
            == (if after.len() == 0 && before.len() == 0 {
                InsertStateView::Idle
            } else {
                InsertStateView::Confirming { moving, after, before }
            }),
{
}

/// The lines of the question before creating a change: on the marked
/// changes where some are marked, else on the selected change.
pub fn new_prompt(mark_count: usize, change_id: &ChangeId) -> (res: Vec<String>)
    ensures
        mark_count > 0 ==> strs(res@) == seq!["Are you sure you want to create a new change with "@
            + decimal(mark_count as nat) + " marked parents?"@],
        mark_count == 0 ==> strs(res@) == seq!["Are you sure you want to create a new change?"@,
            "New parent: "@ + change_id@],
{
    let mut res: Vec<String> = Vec::new();
    if mark_count > 0 {
        let mut l = copy_string("Are you sure you want to create a new change with ");
        let n = decimal_string(mark_count);
        l.push_str(n.as_str());
        l.push_str(" marked parents?");
        res.push(l);
    } else {
        res.push(copy_string("Are you sure you want to create a new change?"));
        let mut l = copy_string("New parent: ");
        l.push_str(change_id.as_str());
        res.push(l);
    }
    proof {
        if mark_count > 0 {
            assert(strs(res@) =~= seq!["Are you sure you want to create a new change with "@
                + decimal(mark_count as nat) + " marked parents?"@]);
        } else {
            assert(strs(res@) =~= seq!["Are you sure you want to create a new change?"@, "New parent: "@ + change_id@]);
        }
    }
    res
}

/// The check and question before abandoning: an immutable change cannot be
/// abandoned; else ask about the marked changes, or the selected one.
pub fn abandon_check(head: &Head, mark_count: usize) -> (res: Result<Vec<String>, String>)
    ensures
        head.immutable ==> (res matches Err(m) && m@ == "The change cannot be abandoned because it is immutable."@),
        !head.immutable && mark_count > 0 ==> (res matches Ok(l) && strs(l@) == seq![
            "Are you sure you want to abandon "@ + decimal(mark_count as nat) + " marked changes?"@]),
        !head.immutable && mark_count == 0 ==> (res matches Ok(l) && strs(l@) == seq![
            "Are you sure you want to abandon this change?"@, "Change: "@ + head.change_id@]),
{
    if head.immutable {
        return Err(copy_string("The change cannot be abandoned because it is immutable."));
    }
    let mut res: Vec<String> = Vec::new();
    if mark_count > 0 {
        let mut l = copy_string("Are you sure you want to abandon ");
        let n = decimal_string(mark_count);
        l.push_str(n.as_str());
        l.push_str(" marked changes?");
        res.push(l);
        proof {
            assert(strs(res@) =~= seq!["Are you sure you want to abandon "@ + decimal(mark_count as nat) + " marked changes?"@]);
        }
    } else {
        res.push(copy_string("Are you sure you want to abandon this change?"));
        let mut l = copy_string("Change: ");
        l.push_str(head.change_id.as_str());
        res.push(l);
        proof {
            assert(strs(res@) =~= seq!["Are you sure you want to abandon this change?"@, "Change: "@ + head.change_id@]);
        }
    }
    Ok(res)
}

/// Why the selected change cannot be rebased onto the marked ones: nothing
/// marked, an immutable change, or the change itself marked; none where it
/// can.
pub fn rebase_check(mark_count: usize, head_immutable: bool, head_marked: bool) -> (res: Option<&'static str>)
    ensures
        mark_count == 0 ==> (res matches Some(m)
            && m@ == "Mark the destination change(s) with space, then rebase the selected change."@),
        mark_count > 0 && head_immutable ==> (res matches Some(m)
            && m@ == "The change cannot be rebased because it is immutable."@),
        mark_count > 0 && !head_immutable && head_marked ==> (res matches Some(m)
            && m@ == "The selected change is one of the marked destinations."@),
        mark_count > 0 && !head_immutable && !head_marked ==> res is None,
{
    if mark_count == 0 {
        Some("Mark the destination change(s) with space, then rebase the selected change.")
    } else if head_immutable {
        Some("The change cannot be rebased because it is immutable.")
    } else if head_marked {
        Some("The selected change is one of the marked destinations.")
    } else {
        None
    }
}

/// Why squashing cannot start: more than one marked destination, or an
/// immutable change where immutability is not ignored.
pub fn squash_precheck(mark_count: usize, head_immutable: bool, ignore_immutable: bool) -> (res: Option<&'static str>)
    ensures
        mark_count > 1 ==> (res matches Some(m) && m@ == "Squash supports at most one marked destination."@),
        mark_count <= 1 && head_immutable && !ignore_immutable ==> (res matches Some(m)
            && m@ == "The change cannot be squashed because it is immutable."@),
        mark_count <= 1 && !(head_immutable && !ignore_immutable) ==> res is None,
{
    if mark_count > 1 {
        Some("Squash supports at most one marked destination.")
    } else if head_immutable && !ignore_immutable {
        Some("The change cannot be squashed because it is immutable.")
    } else {
        None
    }
}

/// The check and question before squashing the selected change into
/// `target` (its parent, or the marked change): a change cannot be squashed
/// into itself, nor into an immutable change unless immutability is
/// ignored.
pub fn squash_prompt(head: &Head, target: &Head, into_parent: bool, ignore_immutable: bool) -> (res: Result<Vec<String>, &'static str>)
    ensures
        !into_parent && target.commit_id@ == head.commit_id@ ==> (res matches Err(m)
            && m@ == "Cannot squash a change into itself."@),
        !(!into_parent && target.commit_id@ == head.commit_id@) && target.immutable && !ignore_immutable ==> (res matches Err(m)
            && m@ == "Cannot squash into an immutable change."@),
        !(!into_parent && target.commit_id@ == head.commit_id@) && !(target.immutable && !ignore_immutable) ==> (res matches Ok(l)
            && strs(l@) == seq![
                if into_parent {
                    "Are you sure you want to squash this change into its parent?"@
                } else {
                    "Are you sure you want to squash this change into the marked change?"@
                },
                "Squash "@ + head.change_id@ + " into "@ + target.change_id@,
            ] + (if ignore_immutable && (head.immutable || target.immutable) {
                seq!["Immutability will be ignored."@]
            } else {
                Seq::empty()
            })),
{
    if !into_parent && crate::text::same_text(&target.commit_id.0, &head.commit_id.0) {
        return Err("Cannot squash a change into itself.");
    }
    if target.immutable && !ignore_immutable {
        return Err("Cannot squash into an immutable change.");
    }
    let mut res: Vec<String> = Vec::new();
    if into_parent {
        res.push(copy_string("Are you sure you want to squash this change into its parent?"));
    } else {
        res.push(copy_string("Are you sure you want to squash this change into the marked change?"));
    }
    let mut l = copy_string("Squash ");
    l.push_str(head.change_id.as_str());
    l.push_str(" into ");
    l.push_str(target.change_id.as_str());
    res.push(l);
    if ignore_immutable && (head.immutable || target.immutable) {
        res.push(copy_string("Immutability will be ignored."));
    }
    proof {
        assert(strs(res@) =~= seq![
            if into_parent {
                "Are you sure you want to squash this change into its parent?"@
            } else {
                "Are you sure you want to squash this change into the marked change?"@
            },
            "Squash "@ + head.change_id@ + " into "@ + target.change_id@,
        ] + (if ignore_immutable && (head.immutable || target.immutable) {
            seq!["Immutability will be ignored."@]
        } else {
            Seq::<Seq<char>>::empty()
        }));
    }
    Ok(res)
}

/// The check and question before editing a change: an immutable change
/// cannot be edited unless immutability is ignored.
pub fn edit_prompt(head: &Head, ignore_immutable: bool) -> (res: Result<Vec<String>, &'static str>)
    ensures
        head.immutable && !ignore_immutable ==> (res matches Err(m)
            && m@ == "The change cannot be edited because it is immutable."@),
        !(head.immutable && !ignore_immutable) ==> (res matches Ok(l) && strs(l@) == seq![
            "Are you sure you want to edit an existing change?"@,
            "Change: "@ + head.change_id@,
        ] + (if ignore_immutable { seq!["This change is immutable."@] } else { Seq::empty() })),
{
    if head.immutable && !ignore_immutable {
        return Err("The change cannot be edited because it is immutable.");
    }
    let mut res: Vec<String> = Vec::new();
    res.push(copy_string("Are you sure you want to edit an existing change?"));
    let mut l = copy_string("Change: ");
    l.push_str(head.change_id.as_str());
    res.push(l);
    if ignore_immutable {
        res.push(copy_string("This change is immutable."));
    }
    proof {
        assert(strs(res@) =~= seq![
            "Are you sure you want to edit an existing change?"@,
            "Change: "@ + head.change_id@,
        ] + (if ignore_immutable { seq!["This change is immutable."@] } else { Seq::<Seq<char>>::empty() }));
    }
    Ok(res)
}

/// The check and question before giving a change a new change ID: an
/// immutable change cannot get one unless immutability is ignored.
pub fn update_change_id_prompt(head: &Head, ignore_immutable: bool) -> (res: Result<Vec<String>, &'static str>)
    ensures
        head.immutable && !ignore_immutable ==> (res matches Err(m)
            && m@ == "The change id cannot be updated because the change is immutable."@),
        !(head.immutable && !ignore_immutable) ==> (res matches Ok(l) && strs(l@) == seq![
            "Are you sure you want to generate a new change id?"@,
            "Change: "@ + head.change_id@,
            "This is useful to resolve divergence."@,
        ] + (if ignore_immutable { seq!["This change is immutable."@] } else { Seq::empty() })),
{
    if head.immutable && !ignore_immutable {
        return Err("The change id cannot be updated because the change is immutable.");
    }
    let mut res: Vec<String> = Vec::new();
    res.push(copy_string("Are you sure you want to generate a new change id?"));
    let mut l = copy_string("Change: ");
    l.push_str(head.change_id.as_str());
    res.push(l);
    res.push(copy_string("This is useful to resolve divergence."));
    if ignore_immutable {
        res.push(copy_string("This change is immutable."));
    }
    proof {
        assert(strs(res@) =~= seq![
            "Are you sure you want to generate a new change id?"@,
            "Change: "@ + head.change_id@,
            "This is useful to resolve divergence."@,
        ] + (if ignore_immutable { seq!["This change is immutable."@] } else { Seq::<Seq<char>>::empty() }));
    }
    Ok(res)
}

/// How many conflicted files the question before resolving names.
pub const MAX_LISTED_CONFLICTS: usize = 8;

/// The lines naming the conflicted files: at most [MAX_LISTED_CONFLICTS],
/// indented, then how many more there are.
pub open spec fn conflict_lines(paths: Seq<Seq<char>>) -> Seq<Seq<char>> {
    let listed = if paths.len() <= 8 { paths } else { paths.take(8) };
    indented(listed)
        + if paths.len() > 8 { seq!["  ...and "@ + decimal((paths.len() - 8) as nat) + " more"@] } else { Seq::empty() }
}

/// Each path indented by two spaces.
pub open spec fn indented(paths: Seq<Seq<char>>) -> Seq<Seq<char>>
    decreases paths.len(),
{
    if paths.len() == 0 {
        Seq::empty()
    } else {
        indented(paths.drop_last()).push("  "@ + paths.last())
    }
}

/// The paths of conflicts.
pub open spec fn conflict_paths(v: Seq<Conflict>) -> Seq<Seq<char>> {
    v.map_values(|c: Conflict| c.path@)
}

/// The check and question before resolving the conflicts of a change: not
/// for an immutable change, nor one without conflicts; else name the side
/// kept and the conflicted files.
pub fn resolve_prompt(head: &Head, conflicts: &Vec<Conflict>, keep_destination: bool) -> (res: Result<Vec<String>, &'static str>)
    ensures
        head.immutable ==> (res matches Err(m)
            && m@ == "The conflicts cannot be resolved because the change is immutable."@),
        !head.immutable && conflicts@.len() == 0 ==> (res matches Err(m) && m@ == "The change has no conflicts to resolve."@),
        !head.immutable && conflicts@.len() > 0 ==> (res matches Ok(l) && strs(l@) == seq![
            "Resolve "@ + decimal(conflicts@.len()) + " conflicted file(s) in favor of "@ + (if keep_destination {
                "the destination side (e.g. the rebase or squash destination)"@
            } else {
                "the moved side (the rebased or squashed revision's version)"@
            }) + "?"@,
            "Change: "@ + head.change_id@,
        ] + conflict_lines(conflict_paths(conflicts@))),
{
    if head.immutable {
        return Err("The conflicts cannot be resolved because the change is immutable.");
    }
    if conflicts.len() == 0 {
        return Err("The change has no conflicts to resolve.");
    }
    let mut res: Vec<String> = Vec::new();
    let mut first = copy_string("Resolve ");
    let n = decimal_string(conflicts.len());
    first.push_str(n.as_str());
    first.push_str(" conflicted file(s) in favor of ");
    if keep_destination {
        first.push_str("the destination side (e.g. the rebase or squash destination)");
    } else {
        first.push_str("the moved side (the rebased or squashed revision's version)");
    }
    first.push_str("?");
    res.push(first);
    let mut l = copy_string("Change: ");
    l.push_str(head.change_id.as_str());
    res.push(l);
    let ghost head_lines = strs(res@);
    let ghost paths = conflict_paths(conflicts@);
    proof {
        assert(head_lines =~= seq![
            "Resolve "@ + decimal(conflicts@.len()) + " conflicted file(s) in favor of "@ + (if keep_destination {
                "the destination side (e.g. the rebase or squash destination)"@
            } else {
                "the moved side (the rebased or squashed revision's version)"@
            }) + "?"@,
            "Change: "@ + head.change_id@,
        ]);
    }
    let listed = if conflicts.len() <= MAX_LISTED_CONFLICTS { conflicts.len() } else { MAX_LISTED_CONFLICTS };
    let mut i: usize = 0;
    while i < listed
        invariant
            i <= listed <= conflicts@.len(),
            listed == (if conflicts@.len() <= 8 { conflicts@.len() } else { 8 }),
            paths == conflict_paths(conflicts@),
            strs(res@) == head_lines + indented(paths.take(i as int)),
        decreases listed - i,
    {
        let mut line = copy_string("  ");
        line.push_str(conflicts[i].path.as_str());
        let ghost before = strs(res@);
        res.push(line);
        proof {
            assert(paths.take(i + 1).drop_last() =~= paths.take(i as int));
            assert(paths.take(i + 1).last() == conflicts@[i as int].path@);
            assert(strs(res@) =~= before.push("  "@ + conflicts@[i as int].path@));
            assert(strs(res@) =~= head_lines + indented(paths.take(i + 1)));
        }
        i = i + 1;
    }
    let ghost mid = strs(res@);
    if conflicts.len() > MAX_LISTED_CONFLICTS {
        let mut more = copy_string("  ...and ");
        let m = decimal_string(conflicts.len() - MAX_LISTED_CONFLICTS);
        more.push_str(m.as_str());
        more.push_str(" more");
        res.push(more);
        proof {
            assert(strs(res@) =~= mid.push("  ...and "@ + decimal((conflicts@.len() - 8) as nat) + " more"@));
        }
    }
    proof {
        let listed_paths = if paths.len() <= 8 { paths } else { paths.take(8) };
        assert(paths.take(listed as int) =~= listed_paths);
        assert(paths.len() == conflicts@.len());
        assert(strs(res@) =~= seq![
            "Resolve "@ + decimal(conflicts@.len()) + " conflicted file(s) in favor of "@ + (if keep_destination {
                "the destination side (e.g. the rebase or squash destination)"@
            } else {
                "the moved side (the rebased or squashed revision's version)"@
            }) + "?"@,
            "Change: "@ + head.change_id@,
        ] + conflict_lines(paths));
    }
    Ok(res)
}

/// The status message after absorbing: how many revisions took part of the
/// change, and how many others were rebased.
pub open spec fn spec_absorb_status(absorbed: nat, rebased: nat) -> Seq<char> {
    if absorbed == 0 {
        "Nothing to absorb"@
    } else {
        (if absorbed == 1 {
            "Absorbed into 1 revision (★)"@
        } else {
            "Absorbed into "@ + decimal(absorbed) + " revisions (★)"@
        }) + (if rebased == 0 {
            Seq::empty()
        } else if rebased == 1 {
            ", rebased 1 other (☆)"@
        } else {
            ", rebased "@ + decimal(rebased) + " others (☆)"@
        })
    }
}

/// The status message after absorbing.
pub fn absorb_status(absorbed: usize, rebased: usize) -> (res: String)
    ensures
        res@ == spec_absorb_status(absorbed as nat, rebased as nat),
{
    if absorbed == 0 {
        return copy_string("Nothing to absorb");
    }
    let mut res = if absorbed == 1 {
        copy_string("Absorbed into 1 revision (★)")
    } else {
        let mut m = copy_string("Absorbed into ");
        let n = decimal_string(absorbed);
        m.push_str(n.as_str());
        m.push_str(" revisions (★)");
        m
    };
    if rebased == 1 {
        res.push_str(", rebased 1 other (☆)");
    } else if rebased > 1 {
        res.push_str(", rebased ");
        let n = decimal_string(rebased);
        res.push_str(n.as_str());
        res.push_str(" others (☆)");
    }
    proof {
        assert(res@ =~= spec_absorb_status(absorbed as nat, rebased as nat));
    }
    res
}

/// The message shown instead of the describe prompt on an immutable change.
pub const DESCRIBE_IMMUTABLE: &'static str = "The change cannot be described because it is immutable.";

/// Whether the change can be described: an immutable one cannot, and the
/// error is the message shown instead of the prompt.
pub fn describe_check(head: &Head) -> (res: Result<(), &'static str>)
    ensures
        head.immutable ==> res == Err::<(), &'static str>(DESCRIBE_IMMUTABLE),
        !head.immutable ==> res is Ok,
{
    if head.immutable {
        Err(DESCRIBE_IMMUTABLE)
    } else {
        Ok(())
    }
}

/// The help of the details panel, shown under the keys of the main panel.
pub fn details_help() -> (res: Vec<(String, String)>)
    ensures
        pair_views(res@) == seq![("Ctrl+e/Ctrl+y"@, "scroll down/up"@), ("Ctrl+d/Ctrl+u"@, "scroll down/up by ½ page"@), ("Ctrl+f/Ctrl+b"@, "scroll down/up by page"@), ("w"@, "toggle diff format"@), ("W"@, "toggle wrapping"@)],
{
    let mut details: Vec<(String, String)> = Vec::new();
    details.push((copy_string("Ctrl+e/Ctrl+y"), copy_string("scroll down/up")));
    details.push((copy_string("Ctrl+d/Ctrl+u"), copy_string("scroll down/up by ½ page")));
    details.push((copy_string("Ctrl+f/Ctrl+b"), copy_string("scroll down/up by page")));
    details.push((copy_string("w"), copy_string("toggle diff format")));
    details.push((copy_string("W"), copy_string("toggle wrapping")));
    proof {
        assert(pair_views(details@) =~= seq![("Ctrl+e/Ctrl+y"@, "scroll down/up"@), ("Ctrl+d/Ctrl+u"@, "scroll down/up by ½ page"@), ("Ctrl+f/Ctrl+b"@, "scroll down/up by page"@), ("w"@, "toggle diff format"@), ("W"@, "toggle wrapping"@)]);
    }
    details
}

/// The status message after undoing.
pub const UNDO_STATUS: &'static str = "Undid last operation | shift+u: redo";

/// The status message after redoing.
pub const REDO_STATUS: &'static str = "Redid last undone operation";

/// The status message after resolving conflicts.
pub const RESOLVE_STATUS: &'static str = "Resolved conflicts | u: undo";

/// The revset typed in the revset prompt: none (the default) where it is
/// blank.
pub fn revset_from_input(text: &str) -> (res: Option<String>)
    ensures
        trim(text@).len() == 0 ==> res is None,
        trim(text@).len() > 0 ==> (res matches Some(r) && r@ == text@),
{
    let t = trim_string(text);
    if t.as_str().is_empty() {
        None
    } else {
        Some(copy_string(text))
    }
}

/// The lines of a description, as the describe prompt starts with them.
pub fn description_lines(description: &str) -> (res: Vec<String>)
    ensures
        strs(res@) == split_on(description@, '\n'),
{
    let t = chars_of(description);
    let parts = split_chars(&t, '\n');
    let mut res: Vec<String> = Vec::new();
    let mut i: usize = 0;
    while i < parts.len()
        invariant
            i <= parts@.len(),
            t@ == description@,
            parts@.len() == split_on(t@, '\n').len(),
            forall|j: int| 0 <= j < parts@.len() ==> #[trigger] parts@[j]@ == split_on(t@, '\n')[j],
            strs(res@) == split_on(t@, '\n').take(i as int),
        decreases parts@.len() - i,
    {
        let ghost before = strs(res@);
        res.push(string_from(&parts[i]));
        proof {
            assert(strs(res@) =~= before.push(parts@[i as int]@));
            assert(strs(res@) =~= split_on(t@, '\n').take(i + 1));
        }
        i = i + 1;
    }
    proof {
        assert(split_on(t@, '\n').take(i as int) =~= split_on(t@, '\n'));
    }
    res
}

/// The title of the details panel.
pub fn details_title(change_id: &ChangeId) -> (res: String)
    ensures
        res@ == " Details for "@ + change_id@ + " "@,
{
    let mut res = copy_string(" Details for ");
    res.push_str(change_id.as_str());
    res.push_str(" ");
    res
}

/// Whether an event closes the confirmation popup.
pub fn closes_popup(event: LogTabEvent) -> (res: bool)
    ensures
        res == (event == LogTabEvent::ClosePopup || event == LogTabEvent::Cancel),
{
    event == LogTabEvent::ClosePopup || event == LogTabEvent::Cancel
}

/// Whether an event moves the selection or the marks of the log panel.
pub fn is_panel_event(event: LogTabEvent) -> (res: bool)
    ensures
        res == (event == LogTabEvent::ScrollDown || event == LogTabEvent::ScrollUp || event == LogTabEvent::ScrollDownHalf
            || event == LogTabEvent::ScrollUpHalf || event == LogTabEvent::ScrollToBottom || event == LogTabEvent::ScrollToTop
            || event == LogTabEvent::ToggleHeadMark),
{
    event == LogTabEvent::ScrollDown || event == LogTabEvent::ScrollUp || event == LogTabEvent::ScrollDownHalf
        || event == LogTabEvent::ScrollUpHalf || event == LogTabEvent::ScrollToBottom || event == LogTabEvent::ScrollToTop
        || event == LogTabEvent::ToggleHeadMark
}

/// What a key does while the insert flow runs: Enter (the key that opens
/// files) advances it, cancel ends it; other keys go on as usual.
#[derive(Debug, Clone, Copy, PartialEq, Eq, Structural)]
pub enum InsertKey {
    Advance,
    CancelInsert,
    PassOn,
}

/// What a key does while the insert flow runs.
pub fn insert_key(event: LogTabEvent) -> (res: InsertKey)
    ensures
        res == (if event == LogTabEvent::OpenFiles {
            InsertKey::Advance
        } else if event == LogTabEvent::Cancel {
            InsertKey::CancelInsert
        } else {
            InsertKey::PassOn
        }),
{
    if event == LogTabEvent::OpenFiles {
        InsertKey::Advance
    } else if event == LogTabEvent::Cancel {
        InsertKey::CancelInsert
    } else {
        InsertKey::PassOn
    }
}

/// Whether `a` comes before or equals `b` in the order of their characters'
/// code points, which is the byte order of their UTF-8 text (`str::cmp`).
pub open spec fn lex_le(a: Seq<char>, b: Seq<char>) -> bool
    decreases a.len(),
{
    if a.len() == 0 {
        true
    } else if b.len() == 0 {
        false
    } else if a[0] < b[0] {
        true
    } else if a[0] > b[0] {
        false
    } else {
        lex_le(a.drop_first(), b.drop_first())
    }
}

/// Of two texts, one comes first.
pub proof fn lemma_lex_total(a: Seq<char>, b: Seq<char>)
    ensures
        lex_le(a, b) || lex_le(b, a),
    decreases a.len(),
{
    if a.len() > 0 && b.len() > 0 && a[0] == b[0] {
        lemma_lex_total(a.drop_first(), b.drop_first());
    }
}

/// Every text comes before or equals itself.
pub proof fn lemma_lex_reflexive(a: Seq<char>)
    ensures
        lex_le(a, a),
    decreases a.len(),
{
    if a.len() > 0 {
        lemma_lex_reflexive(a.drop_first());
    }
}

/// The order of texts is transitive.
pub proof fn lemma_lex_transitive(a: Seq<char>, b: Seq<char>, c: Seq<char>)
    requires
        lex_le(a, b),
        lex_le(b, c),
    ensures
        lex_le(a, c),
    decreases a.len(),
{
    if a.len() > 0 && b.len() > 0 && c.len() > 0 && a[0] == b[0] && b[0] == c[0] {
        lemma_lex_transitive(a.drop_first(), b.drop_first(), c.drop_first());
    }
}

/// Whether `a` comes before or equals `b`.
pub fn lex_le_text(a: &str, b: &str) -> (res: bool)
    ensures
        res == lex_le(a@, b@),
{
    let x = chars_of(a);
    let y = chars_of(b);
    let mut i: usize = 0;
    proof {
        assert(x@.skip(0) =~= x@);
        assert(y@.skip(0) =~= y@);
    }
    while i < x.len() && i < y.len() && x[i] == y[i]
        invariant
            i <= x@.len(),
            i <= y@.len(),
            forall|j: int| 0 <= j < i ==> x@[j] == y@[j],
            lex_le(x@, y@) == lex_le(x@.skip(i as int), y@.skip(i as int)),
        decreases x@.len() - i,
    {
        proof {
            assert(x@.skip(i as int).drop_first() =~= x@.skip(i + 1));
            assert(y@.skip(i as int).drop_first() =~= y@.skip(i + 1));
            assert(x@.skip(i as int)[0] == x@[i as int]);
            assert(y@.skip(i as int)[0] == y@[i as int]);
        }
        i = i + 1;
    }
    proof {
        assert(x@.skip(i as int).len() == x@.len() - i);
        assert(y@.skip(i as int).len() == y@.len() - i);
        if i < x@.len() {
            assert(x@.skip(i as int)[0] == x@[i as int]);
        }
        if i < y@.len() {
            assert(y@.skip(i as int)[0] == y@[i as int]);
        }
    }
    let ghost xs = x@.skip(i as int);
    let ghost ys = y@.skip(i as int);
    if i == x.len() {
        proof {
            assert(xs.len() == 0);
        }
        true
    } else if i == y.len() {
        proof {
            assert(xs.len() > 0 && ys.len() == 0);
        }
        false
    } else {
        let r = x[i] < y[i];
        proof {
            assert(xs[0] == x@[i as int] && ys[0] == y@[i as int]);
            assert(x@[i as int] != y@[i as int]);
            assert(lex_le(xs, ys) == r);
        }
        r
    }
}

/// Whether the texts are in order.
pub open spec fn sorted_texts(s: Seq<Seq<char>>) -> bool {
    forall|i: int, j: int| 0 <= i < j < s.len() ==> lex_le(#[trigger] s[i], #[trigger] s[j])
}

/// The marked changes as the targets of a rebase, in the order of their
/// commit IDs so that the command is the same whatever the order of marking.
pub fn rebase_targets(marks: Vec<CommitId>) -> (res: Vec<CommitId>)
    ensures
        sorted_texts(commit_ids_view(res@)),
        commit_ids_view(res@).to_multiset() == commit_ids_view(marks@).to_multiset(),
{
    broadcast use vstd::seq_lib::group_to_multiset_ensures;
    let mut res: Vec<CommitId> = Vec::new();
    let mut i: usize = 0;
    while i < marks.len()
        invariant
            i <= marks@.len(),
            sorted_texts(commit_ids_view(res@)),
            commit_ids_view(res@).to_multiset() == commit_ids_view(marks@.take(i as int)).to_multiset(),
        decreases marks@.len() - i,
    {
        let x = marks[i].clone();
        let mut p: usize = 0;
        while p < res.len() && lex_le_text(res[p].as_str(), x.as_str())
            invariant
                p <= res@.len(),
                forall|j: int| 0 <= j < p ==> lex_le(#[trigger] res@[j]@, x@),
            decreases res@.len() - p,
        {
            p = p + 1;
        }
        let ghost before = res@;
        proof {
            if p < res@.len() {
                lemma_lex_total(res@[p as int]@, x@);
            }
        }
        res.insert(p, x);
        proof {
            let v = commit_ids_view(res@);
            let bv = commit_ids_view(before);
            assert forall|a: int, b: int| 0 <= a < b < v.len() implies lex_le(#[trigger] v[a], #[trigger] v[b]) by {
                if b < p {
                    assert(v[a] == bv[a] && v[b] == bv[b]);
                } else if b == p {
                    assert(v[a] == bv[a]);
                    assert(res@[a] == before[a]);
                } else if a < p {
                    assert(v[a] == bv[a] && v[b] == bv[b - 1]);
                } else if a == p {
                    assert(v[b] == bv[b - 1]);
                    if b - 1 > p {
                        assert(lex_le(bv[p as int], bv[b - 1]));
                    } else {
                        lemma_lex_reflexive(bv[p as int]);
                    }
                    lemma_lex_transitive(x@, bv[p as int], bv[b - 1]);
                } else {
                    assert(v[a] == bv[a - 1] && v[b] == bv[b - 1]);
                }
            }
            broadcast use vstd::multiset::group_multiset_axioms;
            let xv = marks@[i as int]@;
            let bvv = commit_ids_view(before);
            let t = bvv.take(p as int);
            let k = bvv.skip(p as int);
            assert(commit_ids_view(marks@.take(i + 1)) =~= commit_ids_view(marks@.take(i as int)).push(xv));
            assert(commit_ids_view(res@) =~= t.push(xv) + k);
            assert(bvv =~= t + k);
            vstd::seq_lib::lemma_multiset_commutative(t.push(xv), k);
            vstd::seq_lib::lemma_multiset_commutative(t, k);
            t.to_multiset_ensures();
            commit_ids_view(marks@.take(i as int)).to_multiset_ensures();
            assert(t.push(xv).to_multiset() =~= t.to_multiset().insert(xv));
            assert(commit_ids_view(res@).to_multiset() =~= bvv.to_multiset().insert(xv));
        }
        i = i + 1;
    }
    proof {
        assert(marks@.take(i as int) =~= marks@);
    }
    res
}

/// The revision a squash goes into where changes are marked: the first
/// mark; none where nothing is marked (the squash then goes into the
/// parent).
pub fn squash_target(marks: &[CommitId]) -> (res: Option<&CommitId>)
    ensures
        res == (if marks@.len() > 0 { Some(&marks@[0]) } else { None }),
{
    if marks.len() > 0 {
        Some(&marks[0])
    } else {
        None
    }
}

/// The revisions an operation on the marked changes acts on (a new change,
/// abandoning, simplifying parents): the marks, in the order they were
/// made; the selected change where nothing is marked.
pub fn marked_or_selected(marks: &[CommitId], head: &CommitId) -> (res: Vec<CommitId>)
    ensures
        commit_ids_view(res@) == (if marks@.len() == 0 { seq![head@] } else { commit_ids_view(marks@) }),
{
    let mut res: Vec<CommitId> = Vec::new();
    if marks.len() == 0 {
        res.push(head.clone());
        proof {
            assert(commit_ids_view(res@) =~= seq![head@]);
        }
        return res;
    }
    let mut i: usize = 0;
    while i < marks.len()
        invariant
            i <= marks@.len(),
            res@.len() == i,
            forall|j: int| 0 <= j < i ==> #[trigger] res@[j]@ == marks@[j]@,
        decreases marks@.len() - i,
    {
        res.push(marks[i].clone());
        i = i + 1;
    }
    proof {
        assert(commit_ids_view(res@) =~= commit_ids_view(marks@));
    }
    res
}

/// Whether the commit `id` is among the marks.
pub open spec fn marks_contain(marks: Seq<Seq<char>>, id: Seq<char>) -> bool {
    marks.contains(id)
}

/// Whether the commit `id` is marked.
pub fn is_marked(marks: &[CommitId], id: &CommitId) -> (res: bool)
    ensures
        res == marks_contain(commit_ids_view(marks@), id@),
{
    let ghost ids = commit_ids_view(marks@);
    let mut i: usize = 0;
    while i < marks.len()
        invariant
            i <= marks@.len(),
            ids == commit_ids_view(marks@),
            forall|j: int| 0 <= j < i ==> ids[j] != id@,
        decreases marks@.len() - i,
    {
        if crate::text::same_text(&marks[i].0, &id.0) {
            assert(ids[i as int] == marks@[i as int]@);
            return true;
        }
        i = i + 1;
    }
    false
}

/// Whether the walk to the new selection after abandoning goes on from
/// `selection` to its parent: it does while the selection is itself being
/// abandoned (marked).
pub fn abandon_selection_step(selection: &Head, marks: &[CommitId]) -> (res: bool)
    ensures
        res == marks_contain(commit_ids_view(marks@), selection.commit_id@),
{
    is_marked(marks, &selection.commit_id)
}

/// The marks with `id` toggled: taken out where it is marked (its first
/// place), added at the end otherwise.
pub open spec fn spec_toggle_mark(marks: Seq<Seq<char>>, id: Seq<char>) -> Seq<Seq<char>> {
    match marks.index_of_first(id) {
        Some(i) => marks.remove(i),
        None => marks.push(id),
    }
}

/// Toggle the mark of the commit `id`.
pub fn toggle_mark(marks: &mut Vec<CommitId>, id: &CommitId)
    ensures
        commit_ids_view(final(marks)@) == spec_toggle_mark(commit_ids_view(old(marks)@), id@),
{
    let ghost ids = commit_ids_view(marks@);
    let mut i: usize = 0;
    while i < marks.len()
        invariant
            i <= marks@.len(),
            marks@ == old(marks)@,
            ids == commit_ids_view(marks@),
            forall|j: int| 0 <= j < i ==> ids[j] != id@,
        decreases marks@.len() - i,
    {
        if crate::text::same_text(&marks[i].0, &id.0) {
            proof {
                assert(ids[i as int] == marks@[i as int]@);
                assert(ids.contains(id@));
                ids.index_of_first_ensures(id@);
            }
            marks.remove(i);
            proof {
                assert(commit_ids_view(marks@) =~= ids.remove(i as int));
            }
            return;
        }
        i = i + 1;
    }
    proof {
        ids.index_of_first_ensures(id@);
    }
    marks.push(id.clone());
    proof {
        assert(commit_ids_view(marks@) =~= ids.push(id@));
    }
}

/// Marking a change and marking it again leaves the marks as they were;
/// where no change is marked twice, toggling flips whether it is marked.
pub proof fn lemma_toggle_mark(marks: Seq<Seq<char>>, id: Seq<char>)
    ensures
        !marks.contains(id) ==> spec_toggle_mark(spec_toggle_mark(marks, id), id) == marks,
        marks.no_duplicates() ==> (marks_contain(spec_toggle_mark(marks, id), id) == !marks_contain(marks, id)),
{
    marks.index_of_first_ensures(id);
    if !marks.contains(id) {
        let once = marks.push(id);
        assert(once[marks.len() as int] == id);
        once.index_of_first_ensures(id);
        let i = once.index_of_first(id).unwrap();
        if i < marks.len() {
            assert(marks[i] == id);
        }
        assert(once.remove(marks.len() as int) =~= marks);
    } else if marks.no_duplicates() {
        let i = marks.index_of_first(id).unwrap();
        let r = marks.remove(i);
        if r.contains(id) {
            let j = choose|j: int| 0 <= j < r.len() && r[j] == id;
            if j < i {
                assert(marks[j] == id);
            } else {
                assert(marks[j + 1] == id);
            }
        }
    }
}

/// What is open in the log tab when a key comes: the describe prompt, the
/// revset prompt, the rebase popup, the bookmark popup, a question, and
/// whether the insert flow runs.
#[derive(Debug, Clone, Copy, PartialEq, Eq, Structural)]
pub struct LogTabOpen {
    pub describe: bool,
    pub revset: bool,
    pub rebase: bool,
    pub bookmark_set: bool,
    pub confirm: bool,
    pub inserting: bool,
}

/// Where a key of the log tab goes.
#[derive(Debug, Clone, Copy, PartialEq, Eq, Structural)]
pub enum LogInputTarget {
    /// To the describe prompt.
    DescribePrompt,
    /// To the revset prompt.
    RevsetPrompt,
    /// To the rebase popup.
    RebasePopup,
    /// Nowhere: the rebase popup is open and the key has no shortcut.
    Ignored,
    /// To the bookmark popup.
    BookmarkSet,
    /// The question closes unanswered.
    CloseConfirm,
    /// To the question.
    Confirm,
    /// The insert flow goes on to its next step.
    InsertAdvance,
    /// The insert flow ends, and the marks are cleared.
    InsertCancel,
    /// To the details panel.
    Details(DetailsKey),
    /// The log tab's event for the key.
    Event(LogTabEvent),
}

/// Where a key of the log tab goes, by what is open, in this order: the
/// describe prompt, the revset prompt, the rebase popup, the bookmark
/// popup; a question (closed by the close and cancel keys); the insert
/// flow (Enter advances it, cancel ends it); the details panel's keys; and
/// last the event the key is bound to. `key` is `None` for a key with no
/// [Key]; `event` is the event it is bound to.
pub open spec fn spec_log_input_target(open: LogTabOpen, key: Option<Key>, ctrl: bool, event: LogTabEvent) -> LogInputTarget {
    if open.describe {
        LogInputTarget::DescribePrompt
    } else if open.revset {
        LogInputTarget::RevsetPrompt
    } else if open.rebase {
        if key is Some { LogInputTarget::RebasePopup } else { LogInputTarget::Ignored }
    } else if open.bookmark_set {
        LogInputTarget::BookmarkSet
    } else if open.confirm {
        if event == LogTabEvent::ClosePopup || event == LogTabEvent::Cancel {
            LogInputTarget::CloseConfirm
        } else {
            LogInputTarget::Confirm
        }
    } else if open.inserting && event == LogTabEvent::OpenFiles {
        LogInputTarget::InsertAdvance
    } else if open.inserting && event == LogTabEvent::Cancel {
        LogInputTarget::InsertCancel
    } else {
        match key {
            Some(k) => match spec_details_key(k, ctrl) {
                Some(d) => LogInputTarget::Details(d),
                None => LogInputTarget::Event(event),
            },
            None => LogInputTarget::Event(event),
        }
    }
}

/// Whether a key ends the highlight of the changes the last absorb touched:
/// every key that gets past the prompts and popups does.
pub open spec fn spec_ends_highlight(open: LogTabOpen) -> bool {
    !open.describe && !open.revset && !open.rebase && !open.bookmark_set
}

/// Where a key of the log tab goes, and whether it ends the highlight of
/// the changes the last absorb touched.
pub fn log_input_target(open: LogTabOpen, key: Option<Key>, ctrl: bool, event: LogTabEvent) -> (res: (LogInputTarget, bool))
    ensures
        res == (spec_log_input_target(open, key, ctrl, event), spec_ends_highlight(open)),
{
    let ends = !open.describe && !open.revset && !open.rebase && !open.bookmark_set;
    let target = if open.describe {
        LogInputTarget::DescribePrompt
    } else if open.revset {
        LogInputTarget::RevsetPrompt
    } else if open.rebase {
        if key.is_some() { LogInputTarget::RebasePopup } else { LogInputTarget::Ignored }
    } else if open.bookmark_set {
        LogInputTarget::BookmarkSet
    } else if open.confirm {
        if closes_popup(event) {
            LogInputTarget::CloseConfirm
        } else {
            LogInputTarget::Confirm
        }
    } else {
        let ik = if open.inserting { insert_key(event) } else { InsertKey::PassOn };
        match ik {
            InsertKey::Advance => LogInputTarget::InsertAdvance,
            InsertKey::CancelInsert => LogInputTarget::InsertCancel,
            InsertKey::PassOn => match key {
                Some(k) => match details_key(k, ctrl) {
                    Some(d) => LogInputTarget::Details(d),
                    None => LogInputTarget::Event(event),
                },
                None => LogInputTarget::Event(event),
            },
        }
    };
    (target, ends)
}

} // verus!
