//! The tabs of the application, and what a key that no component handled
//! asks of the application.
use vstd::prelude::*;

use crate::dialogs::spec_step;
use crate::dialogs::step;
use crate::keybinds::Key;
use crate::text::copy_string;

verus! {

/// A tab of the application.
#[derive(Debug, PartialEq, Eq, Structural, Clone, Copy)]
pub enum Tab {
    Log,
    Files,
    Bookmarks,
}

/// The position of a tab among the tabs, in their order.
pub open spec fn tab_index(t: Tab) -> int {
    match t {
        Tab::Log => 0,
        Tab::Files => 1,
        Tab::Bookmarks => 2,
    }
}

/// The tab at a position.
pub open spec fn tab_at(i: int) -> Tab {
    if i == 0 { Tab::Log } else if i == 1 { Tab::Files } else { Tab::Bookmarks }
}

/// The number of tabs.
pub const TAB_COUNT: usize = 3;

/// The tab `offset` places after `current`, wrapping around; the position
/// is taken as `usize`, as the index arithmetic does.
pub open spec fn spec_tab_with_offset(current: Tab, offset: i64) -> Tab {
    tab_at((((tab_index(current) + 3 + offset) as i64) as usize % 3) as int)
}

impl Tab {
    /// The name of the tab.
    pub fn name(&self) -> (res: String)
        ensures
            res@ == (match self {
                Tab::Log => "Log"@,
                Tab::Files => "Files"@,
                Tab::Bookmarks => "Bookmarks"@,
            }),
    {
        match self {
            Tab::Log => copy_string("Log"),
            Tab::Files => copy_string("Files"),
            Tab::Bookmarks => copy_string("Bookmarks"),
        }
    }

    /// The position of the tab among the tabs.
    pub fn index(&self) -> (res: usize)
        ensures
            res == tab_index(*self),
    {
        match self {
            Tab::Log => 0,
            Tab::Files => 1,
            Tab::Bookmarks => 2,
        }
    }

    /// The tab at a position, where there is one.
    pub fn at(i: usize) -> (res: Option<Tab>)
        ensures
            res == (if i < 3 { Some(tab_at(i as int)) } else { None }),
    {
        if i == 0 {
            Some(Tab::Log)
        } else if i == 1 {
            Some(Tab::Files)
        } else if i == 2 {
            Some(Tab::Bookmarks)
        } else {
            None
        }
    }

    /// The tab `offset` places after this one (before it where `offset` is
    /// negative), wrapping around.
    pub fn with_offset(&self, offset: i64) -> (res: Tab)
        requires
            tab_index(*self) + 3 + offset <= i64::MAX,
        ensures
            res == spec_tab_with_offset(*self, offset),
    {
        let i = self.index() as i64;
        let n = ((i + 3 + offset) as usize) % 3;
        match Tab::at(n) {
            Some(t) => t,
            None => Tab::Log,
        }
    }
}

/// When the application started.
#[verifier::external_type_specification]
#[verifier::external_body]
pub struct ExInstant(std::time::Instant);

/// Statistics of the running application.
pub struct Stats {
    pub start_time: std::time::Instant,
}

/// What a key that no component handled asks of the application.
#[derive(Debug, PartialEq, Eq, Structural, Clone, Copy)]
pub enum GlobalAction {
    /// Leave the application.
    Quit,
    /// Switch to the tab at an offset from the current one.
    SwitchBy(i64),
    /// Switch to a tab.
    SwitchTo(Tab),
    /// Open the popup that runs a jj command.
    CommandPopup,
    /// Nothing.
    Ignore,
}

/// What a key that no component handled asks of the application: `q`, Esc
/// and ctrl+c quit; `l` and `h` switch to the next and previous tab; the
/// digits `1` to `3` switch to that tab; `:` opens the command popup.
pub open spec fn spec_global_action(key: Key, ctrl: bool) -> GlobalAction {
    if key == Key::Char('q') || (ctrl && key == Key::Char('c')) || key == Key::Esc {
        GlobalAction::Quit
    } else if key == Key::Char('l') {
        GlobalAction::SwitchBy(1i64)
    } else if key == Key::Char('h') {
        GlobalAction::SwitchBy(-1i64)
    } else if key == Key::Char('1') {
        GlobalAction::SwitchTo(Tab::Log)
    } else if key == Key::Char('2') {
        GlobalAction::SwitchTo(Tab::Files)
    } else if key == Key::Char('3') {
        GlobalAction::SwitchTo(Tab::Bookmarks)
    } else if key == Key::Char(':') {
        GlobalAction::CommandPopup
    } else {
        GlobalAction::Ignore
    }
}

/// What a pressed key that no component handled asks of the application.
pub fn global_action(key: Key, ctrl: bool) -> (res: GlobalAction)
    ensures
        res == spec_global_action(key, ctrl),
{
    if key == Key::Char('q') || (ctrl && key == Key::Char('c')) || key == Key::Esc {
        GlobalAction::Quit
    } else if key == Key::Char('l') {
        GlobalAction::SwitchBy(1i64)
    } else if key == Key::Char('h') {
        GlobalAction::SwitchBy(-1i64)
    } else if key == Key::Char('1') {
        GlobalAction::SwitchTo(Tab::Log)
    } else if key == Key::Char('2') {
        GlobalAction::SwitchTo(Tab::Files)
    } else if key == Key::Char('3') {
        GlobalAction::SwitchTo(Tab::Bookmarks)
    } else if key == Key::Char(':') {
        GlobalAction::CommandPopup
    } else {
        GlobalAction::Ignore
    }
}

/// Whether a pressed key that a popup did not handle closes it: `y`, `n`,
/// `o`, Enter, `q` and Esc do.
pub fn popup_closes(key: Key) -> (res: bool)
    ensures
        res == (key == Key::Char('y') || key == Key::Char('n') || key == Key::Char('o') || key == Key::Enter
            || key == Key::Char('q') || key == Key::Esc),
{
    key == Key::Char('y') || key == Key::Char('n') || key == Key::Char('o') || key == Key::Enter
        || key == Key::Char('q') || key == Key::Esc
}

/// Going to the next tab and back again returns to the same tab; three
/// steps in one direction return to it too.
pub proof fn lemma_tab_offsets(t: Tab)
    ensures
        spec_tab_with_offset(spec_tab_with_offset(t, 1i64), -1i64) == t,
        spec_tab_with_offset(spec_tab_with_offset(t, -1i64), 1i64) == t,
        spec_tab_with_offset(spec_tab_with_offset(spec_tab_with_offset(t, 1i64), 1i64), 1i64) == t,
        spec_tab_with_offset(t, 0i64) == t,
{
}

/// The position a list of `len` items selects after scrolling by `scroll`
/// from `current`: none in an empty list; the first where nothing was
/// selected; else the position moved, within the list.
pub open spec fn spec_scroll_target(len: nat, current: Option<usize>, scroll: isize) -> Option<usize> {
    if len == 0 {
        None
    } else {
        match current {
            Some(c) => {
                let s = spec_step(c, scroll);
                Some(if s > len - 1 { (len - 1) as usize } else { s })
            },
            None => Some(0),
        }
    }
}

/// The position selected after scrolling by `scroll` from `current`.
pub fn scroll_target(len: usize, current: Option<usize>, scroll: isize) -> (res: Option<usize>)
    ensures
        res == spec_scroll_target(len as nat, current, scroll),
        res matches Some(i) ==> i < len,
{
    if len == 0 {
        return None;
    }
    match current {
        Some(c) => {
            let s = step(c, scroll);
            Some(if s > len - 1 { len - 1 } else { s })
        },
        None => Some(0),
    }
}

/// Half of a pane's height, in rows: how far `J` and `K` scroll.
pub fn half_page(height: u16) -> (res: isize)
    ensures
        res == height / 2,
{
    (height / 2) as isize
}

/// What a key asks of a details panel.
#[derive(Debug, Clone, Copy, PartialEq, Eq, Structural)]
pub enum DetailsKey {
    /// Scroll by one line, down or up.
    Line(bool),
    /// Scroll by half the panel, down or up.
    HalfPage(bool),
    /// Scroll by the panel's height, down or up.
    Page(bool),
    /// Wrap long lines, or stop wrapping them.
    ToggleWrap,
}

/// The details panel's own keys: Ctrl+e/y by a line, Ctrl+d/u by half the
/// panel, Ctrl+f/b by the panel (down/up); `W` toggles wrapping.
pub open spec fn spec_details_key(key: Key, ctrl: bool) -> Option<DetailsKey> {
    if ctrl && key == Key::Char('e') {
        Some(DetailsKey::Line(true))
    } else if ctrl && key == Key::Char('y') {
        Some(DetailsKey::Line(false))
    } else if ctrl && key == Key::Char('d') {
        Some(DetailsKey::HalfPage(true))
    } else if ctrl && key == Key::Char('u') {
        Some(DetailsKey::HalfPage(false))
    } else if ctrl && key == Key::Char('f') {
        Some(DetailsKey::Page(true))
    } else if ctrl && key == Key::Char('b') {
        Some(DetailsKey::Page(false))
    } else if key == Key::Char('W') {
        Some(DetailsKey::ToggleWrap)
    } else {
        None
    }
}

/// What a key asks of a details panel, where it is one of the panel's keys.
pub fn details_key(key: Key, ctrl: bool) -> (res: Option<DetailsKey>)
    ensures
        res == spec_details_key(key, ctrl),
{
    if ctrl && key == Key::Char('e') {
        Some(DetailsKey::Line(true))
    } else if ctrl && key == Key::Char('y') {
        Some(DetailsKey::Line(false))
    } else if ctrl && key == Key::Char('d') {
        Some(DetailsKey::HalfPage(true))
    } else if ctrl && key == Key::Char('u') {
        Some(DetailsKey::HalfPage(false))
    } else if ctrl && key == Key::Char('f') {
        Some(DetailsKey::Page(true))
    } else if ctrl && key == Key::Char('b') {
        Some(DetailsKey::Page(false))
    } else if key == Key::Char('W') {
        Some(DetailsKey::ToggleWrap)
    } else {
        None
    }
}

/// The answer a key gives to a yes/no question.
#[derive(Debug, Clone, Copy, PartialEq, Eq, Structural)]
pub enum ConfirmAnswer {
    Yes,
    No,
    /// The question stays open.
    Open,
}

/// A key pressed at a yes/no question where `yes_selected` says which
/// button is selected: `y` answers yes; `n`, `q` and Esc answer no; Left,
/// Right, Tab, `h` and `l` move to the other button; Enter answers with the
/// selected button; other keys leave the question as it is. The result is
/// the selected button afterwards and the answer.
pub open spec fn spec_confirm_step(yes_selected: bool, key: Key) -> (bool, ConfirmAnswer) {
    if key == Key::Char('y') {
        (yes_selected, ConfirmAnswer::Yes)
    } else if key == Key::Char('n') || key == Key::Esc || key == Key::Char('q') {
        (yes_selected, ConfirmAnswer::No)
    } else if key == Key::Left || key == Key::Right || key == Key::Tab || key == Key::Char('h')
        || key == Key::Char('l') {
        (!yes_selected, ConfirmAnswer::Open)
    } else if key == Key::Enter {
        (yes_selected, if yes_selected { ConfirmAnswer::Yes } else { ConfirmAnswer::No })
    } else {
        (yes_selected, ConfirmAnswer::Open)
    }
}

/// A key pressed at a yes/no question.
pub fn confirm_step(yes_selected: bool, key: Key) -> (res: (bool, ConfirmAnswer))
    ensures
        res == spec_confirm_step(yes_selected, key),
{
    if key == Key::Char('y') {
        (yes_selected, ConfirmAnswer::Yes)
    } else if key == Key::Char('n') || key == Key::Esc || key == Key::Char('q') {
        (yes_selected, ConfirmAnswer::No)
    } else if key == Key::Left || key == Key::Right || key == Key::Tab || key == Key::Char('h')
        || key == Key::Char('l') {
        (!yes_selected, ConfirmAnswer::Open)
    } else if key == Key::Enter {
        (yes_selected, if yes_selected { ConfirmAnswer::Yes } else { ConfirmAnswer::No })
    } else {
        (yes_selected, ConfirmAnswer::Open)
    }
}

} // verus!
