//! Keyboard shortcuts, their configuration, and the log tab's key bindings.
use vstd::prelude::*;

use crate::text::chars_eq;
use crate::text::chars_of;
use crate::text::decimal;
use crate::text::decimal_string;
use crate::text::split_chars;
use crate::text::split_on;
use crate::text::find_char;
use crate::text::lemma_find_char_is;
use crate::text::copy_string;
use crate::text::join;
use crate::text::lemma_join_push;

verus! {

/// A key of the keyboard.
#[derive(Clone, Copy, Debug, PartialEq, Eq, Structural, Hash)]
pub enum Key {
    Char(char),
    Enter,
    Esc,
    Backspace,
    Tab,
    BackTab,
    Up,
    Down,
    Left,
    Right,
    Home,
    End,
    PageUp,
    PageDown,
    Delete,
    Insert,
    F(u8),
}

/// A key together with the modifiers held with it.
#[derive(Clone, Copy, Debug, PartialEq, Eq, Structural, Hash)]
pub struct Shortcut {
    pub key: Key,
    pub ctrl: bool,
    pub shift: bool,
    pub alt: bool,
}

/// Whether `c` is an ASCII capital letter.
pub open spec fn is_upper(c: char) -> bool {
    'A' <= c && c <= 'Z'
}

/// Whether `c` is an ASCII small letter.
pub open spec fn is_lower(c: char) -> bool {
    'a' <= c && c <= 'z'
}

/// The small letter of an ASCII capital letter.
pub open spec fn to_lower(c: char) -> char {
    (c as int + 32) as char
}

/// A shortcut in its normal form: a capital letter is its small letter with
/// shift, and shift is not part of other characters (the character already
/// says whether it was typed with shift).
pub open spec fn normalized(key: Key, ctrl: bool, shift: bool, alt: bool) -> Shortcut {
    match key {
        Key::Char(c) => if is_upper(c) {
            Shortcut { key: Key::Char(to_lower(c)), ctrl, shift: true, alt }
        } else if is_lower(c) {
            Shortcut { key, ctrl, shift, alt }
        } else {
            Shortcut { key, ctrl, shift: false, alt }
        },
        _ => Shortcut { key, ctrl, shift, alt },
    }
}

/// The name of a key, as written in the configuration.
pub open spec fn key_name(key: Key) -> Seq<char> {
    match key {
        Key::Char(c) => if c == ' ' { "space"@ } else { seq![c] },
        Key::Enter => "enter"@,
        Key::Esc => "esc"@,
        Key::Backspace => "backspace"@,
        Key::Tab => "tab"@,
        Key::BackTab => "backtab"@,
        Key::Up => "up"@,
        Key::Down => "down"@,
        Key::Left => "left"@,
        Key::Right => "right"@,
        Key::Home => "home"@,
        Key::End => "end"@,
        Key::PageUp => "pageup"@,
        Key::PageDown => "pagedown"@,
        Key::Delete => "delete"@,
        Key::Insert => "insert"@,
        Key::F(n) => seq!['f'] + decimal(n as nat),
    }
}

/// The function key `f<n>` for the first `n` from `from` to 12 whose name is `name`.
pub open spec fn fkey_of_name(name: Seq<char>, from: u8) -> Option<Key>
    decreases 13 - from,
{
    if from < 1 || from > 12 {
        None
    } else if name == key_name(Key::F(from)) {
        Some(Key::F(from))
    } else {
        fkey_of_name(name, (from + 1) as u8)
    }
}

/// The key a name stands for: a single character, `space`, a named key, or
/// a function key `f1` to `f12`.
pub open spec fn key_of_name(name: Seq<char>) -> Option<Key> {
    if name.len() == 1 {
        Some(Key::Char(name[0]))
    } else if name == "space"@ {
        Some(Key::Char(' '))
    } else if name == "enter"@ {
        Some(Key::Enter)
    } else if name == "esc"@ {
        Some(Key::Esc)
    } else if name == "backspace"@ {
        Some(Key::Backspace)
    } else if name == "tab"@ {
        Some(Key::Tab)
    } else if name == "backtab"@ {
        Some(Key::BackTab)
    } else if name == "up"@ {
        Some(Key::Up)
    } else if name == "down"@ {
        Some(Key::Down)
    } else if name == "left"@ {
        Some(Key::Left)
    } else if name == "right"@ {
        Some(Key::Right)
    } else if name == "home"@ {
        Some(Key::Home)
    } else if name == "end"@ {
        Some(Key::End)
    } else if name == "pageup"@ {
        Some(Key::PageUp)
    } else if name == "pagedown"@ {
        Some(Key::PageDown)
    } else if name == "delete"@ {
        Some(Key::Delete)
    } else if name == "insert"@ {
        Some(Key::Insert)
    } else {
        fkey_of_name(name, 1)
    }
}

/// Whether `m` names a modifier.
pub open spec fn is_modifier(m: Seq<char>) -> bool {
    m == "ctrl"@ || m == "shift"@ || m == "alt"@
}

/// The shortcut a text such as `ctrl+s`, `shift+j` or `enter` stands for:
/// modifiers joined by `+` before a key name.
pub open spec fn spec_parse_shortcut(text: Seq<char>) -> Option<Shortcut> {
    let parts = split_on(text, '+');
    let mods = parts.drop_last();
    if parts.len() == 0 || !(forall|i: int| 0 <= i < mods.len() ==> is_modifier(#[trigger] mods[i])) {
        None
    } else {
        match key_of_name(parts.last()) {
            Some(k) => Some(normalized(k, mods.contains("ctrl"@), mods.contains("shift"@), mods.contains("alt"@))),
            None => None,
        }
    }
}

/// How a shortcut is written: `ctrl+`, `alt+`, `shift+` before the key name.
pub open spec fn shortcut_text(s: Shortcut) -> Seq<char> {
    (if s.ctrl { "ctrl+"@ } else { Seq::empty() }) + (if s.alt { "alt+"@ } else { Seq::empty() })
        + (if s.shift { "shift+"@ } else { Seq::empty() }) + key_name(s.key)
}

fn lower_ascii(c: char) -> (res: char)
    requires
        is_upper(c),
    ensures
        res == to_lower(c),
{
    let b = c as u8;
    (b + 32) as char
}

/// The name of a key.
pub fn key_name_of(key: Key) -> (res: String)
    ensures
        res@ == key_name(key),
{
    match key {
        Key::Char(c) => {
            if c == ' ' {
                crate::text::copy_string("space")
            } else {
                let mut s = String::new();
                s.push(c);
                s
            }
        },
        Key::Enter => crate::text::copy_string("enter"),
        Key::Esc => crate::text::copy_string("esc"),
        Key::Backspace => crate::text::copy_string("backspace"),
        Key::Tab => crate::text::copy_string("tab"),
        Key::BackTab => crate::text::copy_string("backtab"),
        Key::Up => crate::text::copy_string("up"),
        Key::Down => crate::text::copy_string("down"),
        Key::Left => crate::text::copy_string("left"),
        Key::Right => crate::text::copy_string("right"),
        Key::Home => crate::text::copy_string("home"),
        Key::End => crate::text::copy_string("end"),
        Key::PageUp => crate::text::copy_string("pageup"),
        Key::PageDown => crate::text::copy_string("pagedown"),
        Key::Delete => crate::text::copy_string("delete"),
        Key::Insert => crate::text::copy_string("insert"),
        Key::F(n) => {
            let mut s = String::new();
            s.push('f');
            let d = decimal_string(n as usize);
            s.push_str(d.as_str());
            s
        },
    }
}

/// The key a name stands for.
pub fn key_of_name_chars(name: &[char]) -> (res: Option<Key>)
    ensures
        res == key_of_name(name@),
{
    if name.len() == 1 {
        return Some(Key::Char(name[0]));
    }
    if chars_eq(name, "space") {
        return Some(Key::Char(' '));
    }
    if chars_eq(name, "enter") {
        return Some(Key::Enter);
    }
    if chars_eq(name, "esc") {
        return Some(Key::Esc);
    }
    if chars_eq(name, "backspace") {
        return Some(Key::Backspace);
    }
    if chars_eq(name, "tab") {
        return Some(Key::Tab);
    }
    if chars_eq(name, "backtab") {
        return Some(Key::BackTab);
    }
    if chars_eq(name, "up") {
        return Some(Key::Up);
    }
    if chars_eq(name, "down") {
        return Some(Key::Down);
    }
    if chars_eq(name, "left") {
        return Some(Key::Left);
    }
    if chars_eq(name, "right") {
        return Some(Key::Right);
    }
    if chars_eq(name, "home") {
        return Some(Key::Home);
    }
    if chars_eq(name, "end") {
        return Some(Key::End);
    }
    if chars_eq(name, "pageup") {
        return Some(Key::PageUp);
    }
    if chars_eq(name, "pagedown") {
        return Some(Key::PageDown);
    }
    if chars_eq(name, "delete") {
        return Some(Key::Delete);
    }
    if chars_eq(name, "insert") {
        return Some(Key::Insert);
    }
    fkey_of_name_chars(name)
}

/// The function key named `name`, if any.
fn fkey_of_name_chars(name: &[char]) -> (res: Option<Key>)
    ensures
        res == fkey_of_name(name@, 1),
{
    let mut n: u8 = 1;
    while n <= 12
        invariant
            1 <= n <= 13,
            fkey_of_name(name@, 1) == fkey_of_name(name@, n),
        decreases 13 - n,
    {
        let text = key_name_of(Key::F(n));
        if chars_eq(name, text.as_str()) {
            return Some(Key::F(n));
        }
        n = n + 1;
    }
    None
}

impl Shortcut {
    /// The shortcut for a key pressed with the given modifiers, in normal form.
    pub fn new(key: Key, ctrl: bool, shift: bool, alt: bool) -> (res: Shortcut)
        ensures
            res == normalized(key, ctrl, shift, alt),
    {
        match key {
            Key::Char(c) => {
                if 'A' <= c && c <= 'Z' {
                    Shortcut { key: Key::Char(lower_ascii(c)), ctrl, shift: true, alt }
                } else if 'a' <= c && c <= 'z' {
                    Shortcut { key, ctrl, shift, alt }
                } else {
                    Shortcut { key, ctrl, shift: false, alt }
                }
            },
            _ => Shortcut { key, ctrl, shift, alt },
        }
    }

    /// The shortcut a text such as `ctrl+s`, `shift+j` or `enter` stands for.
    pub fn parse(text: &str) -> (res: Option<Shortcut>)
        ensures
            res == spec_parse_shortcut(text@),
    {
        let t = chars_of(text);
        let parts = split_chars(&t, '+');
        let ghost pv = split_on(t@, '+');
        if parts.len() == 0 {
            return None;
        }
        let ghost mods = pv.drop_last();
        let last = parts.len() - 1;
        let mut ctrl = false;
        let mut shift = false;
        let mut alt = false;
        let mut i: usize = 0;
        while i < last
            invariant
                last == parts@.len() - 1,
                i <= last,
                pv == split_on(t@, '+'),
                t@ == text@,
                mods == pv.drop_last(),
                parts@.len() == pv.len(),
                forall|j: int| 0 <= j < parts@.len() ==> #[trigger] parts@[j]@ == pv[j],
                forall|j: int| 0 <= j < i ==> is_modifier(#[trigger] mods[j]),
                ctrl == mods.take(i as int).contains("ctrl"@),
                shift == mods.take(i as int).contains("shift"@),
                alt == mods.take(i as int).contains("alt"@),
            decreases last - i,
        {
            proof {
                reveal_strlit("ctrl");
                reveal_strlit("shift");
                reveal_strlit("alt");
                assert(mods[i as int] == parts@[i as int]@);
                assert(mods.take(i + 1) =~= mods.take(i as int).push(mods[i as int]));
                broadcast use vstd::seq_lib::lemma_seq_contains_after_push;
            }
            if chars_eq(&parts[i], "ctrl") {
                ctrl = true;
            } else if chars_eq(&parts[i], "shift") {
                shift = true;
            } else if chars_eq(&parts[i], "alt") {
                alt = true;
            } else {
                return None;
            }
            i = i + 1;
        }
        proof {
            assert(mods.take(i as int) =~= mods);
            assert(pv.last() == parts@[last as int]@);
        }
        match key_of_name_chars(&parts[last]) {
            Some(k) => Some(Shortcut::new(k, ctrl, shift, alt)),
            None => None,
        }
    }

    /// How the shortcut is written.
    pub fn to_text(&self) -> (res: String)
        ensures
            res@ == shortcut_text(*self),
    {
        let mut res = String::new();
        if self.ctrl {
            res.push_str("ctrl+");
        }
        if self.alt {
            res.push_str("alt+");
        }
        if self.shift {
            res.push_str("shift+");
        }
        let name = key_name_of(self.key);
        res.push_str(name.as_str());
        proof {
            assert(res@ =~= shortcut_text(*self));
        }
        res
    }
}

/// A configured key binding: one shortcut, several, or `true`/`false`
/// (`false` disables the action).
#[derive(Debug, Clone)]
pub enum Keybind {
    Single(Shortcut),
    Multiple(Vec<Shortcut>),
    Enable(bool),
}

/// The key bindings of the configuration: scroll bindings shared by all
/// scrollable components, and sections for the log tab and the message popup.
#[derive(Debug, Clone)]
pub struct KeybindsConfig {
    pub scroll_down: Option<Keybind>,
    pub scroll_up: Option<Keybind>,
    pub scroll_down_half: Option<Keybind>,
    pub scroll_up_half: Option<Keybind>,
    pub log_tab: Option<LogTabKeybindsConfig>,
    pub message_popup: Option<MessagePopupKeybindsConfig>,
}

impl Default for KeybindsConfig {
    fn default() -> (res: Self)
        ensures
            res.scroll_down is None,
            res.scroll_up is None,
            res.scroll_down_half is None,
            res.scroll_up_half is None,
            res.log_tab is None,
            res.message_popup is None,
    {
        KeybindsConfig {
            scroll_down: None,
            scroll_up: None,
            scroll_down_half: None,
            scroll_up_half: None,
            log_tab: None,
            message_popup: None,
        }
    }
}

/// The key bindings of the message popup.
#[derive(Debug, Clone)]
pub struct MessagePopupKeybindsConfig {
    pub scroll_down: Option<Keybind>,
    pub scroll_up: Option<Keybind>,
    pub scroll_down_half: Option<Keybind>,
    pub scroll_up_half: Option<Keybind>,
    pub scroll_down_page: Option<Keybind>,
    pub scroll_up_page: Option<Keybind>,
}

/// The key bindings of the log tab.
#[derive(Debug, Clone)]
pub struct LogTabKeybindsConfig {
    pub save: Option<Keybind>,
    pub cancel: Option<Keybind>,
    pub close_popup: Option<Keybind>,
    pub scroll_down: Option<Keybind>,
    pub scroll_up: Option<Keybind>,
    pub scroll_down_half: Option<Keybind>,
    pub scroll_up_half: Option<Keybind>,
    pub focus_current: Option<Keybind>,
    pub toggle_diff_format: Option<Keybind>,
    pub refresh: Option<Keybind>,
    pub duplicate: Option<Keybind>,
    pub create_new: Option<Keybind>,
    pub create_new_describe: Option<Keybind>,
    pub squash: Option<Keybind>,
    pub squash_ignore_immutable: Option<Keybind>,
    pub edit_change: Option<Keybind>,
    pub edit_change_ignore_immutable: Option<Keybind>,
    pub abandon: Option<Keybind>,
    pub absorb: Option<Keybind>,
    pub simplify_parents: Option<Keybind>,
    pub simplify_parents_descendants: Option<Keybind>,
    pub resolve: Option<Keybind>,
    pub resolve_destination: Option<Keybind>,
    pub undo: Option<Keybind>,
    pub redo: Option<Keybind>,
    pub metaedit_update_change_id: Option<Keybind>,
    pub metaedit_update_change_id_ignore_immutable: Option<Keybind>,
    pub insert_new: Option<Keybind>,
    pub insert_move: Option<Keybind>,
    pub describe: Option<Keybind>,
    pub edit_revset: Option<Keybind>,
    pub set_bookmark: Option<Keybind>,
    pub open_files: Option<Keybind>,
    pub copy_change_id: Option<Keybind>,
    pub copy_rev: Option<Keybind>,
    pub rebase: Option<Keybind>,
    pub push: Option<Keybind>,
    pub push_all: Option<Keybind>,
    pub fetch: Option<Keybind>,
    pub fetch_all: Option<Keybind>,
    pub open_help: Option<Keybind>,
}

/// What a key pressed in the log tab asks for.
#[derive(Debug, PartialEq, Eq, Structural, Clone, Copy)]
pub enum LogTabEvent {
    Save,
    Cancel,
    ClosePopup,
    ScrollDown,
    ScrollUp,
    ScrollDownHalf,
    ScrollUpHalf,
    ScrollToBottom,
    ScrollToTop,
    FocusCurrent,
    ToggleHeadMark,
    ToggleDiffFormat,
    Refresh,
    CreateNew { describe: bool },
    InsertNew,
    InsertMove,
    Duplicate,
    Rebase,
    Squash { ignore_immutable: bool },
    EditChange { ignore_immutable: bool },
    Abandon,
    Absorb,
    SimplifyParents { include_descendants: bool },
    ResolveConflicts { keep_destination: bool },
    Undo,
    Redo,
    MetaeditUpdateChangeId { ignore_immutable: bool },
    Describe,
    EditRevset,
    SetBookmark,
    OpenFiles,
    CopyChangeId,
    CopyRev,
    Push { all_bookmarks: bool },
    Fetch { all_remotes: bool },
    OpenHelp,
    Unbound,
}

/// The event of pushing to the remote, of all bookmarks or of the current one.
pub fn event_push(all_bookmarks: bool) -> (res: LogTabEvent)
    ensures
        res == (LogTabEvent::Push { all_bookmarks }),
{
    LogTabEvent::Push { all_bookmarks }
}

/// The event that the last binding of `k` in `s` leads to.
pub open spec fn lookup<E>(s: Seq<(Shortcut, E)>, k: Shortcut) -> Option<E>
    decreases s.len(),
{
    if s.len() == 0 {
        None
    } else if s.last().0 == k {
        Some(s.last().1)
    } else {
        lookup(s.drop_last(), k)
    }
}

/// The bindings of `s` that are not of the shortcut `k`.
pub open spec fn without_key<E>(s: Seq<(Shortcut, E)>, k: Shortcut) -> Seq<(Shortcut, E)>
    decreases s.len(),
{
    if s.len() == 0 {
        s
    } else if s.last().0 == k {
        without_key(s.drop_last(), k)
    } else {
        without_key(s.drop_last(), k).push(s.last())
    }
}

/// The bindings of `s` that do not lead to `e`.
pub open spec fn without_event<E>(s: Seq<(Shortcut, E)>, e: E) -> Seq<(Shortcut, E)>
    decreases s.len(),
{
    if s.len() == 0 {
        s
    } else if s.last().1 == e {
        without_event(s.drop_last(), e)
    } else {
        without_event(s.drop_last(), e).push(s.last())
    }
}

/// The shortcuts of `s` that lead to `e`, in the order they were bound.
pub open spec fn keys_of<E>(s: Seq<(Shortcut, E)>, e: E) -> Seq<Shortcut>
    decreases s.len(),
{
    if s.len() == 0 {
        Seq::empty()
    } else if s.last().1 == e {
        keys_of(s.drop_last(), e).push(s.last().0)
    } else {
        keys_of(s.drop_last(), e)
    }
}

/// `s` with `k` bound to `e`, in place of what `k` was bound to before.
pub open spec fn bind<E>(s: Seq<(Shortcut, E)>, k: Shortcut, e: E) -> Seq<(Shortcut, E)> {
    without_key(s, k).push((k, e))
}

/// `s` with each shortcut of `ks` bound to `e`, in order.
pub open spec fn bind_all<E>(s: Seq<(Shortcut, E)>, ks: Seq<Shortcut>, e: E) -> Seq<(Shortcut, E)>
    decreases ks.len(),
{
    if ks.len() == 0 {
        s
    } else {
        bind(bind_all(s, ks.drop_last(), e), ks.last(), e)
    }
}

/// `s` after the configured binding `kb` of `e`: nothing configured and
/// `true` keep the bindings of `e`; `false` removes them; one shortcut or a
/// list of shortcuts take their place.
pub open spec fn update<E>(s: Seq<(Shortcut, E)>, e: E, kb: Option<Keybind>) -> Seq<(Shortcut, E)> {
    match kb {
        None => s,
        Some(Keybind::Enable(true)) => s,
        Some(Keybind::Enable(false)) => without_event(s, e),
        Some(Keybind::Single(k)) => bind(without_event(s, e), k, e),
        Some(Keybind::Multiple(ks)) => bind_all(without_event(s, e), ks@, e),
    }
}

/// An event that shortcuts are bound to.
pub trait BoundEvent: Copy + Sized {
    /// Whether two events are the same.
    fn same(&self, other: &Self) -> (res: bool)
        ensures
            res == (*self == *other);
}

impl BoundEvent for LogTabEvent {
    fn same(&self, other: &Self) -> (res: bool) {
        *self == *other
    }
}

/// Bindings from shortcuts to events, in the order they were made.
pub struct KeybindsStore<E> {
    bindings: Vec<(Shortcut, E)>,
}

impl<E> View for KeybindsStore<E> {
    type V = Seq<(Shortcut, E)>;

    closed spec fn view(&self) -> Seq<(Shortcut, E)> {
        self.bindings@
    }
}

impl<E: BoundEvent> KeybindsStore<E> {
    /// A store without bindings.
    pub fn new() -> (res: KeybindsStore<E>)
        ensures
            res@ == Seq::<(Shortcut, E)>::empty(),
    {
        KeybindsStore { bindings: Vec::new() }
    }

    /// Add a binding after the others, whatever `k` is bound to already.
    fn push(&mut self, k: Shortcut, e: E)
        ensures
            final(self)@ == old(self)@.push((k, e)),
    {
        self.bindings.push((k, e));
    }

    /// Bind `k` to `e`, in place of what `k` was bound to.
    pub fn bind(&mut self, k: Shortcut, e: E)
        ensures
            final(self)@ == bind(old(self)@, k, e),
    {
        let mut kept: Vec<(Shortcut, E)> = Vec::new();
        let mut i: usize = 0;
        while i < self.bindings.len()
            invariant
                i <= self.bindings@.len(),
                self.bindings@ == old(self)@,
                kept@ == without_key(self.bindings@.take(i as int), k),
            decreases self.bindings@.len() - i,
        {
            proof {
                assert(self.bindings@.take(i + 1).drop_last() =~= self.bindings@.take(i as int));
            }
            let b = self.bindings[i];
            if b.0 != k {
                kept.push(b);
            }
            i = i + 1;
        }
        proof {
            assert(self.bindings@.take(i as int) =~= self.bindings@);
        }
        kept.push((k, e));
        self.bindings = kept;
    }

    /// Remove every binding of `e`.
    pub fn unbind_event(&mut self, e: E)
        ensures
            final(self)@ == without_event(old(self)@, e),
    {
        let mut kept: Vec<(Shortcut, E)> = Vec::new();
        let mut i: usize = 0;
        while i < self.bindings.len()
            invariant
                i <= self.bindings@.len(),
                self.bindings@ == old(self)@,
                kept@ == without_event(self.bindings@.take(i as int), e),
            decreases self.bindings@.len() - i,
        {
            proof {
                assert(self.bindings@.take(i + 1).drop_last() =~= self.bindings@.take(i as int));
            }
            let b = self.bindings[i];
            if !b.1.same(&e) {
                kept.push(b);
            }
            i = i + 1;
        }
        proof {
            assert(self.bindings@.take(i as int) =~= self.bindings@);
        }
        self.bindings = kept;
    }

    /// Apply the configured binding `kb` of `e`.
    pub fn update(&mut self, e: E, kb: &Option<Keybind>)
        ensures
            final(self)@ == update(old(self)@, e, *kb),
    {
        match kb {
            None => {},
            Some(Keybind::Enable(true)) => {},
            Some(Keybind::Enable(false)) => {
                self.unbind_event(e);
            },
            Some(Keybind::Single(k)) => {
                self.unbind_event(e);
                self.bind(*k, e);
            },
            Some(Keybind::Multiple(ks)) => {
                self.unbind_event(e);
                let ghost start = self@;
                let mut i: usize = 0;
                while i < ks.len()
                    invariant
                        i <= ks@.len(),
                        self@ == bind_all(start, ks@.take(i as int), e),
                    decreases ks@.len() - i,
                {
                    proof {
                        assert(ks@.take(i + 1).drop_last() =~= ks@.take(i as int));
                    }
                    self.bind(ks[i], e);
                    i = i + 1;
                }
                proof {
                    assert(ks@.take(i as int) =~= ks@);
                }
            },
        }
    }

    /// The event the shortcut `k` is bound to.
    pub fn lookup(&self, k: Shortcut) -> (res: Option<E>)
        ensures
            res == lookup(self@, k),
    {
        let mut res: Option<E> = None;
        let mut i: usize = 0;
        while i < self.bindings.len()
            invariant
                i <= self.bindings@.len(),
                res == lookup(self.bindings@.take(i as int), k),
            decreases self.bindings@.len() - i,
        {
            proof {
                assert(self.bindings@.take(i + 1).drop_last() =~= self.bindings@.take(i as int));
            }
            let b = self.bindings[i];
            if b.0 == k {
                res = Some(b.1);
            }
            i = i + 1;
        }
        proof {
            assert(self.bindings@.take(i as int) =~= self.bindings@);
        }
        res
    }

    /// The shortcuts bound to `e`, in the order they were bound.
    pub fn keys_of(&self, e: E) -> (res: Vec<Shortcut>)
        ensures
            res@ == keys_of(self@, e),
    {
        let mut res: Vec<Shortcut> = Vec::new();
        let mut i: usize = 0;
        while i < self.bindings.len()
            invariant
                i <= self.bindings@.len(),
                res@ == keys_of(self.bindings@.take(i as int), e),
            decreases self.bindings@.len() - i,
        {
            proof {
                assert(self.bindings@.take(i + 1).drop_last() =~= self.bindings@.take(i as int));
            }
            let b = self.bindings[i];
            if b.1.same(&e) {
                res.push(b.0);
            }
            i = i + 1;
        }
        proof {
            assert(self.bindings@.take(i as int) =~= self.bindings@);
        }
        res
    }
}

/// The bindings of the log tab before any configuration.
pub open spec fn default_bindings() -> Seq<(Shortcut, LogTabEvent)> {
    seq![
        (normalized(Key::Char('s'), true, false, false), LogTabEvent::Save),
        (normalized(Key::Esc, false, false, false), LogTabEvent::Cancel),
        (normalized(Key::Char('q'), false, false, false), LogTabEvent::ClosePopup),
        (normalized(Key::Char('j'), false, false, false), LogTabEvent::ScrollDown),
        (normalized(Key::Down, false, false, false), LogTabEvent::ScrollDown),
        (normalized(Key::Char('k'), false, false, false), LogTabEvent::ScrollUp),
        (normalized(Key::Up, false, false, false), LogTabEvent::ScrollUp),
        (normalized(Key::Char('j'), false, true, false), LogTabEvent::ScrollDownHalf),
        (normalized(Key::Char('k'), false, true, false), LogTabEvent::ScrollUpHalf),
        (normalized(Key::End, true, false, false), LogTabEvent::ScrollToBottom),
        (normalized(Key::Home, true, false, false), LogTabEvent::ScrollToTop),
        (normalized(Key::Char('@'), false, false, false), LogTabEvent::FocusCurrent),
        (normalized(Key::Char(' '), false, false, false), LogTabEvent::ToggleHeadMark),
        (normalized(Key::Char('w'), false, false, false), LogTabEvent::ToggleDiffFormat),
        (normalized(Key::Char('r'), false, true, false), LogTabEvent::Refresh),
        (normalized(Key::F(5), false, false, false), LogTabEvent::Refresh),
        (normalized(Key::Char('d'), false, true, false), LogTabEvent::Duplicate),
        (normalized(Key::Char('n'), false, false, false), LogTabEvent::CreateNew { describe: false }),
        (normalized(Key::Char('n'), false, true, false), LogTabEvent::CreateNew { describe: true }),
        (normalized(Key::Char('i'), false, false, false), LogTabEvent::InsertNew),
        (normalized(Key::Char('i'), false, true, false), LogTabEvent::InsertMove),
        (normalized(Key::Char('r'), true, false, false), LogTabEvent::Rebase),
        (normalized(Key::Char('s'), false, false, false), LogTabEvent::Squash { ignore_immutable: false }),
        (normalized(Key::Char('s'), false, true, false), LogTabEvent::Squash { ignore_immutable: true }),
        (normalized(Key::Char('e'), false, false, false), LogTabEvent::EditChange { ignore_immutable: false }),
        (normalized(Key::Char('e'), false, true, false), LogTabEvent::EditChange { ignore_immutable: true }),
        (normalized(Key::Char('a'), false, false, false), LogTabEvent::Abandon),
        (normalized(Key::Char('a'), false, true, false), LogTabEvent::Absorb),
        (normalized(Key::Char('x'), false, false, false), LogTabEvent::SimplifyParents { include_descendants: false }),
        (normalized(Key::Char('x'), false, true, false), LogTabEvent::SimplifyParents { include_descendants: true }),
        (normalized(Key::Char('v'), false, false, false), LogTabEvent::ResolveConflicts { keep_destination: false }),
        (normalized(Key::Char('v'), false, true, false), LogTabEvent::ResolveConflicts { keep_destination: true }),
        (normalized(Key::Char('u'), false, false, false), LogTabEvent::Undo),
        (normalized(Key::Char('u'), false, true, false), LogTabEvent::Redo),
        (normalized(Key::Char('c'), false, false, false), LogTabEvent::MetaeditUpdateChangeId { ignore_immutable: false }),
        (normalized(Key::Char('c'), false, true, false), LogTabEvent::MetaeditUpdateChangeId { ignore_immutable: true }),
        (normalized(Key::Char('d'), false, false, false), LogTabEvent::Describe),
        (normalized(Key::Char('r'), false, false, false), LogTabEvent::EditRevset),
        (normalized(Key::Char('b'), false, false, false), LogTabEvent::SetBookmark),
        (normalized(Key::Enter, false, false, false), LogTabEvent::OpenFiles),
        (normalized(Key::Char('y'), false, false, false), LogTabEvent::CopyChangeId),
        (normalized(Key::Char('y'), false, true, false), LogTabEvent::CopyRev),
        (normalized(Key::Char('p'), false, false, false), LogTabEvent::Push { all_bookmarks: false }),
        (normalized(Key::Char('p'), false, true, false), LogTabEvent::Push { all_bookmarks: true }),
        (normalized(Key::Char('f'), false, false, false), LogTabEvent::Fetch { all_remotes: false }),
        (normalized(Key::Char('f'), false, true, false), LogTabEvent::Fetch { all_remotes: true }),
        (normalized(Key::Char('?'), false, false, false), LogTabEvent::OpenHelp)
    ]
}

/// The log tab's bindings after the configured bindings of `c`.
pub open spec fn with_log_tab_config(s: Seq<(Shortcut, LogTabEvent)>, c: LogTabKeybindsConfig) -> Seq<(Shortcut, LogTabEvent)> {
    let s = update(s, LogTabEvent::Save, c.save);
    let s = update(s, LogTabEvent::Cancel, c.cancel);
    let s = update(s, LogTabEvent::ClosePopup, c.close_popup);
    let s = update(s, LogTabEvent::ScrollDown, c.scroll_down);
    let s = update(s, LogTabEvent::ScrollUp, c.scroll_up);
    let s = update(s, LogTabEvent::ScrollDownHalf, c.scroll_down_half);
    let s = update(s, LogTabEvent::ScrollUpHalf, c.scroll_up_half);
    let s = update(s, LogTabEvent::FocusCurrent, c.focus_current);
    let s = update(s, LogTabEvent::ToggleDiffFormat, c.toggle_diff_format);
    let s = update(s, LogTabEvent::Refresh, c.refresh);
    let s = update(s, LogTabEvent::Duplicate, c.duplicate);
    let s = update(s, LogTabEvent::CreateNew { describe: false }, c.create_new);
    let s = update(s, LogTabEvent::CreateNew { describe: true }, c.create_new_describe);
    let s = update(s, LogTabEvent::InsertNew, c.insert_new);
    let s = update(s, LogTabEvent::InsertMove, c.insert_move);
    let s = update(s, LogTabEvent::Squash { ignore_immutable: false }, c.squash);
    let s = update(s, LogTabEvent::Squash { ignore_immutable: true }, c.squash_ignore_immutable);
    let s = update(s, LogTabEvent::EditChange { ignore_immutable: false }, c.edit_change);
    let s = update(s, LogTabEvent::EditChange { ignore_immutable: true }, c.edit_change_ignore_immutable);
    let s = update(s, LogTabEvent::Abandon, c.abandon);
    let s = update(s, LogTabEvent::Absorb, c.absorb);
    let s = update(s, LogTabEvent::SimplifyParents { include_descendants: false }, c.simplify_parents);
    let s = update(s, LogTabEvent::SimplifyParents { include_descendants: true }, c.simplify_parents_descendants);
    let s = update(s, LogTabEvent::ResolveConflicts { keep_destination: false }, c.resolve);
    let s = update(s, LogTabEvent::ResolveConflicts { keep_destination: true }, c.resolve_destination);
    let s = update(s, LogTabEvent::Undo, c.undo);
    let s = update(s, LogTabEvent::Redo, c.redo);
    let s = update(s, LogTabEvent::MetaeditUpdateChangeId { ignore_immutable: false }, c.metaedit_update_change_id);
    let s = update(s, LogTabEvent::MetaeditUpdateChangeId { ignore_immutable: true }, c.metaedit_update_change_id_ignore_immutable);
    let s = update(s, LogTabEvent::Describe, c.describe);
    let s = update(s, LogTabEvent::EditRevset, c.edit_revset);
    let s = update(s, LogTabEvent::SetBookmark, c.set_bookmark);
    let s = update(s, LogTabEvent::OpenFiles, c.open_files);
    let s = update(s, LogTabEvent::CopyChangeId, c.copy_change_id);
    let s = update(s, LogTabEvent::CopyRev, c.copy_rev);
    let s = update(s, LogTabEvent::Rebase, c.rebase);
    let s = update(s, LogTabEvent::Push { all_bookmarks: false }, c.push);
    let s = update(s, LogTabEvent::Push { all_bookmarks: true }, c.push_all);
    let s = update(s, LogTabEvent::Fetch { all_remotes: false }, c.fetch);
    let s = update(s, LogTabEvent::Fetch { all_remotes: true }, c.fetch_all);
    let s = update(s, LogTabEvent::OpenHelp, c.open_help);
    s
}

/// The log tab's bindings after the configuration `c`: the shared scroll
/// bindings first, then the log tab's own section.
pub open spec fn with_config(s: Seq<(Shortcut, LogTabEvent)>, c: KeybindsConfig) -> Seq<(Shortcut, LogTabEvent)> {
    let s = update(s, LogTabEvent::ScrollDown, c.scroll_down);
    let s = update(s, LogTabEvent::ScrollUp, c.scroll_up);
    let s = update(s, LogTabEvent::ScrollDownHalf, c.scroll_down_half);
    let s = update(s, LogTabEvent::ScrollUpHalf, c.scroll_up_half);
    match c.log_tab {
        Some(l) => with_log_tab_config(s, l),
        None => s,
    }
}

/// What a key pressed in the message popup asks for.
#[derive(Debug, PartialEq, Eq, Structural, Clone, Copy)]
pub enum MessagePopupEvent {
    ScrollDown,
    ScrollUp,
    ScrollDownHalf,
    ScrollUpHalf,
    ScrollDownPage,
    ScrollUpPage,
    Unbound,
}

impl BoundEvent for MessagePopupEvent {
    fn same(&self, other: &Self) -> (res: bool) {
        *self == *other
    }
}

/// The bindings of the message popup before any configuration.
pub open spec fn popup_default_bindings() -> Seq<(Shortcut, MessagePopupEvent)> {
    seq![
        (normalized(Key::Char('j'), false, false, false), MessagePopupEvent::ScrollDown),
        (normalized(Key::Down, false, false, false), MessagePopupEvent::ScrollDown),
        (normalized(Key::Char('k'), false, false, false), MessagePopupEvent::ScrollUp),
        (normalized(Key::Up, false, false, false), MessagePopupEvent::ScrollUp),
        (normalized(Key::Char('d'), true, false, false), MessagePopupEvent::ScrollDownHalf),
        (normalized(Key::Char('u'), true, false, false), MessagePopupEvent::ScrollUpHalf),
        (normalized(Key::Char('f'), true, false, false), MessagePopupEvent::ScrollDownPage),
        (normalized(Key::Char(' '), false, false, false), MessagePopupEvent::ScrollDownPage),
        (normalized(Key::PageDown, false, false, false), MessagePopupEvent::ScrollDownPage),
        (normalized(Key::Char('b'), true, false, false), MessagePopupEvent::ScrollUpPage),
        (normalized(Key::PageUp, false, false, false), MessagePopupEvent::ScrollUpPage)
    ]
}

/// The message popup's bindings after the configuration `c`: the shared
/// scroll bindings first, then the popup's own section, which overrides them.
pub open spec fn with_popup_config(s: Seq<(Shortcut, MessagePopupEvent)>, c: KeybindsConfig) -> Seq<(Shortcut, MessagePopupEvent)> {
    let s = update(s, MessagePopupEvent::ScrollDown, c.scroll_down);
    let s = update(s, MessagePopupEvent::ScrollUp, c.scroll_up);
    let s = update(s, MessagePopupEvent::ScrollDownHalf, c.scroll_down_half);
    let s = update(s, MessagePopupEvent::ScrollUpHalf, c.scroll_up_half);
    match c.message_popup {
        Some(m) => {
            let s = update(s, MessagePopupEvent::ScrollDown, m.scroll_down);
            let s = update(s, MessagePopupEvent::ScrollUp, m.scroll_up);
            let s = update(s, MessagePopupEvent::ScrollDownHalf, m.scroll_down_half);
            let s = update(s, MessagePopupEvent::ScrollUpHalf, m.scroll_up_half);
            let s = update(s, MessagePopupEvent::ScrollDownPage, m.scroll_down_page);
            update(s, MessagePopupEvent::ScrollUpPage, m.scroll_up_page)
        },
        None => s,
    }
}

/// The key bindings of the message popup.
pub struct MessagePopupKeybinds {
    keys: KeybindsStore<MessagePopupEvent>,
}

impl View for MessagePopupKeybinds {
    type V = Seq<(Shortcut, MessagePopupEvent)>;

    closed spec fn view(&self) -> Seq<(Shortcut, MessagePopupEvent)> {
        self.keys@
    }
}

impl Default for MessagePopupKeybinds {
    fn default() -> (res: Self)
        ensures
            res@ == popup_default_bindings(),
    {
        let mut keys = KeybindsStore::new();
        keys.push(Shortcut::new(Key::Char('j'), false, false, false), MessagePopupEvent::ScrollDown);
        keys.push(Shortcut::new(Key::Down, false, false, false), MessagePopupEvent::ScrollDown);
        keys.push(Shortcut::new(Key::Char('k'), false, false, false), MessagePopupEvent::ScrollUp);
        keys.push(Shortcut::new(Key::Up, false, false, false), MessagePopupEvent::ScrollUp);
        keys.push(Shortcut::new(Key::Char('d'), true, false, false), MessagePopupEvent::ScrollDownHalf);
        keys.push(Shortcut::new(Key::Char('u'), true, false, false), MessagePopupEvent::ScrollUpHalf);
        keys.push(Shortcut::new(Key::Char('f'), true, false, false), MessagePopupEvent::ScrollDownPage);
        keys.push(Shortcut::new(Key::Char(' '), false, false, false), MessagePopupEvent::ScrollDownPage);
        keys.push(Shortcut::new(Key::PageDown, false, false, false), MessagePopupEvent::ScrollDownPage);
        keys.push(Shortcut::new(Key::Char('b'), true, false, false), MessagePopupEvent::ScrollUpPage);
        keys.push(Shortcut::new(Key::PageUp, false, false, false), MessagePopupEvent::ScrollUpPage);
        proof {
            assert(keys@ =~= popup_default_bindings());
        }
        MessagePopupKeybinds { keys }
    }
}

impl MessagePopupKeybinds {
    /// The event a shortcut leads to; `Unbound` where it is bound to none.
    pub fn match_event(&self, key: Shortcut) -> (res: MessagePopupEvent)
        ensures
            res == (match lookup(self@, key) {
                Some(e) => e,
                None => MessagePopupEvent::Unbound,
            }),
    {
        match self.keys.lookup(key) {
            Some(e) => e,
            None => MessagePopupEvent::Unbound,
        }
    }

    /// Apply the configured bindings: the shared scroll bindings, then the
    /// message popup's own section.
    pub fn extend_from_config(&mut self, config: &KeybindsConfig)
        ensures
            final(self)@ == with_popup_config(old(self)@, *config),
    {
        self.keys.update(MessagePopupEvent::ScrollDown, &config.scroll_down);
        self.keys.update(MessagePopupEvent::ScrollUp, &config.scroll_up);
        self.keys.update(MessagePopupEvent::ScrollDownHalf, &config.scroll_down_half);
        self.keys.update(MessagePopupEvent::ScrollUpHalf, &config.scroll_up_half);
        if let Some(m) = &config.message_popup {
            self.keys.update(MessagePopupEvent::ScrollDown, &m.scroll_down);
            self.keys.update(MessagePopupEvent::ScrollUp, &m.scroll_up);
            self.keys.update(MessagePopupEvent::ScrollDownHalf, &m.scroll_down_half);
            self.keys.update(MessagePopupEvent::ScrollUpHalf, &m.scroll_up_half);
            self.keys.update(MessagePopupEvent::ScrollDownPage, &m.scroll_down_page);
            self.keys.update(MessagePopupEvent::ScrollUpPage, &m.scroll_up_page);
        }
    }
}

/// The actions listed in the help of the log tab's main panel, with their descriptions.
pub open spec fn main_panel_items() -> Seq<(LogTabEvent, Seq<char>)> {
    seq![
        (LogTabEvent::ScrollDown, "scroll down"@),
        (LogTabEvent::ScrollUp, "scroll up"@),
        (LogTabEvent::ScrollDownHalf, "scroll down by ½ page"@),
        (LogTabEvent::ScrollUpHalf, "scroll up by ½ page"@),
        (LogTabEvent::OpenFiles, "see files"@),
        (LogTabEvent::FocusCurrent, "current change"@),
        (LogTabEvent::EditRevset, "set revset"@),
        (LogTabEvent::Describe, "describe change"@),
        (LogTabEvent::Duplicate, "duplicate change"@),
        (LogTabEvent::EditChange { ignore_immutable: false }, "edit change"@),
        (LogTabEvent::EditChange { ignore_immutable: true }, "edit change ignoring immutability"@),
        (LogTabEvent::CreateNew { describe: false }, "new change"@),
        (LogTabEvent::CreateNew { describe: true }, "new with message"@),
        (LogTabEvent::InsertNew, "insert a new change: an ancestor-descendant pair inserts between them; otherwise pick before-anchors next"@),
        (LogTabEvent::InsertMove, "pick up the marked/selected change to move; then pick after- and before-anchors"@),
        (LogTabEvent::Abandon, "abandon change"@),
        (LogTabEvent::Absorb, "absorb selected change into its mutable ancestors"@),
        (LogTabEvent::SimplifyParents { include_descendants: false }, "simplify parents of the marked/selected change(s) (remove redundant parent edges)"@),
        (LogTabEvent::SimplifyParents { include_descendants: true }, "simplify parents of the marked/selected change(s) and their descendants"@),
        (LogTabEvent::ResolveConflicts { keep_destination: false }, "resolve conflicts keeping the rebased/squashed revision's version"@),
        (LogTabEvent::ResolveConflicts { keep_destination: true }, "resolve conflicts keeping the rebase/squash destination's version"@),
        (LogTabEvent::Undo, "undo last operation"@),
        (LogTabEvent::Redo, "redo last undone operation"@),
        (LogTabEvent::MetaeditUpdateChangeId { ignore_immutable: false }, "generate a new change id (resolve divergence)"@),
        (LogTabEvent::MetaeditUpdateChangeId { ignore_immutable: true }, "generate a new change id (resolve divergence) ignoring immutability"@),
        (LogTabEvent::Rebase, "pick up the marked/selected change(s) to rebase; then pick destination(s)"@),
        (LogTabEvent::Squash { ignore_immutable: false }, "pick up the marked/selected change(s) to squash; then pick the destination (starts on the parent)"@),
        (LogTabEvent::Squash { ignore_immutable: true }, "squash ignoring immutability: pick up change(s), then pick the destination"@),
        (LogTabEvent::SetBookmark, "set bookmark"@),
        (LogTabEvent::CopyChangeId, "yank change id to clipboard"@),
        (LogTabEvent::CopyRev, "yank revision to clipboard"@),
        (LogTabEvent::Fetch { all_remotes: false }, "git fetch"@),
        (LogTabEvent::Fetch { all_remotes: true }, "git fetch all remotes"@),
        (LogTabEvent::Push { all_bookmarks: false }, "git push"@),
        (LogTabEvent::Push { all_bookmarks: true }, "git push all bookmarks"@)
    ]
}

/// The views of help items.
pub open spec fn item_views(items: Seq<(LogTabEvent, &str)>) -> Seq<(LogTabEvent, Seq<char>)> {
    items.map_values(|it: (LogTabEvent, &str)| (it.0, it.1@))
}

/// The views of help rows.
pub open spec fn row_views(rows: Seq<(String, String)>) -> Seq<(Seq<char>, Seq<char>)> {
    rows.map_values(|r: (String, String)| (r.0@, r.1@))
}

/// The texts of a list of shortcuts.
pub open spec fn shortcut_texts(ks: Seq<Shortcut>) -> Seq<Seq<char>> {
    ks.map_values(|k: Shortcut| shortcut_text(k))
}

/// The help row of `e`: its shortcuts joined by `/`, and its description;
/// none if `e` has no shortcut.
pub open spec fn help_row(s: Seq<(Shortcut, LogTabEvent)>, e: LogTabEvent, desc: Seq<char>) -> Seq<(Seq<char>, Seq<char>)> {
    let ks = keys_of(s, e);
    if ks.len() == 0 {
        Seq::empty()
    } else {
        seq![(join(shortcut_texts(ks), "/"@), desc)]
    }
}

/// The help rows of the items, in their order.
pub open spec fn help_rows(s: Seq<(Shortcut, LogTabEvent)>, items: Seq<(LogTabEvent, Seq<char>)>) -> Seq<(Seq<char>, Seq<char>)>
    decreases items.len(),
{
    if items.len() == 0 {
        Seq::empty()
    } else {
        help_rows(s, items.drop_last()) + help_row(s, items.last().0, items.last().1)
    }
}

/// The shortcuts of `ks` joined by `/`.
fn join_shortcuts(ks: &Vec<Shortcut>) -> (res: String)
    ensures
        res@ == join(shortcut_texts(ks@), "/"@),
{
    let mut res = String::new();
    let mut i: usize = 0;
    while i < ks.len()
        invariant
            i <= ks@.len(),
            res@ == join(shortcut_texts(ks@.take(i as int)), "/"@),
        decreases ks@.len() - i,
    {
        proof {
            assert(ks@.take(i + 1) =~= ks@.take(i as int).push(ks@[i as int]));
            assert(shortcut_texts(ks@.take(i + 1)) =~= shortcut_texts(ks@.take(i as int)).push(shortcut_text(ks@[i as int])));
            lemma_join_push(shortcut_texts(ks@.take(i as int)), "/"@, shortcut_text(ks@[i as int]));
        }
        if i > 0 {
            res.push_str("/");
        }
        let t = ks[i].to_text();
        res.push_str(t.as_str());
        i = i + 1;
    }
    proof {
        assert(ks@.take(i as int) =~= ks@);
    }
    res
}

/// The key bindings of the log tab.
pub struct LogTabKeybinds {
    keys: KeybindsStore<LogTabEvent>,
}

impl View for LogTabKeybinds {
    type V = Seq<(Shortcut, LogTabEvent)>;

    closed spec fn view(&self) -> Seq<(Shortcut, LogTabEvent)> {
        self.keys@
    }
}

impl Default for LogTabKeybinds {
    fn default() -> (res: Self)
        ensures
            res@ == default_bindings(),
    {
        let mut keys = KeybindsStore::new();
        keys.push(Shortcut::new(Key::Char('s'), true, false, false), LogTabEvent::Save);
        keys.push(Shortcut::new(Key::Esc, false, false, false), LogTabEvent::Cancel);
        keys.push(Shortcut::new(Key::Char('q'), false, false, false), LogTabEvent::ClosePopup);
        keys.push(Shortcut::new(Key::Char('j'), false, false, false), LogTabEvent::ScrollDown);
        keys.push(Shortcut::new(Key::Down, false, false, false), LogTabEvent::ScrollDown);
        keys.push(Shortcut::new(Key::Char('k'), false, false, false), LogTabEvent::ScrollUp);
        keys.push(Shortcut::new(Key::Up, false, false, false), LogTabEvent::ScrollUp);
        keys.push(Shortcut::new(Key::Char('j'), false, true, false), LogTabEvent::ScrollDownHalf);
        keys.push(Shortcut::new(Key::Char('k'), false, true, false), LogTabEvent::ScrollUpHalf);
        keys.push(Shortcut::new(Key::End, true, false, false), LogTabEvent::ScrollToBottom);
        keys.push(Shortcut::new(Key::Home, true, false, false), LogTabEvent::ScrollToTop);
        keys.push(Shortcut::new(Key::Char('@'), false, false, false), LogTabEvent::FocusCurrent);
        keys.push(Shortcut::new(Key::Char(' '), false, false, false), LogTabEvent::ToggleHeadMark);
        keys.push(Shortcut::new(Key::Char('w'), false, false, false), LogTabEvent::ToggleDiffFormat);
        keys.push(Shortcut::new(Key::Char('r'), false, true, false), LogTabEvent::Refresh);
        keys.push(Shortcut::new(Key::F(5), false, false, false), LogTabEvent::Refresh);
        keys.push(Shortcut::new(Key::Char('d'), false, true, false), LogTabEvent::Duplicate);
        keys.push(Shortcut::new(Key::Char('n'), false, false, false), LogTabEvent::CreateNew { describe: false });
        keys.push(Shortcut::new(Key::Char('n'), false, true, false), LogTabEvent::CreateNew { describe: true });
        keys.push(Shortcut::new(Key::Char('i'), false, false, false), LogTabEvent::InsertNew);
        keys.push(Shortcut::new(Key::Char('i'), false, true, false), LogTabEvent::InsertMove);
        keys.push(Shortcut::new(Key::Char('r'), true, false, false), LogTabEvent::Rebase);
        keys.push(Shortcut::new(Key::Char('s'), false, false, false), LogTabEvent::Squash { ignore_immutable: false });
        keys.push(Shortcut::new(Key::Char('s'), false, true, false), LogTabEvent::Squash { ignore_immutable: true });
        keys.push(Shortcut::new(Key::Char('e'), false, false, false), LogTabEvent::EditChange { ignore_immutable: false });
        keys.push(Shortcut::new(Key::Char('e'), false, true, false), LogTabEvent::EditChange { ignore_immutable: true });
        keys.push(Shortcut::new(Key::Char('a'), false, false, false), LogTabEvent::Abandon);
        keys.push(Shortcut::new(Key::Char('a'), false, true, false), LogTabEvent::Absorb);
        keys.push(Shortcut::new(Key::Char('x'), false, false, false), LogTabEvent::SimplifyParents { include_descendants: false });
        keys.push(Shortcut::new(Key::Char('x'), false, true, false), LogTabEvent::SimplifyParents { include_descendants: true });
        keys.push(Shortcut::new(Key::Char('v'), false, false, false), LogTabEvent::ResolveConflicts { keep_destination: false });
        keys.push(Shortcut::new(Key::Char('v'), false, true, false), LogTabEvent::ResolveConflicts { keep_destination: true });
        keys.push(Shortcut::new(Key::Char('u'), false, false, false), LogTabEvent::Undo);
        keys.push(Shortcut::new(Key::Char('u'), false, true, false), LogTabEvent::Redo);
        keys.push(Shortcut::new(Key::Char('c'), false, false, false), LogTabEvent::MetaeditUpdateChangeId { ignore_immutable: false });
        keys.push(Shortcut::new(Key::Char('c'), false, true, false), LogTabEvent::MetaeditUpdateChangeId { ignore_immutable: true });
        keys.push(Shortcut::new(Key::Char('d'), false, false, false), LogTabEvent::Describe);
        keys.push(Shortcut::new(Key::Char('r'), false, false, false), LogTabEvent::EditRevset);
        keys.push(Shortcut::new(Key::Char('b'), false, false, false), LogTabEvent::SetBookmark);
        keys.push(Shortcut::new(Key::Enter, false, false, false), LogTabEvent::OpenFiles);
        keys.push(Shortcut::new(Key::Char('y'), false, false, false), LogTabEvent::CopyChangeId);
        keys.push(Shortcut::new(Key::Char('y'), false, true, false), LogTabEvent::CopyRev);
        keys.push(Shortcut::new(Key::Char('p'), false, false, false), LogTabEvent::Push { all_bookmarks: false });
        keys.push(Shortcut::new(Key::Char('p'), false, true, false), LogTabEvent::Push { all_bookmarks: true });
        keys.push(Shortcut::new(Key::Char('f'), false, false, false), LogTabEvent::Fetch { all_remotes: false });
        keys.push(Shortcut::new(Key::Char('f'), false, true, false), LogTabEvent::Fetch { all_remotes: true });
        keys.push(Shortcut::new(Key::Char('?'), false, false, false), LogTabEvent::OpenHelp);
        proof {
            assert(keys@ =~= default_bindings());
        }
        LogTabKeybinds { keys }
    }
}

impl LogTabKeybinds {
    /// The event a shortcut leads to; `Unbound` where it is bound to none.
    pub fn match_event(&self, key: Shortcut) -> (res: LogTabEvent)
        ensures
            res == (match lookup(self@, key) {
                Some(e) => e,
                None => LogTabEvent::Unbound,
            }),
    {
        match self.keys.lookup(key) {
            Some(e) => e,
            None => LogTabEvent::Unbound,
        }
    }

    /// Apply the configured bindings: the shared scroll bindings, then the
    /// log tab's own section.
    pub fn extend_from_config(&mut self, config: &KeybindsConfig)
        ensures
            final(self)@ == with_config(old(self)@, *config),
    {
        self.keys.update(LogTabEvent::ScrollDown, &config.scroll_down);
        self.keys.update(LogTabEvent::ScrollUp, &config.scroll_up);
        self.keys.update(LogTabEvent::ScrollDownHalf, &config.scroll_down_half);
        self.keys.update(LogTabEvent::ScrollUpHalf, &config.scroll_up_half);
        if let Some(log_tab) = &config.log_tab {
            self.extend_from_log_tab_config(log_tab);
        }
    }

    /// Apply the bindings of the log tab's section of the configuration.
    pub fn extend_from_log_tab_config(&mut self, config: &LogTabKeybindsConfig)
        ensures
            final(self)@ == with_log_tab_config(old(self)@, *config),
    {
        self.keys.update(LogTabEvent::Save, &config.save);
        self.keys.update(LogTabEvent::Cancel, &config.cancel);
        self.keys.update(LogTabEvent::ClosePopup, &config.close_popup);
        self.keys.update(LogTabEvent::ScrollDown, &config.scroll_down);
        self.keys.update(LogTabEvent::ScrollUp, &config.scroll_up);
        self.keys.update(LogTabEvent::ScrollDownHalf, &config.scroll_down_half);
        self.keys.update(LogTabEvent::ScrollUpHalf, &config.scroll_up_half);
        self.keys.update(LogTabEvent::FocusCurrent, &config.focus_current);
        self.keys.update(LogTabEvent::ToggleDiffFormat, &config.toggle_diff_format);
        self.keys.update(LogTabEvent::Refresh, &config.refresh);
        self.keys.update(LogTabEvent::Duplicate, &config.duplicate);
        self.keys.update(LogTabEvent::CreateNew { describe: false }, &config.create_new);
        self.keys.update(LogTabEvent::CreateNew { describe: true }, &config.create_new_describe);
        self.keys.update(LogTabEvent::InsertNew, &config.insert_new);
        self.keys.update(LogTabEvent::InsertMove, &config.insert_move);
        self.keys.update(LogTabEvent::Squash { ignore_immutable: false }, &config.squash);
        self.keys.update(LogTabEvent::Squash { ignore_immutable: true }, &config.squash_ignore_immutable);
        self.keys.update(LogTabEvent::EditChange { ignore_immutable: false }, &config.edit_change);
        self.keys.update(LogTabEvent::EditChange { ignore_immutable: true }, &config.edit_change_ignore_immutable);
        self.keys.update(LogTabEvent::Abandon, &config.abandon);
        self.keys.update(LogTabEvent::Absorb, &config.absorb);
        self.keys.update(LogTabEvent::SimplifyParents { include_descendants: false }, &config.simplify_parents);
        self.keys.update(LogTabEvent::SimplifyParents { include_descendants: true }, &config.simplify_parents_descendants);
        self.keys.update(LogTabEvent::ResolveConflicts { keep_destination: false }, &config.resolve);
        self.keys.update(LogTabEvent::ResolveConflicts { keep_destination: true }, &config.resolve_destination);
        self.keys.update(LogTabEvent::Undo, &config.undo);
        self.keys.update(LogTabEvent::Redo, &config.redo);
        self.keys.update(LogTabEvent::MetaeditUpdateChangeId { ignore_immutable: false }, &config.metaedit_update_change_id);
        self.keys.update(LogTabEvent::MetaeditUpdateChangeId { ignore_immutable: true }, &config.metaedit_update_change_id_ignore_immutable);
        self.keys.update(LogTabEvent::Describe, &config.describe);
        self.keys.update(LogTabEvent::EditRevset, &config.edit_revset);
        self.keys.update(LogTabEvent::SetBookmark, &config.set_bookmark);
        self.keys.update(LogTabEvent::OpenFiles, &config.open_files);
        self.keys.update(LogTabEvent::CopyChangeId, &config.copy_change_id);
        self.keys.update(LogTabEvent::CopyRev, &config.copy_rev);
        self.keys.update(LogTabEvent::Rebase, &config.rebase);
        self.keys.update(LogTabEvent::Push { all_bookmarks: false }, &config.push);
        self.keys.update(LogTabEvent::Push { all_bookmarks: true }, &config.push_all);
        self.keys.update(LogTabEvent::Fetch { all_remotes: false }, &config.fetch);
        self.keys.update(LogTabEvent::Fetch { all_remotes: true }, &config.fetch_all);
        self.keys.update(LogTabEvent::OpenHelp, &config.open_help);
    }

    /// The help rows of the given items.
    pub fn help_rows(&self, items: &Vec<(LogTabEvent, &str)>) -> (res: Vec<(String, String)>)
        ensures
            row_views(res@) == help_rows(self@, item_views(items@)),
    {
        let mut res: Vec<(String, String)> = Vec::new();
        let mut i: usize = 0;
        while i < items.len()
            invariant
                i <= items@.len(),
                row_views(res@) == help_rows(self@, item_views(items@.take(i as int))),
            decreases items@.len() - i,
        {
            proof {
                assert(item_views(items@.take(i + 1)).drop_last() =~= item_views(items@.take(i as int)));
                assert(item_views(items@.take(i + 1)).last() == (items@[i as int].0, items@[i as int].1@));
            }
            let (e, desc) = items[i];
            let ks = self.keys.keys_of(e);
            if ks.len() > 0 {
                let k = join_shortcuts(&ks);
                res.push((k, copy_string(desc)));
                proof {
                    assert(row_views(res@) =~= help_rows(self@, item_views(items@.take(i as int))) + help_row(self@, e, desc@));
                }
            } else {
                proof {
                    assert(help_row(self@, e, desc@) =~= Seq::empty());
                    assert(help_rows(self@, item_views(items@.take(i as int))) + help_row(self@, e, desc@) =~= help_rows(self@, item_views(items@.take(i as int))));
                }
            }
            i = i + 1;
        }
        proof {
            assert(items@.take(i as int) =~= items@);
        }
        res
    }

    /// The help of the log tab's main panel: for each listed action that has
    /// shortcuts, its shortcuts joined by `/` and its description.
    pub fn make_main_panel_help(&self) -> (res: Vec<(String, String)>)
        ensures
            row_views(res@) == help_rows(self@, main_panel_items()),
    {
        let mut items: Vec<(LogTabEvent, &str)> = Vec::new();
        items.push((LogTabEvent::ScrollDown, "scroll down"));
        items.push((LogTabEvent::ScrollUp, "scroll up"));
        items.push((LogTabEvent::ScrollDownHalf, "scroll down by ½ page"));
        items.push((LogTabEvent::ScrollUpHalf, "scroll up by ½ page"));
        items.push((LogTabEvent::OpenFiles, "see files"));
        items.push((LogTabEvent::FocusCurrent, "current change"));
        items.push((LogTabEvent::EditRevset, "set revset"));
        items.push((LogTabEvent::Describe, "describe change"));
        items.push((LogTabEvent::Duplicate, "duplicate change"));
        items.push((LogTabEvent::EditChange { ignore_immutable: false }, "edit change"));
        items.push((LogTabEvent::EditChange { ignore_immutable: true }, "edit change ignoring immutability"));
        items.push((LogTabEvent::CreateNew { describe: false }, "new change"));
        items.push((LogTabEvent::CreateNew { describe: true }, "new with message"));
        items.push((LogTabEvent::InsertNew, "insert a new change: an ancestor-descendant pair inserts between them; otherwise pick before-anchors next"));
        items.push((LogTabEvent::InsertMove, "pick up the marked/selected change to move; then pick after- and before-anchors"));
        items.push((LogTabEvent::Abandon, "abandon change"));
        items.push((LogTabEvent::Absorb, "absorb selected change into its mutable ancestors"));
        items.push((LogTabEvent::SimplifyParents { include_descendants: false }, "simplify parents of the marked/selected change(s) (remove redundant parent edges)"));
        items.push((LogTabEvent::SimplifyParents { include_descendants: true }, "simplify parents of the marked/selected change(s) and their descendants"));
        items.push((LogTabEvent::ResolveConflicts { keep_destination: false }, "resolve conflicts keeping the rebased/squashed revision's version"));
        items.push((LogTabEvent::ResolveConflicts { keep_destination: true }, "resolve conflicts keeping the rebase/squash destination's version"));
        items.push((LogTabEvent::Undo, "undo last operation"));
        items.push((LogTabEvent::Redo, "redo last undone operation"));
        items.push((LogTabEvent::MetaeditUpdateChangeId { ignore_immutable: false }, "generate a new change id (resolve divergence)"));
        items.push((LogTabEvent::MetaeditUpdateChangeId { ignore_immutable: true }, "generate a new change id (resolve divergence) ignoring immutability"));
        items.push((LogTabEvent::Rebase, "pick up the marked/selected change(s) to rebase; then pick destination(s)"));
        items.push((LogTabEvent::Squash { ignore_immutable: false }, "pick up the marked/selected change(s) to squash; then pick the destination (starts on the parent)"));
        items.push((LogTabEvent::Squash { ignore_immutable: true }, "squash ignoring immutability: pick up change(s), then pick the destination"));
        items.push((LogTabEvent::SetBookmark, "set bookmark"));
        items.push((LogTabEvent::CopyChangeId, "yank change id to clipboard"));
        items.push((LogTabEvent::CopyRev, "yank revision to clipboard"));
        items.push((LogTabEvent::Fetch { all_remotes: false }, "git fetch"));
        items.push((LogTabEvent::Fetch { all_remotes: true }, "git fetch all remotes"));
        items.push((LogTabEvent::Push { all_bookmarks: false }, "git push"));
        items.push((LogTabEvent::Push { all_bookmarks: true }, "git push all bookmarks"));
        proof {
            assert(item_views(items@) =~= main_panel_items());
        }
        self.help_rows(&items)
    }
}

/// Removing the bindings of `k` leaves what the other shortcuts lead to, and
/// `k` leads nowhere.
pub proof fn lemma_without_key_lookup<E>(s: Seq<(Shortcut, E)>, k: Shortcut, k2: Shortcut)
    ensures
        lookup(without_key(s, k), k) is None,
        k2 != k ==> lookup(without_key(s, k), k2) == lookup(s, k2),
    decreases s.len(),
{
    if s.len() > 0 {
        lemma_without_key_lookup(s.drop_last(), k, k2);
        let r = without_key(s.drop_last(), k);
        if s.last().0 != k {
            assert(r.push(s.last()).drop_last() =~= r);
        }
    }
}

/// Binding `k` to `e` makes `k` lead to `e` and leaves the other shortcuts as
/// they were.
pub proof fn lemma_bind_lookup<E>(s: Seq<(Shortcut, E)>, k: Shortcut, e: E, k2: Shortcut)
    ensures
        lookup(bind(s, k, e), k) == Some(e),
        k2 != k ==> lookup(bind(s, k, e), k2) == lookup(s, k2),
{
    lemma_without_key_lookup(s, k, k2);
    assert(bind(s, k, e).drop_last() =~= without_key(s, k));
}

/// After the bindings of `e` are removed, no shortcut leads to `e`.
pub proof fn lemma_without_event_lookup<E>(s: Seq<(Shortcut, E)>, e: E, k: Shortcut)
    ensures
        lookup(without_event(s, e), k) != Some(e),
    decreases s.len(),
{
    if s.len() > 0 {
        lemma_without_event_lookup(s.drop_last(), e, k);
        let r = without_event(s.drop_last(), e);
        if s.last().1 != e {
            assert(r.push(s.last()).drop_last() =~= r);
        }
    }
}

/// After each shortcut of `ks` is bound to `e`, each of them leads to `e`.
pub proof fn lemma_bind_all_lookup<E>(s: Seq<(Shortcut, E)>, ks: Seq<Shortcut>, e: E, i: int)
    requires
        0 <= i < ks.len(),
    ensures
        lookup(bind_all(s, ks, e), ks[i]) == Some(e),
    decreases ks.len(),
{
    let prev = bind_all(s, ks.drop_last(), e);
    lemma_bind_lookup(prev, ks.last(), e, ks[i]);
    if i < ks.len() - 1 && ks[i] != ks.last() {
        lemma_bind_all_lookup(s, ks.drop_last(), e, i);
        assert(ks.drop_last()[i] == ks[i]);
    }
}

/// A configured binding takes effect: a shortcut, or each shortcut of a list,
/// leads to the event afterwards; `false` leaves no shortcut leading to it;
/// no configuration, and `true`, leave the bindings unchanged.
pub proof fn lemma_update<E>(s: Seq<(Shortcut, E)>, e: E, kb: Option<Keybind>, k: Shortcut)
    ensures
        kb is None ==> update(s, e, kb) == s,
        kb == Some(Keybind::Enable(true)) ==> update(s, e, kb) == s,
        kb == Some(Keybind::Enable(false)) ==> lookup(update(s, e, kb), k) != Some(e),
        kb == Some(Keybind::Single(k)) ==> lookup(update(s, e, kb), k) == Some(e),
        kb matches Some(Keybind::Multiple(ks)) ==> (forall|i: int| 0 <= i < ks@.len()
            ==> lookup(update(s, e, kb), #[trigger] ks@[i]) == Some(e)),
{
    lemma_without_event_lookup(s, e, k);
    lemma_bind_lookup(without_event(s, e), k, e, k);
    if let Some(Keybind::Multiple(ks)) = kb {
        assert forall|i: int| 0 <= i < ks@.len() implies lookup(update(s, e, kb), #[trigger] ks@[i]) == Some(e) by {
            lemma_bind_all_lookup(without_event(s, e), ks@, e, i);
        }
    }
}

/// Whether the configured binding `kb` names the shortcut `k`.
pub open spec fn names_shortcut(kb: Option<Keybind>, k: Shortcut) -> bool {
    match kb {
        Some(Keybind::Single(k2)) => k2 == k,
        Some(Keybind::Multiple(ks)) => ks@.contains(k),
        _ => false,
    }
}

/// Removing the bindings of `e` keeps what a shortcut bound to another event
/// leads to.
proof fn lemma_without_event_keeps<E>(s: Seq<(Shortcut, E)>, e: E, k: Shortcut)
    requires
        lookup(s, k) matches Some(e0) && e0 != e,
    ensures
        lookup(without_event(s, e), k) == lookup(s, k),
    decreases s.len(),
{
    let r = without_event(s.drop_last(), e);
    if s.last().0 == k {
        assert(s.last().1 != e);
        assert(r.push(s.last()).last() == s.last());
    } else {
        lemma_without_event_keeps(s.drop_last(), e, k);
        if s.last().1 != e {
            assert(r.push(s.last()).drop_last() =~= r);
        }
    }
}

/// Binding shortcuts other than `k` keeps what `k` leads to.
proof fn lemma_bind_all_keeps<E>(s: Seq<(Shortcut, E)>, ks: Seq<Shortcut>, e: E, k: Shortcut)
    requires
        !ks.contains(k),
    ensures
        lookup(bind_all(s, ks, e), k) == lookup(s, k),
    decreases ks.len(),
{
    if ks.len() > 0 {
        assert(!ks.drop_last().contains(k)) by {
            if ks.drop_last().contains(k) {
                let m = choose|m: int| 0 <= m < ks.drop_last().len() && ks.drop_last()[m] == k;
                assert(ks[m] == k);
            }
        }
        assert(ks[ks.len() - 1] == ks.last());
        lemma_bind_all_keeps(s, ks.drop_last(), e, k);
        lemma_bind_lookup(bind_all(s, ks.drop_last(), e), ks.last(), e, k);
    }
}

/// A configured binding of another event that does not name `k` keeps
/// what `k` leads to.
proof fn lemma_update_keeps<E>(s: Seq<(Shortcut, E)>, e: E, kb: Option<Keybind>, k: Shortcut)
    requires
        lookup(s, k) matches Some(e0) && e0 != e,
        !names_shortcut(kb, k),
    ensures
        lookup(update(s, e, kb), k) == lookup(s, k),
{
    match kb {
        Some(Keybind::Enable(false)) => {
            lemma_without_event_keeps(s, e, k);
        },
        Some(Keybind::Single(k2)) => {
            lemma_without_event_keeps(s, e, k);
            lemma_bind_lookup(without_event(s, e), k2, e, k);
        },
        Some(Keybind::Multiple(ks)) => {
            lemma_without_event_keeps(s, e, k);
            lemma_bind_all_keeps(without_event(s, e), ks@, e, k);
        },
        _ => {},
    }
}

/// A binding named by the configured binding of `e` leads to `e`.
proof fn lemma_update_names<E>(s: Seq<(Shortcut, E)>, e: E, kb: Option<Keybind>, k: Shortcut)
    requires
        names_shortcut(kb, k),
    ensures
        lookup(update(s, e, kb), k) == Some(e),
{
    lemma_update(s, e, kb, k);
    if let Some(Keybind::Multiple(ks)) = kb {
        let m = choose|m: int| 0 <= m < ks@.len() && ks@[m] == k;
    }
}

/// The bindings after the configured bindings `us` are applied in order.
pub open spec fn apply_updates<E>(s: Seq<(Shortcut, E)>, us: Seq<(E, Option<Keybind>)>) -> Seq<(Shortcut, E)>
    decreases us.len(),
{
    if us.len() == 0 {
        s
    } else {
        update(apply_updates(s, us.drop_last()), us.last().0, us.last().1)
    }
}

/// A shortcut named by the binding of one event, and by no later binding,
/// leads to that event once all are applied, where the later bindings are
/// of other events.
proof fn lemma_apply_updates_names<E>(s: Seq<(Shortcut, E)>, us: Seq<(E, Option<Keybind>)>, i: int, k: Shortcut)
    requires
        0 <= i < us.len(),
        names_shortcut(us[i].1, k),
        forall|j: int| i < j < us.len() ==> (#[trigger] us[j]).0 != us[i].0 && !names_shortcut(us[j].1, k),
    ensures
        lookup(apply_updates(s, us), k) == Some(us[i].0),
    decreases us.len(),
{
    let prev = apply_updates(s, us.drop_last());
    if i == us.len() - 1 {
        lemma_update_names(prev, us[i].0, us[i].1, k);
    } else {
        assert forall|j: int| i < j < us.drop_last().len() implies (#[trigger] us.drop_last()[j]).0 != us.drop_last()[i].0
            && !names_shortcut(us.drop_last()[j].1, k) by {
            assert(us.drop_last()[j] == us[j]);
            assert(!names_shortcut(us[j].1, k));
        }
        assert(us.drop_last()[i] == us[i]);
        lemma_apply_updates_names(s, us.drop_last(), i, k);
        let last = us.len() - 1;
        assert(us[last] == us.last());
        assert(!names_shortcut(us[last].1, k));
        lemma_update_keeps(prev, us.last().0, us.last().1, k);
    }
}

/// The bindings of the log tab's section of the configuration, each event
/// with the field that configures it, in the order they are applied.
pub open spec fn log_tab_updates(c: LogTabKeybindsConfig) -> Seq<(LogTabEvent, Option<Keybind>)> {
    seq![
        (LogTabEvent::Save, c.save),
        (LogTabEvent::Cancel, c.cancel),
        (LogTabEvent::ClosePopup, c.close_popup),
        (LogTabEvent::ScrollDown, c.scroll_down),
        (LogTabEvent::ScrollUp, c.scroll_up),
        (LogTabEvent::ScrollDownHalf, c.scroll_down_half),
        (LogTabEvent::ScrollUpHalf, c.scroll_up_half),
        (LogTabEvent::FocusCurrent, c.focus_current),
        (LogTabEvent::ToggleDiffFormat, c.toggle_diff_format),
        (LogTabEvent::Refresh, c.refresh),
        (LogTabEvent::Duplicate, c.duplicate),
        (LogTabEvent::CreateNew { describe: false }, c.create_new),
        (LogTabEvent::CreateNew { describe: true }, c.create_new_describe),
        (LogTabEvent::InsertNew, c.insert_new),
        (LogTabEvent::InsertMove, c.insert_move),
        (LogTabEvent::Squash { ignore_immutable: false }, c.squash),
        (LogTabEvent::Squash { ignore_immutable: true }, c.squash_ignore_immutable),
        (LogTabEvent::EditChange { ignore_immutable: false }, c.edit_change),
        (LogTabEvent::EditChange { ignore_immutable: true }, c.edit_change_ignore_immutable),
        (LogTabEvent::Abandon, c.abandon),
        (LogTabEvent::Absorb, c.absorb),
        (LogTabEvent::SimplifyParents { include_descendants: false }, c.simplify_parents),
        (LogTabEvent::SimplifyParents { include_descendants: true }, c.simplify_parents_descendants),
        (LogTabEvent::ResolveConflicts { keep_destination: false }, c.resolve),
        (LogTabEvent::ResolveConflicts { keep_destination: true }, c.resolve_destination),
        (LogTabEvent::Undo, c.undo),
        (LogTabEvent::Redo, c.redo),
        (LogTabEvent::MetaeditUpdateChangeId { ignore_immutable: false }, c.metaedit_update_change_id),
        (LogTabEvent::MetaeditUpdateChangeId { ignore_immutable: true }, c.metaedit_update_change_id_ignore_immutable),
        (LogTabEvent::Describe, c.describe),
        (LogTabEvent::EditRevset, c.edit_revset),
        (LogTabEvent::SetBookmark, c.set_bookmark),
        (LogTabEvent::OpenFiles, c.open_files),
        (LogTabEvent::CopyChangeId, c.copy_change_id),
        (LogTabEvent::CopyRev, c.copy_rev),
        (LogTabEvent::Rebase, c.rebase),
        (LogTabEvent::Push { all_bookmarks: false }, c.push),
        (LogTabEvent::Push { all_bookmarks: true }, c.push_all),
        (LogTabEvent::Fetch { all_remotes: false }, c.fetch),
        (LogTabEvent::Fetch { all_remotes: true }, c.fetch_all),
        (LogTabEvent::OpenHelp, c.open_help)
    ]
}

/// The place of an event among the log tab's configured bindings; -1 for the
/// events that have no field.
pub open spec fn log_tab_rank(e: LogTabEvent) -> int {
    match e {
        LogTabEvent::Save => 0,
        LogTabEvent::Cancel => 1,
        LogTabEvent::ClosePopup => 2,
        LogTabEvent::ScrollDown => 3,
        LogTabEvent::ScrollUp => 4,
        LogTabEvent::ScrollDownHalf => 5,
        LogTabEvent::ScrollUpHalf => 6,
        LogTabEvent::FocusCurrent => 7,
        LogTabEvent::ToggleDiffFormat => 8,
        LogTabEvent::Refresh => 9,
        LogTabEvent::Duplicate => 10,
        LogTabEvent::CreateNew { describe } => if describe { 12 } else { 11 },
        LogTabEvent::InsertNew => 13,
        LogTabEvent::InsertMove => 14,
        LogTabEvent::Squash { ignore_immutable } => if ignore_immutable { 16 } else { 15 },
        LogTabEvent::EditChange { ignore_immutable } => if ignore_immutable { 18 } else { 17 },
        LogTabEvent::Abandon => 19,
        LogTabEvent::Absorb => 20,
        LogTabEvent::SimplifyParents { include_descendants } => if include_descendants { 22 } else { 21 },
        LogTabEvent::ResolveConflicts { keep_destination } => if keep_destination { 24 } else { 23 },
        LogTabEvent::Undo => 25,
        LogTabEvent::Redo => 26,
        LogTabEvent::MetaeditUpdateChangeId { ignore_immutable } => if ignore_immutable { 28 } else { 27 },
        LogTabEvent::Describe => 29,
        LogTabEvent::EditRevset => 30,
        LogTabEvent::SetBookmark => 31,
        LogTabEvent::OpenFiles => 32,
        LogTabEvent::CopyChangeId => 33,
        LogTabEvent::CopyRev => 34,
        LogTabEvent::Rebase => 35,
        LogTabEvent::Push { all_bookmarks } => if all_bookmarks { 37 } else { 36 },
        LogTabEvent::Fetch { all_remotes } => if all_remotes { 39 } else { 38 },
        LogTabEvent::OpenHelp => 40,
        _ => -1,
    }
}

/// Each configured binding of the log tab's section is at the place of its
/// event, so no two are of the same event.
proof fn lemma_log_tab_ranks(c: LogTabKeybindsConfig)
    ensures
        log_tab_updates(c).len() == 41,
        forall|j: int| 0 <= j < 41 ==> log_tab_rank((#[trigger] log_tab_updates(c)[j]).0) == j,
{
    let us = log_tab_updates(c);
    assert forall|j: int| 0 <= j < 41 implies log_tab_rank((#[trigger] us[j]).0) == j by {
        if j == 0 {
            assert(us[0].0 == LogTabEvent::Save);
        } else if j == 1 {
            assert(us[1].0 == LogTabEvent::Cancel);
        } else if j == 2 {
            assert(us[2].0 == LogTabEvent::ClosePopup);
        } else if j == 3 {
            assert(us[3].0 == LogTabEvent::ScrollDown);
        } else if j == 4 {
            assert(us[4].0 == LogTabEvent::ScrollUp);
        } else if j == 5 {
            assert(us[5].0 == LogTabEvent::ScrollDownHalf);
        } else if j == 6 {
            assert(us[6].0 == LogTabEvent::ScrollUpHalf);
        } else if j == 7 {
            assert(us[7].0 == LogTabEvent::FocusCurrent);
        } else if j == 8 {
            assert(us[8].0 == LogTabEvent::ToggleDiffFormat);
        } else if j == 9 {
            assert(us[9].0 == LogTabEvent::Refresh);
        } else if j == 10 {
            assert(us[10].0 == LogTabEvent::Duplicate);
        } else if j == 11 {
            assert(us[11].0 == LogTabEvent::CreateNew { describe: false });
        } else if j == 12 {
            assert(us[12].0 == LogTabEvent::CreateNew { describe: true });
        } else if j == 13 {
            assert(us[13].0 == LogTabEvent::InsertNew);
        } else if j == 14 {
            assert(us[14].0 == LogTabEvent::InsertMove);
        } else if j == 15 {
            assert(us[15].0 == LogTabEvent::Squash { ignore_immutable: false });
        } else if j == 16 {
            assert(us[16].0 == LogTabEvent::Squash { ignore_immutable: true });
        } else if j == 17 {
            assert(us[17].0 == LogTabEvent::EditChange { ignore_immutable: false });
        } else if j == 18 {
            assert(us[18].0 == LogTabEvent::EditChange { ignore_immutable: true });
        } else if j == 19 {
            assert(us[19].0 == LogTabEvent::Abandon);
        } else if j == 20 {
            assert(us[20].0 == LogTabEvent::Absorb);
        } else if j == 21 {
            assert(us[21].0 == LogTabEvent::SimplifyParents { include_descendants: false });
        } else if j == 22 {
            assert(us[22].0 == LogTabEvent::SimplifyParents { include_descendants: true });
        } else if j == 23 {
            assert(us[23].0 == LogTabEvent::ResolveConflicts { keep_destination: false });
        } else if j == 24 {
            assert(us[24].0 == LogTabEvent::ResolveConflicts { keep_destination: true });
        } else if j == 25 {
            assert(us[25].0 == LogTabEvent::Undo);
        } else if j == 26 {
            assert(us[26].0 == LogTabEvent::Redo);
        } else if j == 27 {
            assert(us[27].0 == LogTabEvent::MetaeditUpdateChangeId { ignore_immutable: false });
        } else if j == 28 {
            assert(us[28].0 == LogTabEvent::MetaeditUpdateChangeId { ignore_immutable: true });
        } else if j == 29 {
            assert(us[29].0 == LogTabEvent::Describe);
        } else if j == 30 {
            assert(us[30].0 == LogTabEvent::EditRevset);
        } else if j == 31 {
            assert(us[31].0 == LogTabEvent::SetBookmark);
        } else if j == 32 {
            assert(us[32].0 == LogTabEvent::OpenFiles);
        } else if j == 33 {
            assert(us[33].0 == LogTabEvent::CopyChangeId);
        } else if j == 34 {
            assert(us[34].0 == LogTabEvent::CopyRev);
        } else if j == 35 {
            assert(us[35].0 == LogTabEvent::Rebase);
        } else if j == 36 {
            assert(us[36].0 == LogTabEvent::Push { all_bookmarks: false });
        } else if j == 37 {
            assert(us[37].0 == LogTabEvent::Push { all_bookmarks: true });
        } else if j == 38 {
            assert(us[38].0 == LogTabEvent::Fetch { all_remotes: false });
        } else if j == 39 {
            assert(us[39].0 == LogTabEvent::Fetch { all_remotes: true });
        } else if j == 40 {
            assert(us[40].0 == LogTabEvent::OpenHelp);
        }
    }
}

/// The log tab's section is applied as its configured bindings in order.
proof fn lemma_log_tab_config_as_updates(s: Seq<(Shortcut, LogTabEvent)>, c: LogTabKeybindsConfig)
    ensures
        with_log_tab_config(s, c) == apply_updates(s, log_tab_updates(c)),
{
    let us = log_tab_updates(c);
    let s0 = s;
    assert(us.take(0) =~= Seq::<(LogTabEvent, Option<Keybind>)>::empty());
    assert(apply_updates(s, us.take(0)) == s0);
    let s1 = update(s0, LogTabEvent::Save, c.save);
    assert(us.take(1).drop_last() =~= us.take(0));
    assert(us.take(1).last() == (LogTabEvent::Save, c.save));
    assert(apply_updates(s, us.take(1)) == s1);
    let s2 = update(s1, LogTabEvent::Cancel, c.cancel);
    assert(us.take(2).drop_last() =~= us.take(1));
    assert(us.take(2).last() == (LogTabEvent::Cancel, c.cancel));
    assert(apply_updates(s, us.take(2)) == s2);
    let s3 = update(s2, LogTabEvent::ClosePopup, c.close_popup);
    assert(us.take(3).drop_last() =~= us.take(2));
    assert(us.take(3).last() == (LogTabEvent::ClosePopup, c.close_popup));
    assert(apply_updates(s, us.take(3)) == s3);
    let s4 = update(s3, LogTabEvent::ScrollDown, c.scroll_down);
    assert(us.take(4).drop_last() =~= us.take(3));
    assert(us.take(4).last() == (LogTabEvent::ScrollDown, c.scroll_down));
    assert(apply_updates(s, us.take(4)) == s4);
    let s5 = update(s4, LogTabEvent::ScrollUp, c.scroll_up);
    assert(us.take(5).drop_last() =~= us.take(4));
    assert(us.take(5).last() == (LogTabEvent::ScrollUp, c.scroll_up));
    assert(apply_updates(s, us.take(5)) == s5);
    let s6 = update(s5, LogTabEvent::ScrollDownHalf, c.scroll_down_half);
    assert(us.take(6).drop_last() =~= us.take(5));
    assert(us.take(6).last() == (LogTabEvent::ScrollDownHalf, c.scroll_down_half));
    assert(apply_updates(s, us.take(6)) == s6);
    let s7 = update(s6, LogTabEvent::ScrollUpHalf, c.scroll_up_half);
    assert(us.take(7).drop_last() =~= us.take(6));
    assert(us.take(7).last() == (LogTabEvent::ScrollUpHalf, c.scroll_up_half));
    assert(apply_updates(s, us.take(7)) == s7);
    let s8 = update(s7, LogTabEvent::FocusCurrent, c.focus_current);
    assert(us.take(8).drop_last() =~= us.take(7));
    assert(us.take(8).last() == (LogTabEvent::FocusCurrent, c.focus_current));
    assert(apply_updates(s, us.take(8)) == s8);
    let s9 = update(s8, LogTabEvent::ToggleDiffFormat, c.toggle_diff_format);
    assert(us.take(9).drop_last() =~= us.take(8));
    assert(us.take(9).last() == (LogTabEvent::ToggleDiffFormat, c.toggle_diff_format));
    assert(apply_updates(s, us.take(9)) == s9);
    let s10 = update(s9, LogTabEvent::Refresh, c.refresh);
    assert(us.take(10).drop_last() =~= us.take(9));
    assert(us.take(10).last() == (LogTabEvent::Refresh, c.refresh));
    assert(apply_updates(s, us.take(10)) == s10);
    let s11 = update(s10, LogTabEvent::Duplicate, c.duplicate);
    assert(us.take(11).drop_last() =~= us.take(10));
    assert(us.take(11).last() == (LogTabEvent::Duplicate, c.duplicate));
    assert(apply_updates(s, us.take(11)) == s11);
    let s12 = update(s11, LogTabEvent::CreateNew { describe: false }, c.create_new);
    assert(us.take(12).drop_last() =~= us.take(11));
    assert(us.take(12).last() == (LogTabEvent::CreateNew { describe: false }, c.create_new));
    assert(apply_updates(s, us.take(12)) == s12);
    let s13 = update(s12, LogTabEvent::CreateNew { describe: true }, c.create_new_describe);
    assert(us.take(13).drop_last() =~= us.take(12));
    assert(us.take(13).last() == (LogTabEvent::CreateNew { describe: true }, c.create_new_describe));
    assert(apply_updates(s, us.take(13)) == s13);
    let s14 = update(s13, LogTabEvent::InsertNew, c.insert_new);
    assert(us.take(14).drop_last() =~= us.take(13));
    assert(us.take(14).last() == (LogTabEvent::InsertNew, c.insert_new));
    assert(apply_updates(s, us.take(14)) == s14);
    let s15 = update(s14, LogTabEvent::InsertMove, c.insert_move);
    assert(us.take(15).drop_last() =~= us.take(14));
    assert(us.take(15).last() == (LogTabEvent::InsertMove, c.insert_move));
    assert(apply_updates(s, us.take(15)) == s15);
    let s16 = update(s15, LogTabEvent::Squash { ignore_immutable: false }, c.squash);
    assert(us.take(16).drop_last() =~= us.take(15));
    assert(us.take(16).last() == (LogTabEvent::Squash { ignore_immutable: false }, c.squash));
    assert(apply_updates(s, us.take(16)) == s16);
    let s17 = update(s16, LogTabEvent::Squash { ignore_immutable: true }, c.squash_ignore_immutable);
    assert(us.take(17).drop_last() =~= us.take(16));
    assert(us.take(17).last() == (LogTabEvent::Squash { ignore_immutable: true }, c.squash_ignore_immutable));
    assert(apply_updates(s, us.take(17)) == s17);
    let s18 = update(s17, LogTabEvent::EditChange { ignore_immutable: false }, c.edit_change);
    assert(us.take(18).drop_last() =~= us.take(17));
    assert(us.take(18).last() == (LogTabEvent::EditChange { ignore_immutable: false }, c.edit_change));
    assert(apply_updates(s, us.take(18)) == s18);
    let s19 = update(s18, LogTabEvent::EditChange { ignore_immutable: true }, c.edit_change_ignore_immutable);
    assert(us.take(19).drop_last() =~= us.take(18));
    assert(us.take(19).last() == (LogTabEvent::EditChange { ignore_immutable: true }, c.edit_change_ignore_immutable));
    assert(apply_updates(s, us.take(19)) == s19);
    let s20 = update(s19, LogTabEvent::Abandon, c.abandon);
    assert(us.take(20).drop_last() =~= us.take(19));
    assert(us.take(20).last() == (LogTabEvent::Abandon, c.abandon));
    assert(apply_updates(s, us.take(20)) == s20);
    let s21 = update(s20, LogTabEvent::Absorb, c.absorb);
    assert(us.take(21).drop_last() =~= us.take(20));
    assert(us.take(21).last() == (LogTabEvent::Absorb, c.absorb));
    assert(apply_updates(s, us.take(21)) == s21);
    let s22 = update(s21, LogTabEvent::SimplifyParents { include_descendants: false }, c.simplify_parents);
    assert(us.take(22).drop_last() =~= us.take(21));
    assert(us.take(22).last() == (LogTabEvent::SimplifyParents { include_descendants: false }, c.simplify_parents));
    assert(apply_updates(s, us.take(22)) == s22);
    let s23 = update(s22, LogTabEvent::SimplifyParents { include_descendants: true }, c.simplify_parents_descendants);
    assert(us.take(23).drop_last() =~= us.take(22));
    assert(us.take(23).last() == (LogTabEvent::SimplifyParents { include_descendants: true }, c.simplify_parents_descendants));
    assert(apply_updates(s, us.take(23)) == s23);
    let s24 = update(s23, LogTabEvent::ResolveConflicts { keep_destination: false }, c.resolve);
    assert(us.take(24).drop_last() =~= us.take(23));
    assert(us.take(24).last() == (LogTabEvent::ResolveConflicts { keep_destination: false }, c.resolve));
    assert(apply_updates(s, us.take(24)) == s24);
    let s25 = update(s24, LogTabEvent::ResolveConflicts { keep_destination: true }, c.resolve_destination);
    assert(us.take(25).drop_last() =~= us.take(24));
    assert(us.take(25).last() == (LogTabEvent::ResolveConflicts { keep_destination: true }, c.resolve_destination));
    assert(apply_updates(s, us.take(25)) == s25);
    let s26 = update(s25, LogTabEvent::Undo, c.undo);
    assert(us.take(26).drop_last() =~= us.take(25));
    assert(us.take(26).last() == (LogTabEvent::Undo, c.undo));
    assert(apply_updates(s, us.take(26)) == s26);
    let s27 = update(s26, LogTabEvent::Redo, c.redo);
    assert(us.take(27).drop_last() =~= us.take(26));
    assert(us.take(27).last() == (LogTabEvent::Redo, c.redo));
    assert(apply_updates(s, us.take(27)) == s27);
    let s28 = update(s27, LogTabEvent::MetaeditUpdateChangeId { ignore_immutable: false }, c.metaedit_update_change_id);
    assert(us.take(28).drop_last() =~= us.take(27));
    assert(us.take(28).last() == (LogTabEvent::MetaeditUpdateChangeId { ignore_immutable: false }, c.metaedit_update_change_id));
    assert(apply_updates(s, us.take(28)) == s28);
    let s29 = update(s28, LogTabEvent::MetaeditUpdateChangeId { ignore_immutable: true }, c.metaedit_update_change_id_ignore_immutable);
    assert(us.take(29).drop_last() =~= us.take(28));
    assert(us.take(29).last() == (LogTabEvent::MetaeditUpdateChangeId { ignore_immutable: true }, c.metaedit_update_change_id_ignore_immutable));
    assert(apply_updates(s, us.take(29)) == s29);
    let s30 = update(s29, LogTabEvent::Describe, c.describe);
    assert(us.take(30).drop_last() =~= us.take(29));
    assert(us.take(30).last() == (LogTabEvent::Describe, c.describe));
    assert(apply_updates(s, us.take(30)) == s30);
    let s31 = update(s30, LogTabEvent::EditRevset, c.edit_revset);
    assert(us.take(31).drop_last() =~= us.take(30));
    assert(us.take(31).last() == (LogTabEvent::EditRevset, c.edit_revset));
    assert(apply_updates(s, us.take(31)) == s31);
    let s32 = update(s31, LogTabEvent::SetBookmark, c.set_bookmark);
    assert(us.take(32).drop_last() =~= us.take(31));
    assert(us.take(32).last() == (LogTabEvent::SetBookmark, c.set_bookmark));
    assert(apply_updates(s, us.take(32)) == s32);
    let s33 = update(s32, LogTabEvent::OpenFiles, c.open_files);
    assert(us.take(33).drop_last() =~= us.take(32));
    assert(us.take(33).last() == (LogTabEvent::OpenFiles, c.open_files));
    assert(apply_updates(s, us.take(33)) == s33);
    let s34 = update(s33, LogTabEvent::CopyChangeId, c.copy_change_id);
    assert(us.take(34).drop_last() =~= us.take(33));
    assert(us.take(34).last() == (LogTabEvent::CopyChangeId, c.copy_change_id));
    assert(apply_updates(s, us.take(34)) == s34);
    let s35 = update(s34, LogTabEvent::CopyRev, c.copy_rev);
    assert(us.take(35).drop_last() =~= us.take(34));
    assert(us.take(35).last() == (LogTabEvent::CopyRev, c.copy_rev));
    assert(apply_updates(s, us.take(35)) == s35);
    let s36 = update(s35, LogTabEvent::Rebase, c.rebase);
    assert(us.take(36).drop_last() =~= us.take(35));
    assert(us.take(36).last() == (LogTabEvent::Rebase, c.rebase));
    assert(apply_updates(s, us.take(36)) == s36);
    let s37 = update(s36, LogTabEvent::Push { all_bookmarks: false }, c.push);
    assert(us.take(37).drop_last() =~= us.take(36));
    assert(us.take(37).last() == (LogTabEvent::Push { all_bookmarks: false }, c.push));
    assert(apply_updates(s, us.take(37)) == s37);
    let s38 = update(s37, LogTabEvent::Push { all_bookmarks: true }, c.push_all);
    assert(us.take(38).drop_last() =~= us.take(37));
    assert(us.take(38).last() == (LogTabEvent::Push { all_bookmarks: true }, c.push_all));
    assert(apply_updates(s, us.take(38)) == s38);
    let s39 = update(s38, LogTabEvent::Fetch { all_remotes: false }, c.fetch);
    assert(us.take(39).drop_last() =~= us.take(38));
    assert(us.take(39).last() == (LogTabEvent::Fetch { all_remotes: false }, c.fetch));
    assert(apply_updates(s, us.take(39)) == s39);
    let s40 = update(s39, LogTabEvent::Fetch { all_remotes: true }, c.fetch_all);
    assert(us.take(40).drop_last() =~= us.take(39));
    assert(us.take(40).last() == (LogTabEvent::Fetch { all_remotes: true }, c.fetch_all));
    assert(apply_updates(s, us.take(40)) == s40);
    let s41 = update(s40, LogTabEvent::OpenHelp, c.open_help);
    assert(us.take(41).drop_last() =~= us.take(40));
    assert(us.take(41).last() == (LogTabEvent::OpenHelp, c.open_help));
    assert(apply_updates(s, us.take(41)) == s41);
    assert(us.take(41) =~= us);
}

/// Whether no field of the log tab's section other than that of `e` names
/// the shortcut `k`.
pub open spec fn only_named_by(c: LogTabKeybindsConfig, k: Shortcut, e: LogTabEvent) -> bool {
    forall|j: int| 0 <= j < log_tab_updates(c).len() && (#[trigger] log_tab_updates(c)[j]).0 != e
        ==> !names_shortcut(log_tab_updates(c)[j].1, k)
}

/// The configured binding at place `i` of the log tab's section takes
/// effect for a shortcut that no other field names.
proof fn lemma_log_tab_field(s: Seq<(Shortcut, LogTabEvent)>, c: LogTabKeybindsConfig, k: Shortcut, i: int)
    requires
        0 <= i < log_tab_updates(c).len(),
        names_shortcut(log_tab_updates(c)[i].1, k),
        only_named_by(c, k, log_tab_updates(c)[i].0),
    ensures
        lookup(with_log_tab_config(s, c), k) == Some(log_tab_updates(c)[i].0),
{
    let us = log_tab_updates(c);
    lemma_log_tab_ranks(c);
    lemma_log_tab_config_as_updates(s, c);
    assert forall|j: int| i < j < us.len() implies (#[trigger] us[j]).0 != us[i].0 && !names_shortcut(us[j].1, k) by {
        assert(log_tab_rank(us[j].0) == j);
        assert(log_tab_rank(us[i].0) == i);
    }
    lemma_apply_updates_names(s, us, i, k);
}

/// Each field of the log tab's section configures its own event: a
/// shortcut that the field names, and that no other field of the section
/// names, leads to the field's event afterwards, whatever it was bound to
/// before.
pub proof fn lemma_log_tab_config_binds(s: Seq<(Shortcut, LogTabEvent)>, c: LogTabKeybindsConfig, k: Shortcut)
    ensures
        names_shortcut(c.save, k) && only_named_by(c, k, LogTabEvent::Save)
            ==> lookup(with_log_tab_config(s, c), k) == Some(LogTabEvent::Save),
        names_shortcut(c.cancel, k) && only_named_by(c, k, LogTabEvent::Cancel)
            ==> lookup(with_log_tab_config(s, c), k) == Some(LogTabEvent::Cancel),
        names_shortcut(c.close_popup, k) && only_named_by(c, k, LogTabEvent::ClosePopup)
            ==> lookup(with_log_tab_config(s, c), k) == Some(LogTabEvent::ClosePopup),
        names_shortcut(c.scroll_down, k) && only_named_by(c, k, LogTabEvent::ScrollDown)
            ==> lookup(with_log_tab_config(s, c), k) == Some(LogTabEvent::ScrollDown),
        names_shortcut(c.scroll_up, k) && only_named_by(c, k, LogTabEvent::ScrollUp)
            ==> lookup(with_log_tab_config(s, c), k) == Some(LogTabEvent::ScrollUp),
        names_shortcut(c.scroll_down_half, k) && only_named_by(c, k, LogTabEvent::ScrollDownHalf)
            ==> lookup(with_log_tab_config(s, c), k) == Some(LogTabEvent::ScrollDownHalf),
        names_shortcut(c.scroll_up_half, k) && only_named_by(c, k, LogTabEvent::ScrollUpHalf)
            ==> lookup(with_log_tab_config(s, c), k) == Some(LogTabEvent::ScrollUpHalf),
        names_shortcut(c.focus_current, k) && only_named_by(c, k, LogTabEvent::FocusCurrent)
            ==> lookup(with_log_tab_config(s, c), k) == Some(LogTabEvent::FocusCurrent),
        names_shortcut(c.toggle_diff_format, k) && only_named_by(c, k, LogTabEvent::ToggleDiffFormat)
            ==> lookup(with_log_tab_config(s, c), k) == Some(LogTabEvent::ToggleDiffFormat),
        names_shortcut(c.refresh, k) && only_named_by(c, k, LogTabEvent::Refresh)
            ==> lookup(with_log_tab_config(s, c), k) == Some(LogTabEvent::Refresh),
        names_shortcut(c.duplicate, k) && only_named_by(c, k, LogTabEvent::Duplicate)
            ==> lookup(with_log_tab_config(s, c), k) == Some(LogTabEvent::Duplicate),
        names_shortcut(c.create_new, k) && only_named_by(c, k, LogTabEvent::CreateNew { describe: false })
            ==> lookup(with_log_tab_config(s, c), k) == Some(LogTabEvent::CreateNew { describe: false }),
        names_shortcut(c.create_new_describe, k) && only_named_by(c, k, LogTabEvent::CreateNew { describe: true })
            ==> lookup(with_log_tab_config(s, c), k) == Some(LogTabEvent::CreateNew { describe: true }),
        names_shortcut(c.insert_new, k) && only_named_by(c, k, LogTabEvent::InsertNew)
            ==> lookup(with_log_tab_config(s, c), k) == Some(LogTabEvent::InsertNew),
        names_shortcut(c.insert_move, k) && only_named_by(c, k, LogTabEvent::InsertMove)
            ==> lookup(with_log_tab_config(s, c), k) == Some(LogTabEvent::InsertMove),
        names_shortcut(c.squash, k) && only_named_by(c, k, LogTabEvent::Squash { ignore_immutable: false })
            ==> lookup(with_log_tab_config(s, c), k) == Some(LogTabEvent::Squash { ignore_immutable: false }),
        names_shortcut(c.squash_ignore_immutable, k) && only_named_by(c, k, LogTabEvent::Squash { ignore_immutable: true })
            ==> lookup(with_log_tab_config(s, c), k) == Some(LogTabEvent::Squash { ignore_immutable: true }),
        names_shortcut(c.edit_change, k) && only_named_by(c, k, LogTabEvent::EditChange { ignore_immutable: false })
            ==> lookup(with_log_tab_config(s, c), k) == Some(LogTabEvent::EditChange { ignore_immutable: false }),
        names_shortcut(c.edit_change_ignore_immutable, k) && only_named_by(c, k, LogTabEvent::EditChange { ignore_immutable: true })
            ==> lookup(with_log_tab_config(s, c), k) == Some(LogTabEvent::EditChange { ignore_immutable: true }),
        names_shortcut(c.abandon, k) && only_named_by(c, k, LogTabEvent::Abandon)
            ==> lookup(with_log_tab_config(s, c), k) == Some(LogTabEvent::Abandon),
        names_shortcut(c.absorb, k) && only_named_by(c, k, LogTabEvent::Absorb)
            ==> lookup(with_log_tab_config(s, c), k) == Some(LogTabEvent::Absorb),
        names_shortcut(c.simplify_parents, k) && only_named_by(c, k, LogTabEvent::SimplifyParents { include_descendants: false })
            ==> lookup(with_log_tab_config(s, c), k) == Some(LogTabEvent::SimplifyParents { include_descendants: false }),
        names_shortcut(c.simplify_parents_descendants, k) && only_named_by(c, k, LogTabEvent::SimplifyParents { include_descendants: true })
            ==> lookup(with_log_tab_config(s, c), k) == Some(LogTabEvent::SimplifyParents { include_descendants: true }),
        names_shortcut(c.resolve, k) && only_named_by(c, k, LogTabEvent::ResolveConflicts { keep_destination: false })
            ==> lookup(with_log_tab_config(s, c), k) == Some(LogTabEvent::ResolveConflicts { keep_destination: false }),
        names_shortcut(c.resolve_destination, k) && only_named_by(c, k, LogTabEvent::ResolveConflicts { keep_destination: true })
            ==> lookup(with_log_tab_config(s, c), k) == Some(LogTabEvent::ResolveConflicts { keep_destination: true }),
        names_shortcut(c.undo, k) && only_named_by(c, k, LogTabEvent::Undo)
            ==> lookup(with_log_tab_config(s, c), k) == Some(LogTabEvent::Undo),
        names_shortcut(c.redo, k) && only_named_by(c, k, LogTabEvent::Redo)
            ==> lookup(with_log_tab_config(s, c), k) == Some(LogTabEvent::Redo),
        names_shortcut(c.metaedit_update_change_id, k) && only_named_by(c, k, LogTabEvent::MetaeditUpdateChangeId { ignore_immutable: false })
            ==> lookup(with_log_tab_config(s, c), k) == Some(LogTabEvent::MetaeditUpdateChangeId { ignore_immutable: false }),
        names_shortcut(c.metaedit_update_change_id_ignore_immutable, k) && only_named_by(c, k, LogTabEvent::MetaeditUpdateChangeId { ignore_immutable: true })
            ==> lookup(with_log_tab_config(s, c), k) == Some(LogTabEvent::MetaeditUpdateChangeId { ignore_immutable: true }),
        names_shortcut(c.describe, k) && only_named_by(c, k, LogTabEvent::Describe)
            ==> lookup(with_log_tab_config(s, c), k) == Some(LogTabEvent::Describe),
        names_shortcut(c.edit_revset, k) && only_named_by(c, k, LogTabEvent::EditRevset)
            ==> lookup(with_log_tab_config(s, c), k) == Some(LogTabEvent::EditRevset),
        names_shortcut(c.set_bookmark, k) && only_named_by(c, k, LogTabEvent::SetBookmark)
            ==> lookup(with_log_tab_config(s, c), k) == Some(LogTabEvent::SetBookmark),
        names_shortcut(c.open_files, k) && only_named_by(c, k, LogTabEvent::OpenFiles)
            ==> lookup(with_log_tab_config(s, c), k) == Some(LogTabEvent::OpenFiles),
        names_shortcut(c.copy_change_id, k) && only_named_by(c, k, LogTabEvent::CopyChangeId)
            ==> lookup(with_log_tab_config(s, c), k) == Some(LogTabEvent::CopyChangeId),
        names_shortcut(c.copy_rev, k) && only_named_by(c, k, LogTabEvent::CopyRev)
            ==> lookup(with_log_tab_config(s, c), k) == Some(LogTabEvent::CopyRev),
        names_shortcut(c.rebase, k) && only_named_by(c, k, LogTabEvent::Rebase)
            ==> lookup(with_log_tab_config(s, c), k) == Some(LogTabEvent::Rebase),
        names_shortcut(c.push, k) && only_named_by(c, k, LogTabEvent::Push { all_bookmarks: false })
            ==> lookup(with_log_tab_config(s, c), k) == Some(LogTabEvent::Push { all_bookmarks: false }),
        names_shortcut(c.push_all, k) && only_named_by(c, k, LogTabEvent::Push { all_bookmarks: true })
            ==> lookup(with_log_tab_config(s, c), k) == Some(LogTabEvent::Push { all_bookmarks: true }),
        names_shortcut(c.fetch, k) && only_named_by(c, k, LogTabEvent::Fetch { all_remotes: false })
            ==> lookup(with_log_tab_config(s, c), k) == Some(LogTabEvent::Fetch { all_remotes: false }),
        names_shortcut(c.fetch_all, k) && only_named_by(c, k, LogTabEvent::Fetch { all_remotes: true })
            ==> lookup(with_log_tab_config(s, c), k) == Some(LogTabEvent::Fetch { all_remotes: true }),
        names_shortcut(c.open_help, k) && only_named_by(c, k, LogTabEvent::OpenHelp)
            ==> lookup(with_log_tab_config(s, c), k) == Some(LogTabEvent::OpenHelp),
{
    let us = log_tab_updates(c);
    assert(names_shortcut(c.save, k) && only_named_by(c, k, LogTabEvent::Save)
        ==> lookup(with_log_tab_config(s, c), k) == Some(LogTabEvent::Save)) by {
        if names_shortcut(c.save, k) && only_named_by(c, k, LogTabEvent::Save) {
            assert(us[0] == (LogTabEvent::Save, c.save));
            lemma_log_tab_field(s, c, k, 0);
        }
    }
    assert(names_shortcut(c.cancel, k) && only_named_by(c, k, LogTabEvent::Cancel)
        ==> lookup(with_log_tab_config(s, c), k) == Some(LogTabEvent::Cancel)) by {
        if names_shortcut(c.cancel, k) && only_named_by(c, k, LogTabEvent::Cancel) {
            assert(us[1] == (LogTabEvent::Cancel, c.cancel));
            lemma_log_tab_field(s, c, k, 1);
        }
    }
    assert(names_shortcut(c.close_popup, k) && only_named_by(c, k, LogTabEvent::ClosePopup)
        ==> lookup(with_log_tab_config(s, c), k) == Some(LogTabEvent::ClosePopup)) by {
        if names_shortcut(c.close_popup, k) && only_named_by(c, k, LogTabEvent::ClosePopup) {
            assert(us[2] == (LogTabEvent::ClosePopup, c.close_popup));
            lemma_log_tab_field(s, c, k, 2);
        }
    }
    assert(names_shortcut(c.scroll_down, k) && only_named_by(c, k, LogTabEvent::ScrollDown)
        ==> lookup(with_log_tab_config(s, c), k) == Some(LogTabEvent::ScrollDown)) by {
        if names_shortcut(c.scroll_down, k) && only_named_by(c, k, LogTabEvent::ScrollDown) {
            assert(us[3] == (LogTabEvent::ScrollDown, c.scroll_down));
            lemma_log_tab_field(s, c, k, 3);
        }
    }
    assert(names_shortcut(c.scroll_up, k) && only_named_by(c, k, LogTabEvent::ScrollUp)
        ==> lookup(with_log_tab_config(s, c), k) == Some(LogTabEvent::ScrollUp)) by {
        if names_shortcut(c.scroll_up, k) && only_named_by(c, k, LogTabEvent::ScrollUp) {
            assert(us[4] == (LogTabEvent::ScrollUp, c.scroll_up));
            lemma_log_tab_field(s, c, k, 4);
        }
    }
    assert(names_shortcut(c.scroll_down_half, k) && only_named_by(c, k, LogTabEvent::ScrollDownHalf)
        ==> lookup(with_log_tab_config(s, c), k) == Some(LogTabEvent::ScrollDownHalf)) by {
        if names_shortcut(c.scroll_down_half, k) && only_named_by(c, k, LogTabEvent::ScrollDownHalf) {
            assert(us[5] == (LogTabEvent::ScrollDownHalf, c.scroll_down_half));
            lemma_log_tab_field(s, c, k, 5);
        }
    }
    assert(names_shortcut(c.scroll_up_half, k) && only_named_by(c, k, LogTabEvent::ScrollUpHalf)
        ==> lookup(with_log_tab_config(s, c), k) == Some(LogTabEvent::ScrollUpHalf)) by {
        if names_shortcut(c.scroll_up_half, k) && only_named_by(c, k, LogTabEvent::ScrollUpHalf) {
            assert(us[6] == (LogTabEvent::ScrollUpHalf, c.scroll_up_half));
            lemma_log_tab_field(s, c, k, 6);
        }
    }
    assert(names_shortcut(c.focus_current, k) && only_named_by(c, k, LogTabEvent::FocusCurrent)
        ==> lookup(with_log_tab_config(s, c), k) == Some(LogTabEvent::FocusCurrent)) by {
        if names_shortcut(c.focus_current, k) && only_named_by(c, k, LogTabEvent::FocusCurrent) {
            assert(us[7] == (LogTabEvent::FocusCurrent, c.focus_current));
            lemma_log_tab_field(s, c, k, 7);
        }
    }
    assert(names_shortcut(c.toggle_diff_format, k) && only_named_by(c, k, LogTabEvent::ToggleDiffFormat)
        ==> lookup(with_log_tab_config(s, c), k) == Some(LogTabEvent::ToggleDiffFormat)) by {
        if names_shortcut(c.toggle_diff_format, k) && only_named_by(c, k, LogTabEvent::ToggleDiffFormat) {
            assert(us[8] == (LogTabEvent::ToggleDiffFormat, c.toggle_diff_format));
            lemma_log_tab_field(s, c, k, 8);
        }
    }
    assert(names_shortcut(c.refresh, k) && only_named_by(c, k, LogTabEvent::Refresh)
        ==> lookup(with_log_tab_config(s, c), k) == Some(LogTabEvent::Refresh)) by {
        if names_shortcut(c.refresh, k) && only_named_by(c, k, LogTabEvent::Refresh) {
            assert(us[9] == (LogTabEvent::Refresh, c.refresh));
            lemma_log_tab_field(s, c, k, 9);
        }
    }
    assert(names_shortcut(c.duplicate, k) && only_named_by(c, k, LogTabEvent::Duplicate)
        ==> lookup(with_log_tab_config(s, c), k) == Some(LogTabEvent::Duplicate)) by {
        if names_shortcut(c.duplicate, k) && only_named_by(c, k, LogTabEvent::Duplicate) {
            assert(us[10] == (LogTabEvent::Duplicate, c.duplicate));
            lemma_log_tab_field(s, c, k, 10);
        }
    }
    assert(names_shortcut(c.create_new, k) && only_named_by(c, k, LogTabEvent::CreateNew { describe: false })
        ==> lookup(with_log_tab_config(s, c), k) == Some(LogTabEvent::CreateNew { describe: false })) by {
        if names_shortcut(c.create_new, k) && only_named_by(c, k, LogTabEvent::CreateNew { describe: false }) {
            assert(us[11] == (LogTabEvent::CreateNew { describe: false }, c.create_new));
            lemma_log_tab_field(s, c, k, 11);
        }
    }
    assert(names_shortcut(c.create_new_describe, k) && only_named_by(c, k, LogTabEvent::CreateNew { describe: true })
        ==> lookup(with_log_tab_config(s, c), k) == Some(LogTabEvent::CreateNew { describe: true })) by {
        if names_shortcut(c.create_new_describe, k) && only_named_by(c, k, LogTabEvent::CreateNew { describe: true }) {
            assert(us[12] == (LogTabEvent::CreateNew { describe: true }, c.create_new_describe));
            lemma_log_tab_field(s, c, k, 12);
        }
    }
    assert(names_shortcut(c.insert_new, k) && only_named_by(c, k, LogTabEvent::InsertNew)
        ==> lookup(with_log_tab_config(s, c), k) == Some(LogTabEvent::InsertNew)) by {
        if names_shortcut(c.insert_new, k) && only_named_by(c, k, LogTabEvent::InsertNew) {
            assert(us[13] == (LogTabEvent::InsertNew, c.insert_new));
            lemma_log_tab_field(s, c, k, 13);
        }
    }
    assert(names_shortcut(c.insert_move, k) && only_named_by(c, k, LogTabEvent::InsertMove)
        ==> lookup(with_log_tab_config(s, c), k) == Some(LogTabEvent::InsertMove)) by {
        if names_shortcut(c.insert_move, k) && only_named_by(c, k, LogTabEvent::InsertMove) {
            assert(us[14] == (LogTabEvent::InsertMove, c.insert_move));
            lemma_log_tab_field(s, c, k, 14);
        }
    }
    assert(names_shortcut(c.squash, k) && only_named_by(c, k, LogTabEvent::Squash { ignore_immutable: false })
        ==> lookup(with_log_tab_config(s, c), k) == Some(LogTabEvent::Squash { ignore_immutable: false })) by {
        if names_shortcut(c.squash, k) && only_named_by(c, k, LogTabEvent::Squash { ignore_immutable: false }) {
            assert(us[15] == (LogTabEvent::Squash { ignore_immutable: false }, c.squash));
            lemma_log_tab_field(s, c, k, 15);
        }
    }
    assert(names_shortcut(c.squash_ignore_immutable, k) && only_named_by(c, k, LogTabEvent::Squash { ignore_immutable: true })
        ==> lookup(with_log_tab_config(s, c), k) == Some(LogTabEvent::Squash { ignore_immutable: true })) by {
        if names_shortcut(c.squash_ignore_immutable, k) && only_named_by(c, k, LogTabEvent::Squash { ignore_immutable: true }) {
            assert(us[16] == (LogTabEvent::Squash { ignore_immutable: true }, c.squash_ignore_immutable));
            lemma_log_tab_field(s, c, k, 16);
        }
    }
    assert(names_shortcut(c.edit_change, k) && only_named_by(c, k, LogTabEvent::EditChange { ignore_immutable: false })
        ==> lookup(with_log_tab_config(s, c), k) == Some(LogTabEvent::EditChange { ignore_immutable: false })) by {
        if names_shortcut(c.edit_change, k) && only_named_by(c, k, LogTabEvent::EditChange { ignore_immutable: false }) {
            assert(us[17] == (LogTabEvent::EditChange { ignore_immutable: false }, c.edit_change));
            lemma_log_tab_field(s, c, k, 17);
        }
    }
    assert(names_shortcut(c.edit_change_ignore_immutable, k) && only_named_by(c, k, LogTabEvent::EditChange { ignore_immutable: true })
        ==> lookup(with_log_tab_config(s, c), k) == Some(LogTabEvent::EditChange { ignore_immutable: true })) by {
        if names_shortcut(c.edit_change_ignore_immutable, k) && only_named_by(c, k, LogTabEvent::EditChange { ignore_immutable: true }) {
            assert(us[18] == (LogTabEvent::EditChange { ignore_immutable: true }, c.edit_change_ignore_immutable));
            lemma_log_tab_field(s, c, k, 18);
        }
    }
    assert(names_shortcut(c.abandon, k) && only_named_by(c, k, LogTabEvent::Abandon)
        ==> lookup(with_log_tab_config(s, c), k) == Some(LogTabEvent::Abandon)) by {
        if names_shortcut(c.abandon, k) && only_named_by(c, k, LogTabEvent::Abandon) {
            assert(us[19] == (LogTabEvent::Abandon, c.abandon));
            lemma_log_tab_field(s, c, k, 19);
        }
    }
    assert(names_shortcut(c.absorb, k) && only_named_by(c, k, LogTabEvent::Absorb)
        ==> lookup(with_log_tab_config(s, c), k) == Some(LogTabEvent::Absorb)) by {
        if names_shortcut(c.absorb, k) && only_named_by(c, k, LogTabEvent::Absorb) {
            assert(us[20] == (LogTabEvent::Absorb, c.absorb));
            lemma_log_tab_field(s, c, k, 20);
        }
    }
    assert(names_shortcut(c.simplify_parents, k) && only_named_by(c, k, LogTabEvent::SimplifyParents { include_descendants: false })
        ==> lookup(with_log_tab_config(s, c), k) == Some(LogTabEvent::SimplifyParents { include_descendants: false })) by {
        if names_shortcut(c.simplify_parents, k) && only_named_by(c, k, LogTabEvent::SimplifyParents { include_descendants: false }) {
            assert(us[21] == (LogTabEvent::SimplifyParents { include_descendants: false }, c.simplify_parents));
            lemma_log_tab_field(s, c, k, 21);
        }
    }
    assert(names_shortcut(c.simplify_parents_descendants, k) && only_named_by(c, k, LogTabEvent::SimplifyParents { include_descendants: true })
        ==> lookup(with_log_tab_config(s, c), k) == Some(LogTabEvent::SimplifyParents { include_descendants: true })) by {
        if names_shortcut(c.simplify_parents_descendants, k) && only_named_by(c, k, LogTabEvent::SimplifyParents { include_descendants: true }) {
            assert(us[22] == (LogTabEvent::SimplifyParents { include_descendants: true }, c.simplify_parents_descendants));
            lemma_log_tab_field(s, c, k, 22);
        }
    }
    assert(names_shortcut(c.resolve, k) && only_named_by(c, k, LogTabEvent::ResolveConflicts { keep_destination: false })
        ==> lookup(with_log_tab_config(s, c), k) == Some(LogTabEvent::ResolveConflicts { keep_destination: false })) by {
        if names_shortcut(c.resolve, k) && only_named_by(c, k, LogTabEvent::ResolveConflicts { keep_destination: false }) {
            assert(us[23] == (LogTabEvent::ResolveConflicts { keep_destination: false }, c.resolve));
            lemma_log_tab_field(s, c, k, 23);
        }
    }
    assert(names_shortcut(c.resolve_destination, k) && only_named_by(c, k, LogTabEvent::ResolveConflicts { keep_destination: true })
        ==> lookup(with_log_tab_config(s, c), k) == Some(LogTabEvent::ResolveConflicts { keep_destination: true })) by {
        if names_shortcut(c.resolve_destination, k) && only_named_by(c, k, LogTabEvent::ResolveConflicts { keep_destination: true }) {
            assert(us[24] == (LogTabEvent::ResolveConflicts { keep_destination: true }, c.resolve_destination));
            lemma_log_tab_field(s, c, k, 24);
        }
    }
    assert(names_shortcut(c.undo, k) && only_named_by(c, k, LogTabEvent::Undo)
        ==> lookup(with_log_tab_config(s, c), k) == Some(LogTabEvent::Undo)) by {
        if names_shortcut(c.undo, k) && only_named_by(c, k, LogTabEvent::Undo) {
            assert(us[25] == (LogTabEvent::Undo, c.undo));
            lemma_log_tab_field(s, c, k, 25);
        }
    }
    assert(names_shortcut(c.redo, k) && only_named_by(c, k, LogTabEvent::Redo)
        ==> lookup(with_log_tab_config(s, c), k) == Some(LogTabEvent::Redo)) by {
        if names_shortcut(c.redo, k) && only_named_by(c, k, LogTabEvent::Redo) {
            assert(us[26] == (LogTabEvent::Redo, c.redo));
            lemma_log_tab_field(s, c, k, 26);
        }
    }
    assert(names_shortcut(c.metaedit_update_change_id, k) && only_named_by(c, k, LogTabEvent::MetaeditUpdateChangeId { ignore_immutable: false })
        ==> lookup(with_log_tab_config(s, c), k) == Some(LogTabEvent::MetaeditUpdateChangeId { ignore_immutable: false })) by {
        if names_shortcut(c.metaedit_update_change_id, k) && only_named_by(c, k, LogTabEvent::MetaeditUpdateChangeId { ignore_immutable: false }) {
            assert(us[27] == (LogTabEvent::MetaeditUpdateChangeId { ignore_immutable: false }, c.metaedit_update_change_id));
            lemma_log_tab_field(s, c, k, 27);
        }
    }
    assert(names_shortcut(c.metaedit_update_change_id_ignore_immutable, k) && only_named_by(c, k, LogTabEvent::MetaeditUpdateChangeId { ignore_immutable: true })
        ==> lookup(with_log_tab_config(s, c), k) == Some(LogTabEvent::MetaeditUpdateChangeId { ignore_immutable: true })) by {
        if names_shortcut(c.metaedit_update_change_id_ignore_immutable, k) && only_named_by(c, k, LogTabEvent::MetaeditUpdateChangeId { ignore_immutable: true }) {
            assert(us[28] == (LogTabEvent::MetaeditUpdateChangeId { ignore_immutable: true }, c.metaedit_update_change_id_ignore_immutable));
            lemma_log_tab_field(s, c, k, 28);
        }
    }
    assert(names_shortcut(c.describe, k) && only_named_by(c, k, LogTabEvent::Describe)
        ==> lookup(with_log_tab_config(s, c), k) == Some(LogTabEvent::Describe)) by {
        if names_shortcut(c.describe, k) && only_named_by(c, k, LogTabEvent::Describe) {
            assert(us[29] == (LogTabEvent::Describe, c.describe));
            lemma_log_tab_field(s, c, k, 29);
        }
    }
    assert(names_shortcut(c.edit_revset, k) && only_named_by(c, k, LogTabEvent::EditRevset)
        ==> lookup(with_log_tab_config(s, c), k) == Some(LogTabEvent::EditRevset)) by {
        if names_shortcut(c.edit_revset, k) && only_named_by(c, k, LogTabEvent::EditRevset) {
            assert(us[30] == (LogTabEvent::EditRevset, c.edit_revset));
            lemma_log_tab_field(s, c, k, 30);
        }
    }
    assert(names_shortcut(c.set_bookmark, k) && only_named_by(c, k, LogTabEvent::SetBookmark)
        ==> lookup(with_log_tab_config(s, c), k) == Some(LogTabEvent::SetBookmark)) by {
        if names_shortcut(c.set_bookmark, k) && only_named_by(c, k, LogTabEvent::SetBookmark) {
            assert(us[31] == (LogTabEvent::SetBookmark, c.set_bookmark));
            lemma_log_tab_field(s, c, k, 31);
        }
    }
    assert(names_shortcut(c.open_files, k) && only_named_by(c, k, LogTabEvent::OpenFiles)
        ==> lookup(with_log_tab_config(s, c), k) == Some(LogTabEvent::OpenFiles)) by {
        if names_shortcut(c.open_files, k) && only_named_by(c, k, LogTabEvent::OpenFiles) {
            assert(us[32] == (LogTabEvent::OpenFiles, c.open_files));
            lemma_log_tab_field(s, c, k, 32);
        }
    }
    assert(names_shortcut(c.copy_change_id, k) && only_named_by(c, k, LogTabEvent::CopyChangeId)
        ==> lookup(with_log_tab_config(s, c), k) == Some(LogTabEvent::CopyChangeId)) by {
        if names_shortcut(c.copy_change_id, k) && only_named_by(c, k, LogTabEvent::CopyChangeId) {
            assert(us[33] == (LogTabEvent::CopyChangeId, c.copy_change_id));
            lemma_log_tab_field(s, c, k, 33);
        }
    }
    assert(names_shortcut(c.copy_rev, k) && only_named_by(c, k, LogTabEvent::CopyRev)
        ==> lookup(with_log_tab_config(s, c), k) == Some(LogTabEvent::CopyRev)) by {
        if names_shortcut(c.copy_rev, k) && only_named_by(c, k, LogTabEvent::CopyRev) {
            assert(us[34] == (LogTabEvent::CopyRev, c.copy_rev));
            lemma_log_tab_field(s, c, k, 34);
        }
    }
    assert(names_shortcut(c.rebase, k) && only_named_by(c, k, LogTabEvent::Rebase)
        ==> lookup(with_log_tab_config(s, c), k) == Some(LogTabEvent::Rebase)) by {
        if names_shortcut(c.rebase, k) && only_named_by(c, k, LogTabEvent::Rebase) {
            assert(us[35] == (LogTabEvent::Rebase, c.rebase));
            lemma_log_tab_field(s, c, k, 35);
        }
    }
    assert(names_shortcut(c.push, k) && only_named_by(c, k, LogTabEvent::Push { all_bookmarks: false })
        ==> lookup(with_log_tab_config(s, c), k) == Some(LogTabEvent::Push { all_bookmarks: false })) by {
        if names_shortcut(c.push, k) && only_named_by(c, k, LogTabEvent::Push { all_bookmarks: false }) {
            assert(us[36] == (LogTabEvent::Push { all_bookmarks: false }, c.push));
            lemma_log_tab_field(s, c, k, 36);
        }
    }
    assert(names_shortcut(c.push_all, k) && only_named_by(c, k, LogTabEvent::Push { all_bookmarks: true })
        ==> lookup(with_log_tab_config(s, c), k) == Some(LogTabEvent::Push { all_bookmarks: true })) by {
        if names_shortcut(c.push_all, k) && only_named_by(c, k, LogTabEvent::Push { all_bookmarks: true }) {
            assert(us[37] == (LogTabEvent::Push { all_bookmarks: true }, c.push_all));
            lemma_log_tab_field(s, c, k, 37);
        }
    }
    assert(names_shortcut(c.fetch, k) && only_named_by(c, k, LogTabEvent::Fetch { all_remotes: false })
        ==> lookup(with_log_tab_config(s, c), k) == Some(LogTabEvent::Fetch { all_remotes: false })) by {
        if names_shortcut(c.fetch, k) && only_named_by(c, k, LogTabEvent::Fetch { all_remotes: false }) {
            assert(us[38] == (LogTabEvent::Fetch { all_remotes: false }, c.fetch));
            lemma_log_tab_field(s, c, k, 38);
        }
    }
    assert(names_shortcut(c.fetch_all, k) && only_named_by(c, k, LogTabEvent::Fetch { all_remotes: true })
        ==> lookup(with_log_tab_config(s, c), k) == Some(LogTabEvent::Fetch { all_remotes: true })) by {
        if names_shortcut(c.fetch_all, k) && only_named_by(c, k, LogTabEvent::Fetch { all_remotes: true }) {
            assert(us[39] == (LogTabEvent::Fetch { all_remotes: true }, c.fetch_all));
            lemma_log_tab_field(s, c, k, 39);
        }
    }
    assert(names_shortcut(c.open_help, k) && only_named_by(c, k, LogTabEvent::OpenHelp)
        ==> lookup(with_log_tab_config(s, c), k) == Some(LogTabEvent::OpenHelp)) by {
        if names_shortcut(c.open_help, k) && only_named_by(c, k, LogTabEvent::OpenHelp) {
            assert(us[40] == (LogTabEvent::OpenHelp, c.open_help));
            lemma_log_tab_field(s, c, k, 40);
        }
    }
}

/// Each shared scroll binding of the configuration configures its own
/// scroll event of the log tab: a shortcut that the field names, and no
/// other shared scroll field names, leads to that event (where the log
/// tab's own section is not set).
pub proof fn lemma_scroll_config_binds(s: Seq<(Shortcut, LogTabEvent)>, c: KeybindsConfig, k: Shortcut)
    ensures
        c.log_tab is None ==> (names_shortcut(c.scroll_down, k) && !names_shortcut(c.scroll_up, k) && !names_shortcut(c.scroll_down_half, k) && !names_shortcut(c.scroll_up_half, k)
            ==> lookup(with_config(s, c), k) == Some(LogTabEvent::ScrollDown)),
        c.log_tab is None ==> (names_shortcut(c.scroll_up, k) && !names_shortcut(c.scroll_down, k) && !names_shortcut(c.scroll_down_half, k) && !names_shortcut(c.scroll_up_half, k)
            ==> lookup(with_config(s, c), k) == Some(LogTabEvent::ScrollUp)),
        c.log_tab is None ==> (names_shortcut(c.scroll_down_half, k) && !names_shortcut(c.scroll_down, k) && !names_shortcut(c.scroll_up, k) && !names_shortcut(c.scroll_up_half, k)
            ==> lookup(with_config(s, c), k) == Some(LogTabEvent::ScrollDownHalf)),
        c.log_tab is None ==> (names_shortcut(c.scroll_up_half, k) && !names_shortcut(c.scroll_down, k) && !names_shortcut(c.scroll_up, k) && !names_shortcut(c.scroll_down_half, k)
            ==> lookup(with_config(s, c), k) == Some(LogTabEvent::ScrollUpHalf)),
{
    let t0 = s;
    let t1 = update(t0, LogTabEvent::ScrollDown, c.scroll_down);
    let t2 = update(t1, LogTabEvent::ScrollUp, c.scroll_up);
    let t3 = update(t2, LogTabEvent::ScrollDownHalf, c.scroll_down_half);
    let t4 = update(t3, LogTabEvent::ScrollUpHalf, c.scroll_up_half);
    if names_shortcut(c.scroll_down, k) && !names_shortcut(c.scroll_up, k) && !names_shortcut(c.scroll_down_half, k) && !names_shortcut(c.scroll_up_half, k) {
        lemma_update_names(t0, LogTabEvent::ScrollDown, c.scroll_down, k);
        lemma_update_keeps(t1, LogTabEvent::ScrollUp, c.scroll_up, k);
        lemma_update_keeps(t2, LogTabEvent::ScrollDownHalf, c.scroll_down_half, k);
        lemma_update_keeps(t3, LogTabEvent::ScrollUpHalf, c.scroll_up_half, k);
    }
    if names_shortcut(c.scroll_up, k) && !names_shortcut(c.scroll_down, k) && !names_shortcut(c.scroll_down_half, k) && !names_shortcut(c.scroll_up_half, k) {
        lemma_update_names(t1, LogTabEvent::ScrollUp, c.scroll_up, k);
        lemma_update_keeps(t2, LogTabEvent::ScrollDownHalf, c.scroll_down_half, k);
        lemma_update_keeps(t3, LogTabEvent::ScrollUpHalf, c.scroll_up_half, k);
    }
    if names_shortcut(c.scroll_down_half, k) && !names_shortcut(c.scroll_down, k) && !names_shortcut(c.scroll_up, k) && !names_shortcut(c.scroll_up_half, k) {
        lemma_update_names(t2, LogTabEvent::ScrollDownHalf, c.scroll_down_half, k);
        lemma_update_keeps(t3, LogTabEvent::ScrollUpHalf, c.scroll_up_half, k);
    }
    if names_shortcut(c.scroll_up_half, k) && !names_shortcut(c.scroll_down, k) && !names_shortcut(c.scroll_up, k) && !names_shortcut(c.scroll_down_half, k) {
        lemma_update_names(t3, LogTabEvent::ScrollUpHalf, c.scroll_up_half, k);
    }
}

/// The message popup's own section configures its scroll events, over the
/// shared scroll bindings: a shortcut that a field of the section names,
/// and no other field of the section names, leads to that field's event,
/// whatever the shared bindings say.
pub proof fn lemma_popup_config_binds(s: Seq<(Shortcut, MessagePopupEvent)>, c: KeybindsConfig, m: MessagePopupKeybindsConfig, k: Shortcut)
    requires
        c.message_popup == Some(m),
    ensures
        names_shortcut(m.scroll_down, k) && !names_shortcut(m.scroll_up, k) && !names_shortcut(m.scroll_down_half, k) && !names_shortcut(m.scroll_up_half, k) && !names_shortcut(m.scroll_down_page, k) && !names_shortcut(m.scroll_up_page, k)
            ==> lookup(with_popup_config(s, c), k) == Some(MessagePopupEvent::ScrollDown),
        names_shortcut(m.scroll_up, k) && !names_shortcut(m.scroll_down, k) && !names_shortcut(m.scroll_down_half, k) && !names_shortcut(m.scroll_up_half, k) && !names_shortcut(m.scroll_down_page, k) && !names_shortcut(m.scroll_up_page, k)
            ==> lookup(with_popup_config(s, c), k) == Some(MessagePopupEvent::ScrollUp),
        names_shortcut(m.scroll_down_half, k) && !names_shortcut(m.scroll_down, k) && !names_shortcut(m.scroll_up, k) && !names_shortcut(m.scroll_up_half, k) && !names_shortcut(m.scroll_down_page, k) && !names_shortcut(m.scroll_up_page, k)
            ==> lookup(with_popup_config(s, c), k) == Some(MessagePopupEvent::ScrollDownHalf),
        names_shortcut(m.scroll_up_half, k) && !names_shortcut(m.scroll_down, k) && !names_shortcut(m.scroll_up, k) && !names_shortcut(m.scroll_down_half, k) && !names_shortcut(m.scroll_down_page, k) && !names_shortcut(m.scroll_up_page, k)
            ==> lookup(with_popup_config(s, c), k) == Some(MessagePopupEvent::ScrollUpHalf),
        names_shortcut(m.scroll_down_page, k) && !names_shortcut(m.scroll_down, k) && !names_shortcut(m.scroll_up, k) && !names_shortcut(m.scroll_down_half, k) && !names_shortcut(m.scroll_up_half, k) && !names_shortcut(m.scroll_up_page, k)
            ==> lookup(with_popup_config(s, c), k) == Some(MessagePopupEvent::ScrollDownPage),
        names_shortcut(m.scroll_up_page, k) && !names_shortcut(m.scroll_down, k) && !names_shortcut(m.scroll_up, k) && !names_shortcut(m.scroll_down_half, k) && !names_shortcut(m.scroll_up_half, k) && !names_shortcut(m.scroll_down_page, k)
            ==> lookup(with_popup_config(s, c), k) == Some(MessagePopupEvent::ScrollUpPage),
{
    let t0 = s;
    let t1 = update(t0, MessagePopupEvent::ScrollDown, c.scroll_down);
    let t2 = update(t1, MessagePopupEvent::ScrollUp, c.scroll_up);
    let t3 = update(t2, MessagePopupEvent::ScrollDownHalf, c.scroll_down_half);
    let t4 = update(t3, MessagePopupEvent::ScrollUpHalf, c.scroll_up_half);
    let u0 = t4;
    let u1 = update(u0, MessagePopupEvent::ScrollDown, m.scroll_down);
    let u2 = update(u1, MessagePopupEvent::ScrollUp, m.scroll_up);
    let u3 = update(u2, MessagePopupEvent::ScrollDownHalf, m.scroll_down_half);
    let u4 = update(u3, MessagePopupEvent::ScrollUpHalf, m.scroll_up_half);
    let u5 = update(u4, MessagePopupEvent::ScrollDownPage, m.scroll_down_page);
    let u6 = update(u5, MessagePopupEvent::ScrollUpPage, m.scroll_up_page);
    if names_shortcut(m.scroll_down, k) && !names_shortcut(m.scroll_up, k) && !names_shortcut(m.scroll_down_half, k) && !names_shortcut(m.scroll_up_half, k) && !names_shortcut(m.scroll_down_page, k) && !names_shortcut(m.scroll_up_page, k) {
        lemma_update_names(u0, MessagePopupEvent::ScrollDown, m.scroll_down, k);
        lemma_update_keeps(u1, MessagePopupEvent::ScrollUp, m.scroll_up, k);
        lemma_update_keeps(u2, MessagePopupEvent::ScrollDownHalf, m.scroll_down_half, k);
        lemma_update_keeps(u3, MessagePopupEvent::ScrollUpHalf, m.scroll_up_half, k);
        lemma_update_keeps(u4, MessagePopupEvent::ScrollDownPage, m.scroll_down_page, k);
        lemma_update_keeps(u5, MessagePopupEvent::ScrollUpPage, m.scroll_up_page, k);
    }
    if names_shortcut(m.scroll_up, k) && !names_shortcut(m.scroll_down, k) && !names_shortcut(m.scroll_down_half, k) && !names_shortcut(m.scroll_up_half, k) && !names_shortcut(m.scroll_down_page, k) && !names_shortcut(m.scroll_up_page, k) {
        lemma_update_names(u1, MessagePopupEvent::ScrollUp, m.scroll_up, k);
        lemma_update_keeps(u2, MessagePopupEvent::ScrollDownHalf, m.scroll_down_half, k);
        lemma_update_keeps(u3, MessagePopupEvent::ScrollUpHalf, m.scroll_up_half, k);
        lemma_update_keeps(u4, MessagePopupEvent::ScrollDownPage, m.scroll_down_page, k);
        lemma_update_keeps(u5, MessagePopupEvent::ScrollUpPage, m.scroll_up_page, k);
    }
    if names_shortcut(m.scroll_down_half, k) && !names_shortcut(m.scroll_down, k) && !names_shortcut(m.scroll_up, k) && !names_shortcut(m.scroll_up_half, k) && !names_shortcut(m.scroll_down_page, k) && !names_shortcut(m.scroll_up_page, k) {
        lemma_update_names(u2, MessagePopupEvent::ScrollDownHalf, m.scroll_down_half, k);
        lemma_update_keeps(u3, MessagePopupEvent::ScrollUpHalf, m.scroll_up_half, k);
        lemma_update_keeps(u4, MessagePopupEvent::ScrollDownPage, m.scroll_down_page, k);
        lemma_update_keeps(u5, MessagePopupEvent::ScrollUpPage, m.scroll_up_page, k);
    }
    if names_shortcut(m.scroll_up_half, k) && !names_shortcut(m.scroll_down, k) && !names_shortcut(m.scroll_up, k) && !names_shortcut(m.scroll_down_half, k) && !names_shortcut(m.scroll_down_page, k) && !names_shortcut(m.scroll_up_page, k) {
        lemma_update_names(u3, MessagePopupEvent::ScrollUpHalf, m.scroll_up_half, k);
        lemma_update_keeps(u4, MessagePopupEvent::ScrollDownPage, m.scroll_down_page, k);
        lemma_update_keeps(u5, MessagePopupEvent::ScrollUpPage, m.scroll_up_page, k);
    }
    if names_shortcut(m.scroll_down_page, k) && !names_shortcut(m.scroll_down, k) && !names_shortcut(m.scroll_up, k) && !names_shortcut(m.scroll_down_half, k) && !names_shortcut(m.scroll_up_half, k) && !names_shortcut(m.scroll_up_page, k) {
        lemma_update_names(u4, MessagePopupEvent::ScrollDownPage, m.scroll_down_page, k);
        lemma_update_keeps(u5, MessagePopupEvent::ScrollUpPage, m.scroll_up_page, k);
    }
    if names_shortcut(m.scroll_up_page, k) && !names_shortcut(m.scroll_down, k) && !names_shortcut(m.scroll_up, k) && !names_shortcut(m.scroll_down_half, k) && !names_shortcut(m.scroll_up_half, k) && !names_shortcut(m.scroll_down_page, k) {
        lemma_update_names(u5, MessagePopupEvent::ScrollUpPage, m.scroll_up_page, k);
    }
}

/// Whether a key can be written in the configuration and read back: any
/// character but `+` (which joins the modifiers), the named keys, and the
/// function keys `f1` to `f12`.
pub open spec fn writable_key(k: Key) -> bool {
    match k {
        Key::Char(c) => c != '+',
        Key::F(n) => 1 <= n <= 12,
        _ => true,
    }
}

/// The name of a function key: `f`, then one digit below 10, or `1` and
/// the last digit from 10 on.
proof fn lemma_fkey_text(n: u8)
    requires
        1 <= n <= 12,
    ensures
        n < 10 ==> key_name(Key::F(n)) == seq!['f', crate::text::digit_char(n as int)],
        n >= 10 ==> key_name(Key::F(n)) == seq!['f', '1', crate::text::digit_char((n % 10) as int)],
{
    reveal_with_fuel(crate::text::decimal, 2);
    if n < 10 {
        assert(key_name(Key::F(n)) =~= seq!['f', crate::text::digit_char(n as int)]);
    } else {
        assert(crate::text::decimal(1) =~= seq!['1']);
        assert(key_name(Key::F(n)) =~= seq!['f', '1', crate::text::digit_char((n % 10) as int)]);
    }
}

/// Different function keys have different names.
proof fn lemma_fkey_names_differ(m: u8, n: u8)
    requires
        1 <= m <= 12,
        1 <= n <= 12,
        m != n,
    ensures
        key_name(Key::F(m)) != key_name(Key::F(n)),
{
    lemma_fkey_text(m);
    lemma_fkey_text(n);
    if m < 10 && n < 10 {
        assert(key_name(Key::F(m))[1] != key_name(Key::F(n))[1]);
    } else if m >= 10 && n >= 10 {
        assert(key_name(Key::F(m))[2] != key_name(Key::F(n))[2]);
    } else {
        assert(key_name(Key::F(m)).len() != key_name(Key::F(n)).len());
    }
}

/// The search for a function key's name from `f<m>` on finds it.
proof fn lemma_fkey_search(n: u8, m: u8)
    requires
        1 <= m <= n <= 12,
    ensures
        fkey_of_name(key_name(Key::F(n)), m) == Some(Key::F(n)),
    decreases n - m,
{
    if m < n {
        lemma_fkey_names_differ(m, n);
        lemma_fkey_search(n, (m + 1) as u8);
    }
}

/// The function keys are read back from their names.
proof fn lemma_fkey_name(n: u8)
    requires
        1 <= n <= 12,
    ensures
        fkey_of_name(key_name(Key::F(n)), 1) == Some(Key::F(n)),
        key_name(Key::F(n)).len() >= 2,
        key_name(Key::F(n))[0] == 'f',
        !key_name(Key::F(n)).contains('+'),
{
    lemma_fkey_search(n, 1);
    lemma_fkey_text(n);
    assert forall|i: int| 0 <= i < key_name(Key::F(n)).len() implies key_name(Key::F(n))[i] != '+' by {}
}

/// A key is read back from its name, which holds no `+`.
pub proof fn lemma_key_name(k: Key)
    requires
        writable_key(k),
    ensures
        key_of_name(key_name(k)) == Some(k),
        !key_name(k).contains('+'),
{
    reveal_strlit("space");
    reveal_strlit("enter");
    reveal_strlit("esc");
    reveal_strlit("backspace");
    reveal_strlit("tab");
    reveal_strlit("backtab");
    reveal_strlit("up");
    reveal_strlit("down");
    reveal_strlit("left");
    reveal_strlit("right");
    reveal_strlit("home");
    reveal_strlit("end");
    reveal_strlit("pageup");
    reveal_strlit("pagedown");
    reveal_strlit("delete");
    reveal_strlit("insert");
    assert("space"@.len() == 5 && "space"@[0] == 's' && "space"@[1] == 'p');
    assert("enter"@.len() == 5 && "enter"@[0] == 'e' && "enter"@[1] == 'n');
    assert("esc"@.len() == 3 && "esc"@[0] == 'e' && "esc"@[1] == 's');
    assert("backspace"@.len() == 9 && "backspace"@[0] == 'b' && "backspace"@[1] == 'a');
    assert("tab"@.len() == 3 && "tab"@[0] == 't' && "tab"@[1] == 'a');
    assert("backtab"@.len() == 7 && "backtab"@[0] == 'b' && "backtab"@[1] == 'a');
    assert("up"@.len() == 2 && "up"@[0] == 'u' && "up"@[1] == 'p');
    assert("down"@.len() == 4 && "down"@[0] == 'd' && "down"@[1] == 'o');
    assert("left"@.len() == 4 && "left"@[0] == 'l' && "left"@[1] == 'e');
    assert("right"@.len() == 5 && "right"@[0] == 'r' && "right"@[1] == 'i');
    assert("home"@.len() == 4 && "home"@[0] == 'h' && "home"@[1] == 'o');
    assert("end"@.len() == 3 && "end"@[0] == 'e' && "end"@[1] == 'n');
    assert("pageup"@.len() == 6 && "pageup"@[0] == 'p' && "pageup"@[1] == 'a');
    assert("pagedown"@.len() == 8 && "pagedown"@[0] == 'p' && "pagedown"@[1] == 'a');
    assert("delete"@.len() == 6 && "delete"@[0] == 'd' && "delete"@[1] == 'e');
    assert("insert"@.len() == 6 && "insert"@[0] == 'i' && "insert"@[1] == 'n');
    match k {
        Key::F(n) => {
            lemma_fkey_name(n);
            let name = key_name(k);
            assert(name.len() != 1);
            assert(name != "space"@ && name != "enter"@ && name != "esc"@ && name != "backspace"@ && name != "tab"@
                && name != "backtab"@ && name != "up"@ && name != "down"@ && name != "left"@ && name != "right"@
                && name != "home"@ && name != "end"@ && name != "pageup"@ && name != "pagedown"@ && name != "delete"@
                && name != "insert"@) by {
                assert(name[0] == 'f');
                assert("space"@[0] == 's' && "enter"@[0] == 'e' && "esc"@[0] == 'e' && "backspace"@[0] == 'b');
                assert("tab"@[0] == 't' && "backtab"@[0] == 'b' && "up"@[0] == 'u' && "down"@[0] == 'd');
                assert("left"@[0] == 'l' && "right"@[0] == 'r' && "home"@[0] == 'h' && "end"@[0] == 'e');
                assert("pageup"@[0] == 'p' && "pagedown"@[0] == 'p' && "delete"@[0] == 'd' && "insert"@[0] == 'i');
            }
        },
        Key::Char(c) => {
            if c == ' ' {
                assert(!"space"@.contains('+'));
            } else {
                assert(!seq![c].contains('+')) by {
                    assert forall|i: int| 0 <= i < 1 implies seq![c][i] != '+' by {}
                }
            }
        },
        _ => {},
    }
}

/// Splitting at `+` a text made of `a` (without `+`), a `+` and `rest`
/// gives `a`, then the pieces of `rest`.
proof fn lemma_split_after(a: Seq<char>, rest: Seq<char>)
    requires
        !a.contains('+'),
    ensures
        split_on(a + seq!['+'] + rest, '+') == seq![a] + split_on(rest, '+'),
{
    let t = a + seq!['+'] + rest;
    assert forall|j: int| 0 <= j < a.len() implies t[j] != '+' by {
        assert(t[j] == a[j]);
    }
    lemma_find_char_is(t, '+', a.len() as int);
    assert(t.take(a.len() as int) =~= a);
    assert(t.skip(a.len() as int + 1) =~= rest);
}

/// A text without `+` is one piece.
proof fn lemma_split_plain(a: Seq<char>)
    requires
        !a.contains('+'),
    ensures
        split_on(a, '+') == seq![a],
{
    assert forall|j: int| 0 <= j < a.len() implies a[j] != '+' by {
        assert(a.contains(a[j]) || true);
        if a[j] == '+' {
            assert(a.contains('+'));
        }
    }
    lemma_find_char_is(a, '+', a.len() as int);
}

/// What a shortcut's text is read as is the shortcut: writing a shortcut
/// in its normal form with a key that can be written, and parsing the text,
/// gives it back.
pub proof fn lemma_parse_to_text(s: Shortcut)
    requires
        writable_key(s.key),
        s == normalized(s.key, s.ctrl, s.shift, s.alt),
    ensures
        spec_parse_shortcut(shortcut_text(s)) == Some(s),
{
    reveal_strlit("ctrl+");
    reveal_strlit("alt+");
    reveal_strlit("shift+");
    reveal_strlit("ctrl");
    reveal_strlit("alt");
    reveal_strlit("shift");
    lemma_key_name(s.key);
    let name = key_name(s.key);
    lemma_split_plain(name);
    let sh = if s.shift { "shift+"@ } else { Seq::<char>::empty() };
    let al = if s.alt { "alt+"@ } else { Seq::<char>::empty() };
    let ct = if s.ctrl { "ctrl+"@ } else { Seq::<char>::empty() };
    let shm: Seq<Seq<char>> = if s.shift { seq!["shift"@] } else { Seq::empty() };
    let alm: Seq<Seq<char>> = if s.alt { seq!["alt"@] } else { Seq::empty() };
    let ctm: Seq<Seq<char>> = if s.ctrl { seq!["ctrl"@] } else { Seq::empty() };
    assert(!"shift"@.contains('+')) by {
        assert forall|i: int| 0 <= i < 5 implies "shift"@[i] != '+' by {}
    }
    assert(!"alt"@.contains('+')) by {
        assert forall|i: int| 0 <= i < 3 implies "alt"@[i] != '+' by {}
    }
    assert(!"ctrl"@.contains('+')) by {
        assert forall|i: int| 0 <= i < 4 implies "ctrl"@[i] != '+' by {}
    }
    let p3 = sh + name;
    if s.shift {
        assert("shift+"@ =~= "shift"@ + seq!['+']);
        assert(p3 =~= "shift"@ + seq!['+'] + name);
        lemma_split_after("shift"@, name);
    } else {
        assert(p3 =~= name);
    }
    assert(split_on(p3, '+') =~= shm + seq![name]);
    let p2 = al + p3;
    if s.alt {
        assert("alt+"@ =~= "alt"@ + seq!['+']);
        assert(p2 =~= "alt"@ + seq!['+'] + p3);
        lemma_split_after("alt"@, p3);
    } else {
        assert(p2 =~= p3);
    }
    assert(split_on(p2, '+') =~= alm + shm + seq![name]);
    let p1 = ct + p2;
    if s.ctrl {
        assert("ctrl+"@ =~= "ctrl"@ + seq!['+']);
        assert(p1 =~= "ctrl"@ + seq!['+'] + p2);
        lemma_split_after("ctrl"@, p2);
    } else {
        assert(p1 =~= p2);
    }
    let parts = ctm + alm + shm + seq![name];
    assert(split_on(p1, '+') =~= parts);
    assert(shortcut_text(s) =~= p1);
    let mods = parts.drop_last();
    assert(mods =~= ctm + alm + shm);
    assert(parts.last() == name);
    assert forall|i: int| 0 <= i < mods.len() implies is_modifier(#[trigger] mods[i]) by {
        assert(mods[i] == "ctrl"@ || mods[i] == "alt"@ || mods[i] == "shift"@);
    }
    assert(mods.contains("ctrl"@) == s.ctrl) by {
        if s.ctrl {
            assert(mods[0] == "ctrl"@);
        } else {
            assert forall|i: int| 0 <= i < mods.len() implies mods[i] != "ctrl"@ by {
                assert(mods[i] == "alt"@ || mods[i] == "shift"@);
            }
        }
    }
    assert(mods.contains("alt"@) == s.alt) by {
        if s.alt {
            assert(mods[ctm.len() as int] == "alt"@);
        } else {
            assert forall|i: int| 0 <= i < mods.len() implies mods[i] != "alt"@ by {
                assert(mods[i] == "ctrl"@ || mods[i] == "shift"@);
            }
        }
    }
    assert(mods.contains("shift"@) == s.shift) by {
        if s.shift {
            assert(mods[(ctm.len() + alm.len()) as int] == "shift"@);
        } else {
            assert forall|i: int| 0 <= i < mods.len() implies mods[i] != "shift"@ by {
                assert(mods[i] == "ctrl"@ || mods[i] == "alt"@);
            }
        }
    }
}

} // verus!
