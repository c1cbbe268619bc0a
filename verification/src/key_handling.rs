//! What the keys do: the settings menu, the escape key's way between the editor, the
//! prompt and the menu, the prompt's commands, the tab bar and the outline, and the table
//! that decides what a frame's keys do to the code.
use vstd::prelude::*;
use crate::main_app::{MainApp, AppState, TabState, MenuState};
use crate::event_handler::{KeyParser, KeyCode, KeyModifiers};
use crate::colors::ColorTypes;
use crate::file_manager::FileTabs;
use crate::code_tabs::CodeTab;

verus! {

/// One step down the color support levels (true color to partial to basic).
pub open spec fn color_type_left(c: ColorTypes) -> ColorTypes {
    match c {
        ColorTypes::Basic => ColorTypes::Basic,
        ColorTypes::Partial => ColorTypes::Basic,
        ColorTypes::True => ColorTypes::Partial,
    }
}

/// One step up the color support levels.
pub open spec fn color_type_right(c: ColorTypes) -> ColorTypes {
    match c {
        ColorTypes::Basic => ColorTypes::Partial,
        ColorTypes::Partial => ColorTypes::True,
        ColorTypes::True => ColorTypes::True,
    }
}

/// Whether two states agree on everything but the settings (the color support level, the
/// shortcut modifier and the selected settings row).
pub open spec fn same_but_settings(a: MainApp, b: MainApp) -> bool {
    &&& a.appState == b.appState
    &&& a.tabState == b.tabState
    &&& a.codeTabs == b.codeTabs
    &&& a.fileBrowser == b.fileBrowser
    &&& a.allFiles == b.allFiles
    &&& a.lastTab == b.lastTab
    &&& a.renderMode == b.renderMode
    &&& a.exit == b.exit
    &&& a.currentCommand == b.currentCommand
    &&& a.colorMode.colorBindings == b.colorMode.colorBindings
    &&& a.menuState == b.menuState
    &&& a.suggested == b.suggested
}

/// Whether a key was pressed in the frame.
pub open spec fn pressed_key(p: KeyParser, k: KeyCode) -> bool {
    p.keyEvents@.contains(k)
}

/// Whether a modifier was held in the frame.
pub open spec fn held(p: KeyParser, m: KeyModifiers) -> bool {
    p.keyModifiers@.contains(m)
}

/// Whether a character was typed in the frame.
pub open spec fn typed(p: KeyParser, c: char) -> bool {
    p.charEvents@.contains(c)
}

/// A number as a string of decimal digits.
pub open spec fn digits_value(s: Seq<char>) -> nat
    decreases s.len(),
{
    if s.len() == 0 {
        0
    } else {
        digits_value(s.drop_last()) * 10 + ((s.last() as u32) - ('0' as u32)) as nat
    }
}

pub open spec fn all_digits(s: Seq<char>) -> bool {
    forall|i: int| 0 <= i < s.len() ==> '0' <= #[trigger] s[i] <= '9'
}

/// What `usize::from_str` reads from a text: an optional `+`, then one or more decimal
/// digits whose value fits a `usize`.
pub open spec fn usize_text(s: Seq<char>) -> Option<nat> {
    let d = if s.len() > 0 && s[0] == '+' {
        s.drop_first()
    } else {
        s
    };
    if d.len() > 0 && all_digits(d) && digits_value(d) <= usize::MAX {
        Some(digits_value(d))
    } else {
        None
    }
}

proof fn lemma_digits_grow(s: Seq<char>, k: int)
    requires
        0 <= k <= s.len(),
        all_digits(s),
    ensures
        digits_value(s.subrange(0, k)) <= digits_value(s),
    decreases s.len() - k,
{
    if k < s.len() {
        lemma_digits_grow(s, k + 1);
        let t = s.subrange(0, k + 1);
        assert(t.drop_last() =~= s.subrange(0, k));
        assert(t.last() == s[k]);
    } else {
        assert(s.subrange(0, k) =~= s);
    }
}

/// Reads a `usize` the way `usize::from_str` does (see `usize_text`).
pub fn parse_usize(s: &str) -> (n: Option<usize>)
    ensures
        match usize_text(s@) {
            Some(v) => n == Some(v as usize),
            None => n is None,
        },
{
    let len = s.unicode_len();
    let start: usize = if len > 0 && s.get_char(0) == '+' {
        1
    } else {
        0
    };
    let ghost d = if s@.len() > 0 && s@[0] == '+' {
        s@.drop_first()
    } else {
        s@
    };
    proof {
        assert(d =~= s@.subrange(start as int, len as int));
    }
    if start == len {
        return None;
    }
    let mut value: usize = 0;
    let mut k: usize = start;
    while k < len
        invariant
            start <= k <= len,
            len == s@.len(),
            d == s@.subrange(start as int, len as int),
            d == (if s@.len() > 0 && s@[0] == '+' {
                s@.drop_first()
            } else {
                s@
            }),
            all_digits(s@.subrange(start as int, k as int)),
            value == digits_value(s@.subrange(start as int, k as int)),
        decreases len - k,
    {
        let c = s.get_char(k);
        let ghost pre = s@.subrange(start as int, k as int);
        let ghost next = s@.subrange(start as int, k + 1);
        proof {
            assert(next.drop_last() =~= pre);
            assert(next.last() == c);
        }
        if (c as u32) < 0x30 || (c as u32) > 0x39 {
            proof {
                assert(d[k - start] == c);
                assert(!all_digits(d));
                assert(usize_text(s@) is None);
            }
            return None;
        }
        let digit: usize = ((c as u32) - ('0' as u32)) as usize;
        if value > (usize::MAX - digit) / 10 {
            proof {
                assert(all_digits(next));
                assert(digits_value(next) == value * 10 + digit);
                assert(value * 10 + digit > usize::MAX) by (nonlinear_arith)
                    requires
                        value > (usize::MAX - digit) / 10,
                        digit <= 9,
                ;
                if all_digits(d) {
                    lemma_digits_grow(d, k + 1 - start);
                    assert(d.subrange(0, k + 1 - start) =~= next);
                }
                assert(usize_text(s@) is None);
            }
            return None;
        }
        proof {
            assert(value * 10 + digit <= usize::MAX) by (nonlinear_arith)
                requires
                    value <= (usize::MAX - digit) / 10,
                    digit <= 9,
            ;
            assert forall|i: int| 0 <= i < next.len() implies '0' <= #[trigger] next[i] <= '9' by {
                if i < pre.len() {
                    assert(next[i] == pre[i]);
                }
            }
        }
        value = value * 10 + digit;
        k = k + 1;
    }
    Some(value)
}

/// The text after the first character of a command, when that character takes one byte
/// (as slicing a string after its first byte allows).
pub open spec fn command_argument(cmd: Seq<char>) -> Option<Seq<char>> {
    if cmd.len() > 0 && (cmd[0] as u32) < 0x80 {
        Some(cmd.drop_first())
    } else {
        None
    }
}

/// The line a jump by a number in the command lands on, moving up or down from `cursor`.
pub open spec fn jump_line(cmd: Seq<char>, cursor: usize, up: bool) -> Option<int> {
    match command_argument(cmd) {
        None => None,
        Some(arg) => match usize_text(arg) {
            None => None,
            Some(n) => Some(
                if up {
                    if cursor > n {
                        cursor - n
                    } else {
                        0
                    }
                } else {
                    if cursor + n <= usize::MAX {
                        cursor + n
                    } else {
                        usize::MAX as int
                    }
                },
            ),
        },
    }
}

/// The cursor after jumping to line `position` with `scalar01` (see `CodeTab::JumpCursor`).
pub open spec fn jump_target(t: CodeTab, position: int, scalar01: int) -> (usize, usize) {
    let n = t.lines@.len();
    let line = if position < n {
        position
    } else {
        n - 1
    };
    let l = t.text()[line];
    let start = l.len() * scalar01 + crate::code_tabs::up_to_first_nonspace(l);
    (line as usize, if start <= l.len() {
        start as usize
    } else {
        l.len() as usize
    })
}

/// Every line of the tab is short enough to be measured twice over in a `usize`.
pub open spec fn lines_fit(t: CodeTab) -> bool {
    forall|i: int| 0 <= i < t.lines@.len() ==> #[trigger] t.text()[i].len() * 2 <= usize::MAX
}

/// Whether the tabs `b` are the tabs `a` with only the cursor of tab `lt` moved.
pub open spec fn tabs_cursor_moved(a: crate::tabs::CodeTabs, b: crate::tabs::CodeTabs, lt: int) -> bool {
    &&& a.tabFileNames == b.tabFileNames
    &&& a.currentTab == b.currentTab
    &&& a.panes == b.panes
    &&& a.tabs@.len() == b.tabs@.len()
    &&& forall|i: int| 0 <= i < a.tabs@.len() && i != lt ==> #[trigger] a.tabs@[i] == b.tabs@[i]
    &&& 0 <= lt < a.tabs@.len() ==> {
        let x = a.tabs@[lt];
        let y = b.tabs@[lt];
        &&& y.lines == x.lines
        &&& y.lineTokens == x.lineTokens
        &&& y.lineTokenFlags == x.lineTokenFlags
        &&& y.scopeJumps == x.scopeJumps
        &&& y.scopes == x.scopes
        &&& y.linearScopes == x.linearScopes
        &&& y.cursorEnd == x.cursorEnd
        &&& y.highlighting == x.highlighting
        &&& y.scrolled == x.scrolled
        &&& y.changeBuffer == x.changeBuffer
        &&& y.redoneBuffer == x.redoneBuffer
    }
}

/// Whether `b` is `a` with only the cursor of tab `lt` moved (and its mouse scrolling
/// dropped).
pub open spec fn same_but_cursor(a: MainApp, b: MainApp, lt: int) -> bool {
    &&& a.appState == b.appState
    &&& a.tabState == b.tabState
    &&& a.fileBrowser == b.fileBrowser
    &&& a.allFiles == b.allFiles
    &&& a.lastTab == b.lastTab
    &&& a.renderMode == b.renderMode
    &&& a.exit == b.exit
    &&& a.currentCommand == b.currentCommand
    &&& a.preferredCommandKeybind == b.preferredCommandKeybind
    &&& a.colorMode == b.colorMode
    &&& a.menuState == b.menuState
    &&& a.currentMenuSettingBox == b.currentMenuSettingBox
    &&& a.suggested == b.suggested
    &&& tabs_cursor_moved(a.codeTabs, b.codeTabs, lt)
}

/// What the code keys of a frame do, besides typing its characters (see `code_key_action`).
#[derive(Debug, Clone, Copy, PartialEq, Eq, Structural)]
pub enum CodeKey {
    /// Delete back one character, or the selection.
    DeleteBack,
    /// Delete forward one character.
    DeleteForward,
    DeleteTokenBack,
    DeleteTokenForward,
    DeleteToLineStart,
    DeleteToLineEnd,
    ClosePane,
    /// Move the cursor; `word` moves by token (left and right) or to the scope's start or
    /// end (up and down), `edge` to the line's indentation or end (left and right) or to the
    /// file's first or last line (up and down).
    Left,
    Right,
    Up,
    Down,
    WordLeft,
    WordRight,
    WordUp,
    WordDown,
    EdgeLeft,
    EdgeRight,
    EdgeUp,
    EdgeDown,
    Unindent,
    Indent,
    Complete,
    LineBreak,
    SelectAll,
    Save,
    Find,
    Undo,
    Redo,
    Copy,
    Cut,
    Paste,
    Nothing,
}

/// What a frame's keys do to the code: whether its characters are typed (not while a
/// command or control modifier is held), whether a cursor move extends the selection
/// (shift), and the one key action taken, in this order of precedence: delete, closing the
/// pane (option with `w`), the arrows, tab, return, select-all (control with `a`), and the
/// shortcuts with the preferred modifier (save `s`, find `f`, undo `z`/`u` or redo with shift
/// or `r`, copy `c`, cut `x`, paste `v`).
pub open spec fn code_key_action(p: KeyParser, preferred: KeyModifiers, noSuggestion: bool) -> (bool, bool, CodeKey) {
    let option = held(p, KeyModifiers::Option);
    let shift = held(p, KeyModifiers::Shift);
    let command = held(p, preferred);
    let typing = !(held(p, KeyModifiers::Command) || held(p, KeyModifiers::Control));
    let key = if pressed_key(p, KeyCode::Delete) {
        if option {
            if shift {
                CodeKey::DeleteTokenForward
            } else {
                CodeKey::DeleteTokenBack
            }
        } else if command {
            if shift {
                CodeKey::DeleteToLineEnd
            } else {
                CodeKey::DeleteToLineStart
            }
        } else if shift {
            CodeKey::DeleteForward
        } else {
            CodeKey::DeleteBack
        }
    } else if typed(p, 'w') && option {
        CodeKey::ClosePane
    } else if pressed_key(p, KeyCode::Left) {
        if option {
            CodeKey::WordLeft
        } else if command {
            CodeKey::EdgeLeft
        } else {
            CodeKey::Left
        }
    } else if pressed_key(p, KeyCode::Right) {
        if option {
            CodeKey::WordRight
        } else if command {
            CodeKey::EdgeRight
        } else {
            CodeKey::Right
        }
    } else if pressed_key(p, KeyCode::Up) {
        if option {
            CodeKey::WordUp
        } else if command {
            CodeKey::EdgeUp
        } else {
            CodeKey::Up
        }
    } else if pressed_key(p, KeyCode::Down) {
        if option {
            CodeKey::WordDown
        } else if command {
            CodeKey::EdgeDown
        } else {
            CodeKey::Down
        }
    } else if pressed_key(p, KeyCode::Tab) {
        if shift {
            CodeKey::Unindent
        } else if noSuggestion || !option {
            CodeKey::Indent
        } else {
            CodeKey::Complete
        }
    } else if pressed_key(p, KeyCode::Return) {
        CodeKey::LineBreak
    } else if typed(p, 'a') && held(p, KeyModifiers::Control) {
        CodeKey::SelectAll
    } else if command && typed(p, 's') {
        CodeKey::Save
    } else if command && typed(p, 'f') {
        CodeKey::Find
    } else if command && (typed(p, 'z') || typed(p, 'u') || typed(p, 'r')) {
        if shift || typed(p, 'r') {
            CodeKey::Redo
        } else {
            CodeKey::Undo
        }
    } else if command && typed(p, 'c') {
        CodeKey::Copy
    } else if command && typed(p, 'x') {
        CodeKey::Cut
    } else if command && typed(p, 'v') {
        CodeKey::Paste
    } else {
        CodeKey::Nothing
    };
    (typing, shift, key)
}

/// The escape key: from the code to the prompt (on the file browser), from the prompt back
/// to the code, and otherwise to the menu's first page.
pub open spec fn escaped(app: MainApp) -> (AppState, TabState, MenuState) {
    match app.appState {
        AppState::Tabs => (AppState::CommandPrompt, TabState::Files, app.menuState),
        AppState::CommandPrompt => (
            AppState::Tabs,
            if app.tabState == TabState::Files || app.tabState == TabState::Tabs {
                TabState::Code
            } else {
                app.tabState
            },
            app.menuState,
        ),
        AppState::Menu => (AppState::Menu, app.tabState, MenuState::Welcome),
    }
}

/// The panel the prompt's tab key moves to (code, files, tabs, and round again).
pub open spec fn next_panel(t: TabState) -> TabState {
    match t {
        TabState::Code => TabState::Files,
        TabState::Files => TabState::Tabs,
        TabState::Tabs => TabState::Code,
    }
}

fn has_key(p: &KeyParser, k: KeyCode) -> (b: bool)
    ensures
        b == pressed_key(*p, k),
{
    p.ContainsKeyCode(k)
}

fn has_modifier(p: &KeyParser, m: KeyModifiers) -> (b: bool)
    ensures
        b == held(*p, m),
{
    p.ContainsModifier(&m)
}

fn has_char(p: &KeyParser, c: char) -> (b: bool)
    ensures
        b == typed(*p, c),
{
    p.ContainsChar(c)
}

impl MainApp {
    /// The state the editor starts in: the menu's first page, command as the shortcut
    /// modifier, the default colors, and no command typed.
    pub fn new(codeTabs: crate::tabs::CodeTabs, fileBrowser: crate::file_manager::FileBrowser) -> (app: MainApp)
        ensures
            app.appState == AppState::Menu,
            app.tabState == TabState::Code,
            app.codeTabs == codeTabs,
            app.fileBrowser == fileBrowser,
            app.allFiles@.len() == 0,
            app.lastTab == 0,
            !app.exit,
            app.currentCommand@.len() == 0,
            app.preferredCommandKeybind == KeyModifiers::Command,
            app.colorMode.colorType == ColorTypes::True,
            app.menuState == MenuState::Welcome,
            app.currentMenuSettingBox == 0,
            app.suggested@.len() == 0,
            app.debugInfo@.len() == 0,
    {
        MainApp {
            appState: AppState::Menu,
            tabState: TabState::Code,
            codeTabs,
            fileBrowser,
            allFiles: Vec::new(),
            lastTab: 0,
            renderMode: crate::term_render::ColorMode::Dark,
            exit: false,
            currentCommand: String::new(),
            preferredCommandKeybind: KeyModifiers::Command,
            colorMode: crate::colors::ColorMode::default(),
            menuState: MenuState::Welcome,
            currentMenuSettingBox: 0,
            suggested: String::new(),
            debugInfo: String::new(),
        }
    }

    /// The left arrow in the settings: a lower color support level on the first row, the
    /// command key as the shortcut modifier on the second.
    pub fn HandleSettingsLeft(&mut self, _keyEvents: &KeyParser)
        ensures
            same_but_settings(*old(self), *final(self)),
            final(self).currentMenuSettingBox == old(self).currentMenuSettingBox,
            final(self).colorMode.colorType == if old(self).currentMenuSettingBox == 0 {
                color_type_left(old(self).colorMode.colorType)
            } else {
                old(self).colorMode.colorType
            },
            final(self).preferredCommandKeybind == if old(self).currentMenuSettingBox == 1
                && old(self).preferredCommandKeybind == KeyModifiers::Control {
                KeyModifiers::Command
            } else {
                old(self).preferredCommandKeybind
            },
    {
        if self.currentMenuSettingBox == 0 {
            self.colorMode.colorType = match self.colorMode.colorType {
                ColorTypes::Basic => ColorTypes::Basic,
                ColorTypes::Partial => ColorTypes::Basic,
                ColorTypes::True => ColorTypes::Partial,
            };
        } else if self.currentMenuSettingBox == 1 {
            if self.preferredCommandKeybind == KeyModifiers::Control {
                self.preferredCommandKeybind = KeyModifiers::Command;
            }
        }
    }

    /// The right arrow in the settings: a higher color support level on the first row, the
    /// control key as the shortcut modifier on the second.
    pub fn HandleSettingsRight(&mut self, _keyEvents: &KeyParser)
        ensures
            same_but_settings(*old(self), *final(self)),
            final(self).currentMenuSettingBox == old(self).currentMenuSettingBox,
            final(self).colorMode.colorType == if old(self).currentMenuSettingBox == 0 {
                color_type_right(old(self).colorMode.colorType)
            } else {
                old(self).colorMode.colorType
            },
            final(self).preferredCommandKeybind == if old(self).currentMenuSettingBox == 1
                && old(self).preferredCommandKeybind == KeyModifiers::Command {
                KeyModifiers::Control
            } else {
                old(self).preferredCommandKeybind
            },
    {
        if self.currentMenuSettingBox == 0 {
            self.colorMode.colorType = match self.colorMode.colorType {
                ColorTypes::Basic => ColorTypes::Partial,
                ColorTypes::Partial => ColorTypes::True,
                ColorTypes::True => ColorTypes::True,
            };
        } else if self.currentMenuSettingBox == 1 {
            if self.preferredCommandKeybind == KeyModifiers::Command {
                self.preferredCommandKeybind = KeyModifiers::Control;
            }
        }
    }

    /// The settings page's keys: left and right change the selected row's setting, up and
    /// down select a row.
    pub fn HandleSettingsKeyEvents(&mut self, keyEvents: &KeyParser)
        requires
            !pressed_key(*keyEvents, KeyCode::Left) && !pressed_key(*keyEvents, KeyCode::Right) && !pressed_key(
                *keyEvents,
                KeyCode::Up,
            ) && pressed_key(*keyEvents, KeyCode::Down) ==> old(self).currentMenuSettingBox < usize::MAX,
        ensures
            same_but_settings(*old(self), *final(self)),
            pressed_key(*keyEvents, KeyCode::Left) ==> final(self).colorMode.colorType == (
            if old(self).currentMenuSettingBox == 0 {
                color_type_left(old(self).colorMode.colorType)
            } else {
                old(self).colorMode.colorType
            }) && final(self).preferredCommandKeybind == (if old(self).currentMenuSettingBox == 1
                && old(self).preferredCommandKeybind == KeyModifiers::Control {
                KeyModifiers::Command
            } else {
                old(self).preferredCommandKeybind
            }) && final(self).currentMenuSettingBox == old(self).currentMenuSettingBox,
            !pressed_key(*keyEvents, KeyCode::Left) && pressed_key(*keyEvents, KeyCode::Right) ==> final(self).colorMode.colorType == (if old(self).currentMenuSettingBox == 0 {
                color_type_right(old(self).colorMode.colorType)
            } else {
                old(self).colorMode.colorType
            }) && final(self).preferredCommandKeybind == (if old(self).currentMenuSettingBox == 1
                && old(self).preferredCommandKeybind == KeyModifiers::Command {
                KeyModifiers::Control
            } else {
                old(self).preferredCommandKeybind
            }) && final(self).currentMenuSettingBox == old(self).currentMenuSettingBox,
            !pressed_key(*keyEvents, KeyCode::Left) && !pressed_key(*keyEvents, KeyCode::Right) ==> {
                &&& final(self).colorMode.colorType == old(self).colorMode.colorType
                &&& final(self).preferredCommandKeybind == old(self).preferredCommandKeybind
                &&& final(self).currentMenuSettingBox == if pressed_key(*keyEvents, KeyCode::Up) {
                    if old(self).currentMenuSettingBox > 0 {
                        old(self).currentMenuSettingBox - 1
                    } else {
                        0
                    }
                } else if pressed_key(*keyEvents, KeyCode::Down) {
                    old(self).currentMenuSettingBox + 1
                } else {
                    old(self).currentMenuSettingBox as int
                }
            },
    {
        if has_key(keyEvents, KeyCode::Left) {
            self.HandleSettingsLeft(keyEvents);
        } else if has_key(keyEvents, KeyCode::Right) {
            self.HandleSettingsRight(keyEvents);
        } else if has_key(keyEvents, KeyCode::Up) {
            if self.currentMenuSettingBox > 0 {
                self.currentMenuSettingBox = self.currentMenuSettingBox - 1;
            }
        } else if has_key(keyEvents, KeyCode::Down) {
            self.currentMenuSettingBox = self.currentMenuSettingBox + 1;
        }
    }

    /// The escape key (see `escaped`).
    pub fn HandleEscape(&mut self, keyEvents: &KeyParser)
        ensures
            pressed_key(*keyEvents, KeyCode::Escape) ==> (final(self).appState, final(self).tabState, final(self).menuState) == escaped(*old(self)),
            !pressed_key(*keyEvents, KeyCode::Escape) ==> final(self).appState == old(self).appState && final(self).tabState == old(self).tabState && final(self).menuState == old(self).menuState,
            final(self).codeTabs == old(self).codeTabs,
            final(self).fileBrowser == old(self).fileBrowser,
            final(self).lastTab == old(self).lastTab,
            final(self).currentCommand == old(self).currentCommand,
            final(self).exit == old(self).exit,
    {
        if has_key(keyEvents, KeyCode::Escape) {
            match self.appState {
                AppState::Tabs => {
                    self.tabState = TabState::Files;
                    self.appState = AppState::CommandPrompt;
                },
                AppState::CommandPrompt => {
                    if self.tabState == TabState::Files || self.tabState == TabState::Tabs {
                        self.tabState = TabState::Code;
                    }
                    self.appState = AppState::Tabs;
                },
                AppState::Menu => {
                    if self.menuState == MenuState::Settings {
                        self.menuState = MenuState::Welcome;
                    }
                    self.appState = AppState::Menu;
                },
            }
        }
    }

    /// Moves the cursor of the tab last worked on up by the number after the command's
    /// first character (see `jump_line`), to the end of that line.
    pub fn JumpLineUp(&mut self)
        requires
            old(self).lastTab < old(self).codeTabs.tabs@.len(),
            old(self).tab().wf(),
            lines_fit(old(self).tab()),
        ensures
            final(self).tab().wf(),
            same_but_cursor(*old(self), *final(self), old(self).lastTab as int),
            match jump_line(old(self).currentCommand@, old(self).tab().cursor.0, true) {
                None => final(self).tab() == old(self).tab(),
                Some(line) => final(self).tab().cursor == jump_target(old(self).tab(), line, 1)
                    && final(self).tab().mouseScrolled == 0,
            },
    {
        self.jump_line(true);
    }

    /// Moves the cursor of the tab last worked on down by the number after the command's
    /// first character (see `jump_line`), to the end of that line.
    pub fn JumpLineDown(&mut self)
        requires
            old(self).lastTab < old(self).codeTabs.tabs@.len(),
            old(self).tab().wf(),
            lines_fit(old(self).tab()),
        ensures
            final(self).tab().wf(),
            same_but_cursor(*old(self), *final(self), old(self).lastTab as int),
            match jump_line(old(self).currentCommand@, old(self).tab().cursor.0, false) {
                None => final(self).tab() == old(self).tab(),
                Some(line) => final(self).tab().cursor == jump_target(old(self).tab(), line, 1)
                    && final(self).tab().mouseScrolled == 0,
            },
    {
        self.jump_line(false);
    }

    fn jump_line(&mut self, up: bool)
        requires
            old(self).lastTab < old(self).codeTabs.tabs@.len(),
            old(self).tab().wf(),
            lines_fit(old(self).tab()),
        ensures
            final(self).tab().wf(),
            same_but_cursor(*old(self), *final(self), old(self).lastTab as int),
            match jump_line(old(self).currentCommand@, old(self).tab().cursor.0, up) {
                None => final(self).tab() == old(self).tab(),
                Some(line) => final(self).tab().cursor == jump_target(old(self).tab(), line, 1)
                    && final(self).tab().mouseScrolled == 0,
            },
    {
        let len = self.currentCommand.as_str().unicode_len();
        if len == 0 {
            return;
        }
        let first = self.currentCommand.as_str().get_char(0);
        if (first as u32) >= 0x80 {
            return;
        }
        let arg = crate::text::substring(&self.currentCommand, 1, len);
        proof {
            assert(arg@ =~= self.currentCommand@.drop_first());
        }
        let number = parse_usize(arg.as_str());
        match number {
            None => {
                proof {
                    assert(self.codeTabs.tabs@ =~= old(self).codeTabs.tabs@);
                }
            },
            Some(n) => {
                let lt = self.lastTab;
                let cursor = self.codeTabs.tabs[lt].cursor.0;
                let target = if up {
                    if cursor > n {
                        cursor - n
                    } else {
                        0
                    }
                } else {
                    if cursor <= usize::MAX - n {
                        cursor + n
                    } else {
                        usize::MAX
                    }
                };
                let ghost before = *self;
                proof {
                    let t = before.tab();
                    let nl = t.lines@.len();
                    let line = if target < nl { target as int } else { nl - 1 };
                    assert(t.text()[line].len() * 2 <= usize::MAX);
                }
                self.codeTabs.tabs[lt].JumpCursor(target, 1);
                proof {
                    assert forall|i: int|
                        0 <= i < before.codeTabs.tabs@.len() && i != lt implies #[trigger] before.codeTabs.tabs@[i]
                        == self.codeTabs.tabs@[i] by {}
                }
            },
        }
    }
}

/// The prompt's command after the backspace key: its last character removed.
pub open spec fn popped(cmd: Seq<char>) -> Seq<char> {
    if cmd.len() > 0 {
        cmd.drop_last()
    } else {
        cmd
    }
}

/// The tab bar after the left arrow (`option` moves the current tab left instead).
pub open spec fn tabs_left(t: crate::tabs::CodeTabs, option: bool) -> (usize, Seq<String>, Seq<CodeTab>) {
    let c = t.currentTab as int;
    if c > 0 {
        if option {
            (
                (c - 1) as usize,
                crate::tabs::swapped(t.tabFileNames@, c - 1, c),
                crate::tabs::swapped(t.tabs@, c - 1, c),
            )
        } else {
            ((c - 1) as usize, t.tabFileNames@, t.tabs@)
        }
    } else {
        (0, t.tabFileNames@, t.tabs@)
    }
}

/// The tab bar after the right arrow (`option` moves the current tab right instead).
pub open spec fn tabs_right(t: crate::tabs::CodeTabs, option: bool) -> (usize, Seq<String>, Seq<CodeTab>) {
    let c = t.currentTab as int;
    let last = t.tabFileNames@.len() - 1;
    if option {
        if c < last {
            ((c + 1) as usize, crate::tabs::swapped(t.tabFileNames@, c + 1, c), crate::tabs::swapped(t.tabs@, c + 1, c))
        } else {
            (t.currentTab, t.tabFileNames@, t.tabs@)
        }
    } else {
        let next = if c < usize::MAX {
            c + 1
        } else {
            usize::MAX as int
        };
        ((if next <= last {
            next
        } else {
            last
        }) as usize, t.tabFileNames@, t.tabs@)
    }
}

/// What the tab bar's keys need: names for the tabs, and the current tab and the tab last
/// worked on among them (the delete key closes one of at least two tabs).
pub open spec fn tab_keys_ok(app: MainApp, p: KeyParser) -> bool {
    let t = app.codeTabs;
    let left = pressed_key(p, KeyCode::Left);
    let right = !left && pressed_key(p, KeyCode::Right);
    let del = !left && !pressed_key(p, KeyCode::Right) && !pressed_key(p, KeyCode::Return) && pressed_key(
        p,
        KeyCode::Delete,
    );
    &&& left && held(p, KeyModifiers::Option) && t.currentTab > 0 ==> t.currentTab < t.tabFileNames@.len()
        && t.currentTab < t.tabs@.len()
    &&& right ==> t.tabFileNames@.len() >= 1
    &&& right && held(p, KeyModifiers::Option) && t.currentTab < t.tabFileNames@.len() - 1 ==> t.currentTab + 1
        < t.tabs@.len()
    &&& del ==> app.lastTab < t.tabs@.len() && t.currentTab < t.tabFileNames@.len() && t.tabs@.len() >= 2
}

impl MainApp {
    /// The prompt's keys once a command is being typed: return runs it (`q` quits, `[n`
    /// and `]n` move the cursor up or down `n` lines) and clears it; backspace removes its
    /// last character.
    pub fn HandleCommands(&mut self, keyEvents: &KeyParser)
        requires
            pressed_key(*keyEvents, KeyCode::Return) && old(self).currentCommand@.len() > 0 && (
            old(self).currentCommand@[0] == '[' || old(self).currentCommand@[0] == ']') ==> {
                &&& old(self).lastTab < old(self).codeTabs.tabs@.len()
                &&& old(self).tab().wf()
                &&& lines_fit(old(self).tab())
            },
        ensures
            pressed_key(*keyEvents, KeyCode::Return) ==> {
                &&& final(self).currentCommand@.len() == 0
                &&& final(self).exit == (old(self).exit || old(self).currentCommand@ == "q"@)
                &&& {
                    let cmd = old(self).currentCommand@;
                    if cmd.len() > 0 && (cmd[0] == '[' || cmd[0] == ']') {
                        let up = cmd[0] == '[';
                        &&& tabs_cursor_moved(old(self).codeTabs, final(self).codeTabs, old(self).lastTab as int)
                        &&& match jump_line(cmd, old(self).tab().cursor.0, up) {
                            None => final(self).tab() == old(self).tab(),
                            Some(line) => final(self).tab().cursor == jump_target(old(self).tab(), line, 1)
                                && final(self).tab().mouseScrolled == 0,
                        }
                    } else {
                        final(self).codeTabs == old(self).codeTabs
                    }
                }
            },
            !pressed_key(*keyEvents, KeyCode::Return) ==> {
                &&& final(self).codeTabs == old(self).codeTabs
                &&& final(self).exit == old(self).exit
                &&& final(self).currentCommand@ == if pressed_key(*keyEvents, KeyCode::Delete) {
                    popped(old(self).currentCommand@)
                } else {
                    old(self).currentCommand@
                }
            },
            final(self).appState == old(self).appState,
            final(self).tabState == old(self).tabState,
            final(self).lastTab == old(self).lastTab,
            final(self).fileBrowser == old(self).fileBrowser,
    {
        if has_key(keyEvents, KeyCode::Return) {
            proof {
                reveal_strlit("q");
            }
            if crate::text::str_equal(self.currentCommand.as_str(), "q") {
                self.exit = true;
            }
            let len = self.currentCommand.as_str().unicode_len();
            if len > 0 {
                let first = self.currentCommand.as_str().get_char(0);
                if first == '[' {
                    self.JumpLineUp();
                } else if first == ']' {
                    self.JumpLineDown();
                }
            }
            self.currentCommand = String::new();
        } else if has_key(keyEvents, KeyCode::Delete) {
            let len = crate::text::char_len(&self.currentCommand);
            if len > 0 {
                self.currentCommand = crate::text::substring(&self.currentCommand, 0, len - 1);
                proof {
                    assert(self.currentCommand@ =~= popped(old(self).currentCommand@));
                }
            }
        }
    }

    /// Return on the code panel of the prompt goes back to editing.
    pub fn HandleCodeTabviewKeyEvents(&mut self, keyEvents: &KeyParser)
        ensures
            final(self).appState == if pressed_key(*keyEvents, KeyCode::Return) {
                AppState::Tabs
            } else {
                old(self).appState
            },
            final(self).tabState == old(self).tabState,
            final(self).codeTabs == old(self).codeTabs,
            final(self).fileBrowser == old(self).fileBrowser,
            final(self).currentCommand == old(self).currentCommand,
            final(self).lastTab == old(self).lastTab,
            final(self).exit == old(self).exit,
    {
        if has_key(keyEvents, KeyCode::Return) {
            self.appState = AppState::Tabs;
        }
    }

    /// The outline's keys in the file browser: return (with no command typed) jumps to
    /// the start line of the scope under the outline cursor, the arrows move that cursor.
    pub fn HandleFilebrowserKeyEvents(&mut self, keyEvents: &KeyParser)
        requires
            old(self).fileBrowser.fileTab == FileTabs::Outline ==> {
                &&& old(self).lastTab < old(self).codeTabs.tabs@.len()
                &&& pressed_key(*keyEvents, KeyCode::Return) && old(self).currentCommand@.len() == 0 ==> {
                    &&& old(self).fileBrowser.outlineCursor < old(self).tab().linearScopes@.len()
                    &&& old(self).tab().wf()
                    &&& lines_fit(old(self).tab())
                }
                &&& !(pressed_key(*keyEvents, KeyCode::Return) && old(self).currentCommand@.len() == 0)
                    && !pressed_key(*keyEvents, KeyCode::Up) && pressed_key(*keyEvents, KeyCode::Down)
                    ==> old(self).tab().linearScopes@.len() >= 1
            },
        ensures
            final(self).appState == old(self).appState,
            final(self).tabState == old(self).tabState,
            final(self).lastTab == old(self).lastTab,
            final(self).currentCommand == old(self).currentCommand,
            final(self).fileBrowser.fileTab == old(self).fileBrowser.fileTab,
            old(self).fileBrowser.fileTab != FileTabs::Outline ==> final(self).codeTabs == old(self).codeTabs
                && final(self).fileBrowser.outlineCursor == old(self).fileBrowser.outlineCursor,
            old(self).fileBrowser.fileTab == FileTabs::Outline ==> if pressed_key(*keyEvents, KeyCode::Return)
                && old(self).currentCommand@.len() == 0 {
                let t = old(self).tab();
                let node = crate::token_info::node_at(
                    t.scopes,
                    crate::rust_linter::rev(t.linearScopes@[old(self).fileBrowser.outlineCursor as int]@),
                );
                &&& same_but_cursor(*old(self), *final(self), old(self).lastTab as int)
                &&& final(self).tab().cursor == jump_target(t, node.start as int, 1)
                &&& final(self).tab().wf()
            } else if pressed_key(*keyEvents, KeyCode::Up) {
                &&& final(self).codeTabs == old(self).codeTabs
                &&& final(self).fileBrowser.outlineCursor == if old(self).fileBrowser.outlineCursor > 0 {
                    (old(self).fileBrowser.outlineCursor - 1) as usize
                } else {
                    0
                }
            } else if pressed_key(*keyEvents, KeyCode::Down) {
                let n = old(self).tab().linearScopes@.len();
                &&& final(self).codeTabs == old(self).codeTabs
                &&& final(self).fileBrowser.outlineCursor == if old(self).fileBrowser.outlineCursor + 1 <= n - 1 {
                    (old(self).fileBrowser.outlineCursor + 1) as usize
                } else {
                    (n - 1) as usize
                }
            } else {
                &&& final(self).codeTabs == old(self).codeTabs
                &&& final(self).fileBrowser.outlineCursor == old(self).fileBrowser.outlineCursor
            },
    {
        if self.fileBrowser.fileTab == FileTabs::Outline {
            let lt = self.lastTab;
            if has_key(keyEvents, KeyCode::Return) && self.currentCommand.as_str().unicode_len() == 0 {
                let mut nodePath = crate::rust_linter::reversed(
                    &self.codeTabs.tabs[lt].linearScopes[self.fileBrowser.outlineCursor],
                );
                let start = self.codeTabs.tabs[lt].scopes.GetNode(&mut nodePath).start;
                let ghost before = *self;
                proof {
                    let t = before.tab();
                    let nl = t.lines@.len();
                    let line = if start < nl { start as int } else { nl - 1 };
                    assert(t.text()[line].len() * 2 <= usize::MAX);
                }
                self.codeTabs.tabs[lt].JumpCursor(start, 1);
                proof {
                    assert forall|i: int|
                        0 <= i < before.codeTabs.tabs@.len() && i != lt implies #[trigger] before.codeTabs.tabs@[i]
                        == self.codeTabs.tabs@[i] by {}
                }
            } else if has_key(keyEvents, KeyCode::Up) {
                self.fileBrowser.MoveCursorUp();
            } else if has_key(keyEvents, KeyCode::Down) {
                let n = self.codeTabs.tabs[lt].linearScopes.len();
                self.fileBrowser.MoveCursorDown(n);
            }
        }
    }

    /// The tab bar's keys: the arrows change the current tab (with option they move it),
    /// return goes back to editing, and delete closes the tab last worked on.
    pub fn HandleTabsKeyEvents(&mut self, keyEvents: &KeyParser)
        requires
            tab_keys_ok(*old(self), *keyEvents),
        ensures
            pressed_key(*keyEvents, KeyCode::Left) ==> {
                let (c, names, tabs) = tabs_left(old(self).codeTabs, held(*keyEvents, KeyModifiers::Option));
                &&& final(self).codeTabs.currentTab == c
                &&& final(self).codeTabs.tabFileNames@ == names
                &&& final(self).codeTabs.tabs@ == tabs
                &&& final(self).appState == old(self).appState
                &&& final(self).tabState == old(self).tabState
                &&& final(self).lastTab == old(self).lastTab
            },
            !pressed_key(*keyEvents, KeyCode::Left) && pressed_key(*keyEvents, KeyCode::Right) ==> {
                let (c, names, tabs) = tabs_right(old(self).codeTabs, held(*keyEvents, KeyModifiers::Option));
                &&& final(self).codeTabs.currentTab == c
                &&& final(self).codeTabs.tabFileNames@ == names
                &&& final(self).codeTabs.tabs@ == tabs
                &&& final(self).appState == old(self).appState
                &&& final(self).tabState == old(self).tabState
                &&& final(self).lastTab == old(self).lastTab
            },
            !pressed_key(*keyEvents, KeyCode::Left) && !pressed_key(*keyEvents, KeyCode::Right) && pressed_key(
                *keyEvents,
                KeyCode::Return,
            ) ==> {
                &&& final(self).appState == AppState::Tabs
                &&& final(self).tabState == TabState::Code
                &&& final(self).codeTabs == old(self).codeTabs
                &&& final(self).lastTab == old(self).lastTab
            },
            !pressed_key(*keyEvents, KeyCode::Left) && !pressed_key(*keyEvents, KeyCode::Right) && !pressed_key(
                *keyEvents,
                KeyCode::Return,
            ) && pressed_key(*keyEvents, KeyCode::Delete) ==> {
                let t = old(self).codeTabs;
                let n = t.tabs@.len() - 1;
                &&& final(self).codeTabs.tabs@ == t.tabs@.remove(old(self).lastTab as int)
                &&& final(self).codeTabs.tabFileNames@ == t.tabFileNames@.remove(t.currentTab as int)
                &&& final(self).codeTabs.currentTab == if t.currentTab > 0 {
                    t.currentTab - 1
                } else {
                    0
                }
                &&& final(self).codeTabs.panes == t.panes
                &&& final(self).lastTab == if old(self).lastTab >= n {
                    n - 1
                } else {
                    old(self).lastTab as int
                }
                &&& final(self).appState == old(self).appState
                &&& final(self).tabState == old(self).tabState
            },
            !pressed_key(*keyEvents, KeyCode::Left) && !pressed_key(*keyEvents, KeyCode::Right) && !pressed_key(
                *keyEvents,
                KeyCode::Return,
            ) && !pressed_key(*keyEvents, KeyCode::Delete) ==> {
                &&& final(self).codeTabs == old(self).codeTabs
                &&& final(self).appState == old(self).appState
                &&& final(self).tabState == old(self).tabState
                &&& final(self).lastTab == old(self).lastTab
            },
            final(self).fileBrowser == old(self).fileBrowser,
            final(self).currentCommand == old(self).currentCommand,
            final(self).exit == old(self).exit,
    {
        if has_key(keyEvents, KeyCode::Left) {
            if has_modifier(keyEvents, KeyModifiers::Option) {
                self.codeTabs.MoveTabLeft();
            } else {
                self.codeTabs.TabLeft();
            }
        } else if has_key(keyEvents, KeyCode::Right) {
            if has_modifier(keyEvents, KeyModifiers::Option) {
                self.codeTabs.MoveTabRight();
            } else {
                self.codeTabs.TabRight();
            }
        } else if has_key(keyEvents, KeyCode::Return) {
            self.appState = AppState::Tabs;
            self.tabState = TabState::Code;
        } else if has_key(keyEvents, KeyCode::Delete) {
            self.codeTabs.tabs.remove(self.lastTab);
            self.codeTabs.tabFileNames.remove(self.codeTabs.currentTab);
            if self.codeTabs.currentTab > 0 {
                self.codeTabs.currentTab = self.codeTabs.currentTab - 1;
            }
            if self.lastTab >= self.codeTabs.tabs.len() {
                self.lastTab = self.codeTabs.tabs.len() - 1;
            }
        }
    }

    /// What this frame's keys do to the code (see `code_key_action`), with the preferred
    /// shortcut modifier and whether a completion is offered.
    pub fn DecideCodeKeys(&self, keyEvents: &KeyParser) -> (action: (bool, bool, CodeKey))
        ensures
            action == code_key_action(*keyEvents, self.preferredCommandKeybind, self.suggested@.len() == 0),
    {
        let p = keyEvents;
        let option = has_modifier(p, KeyModifiers::Option);
        let shift = has_modifier(p, KeyModifiers::Shift);
        let command = has_modifier(p, self.preferredCommandKeybind);
        let typing = !(has_modifier(p, KeyModifiers::Command) || has_modifier(p, KeyModifiers::Control));
        let noSuggestion = self.suggested.as_str().unicode_len() == 0;
        let key = if has_key(p, KeyCode::Delete) {
            if option {
                if shift {
                    CodeKey::DeleteTokenForward
                } else {
                    CodeKey::DeleteTokenBack
                }
            } else if command {
                if shift {
                    CodeKey::DeleteToLineEnd
                } else {
                    CodeKey::DeleteToLineStart
                }
            } else if shift {
                CodeKey::DeleteForward
            } else {
                CodeKey::DeleteBack
            }
        } else if has_char(p, 'w') && option {
            CodeKey::ClosePane
        } else if has_key(p, KeyCode::Left) {
            if option {
                CodeKey::WordLeft
            } else if command {
                CodeKey::EdgeLeft
            } else {
                CodeKey::Left
            }
        } else if has_key(p, KeyCode::Right) {
            if option {
                CodeKey::WordRight
            } else if command {
                CodeKey::EdgeRight
            } else {
                CodeKey::Right
            }
        } else if has_key(p, KeyCode::Up) {
            if option {
                CodeKey::WordUp
            } else if command {
                CodeKey::EdgeUp
            } else {
                CodeKey::Up
            }
        } else if has_key(p, KeyCode::Down) {
            if option {
                CodeKey::WordDown
            } else if command {
                CodeKey::EdgeDown
            } else {
                CodeKey::Down
            }
        } else if has_key(p, KeyCode::Tab) {
            if shift {
                CodeKey::Unindent
            } else if noSuggestion || !option {
                CodeKey::Indent
            } else {
                CodeKey::Complete
            }
        } else if has_key(p, KeyCode::Return) {
            CodeKey::LineBreak
        } else if has_char(p, 'a') && has_modifier(p, KeyModifiers::Control) {
            CodeKey::SelectAll
        } else if command && has_char(p, 's') {
            CodeKey::Save
        } else if command && has_char(p, 'f') {
            CodeKey::Find
        } else if command && (has_char(p, 'z') || has_char(p, 'u') || has_char(p, 'r')) {
            if shift || has_char(p, 'r') {
                CodeKey::Redo
            } else {
                CodeKey::Undo
            }
        } else if command && has_char(p, 'c') {
            CodeKey::Copy
        } else if command && has_char(p, 'x') {
            CodeKey::Cut
        } else if command && has_char(p, 'v') {
            CodeKey::Paste
        } else {
            CodeKey::Nothing
        };
        (typing, shift, key)
    }
}

/// The file browser's tab after shift with tab (outline and files swap).
pub open spec fn other_file_tab(t: FileTabs) -> FileTabs {
    match t {
        FileTabs::Files => FileTabs::Outline,
        FileTabs::Outline => FileTabs::Files,
    }
}

/// The path typed after `open ` when a `/` is typed, for each `/` in turn: the last one
/// typed while the command starts with `open ` (the directory listing follows it).
pub open spec fn menu_refresh(cmd: Seq<char>, chars: Seq<char>) -> Option<Seq<char>>
    decreases chars.len(),
{
    if chars.len() == 0 {
        None
    } else {
        let before = menu_refresh(cmd, chars.drop_last());
        let now = cmd + chars;
        if chars.last() == '/' && now.len() >= 5 && now.subrange(0, 5) == "open "@ {
            Some(now.subrange(5, now.len() as int))
        } else {
            before
        }
    }
}

/// What the menu's command asks of the file system: opening a project at a path, or
/// completing the path being typed.
#[derive(Debug, Clone, PartialEq, Eq)]
pub enum MenuCommand {
    Nothing,
    Open(String),
    Complete,
}

/// The last `/`-separated part of a text.
pub open spec fn last_part(s: Seq<char>) -> Seq<char>
    decreases s.len(),
{
    if s.len() == 0 {
        s
    } else if s.last() == '/' {
        Seq::empty()
    } else {
        last_part(s.drop_last()).push(s.last())
    }
}

/// The first name that starts with `token`, if any.
pub open spec fn first_extending(names: Seq<Seq<char>>, token: Seq<char>, k: int) -> Option<int>
    decreases names.len() - k,
{
    if k < 0 || k >= names.len() {
        None
    } else if token.len() <= names[k].len() && names[k].subrange(0, token.len() as int) == token {
        Some(k)
    } else {
        first_extending(names, token, k + 1)
    }
}

fn starts_with(s: &String, prefix: &str) -> (b: bool)
    ensures
        b == (prefix@.len() <= s@.len() && s@.subrange(0, prefix@.len() as int) == prefix@),
{
    let n = crate::text::char_len(s);
    let m = prefix.unicode_len();
    if m > n {
        return false;
    }
    let head = crate::text::substring(s, 0, m);
    crate::text::str_equal(head.as_str(), prefix)
}

impl MainApp {
    /// The prompt's typing: the frame's characters are added to the command, and tab moves
    /// to the next panel (code, files, tabs), or with shift on the file browser swaps its
    /// tab.
    pub fn HandleCommandPromptInput(&mut self, keyEvents: &KeyParser)
        ensures
            final(self).currentCommand@ == old(self).currentCommand@ + keyEvents.charEvents@,
            final(self).tabState == if pressed_key(*keyEvents, KeyCode::Tab) && !(held(*keyEvents, KeyModifiers::Shift)
                && old(self).tabState == TabState::Files) {
                next_panel(old(self).tabState)
            } else {
                old(self).tabState
            },
            final(self).fileBrowser.fileTab == if pressed_key(*keyEvents, KeyCode::Tab) && held(
                *keyEvents,
                KeyModifiers::Shift,
            ) && old(self).tabState == TabState::Files {
                other_file_tab(old(self).fileBrowser.fileTab)
            } else {
                old(self).fileBrowser.fileTab
            },
            final(self).fileBrowser.fileTree == old(self).fileBrowser.fileTree,
            final(self).fileBrowser.fileCursor == old(self).fileBrowser.fileCursor,
            final(self).fileBrowser.outlineCursor == old(self).fileBrowser.outlineCursor,
            final(self).fileBrowser.fileOptions == old(self).fileBrowser.fileOptions,
            final(self).appState == old(self).appState,
            final(self).codeTabs == old(self).codeTabs,
            final(self).lastTab == old(self).lastTab,
            final(self).exit == old(self).exit,
    {
        let mut k: usize = 0;
        let ghost start = self.currentCommand@;
        while k < keyEvents.charEvents.len()
            invariant
                k <= keyEvents.charEvents@.len(),
                self.currentCommand@ == start + keyEvents.charEvents@.subrange(0, k as int),
                self.tabState == old(self).tabState,
                self.fileBrowser == old(self).fileBrowser,
                self.appState == old(self).appState,
                self.codeTabs == old(self).codeTabs,
                self.lastTab == old(self).lastTab,
                self.exit == old(self).exit,
            decreases keyEvents.charEvents@.len() - k,
        {
            crate::text::string_push(&mut self.currentCommand, keyEvents.charEvents[k]);
            proof {
                assert(self.currentCommand@ =~= start + keyEvents.charEvents@.subrange(0, k + 1));
            }
            k = k + 1;
        }
        proof {
            assert(keyEvents.charEvents@.subrange(0, k as int) =~= keyEvents.charEvents@);
        }
        if has_key(keyEvents, KeyCode::Tab) {
            if has_modifier(keyEvents, KeyModifiers::Shift) && self.tabState == TabState::Files {
                self.fileBrowser.fileTab = match self.fileBrowser.fileTab {
                    FileTabs::Files => FileTabs::Outline,
                    FileTabs::Outline => FileTabs::Files,
                };
            } else {
                self.tabState = match self.tabState {
                    TabState::Code => TabState::Files,
                    TabState::Files => TabState::Tabs,
                    TabState::Tabs => TabState::Code,
                };
            }
        }
    }

    /// The menu's typing: the frame's characters are added to the command. Returns the
    /// path to list the directories of when a `/` was typed after `open ` (see
    /// `menu_refresh`).
    pub fn HandleMenuInput(&mut self, keyEvents: &KeyParser) -> (refresh: Option<String>)
        ensures
            final(self).currentCommand@ == old(self).currentCommand@ + keyEvents.charEvents@,
            match menu_refresh(old(self).currentCommand@, keyEvents.charEvents@) {
                Some(p) => refresh matches Some(r) && r@ == p,
                None => refresh is None,
            },
            final(self).appState == old(self).appState,
            final(self).tabState == old(self).tabState,
            final(self).menuState == old(self).menuState,
            final(self).codeTabs == old(self).codeTabs,
            final(self).fileBrowser == old(self).fileBrowser,
            final(self).exit == old(self).exit,
    {
        let mut refresh: Option<String> = None;
        let mut k: usize = 0;
        let ghost start = self.currentCommand@;
        let ghost chars = keyEvents.charEvents@;
        proof {
            reveal_strlit("open ");
            assert(chars.subrange(0, 0) =~= Seq::<char>::empty());
        }
        while k < keyEvents.charEvents.len()
            invariant
                chars == keyEvents.charEvents@,
                k <= chars.len(),
                self.currentCommand@ == start + chars.subrange(0, k as int),
                match menu_refresh(start, chars.subrange(0, k as int)) {
                    Some(p) => refresh matches Some(r) && r@ == p,
                    None => refresh is None,
                },
                self.appState == old(self).appState,
                self.tabState == old(self).tabState,
                self.menuState == old(self).menuState,
                self.codeTabs == old(self).codeTabs,
                self.fileBrowser == old(self).fileBrowser,
                self.exit == old(self).exit,
            decreases chars.len() - k,
        {
            let chr = keyEvents.charEvents[k];
            crate::text::string_push(&mut self.currentCommand, chr);
            let ghost prefix = chars.subrange(0, k + 1);
            proof {
                reveal_strlit("open ");
                assert(self.currentCommand@ =~= start + prefix);
                assert(prefix.drop_last() =~= chars.subrange(0, k as int));
                assert(prefix.last() == chr);
            }
            if chr == '/' && starts_with(&self.currentCommand, "open ") {
                let n = crate::text::char_len(&self.currentCommand);
                refresh = Some(crate::text::substring(&self.currentCommand, 5, n));
            }
            k = k + 1;
        }
        proof {
            assert(chars.subrange(0, k as int) =~= chars);
        }
        refresh
    }

    /// The menu's command keys: return runs the command (`q` quits, `settings` opens the
    /// settings page, `open <path>` asks for the project at the path) and clears it;
    /// backspace removes its last character; tab asks to complete an `open` path.
    pub fn HandleMenuCommandKeyEvents(&mut self, keyEvents: &KeyParser) -> (request: MenuCommand)
        ensures
            pressed_key(*keyEvents, KeyCode::Return) ==> {
                let cmd = old(self).currentCommand@;
                &&& final(self).currentCommand@.len() == 0
                &&& final(self).exit == (old(self).exit || cmd == "q"@)
                &&& final(self).menuState == if cmd == "settings"@ {
                    MenuState::Settings
                } else {
                    old(self).menuState
                }
                &&& if cmd.len() >= 5 && cmd.subrange(0, 5) == "open "@ {
                    request matches MenuCommand::Open(p) && p@ == cmd.subrange(5, cmd.len() as int)
                } else {
                    request == MenuCommand::Nothing
                }
            },
            !pressed_key(*keyEvents, KeyCode::Return) ==> {
                let cmd = old(self).currentCommand@;
                &&& final(self).exit == old(self).exit
                &&& final(self).menuState == old(self).menuState
                &&& if pressed_key(*keyEvents, KeyCode::Delete) {
                    final(self).currentCommand@ == popped(cmd) && request == MenuCommand::Nothing
                } else {
                    &&& final(self).currentCommand@ == cmd
                    &&& request == if pressed_key(*keyEvents, KeyCode::Tab) && cmd.len() >= 5 && cmd.subrange(0, 5)
                        == "open "@ {
                        MenuCommand::Complete
                    } else {
                        MenuCommand::Nothing
                    }
                }
            },
            final(self).appState == old(self).appState,
            final(self).tabState == old(self).tabState,
            final(self).codeTabs == old(self).codeTabs,
            final(self).fileBrowser == old(self).fileBrowser,
    {
        proof {
            reveal_strlit("q");
            reveal_strlit("settings");
            reveal_strlit("open ");
        }
        let opening = starts_with(&self.currentCommand, "open ");
        if has_key(keyEvents, KeyCode::Return) {
            if crate::text::str_equal(self.currentCommand.as_str(), "q") {
                self.exit = true;
            }
            if crate::text::str_equal(self.currentCommand.as_str(), "settings") {
                self.menuState = MenuState::Settings;
            }
            let request = if opening {
                let n = crate::text::char_len(&self.currentCommand);
                MenuCommand::Open(crate::text::substring(&self.currentCommand, 5, n))
            } else {
                MenuCommand::Nothing
            };
            self.currentCommand = String::new();
            request
        } else if has_key(keyEvents, KeyCode::Delete) {
            let len = crate::text::char_len(&self.currentCommand);
            if len > 0 {
                self.currentCommand = crate::text::substring(&self.currentCommand, 0, len - 1);
                proof {
                    assert(self.currentCommand@ =~= popped(old(self).currentCommand@));
                }
            }
            MenuCommand::Nothing
        } else if has_key(keyEvents, KeyCode::Tab) && opening {
            MenuCommand::Complete
        } else {
            MenuCommand::Nothing
        }
    }

    /// After a project opened: the browser's file cursor and the current tab go to the
    /// first, and the prompt takes the keys.
    pub fn ProjectOpened(&mut self)
        ensures
            final(self).fileBrowser.fileCursor == 0,
            final(self).codeTabs.currentTab == 0,
            final(self).appState == AppState::CommandPrompt,
            final(self).tabState == old(self).tabState,
            final(self).codeTabs.tabs == old(self).codeTabs.tabs,
            final(self).codeTabs.tabFileNames == old(self).codeTabs.tabFileNames,
            final(self).fileBrowser.fileTree == old(self).fileBrowser.fileTree,
            final(self).currentCommand == old(self).currentCommand,
    {
        self.fileBrowser.fileCursor = 0;
        self.codeTabs.currentTab = 0;
        self.appState = AppState::CommandPrompt;
    }

    /// Completes the path being typed with the first directory listed in `dirFiles` that
    /// extends its last part, followed by a `/`. Says whether it did (the listing then
    /// follows the new path).
    pub fn CompletePath(&mut self, dirFiles: &Vec<String>) -> (completed: bool)
        ensures
            ({
                let token = last_part(old(self).currentCommand@);
                let names = crate::edits::lines_view(dirFiles@);
                match first_extending(names, token, 0) {
                    Some(k) => completed && final(self).currentCommand@ == old(self).currentCommand@ + names[k].subrange(
                        token.len() as int,
                        names[k].len() as int,
                    ).push('/'),
                    None => !completed && final(self).currentCommand == old(self).currentCommand,
                }
            }),
            final(self).appState == old(self).appState,
            final(self).codeTabs == old(self).codeTabs,
            final(self).fileBrowser == old(self).fileBrowser,
    {
        let n = crate::text::char_len(&self.currentCommand);
        let mut from: usize = n;
        let ghost cmd = self.currentCommand@;
        proof {
            assert(cmd.subrange(0, n as int) =~= cmd);
            assert(cmd.subrange(n as int, n as int) =~= Seq::<char>::empty());
            assert(last_part(cmd) =~= last_part(cmd.subrange(0, n as int)) + cmd.subrange(n as int, n as int));
        }
        while from > 0 && self.currentCommand.as_str().get_char(from - 1) != '/'
            invariant
                from <= n,
                n == cmd.len(),
                cmd == self.currentCommand@,
                last_part(cmd) == last_part(cmd.subrange(0, from as int)) + cmd.subrange(from as int, n as int),
            decreases from,
        {
            proof {
                let pre = cmd.subrange(0, from as int);
                assert(pre.drop_last() =~= cmd.subrange(0, from - 1));
                assert(pre.last() == cmd[from - 1]);
                assert(cmd.subrange(from - 1, n as int) =~= seq![cmd[from - 1]] + cmd.subrange(from as int, n as int));
                assert(last_part(cmd.subrange(0, from - 1)).push(cmd[from - 1]) + cmd.subrange(from as int, n as int)
                    =~= last_part(cmd.subrange(0, from - 1)) + cmd.subrange(from - 1, n as int));
            }
            from = from - 1;
        }
        proof {
            let pre = cmd.subrange(0, from as int);
            if from > 0 {
                assert(pre.last() == cmd[from - 1]);
            }
            assert(last_part(pre) =~= Seq::<char>::empty());
            assert(last_part(cmd) =~= cmd.subrange(from as int, n as int));
        }
        let token = crate::text::substring(&self.currentCommand, from, n);
        let ghost names = crate::edits::lines_view(dirFiles@);
        let m = token.as_str().unicode_len();
        let mut k: usize = 0;
        while k < dirFiles.len()
            invariant
                k <= dirFiles@.len(),
                names == crate::edits::lines_view(dirFiles@),
                names.len() == dirFiles@.len(),
                token@ == last_part(cmd),
                m == token@.len(),
                cmd == self.currentCommand@,
                first_extending(names, token@, 0) == first_extending(names, token@, k as int),
                self.appState == old(self).appState,
                self.codeTabs == old(self).codeTabs,
                self.fileBrowser == old(self).fileBrowser,
                self.currentCommand == old(self).currentCommand,
            decreases dirFiles@.len() - k,
        {
            proof {
                assert(names[k as int] == dirFiles@[k as int]@);
            }
            if starts_with(&dirFiles[k], token.as_str()) {
                let len = crate::text::char_len(&dirFiles[k]);
                let ending = crate::text::substring(&dirFiles[k], m, len);
                let joined = crate::text::concat(&self.currentCommand, &ending);
                self.currentCommand = joined;
                crate::text::string_push(&mut self.currentCommand, '/');
                return true;
            }
            k = k + 1;
        }
        false
    }
}

/// The first position of `x` in `s`, if any.
pub open spec fn first_pos(s: Seq<usize>, x: usize) -> Option<int>
    decreases s.len(),
{
    if s.len() == 0 {
        None
    } else if s.last() == x && first_pos(s.drop_last(), x) is None {
        Some(s.len() - 1)
    } else {
        first_pos(s.drop_last(), x)
    }
}

impl MainApp {
    /// Closes the pane showing the tab last worked on, if one does.
    pub fn CloseCodePane(&mut self)
        ensures
            final(self).codeTabs.panes@ == match first_pos(old(self).codeTabs.panes@, old(self).lastTab) {
                Some(k) => old(self).codeTabs.panes@.remove(k),
                None => old(self).codeTabs.panes@,
            },
            final(self).codeTabs.tabs == old(self).codeTabs.tabs,
            final(self).codeTabs.tabFileNames == old(self).codeTabs.tabFileNames,
            final(self).codeTabs.currentTab == old(self).codeTabs.currentTab,
            final(self).lastTab == old(self).lastTab,
            final(self).appState == old(self).appState,
            final(self).tabState == old(self).tabState,
    {
        let ghost panes = self.codeTabs.panes@;
        let mut k: usize = 0;
        proof {
            assert(panes.subrange(0, 0) =~= Seq::<usize>::empty());
        }
        while k < self.codeTabs.panes.len()
            invariant
                panes == self.codeTabs.panes@,
                k <= panes.len(),
                first_pos(panes.subrange(0, k as int), self.lastTab) is None,
                self.lastTab == old(self).lastTab,
                self.codeTabs == old(self).codeTabs,
                self.appState == old(self).appState,
                self.tabState == old(self).tabState,
            decreases panes.len() - k,
        {
            let ghost pre = panes.subrange(0, k + 1);
            proof {
                assert(pre.drop_last() =~= panes.subrange(0, k as int));
                assert(pre.last() == panes[k as int]);
            }
            if self.codeTabs.panes[k] == self.lastTab {
                proof {
                    lemma_first_pos_prefix(panes, k as int + 1, self.lastTab, k as int);
                }
                self.codeTabs.panes.remove(k);
                return;
            }
            k = k + 1;
        }
        proof {
            assert(panes.subrange(0, k as int) =~= panes);
        }
    }
}

proof fn lemma_first_pos_prefix(s: Seq<usize>, k: int, x: usize, j: int)
    requires
        0 <= k <= s.len(),
        first_pos(s.subrange(0, k), x) == Some(j),
    ensures
        first_pos(s, x) == Some(j),
    decreases s.len() - k,
{
    if k < s.len() {
        let pre = s.subrange(0, k + 1);
        assert(pre.drop_last() =~= s.subrange(0, k));
        lemma_first_pos_prefix(s, k + 1, x, j);
    } else {
        assert(s.subrange(0, k) =~= s);
    }
}

} // verus!
