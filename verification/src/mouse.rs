//! Mouse input on the editor: which pane and tab a click lands on, the cursor a click
//! places and the selection a drag extends, the outline line and the tab bar entry that
//! are clicked, and which of these a press, a drag or a scroll is for.
use vstd::prelude::*;
use crate::code_tabs::{CodeTab, scroll_settled};
use crate::code_keys::same_text;
use crate::tabs::CodeTabs;
use crate::main_app::{MainApp, AppState, TabState};
use crate::event_handler::{KeyParser, KeyModifiers, MouseEvent, MouseEventType, MouseState};
use crate::term_render::decimal;
use crate::text::char_len;
use crate::file_manager::{
    FilePathNode, FileType, FileTabs, tree_wf, height, search, leaf_path, toggled_at, lemma_toggled_wf, collect, infos_view,
};
use crate::token_info::node_at;
use crate::rust_linter::{rev, reversed};
use crate::tokens::strings_view;

verus! {

/// `v`, or 0 when it is negative.
pub open spec fn sat(v: int) -> int {
    if v < 0 {
        0
    } else {
        v
    }
}

pub open spec fn min_int(a: int, b: int) -> int {
    if a <= b {
        a
    } else {
        b
    }
}

/// The number of digits of `n` written in decimal.
pub fn decimal_len(n: usize) -> (len: usize)
    ensures
        len == decimal(n as nat).len(),
        1 <= len <= n + 1,
    decreases n,
{
    if n < 10 {
        1
    } else {
        let inner = decimal_len(n / 10);
        inner + 1
    }
}

// ---------------------------------------------------------------- panes
/// The column within its pane of screen column `x`: the width past `padding` is shared
/// evenly by the current tab and the `panes` panes, the remainder of the division spread
/// over them from the left, and each pane after the first starts one column further right.
pub open spec fn relative_column(x: int, width: int, padding: int, panes: int) -> int {
    let total = panes + 1;
    let size = (width - padding) / total;
    let n = min_int(sat(x - padding) / size, panes);
    let offset = ((width - padding) % total) * (n + 1) / total;
    sat(sat(sat(sat(x - padding) - size * n) - n) - offset)
}

/// The tab shown at screen column `x` (see `CodeTabs::GetTabNumber`).
pub open spec fn pane_tab(t: CodeTabs, width: int, padding: int, x: int) -> usize {
    let size = (width - padding) / (t.panes@.len() + 1) as int;
    let n = (x - padding) / size;
    let pane = if n <= t.panes@.len() {
        n
    } else {
        t.panes@.len() as int
    };
    if pane == 0 {
        t.currentTab
    } else {
        t.panes@[pane - 1]
    }
}

/// The current tab and every pane name a tab, and every tab has a line.
pub open spec fn tabs_ok(t: CodeTabs) -> bool {
    &&& t.currentTab < t.tabs@.len()
    &&& forall|i: int| 0 <= i < t.panes@.len() ==> #[trigger] t.panes@[i] < t.tabs@.len()
    &&& forall|i: int| 0 <= i < t.tabs@.len() ==> (#[trigger] t.tabs@[i]).lines@.len() >= 1
}

proof fn lemma_share(span: int, total: int, n: int)
    requires
        total >= 1,
        span >= 0,
        0 <= n < total,
    ensures
        (span / total) * n <= span,
        (span % total) * (n + 1) <= total * total,
{
    assert((span / total) * n <= (span / total) * total) by (nonlinear_arith)
        requires
            0 <= n < total,
            span / total >= 0,
    ;
    assert((span / total) * total <= span) by (nonlinear_arith)
        requires
            total >= 1,
            span >= 0,
    ;
    assert((span % total) * (n + 1) <= total * total) by (nonlinear_arith)
        requires
            0 <= span % total < total,
            0 <= n < total,
    ;
}

impl CodeTabs {
    /// The column within its pane of screen column `positionX` (see `relative_column`).
    pub fn GetRelativeTabPosition(&self, positionX: u16, width: u16, paddingLeft: u16) -> (column: u16)
        requires
            paddingLeft <= width,
            self.panes@.len() + 1 < u16::MAX,
            (width - paddingLeft) / (self.panes@.len() + 1) as int > 0,
        ensures
            column == relative_column(positionX as int, width as int, paddingLeft as int, self.panes@.len() as int),
    {
        let panes: u64 = self.panes.len() as u64;
        let total: u64 = panes + 1;
        let span: u64 = (width - paddingLeft) as u64;
        let size: u64 = span / total;
        let x: u64 = if positionX > paddingLeft {
            (positionX - paddingLeft) as u64
        } else {
            0
        };
        let k = x / size;
        let n = if k <= panes {
            k
        } else {
            panes
        };
        proof {
            lemma_share(span as int, total as int, n as int);
            assert(total * total <= 0x1_0000_0000) by (nonlinear_arith)
                requires
                    1 <= total <= 0x1_0000,
            ;
        }
        let offset: u64 = (span % total) * (n + 1) / total;
        let a: u64 = if x > size * n {
            x - size * n
        } else {
            0
        };
        let b: u64 = if a > n {
            a - n
        } else {
            0
        };
        let c: u64 = if b > offset {
            b - offset
        } else {
            0
        };
        c as u16
    }
}

// ---------------------------------------------------------------- clicks in the code
/// The cursor a click at pane column `column` and screen row `row` puts in `t`: the line
/// under the row (the text starts on row 3 and is scrolled), the column past the line
/// numbers, one less when the click is right of the cursor on the cursor's line, each kept
/// within the text.
pub open spec fn clicked_cursor(t: CodeTab, column: int, row: int) -> (usize, usize) {
    let line = scroll_settled(t.scrolled, t.mouseScrolled) + sat(row - 3);
    let col = sat(column - decimal(t.lines@.len() as nat).len());
    let l = min_int(line, t.lines@.len() - 1);
    let c = sat(
        col - if line == t.cursor.0 && col > t.cursor.1 {
            1int
        } else {
            0
        },
    );
    (l as usize, min_int(c, t.text()[l].len() as int) as usize)
}

/// Two tabs with the same text, history, outline and names.
pub open spec fn same_content(a: CodeTab, b: CodeTab) -> bool {
    &&& same_text(a, b)
    &&& a.name == b.name
    &&& a.fileName == b.fileName
    &&& a.pinedLines == b.pinedLines
    &&& a.outlineKeywords == b.outlineKeywords
}

/// Room to place a click in a tab: a line, and a scroll position far from the top of
/// `usize`.
pub open spec fn clickable(t: CodeTab) -> bool {
    &&& t.lines@.len() >= 1
    &&& scroll_settled(t.scrolled, t.mouseScrolled) + 65536 <= usize::MAX
}

/// `b` is `a` after a press at pane column `column` and screen row `row`: the cursor goes
/// where the click is (see `clicked_cursor`); with shift a selection starts at the old
/// cursor (or goes on), without it any selection ends; the view follows and scrolling
/// pauses from `now`.
pub open spec fn pressed_tab(a: CodeTab, b: CodeTab, column: int, row: int, shift: bool, now: u128) -> bool {
    &&& b.cursor == clicked_cursor(a, column, row)
    &&& b.highlighting == shift
    &&& b.cursorEnd == if shift && !a.highlighting {
        a.cursor
    } else {
        a.cursorEnd
    }
    &&& b.pauseScroll == now
    &&& b.scrolled == scroll_settled(a.scrolled, a.mouseScrolled)
    &&& b.mouseScrolled == 0
    &&& same_content(a, b)
}

/// `b` is `a` after a drag (or release) at pane column `column` and screen row `row`: the
/// cursor goes where the mouse is (see `clicked_cursor`) and, when it moved and no
/// selection was under way, a selection starts at the old cursor; the mouse scrolling is
/// dropped.
pub open spec fn dragged_tab(a: CodeTab, b: CodeTab, column: int, row: int) -> bool {
    &&& b.cursor == clicked_cursor(a, column, row)
    &&& b.highlighting == (a.highlighting || b.cursor != a.cursor)
    &&& b.cursorEnd == if !a.highlighting && b.cursor != a.cursor {
        a.cursor
    } else {
        a.cursorEnd
    }
    &&& b.pauseScroll == a.pauseScroll
    &&& b.scrolled == a.scrolled
    &&& b.mouseScrolled == 0
    &&& same_content(a, b)
}

impl CodeTab {
    fn clicked(&self, column: u16, row: u16) -> (cursor: (usize, usize))
        requires
            clickable(*self),
        ensures
            cursor == clicked_cursor(*self, column as int, row as int),
    {
        let s: i128 = self.scrolled as i128 + self.mouseScrolled as i128;
        let settled: usize = if s < 0 {
            0
        } else if s > usize::MAX as i128 {
            usize::MAX
        } else {
            s as usize
        };
        let line: usize = settled + if row > 3 {
            (row - 3) as usize
        } else {
            0
        };
        let digits = decimal_len(self.lines.len());
        let col: usize = if column as usize > digits {
            column as usize - digits
        } else {
            0
        };
        let l = if line <= self.lines.len() - 1 {
            line
        } else {
            self.lines.len() - 1
        };
        let back: usize = if line == self.cursor.0 && col > self.cursor.1 {
            1
        } else {
            0
        };
        let c = if col > back {
            col - back
        } else {
            0
        };
        let len = char_len(&self.lines[l]);
        (l, if c <= len {
            c
        } else {
            len
        })
    }

    /// A press at pane column `column` and screen row `row` (see `pressed_tab`).
    pub fn PressAt(&mut self, column: u16, row: u16, shift: bool, now: u128)
        requires
            clickable(*old(self)),
        ensures
            pressed_tab(*old(self), *final(self), column as int, row as int, shift, now),
    {
        let cursor = self.clicked(column, row);
        self.pauseScroll = now;
        if shift {
            if !self.highlighting {
                self.cursorEnd = self.cursor;
                self.highlighting = true;
            }
        } else {
            self.highlighting = false;
        }
        self.cursor = cursor;
        let s: i128 = self.scrolled as i128 + self.mouseScrolled as i128;
        self.scrolled = if s < 0 {
            0
        } else if s > usize::MAX as i128 {
            usize::MAX
        } else {
            s as usize
        };
        self.mouseScrolled = 0;
    }

    /// A drag (or release) at pane column `column` and screen row `row` (see `dragged_tab`).
    pub fn DragTo(&mut self, column: u16, row: u16)
        requires
            clickable(*old(self)),
        ensures
            dragged_tab(*old(self), *final(self), column as int, row as int),
    {
        let ending = self.cursor;
        let cursor = self.clicked(column, row);
        self.cursor = cursor;
        self.mouseScrolled = 0;
        if (ending.0 != cursor.0 || ending.1 != cursor.1) && !self.highlighting {
            self.cursorEnd = ending;
            self.highlighting = true;
        }
    }
}

// ---------------------------------------------------------------- the editor's clicks
/// The code tabs `b` are `a` with only tab `lt` changed.
pub open spec fn only_tab(a: CodeTabs, b: CodeTabs, lt: int) -> bool {
    &&& a.tabFileNames == b.tabFileNames
    &&& a.currentTab == b.currentTab
    &&& a.panes == b.panes
    &&& a.tabs@.len() == b.tabs@.len()
    &&& forall|i: int| 0 <= i < a.tabs@.len() && i != lt ==> #[trigger] a.tabs@[i] == b.tabs@[i]
}

/// The editor `b` agrees with `a` on everything but the tabs, the tab last worked on and
/// the focus.
pub open spec fn same_but_tabs(a: MainApp, b: MainApp) -> bool {
    &&& a.fileBrowser == b.fileBrowser
    &&& a.allFiles == b.allFiles
    &&& a.renderMode == b.renderMode
    &&& a.exit == b.exit
    &&& a.currentCommand == b.currentCommand
    &&& a.preferredCommandKeybind == b.preferredCommandKeybind
    &&& a.colorMode == b.colorMode
    &&& a.menuState == b.menuState
    &&& a.currentMenuSettingBox == b.currentMenuSettingBox
    &&& a.suggested == b.suggested
    &&& a.debugInfo == b.debugInfo
}

/// The panes past `padding` columns of a `width` wide screen each have room for a column
/// past the line numbers' margin.
pub open spec fn panes_fit(t: CodeTabs, width: int, padding: int) -> bool {
    &&& padding + 4 <= width
    &&& t.panes@.len() + 1 < u16::MAX
    &&& (width - padding - 4) / (t.panes@.len() + 1) as int > 0
}

/// What a press at `(x, y)` in the code does (see `MainApp::PressedCode`).
pub open spec fn code_pressed(a: MainApp, b: MainApp, x: int, y: int, padding: int, width: int, shift: bool, now: u128) -> bool {
    let lt = pane_tab(a.codeTabs, width, padding, x);
    let column = relative_column(x, width, padding + 4, a.codeTabs.panes@.len() as int);
    &&& b.lastTab == lt
    &&& b.appState == AppState::Tabs
    &&& b.tabState == TabState::Code
    &&& only_tab(a.codeTabs, b.codeTabs, lt as int)
    &&& pressed_tab(a.codeTabs.tabs@[lt as int], b.codeTabs.tabs@[lt as int], column, y, shift, now)
    &&& same_but_tabs(a, b)
}

/// What a drag to `(x, y)` in the code does (see `MainApp::HighlightLeftClick`).
pub open spec fn code_dragged(a: MainApp, b: MainApp, x: int, y: int, padding: int, width: int) -> bool {
    let lt = pane_tab(a.codeTabs, width, padding, x);
    let column = relative_column(x, width, padding + 4, a.codeTabs.panes@.len() as int);
    &&& b.lastTab == lt
    &&& b.appState == AppState::Tabs
    &&& b.tabState == TabState::Code
    &&& only_tab(a.codeTabs, b.codeTabs, lt as int)
    &&& dragged_tab(a.codeTabs.tabs@[lt as int], b.codeTabs.tabs@[lt as int], column, y)
    &&& same_but_tabs(a, b)
}

/// A click at column `x` can be placed in the tab it lands on.
pub open spec fn click_ok(a: MainApp, x: int, padding: int, width: int) -> bool {
    &&& tabs_ok(a.codeTabs)
    &&& padding <= x
    &&& panes_fit(a.codeTabs, width, padding)
    &&& clickable(a.codeTabs.tabs@[pane_tab(a.codeTabs, width, padding, x) as int])
}

proof fn lemma_panes_fit(t: CodeTabs, width: int, padding: int)
    requires
        panes_fit(t, width, padding),
    ensures
        (width - padding) / (t.panes@.len() + 1) as int > 0,
{
    vstd::arithmetic::div_mod::lemma_div_is_ordered(
        width - padding - 4,
        width - padding,
        (t.panes@.len() + 1) as int,
    );
}

impl MainApp {
    fn pane_tab_at(&self, x: u16, padding: u16, width: u16) -> (lt: usize)
        requires
            padding <= x,
            panes_fit(self.codeTabs, width as int, padding as int),
        ensures
            lt == pane_tab(self.codeTabs, width as int, padding as int, x as int),
    {
        proof {
            lemma_panes_fit(self.codeTabs, width as int, padding as int);
        }
        let mut last: usize = self.lastTab;
        self.codeTabs.GetTabNumber(width as usize, padding as usize, x as usize, &mut last)
    }

    /// A press in the code: the tab under the mouse becomes the one worked on, its cursor
    /// goes where the click is (with shift held the selection starts or goes on), its view
    /// follows, and the focus moves to editing (see `code_pressed`).
    pub fn PressedCode(&mut self, events: &KeyParser, event: &MouseEvent, padding: u16, width: u16, now: u128)
        requires
            click_ok(*old(self), event.position.0 as int, padding as int, width as int),
        ensures
            code_pressed(
                *old(self),
                *final(self),
                event.position.0 as int,
                event.position.1 as int,
                padding as int,
                width as int,
                events.mouseModifiers@.contains(KeyModifiers::Shift),
                now,
            ),
    {
        let x = event.position.0;
        let lt = self.pane_tab_at(x, padding, width);
        let column = self.codeTabs.GetRelativeTabPosition(x, width, padding + 4);
        let shift = events.ContainsMouseModifier(KeyModifiers::Shift);
        self.lastTab = lt;
        proof {
            lemma_panes_fit(self.codeTabs, width as int, padding as int);
            let size = (width - padding) / (self.codeTabs.panes@.len() + 1) as int;
            let n = (x - padding) / size;
            if n > 0 && n <= self.codeTabs.panes@.len() {
                assert(self.codeTabs.panes@[n - 1] < self.codeTabs.tabs@.len());
            }
            if n > self.codeTabs.panes@.len() && self.codeTabs.panes@.len() > 0 {
                assert(self.codeTabs.panes@[self.codeTabs.panes@.len() - 1] < self.codeTabs.tabs@.len());
            }
            assert(lt < self.codeTabs.tabs@.len());
        }
        let ghost before = self.codeTabs;
        self.codeTabs.tabs[lt].PressAt(column, event.position.1, shift, now);
        proof {
            assert(only_tab(before, self.codeTabs, lt as int));
        }
        self.appState = AppState::Tabs;
        self.tabState = TabState::Code;
    }

    /// A drag (or release) in the code: the tab under the mouse becomes the one worked on
    /// and its cursor follows the mouse, starting a selection when it moves (see
    /// `code_dragged`).
    pub fn HighlightLeftClick(&mut self, _events: &KeyParser, event: &MouseEvent, padding: u16, width: u16)
        requires
            click_ok(*old(self), event.position.0 as int, padding as int, width as int),
        ensures
            code_dragged(*old(self), *final(self), event.position.0 as int, event.position.1 as int, padding as int, width as int),
    {
        let x = event.position.0;
        let lt = self.pane_tab_at(x, padding, width);
        let column = self.codeTabs.GetRelativeTabPosition(x, width, padding + 4);
        self.lastTab = lt;
        proof {
            lemma_panes_fit(self.codeTabs, width as int, padding as int);
            let size = (width - padding) / (self.codeTabs.panes@.len() + 1) as int;
            let n = (x - padding) / size;
            if n > 0 && n <= self.codeTabs.panes@.len() {
                assert(self.codeTabs.panes@[n - 1] < self.codeTabs.tabs@.len());
            }
            if n > self.codeTabs.panes@.len() && self.codeTabs.panes@.len() > 0 {
                assert(self.codeTabs.panes@[self.codeTabs.panes@.len() - 1] < self.codeTabs.tabs@.len());
            }
            assert(lt < self.codeTabs.tabs@.len());
        }
        let ghost before = self.codeTabs;
        self.codeTabs.tabs[lt].DragTo(column, event.position.1);
        proof {
            assert(only_tab(before, self.codeTabs, lt as int));
        }
        self.appState = AppState::Tabs;
        self.tabState = TabState::Code;
    }
}

// ---------------------------------------------------------------- the file list
/// The directory that entry `index` of the visible list names, as a path of
/// subdirectory indices (see `search` and `leaf_path`), if it is found.
pub open spec fn entry_path(a: FilePathNode, index: int) -> Option<Seq<usize>> {
    match search(a, 0, index, 0).0 {
        Some(names) => if names.len() > 0 {
            leaf_path(a, names)
        } else {
            None
        },
        None => None,
    }
}

/// The editor `b` agrees with `a` on everything but the file tree, the file list and the
/// current tab.
pub open spec fn same_but_files(a: MainApp, b: MainApp) -> bool {
    &&& a.appState == b.appState
    &&& a.tabState == b.tabState
    &&& a.lastTab == b.lastTab
    &&& a.codeTabs.tabs == b.codeTabs.tabs
    &&& a.codeTabs.tabFileNames == b.codeTabs.tabFileNames
    &&& a.codeTabs.panes == b.codeTabs.panes
    &&& a.fileBrowser.fileTab == b.fileBrowser.fileTab
    &&& a.fileBrowser.fileCursor == b.fileBrowser.fileCursor
    &&& a.fileBrowser.outlineCursor == b.fileBrowser.outlineCursor
    &&& a.fileBrowser.fileOptions == b.fileBrowser.fileOptions
    &&& a.renderMode == b.renderMode
    &&& a.exit == b.exit
    &&& a.currentCommand == b.currentCommand
    &&& a.preferredCommandKeybind == b.preferredCommandKeybind
    &&& a.colorMode == b.colorMode
    &&& a.menuState == b.menuState
    &&& a.currentMenuSettingBox == b.currentMenuSettingBox
    &&& a.suggested == b.suggested
    &&& a.debugInfo == b.debugInfo
}

/// What a press on entry `index` of the file list does (see
/// `MainApp::HandleFilesMousePress`); `load` is the name and path of the file to open.
pub open spec fn file_pressed(a: MainApp, b: MainApp, index: int, load: Option<(String, String)>) -> bool {
    let f = a.allFiles@[index];
    &&& same_but_files(a, b)
    &&& tree_wf(b.fileBrowser.fileTree)
    &&& height(b.fileBrowser.fileTree) == height(a.fileBrowser.fileTree)
    &&& if f.fileType == FileType::Directory {
        &&& load is None
        &&& match entry_path(a.fileBrowser.fileTree, index) {
            Some(p) => {
                &&& toggled_at(a.fileBrowser.fileTree, b.fileBrowser.fileTree, p)
                &&& infos_view(b.allFiles@) == collect(b.fileBrowser.fileTree, 0)
            },
            None => b.fileBrowser.fileTree == a.fileBrowser.fileTree && b.allFiles == a.allFiles,
        }
        &&& b.codeTabs.currentTab == a.codeTabs.currentTab
    } else {
        &&& load is Some
        &&& load.unwrap().0@ == f.name@
        &&& load.unwrap().1@ == f.path@
        &&& b.codeTabs.currentTab == a.codeTabs.tabs@.len()
        &&& b.fileBrowser.fileTree == a.fileBrowser.fileTree
        &&& b.allFiles == a.allFiles
    }
}

impl MainApp {
    /// A press on entry `height` of the file list: a directory is opened or closed and the
    /// list worked out again; a file is to be opened as the next tab, which becomes the
    /// current one, and its name and path are returned for reading (see `file_pressed`).
    pub fn HandleFilesMousePress(&mut self, height: usize) -> (load: Option<(String, String)>)
        requires
            height < old(self).allFiles@.len(),
            tree_wf(old(self).fileBrowser.fileTree),
            crate::file_manager::height(old(self).fileBrowser.fileTree) <= usize::MAX,
        ensures
            file_pressed(*old(self), *final(self), height as int, load),
    {
        if self.allFiles[height].fileType == FileType::Directory {
            let nth = self.fileBrowser.GetNthElement(height);
            match nth {
                Some(names) => {
                    if names.len() > 0 {
                        let leaf = self.fileBrowser.fileTree.GetLeaf(names);
                        match leaf {
                            Some(p) => {
                                let ghost before = self.fileBrowser.fileTree;
                                self.fileBrowser.fileTree.ToggleCollapsed(&p, 0);
                                proof {
                                    assert(p@.skip(0) =~= p@);
                                    lemma_toggled_wf(before, self.fileBrowser.fileTree, p@);
                                }
                                self.RecalcAllFiles();
                            },
                            None => {},
                        }
                    }
                },
                None => {},
            }
            None
        } else {
            self.codeTabs.currentTab = self.codeTabs.tabs.len();
            let f = &self.allFiles[height];
            Some((f.name.clone(), f.path.clone()))
        }
    }
}

// ---------------------------------------------------------------- the outline and the tab bar
/// The outline line a click on screen row `y` names: the outline is scrolled to keep its
/// cursor mid-panel (the panel is `height - 8` rows), and the line is kept within the
/// outline.
pub open spec fn outline_line_at(a: MainApp, y: int, height: int) -> int {
    let scrollTo = sat(a.fileBrowser.outlineCursor - (height - 8) / 2);
    min_int(sat(y - 3) + scrollTo, a.tab().linearScopes@.len() - 1)
}

/// What a press on outline row `y` does (see `MainApp::PressedScopeJump`).
pub open spec fn scope_jumped(a: MainApp, b: MainApp, y: int, height: int) -> bool {
    let line = outline_line_at(a, y, height);
    let t = a.tab();
    let u = b.tab();
    let node = node_at(t.scopes, rev(t.linearScopes@[line]@));
    &&& b.fileBrowser.outlineCursor == line
    &&& b.fileBrowser.fileTree == a.fileBrowser.fileTree
    &&& b.fileBrowser.fileTab == a.fileBrowser.fileTab
    &&& b.fileBrowser.fileCursor == a.fileBrowser.fileCursor
    &&& b.fileBrowser.fileOptions == a.fileBrowser.fileOptions
    &&& b.lastTab == a.lastTab
    &&& b.appState == a.appState
    &&& b.tabState == a.tabState
    &&& only_tab(a.codeTabs, b.codeTabs, a.lastTab as int)
    &&& u.cursor == (node.start, t.cursor.1)
    &&& u.mouseScrolled == 0
    &&& u.scrolled == t.scrolled
    &&& u.cursorEnd == t.cursorEnd
    &&& u.highlighting == t.highlighting
    &&& u.pauseScroll == t.pauseScroll
    &&& same_content(t, u)
    &&& b.allFiles == a.allFiles
    &&& b.currentCommand == a.currentCommand
    &&& b.exit == a.exit
    &&& b.menuState == a.menuState
    &&& b.suggested == a.suggested
}

/// The right edge of the label of tab `i` on the tab bar (the bar starts past column 29;
/// each label is its number, its name and six columns around them).
pub open spec fn label_edge(names: Seq<Seq<char>>, i: int) -> int
    decreases i + 1,
{
    if i < 0 {
        29
    } else {
        label_edge(names, i - 1) + 6 + decimal((i + 1) as nat).len() + names[i].len()
    }
}

/// The first tab from `k` on whose label reaches column `x`.
pub open spec fn label_at(names: Seq<Seq<char>>, x: int, k: int) -> Option<int>
    decreases names.len() - k,
{
    if k < 0 || k >= names.len() {
        None
    } else if label_edge(names, k) >= x {
        Some(k)
    } else {
        label_at(names, x, k + 1)
    }
}

/// What a press at column `x` of the tab bar does (see `MainApp::PressedNewCodeTab`).
pub open spec fn tab_bar_pressed(a: MainApp, b: MainApp, shift: bool, x: int) -> bool {
    &&& b.codeTabs.tabs == a.codeTabs.tabs
    &&& b.codeTabs.tabFileNames == a.codeTabs.tabFileNames
    &&& same_but_tabs(a, b)
    &&& b.appState == a.appState
    &&& b.tabState == a.tabState
    &&& match label_at(strings_view(a.codeTabs.tabFileNames@), x, 0) {
        None => b.codeTabs == a.codeTabs && b.lastTab == a.lastTab,
        Some(i) => if shift {
            &&& b.codeTabs.panes@ == a.codeTabs.panes@.push(i as usize)
            &&& b.codeTabs.currentTab == a.codeTabs.currentTab
            &&& b.lastTab == a.lastTab
        } else {
            &&& b.codeTabs.panes == a.codeTabs.panes
            &&& b.codeTabs.currentTab == i
            &&& b.lastTab == i
        },
    }
}

impl CodeTab {
    fn jump_line(&mut self, line: usize)
        ensures
            final(self).cursor == (line, old(self).cursor.1),
            final(self).mouseScrolled == 0,
            final(self).scrolled == old(self).scrolled,
            final(self).cursorEnd == old(self).cursorEnd,
            final(self).highlighting == old(self).highlighting,
            final(self).pauseScroll == old(self).pauseScroll,
            same_content(*old(self), *final(self)),
    {
        self.cursor = (line, self.cursor.1);
        self.mouseScrolled = 0;
    }
}

impl MainApp {
    /// A press on the outline: the outline line under the mouse becomes the outline's
    /// cursor and the code's cursor goes to the first line of its scope (see
    /// `scope_jumped`).
    pub fn PressedScopeJump(&mut self, _events: &KeyParser, event: &MouseEvent, height: u16)
        requires
            old(self).lastTab < old(self).codeTabs.tabs@.len(),
            height >= 8,
            old(self).tab().linearScopes@.len() >= 1,
            old(self).fileBrowser.outlineCursor + 65536 <= usize::MAX,
        ensures
            scope_jumped(*old(self), *final(self), event.position.1 as int, height as int),
    {
        let lt = self.lastTab;
        let half: usize = ((height - 8) / 2) as usize;
        let scrollTo: usize = if self.fileBrowser.outlineCursor > half {
            self.fileBrowser.outlineCursor - half
        } else {
            0
        };
        let row: usize = if event.position.1 > 3 {
            (event.position.1 - 3) as usize
        } else {
            0
        };
        let last = self.codeTabs.tabs[lt].linearScopes.len() - 1;
        let line = if row + scrollTo <= last {
            row + scrollTo
        } else {
            last
        };
        self.fileBrowser.outlineCursor = line;
        let mut scopes = reversed(&self.codeTabs.tabs[lt].linearScopes[line]);
        let start = self.codeTabs.tabs[lt].scopes.GetNode(&mut scopes).start;
        let ghost before = self.codeTabs;
        self.codeTabs.tabs[lt].jump_line(start);
        proof {
            assert(only_tab(before, self.codeTabs, lt as int));
        }
    }

    /// A press on the tab bar: the first tab whose label reaches the mouse (see
    /// `label_at`) becomes the current tab and the one worked on, or with shift is opened
    /// in a new pane; nothing happens past the last label.
    pub fn PressedNewCodeTab(&mut self, events: &KeyParser, event: &MouseEvent)
        ensures
            tab_bar_pressed(*old(self), *final(self), events.mouseModifiers@.contains(KeyModifiers::Shift), event.position.0 as int),
    {
        let ghost names = strings_view(self.codeTabs.tabFileNames@);
        let x = event.position.0 as usize;
        let mut sizeCounted: usize = 29;
        let mut index: usize = 0;
        let n = self.codeTabs.tabFileNames.len();
        while index < n
            invariant
                n == self.codeTabs.tabFileNames@.len(),
                names == strings_view(self.codeTabs.tabFileNames@),
                *self == *old(self),
                index <= n,
                sizeCounted == label_edge(names, index - 1),
                sizeCounted < x || index == 0,
                sizeCounted <= u16::MAX,
                x == event.position.0,
                label_at(names, x as int, 0) == label_at(names, x as int, index as int),
            decreases n - index,
        {
            let digits = decimal_len(index + 1);
            let len = char_len(&self.codeTabs.tabFileNames[index]);
            proof {
                assert(names[index as int] == self.codeTabs.tabFileNames@[index as int]@);
            }
            let next: u128 = sizeCounted as u128 + 6 + digits as u128 + len as u128;
            proof {
                assert(next == label_edge(names, index as int));
            }
            if next >= x as u128 {
                proof {
                    assert(label_at(names, x as int, index as int) == Some(index as int));
                }
                if events.ContainsMouseModifier(KeyModifiers::Shift) {
                    self.codeTabs.panes.push(index);
                } else {
                    self.codeTabs.currentTab = index;
                    self.lastTab = index;
                }
                return;
            }
            sizeCounted = next as usize;
            index = index + 1;
        }
    }
}

// ---------------------------------------------------------------- presses and drags
/// Which part of the screen a press at `(x, y)` is for: 1 the code (past `padding`
/// columns, below the tab bar and above the bottom panels), 2 the outline, 3 the tab bar,
/// 4 the file list (on the prompt), 0 nothing.
pub open spec fn press_target(a: MainApp, x: int, y: int, padding: int, height: int) -> int {
    let open = a.codeTabs.tabs@.len() > 0;
    if x > padding && y < height - 8 && y > 2 && open {
        1
    } else if x <= 29 && y < height - 10 && a.fileBrowser.fileTab == FileTabs::Outline && open {
        2
    } else if x > 29 && y <= 2 && open {
        3
    } else if x > 1 && x < 30 && y < height - 8 && y > 1 && a.appState == AppState::CommandPrompt {
        4
    } else {
        0
    }
}

/// What each target of a press needs.
pub open spec fn press_ok(a: MainApp, x: int, y: int, padding: int, width: int, height: int) -> bool {
    let target = press_target(a, x, y, padding, height);
    &&& height >= 10
    &&& target == 1 ==> click_ok(a, x, padding, width)
    &&& target == 2 ==> {
        &&& a.lastTab < a.codeTabs.tabs@.len()
        &&& a.tab().linearScopes@.len() >= 1
        &&& a.fileBrowser.outlineCursor + 65536 <= usize::MAX
    }
    &&& target == 4 && sat(y - 2) < a.allFiles@.len() ==> {
        &&& tree_wf(a.fileBrowser.fileTree)
        &&& crate::file_manager::height(a.fileBrowser.fileTree) <= usize::MAX
    }
}

/// What a press at `(x, y)` does, by its target (see `press_target`); `load` names the
/// file to open.
pub open spec fn pressed(
    a: MainApp,
    b: MainApp,
    x: int,
    y: int,
    padding: int,
    width: int,
    height: int,
    shift: bool,
    now: u128,
    load: Option<(String, String)>,
) -> bool {
    let target = press_target(a, x, y, padding, height);
    if target == 1 {
        code_pressed(a, b, x, y, padding, width, shift, now) && load is None
    } else if target == 2 {
        scope_jumped(a, b, y, height) && load is None
    } else if target == 3 {
        tab_bar_pressed(a, b, shift, x) && load is None
    } else if target == 4 && sat(y - 2) < a.allFiles@.len() {
        file_pressed(a, b, sat(y - 2), load)
    } else {
        b == a && load is None
    }
}

/// The columns the prompt's panels take on the left (none while editing).
pub open spec fn left_padding(a: MainApp) -> int {
    if a.appState == AppState::CommandPrompt {
        29
    } else {
        0
    }
}

impl MainApp {
    /// A press of the left button: on the code, the outline, the tab bar or the file list
    /// (see `pressed`).
    pub fn HandlePress(
        &mut self,
        events: &KeyParser,
        event: &MouseEvent,
        padding: u16,
        width: u16,
        height: u16,
        now: u128,
    ) -> (load: Option<(String, String)>)
        requires
            press_ok(*old(self), event.position.0 as int, event.position.1 as int, padding as int, width as int, height as int),
        ensures
            pressed(
                *old(self),
                *final(self),
                event.position.0 as int,
                event.position.1 as int,
                padding as int,
                width as int,
                height as int,
                events.mouseModifiers@.contains(KeyModifiers::Shift),
                now,
                load,
            ),
    {
        let x = event.position.0;
        let y = event.position.1;
        let open = self.codeTabs.tabs.len() > 0;
        if x > padding && y < height - 8 && y > 2 && open {
            self.PressedCode(events, event, padding, width, now);
            None
        } else if x <= 29 && y < height - 10 && self.fileBrowser.fileTab == FileTabs::Outline && open {
            self.PressedScopeJump(events, event, height);
            None
        } else if x > 29 && y <= 2 && open {
            self.PressedNewCodeTab(events, event);
            None
        } else if x > 1 && x < 30 && y < height - 8 && y > 1 && self.appState == AppState::CommandPrompt {
            let index = (y - 2) as usize;
            if index < self.allFiles.len() {
                self.HandleFilesMousePress(index)
            } else {
                None
            }
        } else {
            None
        }
    }

    /// A left button event: a drag or release on the code extends the selection there, a
    /// press goes to `HandlePress`; the prompt's panels take 29 columns on the left.
    pub fn HandleLeftClick(&mut self, events: &KeyParser, event: &MouseEvent, width: u16, height: u16, now: u128) -> (load: Option<
        (String, String),
    >)
        requires
            height >= 10,
            (event.state == MouseState::Release || event.state == MouseState::Hold) && event.position.0 > left_padding(
                *old(self),
            ) && event.position.1 < height - 8 && event.position.1 > 2 && old(self).codeTabs.tabs@.len() > 0 ==> click_ok(
                *old(self),
                event.position.0 as int,
                left_padding(*old(self)),
                width as int,
            ),
            event.state == MouseState::Press ==> press_ok(
                *old(self),
                event.position.0 as int,
                event.position.1 as int,
                left_padding(*old(self)),
                width as int,
                height as int,
            ),
        ensures
            ({
                let a = *old(self);
                let b = *final(self);
                let (x, y) = (event.position.0 as int, event.position.1 as int);
                let padding = left_padding(a);
                if event.state == MouseState::Release || event.state == MouseState::Hold {
                    &&& load is None
                    &&& if x > padding && y < height - 8 && y > 2 && a.codeTabs.tabs@.len() > 0 {
                        code_dragged(a, b, x, y, padding, width as int)
                    } else {
                        b == a
                    }
                } else if event.state == MouseState::Press {
                    pressed(a, b, x, y, padding, width as int, height as int, events.mouseModifiers@.contains(KeyModifiers::Shift), now, load)
                } else {
                    b == a && load is None
                }
            }),
    {
        let padding: u16 = if self.appState == AppState::CommandPrompt {
            29
        } else {
            0
        };
        let x = event.position.0;
        let y = event.position.1;
        match event.state {
            MouseState::Release | MouseState::Hold => {
                if x > padding && y < height - 8 && y > 2 && self.codeTabs.tabs.len() > 0 {
                    self.HighlightLeftClick(events, event, padding, width);
                }
                None
            },
            MouseState::Press => self.HandlePress(events, event, padding, width, height, now),
            MouseState::Null => None,
        }
    }
}

} // verus!
