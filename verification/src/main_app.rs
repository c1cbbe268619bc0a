//! The editor's screen state and the file browser's panel: the code outline of the tab last
//! worked on (one line per scope, indented by depth), the list of files, and the file
//! options menu.
use vstd::prelude::*;
use crate::code_tabs::CodeTab;
use crate::tabs::CodeTabs;
use crate::file_manager::{
    FileBrowser, FileInfo, FileType, OptionTabs, FilePathNode, tree_wf, height, collect, infos_view,
};
use crate::term_render::{ColorType, ColorMode, Colored, ColoredView, Span, Colorize, with_colors};
use crate::token_info::ScopeNode;
use crate::event_handler::{KeyCode, KeyModifiers, KeyParser, MouseEvent};

verus! {

/// Which panel has the focus within the editor.
#[derive(Debug, Clone, Copy, PartialEq, Eq, Structural)]
pub enum TabState {
    Code,
    Files,
    Tabs,
}

impl Default for TabState {
    fn default() -> (s: TabState)
        ensures
            s == TabState::Code,
    {
        TabState::Code
    }
}

/// Whether the editor, the command prompt or the menu is in use.
#[derive(Debug, Clone, Copy, PartialEq, Eq, Structural)]
pub enum AppState {
    Tabs,
    CommandPrompt,
    Menu,
}

impl Default for AppState {
    fn default() -> (s: AppState)
        ensures
            s == AppState::Menu,
    {
        AppState::Menu
    }
}

/// The menu's page.
#[derive(Debug, Clone, Copy, PartialEq, Eq, Structural)]
pub enum MenuState {
    Welcome,
    Settings,
}

/// The editor's state that the file browser panel is drawn from.
#[derive(Debug)]
pub struct MainApp {
    pub appState: AppState,
    pub tabState: TabState,
    pub codeTabs: CodeTabs,
    pub fileBrowser: FileBrowser,
    /// The visible items of the file tree, flattened.
    pub allFiles: Vec<FileInfo>,
    /// The tab the outline is drawn for.
    pub lastTab: usize,
    /// Light or dark terminal background.
    pub renderMode: ColorMode,
    /// Set once the editor is to close.
    pub exit: bool,
    /// The command being typed at the prompt.
    pub currentCommand: String,
    /// The modifier that command shortcuts use (command or control).
    pub preferredCommandKeybind: KeyModifiers,
    /// The color settings.
    pub colorMode: crate::colors::ColorMode,
    pub menuState: MenuState,
    /// The settings row selected in the menu.
    pub currentMenuSettingBox: usize,
    /// The completion offered for the token at the cursor (empty when there is none).
    pub suggested: String,
    /// A line of timing figures shown in the error bar.
    pub debugInfo: String,
}

pub open spec fn plain(text: Seq<char>) -> ColoredView {
    (text, Seq::empty(), None, None)
}

/// The color of a scope's name by its depth.
pub open spec fn scope_color(depth: usize) -> ColorType {
    if depth == 1 {
        ColorType::BrightBlue
    } else if depth == 2 {
        ColorType::BrightMagenta
    } else if depth == 3 {
        ColorType::BrightRed
    } else if depth == 4 {
        ColorType::BrightYellow
    } else if depth == 5 {
        ColorType::BrightGreen
    } else {
        ColorType::BrightWhite
    }
}

/// `n` times two spaces.
pub open spec fn indent(n: int) -> Seq<char> {
    Seq::new((2 * n) as nat, |i: int| ' ')
}

/// The start of an outline line: a marker for the scope under the cursor, then two spaces
/// per level below the top.
pub open spec fn outline_prefix(marked: bool, depth: int) -> Seq<char> {
    (if marked {
        seq!['>']
    } else {
        Seq::empty()
    }) + indent(if depth > 1 {
        depth - 1
    } else {
        0
    })
}

/// `node` after moving down along `path`, skipping the steps that name no child.
pub open spec fn descend(node: ScopeNode, path: Seq<usize>) -> ScopeNode
    decreases path.len(),
{
    if path.len() == 0 {
        node
    } else if path[0] < node.children@.len() {
        descend(node.children@[path[0] as int], path.drop_first())
    } else {
        descend(node, path.drop_first())
    }
}

/// Whether `s` starts `scopes` (the empty path starts everything).
pub open spec fn starts(scopes: Seq<usize>, s: Seq<usize>) -> bool {
    s.len() <= scopes.len() && scopes.subrange(0, s.len() as int) == s
}

/// Where the outline drawing stands: the scope path drawn last, how many scopes were
/// passed, the new outline cursor, the tab's scope tree (which the drawing moves down), and
/// the lines drawn.
pub struct OutlineState {
    pub scopes: Seq<usize>,
    pub scrolled: int,
    pub newScroll: int,
    pub root: ScopeNode,
    pub lines: Seq<Seq<ColoredView>>,
}

pub open spec fn jumps_view(v: Seq<Vec<usize>>) -> Seq<Seq<usize>> {
    v.map_values(|p: Vec<usize>| p@)
}

impl MainApp {
    pub open spec fn tab(&self) -> CodeTab {
        self.codeTabs.tabs@[self.lastTab as int]
    }

    /// The tab exists, the cursor's line has a scope path, and when the outline is being
    /// browsed its cursor names a scope.
    pub open spec fn outline_ok(&self) -> bool {
        &&& self.lastTab < self.codeTabs.tabs@.len()
        &&& self.tab().cursor.0 < self.tab().scopeJumps@.len()
        &&& (self.appState == AppState::CommandPrompt && self.tabState == TabState::Files) ==> self.fileBrowser.outlineCursor
            < self.tab().linearScopes@.len()
    }

    pub open spec fn at_cursor_scope(&self, s: Seq<usize>) -> bool {
        s == self.tab().scopeJumps@[self.tab().cursor.0 as int]@
    }

    pub open spec fn at_outline_cursor(&self, s: Seq<usize>) -> bool {
        &&& self.appState == AppState::CommandPrompt
        &&& self.tabState == TabState::Files
        &&& self.tab().linearScopes@[self.fileBrowser.outlineCursor as int]@ == s
    }

    /// Whether the scope gets the marker: it holds the cursor while code is edited, or the
    /// outline cursor is on it.
    pub open spec fn outline_marked(&self, s: Seq<usize>) -> bool {
        (self.at_cursor_scope(s) && self.appState == AppState::Tabs && self.tabState == TabState::Code)
            || self.at_outline_cursor(s)
    }

    /// Whether the scope's name is underlined: it holds the cursor while the prompt is open
    /// over the code, or the outline cursor is on it.
    pub open spec fn outline_underlined(&self, s: Seq<usize>) -> bool {
        (self.at_cursor_scope(s) && self.appState == AppState::CommandPrompt && self.tabState
            == TabState::Code) || self.at_outline_cursor(s)
    }

    /// The outline line of scope path `s` whose scope is named `name`.
    pub open spec fn outline_line(&self, s: Seq<usize>, name: Seq<char>) -> Seq<ColoredView> {
        let colored = with_colors(plain(name), seq![scope_color(s.len() as usize)], self.renderMode);
        seq![
            with_colors(
                plain(outline_prefix(self.outline_marked(s), s.len() as int)),
                seq![ColorType::BrightWhite],
                self.renderMode,
            ),
            if self.outline_underlined(s) {
                with_colors(colored, seq![ColorType::Underline], self.renderMode)
            } else {
                with_colors(colored, Seq::empty(), self.renderMode)
            },
        ]
    }

    /// One scope path of the outline: paths that start the last one drawn are skipped;
    /// otherwise the tree moves down the path, the count goes up, the outline cursor follows
    /// the code cursor's scope, and a line is drawn once `scrollTo` scopes are passed.
    pub open spec fn outline_step(&self, st: OutlineState, s: Seq<usize>, scrollTo: int) -> OutlineState {
        if starts(st.scopes, s) {
            st
        } else {
            let root = descend(st.root, s);
            let scrolled = st.scrolled + 1;
            OutlineState {
                scopes: s,
                scrolled,
                newScroll: if self.at_cursor_scope(s) && self.appState == AppState::Tabs && self.tabState
                    == TabState::Code {
                    scrolled - 1
                } else {
                    st.newScroll
                },
                root,
                lines: if scrolled < scrollTo {
                    st.lines
                } else {
                    st.lines.push(self.outline_line(s, root.name@))
                },
            }
        }
    }

    /// The outline steps for each path in turn.
    pub open spec fn outline_fold(&self, st: OutlineState, paths: Seq<Seq<usize>>, scrollTo: int) -> OutlineState
        decreases paths.len(),
    {
        if paths.len() == 0 {
            st
        } else {
            self.outline_fold(self.outline_step(st, paths[0], scrollTo), paths.drop_first(), scrollTo)
        }
    }
}

/// Whether two tabs differ in their scope tree at most.
pub open spec fn same_but_scopes(a: CodeTab, b: CodeTab) -> bool {
    &&& a.cursor == b.cursor
    &&& a.lines == b.lines
    &&& a.lineTokens == b.lineTokens
    &&& a.scopeJumps == b.scopeJumps
    &&& a.linearScopes == b.linearScopes
    &&& a.scrolled == b.scrolled
    &&& a.mouseScrolled == b.mouseScrolled
    &&& a.name == b.name
    &&& a.fileName == b.fileName
    &&& a.cursorEnd == b.cursorEnd
    &&& a.highlighting == b.highlighting
    &&& a.pauseScroll == b.pauseScroll
    &&& a.searchIndex == b.searchIndex
    &&& a.searchTerm == b.searchTerm
    &&& a.changeBuffer == b.changeBuffer
    &&& a.redoneBuffer == b.redoneBuffer
    &&& a.pinedLines == b.pinedLines
    &&& a.outlineKeywords == b.outlineKeywords
    &&& a.lineTokenFlags == b.lineTokenFlags
}

/// Whether two states differ in the scope tree of the tab last worked on at most.
pub open spec fn same_but_tab_scopes(a: MainApp, b: MainApp) -> bool {
    &&& a.appState == b.appState
    &&& a.tabState == b.tabState
    &&& a.lastTab == b.lastTab
    &&& a.renderMode == b.renderMode
    &&& a.exit == b.exit
    &&& a.currentCommand == b.currentCommand
    &&& a.preferredCommandKeybind == b.preferredCommandKeybind
    &&& a.colorMode == b.colorMode
    &&& a.menuState == b.menuState
    &&& a.currentMenuSettingBox == b.currentMenuSettingBox
    &&& a.suggested == b.suggested
    &&& a.fileBrowser == b.fileBrowser
    &&& a.allFiles == b.allFiles
    &&& a.codeTabs.tabFileNames == b.codeTabs.tabFileNames
    &&& a.codeTabs.currentTab == b.codeTabs.currentTab
    &&& a.codeTabs.panes == b.codeTabs.panes
    &&& a.codeTabs.tabs@.len() == b.codeTabs.tabs@.len()
    &&& forall|i: int|
        0 <= i < a.codeTabs.tabs@.len() && i != a.lastTab ==> #[trigger] a.codeTabs.tabs@[i] == b.codeTabs.tabs@[i]
    &&& a.lastTab < a.codeTabs.tabs@.len() ==> same_but_scopes(a.tab(), b.tab())
}

fn usizes_equal(a: &Vec<usize>, b: &Vec<usize>) -> (eq: bool)
    ensures
        eq == (a@ == b@),
{
    if a.len() != b.len() {
        return false;
    }
    let mut k: usize = 0;
    while k < a.len()
        invariant
            a@.len() == b@.len(),
            k <= a@.len(),
            forall|w: int| 0 <= w < k ==> a@[w] == b@[w],
        decreases a@.len() - k,
    {
        if a[k] != b[k] {
            return false;
        }
        k = k + 1;
    }
    proof {
        assert(a@ =~= b@);
    }
    true
}

fn copy_path(v: &Vec<usize>) -> (r: Vec<usize>)
    ensures
        r@ == v@,
{
    crate::token_info::clone_usizes(v)
}

/// The color of a file-browser entry's text: bright white, underlined under the cursor.
pub open spec fn entry_colors(onCursor: bool) -> Seq<ColorType> {
    if onCursor {
        seq![ColorType::BrightWhite, ColorType::Underline]
    } else {
        seq![ColorType::BrightWhite]
    }
}

/// The text of a file-browser entry: two spaces per level, an arrow for a directory
/// (`> ` collapsed, `v ` expanded), then the name.
pub open spec fn entry_text(name: Seq<char>, fileType: FileType, depth: int, collapsed: bool) -> Seq<char> {
    indent(depth) + (if fileType == FileType::Directory {
        if collapsed {
            seq!['>', ' ']
        } else {
            seq!['v', ' ']
        }
    } else {
        Seq::empty()
    }) + name
}

impl MainApp {
    fn cursor_scope_is(&self, scopeIndex: &Vec<usize>) -> (b: bool)
        requires
            self.outline_ok(),
        ensures
            b == self.at_cursor_scope(scopeIndex@),
    {
        let tab = &self.codeTabs.tabs[self.lastTab];
        usizes_equal(scopeIndex, &tab.scopeJumps[tab.cursor.0])
    }

    fn outline_cursor_is(&self, scopeIndex: &Vec<usize>) -> (b: bool)
        requires
            self.outline_ok(),
        ensures
            b == self.at_outline_cursor(scopeIndex@),
    {
        if self.appState == AppState::CommandPrompt && self.tabState == TabState::Files {
            let tab = &self.codeTabs.tabs[self.lastTab];
            usizes_equal(&tab.linearScopes[self.fileBrowser.outlineCursor], scopeIndex)
        } else {
            false
        }
    }

    /// The start of the outline line of a scope path (see `outline_prefix`).
    pub fn RenderOutlinePartOne(&self, scopeIndex: &Vec<usize>) -> (offset: String)
        requires
            self.outline_ok(),
        ensures
            offset@ == outline_prefix(self.outline_marked(scopeIndex@), scopeIndex@.len() as int),
    {
        let mut offset = String::new();
        let marked = (self.cursor_scope_is(scopeIndex) && self.appState == AppState::Tabs && self.tabState
            == TabState::Code) || self.outline_cursor_is(scopeIndex);
        if marked {
            crate::text::string_push(&mut offset, '>');
        }
        let levels: usize = if scopeIndex.len() > 0 {
            scopeIndex.len() - 1
        } else {
            0
        };
        let ghost start = offset@;
        let mut k: usize = 0;
        while k < levels
            invariant
                k <= levels,
                offset@ == start + indent(k as int),
            decreases levels - k,
        {
            crate::text::string_push(&mut offset, ' ');
            crate::text::string_push(&mut offset, ' ');
            proof {
                assert(offset@ =~= start + indent(k + 1));
            }
            k = k + 1;
        }
        proof {
            assert(start == if marked {
                seq!['>']
            } else {
                Seq::<char>::empty()
            });
        }
        offset
    }

    /// A scope's name in the color of its depth (see `scope_color`).
    pub fn GetColoredScope(&self, scopeName: String, scopeLength: usize) -> (c: Colored)
        ensures
            c@ == with_colors(plain(scopeName@), seq![scope_color(scopeLength)], self.renderMode),
    {
        let color = if scopeLength == 1 {
            ColorType::BrightBlue
        } else if scopeLength == 2 {
            ColorType::BrightMagenta
        } else if scopeLength == 3 {
            ColorType::BrightRed
        } else if scopeLength == 4 {
            ColorType::BrightYellow
        } else if scopeLength == 5 {
            ColorType::BrightGreen
        } else {
            ColorType::BrightWhite
        };
        scopeName.Colorize(color, self.renderMode)
    }

    /// Adds the outline line of a scope path, named after the root of the tab's scope tree.
    pub fn GetFilebrowserOutline(&self, fileStringText: &mut Vec<Span>, scopeIndex: &Vec<usize>)
        requires
            self.outline_ok(),
        ensures
            final(fileStringText)@.len() == old(fileStringText)@.len() + 1,
            final(fileStringText)@.drop_last() == old(fileStringText)@,
            final(fileStringText)@.last()@ == self.outline_line(scopeIndex@, self.tab().scopes.name@),
    {
        let prefix = self.RenderOutlinePartOne(scopeIndex);
        let first = prefix.Colorize(ColorType::BrightWhite, self.renderMode);
        let name = crate::text::string_of_str(self.codeTabs.tabs[self.lastTab].scopes.name.as_str());
        let colored = self.GetColoredScope(name, scopeIndex.len());
        let underlined = (self.cursor_scope_is(scopeIndex) && self.appState == AppState::CommandPrompt
            && self.tabState == TabState::Code) || self.outline_cursor_is(scopeIndex);
        let second = if underlined {
            colored.Colorize(ColorType::Underline, self.renderMode)
        } else {
            colored.Colorizes(Vec::new(), self.renderMode)
        };
        let tokens = vec![first, second];
        let span = Span::FromTokens(tokens);
        proof {
            assert(span@ =~= self.outline_line(scopeIndex@, self.tab().scopes.name@));
        }
        let ghost before = fileStringText@;
        fileStringText.push(span);
        proof {
            assert(fileStringText@.drop_last() =~= before);
        }
    }

    /// Moves the outline cursor to the count of scopes passed when the path holds the code
    /// cursor while code is edited.
    pub fn HandleScrolled(&self, scrolled: usize, newScroll: &mut usize, scopeIndex: &Vec<usize>)
        requires
            self.outline_ok(),
            self.at_cursor_scope(scopeIndex@) && self.appState == AppState::Tabs && self.tabState == TabState::Code
                ==> scrolled >= 1,
        ensures
            *final(newScroll) == if self.at_cursor_scope(scopeIndex@) && self.appState == AppState::Tabs
                && self.tabState == TabState::Code {
                scrolled - 1
            } else {
                *old(newScroll) as int
            },
    {
        if self.cursor_scope_is(scopeIndex) && self.appState == AppState::Tabs && self.tabState == TabState::Code {
            *newScroll = scrolled - 1;
        }
    }

    /// Moves the tab's scope tree down a path (see `descend`), recording the path.
    fn descend_scopes(&mut self, scopes: &mut Vec<usize>, scopeIndex: &Vec<usize>)
        requires
            old(self).outline_ok(),
            old(scopes)@.len() == 0,
        ensures
            final(self).outline_ok(),
            same_but_tab_scopes(*old(self), *final(self)),
            final(self).tab().scopes == descend(old(self).tab().scopes, scopeIndex@),
            final(scopes)@ == scopeIndex@,
    {
        let lt = self.lastTab;
        let ghost start = self.tab().scopes;
        let ghost app0 = *self;
        let mut k: usize = 0;
        proof {
            assert(scopeIndex@.subrange(0, 0) =~= Seq::<usize>::empty());
            assert(scopeIndex@.subrange(0, scopeIndex@.len() as int) =~= scopeIndex@);
        }
        while k < scopeIndex.len()
            invariant
                k <= scopeIndex@.len(),
                lt == app0.lastTab,
                self.outline_ok(),
                same_but_tab_scopes(app0, *self),
                descend(start, scopeIndex@) == descend(
                    self.tab().scopes,
                    scopeIndex@.subrange(k as int, scopeIndex@.len() as int),
                ),
                scopes@ == scopeIndex@.subrange(0, k as int),
            decreases scopeIndex@.len() - k,
        {
            let index = scopeIndex[k];
            let ghost rest = scopeIndex@.subrange(k as int, scopeIndex@.len() as int);
            proof {
                assert(rest[0] == index);
                assert(rest.drop_first() =~= scopeIndex@.subrange(k + 1, scopeIndex@.len() as int));
            }
            scopes.push(index);
            proof {
                assert(scopes@ =~= scopeIndex@.subrange(0, k + 1));
            }
            if index < self.codeTabs.tabs[lt].scopes.children.len() {
                let ghost before = *self;
                let child = self.codeTabs.tabs[lt].scopes.children.remove(index);
                self.codeTabs.tabs[lt].scopes = child;
                proof {
                    assert(self.tab().scopes == before.tab().scopes.children@[index as int]);
                    assert forall|i: int|
                        0 <= i < app0.codeTabs.tabs@.len() && i != app0.lastTab implies #[trigger] app0.codeTabs.tabs@[i]
                        == self.codeTabs.tabs@[i] by {
                        assert(before.codeTabs.tabs@[i] == self.codeTabs.tabs@[i]);
                    }
                }
            }
            k = k + 1;
        }
    }

    /// One scope path of the outline (see `outline_step`), drawn into `fileStringText`.
    pub fn RenderInnerFilebrowserRender(
        &mut self,
        scopes: &mut Vec<usize>,
        scopeIndex: &Vec<usize>,
        scrolled: &mut usize,
        scrollTo: usize,
        newScroll: &mut usize,
        fileStringText: &mut Vec<Span>,
    )
        requires
            old(self).outline_ok(),
            *old(scrolled) < usize::MAX,
        ensures
            final(self).outline_ok(),
            same_but_tab_scopes(*old(self), *final(self)),
            ({
                let st = OutlineState {
                    scopes: old(scopes)@,
                    scrolled: *old(scrolled) as int,
                    newScroll: *old(newScroll) as int,
                    root: old(self).tab().scopes,
                    lines: old(fileStringText)@.map_values(|s: Span| s@),
                };
                let next = old(self).outline_step(st, scopeIndex@, scrollTo as int);
                &&& final(scopes)@ == next.scopes
                &&& *final(scrolled) == next.scrolled
                &&& *final(newScroll) == next.newScroll
                &&& final(self).tab().scopes == next.root
                &&& final(fileStringText)@.map_values(|s: Span| s@) == next.lines
            }),
    {
        let mut valid = true;
        let mut i: usize = 0;
        let ghost sc = scopes@;
        let ghost s = scopeIndex@;
        while i < scopes.len()
            invariant
                sc == scopes@,
                s == scopeIndex@,
                i <= sc.len(),
                valid == !(s.len() <= sc.len() && sc.len() - s.len() < i && sc.subrange(0, s.len() as int) == s),
            decreases sc.len() - i,
        {
            let n = scopes.len() - i;
            let mut same = n == scopeIndex.len();
            if same {
                let mut w: usize = 0;
                while w < n
                    invariant
                        n == s.len(),
                        n <= sc.len(),
                        sc == scopes@,
                        s == scopeIndex@,
                        w <= n,
                        same == (forall|x: int| 0 <= x < w ==> sc[x] == s[x]),
                    decreases n - w,
                {
                    if scopes[w] != scopeIndex[w] {
                        same = false;
                    }
                    w = w + 1;
                }
            }
            proof {
                if same {
                    assert(sc.subrange(0, n as int) =~= s);
                } else if n == s.len() && sc.subrange(0, n as int) == s {
                    assert forall|x: int| 0 <= x < n implies sc[x] == s[x] by {
                        assert(sc.subrange(0, n as int)[x] == sc[x]);
                    }
                }
            }
            if same {
                valid = false;
            }
            i = i + 1;
        }
        proof {
            if s.len() == 0 {
                assert(sc.subrange(0, 0) =~= s);
            }
            assert(starts(sc, s) && s.len() > 0 <==> !valid);
        }
        if !valid || scopeIndex.len() == 0 {
            return;
        }
        scopes.clear();
        self.descend_scopes(scopes, scopeIndex);
        *scrolled = *scrolled + 1;
        let ghost mid = *self;
        self.HandleScrolled(*scrolled, newScroll, scopeIndex);
        if *scrolled < scrollTo {
            return;
        }
        let ghost before = fileStringText@;
        self.GetFilebrowserOutline(fileStringText, scopeIndex);
        proof {
            assert(fileStringText@ =~= before.push(fileStringText@.last()));
            assert(fileStringText@.map_values(|s: Span| s@) =~= before.map_values(|s: Span| s@).push(
                fileStringText@.last()@,
            ));
        }
    }

    /// Draws the outline of the tab last worked on for a panel of `height` rows: each scope
    /// path of its lines in turn (see `outline_fold`), from the one that keeps the outline
    /// cursor mid-panel; the outline cursor then follows the code cursor's scope.
    pub fn RenderFilebrowserOutline(&mut self, height: u16) -> (lines: Vec<Span>)
        requires
            old(self).outline_ok(),
            height >= 8,
            old(self).tab().scopeJumps@.len() < usize::MAX,
        ensures
            final(self).outline_ok(),
            ({
                let scrollTo = if old(self).fileBrowser.outlineCursor > (height - 8) / 2 {
                    old(self).fileBrowser.outlineCursor - (height - 8) / 2
                } else {
                    0
                };
                let st = OutlineState {
                    scopes: Seq::empty(),
                    scrolled: 0,
                    newScroll: old(self).fileBrowser.outlineCursor as int,
                    root: old(self).tab().scopes,
                    lines: Seq::empty(),
                };
                let fin = old(self).outline_fold(st, jumps_view(old(self).tab().scopeJumps@), scrollTo);
                &&& lines@.map_values(|s: Span| s@) == fin.lines
                &&& final(self).tab().scopes == fin.root
                &&& final(self).fileBrowser.outlineCursor == fin.newScroll
            }),
            final(self).appState == old(self).appState,
            final(self).tabState == old(self).tabState,
            final(self).lastTab == old(self).lastTab,
            final(self).allFiles == old(self).allFiles,
            final(self).renderMode == old(self).renderMode,
            final(self).exit == old(self).exit,
            final(self).currentCommand == old(self).currentCommand,
            final(self).preferredCommandKeybind == old(self).preferredCommandKeybind,
            final(self).colorMode == old(self).colorMode,
            final(self).menuState == old(self).menuState,
            final(self).currentMenuSettingBox == old(self).currentMenuSettingBox,
            final(self).suggested == old(self).suggested,
            final(self).fileBrowser.fileTree == old(self).fileBrowser.fileTree,
            final(self).fileBrowser.fileTab == old(self).fileBrowser.fileTab,
            final(self).fileBrowser.fileCursor == old(self).fileBrowser.fileCursor,
            final(self).fileBrowser.fileOptions == old(self).fileBrowser.fileOptions,
            final(self).codeTabs.tabFileNames == old(self).codeTabs.tabFileNames,
            final(self).codeTabs.currentTab == old(self).codeTabs.currentTab,
            final(self).codeTabs.panes == old(self).codeTabs.panes,
            final(self).codeTabs.tabs@.len() == old(self).codeTabs.tabs@.len(),
            forall|i: int|
                0 <= i < old(self).codeTabs.tabs@.len() && i != old(self).lastTab
                    ==> #[trigger] final(self).codeTabs.tabs@[i] == old(self).codeTabs.tabs@[i],
            same_but_scopes(old(self).tab(), final(self).tab()),
    {
        let mut fileStringText: Vec<Span> = Vec::new();
        let mut scopes: Vec<usize> = Vec::new();
        let mut newScroll = self.fileBrowser.outlineCursor;
        let mut scrolled: usize = 0;
        let half = ((height - 8) / 2) as usize;
        let scrollTo = if self.fileBrowser.outlineCursor > half {
            self.fileBrowser.outlineCursor - half
        } else {
            0
        };
        let ghost app0 = *self;
        let ghost jv = jumps_view(app0.tab().scopeJumps@);
        let lt = self.lastTab;
        let count = self.codeTabs.tabs[lt].scopeJumps.len();
        let mut k: usize = 0;
        proof {
            assert(jv.subrange(0, jv.len() as int) =~= jv);
            assert(scopes@ =~= Seq::<usize>::empty());
            assert(fileStringText@.map_values(|s: Span| s@) =~= Seq::<Seq<ColoredView>>::empty());
        }
        while k < count
            invariant
                k <= count,
                lt == app0.lastTab,
                count == app0.tab().scopeJumps@.len(),
                count < usize::MAX,
                jv == jumps_view(app0.tab().scopeJumps@),
                self.outline_ok(),
                same_but_tab_scopes(app0, *self),
                scrolled <= k,
                !(app0.appState == AppState::Tabs && app0.tabState == TabState::Code) ==> newScroll
                    == app0.fileBrowser.outlineCursor,
                app0.outline_fold(
                    OutlineState {
                        scopes: Seq::empty(),
                        scrolled: 0,
                        newScroll: app0.fileBrowser.outlineCursor as int,
                        root: app0.tab().scopes,
                        lines: Seq::empty(),
                    },
                    jv,
                    scrollTo as int,
                ) == app0.outline_fold(
                    OutlineState {
                        scopes: scopes@,
                        scrolled: scrolled as int,
                        newScroll: newScroll as int,
                        root: self.tab().scopes,
                        lines: fileStringText@.map_values(|s: Span| s@),
                    },
                    jv.subrange(k as int, jv.len() as int),
                    scrollTo as int,
                ),
            decreases count - k,
        {
            let path = copy_path(&self.codeTabs.tabs[lt].scopeJumps[k]);
            let ghost rest = jv.subrange(k as int, jv.len() as int);
            let ghost st = OutlineState {
                scopes: scopes@,
                scrolled: scrolled as int,
                newScroll: newScroll as int,
                root: self.tab().scopes,
                lines: fileStringText@.map_values(|s: Span| s@),
            };
            let ghost before = *self;
            proof {
                assert(rest[0] == path@);
                assert(rest.drop_first() =~= jv.subrange(k + 1, jv.len() as int));
                assert(before.outline_step(st, path@, scrollTo as int) == app0.outline_step(
                    st,
                    path@,
                    scrollTo as int,
                ));
            }
            self.RenderInnerFilebrowserRender(
                &mut scopes,
                &path,
                &mut scrolled,
                scrollTo,
                &mut newScroll,
                &mut fileStringText,
            );
            proof {
                assert forall|i: int|
                    0 <= i < app0.codeTabs.tabs@.len() && i != app0.lastTab implies #[trigger] app0.codeTabs.tabs@[i]
                    == self.codeTabs.tabs@[i] by {
                    assert(before.codeTabs.tabs@[i] == self.codeTabs.tabs@[i]);
                }
            }
            k = k + 1;
        }
        proof {
            assert(jv.subrange(count as int, jv.len() as int) =~= Seq::<Seq<usize>>::empty());
        }
        self.fileBrowser.outlineCursor = newScroll;
        fileStringText
    }

    /// Closes the file options menu on a click outside it.
    pub fn HandleFileOptionsPressed(&mut self, event: &MouseEvent)
        ensures
            final(self).fileBrowser.fileOptions.selectedOptionsTab == if event.position.0 > 15 || event.position.1
                <= 1 || event.position.1 > 30 {
                OptionTabs::Null
            } else {
                old(self).fileBrowser.fileOptions.selectedOptionsTab
            },
            final(self).fileBrowser.fileTree == old(self).fileBrowser.fileTree,
            final(self).fileBrowser.fileTab == old(self).fileBrowser.fileTab,
            final(self).fileBrowser.fileCursor == old(self).fileBrowser.fileCursor,
            final(self).fileBrowser.outlineCursor == old(self).fileBrowser.outlineCursor,
            final(self).appState == old(self).appState,
            final(self).tabState == old(self).tabState,
            final(self).allFiles == old(self).allFiles,
    {
        if event.position.0 > 15 || event.position.1 <= 1 || event.position.1 > 30 {
            self.fileBrowser.fileOptions.selectedOptionsTab = OptionTabs::Null;
        }
    }

    /// Closes the file options menu on escape.
    pub fn HandleOptionsKeycodes(&mut self, events: &KeyParser)
        ensures
            final(self).fileBrowser.fileOptions.selectedOptionsTab == if events.keyEvents@.contains(KeyCode::Escape) {
                OptionTabs::Null
            } else {
                old(self).fileBrowser.fileOptions.selectedOptionsTab
            },
            final(self).fileBrowser.fileTree == old(self).fileBrowser.fileTree,
            final(self).fileBrowser.fileCursor == old(self).fileBrowser.fileCursor,
            final(self).fileBrowser.outlineCursor == old(self).fileBrowser.outlineCursor,
            final(self).allFiles == old(self).allFiles,
    {
        if events.ContainsKeyCode(KeyCode::Escape) {
            self.fileBrowser.fileOptions.selectedOptionsTab = OptionTabs::Null;
        }
    }

    /// A click on the file options bar: with the files menu open, a click outside closes it;
    /// otherwise a click on the bar's `Files` label (columns 1 to 8 of row 1) opens it and a
    /// click elsewhere on the bar closes it.
    pub fn HandlePressedOptions(&mut self, _events: &KeyParser, event: &MouseEvent)
        ensures
            final(self).fileBrowser.fileOptions.selectedOptionsTab == if old(self).fileBrowser.fileOptions.selectedOptionsTab
                == OptionTabs::Files {
                if event.position.0 > 15 || event.position.1 <= 1 || event.position.1 > 30 {
                    OptionTabs::Null
                } else {
                    OptionTabs::Files
                }
            } else if event.position.1 == 1 {
                if 1 <= event.position.0 < 9 {
                    OptionTabs::Files
                } else {
                    OptionTabs::Null
                }
            } else {
                old(self).fileBrowser.fileOptions.selectedOptionsTab
            },
            final(self).fileBrowser.fileTree == old(self).fileBrowser.fileTree,
            final(self).fileBrowser.fileCursor == old(self).fileBrowser.fileCursor,
            final(self).fileBrowser.outlineCursor == old(self).fileBrowser.outlineCursor,
            final(self).allFiles == old(self).allFiles,
    {
        if self.fileBrowser.fileOptions.selectedOptionsTab == OptionTabs::Files {
            self.HandleFileOptionsPressed(event);
            return;
        }
        if event.position.1 == 1 {
            if event.position.0 >= 1 && event.position.0 < 9 {
                self.fileBrowser.fileOptions.selectedOptionsTab = OptionTabs::Files;
            } else {
                self.fileBrowser.fileOptions.selectedOptionsTab = OptionTabs::Null;
            }
        }
    }

    /// Flattens the file tree again (after a directory was opened or closed).
    pub fn RecalcAllFiles(&mut self)
        requires
            tree_wf(old(self).fileBrowser.fileTree),
            height(old(self).fileBrowser.fileTree) <= usize::MAX,
        ensures
            infos_view(final(self).allFiles@) == collect(old(self).fileBrowser.fileTree, 0),
            final(self).fileBrowser == old(self).fileBrowser,
            final(self).appState == old(self).appState,
            final(self).tabState == old(self).tabState,
            final(self).lastTab == old(self).lastTab,
            final(self).codeTabs == old(self).codeTabs,
            final(self).renderMode == old(self).renderMode,
            final(self).exit == old(self).exit,
            final(self).currentCommand == old(self).currentCommand,
            final(self).preferredCommandKeybind == old(self).preferredCommandKeybind,
            final(self).colorMode == old(self).colorMode,
            final(self).menuState == old(self).menuState,
            final(self).currentMenuSettingBox == old(self).currentMenuSettingBox,
            final(self).suggested == old(self).suggested,
            final(self).debugInfo == old(self).debugInfo,
    {
        self.allFiles = self.fileBrowser.fileTree.CollectAllItems(0);
    }

    /// A file-browser entry (see `entry_text` and `entry_colors`).
    pub fn RenderFile(mode: ColorMode, onCursor: bool, itemsInfo: &FileInfo) -> (line: Span)
        ensures
            line@ == seq![
                with_colors(
                    plain(
                        entry_text(
                            itemsInfo.name@,
                            itemsInfo.fileType,
                            itemsInfo.depth as int,
                            itemsInfo.collapsed,
                        ),
                    ),
                    entry_colors(onCursor),
                    mode,
                ),
            ],
    {
        let mut text = String::new();
        let mut k: usize = 0;
        while k < itemsInfo.depth
            invariant
                k <= itemsInfo.depth,
                text@ == indent(k as int),
            decreases itemsInfo.depth - k,
        {
            crate::text::string_push(&mut text, ' ');
            crate::text::string_push(&mut text, ' ');
            proof {
                assert(text@ =~= indent(k + 1));
            }
            k = k + 1;
        }
        if itemsInfo.fileType == FileType::Directory {
            if itemsInfo.collapsed {
                crate::text::string_push(&mut text, '>');
            } else {
                crate::text::string_push(&mut text, 'v');
            }
            crate::text::string_push(&mut text, ' ');
        }
        let ghost before = text@;
        let name = crate::text::string_of_str(itemsInfo.name.as_str());
        let text = crate::text::concat(&text, &name);
        proof {
            assert(text@ =~= entry_text(
                itemsInfo.name@,
                itemsInfo.fileType,
                itemsInfo.depth as int,
                itemsInfo.collapsed,
            ));
        }
        let colors = if onCursor {
            vec![ColorType::BrightWhite, ColorType::Underline]
        } else {
            vec![ColorType::BrightWhite]
        };
        proof {
            assert(colors@ =~= entry_colors(onCursor));
        }
        let colored = text.Colorizes(colors, mode);
        let line = Span::FromTokens(vec![colored]);
        proof {
            assert(line@ =~= seq![colored@]);
        }
        line
    }
}

} // verus!
