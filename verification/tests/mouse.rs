use termedit::code_tabs::CodeTab;
use termedit::event_handler::{KeyModifiers, KeyParser, MouseEvent, MouseEventType, MouseState};
use termedit::file_manager::{FileBrowser, FilePathNode, FileTabs, FileType};
use termedit::main_app::{AppState, MainApp, TabState};
use termedit::tabs::CodeTabs;
use termedit::token_info::ScopeNode;

fn editor(lines: &[&str]) -> MainApp {
    let tab = CodeTab::from_lines("a.rs".to_string(), "a.rs".to_string(), lines.iter().map(|l| l.to_string()).collect());
    let tabs = CodeTabs { tabFileNames: vec!["a.rs".to_string()], tabs: vec![tab], currentTab: 0, panes: vec![] };
    let mut a = MainApp::new(tabs, FileBrowser::new());
    a.appState = AppState::Tabs;
    a
}

fn press(x: u16, y: u16, state: MouseState) -> MouseEvent {
    MouseEvent { eventType: MouseEventType::Left, position: (x, y), state }
}

#[test]
fn pane_columns_spread_the_remainder() {
    let mut t = CodeTabs { tabFileNames: vec![], tabs: vec![], currentTab: 0, panes: vec![] };
    assert_eq!(t.GetRelativeTabPosition(50, 100, 33), 17);
    t.panes = vec![1];
    assert_eq!(t.GetRelativeTabPosition(73, 101, 33), 5);
    assert_eq!(t.GetRelativeTabPosition(73, 102, 33), 4);
    assert_eq!(t.GetRelativeTabPosition(10, 102, 33), 0);
}

#[test]
fn a_press_places_the_cursor() {
    let mut a = editor(&["hello", "world", "!"]);
    a.tabState = TabState::Files;
    a.PressedCode(&KeyParser::new(), &press(7, 4, MouseState::Press), 0, 80, 42);
    let t = &a.codeTabs.tabs[0];
    assert_eq!(t.cursor, (1, 2));
    assert_eq!(t.pauseScroll, 42);
    assert!(!t.highlighting);
    assert_eq!(a.appState, AppState::Tabs);
    assert_eq!(a.tabState, TabState::Code);
}

#[test]
fn a_press_past_the_text_stays_in_it() {
    let mut a = editor(&["hello", "world", "!"]);
    a.PressedCode(&KeyParser::new(), &press(70, 30, MouseState::Press), 0, 80, 0);
    assert_eq!(a.codeTabs.tabs[0].cursor, (2, 1));
}

#[test]
fn a_shift_press_starts_a_selection() {
    let mut a = editor(&["hello", "world", "!"]);
    let mut keys = KeyParser::new();
    keys.mouseModifiers.push(KeyModifiers::Shift);
    a.PressedCode(&keys, &press(7, 4, MouseState::Press), 0, 80, 0);
    let t = &a.codeTabs.tabs[0];
    assert!(t.highlighting);
    assert_eq!(t.cursorEnd, (0, 0));
}

#[test]
fn a_drag_selects_from_the_old_cursor() {
    let mut a = editor(&["hello", "world", "!"]);
    a.PressedCode(&KeyParser::new(), &press(7, 4, MouseState::Press), 0, 80, 0);
    a.HighlightLeftClick(&KeyParser::new(), &press(9, 3, MouseState::Hold), 0, 80);
    let t = &a.codeTabs.tabs[0];
    assert_eq!(t.cursor, (0, 4));
    assert!(t.highlighting);
    assert_eq!(t.cursorEnd, (1, 2));
}

#[test]
fn the_tab_bar_picks_the_label_under_the_mouse() {
    let mut a = editor(&["x"]);
    let other = CodeTab::from_lines("b.rs".to_string(), "b.rs".to_string(), vec!["y".to_string()]);
    a.codeTabs.tabs.push(other);
    a.codeTabs.tabFileNames.push("b.rs".to_string());
    a.PressedNewCodeTab(&KeyParser::new(), &press(45, 1, MouseState::Press));
    assert_eq!(a.codeTabs.currentTab, 1);
    assert_eq!(a.lastTab, 1);
    a.PressedNewCodeTab(&KeyParser::new(), &press(60, 1, MouseState::Press));
    assert_eq!(a.codeTabs.currentTab, 1);
    let mut keys = KeyParser::new();
    keys.mouseModifiers.push(KeyModifiers::Shift);
    a.PressedNewCodeTab(&keys, &press(35, 1, MouseState::Press));
    assert_eq!(a.codeTabs.panes, vec![0]);
    assert_eq!(a.codeTabs.currentTab, 1);
}

#[test]
fn the_outline_jumps_to_a_scope() {
    let mut a = editor(&["fn a() {", "}", "fn b() {", "}"]);
    let tab = &mut a.codeTabs.tabs[0];
    tab.scopes = ScopeNode {
        children: vec![ScopeNode { children: vec![], name: "b".to_string(), start: 2, end: 3 }],
        name: "root".to_string(),
        start: 0,
        end: 3,
    };
    tab.linearScopes = vec![vec![], vec![0]];
    a.fileBrowser.fileTab = FileTabs::Outline;
    a.PressedScopeJump(&KeyParser::new(), &press(5, 4, MouseState::Press), 40);
    assert_eq!(a.fileBrowser.outlineCursor, 1);
    assert_eq!(a.codeTabs.tabs[0].cursor.0, 2);
}

#[test]
fn the_file_list_opens_directories_and_files() {
    let mut a = editor(&["x"]);
    a.appState = AppState::CommandPrompt;
    let mut root = FileBrowser::new().fileTree;
    let mut lib = FilePathNode::NewDirectoryNode("lib");
    lib.AddFile("x.rs".to_string());
    root.AddDirectory(lib, "lib".to_string());
    root.AddFile("main.rs".to_string());
    a.fileBrowser.fileTree = root;
    a.RecalcAllFiles();
    assert_eq!(a.allFiles.len(), 2);
    assert_eq!(a.HandleFilesMousePress(0), None);
    let names: Vec<String> = a.allFiles.iter().map(|f| f.name.clone()).collect();
    assert_eq!(names, vec!["lib", "x.rs", "main.rs"]);
    let load = a.HandleFilesMousePress(2).unwrap();
    assert_eq!(load.0, "main.rs");
    assert_eq!(a.codeTabs.currentTab, 1);
    assert_eq!(a.allFiles[0].fileType, FileType::Directory);
}

#[test]
fn a_press_on_the_file_list_asks_for_the_file() {
    let mut a = editor(&["x"]);
    a.appState = AppState::CommandPrompt;
    let mut root = FileBrowser::new().fileTree;
    root.AddFile("main.rs".to_string());
    a.fileBrowser.fileTree = root;
    a.RecalcAllFiles();
    let load = a.HandleLeftClick(&KeyParser::new(), &press(5, 2, MouseState::Press), 120, 40, 0);
    assert_eq!(load.map(|l| l.0), Some("main.rs".to_string()));
    let none = a.HandleLeftClick(&KeyParser::new(), &press(5, 9, MouseState::Press), 120, 40, 0);
    assert_eq!(none, None);
}

#[test]
fn a_drag_on_the_prompt_panels_does_nothing() {
    let mut a = editor(&["hello"]);
    a.appState = AppState::CommandPrompt;
    a.HandleLeftClick(&KeyParser::new(), &press(10, 3, MouseState::Hold), 120, 40, 0);
    assert_eq!(a.codeTabs.tabs[0].cursor, (0, 0));
    assert_eq!(a.appState, AppState::CommandPrompt);
}
