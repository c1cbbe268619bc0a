use termedit::code_tabs::CodeTab;
use termedit::event_handler::{KeyParser, MouseEvent, MouseEventType, MouseState};
use termedit::file_manager::{FileBrowser, FileInfo, FileType, OptionTabs};
use termedit::main_app::{AppState, MainApp, TabState};
use termedit::tabs::CodeTabs;
use termedit::term_render::{ColorMode, ColorType, Colored};
use termedit::token_info::ScopeNode;

fn node(name: &str, children: Vec<ScopeNode>) -> ScopeNode {
    ScopeNode { children, name: name.to_string(), start: 0, end: 0 }
}

fn app(jumps: Vec<Vec<usize>>, cursorLine: usize) -> MainApp {
    let lines: Vec<String> = jumps.iter().map(|_| String::new()).collect();
    let mut tab = CodeTab::from_lines("t".to_string(), "t.rs".to_string(), lines);
    tab.linearScopes = jumps.clone();
    tab.scopeJumps = jumps;
    tab.cursor = (cursorLine, 0);
    tab.scopes = node("root", vec![node("outer", vec![node("inner", vec![])])]);
    let tabs = CodeTabs { tabFileNames: vec!["t.rs".to_string()], tabs: vec![tab], currentTab: 0, panes: vec![] };
    let mut a = MainApp::new(tabs, FileBrowser::new());
    a.appState = AppState::Tabs;
    a.tabState = TabState::Code;
    a
}

#[test]
fn new_editor_starts_on_the_menu() {
    let a = MainApp::new(CodeTabs { tabFileNames: vec![], tabs: vec![], currentTab: 0, panes: vec![] }, FileBrowser::new());
    assert_eq!(a.appState, AppState::Menu);
    assert_eq!(a.tabState, TabState::Code);
    assert!(!a.exit);
    assert!(a.currentCommand.is_empty());
    assert_eq!(a.renderMode, ColorMode::Dark);
}

fn same_colored(a: &Colored, b: &Colored) -> bool {
    a.text == b.text && a.mods == b.mods && a.color == b.color && a.bgColor == b.bgColor
}

#[test]
fn outline_prefix_marks_the_cursor_scope() {
    let a = app(vec![vec![0], vec![0, 1]], 1);
    assert_eq!(a.RenderOutlinePartOne(&vec![0, 1]), ">  ");
    assert_eq!(a.RenderOutlinePartOne(&vec![0]), "");
    assert_eq!(a.RenderOutlinePartOne(&vec![0, 2, 3]), "    ");
}

#[test]
fn outline_prefix_follows_the_outline_cursor() {
    let mut a = app(vec![vec![0], vec![0, 1]], 1);
    a.appState = AppState::CommandPrompt;
    a.tabState = TabState::Files;
    a.fileBrowser.outlineCursor = 0;
    assert_eq!(a.RenderOutlinePartOne(&vec![0]), ">");
    assert_eq!(a.RenderOutlinePartOne(&vec![0, 1]), "  ");
}

#[test]
fn scope_names_are_colored_by_depth() {
    let a = app(vec![vec![]], 0);
    let expected = [
        (1, ColorType::BrightBlue),
        (2, ColorType::BrightMagenta),
        (3, ColorType::BrightRed),
        (4, ColorType::BrightYellow),
        (5, ColorType::BrightGreen),
        (9, ColorType::BrightWhite),
    ];
    for (depth, color) in expected {
        let c = a.GetColoredScope("main".to_string(), depth);
        let e = Colored::GetFromColorTypesStr("main", vec![color], ColorMode::Dark);
        assert!(same_colored(&c, &e));
    }
}

#[test]
fn outline_draws_each_scope_once() {
    let mut a = app(vec![vec![0], vec![0], vec![0, 0], vec![0], vec![]], 2);
    let lines = a.RenderFilebrowserOutline(8);
    assert_eq!(lines.len(), 2);
    assert_eq!(lines[0].line[0].text, "");
    assert_eq!(lines[0].line[1].text, "outer");
    assert_eq!(lines[1].line[0].text, ">  ");
    assert_eq!(lines[1].line[1].text, "inner");
    assert_eq!(a.fileBrowser.outlineCursor, 1);
    assert_eq!(a.codeTabs.tabs[0].scopes.name, "inner");
}

#[test]
fn scroll_count_follows_the_cursor_scope() {
    let a = app(vec![vec![0], vec![1]], 1);
    let mut newScroll = 7;
    a.HandleScrolled(3, &mut newScroll, &vec![0]);
    assert_eq!(newScroll, 7);
    a.HandleScrolled(3, &mut newScroll, &vec![1]);
    assert_eq!(newScroll, 2);
}

#[test]
fn file_entries_show_depth_and_state() {
    let dir = FileInfo {
        name: "src".to_string(),
        fileType: FileType::Directory,
        depth: 1,
        collapsed: true,
        path: "/p/src".to_string(),
    };
    let line = MainApp::RenderFile(ColorMode::Dark, false, &dir);
    assert_eq!(line.line.len(), 1);
    assert_eq!(line.line[0].text, "  > src");
    let file = FileInfo {
        name: "main.rs".to_string(),
        fileType: FileType::File,
        depth: 0,
        collapsed: false,
        path: "/p/main.rs".to_string(),
    };
    let line = MainApp::RenderFile(ColorMode::Dark, true, &file);
    let e = Colored::GetFromColorTypesStr("main.rs", vec![ColorType::BrightWhite, ColorType::Underline], ColorMode::Dark);
    assert!(same_colored(&line.line[0], &e));
}

#[test]
fn file_options_open_and_close_on_clicks() {
    let mut a = app(vec![vec![]], 0);
    let events = KeyParser::new();
    let click = |x: u16, y: u16| MouseEvent { eventType: MouseEventType::Left, position: (x, y), state: MouseState::Press };
    a.HandlePressedOptions(&events, &click(3, 1));
    assert_eq!(a.fileBrowser.fileOptions.selectedOptionsTab, OptionTabs::Files);
    a.HandlePressedOptions(&events, &click(5, 10));
    assert_eq!(a.fileBrowser.fileOptions.selectedOptionsTab, OptionTabs::Files);
    a.HandlePressedOptions(&events, &click(20, 10));
    assert_eq!(a.fileBrowser.fileOptions.selectedOptionsTab, OptionTabs::Null);
    a.HandlePressedOptions(&events, &click(12, 1));
    assert_eq!(a.fileBrowser.fileOptions.selectedOptionsTab, OptionTabs::Null);
}

#[test]
fn escape_closes_the_file_options() {
    let mut a = app(vec![vec![]], 0);
    a.fileBrowser.fileOptions.selectedOptionsTab = OptionTabs::Files;
    let mut events = KeyParser::new();
    a.HandleOptionsKeycodes(&events);
    assert_eq!(a.fileBrowser.fileOptions.selectedOptionsTab, OptionTabs::Files);
    events.keyEvents.push(termedit::event_handler::KeyCode::Escape);
    a.HandleOptionsKeycodes(&events);
    assert_eq!(a.fileBrowser.fileOptions.selectedOptionsTab, OptionTabs::Null);
}
