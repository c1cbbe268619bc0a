use termedit::code_tabs::CodeTab;
use termedit::colors::ColorTypes;
use termedit::event_handler::KeyModifiers;
use termedit::file_manager::FileBrowser;
use termedit::main_app::{AppState, MainApp, MenuState, TabState};
use termedit::tabs::CodeTabs;
use termedit::term_app::{App, DrawJobs, SortJobs};
use termedit::term_render::{ColorMode, Colored, Span, Window};

fn words(ws: &[&str]) -> Vec<String> {
    ws.iter().map(|w| w.to_string()).collect()
}

fn screen() -> App {
    let mut app = App::new();
    app.AddWindow(Window::new((0, 0), 0, (10, 2)), "A".to_string(), words(&["Project"]));
    app.AddWindow(Window::new((0, 2), 0, (10, 2)), "B".to_string(), words(&["Menu", "Settings"]));
    app.AddWindow(Window::new((0, 4), 0, (10, 2)), "C".to_string(), words(&["Menu"]));
    app
}

fn editor() -> MainApp {
    let tabs = CodeTabs { tabFileNames: vec![], tabs: vec![], currentTab: 0, panes: vec![] };
    MainApp::new(tabs, FileBrowser::new())
}

fn line_texts(w: &Window) -> Vec<String> {
    w.lines.iter().map(|(span, _, _)| span.line.iter().map(|c| c.text.clone()).collect::<String>()).collect()
}

#[test]
fn windows_are_found_by_name() {
    let app = screen();
    assert!(app.ContainsWindow("B".to_string()));
    assert!(!app.ContainsWindow("D".to_string()));
    assert_eq!(app.GetWindowReference("C".to_string()).position, (0, 4));
    let names: Vec<String> = app.GetWindowNames().into_iter().cloned().collect();
    assert_eq!(names, words(&["A", "B", "C"]));
}

#[test]
fn removing_a_window_keeps_the_others_in_order() {
    let mut app = screen();
    let w = app.RemoveWindow("B".to_string()).unwrap();
    assert_eq!(w.position, (0, 2));
    assert_eq!(app.names, words(&["A", "C"]));
    assert!(app.changeWindowLayout);
    assert!(app.resetWindows);
    assert_eq!(app.GetWindowReference("C".to_string()).position, (0, 4));
}

#[test]
fn removing_a_missing_window_names_it() {
    let mut app = screen();
    match app.RemoveWindow("Q".to_string()) {
        Err(e) => assert_eq!(e, "No window named 'Q' found"),
        Ok(_) => panic!("removed a window that is not there"),
    }
    assert_eq!(app.names.len(), 3);
}

#[test]
fn pruning_by_keyword_removes_every_match() {
    let mut app = screen();
    app.changeWindowLayout = false;
    app.resetWindows = false;
    assert_eq!(app.PruneByKeywords(words(&["Menu"])), 2);
    assert_eq!(app.names, words(&["A"]));
    assert!(app.changeWindowLayout && app.resetWindows && app.updated);
    assert_eq!(app.PruneByKeywords(words(&["Menu"])), 0);
}

#[test]
fn pruning_nothing_leaves_the_flags() {
    let mut app = screen();
    app.changeWindowLayout = false;
    app.resetWindows = false;
    app.updated = false;
    assert_eq!(app.PruneByKeywords(words(&["Nothing"])), 0);
    assert!(!app.changeWindowLayout && !app.resetWindows && !app.updated);
    assert_eq!(app.names.len(), 3);
}

#[test]
fn pruning_by_a_key_asks_it_for_every_window() {
    let mut app = screen();
    let count = app.PruneByKey(|kws: &Vec<String>| kws.contains(&"Menu".to_string()) && !kws.contains(&"Settings".to_string()));
    assert_eq!(count, 1);
    assert_eq!(app.names, words(&["A", "B"]));
}

#[test]
fn windows_with_keywords_come_in_window_order() {
    let app = screen();
    assert_eq!(app.GetWindowsByKeywordsNonRef(words(&["Menu", "Project"])), words(&["A", "B", "C"]));
    assert_eq!(app.GetWindowsByKeywordsNonRef(words(&["Settings"])), words(&["B"]));
    let byKey: Vec<String> = app.GetWindowsByKey(|kws: &Vec<String>| kws.len() == 1).into_iter().cloned().collect();
    assert_eq!(byKey, words(&["A", "C"]));
    assert!(app.WindowContainsKeyword(&"B".to_string(), &"Settings".to_string()));
    assert!(!app.WindowContainsKeyword(&"C".to_string(), &"Settings".to_string()));
}

#[test]
fn rows_are_drawn_by_row_then_column_then_layer() {
    let jobs = vec![
        ("c".to_string(), 5, 1, 0),
        ("a".to_string(), 1, 0, 0),
        ("top".to_string(), 1, 0, 1),
        ("b".to_string(), 3, 0, 0),
        ("a2".to_string(), 1, 0, 0),
    ];
    let sorted: Vec<String> = SortJobs(&jobs, (10, 5)).into_iter().map(|j| j.0).collect();
    assert_eq!(sorted, words(&["a", "a2", "b", "c", "top"]));
}

#[test]
fn a_frame_moves_the_cursor_before_each_row() {
    let jobs = vec![("abc".to_string(), 3, 2, 0), ("x".to_string(), 1, 4, 0)];
    assert_eq!(DrawJobs(&jobs, (80, 24)), "\x1b[2;3Habc\x1b[4;1Hx\x1b[24;80H ");
}

#[test]
fn a_render_draws_the_stale_rows_once() {
    let mut app = App::new();
    let mut w = Window::new((0, 0), 0, (3, 1));
    w.TryUpdateLines(vec![Span::FromTokens(vec![Colored::new("hi".to_string())])]);
    app.AddWindow(w, "W".to_string(), vec![]);
    assert!(app.CanRender());
    let first = app.Render((3, 1));
    assert!(first.clear);
    assert_eq!(first.calls, 1);
    assert!(first.text.starts_with("\x1b[0;0H"));
    assert!(first.text.ends_with("\x1b[1;3H "));
    let second = app.Render((3, 1));
    assert!(!second.clear);
    assert_eq!(second.calls, 0);
    assert_eq!(second.text, "");
    let resized = app.Render((4, 1));
    assert!(resized.clear);
    assert_eq!(resized.calls, 1);
}

#[test]
fn the_command_line_sits_on_the_bottom_row() {
    let mut app = App::new();
    let mut e = editor();
    e.CheckWindows(&mut app, (80, 24));
    let w = app.GetWindowReference("CommandLine".to_string());
    assert_eq!(w.position, (0, 23));
    assert_eq!(w.size, (80, 1));
    e.CheckWindows(&mut app, (100, 30));
    assert_eq!(app.names.len(), 1);
    let w = app.GetWindowReference("CommandLine".to_string());
    assert_eq!(w.position, (0, 29));
    assert_eq!(w.size, (100, 1));
}

#[test]
fn the_welcome_box_is_centered() {
    let mut app = App::new();
    let mut e = editor();
    e.menuState = MenuState::Welcome;
    e.CheckWindowsMenu(&mut app, (100, 40));
    let w = app.GetWindowReference("Welcome".to_string());
    assert_eq!(w.position, (15, 10));
    assert_eq!(w.size, (71, 15));
    assert!(w.bordered);
}

#[test]
fn opening_the_settings_prunes_the_welcome_box() {
    let mut app = App::new();
    let mut e = editor();
    e.menuState = MenuState::Welcome;
    e.CheckWindowsMenu(&mut app, (100, 40));
    e.menuState = MenuState::Settings;
    e.CheckWindowsMenu(&mut app, (100, 40));
    assert!(!app.ContainsWindow("Welcome".to_string()));
    assert_eq!(app.GetWindowReference("ColorSetting".to_string()).position, (10, 2));
    assert_eq!(app.GetWindowReference("KeybindSetting".to_string()).size, (80, 4));
}

#[test]
fn the_settings_show_the_choices() {
    let mut app = App::new();
    let mut e = editor();
    e.menuState = MenuState::Settings;
    e.colorMode.colorType = ColorTypes::Partial;
    e.preferredCommandKeybind = KeyModifiers::Control;
    e.currentMenuSettingBox = 1;
    e.renderMode = ColorMode::Dark;
    e.CheckWindowsMenu(&mut app, (100, 40));
    e.RenderSettings(&mut app);
    let colors = line_texts(app.GetWindowReference("ColorSetting".to_string()));
    assert_eq!(colors[0], "Color Mode: [Basic] [8-bit] [24-bit]");
    let keys = app.GetWindowReference("KeybindSetting".to_string());
    assert_eq!(line_texts(keys)[0], "Preferred Modifier Key: [Command] [Control]");
    let chosen = &keys.lines[0].0.line[4];
    assert_eq!(chosen.text, "Control");
    assert_ne!(chosen.mods, keys.lines[0].0.line[1].mods);
    assert!(!keys.color.IsUncolored());
    assert!(app.GetWindowReference("ColorSetting".to_string()).color.IsUncolored());
}

#[test]
fn the_welcome_text_is_written_once() {
    let mut app = App::new();
    let mut e = editor();
    e.menuState = MenuState::Welcome;
    e.CheckWindowsMenu(&mut app, (100, 40));
    e.RenderMenu(&mut app);
    let lines = line_texts(app.GetWindowReference("Welcome".to_string()));
    assert_eq!(lines.len(), 12);
    assert_eq!(lines[6], "              The command prompt is bellow (Bottom Left):");
    assert_eq!(lines[8], "                Press: <q> followed by <return> to quit");
}

#[test]
fn the_project_layout_places_its_panels() {
    let mut app = App::new();
    let mut e = editor();
    let tab = CodeTab::from_lines("main.rs".to_string(), "main.rs".to_string(), vec![String::new()]);
    e.codeTabs = CodeTabs { tabFileNames: vec!["main.rs".to_string()], tabs: vec![tab], currentTab: 0, panes: vec![] };
    e.appState = AppState::CommandPrompt;
    e.tabState = TabState::Tabs;
    e.CheckWindowsProject(&mut app, (120, 40));
    assert_eq!(app.GetWindowReference("Tabs".to_string()).position, (30, 0));
    assert_eq!(app.GetWindowReference("ErrorBar".to_string()).position, (0, 31));
    assert_eq!(app.GetWindowReference("Files".to_string()).size, (30, 31));
    let code = app.GetWindowReference("CodeBlockmain.rs".to_string());
    assert_eq!(code.position, (30, 2));
    assert_eq!(code.size, (91, 29));
    assert!(!app.GetWindowReference("Files".to_string()).hidden);
    assert!(app.WindowContainsKeyword(&"CodeBlockmain.rs".to_string(), &"main.rs".to_string()));
    e.CheckWindowsProject(&mut app, (120, 40));
    assert_eq!(app.names.len(), 4);
}

#[test]
fn the_tab_bar_lists_the_tabs() {
    let mut app = App::new();
    let mut e = editor();
    let tab = CodeTab::from_lines("a.rs".to_string(), "a.rs".to_string(), vec![String::new()]);
    e.codeTabs = CodeTabs { tabFileNames: vec!["a.rs".to_string()], tabs: vec![tab], currentTab: 0, panes: vec![] };
    e.CheckWindowsProject(&mut app, (120, 40));
    e.RenderFileBlock(&mut app);
    assert_eq!(line_texts(app.GetWindowReference("Tabs".to_string()))[0], " (1) a.rs |");
}

#[test]
fn the_error_bar_shows_the_offer_and_the_debug_line() {
    let mut app = App::new();
    let mut e = editor();
    let tab = CodeTab::from_lines("main.rs".to_string(), "main.rs".to_string(), vec![String::new()]);
    e.codeTabs = CodeTabs { tabFileNames: vec!["main.rs".to_string()], tabs: vec![tab], currentTab: 0, panes: vec![] };
    e.appState = AppState::CommandPrompt;
    e.tabState = TabState::Tabs;
    e.CheckWindowsProject(&mut app, (120, 40));
    e.debugInfo = "12ms".to_string();
    e.RenderErrorBar(&mut app);
    let lines = line_texts(app.GetWindowReference("ErrorBar".to_string()));
    assert_eq!(lines[0], ": ");
    assert_eq!(lines[1], "Debug: 12ms");
}
