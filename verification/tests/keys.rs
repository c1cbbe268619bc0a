use termedit::code_tabs::CodeTab;
use termedit::colors::ColorTypes;
use termedit::event_handler::{KeyCode, KeyModifiers, KeyParser};
use termedit::file_manager::{FileBrowser, FileTabs};
use termedit::key_handling::{parse_usize, CodeKey, MenuCommand};
use termedit::main_app::{AppState, MainApp, MenuState, TabState};
use termedit::tabs::CodeTabs;

fn tab_of(lines: &[&str]) -> CodeTab {
    CodeTab::from_lines("t".to_string(), "t.rs".to_string(), lines.iter().map(|s| s.to_string()).collect())
}

fn editor(n: usize) -> MainApp {
    let tabs: Vec<CodeTab> = (0..n).map(|i| tab_of(&["a", "bb", "ccc", "dddd", "eeeee"][..(i % 5) + 1])).collect();
    let names: Vec<String> = (0..n).map(|i| format!("f{}.rs", i)).collect();
    let mut a = MainApp::new(CodeTabs { tabFileNames: names, tabs, currentTab: 0, panes: vec![] }, FileBrowser::new());
    a.appState = AppState::Tabs;
    a
}

fn keys(keys: &[KeyCode], mods: &[KeyModifiers], chars: &[char]) -> KeyParser {
    let mut p = KeyParser::new();
    p.keyEvents = keys.to_vec();
    p.keyModifiers = mods.to_vec();
    p.charEvents = chars.to_vec();
    p
}

#[test]
fn usize_parsing_follows_from_str() {
    assert_eq!(parse_usize("42"), Some(42));
    assert_eq!(parse_usize("+7"), Some(7));
    assert_eq!(parse_usize(""), None);
    assert_eq!(parse_usize("+"), None);
    assert_eq!(parse_usize("-1"), None);
    assert_eq!(parse_usize("4a"), None);
    assert_eq!(parse_usize(&usize::MAX.to_string()), Some(usize::MAX));
    assert_eq!(parse_usize("99999999999999999999999"), None);
    for s in ["0", "17", "+3", "x", "", "007"] {
        assert_eq!(parse_usize(s), s.parse::<usize>().ok());
    }
}

#[test]
fn escape_moves_between_editor_prompt_and_menu() {
    let mut a = editor(1);
    let esc = keys(&[KeyCode::Escape], &[], &[]);
    a.HandleEscape(&esc);
    assert_eq!((a.appState, a.tabState), (AppState::CommandPrompt, TabState::Files));
    a.HandleEscape(&esc);
    assert_eq!((a.appState, a.tabState), (AppState::Tabs, TabState::Code));
    a.appState = AppState::Menu;
    a.menuState = MenuState::Settings;
    a.HandleEscape(&esc);
    assert_eq!((a.appState, a.menuState), (AppState::Menu, MenuState::Welcome));
    a.HandleEscape(&keys(&[], &[], &[]));
    assert_eq!(a.appState, AppState::Menu);
}

#[test]
fn settings_rows() {
    let mut a = editor(1);
    let left = keys(&[KeyCode::Left], &[], &[]);
    let right = keys(&[KeyCode::Right], &[], &[]);
    a.HandleSettingsKeyEvents(&left);
    assert_eq!(a.colorMode.colorType, ColorTypes::Partial);
    a.HandleSettingsKeyEvents(&left);
    a.HandleSettingsKeyEvents(&left);
    assert_eq!(a.colorMode.colorType, ColorTypes::Basic);
    a.HandleSettingsKeyEvents(&right);
    assert_eq!(a.colorMode.colorType, ColorTypes::Partial);
    a.HandleSettingsKeyEvents(&keys(&[KeyCode::Down], &[], &[]));
    assert_eq!(a.currentMenuSettingBox, 1);
    a.HandleSettingsKeyEvents(&right);
    assert_eq!(a.preferredCommandKeybind, KeyModifiers::Control);
    assert_eq!(a.colorMode.colorType, ColorTypes::Partial);
    a.HandleSettingsKeyEvents(&left);
    assert_eq!(a.preferredCommandKeybind, KeyModifiers::Command);
    a.HandleSettingsKeyEvents(&keys(&[KeyCode::Up], &[], &[]));
    a.HandleSettingsKeyEvents(&keys(&[KeyCode::Up], &[], &[]));
    assert_eq!(a.currentMenuSettingBox, 0);
}

#[test]
fn prompt_commands_jump_lines_and_quit() {
    let mut a = editor(5);
    a.lastTab = 4;
    a.codeTabs.tabs[4].cursor = (1, 0);
    a.currentCommand = "]2".to_string();
    a.HandleCommands(&keys(&[KeyCode::Return], &[], &[]));
    assert_eq!(a.codeTabs.tabs[4].cursor, (3, 4));
    assert!(a.currentCommand.is_empty());
    a.currentCommand = "[9".to_string();
    a.HandleCommands(&keys(&[KeyCode::Return], &[], &[]));
    assert_eq!(a.codeTabs.tabs[4].cursor, (0, 1));
    a.currentCommand = "[x".to_string();
    a.HandleCommands(&keys(&[KeyCode::Return], &[], &[]));
    assert_eq!(a.codeTabs.tabs[4].cursor, (0, 1));
    a.currentCommand = "qq".to_string();
    a.HandleCommands(&keys(&[KeyCode::Delete], &[], &[]));
    assert_eq!(a.currentCommand, "q");
    assert!(!a.exit);
    a.HandleCommands(&keys(&[KeyCode::Return], &[], &[]));
    assert!(a.exit);
}

#[test]
fn prompt_typing_and_panels() {
    let mut a = editor(1);
    a.appState = AppState::CommandPrompt;
    a.HandleCommandPromptInput(&keys(&[KeyCode::Tab], &[], &['[', '3']));
    assert_eq!(a.currentCommand, "[3");
    assert_eq!(a.tabState, TabState::Files);
    a.HandleCommandPromptInput(&keys(&[KeyCode::Tab], &[KeyModifiers::Shift], &[]));
    assert_eq!(a.tabState, TabState::Files);
    assert_eq!(a.fileBrowser.fileTab, FileTabs::Outline);
    a.HandleCommandPromptInput(&keys(&[KeyCode::Tab], &[], &[]));
    a.HandleCommandPromptInput(&keys(&[KeyCode::Tab], &[], &[]));
    assert_eq!(a.tabState, TabState::Code);
    a.HandleCodeTabviewKeyEvents(&keys(&[KeyCode::Return], &[], &[]));
    assert_eq!(a.appState, AppState::Tabs);
}

#[test]
fn tab_bar_keys() {
    let mut a = editor(3);
    let right = keys(&[KeyCode::Right], &[], &[]);
    a.HandleTabsKeyEvents(&right);
    assert_eq!(a.codeTabs.currentTab, 1);
    a.HandleTabsKeyEvents(&keys(&[KeyCode::Right], &[KeyModifiers::Option], &[]));
    assert_eq!(a.codeTabs.currentTab, 2);
    assert_eq!(a.codeTabs.tabFileNames, vec!["f0.rs", "f2.rs", "f1.rs"]);
    a.HandleTabsKeyEvents(&right);
    assert_eq!(a.codeTabs.currentTab, 2);
    a.HandleTabsKeyEvents(&keys(&[KeyCode::Left], &[KeyModifiers::Option], &[]));
    assert_eq!(a.codeTabs.tabFileNames, vec!["f0.rs", "f1.rs", "f2.rs"]);
    assert_eq!(a.codeTabs.currentTab, 1);
    a.lastTab = 2;
    a.HandleTabsKeyEvents(&keys(&[KeyCode::Delete], &[], &[]));
    assert_eq!(a.codeTabs.tabs.len(), 2);
    assert_eq!(a.codeTabs.tabFileNames, vec!["f0.rs", "f2.rs"]);
    assert_eq!(a.codeTabs.currentTab, 0);
    assert_eq!(a.lastTab, 1);
    a.appState = AppState::CommandPrompt;
    a.tabState = TabState::Tabs;
    a.HandleTabsKeyEvents(&keys(&[KeyCode::Return], &[], &[]));
    assert_eq!((a.appState, a.tabState), (AppState::Tabs, TabState::Code));
}

#[test]
fn code_key_table() {
    let a = editor(1);
    let d = |k: &[KeyCode], m: &[KeyModifiers], c: &[char]| a.DecideCodeKeys(&keys(k, m, c));
    assert_eq!(d(&[], &[], &['x']), (true, false, CodeKey::Nothing));
    assert_eq!(d(&[KeyCode::Delete], &[], &[]).2, CodeKey::DeleteBack);
    assert_eq!(d(&[KeyCode::Delete], &[KeyModifiers::Shift], &[]).2, CodeKey::DeleteForward);
    assert_eq!(d(&[KeyCode::Delete], &[KeyModifiers::Option], &[]).2, CodeKey::DeleteTokenBack);
    assert_eq!(d(&[KeyCode::Delete], &[KeyModifiers::Command, KeyModifiers::Shift], &[]).2, CodeKey::DeleteToLineEnd);
    assert_eq!(d(&[KeyCode::Left], &[KeyModifiers::Shift], &[]), (true, true, CodeKey::Left));
    assert_eq!(d(&[KeyCode::Up], &[KeyModifiers::Option], &[]).2, CodeKey::WordUp);
    assert_eq!(d(&[KeyCode::Down], &[KeyModifiers::Command], &[]), (false, false, CodeKey::EdgeDown));
    assert_eq!(d(&[KeyCode::Tab], &[], &[]).2, CodeKey::Indent);
    assert_eq!(d(&[KeyCode::Tab], &[KeyModifiers::Shift], &[]).2, CodeKey::Unindent);
    assert_eq!(d(&[KeyCode::Return], &[], &[]).2, CodeKey::LineBreak);
    assert_eq!(d(&[], &[KeyModifiers::Command], &['s']).2, CodeKey::Save);
    assert_eq!(d(&[], &[KeyModifiers::Command], &['z']).2, CodeKey::Undo);
    assert_eq!(d(&[], &[KeyModifiers::Command, KeyModifiers::Shift], &['z']).2, CodeKey::Redo);
    assert_eq!(d(&[], &[KeyModifiers::Control], &['r']).2, CodeKey::Nothing);
    assert_eq!(d(&[], &[KeyModifiers::Control], &['a']), (false, false, CodeKey::SelectAll));
    assert_eq!(d(&[], &[KeyModifiers::Option], &['w']).2, CodeKey::ClosePane);
    assert_eq!(d(&[], &[KeyModifiers::Command], &['v']).2, CodeKey::Paste);
}

#[test]
fn completion_needs_a_suggestion() {
    let mut a = editor(1);
    let tab = keys(&[KeyCode::Tab], &[KeyModifiers::Option], &[]);
    assert_eq!(a.DecideCodeKeys(&tab).2, CodeKey::Indent);
    a.suggested = "println".to_string();
    assert_eq!(a.DecideCodeKeys(&tab).2, CodeKey::Complete);
}

#[test]
fn menu_commands() {
    let mut a = editor(1);
    a.appState = AppState::Menu;
    let refresh = a.HandleMenuInput(&keys(&[], &[], &['o', 'p', 'e', 'n', ' ', 's', 'r', 'c', '/', 'm']));
    assert_eq!(refresh, Some("src/".to_string()));
    assert_eq!(a.currentCommand, "open src/m");
    assert_eq!(a.HandleMenuCommandKeyEvents(&keys(&[KeyCode::Tab], &[], &[])), MenuCommand::Complete);
    let done = a.CompletePath(&vec!["lib.rs".to_string(), "main.rs".to_string(), "mod".to_string()]);
    assert!(done);
    assert_eq!(a.currentCommand, "open src/main.rs/");
    let request = a.HandleMenuCommandKeyEvents(&keys(&[KeyCode::Return], &[], &[]));
    assert_eq!(request, MenuCommand::Open("src/main.rs/".to_string()));
    assert!(a.currentCommand.is_empty());
    a.currentCommand = "settings".to_string();
    a.HandleMenuCommandKeyEvents(&keys(&[KeyCode::Return], &[], &[]));
    assert_eq!(a.menuState, MenuState::Settings);
    a.ProjectOpened();
    assert_eq!(a.appState, AppState::CommandPrompt);
}

#[test]
fn jumping_to_indentation_and_ends() {
    let mut t = tab_of(&["    let x = 1;", "", "fn f() {}"]);
    t.cursor = (0, 9);
    t.MoveCursorToIndent();
    assert_eq!(t.cursor, (0, 4));
    t.MoveCursorToIndent();
    assert_eq!(t.cursor, (0, 0));
    t.MoveCursorToLineEnd();
    assert_eq!(t.cursor, (0, 14));
    t.MoveCursorToBottom();
    assert_eq!(t.cursor, (2, 14));
    t.MoveCursorToTop();
    assert_eq!(t.cursor, (0, 14));
}

#[test]
fn shift_starts_a_selection() {
    let mut t = tab_of(&["abc"]);
    t.cursor = (0, 2);
    assert!(t.HandleHighlightOnCursorMove(true));
    assert!(t.highlighting);
    assert_eq!(t.cursorEnd, (0, 2));
    t.cursor = (0, 1);
    assert!(t.HandleHighlightOnCursorMove(true));
    assert_eq!(t.cursorEnd, (0, 2));
    assert!(!t.HandleHighlightOnCursorMove(false));
}

#[test]
fn brackets_are_typed_in_pairs() {
    let mut t = tab_of(&["x"]);
    t.cursor = (0, 1);
    t.TypeChar('(');
    assert_eq!(t.lines[0], "x()");
    assert_eq!(t.cursor, (0, 2));
    t.TypeChar('a');
    assert_eq!(t.lines[0], "x(a)");
    t.TypeChar('"');
    assert_eq!(t.lines[0], "x(a\"\")");
    assert_eq!(t.cursor, (0, 4));
}

#[test]
fn select_all_spans_the_text() {
    let mut t = tab_of(&["ab", "cde"]);
    t.SelectAll();
    assert_eq!(t.cursor, (1, 3));
    assert_eq!(t.cursorEnd, (0, 0));
    assert!(t.highlighting);
    assert_eq!(t.mouseScrolled, -1);
    assert_eq!(t.GetSelection(), "ab\ncde");
}

#[test]
fn delete_amounts() {
    let mut t = tab_of(&["let value = 10;"]);
    t.cursor = (0, 5);
    assert_eq!(t.DeleteAmount(CodeKey::DeleteToLineStart), (5, 0));
    assert_eq!(t.DeleteAmount(CodeKey::DeleteToLineEnd), (10, 10));
    assert_eq!(t.DeleteAmount(CodeKey::DeleteForward), (1, 1));
    assert_eq!(t.DeleteAmount(CodeKey::DeleteBack), (1, 0));
}

#[test]
fn search_finds_the_nearest_line() {
    let mut t = tab_of(&["foo", "x", "x", "foo", "x", "foo"]);
    t.cursor = (4, 0);
    t.searchTerm = "foo".to_string();
    t.FindCodeReferenceLine();
    assert_eq!(t.searchIndex, 5);
    t.cursor = (1, 0);
    t.FindCodeReferenceLine();
    assert_eq!(t.searchIndex, 0);
    t.searchTerm = "zzz".to_string();
    t.FindCodeReferenceLine();
    assert_eq!(t.searchIndex, 0);
}

#[test]
fn pasted_lines_merge_into_one_change() {
    let mut t = tab_of(&["x"]);
    t.cursor = (0, 1);
    t.InsertChars("a".to_string());
    t.LineBreakIn(true);
    t.InsertChars("b".to_string());
    assert_eq!(t.changeBuffer.len(), 3);
    let last = t.changeBuffer[2].len();
    let before = t.changeBuffer[1].len();
    t.MergeLastChange();
    assert_eq!(t.changeBuffer.len(), 2);
    assert_eq!(t.changeBuffer[1].len(), last + before);
    t.Undo();
    assert_eq!(t.lines, vec!["xa".to_string()]);
}

#[test]
fn closing_a_pane() {
    let mut a = editor(3);
    a.codeTabs.panes = vec![2, 1, 2];
    a.lastTab = 2;
    a.CloseCodePane();
    assert_eq!(a.codeTabs.panes, vec![1, 2]);
    a.lastTab = 0;
    a.CloseCodePane();
    assert_eq!(a.codeTabs.panes, vec![1, 2]);
}
