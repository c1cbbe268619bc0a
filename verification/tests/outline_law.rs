use termedit::code_tabs::CodeTab;
use termedit::edits::Edit;
use termedit::file_manager::{FileBrowser, FilePathNode};
use termedit::linters::GenerateScopesChecked;
use termedit::token_info::{LineTokenFlags, LuaTuple, TokenType};

#[test]
fn the_nth_search_result_is_the_nth_visible_item() {
    let mut browser = FileBrowser::new();
    let mut inner = FilePathNode::NewDirectoryNode("src");
    inner.AddFile("lib.rs".to_string());
    inner.AddFile("main.rs".to_string());
    browser.fileTree.AddDirectory(inner, "src".to_string());
    browser.fileTree.AddFile("Cargo.toml".to_string());
    let items = browser.fileTree.CollectAllItems(0);
    assert_eq!(items.len(), 4);
    for (i, item) in items.iter().enumerate() {
        let path = browser.GetNthElement(i).unwrap();
        assert_eq!(path.len(), item.depth + 1);
        assert_eq!(path.last().unwrap(), &item.name);
    }
    assert!(browser.GetNthElement(items.len()).is_none());
}

#[test]
fn deleting_a_selection_records_it_once() {
    let mut tab = CodeTab::from_lines("a.rs".to_string(), "a.rs".to_string(), vec!["abcd".to_string()]);
    let mut buff: Vec<Edit> = vec![];
    assert!(!tab.HandleHighlight(&mut buff));
    assert!(buff.is_empty());
    tab.cursor = (0, 3);
    tab.cursorEnd = (0, 1);
    tab.highlighting = true;
    assert!(tab.HandleHighlight(&mut buff));
    assert_eq!(buff.len(), 1);
    assert_eq!(tab.lines, vec!["ad".to_string()]);
    assert_eq!(tab.cursor, (0, 1));
}

#[test]
fn the_checked_linter_builds_scopes_or_says_it_cannot() {
    let tok = |t: TokenType, s: &str| LuaTuple { token: t, text: s.to_string() };
    let lines = vec![
        vec![tok(TokenType::Keyword, "fn"), tok(TokenType::Null, " "), tok(TokenType::Function, "go"), tok(TokenType::Null, "()"), tok(TokenType::SquirlyBracket, "{")],
        vec![tok(TokenType::SquirlyBracket, "}")],
    ];
    let flags: Vec<Vec<Vec<LineTokenFlags>>> = vec![];
    let mut outline = vec![];
    let (root, jumps, _) = GenerateScopesChecked(&lines, &flags, &mut outline, "rs").unwrap();
    assert_eq!(root.children.len(), 1);
    assert_eq!(jumps.len(), 2);
    let mut other = vec![];
    let (root, jumps, linear) = GenerateScopesChecked(&lines, &flags, &mut other, "md").unwrap();
    assert!(root.children.is_empty() && jumps.is_empty() && linear.is_empty());
}
