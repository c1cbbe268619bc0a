use termedit::file_manager::FileBrowser;
use termedit::main_app::MainApp;
use termedit::tabs::CodeTabs;
use termedit::token_info::{OutlineKeyword, OutlineType};

fn keyword(name: &str) -> OutlineKeyword {
    OutlineKeyword {
        keyword: name.to_string(),
        kwType: OutlineType::Function,
        typedType: None,
        resultType: None,
        childKeywords: vec![],
        scope: vec![],
        public: None,
        mutable: false,
        parameters: None,
        lineNumber: 0,
        implLines: vec![],
    }
}

fn editor() -> MainApp {
    MainApp::new(CodeTabs { tabFileNames: vec![], tabs: vec![], currentTab: 0, panes: vec![] }, FileBrowser::new())
}

#[test]
fn closest_name_nearest_in_length_is_offered() {
    let mut a = editor();
    a.ParseKeywordSuggestions(vec![keyword("println"), keyword("print"), keyword("foo")], "prin".to_string());
    assert_eq!(a.suggested, "print");
}

#[test]
fn exact_name_wins() {
    let mut a = editor();
    a.ParseKeywordSuggestions(vec![keyword("fob"), keyword("foo")], "foo".to_string());
    assert_eq!(a.suggested, "foo");
}

#[test]
fn distant_names_offer_nothing() {
    let mut a = editor();
    a.suggested = "old".to_string();
    a.ParseKeywordSuggestions(vec![keyword("a")], "zzz".to_string());
    assert_eq!(a.suggested, "old");
}

#[test]
fn punctuation_offers_nothing() {
    let mut a = editor();
    a.ParseKeywordSuggestions(vec![keyword("(")], "(".to_string());
    assert_eq!(a.suggested, "");
}

#[test]
fn no_tab_means_no_completion() {
    let mut a = editor();
    a.UpdateRenderErrorBar();
    assert_eq!(a.suggested, "");
}
