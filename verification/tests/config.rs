use termedit::syntax_scripts::SyntaxScripts;
use termedit::tokens::Languages;

#[test]
fn scripts_are_paired_with_their_endings() {
    let json = r#"{"scripts": ["rust.lua", "odd.lua", "py.lua", "num.lua"], "file_ending": ["rs", "zz", "py", 5]}"#;
    let got = SyntaxScripts(json);
    assert_eq!(got, vec![(Languages::Rust, "rust.lua".to_string()), (Languages::Python, "py.lua".to_string())]);
}

#[test]
fn a_missing_list_gives_no_scripts() {
    assert!(SyntaxScripts(r#"{"scripts": ["a.lua"]}"#).is_empty());
    assert!(SyntaxScripts(r#"{"scripts": "a.lua", "file_ending": ["rs"]}"#).is_empty());
    assert!(SyntaxScripts("not json").is_empty());
}

#[test]
fn extra_scripts_without_endings_are_left_out() {
    let got = SyntaxScripts(r#"{"scripts": ["a.lua", "b.lua"], "file_ending": ["lua"]}"#);
    assert_eq!(got, vec![(Languages::Lua, "a.lua".to_string())]);
}
