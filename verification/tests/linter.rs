use termedit::linters::{GenerateScopes, LanguageLinterInterface};
use termedit::rust_defs::{HandleDefinitions, Rust};
use termedit::token_info::{LineTokenFlags, LuaTuple, OutlineKeyword, OutlineType, TokenType};

fn tok(t: TokenType, s: &str) -> LuaTuple {
    LuaTuple { token: t, text: s.to_string() }
}

fn plain(n: usize) -> Vec<Vec<LineTokenFlags>> {
    (0..n).map(|_| vec![]).collect()
}

fn find<'a>(outline: &'a [OutlineKeyword], name: &str) -> &'a OutlineKeyword {
    outline.iter().find(|k| k.keyword == name).expect("keyword in the outline")
}

#[test]
fn a_public_struct_is_read_with_its_name() {
    let line = vec![
        tok(TokenType::Keyword, "pub"),
        tok(TokenType::Null, " "),
        tok(TokenType::Keyword, "struct"),
        tok(TokenType::Null, " "),
        tok(TokenType::Object, "Point"),
    ];
    let flags = vec![plain(line.len())];
    let mut outline = vec![];
    HandleDefinitions(&line, &flags, &mut outline, "pub struct Point", 0);
    assert_eq!(outline.len(), 1);
    assert_eq!(outline[0].keyword, "Point");
    assert_eq!(outline[0].kwType, OutlineType::Struct);
    assert_eq!(outline[0].public, Some(true));
    assert_eq!(outline[0].lineNumber, 0);
}

#[test]
fn a_typed_binding_gets_its_type() {
    let line = vec![
        tok(TokenType::Keyword, "let"),
        tok(TokenType::Null, " "),
        tok(TokenType::Keyword, "mut"),
        tok(TokenType::Null, " "),
        tok(TokenType::Variable, "count"),
        tok(TokenType::Null, ":"),
        tok(TokenType::Null, " "),
        tok(TokenType::Primitive, "usize"),
        tok(TokenType::Null, " "),
        tok(TokenType::Assignment, "="),
        tok(TokenType::Null, " "),
        tok(TokenType::Number, "0"),
    ];
    let flags = vec![plain(line.len())];
    let mut outline = vec![];
    HandleDefinitions(&line, &flags, &mut outline, "let mut count: usize = 0", 0);
    assert_eq!(outline.len(), 1);
    assert_eq!(outline[0].keyword, "count");
    assert_eq!(outline[0].kwType, OutlineType::Variable);
    assert!(outline[0].mutable);
    assert_eq!(outline[0].typedType, Some("usize".to_string()));
    assert_eq!(outline[0].public, None);
}

#[test]
fn a_function_collects_its_parameters() {
    let line = vec![
        tok(TokenType::Keyword, "fn"),
        tok(TokenType::Null, " "),
        tok(TokenType::Function, "area"),
        tok(TokenType::Parentheses, "("),
        tok(TokenType::Variable, "w"),
        tok(TokenType::Null, ":"),
        tok(TokenType::Null, " "),
        tok(TokenType::Primitive, "u32"),
        tok(TokenType::Null, ","),
        tok(TokenType::Parentheses, ")"),
    ];
    let mut lineFlags = plain(line.len());
    for i in 4..8 {
        lineFlags[i].push(LineTokenFlags::Parameter);
    }
    let flags = vec![lineFlags];
    let mut outline = vec![];
    HandleDefinitions(&line, &flags, &mut outline, "fn area(w: u32,)", 0);
    assert_eq!(outline[0].keyword, "area");
    assert_eq!(outline[0].kwType, OutlineType::Function);
    assert_eq!(outline[0].public, Some(false));
    assert_eq!(outline[0].parameters, Some(vec![("w".to_string(), Some("u32".to_string()))]));
}

#[test]
fn an_underscore_binding_is_dropped() {
    let line = vec![tok(TokenType::Keyword, "let"), tok(TokenType::Null, " "), tok(TokenType::Variable, "_unused")];
    let flags = vec![plain(line.len())];
    let mut outline = vec![];
    HandleDefinitions(&line, &flags, &mut outline, "let _unused", 0);
    assert!(outline.is_empty());
}

#[test]
fn rereading_a_line_replaces_its_keywords() {
    let line = vec![tok(TokenType::Keyword, "enum"), tok(TokenType::Null, " "), tok(TokenType::Object, "Kind")];
    let flags = vec![plain(line.len())];
    let mut outline = vec![];
    HandleDefinitions(&line, &flags, &mut outline, "enum Kind", 0);
    HandleDefinitions(&line, &flags, &mut outline, "enum Kind", 0);
    assert_eq!(outline.len(), 1);
    assert_eq!(outline[0].kwType, OutlineType::Enum);
}

#[test]
fn a_file_gets_its_scopes_and_members() {
    let lines = vec![
        vec![
            tok(TokenType::Keyword, "enum"),
            tok(TokenType::Null, " "),
            tok(TokenType::Object, "Dir"),
            tok(TokenType::Null, " "),
            tok(TokenType::SquirlyBracket, "{"),
        ],
        vec![tok(TokenType::Null, " "), tok(TokenType::Object, "Up"), tok(TokenType::Null, ",")],
        vec![tok(TokenType::Null, " "), tok(TokenType::Object, "Down"), tok(TokenType::Null, ",")],
        vec![tok(TokenType::SquirlyBracket, "}")],
    ];
    let flags: Vec<Vec<Vec<LineTokenFlags>>> = lines.iter().map(|l| plain(l.len())).collect();
    let mut outline = vec![];
    let (root, jumps, linear) = Rust::GenerateScopes(&lines, &flags, &mut outline);
    assert_eq!(root.name, "Root");
    assert_eq!(root.children.len(), 1);
    assert_eq!(root.children[0].name, "{ ... }");
    assert_eq!(root.children[0].start, 0);
    assert_eq!(root.children[0].end, 3);
    assert_eq!(jumps, vec![vec![0], vec![0], vec![0], vec![0]]);
    assert_eq!(linear, vec![vec![0]]);
    let dir = find(&outline, "Dir");
    assert_eq!(dir.kwType, OutlineType::Enum);
    let children: Vec<&str> = dir.childKeywords.iter().map(|k| k.keyword.as_str()).collect();
    assert_eq!(children, vec!["Up", "Down"]);
    assert_eq!(find(&outline, "Up").kwType, OutlineType::Variant);
    assert_eq!(find(&outline, "Down").scope, vec![0]);
    assert_eq!(outline.len(), 3);
}

fn dir_enum() -> Vec<Vec<LuaTuple>> {
    vec![
        vec![
            tok(TokenType::Keyword, "enum"),
            tok(TokenType::Null, " "),
            tok(TokenType::Object, "Dir"),
            tok(TokenType::Null, " "),
            tok(TokenType::SquirlyBracket, "{"),
        ],
        vec![tok(TokenType::Null, " "), tok(TokenType::Object, "Up"), tok(TokenType::Null, ",")],
        vec![tok(TokenType::SquirlyBracket, "}")],
    ]
}

#[test]
fn rust_files_are_linted_by_their_ending() {
    let lines = dir_enum();
    let flags: Vec<Vec<Vec<LineTokenFlags>>> = lines.iter().map(|l| plain(l.len())).collect();
    let mut outline = vec![];
    let (root, jumps, linear) = GenerateScopes(&lines, &flags, &mut outline, "rs");
    assert_eq!(root.children.len(), 1);
    assert_eq!(jumps, vec![vec![0], vec![0], vec![0]]);
    assert_eq!(linear, vec![vec![0]]);
    assert_eq!(find(&outline, "Dir").kwType, OutlineType::Enum);
}

#[test]
fn other_files_get_no_scopes() {
    let lines = dir_enum();
    let flags: Vec<Vec<Vec<LineTokenFlags>>> = lines.iter().map(|l| plain(l.len())).collect();
    let mut outline = vec![];
    let (root, jumps, linear) = GenerateScopes(&lines, &flags, &mut outline, "txt");
    assert!(root.children.is_empty());
    assert_eq!(root.name, "");
    assert!(jumps.is_empty() && linear.is_empty());
    assert!(outline.is_empty());
}

#[test]
fn missing_flags_count_as_none() {
    let lines = dir_enum();
    let mut outline = vec![];
    let (root, jumps, linear) = Rust::GenerateScopes(&lines, &vec![], &mut outline);
    assert_eq!(root.children.len(), 1);
    assert_eq!(jumps, vec![vec![0], vec![0], vec![0]]);
    assert_eq!(linear, vec![vec![0]]);
    assert_eq!(find(&outline, "Up").kwType, OutlineType::Variant);
}
