use termedit::string_pattern_matching::{byte_comparison, levenshtein_distance, levenshtein_distance_itter};
use termedit::term_render::decimal_string;
use termedit::text::split_newlines_exec;
use termedit::tokens::{FindLanguage, GenerateTokenStrs, LanguageOf, Languages, TakesGenerics};

#[test]
fn token_strings_split_at_breaks() {
    let t = GenerateTokenStrs("let x = 5;");
    assert_eq!(t, vec!["let", " ", "x", " ", "=", " ", "5", ";", ""]);
}

#[test]
fn token_strings_join_back_to_the_line() {
    for line in ["fn main() {", "    let a: Vec<u8> = vec![1, 2];", "", "a::b::c", "x+=1"] {
        let t = GenerateTokenStrs(line);
        assert_eq!(t.concat(), line);
    }
}

#[test]
fn generics_lines() {
    assert!(TakesGenerics("fn foo<T>()"));
    assert!(TakesGenerics("impl Foo"));
    assert!(!TakesGenerics("let x = 1;"));
}

#[test]
fn languages_by_ending() {
    assert_eq!(FindLanguage("rs"), Some(Languages::Rust));
    assert_eq!(FindLanguage("py"), Some(Languages::Python));
    assert_eq!(FindLanguage("txt"), None);
    assert_eq!(LanguageOf("txt"), Languages::Null);
}

#[test]
fn levenshtein_examples() {
    let d = levenshtein_distance(&"kitten".to_string(), &"sitting".to_string());
    assert_eq!(d, 3);
    assert_eq!(levenshtein_distance(&"".to_string(), &"abc".to_string()), 3);
    assert_eq!(levenshtein_distance(&"same".to_string(), &"same".to_string()), 0);
}

#[test]
fn levenshtein_nearest_word() {
    let words = vec!["struct".to_string(), "string".to_string(), "strong".to_string()];
    assert_eq!(levenshtein_distance_itter(&"strin".to_string(), &words), 1);
    assert_eq!(levenshtein_distance_itter(&"abc".to_string(), &vec![]), usize::MAX);
}

#[test]
fn byte_comparison_examples() {
    assert_eq!(byte_comparison(&"abc".to_string(), &"abd".to_string()), 1);
    assert_eq!(byte_comparison(&"abcd".to_string(), &"ab".to_string()), 4);
    assert_eq!(byte_comparison(&"ab".to_string(), &"abcd".to_string()), 0);
}

#[test]
fn decimal_strings() {
    assert_eq!(decimal_string(0), "0");
    assert_eq!(decimal_string(907), "907");
    assert_eq!(decimal_string(u64::MAX), u64::MAX.to_string());
}

#[test]
fn split_into_lines() {
    let lines = split_newlines_exec(&"a\nbc\n".to_string());
    assert_eq!(lines, vec!["a".to_string(), "bc".to_string(), "".to_string()]);
}
