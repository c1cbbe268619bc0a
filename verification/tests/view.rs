use termedit::code_tabs::CodeTab;
use termedit::colors::{ColorBindings, ColorMode, ColorTypes};
use termedit::term_render::ColorType;
use termedit::tabs::CodeTabs;
use termedit::token_info::{LuaTuple, TokenType, TokenTypeNamed};

fn tab_of(n: usize) -> CodeTab {
    let lines: Vec<String> = (0..n).map(|i| format!("line {}", i)).collect();
    CodeTab::from_lines("t".to_string(), "t.rs".to_string(), lines)
}

#[test]
fn view_recenters_on_a_cursor_far_below() {
    let mut t = tab_of(100);
    t.cursor = (50, 0);
    let pauses = t.AdjustScroll(40, 1000);
    // (50 - (40 - 10) / 2) = 35
    assert_eq!(t.scrolled, 35);
    assert_eq!(pauses, 0);
}

#[test]
fn view_keeps_a_margin_above_a_selection() {
    let mut t = tab_of(100);
    t.cursor = (5, 0);
    t.scrolled = 10;
    t.highlighting = true;
    let pauses = t.AdjustScroll(40, 1000);
    assert_eq!(t.scrolled, 0);
    assert_eq!(pauses, 1);
}

#[test]
fn view_keeps_a_margin_below_the_cursor() {
    let mut t = tab_of(100);
    t.cursor = (30, 0);
    t.scrolled = 0;
    t.AdjustScroll(40, 1000);
    // (30 + 12) - (40 - 12) = 14
    assert_eq!(t.scrolled, 14);
}

#[test]
fn view_stays_put_right_after_a_mouse_scroll() {
    let mut t = tab_of(100);
    t.cursor = (50, 0);
    t.pauseScroll = 1000;
    let pauses = t.AdjustScroll(40, 1100);
    assert_eq!(t.scrolled, 0);
    assert_eq!(pauses, 0);
}

#[test]
fn view_leaves_a_visible_cursor_alone() {
    let mut t = tab_of(100);
    t.cursor = (20, 0);
    t.scrolled = 5;
    t.AdjustScroll(60, 1000);
    assert_eq!(t.scrolled, 5);
}

#[test]
fn first_visible_line_adds_mouse_scrolling() {
    let mut t = tab_of(10);
    t.scrolled = 4;
    t.mouseScrolled = -2;
    assert_eq!(t.FirstVisibleLine(), 2);
    t.mouseScrolled = -9;
    assert_eq!(t.FirstVisibleLine(), 0);
}

#[test]
fn gutter_numbers_are_relative_to_the_cursor() {
    let mut t = tab_of(100);
    t.cursor = (5, 0);
    assert_eq!(t.LineNumberText(5), "6:   ");
    assert_eq!(t.LineNumberText(8), "3:   ");
    assert_eq!(t.LineNumberText(2), "3:   ");
    assert_eq!(t.LineNumberText(99), "94:  ");
}

#[test]
fn short_files_need_no_gutter_padding() {
    let t = tab_of(5);
    assert_eq!(t.LineNumberText(0), "1: ");
    assert_eq!(t.LineNumberText(3), "3: ");
}

const COLORED: [TokenType; 24] = [
    TokenType::Bracket, TokenType::SquirlyBracket, TokenType::Parentheses, TokenType::Variable,
    TokenType::Member, TokenType::Object, TokenType::Function, TokenType::Method,
    TokenType::Number, TokenType::Logic, TokenType::Math, TokenType::Assignment,
    TokenType::Endl, TokenType::Macro, TokenType::Const, TokenType::Barrow,
    TokenType::Lifetime, TokenType::String, TokenType::Comment, TokenType::CommentLong,
    TokenType::Null, TokenType::Primitive, TokenType::Keyword, TokenType::Unsafe,
];

#[test]
fn default_bindings_color_every_token_type() {
    let b = ColorBindings::default();
    for level in [ColorTypes::Basic, ColorTypes::Partial, ColorTypes::True] {
        for t in COLORED.iter() {
            assert!(b.GetSyntaxColor(t, &level).is_some());
        }
        assert_eq!(b.GetSyntaxColor(&TokenType::Grayed, &level), None);
    }
    assert_eq!(b.errorCol, ColorType::Red);
    assert_eq!(b.highlight, ColorType::Yellow);
}

#[test]
fn default_bindings_values() {
    let b = ColorBindings::default();
    assert_eq!(b.GetSyntaxColor(&TokenType::Bracket, &ColorTypes::True), Some(ColorType::Rgb(125, 180, 255)));
    assert_eq!(b.GetSyntaxColor(&TokenType::Bracket, &ColorTypes::Basic), Some(ColorType::BrightBlue));
    assert_eq!(b.GetSyntaxColor(&TokenType::Barrow, &ColorTypes::Partial), Some(ColorType::BrightGreen));
    assert_eq!(b.GetSyntaxColor(&TokenType::Comment, &ColorTypes::True), Some(ColorType::Rgb(35, 150, 45)));
}

#[test]
fn later_bindings_win() {
    let mut b = ColorBindings::default();
    b.syntaxHighlighting.push((TokenType::Bracket, ColorTypes::True, ColorType::Red));
    assert_eq!(b.GetSyntaxColor(&TokenType::Bracket, &ColorTypes::True), Some(ColorType::Red));
}

#[test]
fn methods_are_drawn_in_italics() {
    let t = tab_of(1);
    let mode = ColorMode::default();
    let s = t.GenerateColor(&TokenType::Method, "len".to_string(), &mode);
    assert_eq!(s.text, "len");
    assert_eq!(s.styles, vec![ColorType::Rgb(125, 180, 255), ColorType::Italic]);
}

#[test]
fn marked_comments_are_underlined() {
    let t = tab_of(1);
    let mode = ColorMode { colorType: ColorTypes::Basic, colorBindings: ColorBindings::default() };
    let s = t.GenerateColor(&TokenType::Comment, "todo".to_string(), &mode);
    assert_eq!(s.styles, vec![ColorType::Green, ColorType::Underline]);
    let s = t.GenerateColor(&TokenType::Comment, "note".to_string(), &mode);
    assert_eq!(s.styles, vec![ColorType::Green]);
}

#[test]
fn grayed_text_is_dim_white() {
    let t = tab_of(1);
    let mode = ColorMode::default();
    let s = t.GenerateColor(&TokenType::Grayed, "hint".to_string(), &mode);
    assert_eq!(s.styles, vec![ColorType::BrightWhite, ColorType::Dim, ColorType::Italic]);
}

#[test]
fn unsafe_is_drawn_on_dark_gray() {
    let t = tab_of(1);
    let mode = ColorMode::default();
    let s = t.GenerateColor(&TokenType::Unsafe, "unsafe".to_string(), &mode);
    assert_eq!(
        s.styles,
        vec![ColorType::BrightRed, ColorType::Italic, ColorType::Underline, ColorType::OnBrightBlack, ColorType::Bold]
    );
}

#[test]
fn script_token_names() {
    assert_eq!(TokenTypeNamed("Keyword"), TokenType::Keyword);
    assert_eq!(TokenTypeNamed("CommentLong"), TokenType::CommentLong);
    assert_eq!(TokenTypeNamed("Null"), TokenType::Null);
    assert_eq!(TokenTypeNamed("keyword"), TokenType::Null);
}

#[test]
fn tab_bar_labels() {
    let tabs = CodeTabs {
        tabFileNames: vec!["a.rs".to_string(), "b.rs".to_string()],
        tabs: vec![tab_of(1), tab_of(1)],
        currentTab: 1,
        panes: vec![],
    };
    let labels = tabs.GetColoredNames(false);
    assert_eq!(labels.len(), 6);
    assert_eq!(labels[0].text, " (1) ");
    assert_eq!(labels[0].styles, vec![ColorType::BrightYellow, ColorType::Bold]);
    assert_eq!(labels[1].text, "a.rs");
    assert_eq!(labels[3].text, " (2) ");
    assert_eq!(labels[4].styles, vec![ColorType::BrightWhite, ColorType::Italic, ColorType::OnBrightBlack]);
    assert_eq!(labels[5].text, " |");
    let focused = tabs.GetColoredNames(true);
    assert_eq!(focused[2].styles, vec![ColorType::BrightWhite, ColorType::Bold, ColorType::Underline]);
}

fn tok(t: TokenType, s: &str) -> LuaTuple {
    LuaTuple { token: t, text: s.to_string() }
}

fn texts(row: &[termedit::colors::StyledText]) -> Vec<String> {
    row.iter().map(|p| p.text.clone()).collect()
}

#[test]
fn cursor_line_is_cut_at_the_cursor() {
    let mut t = CodeTab::from_lines("t".to_string(), "t.rs".to_string(), vec!["let x".to_string()]);
    t.lineTokens = vec![vec![tok(TokenType::Keyword, "let"), tok(TokenType::Null, " "), tok(TokenType::Variable, "x")]];
    t.cursor = (0, 2);
    let mode = ColorMode::default();
    let row = t.RenderCodeLine(0, 0, true, &mode, &String::new(), 80, 100);
    assert_eq!(texts(&row), vec!["1: ", "le", "|", "t", " ", "x"]);
    assert_eq!(row[0].styles, vec![ColorType::Red, ColorType::Bold, ColorType::Underline, ColorType::Underline]);
    assert_eq!(row[1].styles, vec![ColorType::BrightRed, ColorType::Bold, ColorType::Underline, ColorType::Underline]);
    assert_eq!(row[2].styles, vec![ColorType::BrightWhite, ColorType::Bold, ColorType::Underline]);
    assert_eq!(row[5].styles, vec![ColorType::Rgb(225, 225, 225), ColorType::Underline]);
}

#[test]
fn selected_text_is_darkened() {
    let mut t = CodeTab::from_lines("t".to_string(), "t.rs".to_string(), vec!["let x".to_string(), "y".to_string()]);
    t.lineTokens = vec![
        vec![tok(TokenType::Keyword, "let"), tok(TokenType::Null, " "), tok(TokenType::Variable, "x")],
        vec![tok(TokenType::Variable, "y")],
    ];
    t.cursor = (1, 0);
    t.cursorEnd = (0, 1);
    t.highlighting = true;
    let mode = ColorMode::default();
    let row = t.RenderCodeLine(0, 0, false, &mode, &String::new(), 80, 100);
    assert_eq!(texts(&row), vec!["1: ", "l", "et", " ", "x"]);
    assert_eq!(row[0].styles, vec![ColorType::White, ColorType::Italic]);
    assert_eq!(row[1].styles, vec![ColorType::BrightRed, ColorType::Bold, ColorType::Underline]);
    assert_eq!(*row[2].styles.last().unwrap(), ColorType::OnBrightBlack);
    assert_eq!(*row[3].styles.last().unwrap(), ColorType::OnBrightBlack);
}

#[test]
fn completion_is_shown_after_the_cursor() {
    let mut t = CodeTab::from_lines("t".to_string(), "t.rs".to_string(), vec!["pri".to_string()]);
    t.lineTokens = vec![vec![tok(TokenType::Null, "pri")]];
    t.cursor = (0, 3);
    let mode = ColorMode::default();
    let row = t.RenderCodeLine(0, 0, true, &mode, &"println".to_string(), 80, 100);
    assert_eq!(texts(&row), vec!["1: ", "pri", "|", "ntln"]);
    assert_eq!(row[3].styles, vec![ColorType::BrightWhite, ColorType::Dim, ColorType::Italic, ColorType::Underline]);
}

#[test]
fn narrow_panes_clip_the_row_and_draw_the_bar() {
    let mut t = CodeTab::from_lines("t".to_string(), "t.rs".to_string(), vec!["abcdef".to_string()]);
    t.lineTokens = vec![vec![tok(TokenType::Null, "abc"), tok(TokenType::Null, "def")]];
    t.cursor = (0, 0);
    let mode = ColorMode::default();
    // 40 columns leave 7: the gutter (3) and one token (3) fit, the second does not
    let row = t.RenderCodeLine(0, 0, false, &mode, &String::new(), 40, 0);
    assert_eq!(texts(&row), vec!["1: ", "abc", " ", "||"]);
    let row = t.RenderCodeLine(0, 3, false, &mode, &String::new(), 40, 0);
    assert_eq!(texts(&row).len(), 2);
}

#[test]
fn pane_rows_follow_the_view() {
    let mut t = tab_of(3);
    t.lineTokens = vec![vec![tok(TokenType::Null, "a")], vec![tok(TokenType::Null, "b")], vec![tok(TokenType::Null, "c")]];
    t.scrolled = 1;
    let mode = ColorMode::default();
    let rows = t.GetScrolledText(12, 80, false, &mode, &String::new(), 100);
    assert_eq!(rows.len(), 2);
    assert_eq!(rows[0][1].text, "b");
    assert_eq!(rows[1][1].text, "c");
}
