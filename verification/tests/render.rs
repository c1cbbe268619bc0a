use termedit::colors::ColorBindings;
use termedit::term_render::{Colored, GetSliceUTF_8, Window};

#[test]
fn slices_count_visible_characters_from_zero() {
    assert_eq!(GetSliceUTF_8("abcdef", 0, 3), "abc");
    assert_eq!(GetSliceUTF_8("abcdef", 2, 4), "cd");
    assert_eq!(GetSliceUTF_8("a\x1b[1mbcd", 1, 3), "\x1b[1mbc");
}

#[test]
fn a_window_without_border_renders_its_rows() {
    let w = Window::new((0, 0), 0, (3, 2));
    assert_eq!(w.GetRender(), vec!["   ".to_string(), "   ".to_string()]);
}

#[test]
fn a_bordered_titled_window_renders_its_frame() {
    let mut w = Window::new((0, 0), 0, (8, 3));
    w.Bordered();
    w.Titled("ab".to_string());
    assert!(w.bordered);
    assert_eq!(
        w.GetRender(),
        vec![
            "\x1b[0m┌──\x1b[0mab──┐\x1b[0m".to_string(),
            "\x1b[0m│\x1b[0m\x1b[0m      \x1b[0m│\x1b[0m".to_string(),
            "\x1b[0m└──────┘\x1b[0m".to_string(),
        ]
    );
}

#[test]
fn the_default_table_has_one_entry_per_token_and_level() {
    let b: ColorBindings = Default::default();
    assert_eq!(b.syntaxHighlighting.len(), 72);
    for (i, x) in b.syntaxHighlighting.iter().enumerate() {
        for y in &b.syntaxHighlighting[i + 1..] {
            assert!(x.0 != y.0 || x.1 != y.1);
        }
    }
}

#[test]
fn a_split_falls_at_a_byte_offset() {
    let c = Colored::new("héllo".to_string());
    let (left, right) = c.Split(3);
    assert_eq!(left.text, "hé");
    assert_eq!(right.text, "llo");
    let (left, right) = c.Split(0);
    assert_eq!(left.text, "");
    assert_eq!(right.text, "héllo");
}
