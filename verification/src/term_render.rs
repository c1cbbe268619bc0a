//! Terminal colors as escape codes, colored text, and cached windows that render themselves
//! into lines of escape-coded text.
use vstd::prelude::*;
use crate::lsp::{byte_len, utf8_len, char_bytes};
use crate::text::{concat, string_push, string_of_str, char_len, substring, str_contains, contains_seq, str_equal};

verus! {

// ---------------------------------------------------------------- numbers as text
/// The digit character for `d` (below 10).
pub open spec fn digit(d: nat) -> char {
    if d == 0 {
        '0'
    } else if d == 1 {
        '1'
    } else if d == 2 {
        '2'
    } else if d == 3 {
        '3'
    } else if d == 4 {
        '4'
    } else if d == 5 {
        '5'
    } else if d == 6 {
        '6'
    } else if d == 7 {
        '7'
    } else if d == 8 {
        '8'
    } else {
        '9'
    }
}

/// The decimal digits of `n`, without leading zeros.
pub open spec fn decimal(n: nat) -> Seq<char>
    decreases n,
{
    if n < 10 {
        seq![digit(n)]
    } else {
        decimal(n / 10) + seq![digit(n % 10)]
    }
}

fn digit_char(d: u64) -> (c: char)
    requires
        d < 10,
    ensures
        c == digit(d as nat),
{
    if d == 0 {
        '0'
    } else if d == 1 {
        '1'
    } else if d == 2 {
        '2'
    } else if d == 3 {
        '3'
    } else if d == 4 {
        '4'
    } else if d == 5 {
        '5'
    } else if d == 6 {
        '6'
    } else if d == 7 {
        '7'
    } else if d == 8 {
        '8'
    } else {
        '9'
    }
}

/// Appends the decimal digits of `value`.
pub fn push_decimal(buffer: &mut String, value: u64)
    ensures
        final(buffer)@ == old(buffer)@ + decimal(value as nat),
    decreases value,
{
    if value >= 10 {
        push_decimal(buffer, value / 10);
    }
    string_push(buffer, digit_char(value % 10));
    proof {
        if value < 10 {
            assert(value % 10 == value);
        }
    }
}

/// Appends the decimal digits of a 16-bit value, as cursor-moving escape codes need.
pub fn PushU16(buffer: &mut String, value: u16)
    ensures
        final(buffer)@ == old(buffer)@ + decimal(value as nat),
{
    push_decimal(buffer, value as u64);
}

/// The decimal digits of `value` as a new string.
pub fn decimal_string(value: u64) -> (s: String)
    ensures
        s@ == decimal(value as nat),
{
    let mut s = String::new();
    push_decimal(&mut s, value);
    proof {
        assert(Seq::<char>::empty() + decimal(value as nat) =~= decimal(value as nat));
    }
    s
}

// ---------------------------------------------------------------- colors
/// Light or dark terminal background; light mode swaps the basic colors around.
#[derive(Clone, Copy, PartialEq, Eq, Debug, Hash, Structural)]
pub enum ColorMode {
    Dark,
    Light,
}

impl Default for ColorMode {
    fn default() -> (m: ColorMode)
        ensures
            m == ColorMode::Dark,
    {
        ColorMode::Dark
    }
}

/// A text color, background color or text modifier.
#[derive(Clone, Copy, Debug, Eq, PartialEq, Hash, Structural)]
pub enum ColorType {
    Black,
    Red,
    Green,
    Yellow,
    Blue,
    Magenta,
    Cyan,
    White,
    Default,
    BrightBlack,
    BrightRed,
    BrightGreen,
    BrightYellow,
    BrightBlue,
    BrightMagenta,
    BrightCyan,
    BrightWhite,
    BrightDefault,
    OnBlack,
    OnRed,
    OnGreen,
    OnYellow,
    OnBlue,
    OnMagenta,
    OnCyan,
    OnWhite,
    OnDefault,
    OnBrightBlack,
    OnBrightRed,
    OnBrightGreen,
    OnBrightYellow,
    OnBrightBlue,
    OnBrightMagenta,
    OnBrightCyan,
    OnBrightWhite,
    OnBrightDefault,
    Bold,
    Dim,
    Italic,
    Underline,
    Blink,
    Reverse,
    Hide,
    OnRGB(u8, u8, u8),
    Rgb(u8, u8, u8),
    OnANSI(u8),
    Ansi(u8),
}

impl Default for ColorType {
    fn default() -> (t: ColorType)
        ensures
            t == ColorType::Default,
    {
        ColorType::Default
    }
}

/// An escape-code color: the color code (if any), the modifier code (if any), and whether
/// the color is a background. Fixed colors hold their codes as numbers; computed ones hold
/// the code's text.
#[derive(Clone, Debug, Eq, PartialEq, Hash)]
pub enum UniqueColor {
    Static(Option<u8>, Option<u8>, bool),
    Dynamic(Option<String>, Option<u8>, bool),
}

/// What a color means: its color code's text, its modifier codes' texts, and whether it is
/// a background.
pub type ColorMeaning = (Option<Seq<char>>, Seq<Seq<char>>, bool);

/// The modifier codes of a color.
pub open spec fn modifier_texts(m: Option<u8>) -> Seq<Seq<char>> {
    match m {
        Some(n) => seq![decimal(n as nat)],
        None => Seq::empty(),
    }
}

/// What a unique color means.
pub open spec fn unique_meaning(u: UniqueColor) -> ColorMeaning {
    match u {
        UniqueColor::Static(c, m, b) => (
            match c {
                Some(n) => Some(decimal(n as nat)),
                None => None,
            },
            modifier_texts(m),
            b,
        ),
        UniqueColor::Dynamic(c, m, b) => (
            match c {
                Some(s) => Some(s@),
                None => None,
            },
            modifier_texts(m),
            b,
        ),
    }
}

/// The position of a basic color among black, red, green, yellow, blue, magenta, cyan,
/// white (0 to 7), with 9 for the terminal's default.
pub open spec fn basic_index(t: ColorType) -> Option<nat> {
    match t {
        ColorType::Black | ColorType::BrightBlack | ColorType::OnBlack | ColorType::OnBrightBlack => Some(0),
        ColorType::Red | ColorType::BrightRed | ColorType::OnRed | ColorType::OnBrightRed => Some(1),
        ColorType::Green | ColorType::BrightGreen | ColorType::OnGreen | ColorType::OnBrightGreen => Some(2),
        ColorType::Yellow | ColorType::BrightYellow | ColorType::OnYellow | ColorType::OnBrightYellow => Some(3),
        ColorType::Blue | ColorType::BrightBlue | ColorType::OnBlue | ColorType::OnBrightBlue => Some(4),
        ColorType::Magenta | ColorType::BrightMagenta | ColorType::OnMagenta | ColorType::OnBrightMagenta => Some(5),
        ColorType::Cyan | ColorType::BrightCyan | ColorType::OnCyan | ColorType::OnBrightCyan => Some(6),
        ColorType::White | ColorType::BrightWhite | ColorType::OnWhite | ColorType::OnBrightWhite => Some(7),
        ColorType::Default | ColorType::BrightDefault | ColorType::OnDefault | ColorType::OnBrightDefault => Some(9),
        _ => None,
    }
}

pub open spec fn is_plain_fg(t: ColorType) -> bool {
    t is Black || t is Red || t is Green || t is Yellow || t is Blue || t is Magenta || t is Cyan || t is White
        || t is Default
}

pub open spec fn is_bright_fg(t: ColorType) -> bool {
    t is BrightBlack || t is BrightRed || t is BrightGreen || t is BrightYellow || t is BrightBlue
        || t is BrightMagenta || t is BrightCyan || t is BrightWhite || t is BrightDefault
}

pub open spec fn is_plain_bg(t: ColorType) -> bool {
    t is OnBlack || t is OnRed || t is OnGreen || t is OnYellow || t is OnBlue || t is OnMagenta || t is OnCyan
        || t is OnWhite || t is OnDefault
}

pub open spec fn is_bright_bg(t: ColorType) -> bool {
    t is OnBrightBlack || t is OnBrightRed || t is OnBrightGreen || t is OnBrightYellow || t is OnBrightBlue
        || t is OnBrightMagenta || t is OnBrightCyan || t is OnBrightWhite || t is OnBrightDefault
}

/// The modifier code of a modifier.
pub open spec fn modifier_code(t: ColorType) -> Option<nat> {
    match t {
        ColorType::Bold => Some(1),
        ColorType::Dim => Some(2),
        ColorType::Italic => Some(3),
        ColorType::Underline => Some(4),
        ColorType::Blink => Some(5),
        ColorType::Reverse => Some(7),
        ColorType::Hide => Some(8),
        _ => None,
    }
}

/// `prefix;r;g;b` for a 24-bit color, `prefix` being 38 (text) or 48 (background).
pub open spec fn rgb_code(prefix: nat, r: nat, g: nat, b: nat) -> Seq<char> {
    decimal(prefix) + seq![';', '2', ';'] + decimal(r) + seq![';'] + decimal(g) + seq![';'] + decimal(b)
}

/// `prefix;5;i` for a 256-color palette entry.
pub open spec fn ansi_code(prefix: nat, i: nat) -> Seq<char> {
    decimal(prefix) + seq![';', '5', ';'] + decimal(i)
}

/// The meaning of a fixed code: a color (with background flag) or a modifier.
pub open spec fn code_meaning(color: Option<nat>, modifier: Option<nat>, background: bool) -> ColorMeaning {
    (
        match color {
            Some(n) => Some(decimal(n)),
            None => None,
        },
        match modifier {
            Some(n) => seq![decimal(n)],
            None => Seq::empty(),
        },
        background,
    )
}

/// What a color type means on a dark background: plain colors are 30 to 39, bright ones 90
/// to 99; plain backgrounds are the bright background codes 100 to 107 and bright ones the
/// plain codes 40 to 47, except for the defaults (109 and 49).
pub open spec fn dark_meaning(t: ColorType) -> ColorMeaning {
    match t {
        ColorType::Rgb(r, g, b) => (Some(rgb_code(38, r as nat, g as nat, b as nat)), Seq::empty(), false),
        ColorType::OnRGB(r, g, b) => (Some(rgb_code(48, r as nat, g as nat, b as nat)), Seq::empty(), true),
        ColorType::Ansi(i) => (Some(ansi_code(38, i as nat)), Seq::empty(), false),
        ColorType::OnANSI(i) => (Some(ansi_code(48, i as nat)), Seq::empty(), true),
        _ => if is_plain_fg(t) {
            code_meaning(Some(30 + basic_index(t).unwrap()), None, false)
        } else if is_bright_fg(t) {
            code_meaning(Some(90 + basic_index(t).unwrap()), None, false)
        } else if t is OnDefault {
            code_meaning(Some(109), None, true)
        } else if t is OnBrightDefault {
            code_meaning(Some(49), None, true)
        } else if is_plain_bg(t) {
            code_meaning(Some(40 + basic_index(t).unwrap()), None, true)
        } else if is_bright_bg(t) {
            code_meaning(Some(100 + basic_index(t).unwrap()), None, true)
        } else {
            code_meaning(None, modifier_code(t), false)
        },
    }
}

/// A channel of a 24-bit color on a light background: values above 128 are darkened by 128.
pub open spec fn darkened(c: u8) -> nat {
    if c > 128 {
        (c - 128) as nat
    } else {
        c as nat
    }
}

/// What a color type means on a light background: black and white trade places with their
/// bright versions (for text and for backgrounds), the other bright colors show as plain
/// ones, and 24-bit channels above 128 are darkened.
pub open spec fn light_meaning(t: ColorType) -> ColorMeaning {
    match t {
        ColorType::Black => code_meaning(Some(97), None, false),
        ColorType::White => code_meaning(Some(90), None, false),
        ColorType::Default => code_meaning(Some(99), None, false),
        ColorType::BrightBlack => code_meaning(Some(37), None, false),
        ColorType::BrightWhite => code_meaning(Some(30), None, false),
        ColorType::BrightDefault => code_meaning(Some(39), None, false),
        ColorType::OnBlack => code_meaning(Some(107), None, true),
        ColorType::OnWhite => code_meaning(Some(40), None, true),
        ColorType::OnDefault => code_meaning(Some(49), None, true),
        ColorType::OnBrightBlack => code_meaning(Some(47), None, true),
        ColorType::OnBrightWhite => code_meaning(Some(100), None, true),
        ColorType::OnBrightDefault => code_meaning(Some(109), None, true),
        ColorType::Rgb(r, g, b) => (Some(rgb_code(38, darkened(r), darkened(g), darkened(b))), Seq::empty(), false),
        ColorType::OnRGB(r, g, b) => (Some(rgb_code(48, darkened(r), darkened(g), darkened(b))), Seq::empty(), true),
        ColorType::Ansi(i) => (Some(ansi_code(38, i as nat)), Seq::empty(), false),
        ColorType::OnANSI(i) => (Some(ansi_code(48, i as nat)), Seq::empty(), true),
        _ => if is_plain_fg(t) || is_bright_fg(t) {
            code_meaning(Some(30 + basic_index(t).unwrap()), None, false)
        } else if is_plain_bg(t) || is_bright_bg(t) {
            code_meaning(Some(100 + basic_index(t).unwrap()), None, true)
        } else {
            code_meaning(None, modifier_code(t), false)
        },
    }
}

/// What a color type means in a color mode.
pub open spec fn color_meaning(t: ColorType, mode: ColorMode) -> ColorMeaning {
    match mode {
        ColorMode::Dark => dark_meaning(t),
        ColorMode::Light => light_meaning(t),
    }
}

/// Whether a color type is a fixed code (rather than a computed 24-bit or palette color).
pub open spec fn is_fixed(t: ColorType) -> bool {
    !(t is Rgb || t is OnRGB || t is Ansi || t is OnANSI)
}

/// `prefix;2;r;g;b` as a string.
fn rgb_string(prefix: u64, r: u8, g: u8, b: u8) -> (s: String)
    ensures
        s@ == rgb_code(prefix as nat, r as nat, g as nat, b as nat),
{
    let mut s = decimal_string(prefix);
    string_push(&mut s, ';');
    string_push(&mut s, '2');
    string_push(&mut s, ';');
    push_decimal(&mut s, r as u64);
    string_push(&mut s, ';');
    push_decimal(&mut s, g as u64);
    string_push(&mut s, ';');
    push_decimal(&mut s, b as u64);
    proof {
        assert(s@ =~= rgb_code(prefix as nat, r as nat, g as nat, b as nat));
    }
    s
}

/// `prefix;5;i` as a string.
fn ansi_string(prefix: u64, i: u8) -> (s: String)
    ensures
        s@ == ansi_code(prefix as nat, i as nat),
{
    let mut s = decimal_string(prefix);
    string_push(&mut s, ';');
    string_push(&mut s, '5');
    string_push(&mut s, ';');
    push_decimal(&mut s, i as u64);
    proof {
        assert(s@ =~= ansi_code(prefix as nat, i as nat));
    }
    s
}

fn darken(c: u8) -> (d: u8)
    ensures
        d == darkened(c),
{
    if c > 128 {
        c - 128
    } else {
        c
    }
}

impl UniqueColor {
    /// The color in one form: the color code's text, the modifier codes' texts, and
    /// whether it is a background.
    pub fn UnwrapIntoTuple(&self) -> (res: (Option<String>, Vec<String>, bool))
        ensures
            (match res.0 {
                Some(s) => Some(s@),
                None => None,
            }) == unique_meaning(*self).0,
            res.1@.map_values(|s: String| s@) == unique_meaning(*self).1,
            res.2 == unique_meaning(*self).2,
    {
        let (color, modifier, background) = match self {
            UniqueColor::Static(c, m, b) => (
                match c {
                    Some(n) => Some(decimal_string(*n as u64)),
                    None => None,
                },
                *m,
                *b,
            ),
            UniqueColor::Dynamic(c, m, b) => (
                match c {
                    Some(s) => Some(s.clone()),
                    None => None,
                },
                *m,
                *b,
            ),
        };
        let mut mods: Vec<String> = Vec::new();
        match modifier {
            Some(n) => mods.push(decimal_string(n as u64)),
            None => {},
        }
        proof {
            assert(mods@.map_values(|s: String| s@) =~= modifier_texts(modifier));
        }
        (color, mods, background)
    }
}

impl ColorType {
    /// The color on a dark background (see `dark_meaning`).
    pub fn GetDarkColor(&self) -> (u: UniqueColor)
        ensures
            unique_meaning(u) == dark_meaning(*self),
            is_fixed(*self) <==> u is Static,
    {
        match self {
            ColorType::Black => UniqueColor::Static(Some(30), None, false),
            ColorType::Red => UniqueColor::Static(Some(31), None, false),
            ColorType::Green => UniqueColor::Static(Some(32), None, false),
            ColorType::Yellow => UniqueColor::Static(Some(33), None, false),
            ColorType::Blue => UniqueColor::Static(Some(34), None, false),
            ColorType::Magenta => UniqueColor::Static(Some(35), None, false),
            ColorType::Cyan => UniqueColor::Static(Some(36), None, false),
            ColorType::White => UniqueColor::Static(Some(37), None, false),
            ColorType::Default => UniqueColor::Static(Some(39), None, false),
            ColorType::BrightBlack => UniqueColor::Static(Some(90), None, false),
            ColorType::BrightRed => UniqueColor::Static(Some(91), None, false),
            ColorType::BrightGreen => UniqueColor::Static(Some(92), None, false),
            ColorType::BrightYellow => UniqueColor::Static(Some(93), None, false),
            ColorType::BrightBlue => UniqueColor::Static(Some(94), None, false),
            ColorType::BrightMagenta => UniqueColor::Static(Some(95), None, false),
            ColorType::BrightCyan => UniqueColor::Static(Some(96), None, false),
            ColorType::BrightWhite => UniqueColor::Static(Some(97), None, false),
            ColorType::BrightDefault => UniqueColor::Static(Some(99), None, false),
            ColorType::OnBlack => UniqueColor::Static(Some(40), None, true),
            ColorType::OnRed => UniqueColor::Static(Some(41), None, true),
            ColorType::OnGreen => UniqueColor::Static(Some(42), None, true),
            ColorType::OnYellow => UniqueColor::Static(Some(43), None, true),
            ColorType::OnBlue => UniqueColor::Static(Some(44), None, true),
            ColorType::OnMagenta => UniqueColor::Static(Some(45), None, true),
            ColorType::OnCyan => UniqueColor::Static(Some(46), None, true),
            ColorType::OnWhite => UniqueColor::Static(Some(47), None, true),
            ColorType::OnDefault => UniqueColor::Static(Some(109), None, true),
            ColorType::OnBrightBlack => UniqueColor::Static(Some(100), None, true),
            ColorType::OnBrightRed => UniqueColor::Static(Some(101), None, true),
            ColorType::OnBrightGreen => UniqueColor::Static(Some(102), None, true),
            ColorType::OnBrightYellow => UniqueColor::Static(Some(103), None, true),
            ColorType::OnBrightBlue => UniqueColor::Static(Some(104), None, true),
            ColorType::OnBrightMagenta => UniqueColor::Static(Some(105), None, true),
            ColorType::OnBrightCyan => UniqueColor::Static(Some(106), None, true),
            ColorType::OnBrightWhite => UniqueColor::Static(Some(107), None, true),
            ColorType::OnBrightDefault => UniqueColor::Static(Some(49), None, true),
            ColorType::Rgb(r, g, b) => UniqueColor::Dynamic(Some(rgb_string(38, *r, *g, *b)), None, false),
            ColorType::OnRGB(r, g, b) => UniqueColor::Dynamic(Some(rgb_string(48, *r, *g, *b)), None, true),
            ColorType::Ansi(i) => UniqueColor::Dynamic(Some(ansi_string(38, *i)), None, false),
            ColorType::OnANSI(i) => UniqueColor::Dynamic(Some(ansi_string(48, *i)), None, true),
            ColorType::Bold => UniqueColor::Static(None, Some(1), false),
            ColorType::Dim => UniqueColor::Static(None, Some(2), false),
            ColorType::Italic => UniqueColor::Static(None, Some(3), false),
            ColorType::Underline => UniqueColor::Static(None, Some(4), false),
            ColorType::Blink => UniqueColor::Static(None, Some(5), false),
            ColorType::Reverse => UniqueColor::Static(None, Some(7), false),
            ColorType::Hide => UniqueColor::Static(None, Some(8), false),
        }
    }

    /// The color on a light background (see `light_meaning`).
    pub fn GetLightColor(&self) -> (u: UniqueColor)
        ensures
            unique_meaning(u) == light_meaning(*self),
            is_fixed(*self) <==> u is Static,
    {
        match self {
            ColorType::Black => UniqueColor::Static(Some(97), None, false),
            ColorType::Red => UniqueColor::Static(Some(31), None, false),
            ColorType::Green => UniqueColor::Static(Some(32), None, false),
            ColorType::Yellow => UniqueColor::Static(Some(33), None, false),
            ColorType::Blue => UniqueColor::Static(Some(34), None, false),
            ColorType::Magenta => UniqueColor::Static(Some(35), None, false),
            ColorType::Cyan => UniqueColor::Static(Some(36), None, false),
            ColorType::White => UniqueColor::Static(Some(90), None, false),
            ColorType::Default => UniqueColor::Static(Some(99), None, false),
            ColorType::BrightBlack => UniqueColor::Static(Some(37), None, false),
            ColorType::BrightRed => UniqueColor::Static(Some(31), None, false),
            ColorType::BrightGreen => UniqueColor::Static(Some(32), None, false),
            ColorType::BrightYellow => UniqueColor::Static(Some(33), None, false),
            ColorType::BrightBlue => UniqueColor::Static(Some(34), None, false),
            ColorType::BrightMagenta => UniqueColor::Static(Some(35), None, false),
            ColorType::BrightCyan => UniqueColor::Static(Some(36), None, false),
            ColorType::BrightWhite => UniqueColor::Static(Some(30), None, false),
            ColorType::BrightDefault => UniqueColor::Static(Some(39), None, false),
            ColorType::OnBlack => UniqueColor::Static(Some(107), None, true),
            ColorType::OnRed => UniqueColor::Static(Some(101), None, true),
            ColorType::OnGreen => UniqueColor::Static(Some(102), None, true),
            ColorType::OnYellow => UniqueColor::Static(Some(103), None, true),
            ColorType::OnBlue => UniqueColor::Static(Some(104), None, true),
            ColorType::OnMagenta => UniqueColor::Static(Some(105), None, true),
            ColorType::OnCyan => UniqueColor::Static(Some(106), None, true),
            ColorType::OnWhite => UniqueColor::Static(Some(40), None, true),
            ColorType::OnDefault => UniqueColor::Static(Some(49), None, true),
            ColorType::OnBrightBlack => UniqueColor::Static(Some(47), None, true),
            ColorType::OnBrightRed => UniqueColor::Static(Some(101), None, true),
            ColorType::OnBrightGreen => UniqueColor::Static(Some(102), None, true),
            ColorType::OnBrightYellow => UniqueColor::Static(Some(103), None, true),
            ColorType::OnBrightBlue => UniqueColor::Static(Some(104), None, true),
            ColorType::OnBrightMagenta => UniqueColor::Static(Some(105), None, true),
            ColorType::OnBrightCyan => UniqueColor::Static(Some(106), None, true),
            ColorType::OnBrightWhite => UniqueColor::Static(Some(100), None, true),
            ColorType::OnBrightDefault => UniqueColor::Static(Some(109), None, true),
            ColorType::Rgb(r, g, b) => UniqueColor::Dynamic(Some(rgb_string(38, darken(*r), darken(*g), darken(*b))), None, false),
            ColorType::OnRGB(r, g, b) => UniqueColor::Dynamic(Some(rgb_string(48, darken(*r), darken(*g), darken(*b))), None, true),
            ColorType::Ansi(i) => UniqueColor::Dynamic(Some(ansi_string(38, *i)), None, false),
            ColorType::OnANSI(i) => UniqueColor::Dynamic(Some(ansi_string(48, *i)), None, true),
            ColorType::Bold => UniqueColor::Static(None, Some(1), false),
            ColorType::Dim => UniqueColor::Static(None, Some(2), false),
            ColorType::Italic => UniqueColor::Static(None, Some(3), false),
            ColorType::Underline => UniqueColor::Static(None, Some(4), false),
            ColorType::Blink => UniqueColor::Static(None, Some(5), false),
            ColorType::Reverse => UniqueColor::Static(None, Some(7), false),
            ColorType::Hide => UniqueColor::Static(None, Some(8), false),
        }
    }

    /// The color in the given mode.
    pub fn GetColor(&self, mode: ColorMode) -> (u: UniqueColor)
        ensures
            unique_meaning(u) == color_meaning(*self, mode),
    {
        match mode {
            ColorMode::Dark => self.GetDarkColor(),
            ColorMode::Light => self.GetLightColor(),
        }
    }
}

// ---------------------------------------------------------------- colored text
/// A string's characters, if there is one.
pub open spec fn opt_view(o: Option<String>) -> Option<Seq<char>> {
    match o {
        Some(s) => Some(s@),
        None => None,
    }
}

/// A text with its colors and modifiers (as escape-code texts).
#[derive(Debug)]
pub struct Colored {
    pub text: String,
    pub mods: Vec<String>,
    pub color: Option<String>,
    pub bgColor: Option<String>,
}

/// A colored text as plain values: text, modifier codes, color code, background code.
pub type ColoredView = (Seq<char>, Seq<Seq<char>>, Option<Seq<char>>, Option<Seq<char>>);

pub open spec fn strings_of(v: Seq<String>) -> Seq<Seq<char>> {
    v.map_values(|s: String| s@)
}

impl View for Colored {
    type V = ColoredView;

    open spec fn view(&self) -> ColoredView {
        (self.text@, strings_of(self.mods@), opt_view(self.color), opt_view(self.bgColor))
    }
}

/// The colored text with a color of meaning `m` added: a background replaces the
/// background, a color (if any) replaces the color, and the modifiers are appended.
pub open spec fn with_meaning(c: ColoredView, m: ColorMeaning) -> ColoredView {
    let (text, mods, color, bg) = c;
    let (mc, mm, is_bg) = m;
    (
        text,
        mods + mm,
        if !is_bg && mc is Some {
            mc
        } else {
            color
        },
        if is_bg {
            mc
        } else {
            bg
        },
    )
}

/// The colored text with the colors of `ts` added in order.
pub open spec fn with_colors(c: ColoredView, ts: Seq<ColorType>, mode: ColorMode) -> ColoredView
    decreases ts.len(),
{
    if ts.len() == 0 {
        c
    } else {
        with_meaning(with_colors(c, ts.drop_last(), mode), color_meaning(ts.last(), mode))
    }
}

/// The colored text with the unique colors `us` added in order.
pub open spec fn with_uniques(c: ColoredView, us: Seq<UniqueColor>) -> ColoredView
    decreases us.len(),
{
    if us.len() == 0 {
        c
    } else {
        with_meaning(with_uniques(c, us.drop_last()), unique_meaning(us.last()))
    }
}

/// The strings joined with `sep` between them.
pub open spec fn join_with(parts: Seq<Seq<char>>, sep: Seq<char>) -> Seq<char>
    decreases parts.len(),
{
    if parts.len() == 0 {
        Seq::empty()
    } else if parts.len() == 1 {
        parts[0]
    } else {
        join_with(parts.drop_last(), sep) + sep + parts.last()
    }
}

/// The escape code that sets a colored text's colors: a reset, then the color, the
/// background and the modifiers, separated by `;`; a plain reset without color or background.
pub open spec fn escape_of(c: ColoredView) -> Seq<char> {
    let (_, mods, color, bg) = c;
    let esc = seq!['\x1b', '[', '0'];
    let m = if mods.len() > 0 {
        seq![';'] + join_with(mods, seq![';'])
    } else {
        Seq::empty()
    };
    match (color, bg) {
        (Some(fg), Some(b)) => esc + seq![';'] + fg + seq![';'] + b + m + seq!['m'],
        (Some(fg), None) => esc + seq![';'] + fg + m + seq!['m'],
        (None, Some(b)) => esc + seq![';'] + b + m + seq!['m'],
        (None, None) => esc + seq!['m'],
    }
}

fn copy_strings(v: &Vec<String>) -> (res: Vec<String>)
    ensures
        strings_of(res@) == strings_of(v@),
{
    let mut res: Vec<String> = Vec::new();
    let mut i: usize = 0;
    while i < v.len()
        invariant
            i <= v@.len(),
            res@.len() == i,
            forall|k: int| 0 <= k < i ==> #[trigger] res@[k]@ == v@[k]@,
        decreases v@.len() - i,
    {
        res.push(v[i].clone());
        i = i + 1;
    }
    proof {
        assert(strings_of(res@) =~= strings_of(v@));
    }
    res
}

fn copy_opt(o: &Option<String>) -> (res: Option<String>)
    ensures
        opt_view(res) == opt_view(*o),
{
    match o {
        Some(s) => Some(s.clone()),
        None => None,
    }
}

fn opt_equal(a: &Option<String>, b: &Option<String>) -> (eq: bool)
    ensures
        eq == (opt_view(*a) == opt_view(*b)),
{
    match (a, b) {
        (Some(x), Some(y)) => str_equal(x.as_str(), y.as_str()),
        (None, None) => true,
        _ => false,
    }
}

fn strings_contain(v: &Vec<String>, s: &String) -> (found: bool)
    ensures
        found == strings_of(v@).contains(s@),
{
    let mut i: usize = 0;
    while i < v.len()
        invariant
            i <= v@.len(),
            forall|k: int| 0 <= k < i ==> v@[k]@ != s@,
        decreases v@.len() - i,
    {
        if str_equal(v[i].as_str(), s.as_str()) {
            proof {
                assert(strings_of(v@)[i as int] == s@);
            }
            return true;
        }
        i = i + 1;
    }
    proof {
        if strings_of(v@).contains(s@) {
            let k = choose|k: int| 0 <= k < strings_of(v@).len() && strings_of(v@)[k] == s@;
            assert(v@[k]@ == s@);
        }
    }
    false
}

/// Joins strings with `;` between them.
fn join_semicolons(parts: &Vec<String>) -> (res: String)
    ensures
        res@ == join_with(strings_of(parts@), seq![';']),
{
    let ghost ps = strings_of(parts@);
    let mut res = String::new();
    let mut i: usize = 0;
    while i < parts.len()
        invariant
            ps == strings_of(parts@),
            i <= parts@.len(),
            res@ == join_with(ps.subrange(0, i as int), seq![';']),
        decreases parts@.len() - i,
    {
        if i > 0 {
            string_push(&mut res, ';');
        }
        res = concat(&res, &parts[i]);
        proof {
            let pre = ps.subrange(0, i + 1);
            assert(pre.drop_last() =~= ps.subrange(0, i as int));
            if i == 0 {
                assert(pre.len() == 1);
            }
        }
        i = i + 1;
    }
    proof {
        assert(ps.subrange(0, parts@.len() as int) =~= ps);
    }
    res
}

fn escape_start() -> (s: String)
    ensures
        s@ == seq!['\x1b', '[', '0'],
{
    let mut s = String::new();
    string_push(&mut s, '\x1b');
    string_push(&mut s, '[');
    string_push(&mut s, '0');
    proof {
        assert(s@ =~= seq!['\x1b', '[', '0']);
    }
    s
}

/// Appends copies of the strings of `src`.
fn append_strings(dst: &mut Vec<String>, src: &Vec<String>)
    ensures
        strings_of(final(dst)@) == strings_of(old(dst)@) + strings_of(src@),
{
    let ghost before = strings_of(dst@);
    let mut i: usize = 0;
    while i < src.len()
        invariant
            i <= src@.len(),
            strings_of(dst@) == before + strings_of(src@).subrange(0, i as int),
        decreases src@.len() - i,
    {
        let ghost d0 = dst@;
        dst.push(src[i].clone());
        proof {
            assert(dst@ == d0.push(src@[i as int]));
            assert(strings_of(dst@) =~= strings_of(d0).push(src@[i as int]@));
            assert(strings_of(dst@) =~= before + strings_of(src@).subrange(0, i + 1));
        }
        i = i + 1;
    }
    proof {
        assert(strings_of(src@).subrange(0, src@.len() as int) =~= strings_of(src@));
    }
}

/// A copy of a unique color, with the same meaning.
fn copy_unique(u: &UniqueColor) -> (res: UniqueColor)
    ensures
        unique_meaning(res) == unique_meaning(*u),
{
    match u {
        UniqueColor::Static(c, m, b) => UniqueColor::Static(*c, *m, *b),
        UniqueColor::Dynamic(c, m, b) => UniqueColor::Dynamic(copy_opt(c), *m, *b),
    }
}

/// One more character adds its UTF-8 length.
proof fn lemma_byte_len_step(s: Seq<char>, i: int)
    requires
        0 <= i < s.len(),
    ensures
        byte_len(s.take(i + 1)) == byte_len(s.take(i)) + utf8_len(s[i]),
        utf8_len(s[i]) >= 1,
{
    assert(s.take(i + 1).drop_last() =~= s.take(i));
}

/// A longer prefix takes more bytes (at least one per character).
proof fn lemma_byte_len_mono(s: Seq<char>, i: int, j: int)
    requires
        0 <= i <= j <= s.len(),
    ensures
        byte_len(s.take(i)) + (j - i) <= byte_len(s.take(j)),
    decreases j - i,
{
    if i < j {
        lemma_byte_len_step(s, j - 1);
        lemma_byte_len_mono(s, i, j - 1);
    }
}

impl Colored {
    /// Uncolored text.
    pub fn new(text: String) -> (c: Colored)
        ensures
            c@ == (text@, Seq::<Seq<char>>::empty(), None::<Seq<char>>, None::<Seq<char>>),
    {
        let c = Colored { text, mods: Vec::new(), color: None, bgColor: None };
        proof {
            assert(strings_of(c.mods@) =~= Seq::<Seq<char>>::empty());
        }
        c
    }

    /// A copy with the same text and colors.
    pub fn copy(&self) -> (c: Colored)
        ensures
            c@ == self@,
    {
        Colored {
            text: self.text.clone(),
            mods: copy_strings(&self.mods),
            color: copy_opt(&self.color),
            bgColor: copy_opt(&self.bgColor),
        }
    }

    /// The text before and from byte `midPoint` (which falls between two characters), each
    /// with this text's colors.
    pub fn Split(&self, midPoint: usize) -> (halves: (Colored, Colored))
        requires
            exists|k: int| 0 <= k <= self@.0.len() && byte_len(#[trigger] self@.0.take(k)) == midPoint,
        ensures
            halves.0@.0 + halves.1@.0 == self@.0,
            byte_len(halves.0@.0) == midPoint,
            (halves.0@.1, halves.0@.2, halves.0@.3) == (self@.1, self@.2, self@.3),
            (halves.1@.1, halves.1@.2, halves.1@.3) == (self@.1, self@.2, self@.3),
    {
        let ghost text = self@.0;
        let ghost k = choose|k: int| 0 <= k <= text.len() && byte_len(#[trigger] text.take(k)) == midPoint;
        let n = char_len(&self.text);
        let mut i: usize = 0;
        let mut bytes: usize = 0;
        proof {
            assert(text.take(0) =~= Seq::<char>::empty());
        }
        while bytes < midPoint
            invariant
                n == text.len(),
                text == self@.0,
                0 <= k <= n,
                byte_len(text.take(k)) == midPoint,
                i <= k,
                bytes == byte_len(text.take(i as int)),
            decreases k - i,
        {
            proof {
                if i == k {
                    assert(false);
                }
                lemma_byte_len_step(text, i as int);
                lemma_byte_len_mono(text, i + 1, k);
            }
            let c = self.text.as_str().get_char(i);
            bytes = bytes + char_bytes(c) as usize;
            i = i + 1;
        }
        proof {
            if i < k {
                lemma_byte_len_mono(text, i as int, k);
                lemma_byte_len_step(text, i as int);
                assert(false);
            }
            assert(text.subrange(0, i as int) =~= text.take(i as int));
        }
        let halves = (
            Colored {
                text: substring(&self.text, 0, i),
                mods: copy_strings(&self.mods),
                color: copy_opt(&self.color),
                bgColor: copy_opt(&self.bgColor),
            },
            Colored {
                text: substring(&self.text, i, n),
                mods: copy_strings(&self.mods),
                color: copy_opt(&self.color),
                bgColor: copy_opt(&self.bgColor),
            },
        );
        proof {
            assert(halves.0@.0 + halves.1@.0 =~= text);
        }
        halves
    }

    /// No modifier, color or background.
    pub fn IsUncolored(&self) -> (b: bool)
        ensures
            b == (self@.1.len() == 0 && self@.2 is None && self@.3 is None),
    {
        self.mods.len() == 0 && self.color.is_none() && self.bgColor.is_none()
    }

    /// Whether the text already has the color: it is the background, it occurs in the text
    /// color's code, or one of its modifiers is present.
    pub fn Contains(&self, color: &ColorType, mode: ColorMode) -> (b: bool)
        ensures
            ({
                let (mc, mm, is_bg) = color_meaning(*color, mode);
                b == (mc == self@.3 && is_bg || (self@.2 is Some && mc is Some && contains_seq(
                    self@.2.unwrap(),
                    mc.unwrap(),
                )) || exists|i: int| 0 <= i < mm.len() && self@.1.contains(#[trigger] mm[i]))
            }),
    {
        let col = color.GetColor(mode).UnwrapIntoTuple();
        let ghost mm = strings_of(col.1@);
        if opt_equal(&col.0, &self.bgColor) && col.2 {
            return true;
        }
        let in_color = match (&self.color, &col.0) {
            (Some(sc), Some(oc)) => str_contains(sc.as_str(), oc.as_str()),
            _ => false,
        };
        if in_color {
            return true;
        }
        let mut i: usize = 0;
        while i < col.1.len()
            invariant
                i <= col.1@.len(),
                mm == strings_of(col.1@),
                mm == color_meaning(*color, mode).1,
                forall|k: int| 0 <= k < i ==> !self@.1.contains(#[trigger] mm[k]),
            decreases col.1@.len() - i,
        {
            if strings_contain(&self.mods, &col.1[i]) {
                proof {
                    assert(mm[i as int] == col.1@[i as int]@);
                }
                return true;
            }
            proof {
                assert(mm[i as int] == col.1@[i as int]@);
            }
            i = i + 1;
        }
        false
    }

    /// Replaces the text.
    pub fn ChangeText(&mut self, text: String)
        ensures
            final(self)@ == (text@, old(self)@.1, old(self)@.2, old(self)@.3),
    {
        self.text = text;
    }

    /// Adds a unique color (see `with_meaning`).
    pub fn AddUnique(&mut self, uniqueColor: UniqueColor)
        ensures
            final(self)@ == with_meaning(old(self)@, unique_meaning(uniqueColor)),
    {
        let (color, mods, background) = uniqueColor.UnwrapIntoTuple();
        if background {
            self.bgColor = color;
        } else {
            match color {
                Some(c) => {
                    self.color = Some(c);
                },
                None => {},
            }
        }
        append_strings(&mut self.mods, &mods);
    }

    /// Adds a color type in the given mode.
    pub fn AddColor(&mut self, color: ColorType, mode: ColorMode)
        ensures
            final(self)@ == with_meaning(old(self)@, color_meaning(color, mode)),
    {
        self.AddUnique(color.GetColor(mode));
    }

    /// A copy of `colored` with the colors added in order.
    pub fn GetFromColorTypes(colored: &Colored, colors: Vec<ColorType>, mode: ColorMode) -> (c: Colored)
        ensures
            c@ == with_colors(colored@, colors@, mode),
    {
        let mut c = colored.copy();
        let mut i: usize = 0;
        while i < colors.len()
            invariant
                i <= colors@.len(),
                c@ == with_colors(colored@, colors@.subrange(0, i as int), mode),
            decreases colors@.len() - i,
        {
            c.AddColor(colors[i], mode);
            proof {
                assert(colors@.subrange(0, i + 1).drop_last() =~= colors@.subrange(0, i as int));
            }
            i = i + 1;
        }
        proof {
            assert(colors@.subrange(0, colors@.len() as int) =~= colors@);
        }
        c
    }

    /// Uncolored `text` with the colors added in order.
    pub fn GetFromColorTypesStr(text: &str, colors: Vec<ColorType>, mode: ColorMode) -> (c: Colored)
        ensures
            c@ == with_colors((text@, Seq::empty(), None, None), colors@, mode),
    {
        let plain = Colored::new(string_of_str(text));
        Colored::GetFromColorTypes(&plain, colors, mode)
    }

    /// Uncolored `text` with the unique colors added in order.
    pub fn GetFromUniqueColors(text: String, uniqueColors: Vec<UniqueColor>) -> (c: Colored)
        ensures
            c@ == with_uniques((text@, Seq::empty(), None, None), uniqueColors@),
    {
        let mut c = Colored::new(text);
        let ghost start = c@;
        let mut i: usize = 0;
        while i < uniqueColors.len()
            invariant
                i <= uniqueColors@.len(),
                c@ == with_uniques(start, uniqueColors@.subrange(0, i as int)),
            decreases uniqueColors@.len() - i,
        {
            c.AddUnique(copy_unique(&uniqueColors[i]));
            proof {
                assert(uniqueColors@.subrange(0, i + 1).drop_last() =~= uniqueColors@.subrange(0, i as int));
            }
            i = i + 1;
        }
        proof {
            assert(uniqueColors@.subrange(0, uniqueColors@.len() as int) =~= uniqueColors@);
        }
        c
    }

    /// The escape code that sets this text's colors, followed by the text; the code is left
    /// out when it equals `lastColor`, which becomes that code. Also gives the number of
    /// visible characters.
    pub fn GetText(&self, lastColor: &mut String) -> (res: (String, usize))
        ensures
            res.0@ == if escape_of(self@) == old(lastColor)@ {
                self@.0
            } else {
                escape_of(self@) + self@.0
            },
            final(lastColor)@ == escape_of(self@),
            res.1 == self@.0.len(),
    {
        let mut e = escape_start();
        let colored = match (&self.color, &self.bgColor) {
            (Some(fg), Some(b)) => {
                string_push(&mut e, ';');
                e = concat(&e, fg);
                string_push(&mut e, ';');
                e = concat(&e, b);
                true
            },
            (Some(fg), None) => {
                string_push(&mut e, ';');
                e = concat(&e, fg);
                true
            },
            (None, Some(b)) => {
                string_push(&mut e, ';');
                e = concat(&e, b);
                true
            },
            (None, None) => false,
        };
        if colored && self.mods.len() > 0 {
            string_push(&mut e, ';');
            let joined = join_semicolons(&self.mods);
            e = concat(&e, &joined);
        }
        string_push(&mut e, 'm');
        proof {
            assert(e@ =~= escape_of(self@));
        }
        let n = char_len(&self.text);
        if str_equal(e.as_str(), lastColor.as_str()) {
            (self.text.clone(), n)
        } else {
            let out = concat(&e, &self.text);
            *lastColor = e;
            (out, n)
        }
    }

    /// The number of visible characters.
    pub fn GetSize(&self) -> (n: usize)
        ensures
            n == self@.0.len(),
    {
        char_len(&self.text)
    }
}

/// Are the two colored texts the same?
pub fn colored_equal(a: &Colored, b: &Colored) -> (eq: bool)
    ensures
        eq == (a@ == b@),
{
    if !str_equal(a.text.as_str(), b.text.as_str()) || !opt_equal(&a.color, &b.color) || !opt_equal(
        &a.bgColor,
        &b.bgColor,
    ) || a.mods.len() != b.mods.len() {
        proof {
            if a@ == b@ {
                assert(strings_of(a.mods@).len() == strings_of(b.mods@).len());
            }
        }
        return false;
    }
    let mut i: usize = 0;
    while i < a.mods.len()
        invariant
            a.mods@.len() == b.mods@.len(),
            i <= a.mods@.len(),
            forall|k: int| 0 <= k < i ==> a.mods@[k]@ == b.mods@[k]@,
        decreases a.mods@.len() - i,
    {
        if !str_equal(a.mods[i].as_str(), b.mods[i].as_str()) {
            proof {
                if a@ == b@ {
                    assert(strings_of(a.mods@)[i as int] == strings_of(b.mods@)[i as int]);
                }
            }
            return false;
        }
        i = i + 1;
    }
    proof {
        assert(strings_of(a.mods@) =~= strings_of(b.mods@));
    }
    true
}

/// Turns a text into colored text.
pub trait Colorize {
    /// With the colors added in order.
    fn Colorizes(&self, colors: Vec<ColorType>, mode: ColorMode) -> Colored;

    /// With one color added.
    fn Colorize(&self, color: ColorType, mode: ColorMode) -> Colored;
}

impl Colorize for String {
    fn Colorizes(&self, colors: Vec<ColorType>, mode: ColorMode) -> (c: Colored)
        ensures
            c@ == with_colors((self@, Seq::empty(), None, None), colors@, mode),
    {
        Colored::GetFromColorTypesStr(self.as_str(), colors, mode)
    }

    fn Colorize(&self, color: ColorType, mode: ColorMode) -> (c: Colored)
        ensures
            c@ == with_colors((self@, Seq::empty(), None, None), seq![color], mode),
    {
        let v = vec![color];
        proof {
            assert(v@ =~= seq![color]);
        }
        Colored::GetFromColorTypesStr(self.as_str(), v, mode)
    }
}

impl Colorize for Colored {
    fn Colorizes(&self, colors: Vec<ColorType>, mode: ColorMode) -> (c: Colored)
        ensures
            c@ == with_colors(self@, colors@, mode),
    {
        Colored::GetFromColorTypes(self, colors, mode)
    }

    fn Colorize(&self, color: ColorType, mode: ColorMode) -> (c: Colored)
        ensures
            c@ == with_colors(self@, seq![color], mode),
    {
        let v = vec![color];
        proof {
            assert(v@ =~= seq![color]);
        }
        Colored::GetFromColorTypes(self, v, mode)
    }
}

// ---------------------------------------------------------------- spans
/// A line of colored texts.
#[derive(Debug)]
pub struct Span {
    pub line: Vec<Colored>,
}

impl View for Span {
    type V = Seq<ColoredView>;

    open spec fn view(&self) -> Seq<ColoredView> {
        self.line@.map_values(|c: Colored| c@)
    }
}

/// The number of visible characters of the texts.
pub open spec fn span_size(cs: Seq<ColoredView>) -> int
    decreases cs.len(),
{
    if cs.len() == 0 {
        0
    } else {
        span_size(cs.drop_last()) + cs.last().0.len()
    }
}

/// The texts rendered one after the other, each color code left out where it repeats the
/// one in force (`last`).
pub open spec fn rendered(cs: Seq<ColoredView>, last: Seq<char>) -> Seq<char>
    decreases cs.len(),
{
    if cs.len() == 0 {
        Seq::empty()
    } else {
        let e = escape_of(cs[0]);
        (if e == last {
            cs[0].0
        } else {
            e + cs[0].0
        }) + rendered(cs.drop_first(), e)
    }
}

proof fn lemma_span_size_mono(cs: Seq<ColoredView>, i: int, j: int)
    requires
        0 <= i <= j <= cs.len(),
    ensures
        span_size(cs.subrange(0, i)) <= span_size(cs.subrange(0, j)),
    decreases j - i,
{
    if i < j {
        lemma_span_size_mono(cs, i, j - 1);
        assert(cs.subrange(0, j).drop_last() =~= cs.subrange(0, j - 1));
    }
}

impl Span {
    /// A line made of the given texts.
    pub fn FromTokens(tokens: Vec<Colored>) -> (s: Span)
        ensures
            s@ == tokens@.map_values(|c: Colored| c@),
    {
        Span { line: tokens }
    }

    /// A copy with the same texts.
    pub fn copy(&self) -> (s: Span)
        ensures
            s@ == self@,
    {
        let mut line: Vec<Colored> = Vec::new();
        let mut i: usize = 0;
        while i < self.line.len()
            invariant
                i <= self.line@.len(),
                line@.len() == i,
                forall|k: int| 0 <= k < i ==> #[trigger] line@[k]@ == self.line@[k]@,
            decreases self.line@.len() - i,
        {
            line.push(self.line[i].copy());
            i = i + 1;
        }
        let s = Span { line };
        proof {
            assert(s@ =~= self@);
        }
        s
    }

    /// The number of visible characters.
    pub fn Size(&self) -> (n: usize)
        requires
            span_size(self@) <= usize::MAX,
        ensures
            n == span_size(self@),
    {
        let ghost cs = self@;
        let mut size: usize = 0;
        let mut i: usize = 0;
        while i < self.line.len()
            invariant
                cs == self@,
                i <= self.line@.len(),
                size == span_size(cs.subrange(0, i as int)),
                span_size(cs) <= usize::MAX,
            decreases self.line@.len() - i,
        {
            proof {
                lemma_span_size_mono(cs, i + 1, cs.len() as int);
                assert(cs.subrange(0, i + 1).drop_last() =~= cs.subrange(0, i as int));
                assert(cs.subrange(0, cs.len() as int) =~= cs);
            }
            size = size + self.line[i].GetSize();
            i = i + 1;
        }
        proof {
            assert(cs.subrange(0, cs.len() as int) =~= cs);
        }
        size
    }

    /// The texts rendered one after the other (see `rendered`), and the number of visible
    /// characters.
    pub fn Join(&self) -> (res: (String, usize))
        requires
            span_size(self@) <= usize::MAX,
        ensures
            res.0@ == rendered(self@, Seq::empty()),
            res.1 == span_size(self@),
    {
        let ghost cs = self@;
        let mut last = String::new();
        let mut total = String::new();
        let mut size: usize = 0;
        let mut i: usize = 0;
        proof {
            assert(cs.subrange(0, cs.len() as int) =~= cs);
        }
        while i < self.line.len()
            invariant
                cs == self@,
                i <= self.line@.len(),
                total@ + rendered(cs.subrange(i as int, cs.len() as int), last@) == rendered(cs, Seq::empty()),
                size == span_size(cs.subrange(0, i as int)),
                span_size(cs) <= usize::MAX,
            decreases self.line@.len() - i,
        {
            proof {
                lemma_span_size_mono(cs, i + 1, cs.len() as int);
                assert(cs.subrange(0, i + 1).drop_last() =~= cs.subrange(0, i as int));
                assert(cs.subrange(0, cs.len() as int) =~= cs);
                let rest = cs.subrange(i as int, cs.len() as int);
                assert(rest[0] == self.line@[i as int]@);
                assert(rest.drop_first() =~= cs.subrange(i + 1, cs.len() as int));
            }
            let ghost last0 = last@;
            let ghost total0 = total@;
            let (text, n) = self.line[i].GetText(&mut last);
            total = concat(&total, &text);
            size = size + n;
            proof {
                let rest = cs.subrange(i as int, cs.len() as int);
                assert(total0 + rendered(rest, last0) == rendered(cs, Seq::empty()));
                assert(total@ + rendered(cs.subrange(i + 1, cs.len() as int), last@) =~= total0 + rendered(
                    rest,
                    last0,
                ));
            }
            i = i + 1;
        }
        proof {
            assert(cs.subrange(i as int, cs.len() as int) =~= Seq::<ColoredView>::empty());
            assert(total@ + Seq::<char>::empty() =~= total@);
            assert(cs.subrange(0, cs.len() as int) =~= cs);
        }
        (total, size)
    }
}

/// Are the two spans the same?
pub fn span_equal(a: &Span, b: &Span) -> (eq: bool)
    ensures
        eq == (a@ == b@),
{
    if a.line.len() != b.line.len() {
        proof {
            if a@ == b@ {
                assert(a@.len() == b@.len());
            }
        }
        return false;
    }
    let mut i: usize = 0;
    while i < a.line.len()
        invariant
            a.line@.len() == b.line@.len(),
            i <= a.line@.len(),
            forall|k: int| 0 <= k < i ==> a.line@[k]@ == b.line@[k]@,
        decreases a.line@.len() - i,
    {
        if !colored_equal(&a.line[i], &b.line[i]) {
            proof {
                if a@ == b@ {
                    assert(a@[i as int] == b@[i as int]);
                }
            }
            return false;
        }
        i = i + 1;
    }
    proof {
        assert(a@ =~= b@);
    }
    true
}

// ---------------------------------------------------------------- windows
/// The escape code that clears all colors.
pub open spec fn clear_code() -> Seq<char> {
    seq!['\x1b', '[', '0', 'm']
}

/// `n` copies of `c`.
pub open spec fn repeat(c: char, n: nat) -> Seq<char> {
    Seq::new(n, |_i: int| c)
}

/// The characters of `text` from `i` on, keeping escape codes whole and stopping before the
/// visible character that would make more than `max` of them (`visible` seen so far,
/// `esc` whether inside an escape code).
pub open spec fn clamp_from(text: Seq<char>, i: int, visible: nat, esc: bool, max: nat) -> Seq<char>
    decreases text.len() - i,
{
    if i < 0 || i >= text.len() {
        Seq::empty()
    } else {
        let c = text[i];
        if c == '\x1b' {
            seq![c] + clamp_from(text, i + 1, visible, true, max)
        } else if esc {
            seq![c] + clamp_from(text, i + 1, visible, c != 'm', max)
        } else if visible + 1 > max {
            Seq::empty()
        } else {
            seq![c] + clamp_from(text, i + 1, visible + 1, false, max)
        }
    }
}

/// `text` cut after `max` visible characters, escape codes kept.
pub open spec fn clamp_visible(text: Seq<char>, max: nat) -> Seq<char> {
    clamp_from(text, 0, 0, false, max)
}

fn clear() -> (s: String)
    ensures
        s@ == clear_code(),
{
    let mut s = escape_start();
    string_push(&mut s, 'm');
    proof {
        assert(s@ =~= clear_code());
    }
    s
}

/// Appends `n` copies of `c`.
fn push_repeat(s: &mut String, c: char, n: usize)
    ensures
        final(s)@ == old(s)@ + repeat(c, n as nat),
{
    let mut i: usize = 0;
    while i < n
        invariant
            i <= n,
            s@ == old(s)@ + repeat(c, i as nat),
        decreases n - i,
    {
        string_push(s, c);
        proof {
            assert(s@ =~= old(s)@ + repeat(c, (i + 1) as nat));
        }
        i = i + 1;
    }
}

/// A row of a window: its text cut to fit, padded with spaces, between side borders when
/// it is bordered (`color` being the border's color code).
pub open spec fn window_slice(color: Seq<char>, bordered: bool, text: Seq<char>, text_size: nat, width: nat) -> Seq<
    char,
> {
    let inner = if bordered {
        width - 2
    } else {
        width as int
    };
    let line = clamp_visible(text, inner as nat);
    let line_size = if text_size <= inner {
        text_size as int
    } else {
        inner
    };
    if bordered {
        color + seq!['│'] + clear_code() + line + clear_code() + repeat(' ', (inner - line_size) as nat) + color
            + seq!['│'] + clear_code()
    } else {
        line + clear_code() + repeat(' ', (inner - line_size) as nat)
    }
}

/// The bottom border of a window `width` wide.
pub open spec fn bottom_border(color: Seq<char>, width: nat) -> Seq<char> {
    color + seq!['└'] + repeat('─', (width - 2) as nat) + seq!['┘'] + clear_code()
}

/// The top border of a window `width` wide with a title in the middle.
pub open spec fn top_border(color: Seq<char>, title: Seq<char>, title_len: nat, width: nat) -> Seq<char> {
    let half = width / 2 - title_len / 2 - 1;
    color + seq!['┌'] + repeat('─', half as nat) + clear_code() + title + color + repeat(
        '─',
        (width - 2 - half - title_len) as nat,
    ) + seq!['┐'] + clear_code()
}

/// A rendered row and where it goes: text, column, row, depth.
pub type RenderJob = (String, u16, u16, u16);

pub open spec fn job_view(j: RenderJob) -> (Seq<char>, u16, u16, u16) {
    (j.0@, j.1, j.2, j.3)
}

pub open spec fn jobs_view(js: Seq<RenderJob>) -> Seq<(Seq<char>, u16, u16, u16)> {
    js.map_values(|j: RenderJob| job_view(j))
}

/// A block of the terminal that renders its own lines, with an optional border and title.
#[derive(Debug)]
pub struct Window {
    pub position: (u16, u16),
    pub depth: u16,
    pub size: (u16, u16),
    /// For each row, whether it is up to date on screen.
    pub updated: Vec<bool>,
    /// Whether the whole window is up to date on screen.
    pub wasUpdated: bool,
    /// Each line: its span, its last render and that render's number of visible characters.
    pub lines: Vec<(Span, String, usize)>,
    pub bordered: bool,
    /// The title and its number of visible characters.
    pub title: (Span, usize),
    pub color: Colored,
    pub hidden: bool,
}

/// The rows that must be redrawn with spaces while the window is hidden, from row `i` on.
pub open spec fn hidden_jobs(updated: Seq<bool>, i: int, width: u16, x: u16, y: u16) -> Seq<(Seq<char>, u16, u16, u16)>
    decreases updated.len() - i,
{
    if i < 0 || i >= updated.len() {
        Seq::empty()
    } else if updated[i] {
        hidden_jobs(updated, i + 1, width, x, y)
    } else {
        seq![(repeat(' ', width as nat), x, (y + i) as u16, 0u16)] + hidden_jobs(updated, i + 1, width, x, y)
    }
}

/// The text and size a row shows: its line rendered (with `b` border rows above), or
/// nothing past the last line.
pub open spec fn row_text(lines: Seq<(Span, String, usize)>, b: int, index: int) -> (Seq<char>, nat) {
    if 0 <= index - b < lines.len() {
        (rendered(lines[index - b].0@, Seq::empty()), span_size(lines[index - b].0@) as nat)
    } else {
        (Seq::empty(), 0)
    }
}

/// The rows from `index` to `end` that are out of date, rendered.
pub open spec fn row_jobs(
    updated: Seq<bool>,
    lines: Seq<(Span, String, usize)>,
    b: int,
    color: Seq<char>,
    bordered: bool,
    size: (u16, u16),
    position: (u16, u16),
    depth: u16,
    index: int,
    end: int,
) -> Seq<(Seq<char>, u16, u16, u16)>
    decreases end - index,
{
    if index >= end {
        Seq::empty()
    } else {
        let rest = row_jobs(updated, lines, b, color, bordered, size, position, depth, index + 1, end);
        if updated[index] {
            rest
        } else {
            let (t, n) = row_text(lines, b, index);
            seq![(window_slice(color, bordered, t, n, size.0 as nat), position.0, (position.1 + index) as u16, (depth + 1) as u16)]
                + rest
        }
    }
}

/// Some row from `index` to `end` is out of date.
pub open spec fn some_stale(updated: Seq<bool>, index: int, end: int) -> bool {
    exists|i: int| index <= i < end && !updated[i]
}

/// The rows `from..to` of a window without border as its lines' last renders show them,
/// each cut to `width` visible characters and padded with spaces to it.
pub open spec fn plain_rows(lines: Seq<(Span, String, usize)>, width: nat, from: int, to: int) -> Seq<Seq<char>>
    decreases to - from,
{
    if from >= to {
        Seq::empty()
    } else {
        let (t, n) = if 0 <= from < lines.len() {
            (lines[from].1@, lines[from].2 as nat)
        } else {
            (Seq::empty(), 0)
        };
        let shown = if n <= width {
            n
        } else {
            width
        };
        seq![clamp_visible(t, width) + repeat(' ', (width - shown) as nat)] + plain_rows(lines, width, from + 1, to)
    }
}

/// The rows `from..to` of a bordered window as its last renders show them.
pub open spec fn cached_rows(lines: Seq<(Span, String, usize)>, color: Seq<char>, width: nat, from: int, to: int) -> Seq<Seq<char>>
    decreases to - from,
{
    if from >= to {
        Seq::empty()
    } else {
        let (t, n) = if from <= lines.len() {
            (lines[from - 1].1@, lines[from - 1].2 as nat)
        } else {
            (Seq::empty(), 0)
        };
        seq![window_slice(color, true, t, n, width)] + cached_rows(lines, color, width, from + 1, to)
    }
}

/// The top border as a whole window's render draws it: the title after half the free width.
pub open spec fn render_top(color: Seq<char>, title: Seq<char>, title_len: nat, width: nat) -> Seq<char> {
    let split = (width - 2) / 2 - title_len / 2;
    let line_size = 1 + split + title_len;
    color + seq!['┌'] + repeat('─', split as nat) + title + repeat(
        '─',
        if width >= 1 + line_size { (width - 1 - line_size) as nat } else { 0 },
    ) + seq!['┐'] + clear_code()
}

/// The visible characters of `text` from `i` on whose positions (counted from 0) lie in
/// `start..end`, with every escape code before the end kept; `visible` characters come
/// before `i`.
pub open spec fn slice_from(text: Seq<char>, i: int, visible: nat, esc: bool, start: nat, end: nat) -> Seq<char>
    decreases text.len() - i,
{
    if i < 0 || i >= text.len() {
        Seq::empty()
    } else {
        let c = text[i];
        if c == '\x1b' {
            seq![c] + slice_from(text, i + 1, visible, true, start, end)
        } else if esc {
            seq![c] + slice_from(text, i + 1, visible, c != 'm', start, end)
        } else if visible >= start {
            if visible < end {
                seq![c] + slice_from(text, i + 1, visible + 1, false, start, end)
            } else {
                Seq::empty()
            }
        } else {
            slice_from(text, i + 1, visible + 1, false, start, end)
        }
    }
}

/// The visible characters at positions `start..end` (counted from 0) of `text`, keeping
/// the escape codes up to there.
pub fn GetSliceUTF_8(text: &str, start: usize, end: usize) -> (slice: String)
    ensures
        slice@ == slice_from(text@, 0, 0, false, start as nat, end as nat),
{
    let n = text.unicode_len();
    let mut out = String::new();
    let mut visible: usize = 0;
    let mut esc = false;
    let mut i: usize = 0;
    while i < n
        invariant
            n == text@.len(),
            i <= n,
            visible <= i,
            out@ + slice_from(text@, i as int, visible as nat, esc, start as nat, end as nat) == slice_from(
                text@,
                0,
                0,
                false,
                start as nat,
                end as nat,
            ),
        decreases n - i,
    {
        let c = text.get_char(i);
        let ghost out0 = out@;
        let ghost v0 = visible;
        let ghost e0 = esc;
        if c == '\x1b' {
            esc = true;
            string_push(&mut out, c);
        } else if esc {
            esc = c != 'm';
            string_push(&mut out, c);
        } else {
            let position = visible;
            visible = visible + 1;
            if position >= start {
                if position < end {
                    string_push(&mut out, c);
                } else {
                    proof {
                        assert(out@ + Seq::<char>::empty() =~= out@);
                    }
                    return out;
                }
            }
        }
        proof {
            let rest = slice_from(text@, i + 1, visible as nat, esc, start as nat, end as nat);
            if c == '\x1b' || e0 || v0 >= start {
                assert(out@ + rest =~= out0 + (seq![c] + rest));
            }
        }
        i = i + 1;
    }
    proof {
        assert(out@ + Seq::<char>::empty() =~= out@);
    }
    out
}

impl Window {
    /// Every row knows whether it is up to date, every line fits in a `usize`, and the
    /// title's size is the number of its visible characters.
    pub open spec fn wf(&self) -> bool {
        &&& self.updated@.len() >= self.size.1
        &&& forall|i: int| 0 <= i < self.lines@.len() ==> span_size(#[trigger] self.lines@[i].0@) <= usize::MAX
        &&& self.title.1 == span_size(self.title.0@)
    }

    /// All rows are marked out of date, and so is the window.
    pub open spec fn all_stale(&self) -> bool {
        &&& forall|i: int| 0 <= i < self.updated@.len() ==> !#[trigger] self.updated@[i]
        &&& !self.wasUpdated
    }

    /// An empty, uncolored window without border or title.
    pub fn new(position: (u16, u16), depth: u16, size: (u16, u16)) -> (w: Window)
        ensures
            w.wf(),
            w.position == position,
            w.depth == depth,
            w.size == size,
            w.updated@.len() == size.1,
            w.all_stale(),
            w.lines@.len() == 0,
            !w.bordered,
            w.title.1 == 0,
            w.title.0@.len() == 0,
            w.color@ == (Seq::<char>::empty(), Seq::<Seq<char>>::empty(), None::<Seq<char>>, None::<Seq<char>>),
            !w.hidden,
    {
        let mut updated: Vec<bool> = Vec::new();
        let mut i: u16 = 0;
        while i < size.1
            invariant
                i <= size.1,
                updated@.len() == i,
                forall|k: int| 0 <= k < i ==> !#[trigger] updated@[k],
            decreases size.1 - i,
        {
            updated.push(false);
            i = i + 1;
        }
        let w = Window {
            position,
            depth,
            size,
            updated,
            wasUpdated: false,
            lines: Vec::new(),
            bordered: false,
            title: (Span { line: Vec::new() }, 0),
            color: Colored::new(String::new()),
            hidden: false,
        };
        proof {
            assert(w.title.0@ =~= Seq::<ColoredView>::empty());
        }
        w
    }

    /// Marks every row, and the window, out of date.
    pub fn UpdateAll(&mut self)
        ensures
            final(self).all_stale(),
            final(self).updated@.len() == old(self).updated@.len(),
            final(self).lines == old(self).lines,
            final(self).size == old(self).size,
            final(self).position == old(self).position,
            final(self).depth == old(self).depth,
            final(self).bordered == old(self).bordered,
            final(self).title == old(self).title,
            final(self).color == old(self).color,
            final(self).hidden == old(self).hidden,
    {
        let mut i: usize = 0;
        while i < self.updated.len()
            invariant
                i <= self.updated@.len(),
                self.updated@.len() == old(self).updated@.len(),
                forall|k: int| 0 <= k < i ==> !#[trigger] self.updated@[k],
                self.lines == old(self).lines,
                self.size == old(self).size,
                self.position == old(self).position,
                self.depth == old(self).depth,
                self.bordered == old(self).bordered,
                self.title == old(self).title,
                self.color == old(self).color,
                self.hidden == old(self).hidden,
            decreases self.updated@.len() - i,
        {
            self.updated.set(i, false);
            i = i + 1;
        }
        self.wasUpdated = false;
    }

    /// Marks every row, and the window, up to date.
    pub fn SupressUpdates(&mut self)
        ensures
            old(self).wf() ==> final(self).wf(),
            final(self).position == old(self).position,
            final(self).depth == old(self).depth,
            final(self).title == old(self).title,
            final(self).color == old(self).color,
            forall|i: int| 0 <= i < final(self).updated@.len() ==> #[trigger] final(self).updated@[i],
            final(self).wasUpdated,
            final(self).updated@.len() == old(self).updated@.len(),
            final(self).lines == old(self).lines,
            final(self).size == old(self).size,
            final(self).bordered == old(self).bordered,
            final(self).hidden == old(self).hidden,
    {
        let mut i: usize = 0;
        while i < self.updated.len()
            invariant
                i <= self.updated@.len(),
                self.updated@.len() == old(self).updated@.len(),
                forall|k: int| 0 <= k < i ==> #[trigger] self.updated@[k],
                self.lines == old(self).lines,
                self.size == old(self).size,
                self.bordered == old(self).bordered,
                self.hidden == old(self).hidden,
                self.position == old(self).position,
                self.depth == old(self).depth,
                self.title == old(self).title,
                self.color == old(self).color,
            decreases self.updated@.len() - i,
        {
            self.updated.set(i, true);
            i = i + 1;
        }
        self.wasUpdated = true;
    }

    /// Hides the window (everything is to be redrawn); false when it already was hidden.
    pub fn Hide(&mut self) -> (changed: bool)
        requires
            old(self).wf(),
        ensures
            final(self).updated@.len() == old(self).updated@.len(),
            final(self).position == old(self).position,
            final(self).depth == old(self).depth,
            final(self).title == old(self).title,
            final(self).bordered == old(self).bordered,
            final(self).color == old(self).color,
            final(self).wf(),
            changed == !old(self).hidden,
            final(self).hidden,
            changed ==> final(self).all_stale(),
            !changed ==> final(self).updated == old(self).updated && final(self).wasUpdated == old(self).wasUpdated,
            final(self).lines == old(self).lines,
            final(self).size == old(self).size,
    {
        if self.hidden {
            return false;
        }
        self.hidden = true;
        self.UpdateAll();
        true
    }

    /// Shows the window (everything is to be redrawn); false when it already was shown.
    pub fn Show(&mut self) -> (changed: bool)
        requires
            old(self).wf(),
        ensures
            final(self).updated@.len() == old(self).updated@.len(),
            final(self).position == old(self).position,
            final(self).depth == old(self).depth,
            final(self).title == old(self).title,
            final(self).bordered == old(self).bordered,
            final(self).color == old(self).color,
            final(self).wf(),
            changed == old(self).hidden,
            !final(self).hidden,
            changed ==> final(self).all_stale(),
            !changed ==> final(self).updated == old(self).updated && final(self).wasUpdated == old(self).wasUpdated,
            final(self).lines == old(self).lines,
            final(self).size == old(self).size,
    {
        if !self.hidden {
            return false;
        }
        self.hidden = false;
        self.UpdateAll();
        true
    }

    /// Moves the window; everything is to be redrawn unless it stays in place.
    pub fn Move(&mut self, newPosition: (u16, u16))
        requires
            old(self).wf(),
        ensures
            final(self).updated@.len() == old(self).updated@.len(),
            final(self).depth == old(self).depth,
            final(self).title == old(self).title,
            final(self).bordered == old(self).bordered,
            final(self).color == old(self).color,
            final(self).hidden == old(self).hidden,
            final(self).wf(),
            final(self).position == newPosition,
            newPosition != old(self).position ==> final(self).all_stale(),
            newPosition == old(self).position ==> final(self).updated == old(self).updated
                && final(self).wasUpdated == old(self).wasUpdated,
            final(self).lines == old(self).lines,
            final(self).size == old(self).size,
    {
        if newPosition.0 == self.position.0 && newPosition.1 == self.position.1 {
            return;
        }
        self.position = newPosition;
        self.UpdateAll();
    }

    /// Adds colors to the window's border; everything is to be redrawn.
    pub fn Colorizes(&mut self, colors: Vec<ColorType>, mode: ColorMode)
        requires
            old(self).wf(),
        ensures
            final(self).wf(),
            final(self).color@ == with_colors(old(self).color@, colors@, mode),
            final(self).all_stale(),
            final(self).lines == old(self).lines,
            final(self).size == old(self).size,
    {
        let mut i: usize = 0;
        let ghost c0 = self.color@;
        while i < colors.len()
            invariant
                i <= colors@.len(),
                self.color@ == with_colors(c0, colors@.subrange(0, i as int), mode),
                self.wf(),
                self.lines == old(self).lines,
                self.size == old(self).size,
                self.updated == old(self).updated,
            decreases colors@.len() - i,
        {
            self.color.AddColor(colors[i], mode);
            proof {
                assert(colors@.subrange(0, i + 1).drop_last() =~= colors@.subrange(0, i as int));
            }
            i = i + 1;
        }
        proof {
            assert(colors@.subrange(0, colors@.len() as int) =~= colors@);
        }
        self.UpdateAll();
    }

    /// Adds a color to the window's border; everything is to be redrawn.
    pub fn Colorize(&mut self, color: ColorType, mode: ColorMode)
        requires
            old(self).wf(),
        ensures
            final(self).wf(),
            final(self).color@ == with_meaning(old(self).color@, color_meaning(color, mode)),
            final(self).all_stale(),
            final(self).lines == old(self).lines,
            final(self).size == old(self).size,
    {
        self.color.AddColor(color, mode);
        self.UpdateAll();
    }

    /// Adds a color to the border unless it already has it (see `Colored::Contains`);
    /// whether it was added.
    pub fn TryColorize(&mut self, color: ColorType, mode: ColorMode) -> (added: bool)
        requires
            old(self).wf(),
        ensures
            final(self).updated@.len() == old(self).updated@.len(),
            final(self).position == old(self).position,
            final(self).depth == old(self).depth,
            final(self).title == old(self).title,
            final(self).bordered == old(self).bordered,
            final(self).hidden == old(self).hidden,
            final(self).wf(),
            ({
                let (mc, mm, is_bg) = color_meaning(color, mode);
                let c = old(self).color@;
                added == !(mc == c.3 && is_bg || (c.2 is Some && mc is Some && contains_seq(c.2.unwrap(), mc.unwrap()))
                    || exists|i: int| 0 <= i < mm.len() && c.1.contains(#[trigger] mm[i]))
            }),
            added ==> final(self).color@ == with_meaning(old(self).color@, color_meaning(color, mode))
                && final(self).all_stale(),
            !added ==> final(self).color == old(self).color && final(self).updated == old(self).updated
                && final(self).wasUpdated == old(self).wasUpdated,
            final(self).lines == old(self).lines,
            final(self).size == old(self).size,
    {
        if self.color.Contains(&color, mode) {
            return false;
        }
        self.color.AddColor(color, mode);
        self.UpdateAll();
        true
    }

    /// Removes the border's colors; false when it had none.
    pub fn ClearColors(&mut self) -> (cleared: bool)
        requires
            old(self).wf(),
        ensures
            final(self).updated@.len() == old(self).updated@.len(),
            final(self).position == old(self).position,
            final(self).depth == old(self).depth,
            final(self).title == old(self).title,
            final(self).bordered == old(self).bordered,
            final(self).hidden == old(self).hidden,
            final(self).wf(),
            cleared == !(old(self).color@.1.len() == 0 && old(self).color@.2 is None && old(self).color@.3 is None),
            cleared ==> final(self).color@ == (Seq::<char>::empty(), Seq::<Seq<char>>::empty(), None::<Seq<char>>, None::<Seq<char>>)
                && final(self).all_stale(),
            !cleared ==> final(self).color == old(self).color && final(self).updated == old(self).updated
                && final(self).wasUpdated == old(self).wasUpdated,
            final(self).lines == old(self).lines,
            final(self).size == old(self).size,
    {
        if self.color.IsUncolored() {
            return false;
        }
        self.color = Colored::new(String::new());
        self.UpdateAll();
        true
    }

    /// Gives the window a border.
    pub fn Bordered(&mut self)
        ensures
            final(self).updated@.len() == old(self).updated@.len(),
            final(self).position == old(self).position,
            final(self).depth == old(self).depth,
            final(self).title == old(self).title,
            final(self).color == old(self).color,
            final(self).hidden == old(self).hidden,
            final(self).bordered,
            final(self).lines == old(self).lines,
            final(self).size == old(self).size,
            final(self).updated == old(self).updated,
            final(self).wasUpdated == old(self).wasUpdated,
    {
        self.bordered = true;
    }

    /// Whether the window has a (non-empty) title.
    pub fn HasTitle(&self) -> (b: bool)
        ensures
            b == (self.title.1 != 0),
    {
        self.title.1 != 0
    }

    /// Whether the window has no lines.
    pub fn IsEmpty(&self) -> (b: bool)
        ensures
            b == (self.lines@.len() == 0),
    {
        self.lines.len() == 0
    }

    /// Sets an uncolored title; the top row is to be redrawn.
    pub fn Titled(&mut self, title: String)
        requires
            old(self).wf(),
            old(self).updated@.len() > 0,
        ensures
            final(self).wf(),
            final(self).title.0@ == seq![(title@, Seq::<Seq<char>>::empty(), None::<Seq<char>>, None::<Seq<char>>)],
            final(self).title.1 == title@.len(),
            !final(self).wasUpdated,
            final(self).updated@ == old(self).updated@.update(0, false),
            final(self).lines == old(self).lines,
            final(self).size == old(self).size,
            final(self).bordered == old(self).bordered,
            final(self).color == old(self).color,
            final(self).position == old(self).position,
            final(self).depth == old(self).depth,
            final(self).hidden == old(self).hidden,
    {
        let n = char_len(&title);
        let c = Colored::new(title);
        let line = vec![c];
        self.title = (Span { line }, n);
        self.wasUpdated = false;
        self.updated.set(0, false);
        proof {
            let t = seq![(title@, Seq::<Seq<char>>::empty(), None::<Seq<char>>, None::<Seq<char>>)];
            assert(self.title.0@ =~= t);
            assert(t.drop_last() =~= Seq::<ColoredView>::empty());
            assert(span_size(Seq::<ColoredView>::empty()) == 0);
            assert(t.last().0 == title@);
            assert(span_size(t) == span_size(t.drop_last()) + t.last().0.len());
        }
    }

    /// Sets a colored title; the top row is to be redrawn.
    pub fn TitledColored(&mut self, title: Span)
        requires
            old(self).wf(),
            old(self).updated@.len() > 0,
            span_size(title@) <= usize::MAX,
        ensures
            final(self).position == old(self).position,
            final(self).depth == old(self).depth,
            final(self).bordered == old(self).bordered,
            final(self).color == old(self).color,
            final(self).hidden == old(self).hidden,
            final(self).wf(),
            final(self).title.0@ == title@,
            final(self).title.1 == span_size(title@),
            !final(self).wasUpdated,
            final(self).updated@ == old(self).updated@.update(0, false),
            final(self).lines == old(self).lines,
            final(self).size == old(self).size,
    {
        let n = title.Size();
        self.title = (title, n);
        self.wasUpdated = false;
        self.updated.set(0, false);
    }

    /// Changes the size; unless it stays the same, every row is out of date and there are
    /// as many rows as the new height.
    pub fn Resize(&mut self, changed: (u16, u16))
        requires
            old(self).wf(),
        ensures
            final(self).position == old(self).position,
            final(self).depth == old(self).depth,
            final(self).title == old(self).title,
            final(self).bordered == old(self).bordered,
            final(self).color == old(self).color,
            final(self).hidden == old(self).hidden,
            final(self).wf(),
            final(self).size == changed,
            changed != old(self).size ==> final(self).updated@.len() == changed.1 && final(self).all_stale(),
            changed == old(self).size ==> final(self).updated == old(self).updated
                && final(self).wasUpdated == old(self).wasUpdated,
            final(self).lines == old(self).lines,
    {
        if self.size.0 == changed.0 && self.size.1 == changed.1 {
            return;
        }
        self.size = changed;
        let mut updated: Vec<bool> = Vec::new();
        let mut i: u16 = 0;
        while i < changed.1
            invariant
                i <= changed.1,
                updated@.len() == i,
            decreases changed.1 - i,
        {
            updated.push(false);
            i = i + 1;
        }
        self.updated = updated;
        self.UpdateAll();
    }

    /// `text` cut after `maxLength` visible characters, escape codes kept whole.
    pub fn ClampStringVisibleUTF_8(text: &str, maxLength: usize) -> (res: String)
        ensures
            res@ == clamp_visible(text@, maxLength as nat),
    {
        let n = text.unicode_len();
        let mut out = String::new();
        let mut visible: usize = 0;
        let mut esc = false;
        let mut i: usize = 0;
        while i < n
            invariant
                n == text@.len(),
                i <= n,
                visible <= i,
                out@ + clamp_from(text@, i as int, visible as nat, esc, maxLength as nat) == clamp_visible(
                    text@,
                    maxLength as nat,
                ),
            decreases n - i,
        {
            let c = text.get_char(i);
            let ghost out0 = out@;
            if c == '\x1b' {
                esc = true;
            } else if esc {
                if c == 'm' {
                    esc = false;
                }
            } else {
                if visible + 1 > maxLength {
                    proof {
                        assert(out@ + Seq::<char>::empty() =~= out@);
                    }
                    return out;
                }
                visible = visible + 1;
            }
            string_push(&mut out, c);
            proof {
                assert(out@ + clamp_from(text@, i + 1, visible as nat, esc, maxLength as nat) =~= out0 + (seq![c]
                    + clamp_from(text@, i + 1, visible as nat, esc, maxLength as nat)));
            }
            i = i + 1;
        }
        proof {
            assert(out@ + Seq::<char>::empty() =~= out@);
        }
        out
    }

    /// One row of a window (see `window_slice`).
    pub fn RenderWindowSlice(color: (String, usize), bordered: bool, renderText: (String, usize), size: (u16, u16)) -> (text: String)
        requires
            bordered ==> size.0 >= 2,
        ensures
            text@ == window_slice(color.0@, bordered, renderText.0@, renderText.1 as nat, size.0 as nat),
    {
        let inner: usize = if bordered {
            size.0 as usize - 2
        } else {
            size.0 as usize
        };
        let lineText = Window::ClampStringVisibleUTF_8(renderText.0.as_str(), inner);
        let lineSize = if renderText.1 <= inner {
            renderText.1
        } else {
            inner
        };
        let mut text = String::new();
        if bordered {
            text = concat(&text, &color.0);
            string_push(&mut text, '│');
            text = concat(&text, &clear());
            text = concat(&text, &lineText);
            text = concat(&text, &clear());
            push_repeat(&mut text, ' ', inner - lineSize);
            text = concat(&text, &color.0);
            string_push(&mut text, '│');
            text = concat(&text, &clear());
        } else {
            text = concat(&text, &lineText);
            text = concat(&text, &clear());
            push_repeat(&mut text, ' ', inner - lineSize);
        }
        proof {
            assert(text@ =~= window_slice(color.0@, bordered, renderText.0@, renderText.1 as nat, size.0 as nat));
        }
        text
    }

    /// Replaces line `index` (nothing past the last line); its row is to be redrawn.
    pub fn UpdateLine(&mut self, index: usize, span: Span)
        requires
            old(self).wf(),
            index < old(self).lines@.len() ==> index < old(self).updated@.len(),
            span_size(span@) <= usize::MAX,
        ensures
            final(self).wf(),
            index < old(self).lines@.len() ==> {
                &&& final(self).lines@.len() == old(self).lines@.len()
                &&& final(self).lines@[index as int].0@ == span@
                &&& final(self).lines@[index as int].1@.len() == 0
                &&& final(self).lines@[index as int].2 == 0
                &&& forall|i: int| 0 <= i < final(self).lines@.len() && i != index ==> #[trigger] final(self).lines@[i] == old(self).lines@[i]
                &&& final(self).updated@ == old(self).updated@.update(index as int, false)
                &&& !final(self).wasUpdated
            },
            index >= old(self).lines@.len() ==> final(self).lines == old(self).lines && final(self).updated
                == old(self).updated && final(self).wasUpdated == old(self).wasUpdated,
            final(self).size == old(self).size,
    {
        if index >= self.lines.len() {
            return;
        }
        self.lines.set(index, (span, String::new(), 0));
        self.updated.set(index, false);
        self.wasUpdated = false;
    }

    /// Appends a line, with a row marker for it; the window is to be redrawn.
    pub fn AddLine(&mut self, span: Span)
        requires
            old(self).wf(),
            span_size(span@) <= usize::MAX,
        ensures
            final(self).wf(),
            final(self).lines@.len() == old(self).lines@.len() + 1,
            final(self).lines@.drop_last() == old(self).lines@,
            final(self).lines@.last().0@ == span@,
            final(self).lines@.last().1@.len() == 0,
            final(self).lines@.last().2 == 0,
            final(self).updated@ == old(self).updated@.push(false),
            !final(self).wasUpdated,
            final(self).size == old(self).size,
    {
        self.lines.push((span, String::new(), 0));
        self.updated.push(false);
        self.wasUpdated = false;
        proof {
            assert(self.lines@.drop_last() =~= old(self).lines@);
        }
    }

    /// The number of border rows on each side (1 with a border, else 0).
    pub open spec fn border_rows(&self) -> int {
        if self.bordered {
            1
        } else {
            0
        }
    }

    /// Replaces the lines; the rows they go to are to be redrawn.
    pub fn FromLines(&mut self, lines: Vec<Span>)
        requires
            old(self).wf(),
            old(self).border_rows() + lines@.len() <= old(self).updated@.len(),
            forall|i: int| 0 <= i < lines@.len() ==> span_size(#[trigger] lines@[i]@) <= usize::MAX,
        ensures
            final(self).wf(),
            final(self).lines@.len() == lines@.len(),
            forall|i: int|
                0 <= i < lines@.len() ==> (#[trigger] final(self).lines@[i]).0@ == lines@[i]@
                    && final(self).lines@[i].1@.len() == 0 && final(self).lines@[i].2 == 0,
            final(self).updated@.len() == old(self).updated@.len(),
            forall|i: int|
                0 <= i < final(self).updated@.len() ==> #[trigger] final(self).updated@[i] == if old(self).border_rows() <= i < old(self).border_rows() + lines@.len() {
                    false
                } else {
                    old(self).updated@[i]
                },
            final(self).wasUpdated == (old(self).wasUpdated && lines@.len() == 0),
            final(self).size == old(self).size,
            final(self).bordered == old(self).bordered,
    {
        let b: usize = if self.bordered {
            1
        } else {
            0
        };
        self.lines.clear();
        let mut k: usize = 0;
        let mut spans = lines;
        let ghost all = spans@;
        let mut rev: Vec<Span> = Vec::new();
        while spans.len() > 0
            invariant
                rev@.len() + spans@.len() == all.len(),
                forall|i: int| 0 <= i < rev@.len() ==> (#[trigger] rev@[i])@ == all[all.len() - 1 - i]@,
                spans@ == all.subrange(0, spans@.len() as int),
            decreases spans@.len(),
        {
            let sp = spans.pop().unwrap();
            rev.push(sp);
        }
        while rev.len() > 0
            invariant
                self.wf(),
                self.bordered == old(self).bordered,
                self.size == old(self).size,
                b == old(self).border_rows(),
                b + all.len() <= self.updated@.len(),
                self.updated@.len() == old(self).updated@.len(),
                k == self.lines@.len(),
                k + rev@.len() == all.len(),
                forall|i: int| 0 <= i < rev@.len() ==> (#[trigger] rev@[i])@ == all[all.len() - 1 - i]@,
                forall|i: int| 0 <= i < all.len() ==> span_size(#[trigger] all[i]@) <= usize::MAX,
                forall|i: int|
                    0 <= i < k ==> (#[trigger] self.lines@[i]).0@ == all[i]@ && self.lines@[i].1@.len()
                        == 0 && self.lines@[i].2 == 0,
                forall|i: int|
                    0 <= i < self.updated@.len() ==> #[trigger] self.updated@[i] == if b <= i < b + k {
                        false
                    } else {
                        old(self).updated@[i]
                    },
                self.wasUpdated == (old(self).wasUpdated && k == 0),
            decreases rev@.len(),
        {
            let ulen = self.updated.len();
            let sp = rev.pop().unwrap();
            proof {
                assert(sp@ == all[k as int]@);
            }
            self.lines.push((sp, String::new(), 0));
            self.updated.set(b + k, false);
            self.wasUpdated = false;
            k = k + 1;
        }
    }

    /// Takes new lines. With a different number of lines, everything is to be redrawn and
    /// the lines (as many as there are rows) replace the old ones; otherwise only the lines
    /// that differ are replaced and their rows are to be redrawn.
    pub fn TryUpdateLines(&mut self, lines: Vec<Span>)
        requires
            old(self).wf(),
            forall|i: int| 0 <= i < lines@.len() ==> span_size(#[trigger] lines@[i]@) <= usize::MAX,
            lines@.len() == old(self).lines@.len() ==> forall|i: int|
                0 <= i < lines@.len() && lines@[i]@ != old(self).lines@[i].0@ ==> i + old(self).border_rows()
                    < old(self).updated@.len(),
        ensures
            final(self).position == old(self).position,
            final(self).depth == old(self).depth,
            final(self).title == old(self).title,
            final(self).color == old(self).color,
            final(self).hidden == old(self).hidden,
            final(self).wf(),
            final(self).size == old(self).size,
            final(self).bordered == old(self).bordered,
            final(self).updated@.len() == old(self).updated@.len(),
            lines@.len() != old(self).lines@.len() ==> {
                let n = if lines@.len() <= old(self).updated@.len() {
                    lines@.len()
                } else {
                    old(self).updated@.len()
                };
                &&& final(self).all_stale()
                &&& final(self).lines@.len() == n
                &&& forall|i: int|
                    0 <= i < n ==> (#[trigger] final(self).lines@[i]).0@ == lines@[i]@ && final(self).lines@[i].1@.len() == 0 && final(self).lines@[i].2 == 0
            },
            lines@.len() == old(self).lines@.len() ==> {
                &&& final(self).lines@.len() == lines@.len()
                &&& forall|i: int|
                    0 <= i < lines@.len() ==> if lines@[i]@ != old(self).lines@[i].0@ {
                        &&& (#[trigger] final(self).lines@[i]).0@ == lines@[i]@
                        &&& final(self).lines@[i].1@.len() == 0
                        &&& final(self).lines@[i].2 == 0
                    } else {
                        final(self).lines@[i] == old(self).lines@[i]
                    }
                &&& forall|i: int|
                    0 <= i < final(self).updated@.len() ==> #[trigger] final(self).updated@[i] == (old(self).updated@[i] && !(old(self).border_rows() <= i < old(self).border_rows() + lines@.len()
                        && lines@[i - old(self).border_rows()]@ != old(self).lines@[i - old(self).border_rows()].0@))
                &&& final(self).wasUpdated == (old(self).wasUpdated && forall|i: int|
                    0 <= i < lines@.len() ==> lines@[i]@ == old(self).lines@[i].0@)
            },
    {
        let b: usize = if self.bordered {
            1
        } else {
            0
        };
        let ghost all = lines@;
        if lines.len() != self.lines.len() {
            self.UpdateAll();
            self.wasUpdated = false;
            self.lines.clear();
            let mut spans = lines;
            let mut rev: Vec<Span> = Vec::new();
            while spans.len() > 0
                invariant
                    rev@.len() + spans@.len() == all.len(),
                    forall|i: int| 0 <= i < rev@.len() ==> (#[trigger] rev@[i])@ == all[all.len() - 1 - i]@,
                    spans@ == all.subrange(0, spans@.len() as int),
                decreases spans@.len(),
            {
                let sp = spans.pop().unwrap();
                rev.push(sp);
            }
            let mut index: usize = 0;
            while rev.len() > 0
                invariant
                    self.wf(),
                    self.all_stale(),
                    self.size == old(self).size,
                    self.bordered == old(self).bordered,
                    self.updated@.len() == old(self).updated@.len(),
                    self.position == old(self).position,
                    self.depth == old(self).depth,
                    self.title == old(self).title,
                    self.color == old(self).color,
                    self.hidden == old(self).hidden,
                    index == self.lines@.len(),
                    index + rev@.len() == all.len(),
                    index <= self.updated@.len(),
                    forall|i: int| 0 <= i < rev@.len() ==> (#[trigger] rev@[i])@ == all[all.len() - 1 - i]@,
                    forall|i: int| 0 <= i < all.len() ==> span_size(#[trigger] all[i]@) <= usize::MAX,
                    forall|i: int|
                        0 <= i < index ==> (#[trigger] self.lines@[i]).0@ == all[i]@ && self.lines@[i].1@.len()
                            == 0 && self.lines@[i].2 == 0,
                ensures
                    self.wf(),
                    self.all_stale(),
                    self.size == old(self).size,
                    self.bordered == old(self).bordered,
                    self.updated@.len() == old(self).updated@.len(),
                    self.position == old(self).position,
                    self.depth == old(self).depth,
                    self.title == old(self).title,
                    self.color == old(self).color,
                    self.hidden == old(self).hidden,
                    self.lines@.len() == if all.len() <= self.updated@.len() {
                        all.len()
                    } else {
                        self.updated@.len() as nat
                    },
                    forall|i: int|
                        0 <= i < self.lines@.len() ==> (#[trigger] self.lines@[i]).0@ == all[i]@
                            && self.lines@[i].1@.len() == 0 && self.lines@[i].2 == 0,
                decreases rev@.len(),
            {
                if index >= self.updated.len() {
                    break;
                }
                let sp = rev.pop().unwrap();
                proof {
                    assert(sp@ == all[index as int]@);
                }
                self.lines.push((sp, String::new(), 0));
                index = index + 1;
            }
            return;
        }
        let n = lines.len();
        let mut spans = lines;
        let mut index = n;
        while spans.len() > 0
            invariant
                self.wf(),
                self.size == old(self).size,
                self.bordered == old(self).bordered,
                self.position == old(self).position,
                self.depth == old(self).depth,
                self.title == old(self).title,
                self.color == old(self).color,
                self.hidden == old(self).hidden,
                b == old(self).border_rows(),
                n == all.len(),
                n == old(self).lines@.len(),
                self.lines@.len() == n,
                self.updated@.len() == old(self).updated@.len(),
                index == spans@.len(),
                index <= n,
                spans@ == all.subrange(0, index as int),
                forall|i: int| 0 <= i < all.len() ==> span_size(#[trigger] all[i]@) <= usize::MAX,
                forall|i: int|
                    0 <= i < n && all[i]@ != old(self).lines@[i].0@ ==> i + b < self.updated@.len(),
                forall|i: int|
                    0 <= i < n ==> if i < index {
                        #[trigger] self.lines@[i] == old(self).lines@[i]
                    } else if all[i]@ != old(self).lines@[i].0@ {
                        &&& (#[trigger] self.lines@[i]).0@ == all[i]@
                        &&& self.lines@[i].1@.len() == 0
                        &&& self.lines@[i].2 == 0
                    } else {
                        self.lines@[i] == old(self).lines@[i]
                    },
                forall|i: int|
                    0 <= i < self.updated@.len() ==> #[trigger] self.updated@[i] == (old(self).updated@[i]
                        && !(b + index <= i < b + n && all[i - b]@ != old(self).lines@[i - b].0@)),
                self.wasUpdated == (old(self).wasUpdated && forall|i: int|
                    index <= i < n ==> all[i]@ == old(self).lines@[i].0@),
            decreases spans@.len(),
        {
            let sp = spans.pop().unwrap();
            index = index - 1;
            proof {
                assert(sp@ == all[index as int]@);
            }
            if !span_equal(&self.lines[index].0, &sp) {
                self.lines.set(index, (sp, String::new(), 0));
                self.updated.set(index + b, false);
                self.wasUpdated = false;
            }
        }
    }

    /// The code that colors the border: the border color's escape code and its text.
    pub open spec fn border_code(&self) -> Seq<char> {
        escape_of(self.color@) + self.color@.0
    }

    /// Renders row `index` (with `b` border rows above), remembering the render of its line,
    /// and marks the row up to date.
    fn render_row(&mut self, index: usize, b: usize, color: &(String, usize)) -> (job: RenderJob)
        requires
            old(self).wf(),
            b == old(self).border_rows(),
            b <= index < old(self).updated@.len(),
            old(self).position.1 + old(self).updated@.len() <= 65536,
            old(self).depth < 65535,
            old(self).bordered ==> old(self).size.0 >= 2,
        ensures
            final(self).wf(),
            ({
                let (t, n) = row_text(old(self).lines@, b as int, index as int);
                job_view(job) == (window_slice(color.0@, old(self).bordered, t, n, old(self).size.0 as nat), old(self).position.0, (old(self).position.1 + index) as u16, (old(self).depth + 1) as u16)
            }),
            final(self).updated@ == old(self).updated@.update(index as int, true),
            final(self).lines@.len() == old(self).lines@.len(),
            forall|i: int| 0 <= i < old(self).lines@.len() ==> (#[trigger] final(self).lines@[i]).0 == old(self).lines@[i].0,
            forall|i: int| 0 <= i < old(self).lines@.len() && i != index - b ==> #[trigger] final(self).lines@[i] == old(self).lines@[i],
            0 <= index - b < old(self).lines@.len() ==> {
                &&& final(self).lines@[index - b].1@ == rendered(old(self).lines@[index - b].0@, Seq::empty())
                &&& final(self).lines@[index - b].2 == span_size(old(self).lines@[index - b].0@)
            },
            final(self).size == old(self).size,
            final(self).position == old(self).position,
            final(self).depth == old(self).depth,
            final(self).bordered == old(self).bordered,
            final(self).hidden == old(self).hidden,
            final(self).title == old(self).title,
            final(self).color == old(self).color,
            final(self).wasUpdated == old(self).wasUpdated,
    {
        self.updated.set(index, true);
        let (text, size) = if index - b < self.lines.len() {
            let k = index - b;
            let (text, size) = self.lines[k].0.Join();
            let (sp, _stale_text, _stale_size) = self.lines.remove(k);
            self.lines.insert(k, (sp, text.clone(), size));
            (text, size)
        } else {
            (String::new(), 0)
        };
        let row = Window::RenderWindowSlice((color.0.clone(), color.1), self.bordered, (text, size), self.size);
        (row, self.position.0, self.position.1 + index as u16, self.depth + 1)
    }

    /// The rows of a hidden window that are out of date, as spaces; they are then up to date.
    fn HandleHiddenClosure(&mut self) -> (jobs: Vec<RenderJob>)
        requires
            old(self).wf(),
            old(self).position.1 + old(self).updated@.len() <= 65536,
        ensures
            final(self).wf(),
            jobs_view(jobs@) == hidden_jobs(old(self).updated@, 0, old(self).size.0, old(self).position.0, old(self).position.1),
            final(self).wasUpdated,
            final(self).updated@.len() == old(self).updated@.len(),
            forall|i: int| 0 <= i < final(self).updated@.len() ==> #[trigger] final(self).updated@[i],
            final(self).lines == old(self).lines,
            final(self).size == old(self).size,
            final(self).hidden == old(self).hidden,
            final(self).bordered == old(self).bordered,
            final(self).position == old(self).position,
            final(self).depth == old(self).depth,
            final(self).title == old(self).title,
            final(self).color == old(self).color,
    {
        self.wasUpdated = true;
        let ghost u0 = self.updated@;
        let ghost total = hidden_jobs(u0, 0, self.size.0, self.position.0, self.position.1);
        let mut jobs: Vec<RenderJob> = Vec::new();
        let mut i: usize = 0;
        while i < self.updated.len()
            invariant
                self.wf(),
                i <= self.updated@.len(),
                self.updated@.len() == u0.len(),
                self.position.1 + u0.len() <= 65536,
                forall|k: int| 0 <= k < i ==> #[trigger] self.updated@[k],
                forall|k: int| i <= k < u0.len() ==> #[trigger] self.updated@[k] == u0[k],
                jobs_view(jobs@) + hidden_jobs(u0, i as int, self.size.0, self.position.0, self.position.1) == total,
                self.wasUpdated,
                self.lines == old(self).lines,
                self.size == old(self).size,
                self.position == old(self).position,
                self.hidden == old(self).hidden,
                self.bordered == old(self).bordered,
                self.depth == old(self).depth,
                self.title == old(self).title,
                self.color == old(self).color,
            decreases self.updated@.len() - i,
        {
            let ghost j0 = jobs_view(jobs@);
            if !self.updated[i] {
                self.updated.set(i, true);
                let mut blank = String::new();
                push_repeat(&mut blank, ' ', self.size.0 as usize);
                proof {
                    assert(Seq::<char>::empty() + repeat(' ', self.size.0 as nat) =~= repeat(' ', self.size.0 as nat));
                }
                jobs.push((blank, self.position.0, self.position.1 + i as u16, 0));
                proof {
                    assert(jobs_view(jobs@) =~= j0.push((repeat(' ', self.size.0 as nat), self.position.0, (self.position.1 + i) as u16, 0u16)));
                    assert(jobs_view(jobs@) + hidden_jobs(u0, i + 1, self.size.0, self.position.0, self.position.1)
                        =~= j0 + hidden_jobs(u0, i as int, self.size.0, self.position.0, self.position.1));
                }
            }
            i = i + 1;
        }
        proof {
            assert(jobs_view(jobs@) + Seq::<(Seq<char>, u16, u16, u16)>::empty() =~= jobs_view(jobs@));
        }
        jobs
    }

    /// Renders the rows that are out of date, each with where it goes on screen (see
    /// `row_jobs`), and remembers each rendered line; with a border, the bottom and the top
    /// border follow when any row was redrawn. A hidden window gives its stale rows as
    /// spaces; an up-to-date window gives nothing. Everything is then up to date.
    #[verifier::rlimit(50)]
    #[verifier::spinoff_prover]
    pub fn GetRenderClosure(&mut self) -> (jobs: Vec<RenderJob>)
        requires
            old(self).wf(),
            old(self).position.1 + old(self).updated@.len() <= 65536,
            old(self).depth < 65535,
            old(self).bordered ==> {
                &&& old(self).size.0 >= 2
                &&& old(self).size.1 >= 1
                &&& old(self).title.1 < 65536
                &&& span_size(old(self).title.0@) <= usize::MAX
                &&& old(self).size.0 / 2 >= old(self).title.1 / 2 + 1
                &&& old(self).size.0 - 2 - (old(self).size.0 / 2 - old(self).title.1 / 2 - 1) >= old(self).title.1
            },
        ensures
            final(self).wf(),
            final(self).size == old(self).size,
            final(self).hidden == old(self).hidden,
            final(self).bordered == old(self).bordered,
            final(self).position == old(self).position,
            final(self).depth == old(self).depth,
            final(self).title == old(self).title,
            final(self).color == old(self).color,
            final(self).lines@.len() == old(self).lines@.len(),
            final(self).updated@.len() == old(self).updated@.len(),
            old(self).wasUpdated ==> jobs@.len() == 0 && *final(self) == *old(self),
            !old(self).wasUpdated && old(self).hidden ==> jobs_view(jobs@) == hidden_jobs(
                old(self).updated@,
                0,
                old(self).size.0,
                old(self).position.0,
                old(self).position.1,
            ) && (forall|i: int| 0 <= i < final(self).updated@.len() ==> #[trigger] final(self).updated@[i])
                && final(self).lines == old(self).lines && final(self).wasUpdated,
            !old(self).wasUpdated && !old(self).hidden ==> {
                let w = old(self);
                let b = w.border_rows();
                let end = w.size.1 - b;
                let rows = row_jobs(w.updated@, w.lines@, b, w.border_code(), w.bordered, w.size, w.position, w.depth, b, end);
                let redrawn = some_stale(w.updated@, b, end);
                &&& jobs_view(jobs@) == if w.bordered && redrawn {
                    rows + seq![
                        (bottom_border(w.border_code(), w.size.0 as nat), w.position.0, (w.position.1 + w.size.1 - 1) as u16, (w.depth + 1) as u16),
                        (top_border(w.border_code(), rendered(w.title.0@, Seq::empty()), w.title.1 as nat, w.size.0 as nat), w.position.0, w.position.1, (w.depth + 1) as u16),
                    ]
                } else {
                    rows
                }
                &&& forall|i: int| 0 <= i < final(self).updated@.len() ==> #[trigger] final(self).updated@[i] == if b <= i < end || w.bordered && redrawn && (i == 0 || i == w.size.1 - 1) {
                    true
                } else {
                    w.updated@[i]
                }
                &&& forall|i: int| 0 <= i < w.lines@.len() ==> (#[trigger] final(self).lines@[i]).0 == w.lines@[i].0
                &&& forall|i: int| 0 <= i < w.lines@.len() && b <= i + b < end && !w.updated@[i + b] ==> {
                    &&& (#[trigger] final(self).lines@[i]).1@ == rendered(w.lines@[i].0@, Seq::empty())
                    &&& final(self).lines@[i].2 == span_size(w.lines@[i].0@)
                }
                &&& final(self).wasUpdated
            },
    {
        if self.wasUpdated {
            return Vec::new();
        }
        if self.hidden {
            return self.HandleHiddenClosure();
        }
        let mut scratch = String::new();
        let (colorText, colorSize) = self.color.GetText(&mut scratch);
        proof {
            assert(escape_of(self.color@).len() > 0);
            assert(colorText@ == self.border_code());
        }
        self.wasUpdated = true;
        let b: usize = if self.bordered {
            1
        } else {
            0
        };
        let end: usize = self.size.1 as usize - b;
        let ghost w = *old(self);
        let ghost color = w.border_code();
        let stop: usize = if end > b {
            end
        } else {
            b
        };
        let ghost total = row_jobs(w.updated@, w.lines@, b as int, color, w.bordered, w.size, w.position, w.depth, b as int, stop as int);
        let mut jobs: Vec<RenderJob> = Vec::new();
        let mut redrawn = false;
        let mut index: usize = b;
        let border_color = (colorText, colorSize);
        while index < stop
            invariant
                self.wf(),
                b == w.border_rows(),
                b <= index <= stop,
                stop <= self.updated@.len(),
                self.updated@.len() == w.updated@.len(),
                self.size == w.size,
                self.position == w.position,
                self.depth == w.depth,
                self.bordered == w.bordered,
                self.hidden == w.hidden,
                self.title == w.title,
                self.color == w.color,
                self.wasUpdated,
                w.position.1 + w.updated@.len() <= 65536,
                w.depth < 65535,
                w.bordered ==> w.size.0 >= 2,
                border_color.0@ == color,
                self.lines@.len() == w.lines@.len(),
                forall|i: int| 0 <= i < w.lines@.len() ==> (#[trigger] self.lines@[i]).0 == w.lines@[i].0,
                forall|i: int| 0 <= i < w.lines@.len() && !(b <= i + b < index && !w.updated@[i + b]) ==> #[trigger] self.lines@[i] == w.lines@[i],
                forall|i: int| 0 <= i < w.lines@.len() && b <= i + b < index && !w.updated@[i + b] ==> {
                    &&& (#[trigger] self.lines@[i]).1@ == rendered(w.lines@[i].0@, Seq::empty())
                    &&& self.lines@[i].2 == span_size(w.lines@[i].0@)
                },
                forall|i: int| 0 <= i < self.updated@.len() ==> #[trigger] self.updated@[i] == if b <= i < index {
                    true
                } else {
                    w.updated@[i]
                },
                redrawn == some_stale(w.updated@, b as int, index as int),
                jobs_view(jobs@) + row_jobs(w.updated@, w.lines@, b as int, color, w.bordered, w.size, w.position, w.depth, index as int, stop as int) == total,
            decreases stop - index,
        {
            let ghost j0 = jobs_view(jobs@);
            let ghost rest_before = row_jobs(w.updated@, w.lines@, b as int, color, w.bordered, w.size, w.position, w.depth, index as int, stop as int);
            let ghost rest_after = row_jobs(w.updated@, w.lines@, b as int, color, w.bordered, w.size, w.position, w.depth, index + 1, stop as int);
            if !self.updated[index] {
                let ghost before = *self;
                let job = self.render_row(index, b, &border_color);
                redrawn = true;
                jobs.push(job);
                proof {
                    assert(row_text(before.lines@, b as int, index as int) == row_text(w.lines@, b as int, index as int));
                    assert(jobs_view(jobs@) =~= j0.push(job_view(job)));
                    assert(jobs_view(jobs@) + rest_after =~= j0 + rest_before);
                    assert(some_stale(w.updated@, b as int, index + 1)) by {
                        assert(b <= index < index + 1 && !w.updated@[index as int]);
                    }
                }
            } else {
                proof {
                    assert(some_stale(w.updated@, b as int, index + 1) == some_stale(w.updated@, b as int, index as int)) by {
                        if some_stale(w.updated@, b as int, index + 1) {
                            let j = choose|j: int| b <= j < index + 1 && !w.updated@[j];
                            assert(j != index);
                        }
                    }
                }
            }
            index = index + 1;
        }
        let colorText = border_color.0;
        proof {
            if end < b {
                assert(row_jobs(w.updated@, w.lines@, b as int, color, w.bordered, w.size, w.position, w.depth, b as int, end as int) =~= total);
                assert(!some_stale(w.updated@, b as int, end as int));
            }
        }
        proof {
            assert(jobs_view(jobs@) + Seq::<(Seq<char>, u16, u16, u16)>::empty() =~= jobs_view(jobs@));
        }
        if redrawn && self.bordered {
            let last = self.size.1 as usize - 1;
            self.updated.set(last, true);
            self.updated.set(0, true);
            let ghost j0 = jobs_view(jobs@);
            let mut bottom = colorText.clone();
            string_push(&mut bottom, '└');
            push_repeat(&mut bottom, '─', self.size.0 as usize - 2);
            string_push(&mut bottom, '┘');
            bottom = concat(&bottom, &clear());
            proof {
                assert(bottom@ =~= bottom_border(color, w.size.0 as nat));
            }
            jobs.push((bottom, self.position.0, self.position.1 + (self.size.1 - 1), self.depth + 1));
            let half: u16 = self.size.0 / 2 - (self.title.1 as u16) / 2 - 1;
            let (titleText, _titleSize) = self.title.0.Join();
            let mut top = colorText.clone();
            string_push(&mut top, '┌');
            push_repeat(&mut top, '─', half as usize);
            top = concat(&top, &clear());
            top = concat(&top, &titleText);
            top = concat(&top, &colorText);
            push_repeat(&mut top, '─', self.size.0 as usize - 2 - half as usize - self.title.1);
            string_push(&mut top, '┐');
            top = concat(&top, &clear());
            proof {
                assert(top@ =~= top_border(color, rendered(w.title.0@, Seq::empty()), w.title.1 as nat, w.size.0 as nat));
            }
            jobs.push((top, self.position.0, self.position.1, self.depth + 1));
            proof {
                assert(jobs_view(jobs@) =~= j0 + seq![
                    (bottom_border(color, w.size.0 as nat), w.position.0, (w.position.1 + w.size.1 - 1) as u16, (w.depth + 1) as u16),
                    (top_border(color, rendered(w.title.0@, Seq::empty()), w.title.1 as nat, w.size.0 as nat), w.position.0, w.position.1, (w.depth + 1) as u16),
                ]);
            }
        }
        jobs
    }

    /// The whole window as lines. A bordered window gives the top border with the title,
    /// each row from its line's last render (see `cached_rows`), and the bottom border; a
    /// window without border gives its `size.1` rows, row `i` from line `i`'s last render
    /// (see `plain_rows`).
    pub fn GetRender(&self) -> (text: Vec<String>)
        requires
            self.bordered ==> {
                &&& self.size.0 >= 2
                &&& self.size.1 >= 1
                &&& self.title.1 < 65536
                &&& span_size(self.title.0@) <= usize::MAX
                &&& (self.size.0 - 2) / 2 >= self.title.1 / 2
                &&& 1 + (self.size.0 - 2) / 2 - self.title.1 / 2 + self.title.1 <= 65535
            },
        ensures
            self.bordered ==> strings_of(text@) == seq![render_top(self.border_code(), rendered(self.title.0@, Seq::empty()), self.title.1 as nat, self.size.0 as nat)]
                + cached_rows(self.lines@, self.border_code(), self.size.0 as nat, 1, self.size.1 - 1)
                + seq![bottom_border(self.border_code(), self.size.0 as nat)],
            !self.bordered ==> strings_of(text@) == plain_rows(self.lines@, self.size.0 as nat, 0, self.size.1 as int),
    {
        if !self.bordered {
            let width = self.size.0 as usize;
            let rows = self.size.1 as usize;
            let mut text: Vec<String> = Vec::new();
            let mut index: usize = 0;
            while index < rows
                invariant
                    index <= rows,
                    rows == self.size.1,
                    width == self.size.0,
                    strings_of(text@) + plain_rows(self.lines@, width as nat, index as int, rows as int) == plain_rows(
                        self.lines@,
                        width as nat,
                        0,
                        rows as int,
                    ),
                decreases rows - index,
            {
                let ghost t0 = strings_of(text@);
                let (line, size) = if index < self.lines.len() {
                    (Window::ClampStringVisibleUTF_8(self.lines[index].1.as_str(), width), self.lines[index].2)
                } else {
                    (String::new(), 0)
                };
                proof {
                    if index >= self.lines@.len() {
                        assert(clamp_visible(Seq::empty(), width as nat) =~= Seq::<char>::empty()) by {
                            reveal_with_fuel(clamp_from, 2);
                        }
                    }
                }
                let shown = if size <= width {
                    size
                } else {
                    width
                };
                let mut row = line;
                push_repeat(&mut row, ' ', width - shown);
                text.push(row);
                proof {
                    assert(strings_of(text@) =~= t0.push(row@));
                    assert(strings_of(text@) + plain_rows(self.lines@, width as nat, index + 1, rows as int) =~= t0 + plain_rows(
                        self.lines@,
                        width as nat,
                        index as int,
                        rows as int,
                    ));
                }
                index = index + 1;
            }
            proof {
                assert(plain_rows(self.lines@, width as nat, index as int, rows as int) =~= Seq::<Seq<char>>::empty());
                assert(strings_of(text@) + Seq::<Seq<char>>::empty() =~= strings_of(text@));
            }
            return text;
        }
        let mut scratch = String::new();
        let (color, _) = self.color.GetText(&mut scratch);
        proof {
            assert(escape_of(self.color@).len() > 0);
            assert(color@ == self.border_code());
        }
        let width = self.size.0;
        let split: u16 = (width - 2) / 2 - (self.title.1 as u16) / 2;
        let lineSize: u16 = 1 + split + self.title.1 as u16;
        let (titleText, _) = self.title.0.Join();
        let mut top = color.clone();
        string_push(&mut top, '┌');
        push_repeat(&mut top, '─', split as usize);
        top = concat(&top, &titleText);
        push_repeat(&mut top, '─', (width as usize).saturating_sub(1 + lineSize as usize));
        string_push(&mut top, '┐');
        top = concat(&top, &clear());
        proof {
            assert(top@ =~= render_top(self.border_code(), rendered(self.title.0@, Seq::empty()), self.title.1 as nat, self.size.0 as nat));
        }
        let mut text: Vec<String> = vec![top];
        let ghost first = strings_of(text@);
        let end: usize = self.size.1 as usize - 1;
        let ghost c = self.border_code();
        let mut index: usize = 1;
        while index < end
            invariant
                1 <= index,
                index <= end || end == 0,
                end == self.size.1 - 1,
                self.size.0 >= 2,
                color@ == c,
                strings_of(text@) + cached_rows(self.lines@, c, self.size.0 as nat, index as int, end as int) == first
                    + cached_rows(self.lines@, c, self.size.0 as nat, 1, end as int),
            decreases end - index,
        {
            let ghost t0 = strings_of(text@);
            let row = if index <= self.lines.len() {
                let line = &self.lines[index - 1];
                Window::RenderWindowSlice((color.clone(), 0), true, (line.1.clone(), line.2), self.size)
            } else {
                Window::RenderWindowSlice((color.clone(), 0), true, (String::new(), 0), self.size)
            };
            text.push(row);
            proof {
                assert(strings_of(text@) =~= t0.push(row@));
                assert(strings_of(text@) + cached_rows(self.lines@, c, self.size.0 as nat, index + 1, end as int) =~= t0
                    + cached_rows(self.lines@, c, self.size.0 as nat, index as int, end as int));
            }
            index = index + 1;
        }
        let mut bottom = color.clone();
        string_push(&mut bottom, '└');
        push_repeat(&mut bottom, '─', width as usize - 2);
        string_push(&mut bottom, '┘');
        bottom = concat(&bottom, &clear());
        let ghost t1 = strings_of(text@);
        text.push(bottom);
        proof {
            assert(bottom@ =~= bottom_border(c, self.size.0 as nat));
            assert(cached_rows(self.lines@, c, self.size.0 as nat, index as int, end as int) =~= Seq::<Seq<char>>::empty());
            assert(t1 + Seq::<Seq<char>>::empty() =~= t1);
            assert(strings_of(text@) =~= t1.push(bottom@));
        }
        text
    }
}

} // verus!
