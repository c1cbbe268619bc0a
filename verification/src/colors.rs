//! Color settings: the terminal's color support level, the colors bound to interface roles,
//! and the syntax-highlighting table that maps each token type to a color.
use vstd::prelude::*;
use crate::token_info::TokenType;
use crate::term_render::ColorType;
use crate::code_tabs::CodeTab;

verus! {

/// How many colors the terminal supports.
#[derive(Debug, Clone, Copy, PartialEq, Eq, Structural, Hash)]
pub enum ColorTypes {
    True,
    Partial,
    Basic,
}

impl Default for ColorTypes {
    fn default() -> (c: ColorTypes)
        ensures
            c == ColorTypes::True,
    {
        ColorTypes::True
    }
}

/// The color the default settings give a token type at a color support level; grayed text
/// has no entry (it is always drawn dimmed white).
pub open spec fn default_syntax_color(t: TokenType, ct: ColorTypes) -> Option<ColorType> {
    if ct == ColorTypes::True {
        match t {
            TokenType::Bracket => Some(ColorType::Rgb(125, 180, 255)),
            TokenType::SquirlyBracket => Some(ColorType::Rgb(175, 50, 175)),
            TokenType::Parentheses => Some(ColorType::Rgb(175, 50, 175)),
            TokenType::Variable => Some(ColorType::Rgb(225, 225, 225)),
            TokenType::Member => Some(ColorType::BrightCyan),
            TokenType::Object => Some(ColorType::Rgb(225, 145, 110)),
            TokenType::Function => Some(ColorType::BrightMagenta),
            TokenType::Method => Some(ColorType::Rgb(125, 180, 255)),
            TokenType::Number => Some(ColorType::BrightYellow),
            TokenType::Logic => Some(ColorType::Rgb(225, 225, 150)),
            TokenType::Math => Some(ColorType::Rgb(225, 225, 150)),
            TokenType::Assignment => Some(ColorType::BrightBlue),
            TokenType::Endl => Some(ColorType::Rgb(225, 225, 225)),
            TokenType::Macro => Some(ColorType::BrightMagenta),
            TokenType::Const => Some(ColorType::Cyan),
            TokenType::Barrow => Some(ColorType::Rgb(225, 225, 150)),
            TokenType::Lifetime => Some(ColorType::BrightBlue),
            TokenType::String => Some(ColorType::Yellow),
            TokenType::Comment => Some(ColorType::Rgb(35, 150, 45)),
            TokenType::CommentLong => Some(ColorType::Rgb(35, 150, 45)),
            TokenType::Null => Some(ColorType::Rgb(225, 225, 225)),
            TokenType::Primitive => Some(ColorType::BrightYellow),
            TokenType::Keyword => Some(ColorType::BrightRed),
            TokenType::Unsafe => Some(ColorType::BrightRed),
            TokenType::Grayed => None,
        }
    } else {
        match t {
            TokenType::Bracket => Some(ColorType::BrightBlue),
            TokenType::SquirlyBracket => Some(ColorType::Magenta),
            TokenType::Parentheses => Some(ColorType::Magenta),
            TokenType::Variable => Some(ColorType::White),
            TokenType::Member => Some(ColorType::BrightCyan),
            TokenType::Object => Some(ColorType::BrightRed),
            TokenType::Function => Some(ColorType::BrightMagenta),
            TokenType::Method => Some(ColorType::BrightBlue),
            TokenType::Number => Some(ColorType::BrightYellow),
            TokenType::Logic => Some(ColorType::BrightYellow),
            TokenType::Math => Some(ColorType::BrightYellow),
            TokenType::Assignment => Some(ColorType::BrightBlue),
            TokenType::Endl => Some(ColorType::White),
            TokenType::Macro => Some(ColorType::BrightMagenta),
            TokenType::Const => Some(ColorType::Cyan),
            TokenType::Barrow => Some(ColorType::BrightGreen),
            TokenType::Lifetime => Some(ColorType::BrightBlue),
            TokenType::String => Some(ColorType::Yellow),
            TokenType::Comment => Some(ColorType::Green),
            TokenType::CommentLong => Some(ColorType::Green),
            TokenType::Null => Some(ColorType::White),
            TokenType::Primitive => Some(ColorType::BrightYellow),
            TokenType::Keyword => Some(ColorType::BrightRed),
            TokenType::Unsafe => Some(ColorType::BrightRed),
            TokenType::Grayed => None,
        }
    }
}

fn default_syntax_color_of(t: TokenType, ct: ColorTypes) -> (c: Option<ColorType>)
    ensures
        c == default_syntax_color(t, ct),
{
    if ct == ColorTypes::True {
        match t {
            TokenType::Bracket => Some(ColorType::Rgb(125, 180, 255)),
            TokenType::SquirlyBracket => Some(ColorType::Rgb(175, 50, 175)),
            TokenType::Parentheses => Some(ColorType::Rgb(175, 50, 175)),
            TokenType::Variable => Some(ColorType::Rgb(225, 225, 225)),
            TokenType::Member => Some(ColorType::BrightCyan),
            TokenType::Object => Some(ColorType::Rgb(225, 145, 110)),
            TokenType::Function => Some(ColorType::BrightMagenta),
            TokenType::Method => Some(ColorType::Rgb(125, 180, 255)),
            TokenType::Number => Some(ColorType::BrightYellow),
            TokenType::Logic => Some(ColorType::Rgb(225, 225, 150)),
            TokenType::Math => Some(ColorType::Rgb(225, 225, 150)),
            TokenType::Assignment => Some(ColorType::BrightBlue),
            TokenType::Endl => Some(ColorType::Rgb(225, 225, 225)),
            TokenType::Macro => Some(ColorType::BrightMagenta),
            TokenType::Const => Some(ColorType::Cyan),
            TokenType::Barrow => Some(ColorType::Rgb(225, 225, 150)),
            TokenType::Lifetime => Some(ColorType::BrightBlue),
            TokenType::String => Some(ColorType::Yellow),
            TokenType::Comment => Some(ColorType::Rgb(35, 150, 45)),
            TokenType::CommentLong => Some(ColorType::Rgb(35, 150, 45)),
            TokenType::Null => Some(ColorType::Rgb(225, 225, 225)),
            TokenType::Primitive => Some(ColorType::BrightYellow),
            TokenType::Keyword => Some(ColorType::BrightRed),
            TokenType::Unsafe => Some(ColorType::BrightRed),
            TokenType::Grayed => None,
        }
    } else {
        match t {
            TokenType::Bracket => Some(ColorType::BrightBlue),
            TokenType::SquirlyBracket => Some(ColorType::Magenta),
            TokenType::Parentheses => Some(ColorType::Magenta),
            TokenType::Variable => Some(ColorType::White),
            TokenType::Member => Some(ColorType::BrightCyan),
            TokenType::Object => Some(ColorType::BrightRed),
            TokenType::Function => Some(ColorType::BrightMagenta),
            TokenType::Method => Some(ColorType::BrightBlue),
            TokenType::Number => Some(ColorType::BrightYellow),
            TokenType::Logic => Some(ColorType::BrightYellow),
            TokenType::Math => Some(ColorType::BrightYellow),
            TokenType::Assignment => Some(ColorType::BrightBlue),
            TokenType::Endl => Some(ColorType::White),
            TokenType::Macro => Some(ColorType::BrightMagenta),
            TokenType::Const => Some(ColorType::Cyan),
            TokenType::Barrow => Some(ColorType::BrightGreen),
            TokenType::Lifetime => Some(ColorType::BrightBlue),
            TokenType::String => Some(ColorType::Yellow),
            TokenType::Comment => Some(ColorType::Green),
            TokenType::CommentLong => Some(ColorType::Green),
            TokenType::Null => Some(ColorType::White),
            TokenType::Primitive => Some(ColorType::BrightYellow),
            TokenType::Keyword => Some(ColorType::BrightRed),
            TokenType::Unsafe => Some(ColorType::BrightRed),
            TokenType::Grayed => None,
        }
    }
}

/// A syntax-highlighting table: (token type, color support level, color) entries.
pub type SyntaxTable = Seq<(TokenType, ColorTypes, ColorType)>;

/// The color a table gives a token type at a color support level: the last entry for that
/// pair wins, as when a map is filled from the entries in order.
pub open spec fn syntax_lookup(table: SyntaxTable, t: TokenType, ct: ColorTypes) -> Option<ColorType>
    decreases table.len(),
{
    if table.len() == 0 {
        None
    } else if table.last().0 == t && table.last().1 == ct {
        Some(table.last().2)
    } else {
        syntax_lookup(table.drop_last(), t, ct)
    }
}

/// The colors bound to the interface's roles and to the token types.
#[derive(Debug)]
pub struct ColorBindings {
    pub errorCol: ColorType,
    pub suggestion: ColorType,
    pub command: ColorType,
    pub default: ColorType,
    pub highlight: ColorType,
    pub syntaxHighlighting: Vec<(TokenType, ColorTypes, ColorType)>,
}

/// The token types the syntax table colors, in the order the default table lists them.
pub open spec fn colored_tokens() -> Seq<TokenType> {
    seq![
        TokenType::Bracket, TokenType::SquirlyBracket, TokenType::Parentheses, TokenType::Variable,
        TokenType::Member, TokenType::Object, TokenType::Function, TokenType::Method,
        TokenType::Number, TokenType::Logic, TokenType::Math, TokenType::Assignment,
        TokenType::Endl, TokenType::Macro, TokenType::Const, TokenType::Barrow,
        TokenType::Lifetime, TokenType::String, TokenType::Comment, TokenType::CommentLong,
        TokenType::Null, TokenType::Primitive, TokenType::Keyword, TokenType::Unsafe,
    ]
}

/// The place of a token type in `colored_tokens` (24 for grayed text, which is not there).
pub open spec fn token_index(t: TokenType) -> int {
    match t {
        TokenType::Bracket => 0,
        TokenType::SquirlyBracket => 1,
        TokenType::Parentheses => 2,
        TokenType::Variable => 3,
        TokenType::Member => 4,
        TokenType::Object => 5,
        TokenType::Function => 6,
        TokenType::Method => 7,
        TokenType::Number => 8,
        TokenType::Logic => 9,
        TokenType::Math => 10,
        TokenType::Assignment => 11,
        TokenType::Endl => 12,
        TokenType::Macro => 13,
        TokenType::Const => 14,
        TokenType::Barrow => 15,
        TokenType::Lifetime => 16,
        TokenType::String => 17,
        TokenType::Comment => 18,
        TokenType::CommentLong => 19,
        TokenType::Null => 20,
        TokenType::Primitive => 21,
        TokenType::Keyword => 22,
        TokenType::Unsafe => 23,
        TokenType::Grayed => 24,
    }
}

/// The place of a support level in the default table's order.
pub open spec fn level_index(ct: ColorTypes) -> int {
    match ct {
        ColorTypes::Basic => 0,
        ColorTypes::Partial => 1,
        ColorTypes::True => 2,
    }
}

/// No two entries of the table are for the same token type and support level.
pub open spec fn keys_distinct(table: SyntaxTable) -> bool {
    forall|i: int, j: int|
        0 <= i < j < table.len() ==> (#[trigger] table[i]).0 != (#[trigger] table[j]).0 || table[i].1 != table[j].1
}

proof fn lemma_token_index()
    ensures
        forall|j: int| 0 <= j < 24 ==> token_index(#[trigger] colored_tokens()[j]) == j,
{
    let s = colored_tokens();
    assert(token_index(s[0]) == 0);
    assert(token_index(s[1]) == 1);
    assert(token_index(s[2]) == 2);
    assert(token_index(s[3]) == 3);
    assert(token_index(s[4]) == 4);
    assert(token_index(s[5]) == 5);
    assert(token_index(s[6]) == 6);
    assert(token_index(s[7]) == 7);
    assert(token_index(s[8]) == 8);
    assert(token_index(s[9]) == 9);
    assert(token_index(s[10]) == 10);
    assert(token_index(s[11]) == 11);
    assert(token_index(s[12]) == 12);
    assert(token_index(s[13]) == 13);
    assert(token_index(s[14]) == 14);
    assert(token_index(s[15]) == 15);
    assert(token_index(s[16]) == 16);
    assert(token_index(s[17]) == 17);
    assert(token_index(s[18]) == 18);
    assert(token_index(s[19]) == 19);
    assert(token_index(s[20]) == 20);
    assert(token_index(s[21]) == 21);
    assert(token_index(s[22]) == 22);
    assert(token_index(s[23]) == 23);
}

proof fn lemma_colored_tokens(t: TokenType)
    requires
        t != TokenType::Grayed,
    ensures
        colored_tokens().contains(t),
{
    let s = colored_tokens();
    match t {
        TokenType::Bracket => assert(s[0] == t),
        TokenType::SquirlyBracket => assert(s[1] == t),
        TokenType::Parentheses => assert(s[2] == t),
        TokenType::Variable => assert(s[3] == t),
        TokenType::Member => assert(s[4] == t),
        TokenType::Object => assert(s[5] == t),
        TokenType::Function => assert(s[6] == t),
        TokenType::Method => assert(s[7] == t),
        TokenType::Number => assert(s[8] == t),
        TokenType::Logic => assert(s[9] == t),
        TokenType::Math => assert(s[10] == t),
        TokenType::Assignment => assert(s[11] == t),
        TokenType::Endl => assert(s[12] == t),
        TokenType::Macro => assert(s[13] == t),
        TokenType::Const => assert(s[14] == t),
        TokenType::Barrow => assert(s[15] == t),
        TokenType::Lifetime => assert(s[16] == t),
        TokenType::String => assert(s[17] == t),
        TokenType::Comment => assert(s[18] == t),
        TokenType::CommentLong => assert(s[19] == t),
        TokenType::Null => assert(s[20] == t),
        TokenType::Primitive => assert(s[21] == t),
        TokenType::Keyword => assert(s[22] == t),
        TokenType::Unsafe => assert(s[23] == t),
        TokenType::Grayed => {},
    }
}

/// Whether every entry of the table holds the default color of its pair.
pub open spec fn holds_defaults(table: SyntaxTable) -> bool {
    forall|i: int| 0 <= i < table.len() ==> #[trigger] default_syntax_color(table[i].0, table[i].1) == Some(
        table[i].2,
    )
}

proof fn lemma_lookup_defaults(table: SyntaxTable, t: TokenType, ct: ColorTypes)
    requires
        holds_defaults(table),
    ensures
        syntax_lookup(table, t, ct) is Some ==> syntax_lookup(table, t, ct) == default_syntax_color(t, ct),
        (exists|i: int| 0 <= i < table.len() && table[i].0 == t && table[i].1 == ct) ==> syntax_lookup(
            table,
            t,
            ct,
        ) is Some,
    decreases table.len(),
{
    if table.len() > 0 {
        let d = table.drop_last();
        assert(holds_defaults(d)) by {
            assert forall|i: int| 0 <= i < d.len() implies #[trigger] default_syntax_color(d[i].0, d[i].1)
                == Some(d[i].2) by {
                assert(d[i] == table[i]);
            }
        }
        lemma_lookup_defaults(d, t, ct);
        assert(default_syntax_color(table[table.len() - 1].0, table[table.len() - 1].1) == Some(
            table[table.len() - 1].2,
        ));
        if exists|i: int| 0 <= i < table.len() && table[i].0 == t && table[i].1 == ct {
            let i = choose|i: int| 0 <= i < table.len() && table[i].0 == t && table[i].1 == ct;
            if i < table.len() - 1 {
                assert(d[i] == table[i]);
            }
        }
    }
}

impl Default for ColorBindings {
    /// The default bindings: true color, error text red, highlights yellow, and every token
    /// type but grayed text bound at each support level.
    fn default() -> (b: ColorBindings)
        ensures
            b.errorCol == ColorType::Red,
            b.suggestion == ColorType::White,
            b.command == ColorType::White,
            b.default == ColorType::White,
            b.highlight == ColorType::Yellow,
            forall|t: TokenType, ct: ColorTypes| #[trigger]
                syntax_lookup(b.syntaxHighlighting@, t, ct) == default_syntax_color(t, ct),
            b.syntaxHighlighting@.len() == 72,
            keys_distinct(b.syntaxHighlighting@),
    {
        let tokens: Vec<TokenType> = vec![
            TokenType::Bracket, TokenType::SquirlyBracket, TokenType::Parentheses, TokenType::Variable,
            TokenType::Member, TokenType::Object, TokenType::Function, TokenType::Method,
            TokenType::Number, TokenType::Logic, TokenType::Math, TokenType::Assignment,
            TokenType::Endl, TokenType::Macro, TokenType::Const, TokenType::Barrow,
            TokenType::Lifetime, TokenType::String, TokenType::Comment, TokenType::CommentLong,
            TokenType::Null, TokenType::Primitive, TokenType::Keyword, TokenType::Unsafe,
        ];
        let levels: Vec<ColorTypes> = vec![ColorTypes::Basic, ColorTypes::Partial, ColorTypes::True];
        proof {
            assert(tokens@ =~= colored_tokens());
            lemma_token_index();
        }
        let mut table: Vec<(TokenType, ColorTypes, ColorType)> = Vec::new();
        let mut li: usize = 0;
        while li < levels.len()
            invariant
                li <= levels@.len(),
                levels@ == seq![ColorTypes::Basic, ColorTypes::Partial, ColorTypes::True],
                tokens@ == colored_tokens(),
                holds_defaults(table@),
                table@.len() == 24 * li,
                forall|i: int| 0 <= i < table@.len() ==> token_index((#[trigger] table@[i]).0) + 24 * level_index(table@[i].1) == i,
                forall|j: int| 0 <= j < 24 ==> token_index(#[trigger] colored_tokens()[j]) == j,
                forall|i: int| 0 <= i < table@.len() ==> (#[trigger] table@[i]).0 != TokenType::Grayed,
                forall|k: int, j: int|
                    0 <= k < li && 0 <= j < tokens@.len() ==> exists|i: int|
                        0 <= i < table@.len() && (#[trigger] table@[i]).0 == #[trigger] tokens@[j] && table@[i].1
                            == #[trigger] levels@[k],
            decreases levels@.len() - li,
        {
            let level = levels[li];
            let mut ti: usize = 0;
            while ti < tokens.len()
                invariant
                    li < levels@.len(),
                    level == levels@[li as int],
                    ti <= tokens@.len(),
                    levels@ == seq![ColorTypes::Basic, ColorTypes::Partial, ColorTypes::True],
                    tokens@ == colored_tokens(),
                    holds_defaults(table@),
                    table@.len() == 24 * li + ti,
                    forall|i: int| 0 <= i < table@.len() ==> token_index((#[trigger] table@[i]).0) + 24 * level_index(table@[i].1) == i,
                    forall|j: int| 0 <= j < 24 ==> token_index(#[trigger] colored_tokens()[j]) == j,
                    forall|i: int| 0 <= i < table@.len() ==> (#[trigger] table@[i]).0 != TokenType::Grayed,
                    forall|k: int, j: int|
                        0 <= k < li && 0 <= j < tokens@.len() ==> exists|i: int|
                            0 <= i < table@.len() && (#[trigger] table@[i]).0 == #[trigger] tokens@[j]
                                && table@[i].1 == #[trigger] levels@[k],
                    forall|j: int|
                        0 <= j < ti ==> exists|i: int|
                            0 <= i < table@.len() && (#[trigger] table@[i]).0 == #[trigger] tokens@[j]
                                && table@[i].1 == level,
                decreases tokens@.len() - ti,
            {
                let t = tokens[ti];
                let c = default_syntax_color_of(t, level);
                proof {
                    assert(t != TokenType::Grayed);
                }
                let color = match c {
                    Some(color) => color,
                    None => ColorType::Default,
                };
                let ghost before = table@;
                table.push((t, level, color));
                proof {
                    assert(token_index(t) == ti);
                    assert(level_index(level) == li);
                    assert forall|i: int| 0 <= i < table@.len() implies token_index((#[trigger] table@[i]).0) + 24 * level_index(table@[i].1) == i by {
                        if i < before.len() {
                            assert(table@[i] == before[i]);
                        }
                    }
                    assert forall|i: int| 0 <= i < table@.len() implies #[trigger] default_syntax_color(
                        table@[i].0,
                        table@[i].1,
                    ) == Some(table@[i].2) by {
                        if i < before.len() {
                            assert(table@[i] == before[i]);
                        }
                    }
                    assert forall|k: int, j: int|
                        0 <= k < li && 0 <= j < tokens@.len() implies exists|i: int|
                            0 <= i < table@.len() && (#[trigger] table@[i]).0 == #[trigger] tokens@[j]
                                && table@[i].1 == #[trigger] levels@[k] by {
                        let i = choose|i: int|
                            0 <= i < before.len() && (#[trigger] before[i]).0 == tokens@[j] && before[i].1
                                == levels@[k];
                        assert(table@[i] == before[i]);
                    }
                    assert forall|j: int| 0 <= j < ti + 1 implies exists|i: int|
                        0 <= i < table@.len() && (#[trigger] table@[i]).0 == #[trigger] tokens@[j]
                            && table@[i].1 == level by {
                        if j < ti {
                            let i = choose|i: int|
                                0 <= i < before.len() && (#[trigger] before[i]).0 == tokens@[j] && before[i].1
                                    == level;
                            assert(table@[i] == before[i]);
                        } else {
                            assert(table@[before.len() as int].0 == tokens@[j]);
                        }
                    }
                }
                ti = ti + 1;
            }
            li = li + 1;
        }
        proof {
            assert forall|i: int, j: int| 0 <= i < j < table@.len() implies (#[trigger] table@[i]).0 != (#[trigger] table@[j]).0
                || table@[i].1 != table@[j].1 by {
                if table@[i].0 == table@[j].0 && table@[i].1 == table@[j].1 {
                    assert(token_index(table@[i].0) + 24 * level_index(table@[i].1) == i);
                    assert(token_index(table@[j].0) + 24 * level_index(table@[j].1) == j);
                }
            }
            assert forall|t: TokenType, ct: ColorTypes| #[trigger]
                syntax_lookup(table@, t, ct) == default_syntax_color(t, ct) by {
                lemma_lookup_defaults(table@, t, ct);
                if t == TokenType::Grayed {
                    if syntax_lookup(table@, t, ct) is Some {
                        lemma_lookup_some(table@, t, ct);
                    }
                } else {
                    lemma_colored_tokens(t);
                    let j = choose|j: int| 0 <= j < colored_tokens().len() && colored_tokens()[j] == t;
                    let k: int = if ct == ColorTypes::Basic {
                        0
                    } else if ct == ColorTypes::Partial {
                        1
                    } else {
                        2
                    };
                    assert(levels@[k] == ct);
                    assert(tokens@[j] == t);
                }
            }
        }
        ColorBindings {
            errorCol: ColorType::Red,
            suggestion: ColorType::White,
            command: ColorType::White,
            default: ColorType::White,
            highlight: ColorType::Yellow,
            syntaxHighlighting: table,
        }
    }
}

proof fn lemma_lookup_some(table: SyntaxTable, t: TokenType, ct: ColorTypes)
    requires
        syntax_lookup(table, t, ct) is Some,
    ensures
        exists|i: int| 0 <= i < table.len() && (#[trigger] table[i]).0 == t && table[i].1 == ct,
    decreases table.len(),
{
    if table.last().0 == t && table.last().1 == ct {
        assert(table[table.len() - 1] == table.last());
    } else {
        lemma_lookup_some(table.drop_last(), t, ct);
        let i = choose|i: int|
            0 <= i < table.drop_last().len() && (#[trigger] table.drop_last()[i]).0 == t && table.drop_last()[i].1
                == ct;
        assert(table[i] == table.drop_last()[i]);
    }
}

impl ColorBindings {
    /// The color bound to a token type at a color support level, if any.
    pub fn GetSyntaxColor(&self, token: &TokenType, colorType: &ColorTypes) -> (c: Option<ColorType>)
        ensures
            c == syntax_lookup(self.syntaxHighlighting@, *token, *colorType),
    {
        let mut k: usize = self.syntaxHighlighting.len();
        proof {
            assert(self.syntaxHighlighting@.subrange(0, k as int) =~= self.syntaxHighlighting@);
        }
        while k > 0
            invariant
                k <= self.syntaxHighlighting@.len(),
                syntax_lookup(self.syntaxHighlighting@, *token, *colorType) == syntax_lookup(
                    self.syntaxHighlighting@.subrange(0, k as int),
                    *token,
                    *colorType,
                ),
            decreases k,
        {
            let ghost prefix = self.syntaxHighlighting@.subrange(0, k as int);
            let entry = self.syntaxHighlighting[k - 1];
            proof {
                assert(prefix.last() == entry);
                assert(prefix.drop_last() =~= self.syntaxHighlighting@.subrange(0, k - 1));
            }
            if entry.0 == *token && entry.1 == *colorType {
                return Some(entry.2);
            }
            k = k - 1;
        }
        proof {
            assert(self.syntaxHighlighting@.subrange(0, 0).len() == 0);
        }
        None
    }
}

/// The color settings in use: the support level and the bindings.
#[derive(Debug)]
pub struct ColorMode {
    pub colorType: ColorTypes,
    pub colorBindings: ColorBindings,
}

impl Default for ColorMode {
    fn default() -> (m: ColorMode)
        ensures
            m.colorType == ColorTypes::True,
            m.colorBindings.errorCol == ColorType::Red,
            m.colorBindings.highlight == ColorType::Yellow,
            forall|t: TokenType, ct: ColorTypes| #[trigger]
                syntax_lookup(m.colorBindings.syntaxHighlighting@, t, ct) == default_syntax_color(t, ct),
    {
        ColorMode { colorType: ColorTypes::True, colorBindings: ColorBindings::default() }
    }
}

/// A piece of text with its styles: colors and modifiers, applied in order.
#[derive(Debug)]
pub struct StyledText {
    pub text: String,
    pub styles: Vec<ColorType>,
}

/// The comment words that are underlined to stand out.
pub open spec fn is_comment_mark(text: Seq<char>) -> bool {
    text == "todo"@ || text == "!"@ || text == "Todo"@ || text == "error"@ || text == "condition"@ || text
        == "conditions"@ || text == "fix"@
}

/// The styles a token of type `t` with the text `text` is drawn with, given its bound color
/// `fg`.
pub open spec fn token_styles(t: TokenType, text: Seq<char>, fg: ColorType) -> Seq<ColorType> {
    match t {
        TokenType::Method => seq![fg, ColorType::Italic],
        TokenType::Macro => seq![fg, ColorType::Italic, ColorType::Bold, ColorType::Underline],
        TokenType::Const => seq![fg, ColorType::Italic],
        TokenType::Barrow => seq![fg, ColorType::Italic],
        TokenType::Lifetime => seq![fg, ColorType::Underline, ColorType::Bold],
        TokenType::Comment | TokenType::CommentLong => if is_comment_mark(text) {
            seq![fg, ColorType::Underline]
        } else {
            seq![fg]
        },
        TokenType::Keyword => seq![fg, ColorType::Bold, ColorType::Underline],
        TokenType::Unsafe => seq![
            fg,
            ColorType::Italic,
            ColorType::Underline,
            ColorType::OnBrightBlack,
            ColorType::Bold,
        ],
        TokenType::Grayed => seq![ColorType::BrightWhite, ColorType::Dim, ColorType::Italic],
        _ => seq![fg],
    }
}

fn comment_mark(text: &str) -> (b: bool)
    ensures
        b == is_comment_mark(text@),
{
    crate::text::str_equal(text, "todo") || crate::text::str_equal(text, "!") || crate::text::str_equal(
        text,
        "Todo",
    ) || crate::text::str_equal(text, "error") || crate::text::str_equal(text, "condition")
        || crate::text::str_equal(text, "conditions") || crate::text::str_equal(text, "fix")
}

impl CodeTab {
    /// Styles a token's text for drawing: its bound color under the current support level,
    /// plus the modifiers its type calls for.
    pub fn GenerateColor(&self, token: &TokenType, text: String, colorMode: &ColorMode) -> (s: StyledText)
        requires
            *token == TokenType::Grayed || syntax_lookup(
                colorMode.colorBindings.syntaxHighlighting@,
                *token,
                colorMode.colorType,
            ) is Some,
        ensures
            s.text@ == text@,
            s.styles@ == token_styles(
                *token,
                text@,
                syntax_lookup(colorMode.colorBindings.syntaxHighlighting@, *token, colorMode.colorType).unwrap(),
            ),
    {
        let fg = match colorMode.colorBindings.GetSyntaxColor(token, &colorMode.colorType) {
            Some(c) => c,
            None => ColorType::White,
        };
        let styles: Vec<ColorType> = match *token {
            TokenType::Method => vec![fg, ColorType::Italic],
            TokenType::Macro => vec![fg, ColorType::Italic, ColorType::Bold, ColorType::Underline],
            TokenType::Const => vec![fg, ColorType::Italic],
            TokenType::Barrow => vec![fg, ColorType::Italic],
            TokenType::Lifetime => vec![fg, ColorType::Underline, ColorType::Bold],
            TokenType::Comment | TokenType::CommentLong => {
                if comment_mark(text.as_str()) {
                    vec![fg, ColorType::Underline]
                } else {
                    vec![fg]
                }
            },
            TokenType::Keyword => vec![fg, ColorType::Bold, ColorType::Underline],
            TokenType::Unsafe => vec![
                fg,
                ColorType::Italic,
                ColorType::Underline,
                ColorType::OnBrightBlack,
                ColorType::Bold,
            ],
            TokenType::Grayed => vec![ColorType::BrightWhite, ColorType::Dim, ColorType::Italic],
            _ => vec![fg],
        };
        proof {
            assert(styles@ =~= token_styles(
                *token,
                text@,
                syntax_lookup(colorMode.colorBindings.syntaxHighlighting@, *token, colorMode.colorType).unwrap(),
            ));
        }
        StyledText { text, styles }
    }
}

} // verus!
