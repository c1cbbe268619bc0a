//! Drawing a code tab: each visible line becomes a row of styled pieces, the gutter label,
//! the tokens in their colors (split where a selection starts or ends, the selected part
//! on a dark gray background), the cursor bar, the completion being offered, the clipping
//! to the pane's width, and the scroll bar.
use vstd::prelude::*;
use crate::code_tabs::CodeTab;
use crate::colors::{ColorMode, StyledText, syntax_lookup, token_styles};
use crate::tabs::styled_view;
use crate::term_render::{ColorType, decimal};
use crate::token_info::{LuaTuple, TokenType};
use crate::token_moves::{token_texts, token_holding, texts_within, prefix_len};
use crate::scroll::{padded, line_label_number};

verus! {

/// A piece of a drawn row: the width it counts for, and its styled text.
#[derive(Debug)]
pub struct ViewPiece {
    pub size: usize,
    pub text: StyledText,
}

pub type StyledView = (Seq<char>, Seq<ColorType>);

pub type PieceView = (int, StyledView);

pub open spec fn piece_view(p: ViewPiece) -> PieceView {
    (p.size as int, styled_view(p.text))
}

pub open spec fn pieces_view(v: Seq<ViewPiece>) -> Seq<PieceView> {
    v.map_values(|p: ViewPiece| piece_view(p))
}

/// Every token type but grayed text has a color under the mode's support level.
pub open spec fn mode_covers(mode: ColorMode) -> bool {
    forall|t: TokenType| #[trigger]
        syntax_lookup(mode.colorBindings.syntaxHighlighting@, t, mode.colorType) is Some || t
            == TokenType::Grayed
}

/// A token's text in its colors.
pub open spec fn colored_text(mode: ColorMode, t: TokenType, s: Seq<char>) -> StyledView {
    (s, token_styles(t, s, syntax_lookup(mode.colorBindings.syntaxHighlighting@, t, mode.colorType).unwrap()))
}

/// A styled text on a dark gray background.
pub open spec fn dark(v: StyledView) -> StyledView {
    (v.0, v.1.push(ColorType::OnBrightBlack))
}

/// The cursor bar.
pub open spec fn cursor_bar() -> StyledView {
    (seq!['|'], seq![ColorType::BrightWhite, ColorType::Bold])
}

/// The selection's other end lies after the cursor.
pub open spec fn sel_after(t: CodeTab) -> bool {
    t.cursorEnd.0 > t.cursor.0 || (t.cursorEnd.0 == t.cursor.0 && t.cursorEnd.1 > t.cursor.1)
}

/// The selection's other end lies before the cursor.
pub open spec fn sel_before(t: CodeTab) -> bool {
    t.cursorEnd.0 < t.cursor.0 || (t.cursorEnd.0 == t.cursor.0 && t.cursorEnd.1 < t.cursor.1)
}

/// The pieces a token adds to the two halves of a row (before the cursor, and from the
/// cursor on): on the cursor's line a token at or after the cursor goes right (after the
/// bar when it starts at the cursor) and one around the cursor is cut there; elsewhere
/// tokens go left. The selected parts are darkened, a token that the selection's end falls
/// in is cut there.
pub open spec fn token_pieces(
    t: CodeTab,
    mode: ColorMode,
    l: int,
    editing: bool,
    cc: int,
    tt: TokenType,
    s: Seq<char>,
) -> (Seq<PieceView>, Seq<PieceView>) {
    let c = t.cursor;
    let ce = t.cursorEnd;
    let h = t.highlighting;
    let len = s.len() as int;
    let whole = colored_text(mode, tt, s);
    if l == c.0 && cc + len > c.1 {
        if cc >= c.1 {
            let left = if cc == c.1 && editing {
                seq![(1int, cursor_bar())]
            } else {
                Seq::empty()
            };
            let right = if h && sel_after(t) {
                if (h && (l == ce.0 && cc + len <= ce.1 || l == c.0 && cc >= c.1) && c.0 != ce.0) || (l > c.0 && l
                    < ce.0) || (l == ce.0 && l == c.0 && cc >= c.1 && cc + len <= ce.1) {
                    seq![(len, dark(whole))]
                } else if h && cc + len > ce.1 && cc < ce.1 && l == ce.0 {
                    let k = ce.1 - cc;
                    seq![
                        (len, dark(colored_text(mode, tt, s.subrange(0, k)))),
                        (len, colored_text(mode, tt, s.subrange(k, len))),
                    ]
                } else {
                    seq![(len, whole)]
                }
            } else {
                seq![(len, whole)]
            };
            (left, right)
        } else {
            let k0 = c.1 - cc;
            let txt = s.subrange(0, k0);
            let txt2 = s.subrange(k0, len);
            let first = if h && sel_before(t) {
                if ce.1 > cc && c.1 <= cc + k0 && ce.1 - cc < len && c.0 == ce.0 {
                    let k = ce.1 - cc;
                    seq![
                        (k, colored_text(mode, tt, txt.subrange(0, k))),
                        (k0 - k, dark(colored_text(mode, tt, txt.subrange(k, k0)))),
                    ]
                } else {
                    seq![(k0, dark(colored_text(mode, tt, txt)))]
                }
            } else {
                seq![(k0, colored_text(mode, tt, txt))]
            };
            let left = first + if editing {
                seq![(1int, cursor_bar())]
            } else {
                Seq::empty()
            };
            let right = if h && sel_after(t) {
                if ce.1 > cc + k0 && ce.1 < cc + len {
                    let k = ce.1 - (cc + k0);
                    seq![
                        (k, dark(colored_text(mode, tt, txt2.subrange(0, k)))),
                        (txt2.len() - k, colored_text(mode, tt, txt2.subrange(k, txt2.len() as int))),
                    ]
                } else {
                    seq![(txt2.len() as int, dark(colored_text(mode, tt, txt2)))]
                }
            } else {
                seq![(txt2.len() as int, colored_text(mode, tt, txt2))]
            };
            (left, right)
        }
    } else if sel_before(t) && h {
        let left = if (l > ce.0 && l < c.0) || (l == c.0 && l == ce.0 && cc >= ce.1 && cc + len <= c.1) {
            seq![(len, dark(whole))]
        } else if cc + len > ce.1 && cc < ce.1 && l == ce.0 {
            let k = ce.1 - cc;
            seq![
                (len, colored_text(mode, tt, s.subrange(0, k))),
                (len, dark(colored_text(mode, tt, s.subrange(k, len)))),
            ]
        } else if (l == c.0 && cc + len <= c.1 || l == ce.0 && cc >= ce.1) && c.0 != ce.0 {
            seq![(len, dark(whole))]
        } else {
            seq![(len, whole)]
        };
        (left, Seq::empty())
    } else if h {
        let left = if (l > c.0 && l < ce.0) || (l == ce.0 && l == c.0 && cc >= c.1 && cc + len <= ce.1) {
            seq![(len, dark(whole))]
        } else if cc + len > ce.1 && cc <= ce.1 && l == ce.0 {
            let k = ce.1 - cc;
            seq![
                (len, dark(colored_text(mode, tt, s.subrange(0, k)))),
                (len, colored_text(mode, tt, s.subrange(k, len))),
            ]
        } else if (l == ce.0 && cc <= ce.1 || l == c.0 && cc >= c.1) && ce.0 != c.0 {
            seq![(len, dark(whole))]
        } else {
            seq![(len, whole)]
        };
        (left, Seq::empty())
    } else {
        (seq![(len, whole)], Seq::empty())
    }
}

/// The pieces of the tokens from `k` on, the first starting at column `cc`; with the
/// column after the last.
pub open spec fn tokens_pieces(
    t: CodeTab,
    mode: ColorMode,
    l: int,
    editing: bool,
    toks: Seq<LuaTuple>,
    k: int,
    cc: int,
) -> (Seq<PieceView>, Seq<PieceView>, int)
    decreases toks.len() - k,
{
    if k < 0 || k >= toks.len() {
        (Seq::empty(), Seq::empty(), cc)
    } else {
        let (a, b) = token_pieces(t, mode, l, editing, cc, toks[k].token, toks[k].text@);
        let (ra, rb, end) = tokens_pieces(t, mode, l, editing, toks, k + 1, cc + toks[k].text@.len());
        (a + ra, b + rb, end)
    }
}

/// The gutter label of line `l` (see `CodeTab::LineNumberText`).
pub open spec fn gutter_text(t: CodeTab, l: int) -> Seq<char> {
    padded(
        decimal(line_label_number(l, t.cursor.0 as int) as nat) + ": "@,
        decimal(t.lines@.len() as nat).len() + 1int,
    )
}

/// The gutter piece: the cursor's line in bold underlined red, the others in gray italics.
pub open spec fn gutter_piece(t: CodeTab, l: int) -> PieceView {
    let text = gutter_text(t, l);
    (text.len() as int, (text, if l == t.cursor.0 {
        seq![ColorType::Red, ColorType::Bold, ColorType::Underline]
    } else {
        seq![ColorType::White, ColorType::Italic]
    }))
}

/// The token the cursor is in, if any.
pub open spec fn token_at_cursor(t: CodeTab) -> Option<Seq<char>> {
    let texts = token_texts(t.lineTokens@[t.cursor.0 as int]@);
    match token_holding(texts, t.cursor.1 as int, 0, 0) {
        Some((k, _)) => Some(texts[k]),
        None => None,
    }
}

/// After the tokens of the cursor's line, when the cursor is past them: the cursor bar,
/// and the rest of the completion being offered after the part already typed (dimmed).
pub open spec fn end_pieces(t: CodeTab, l: int, editing: bool, end: int, suggested: Seq<char>) -> Seq<PieceView> {
    if l == t.cursor.0 && end <= t.cursor.1 && editing {
        seq![(1int, cursor_bar())] + if suggested.len() > 0 {
            match token_at_cursor(t) {
                Some(sel) => seq![
                    (if suggested.len() > sel.len() {
                        suggested.len() - sel.len()
                    } else {
                        0
                    }, (if sel.len() <= suggested.len() {
                        suggested.subrange(sel.len() as int, suggested.len() as int)
                    } else {
                        Seq::empty()
                    }, seq![ColorType::BrightWhite, ColorType::Dim, ColorType::Italic])),
                ],
                None => Seq::empty(),
            }
        } else {
            Seq::empty()
        }
    } else {
        Seq::empty()
    }
}

/// The pieces kept within `width` columns (a piece that would reach the width ends the
/// list), underlined on the cursor's line while editing; with the columns used.
pub open spec fn clipped(ps: Seq<PieceView>, width: int, used: int, underline: bool) -> (Seq<StyledView>, int)
    decreases ps.len(),
{
    if ps.len() == 0 || used + ps[0].0 >= width {
        (Seq::empty(), used)
    } else {
        let v = if underline {
            (ps[0].1.0, ps[0].1.1.push(ColorType::Underline))
        } else {
            ps[0].1
        };
        let (rest, u) = clipped(ps.drop_first(), width, used + ps[0].0, underline);
        (seq![v] + rest, u)
    }
}

/// `n` white spaces.
pub open spec fn padding(n: int) -> Seq<StyledView> {
    Seq::new(n as nat, |i: int| (seq![' '], seq![ColorType::BrightWhite]))
}

/// The scroll bar at the row's end, on the rows around the bar's position `bar` and on
/// pinned lines: the row padded to the width, then the bar's arrows or its middle, or a
/// red mark with the whole row underlined.
pub open spec fn with_scroll_bar(row: Seq<StyledView>, used: int, width: int, i: int, bar: int, pinned: bool) -> Seq<
    StyledView,
> {
    if (if bar > 0 {
        bar - 1
    } else {
        0
    }) <= i && i <= bar + 1 || pinned {
        let padded_row = row + padding(width - used);
        if bar > 0 && i == bar - 1 {
            padded_row.push((seq!['/', '\\'], seq![ColorType::BrightWhite]))
        } else if i == bar {
            padded_row.push((seq!['|', '|'], seq![ColorType::BrightWhite]))
        } else if i == bar + 1 {
            padded_row.push((seq!['\\', '/'], seq![ColorType::BrightWhite]))
        } else {
            padded_row.push((seq![' ', ' '], seq![ColorType::OnRed])).map_values(
                |v: StyledView| (v.0, v.1.push(ColorType::Underline)),
            )
        }
    } else {
        row
    }
}

/// Row `i` of the pane, drawing line `l`.
pub open spec fn drawn_row(
    t: CodeTab,
    mode: ColorMode,
    l: int,
    i: int,
    editing: bool,
    suggested: Seq<char>,
    width: int,
    bar: int,
) -> Seq<StyledView> {
    let (left, right, end) = tokens_pieces(t, mode, l, editing, t.lineTokens@[l]@, 0, 0);
    let leftAll = seq![gutter_piece(t, l)] + left + end_pieces(t, l, editing, end, suggested);
    let underline = l == t.cursor.0 && editing;
    let (a, u1) = clipped(leftAll, width, 0, underline);
    let (b, u2) = clipped(right, width, u1, underline);
    with_scroll_bar(a + b, u2, width, i, bar, t.pinedLines@.contains(l as usize))
}

fn piece(mode: &ColorMode, tab: &CodeTab, tt: &TokenType, text: String, size: usize, darkened: bool) -> (p: ViewPiece)
    requires
        mode_covers(*mode),
    ensures
        piece_view(p) == (size as int, if darkened {
            dark(colored_text(*mode, *tt, text@))
        } else {
            colored_text(*mode, *tt, text@)
        }),
{
    proof {
        assert(syntax_lookup(mode.colorBindings.syntaxHighlighting@, *tt, mode.colorType) is Some || *tt
            == TokenType::Grayed);
    }
    let mut styled = tab.GenerateColor(tt, text, mode);
    if darkened {
        styled.styles.push(ColorType::OnBrightBlack);
    }
    ViewPiece { size, text: styled }
}

fn bar_piece() -> (p: ViewPiece)
    ensures
        piece_view(p) == (1int, cursor_bar()),
{
    let mut text = String::new();
    crate::text::string_push(&mut text, '|');
    let styles = vec![ColorType::BrightWhite, ColorType::Bold];
    proof {
        assert(styles@ =~= seq![ColorType::BrightWhite, ColorType::Bold]);
        assert(text@ =~= seq!['|']);
    }
    ViewPiece { size: 1, text: StyledText { text, styles } }
}

fn push_piece(v: &mut Vec<ViewPiece>, p: ViewPiece)
    ensures
        pieces_view(final(v)@) == pieces_view(old(v)@).push(piece_view(p)),
{
    let ghost before = v@;
    v.push(p);
    proof {
        assert(pieces_view(v@) =~= pieces_view(before).push(piece_view(p)));
    }
}

impl CodeTab {
    fn add_token_pieces(
        &self,
        mode: &ColorMode,
        l: usize,
        editing: bool,
        cc: usize,
        token: &LuaTuple,
        left: &mut Vec<ViewPiece>,
        right: &mut Vec<ViewPiece>,
    )
        requires
            mode_covers(*mode),
            cc + token.text@.len() <= usize::MAX,
        ensures
            ({
                let (a, b) = token_pieces(*self, *mode, l as int, editing, cc as int, token.token, token.text@);
                &&& pieces_view(final(left)@) == pieces_view(old(left)@) + a
                &&& pieces_view(final(right)@) == pieces_view(old(right)@) + b
            }),
    {
        let ghost L0 = pieces_view(left@);
        let ghost R0 = pieces_view(right@);
        let ghost spec = token_pieces(*self, *mode, l as int, editing, cc as int, token.token, token.text@);
        let c = self.cursor;
        let ce = self.cursorEnd;
        let h = self.highlighting;
        let s = &token.text;
        let tt = &token.token;
        let len = crate::text::char_len(s);
        let after = ce.0 > c.0 || (ce.0 == c.0 && ce.1 > c.1);
        let before = ce.0 < c.0 || (ce.0 == c.0 && ce.1 < c.1);

        if l == c.0 && cc + len > c.1 {
            if cc >= c.1 {
                if cc == c.1 && editing {
                    push_piece(left, bar_piece());
                }
                if h && after {
                    if (h && (l == ce.0 && cc + len <= ce.1 || l == c.0 && cc >= c.1) && c.0 != ce.0) || (l > c.0
                        && l < ce.0) || (l == ce.0 && l == c.0 && cc >= c.1 && cc + len <= ce.1) {
                        push_piece(right, piece(mode, self, tt, crate::text::string_of_str(s.as_str()), len, true));
                    } else if h && cc + len > ce.1 && cc < ce.1 && l == ce.0 {
                        let k = ce.1 - cc;
                        let a = crate::text::substring(s, 0, k);
                        let b = crate::text::substring(s, k, len);
                        push_piece(right, piece(mode, self, tt, a, len, true));
                        push_piece(right, piece(mode, self, tt, b, len, false));
                    } else {
                        push_piece(right, piece(mode, self, tt, crate::text::string_of_str(s.as_str()), len, false));
                    }
                } else {
                    push_piece(right, piece(mode, self, tt, crate::text::string_of_str(s.as_str()), len, false));
                }
                proof {
                    assert(pieces_view(left@) =~= L0 + spec.0);
                    assert(pieces_view(right@) =~= R0 + spec.1);
                }
            } else {
                let k0 = c.1 - cc;
                let txt = crate::text::substring(s, 0, k0);
                let txt2 = crate::text::substring(s, k0, len);
                let n2 = len - k0;
                if h && before {
                    if ce.1 > cc && c.1 <= cc + k0 && ce.1 - cc < len && c.0 == ce.0 {
                        let k = ce.1 - cc;
                        let a = crate::text::substring(&txt, 0, k);
                        let b = crate::text::substring(&txt, k, k0);
                        push_piece(left, piece(mode, self, tt, a, k, false));
                        push_piece(left, piece(mode, self, tt, b, k0 - k, true));
                    } else {
                        push_piece(left, piece(mode, self, tt, txt, k0, true));
                    }
                } else {
                    push_piece(left, piece(mode, self, tt, txt, k0, false));
                }
                if editing {
                    push_piece(left, bar_piece());
                }
                if h && after {
                    if ce.1 > cc + k0 && ce.1 < cc + len {
                        let k = ce.1 - (cc + k0);
                        let a = crate::text::substring(&txt2, 0, k);
                        let b = crate::text::substring(&txt2, k, n2);
                        push_piece(right, piece(mode, self, tt, a, k, true));
                        push_piece(right, piece(mode, self, tt, b, n2 - k, false));
                    } else {
                        push_piece(right, piece(mode, self, tt, txt2, n2, true));
                    }
                } else {
                    push_piece(right, piece(mode, self, tt, txt2, n2, false));
                }
                proof {
                    assert(pieces_view(left@) =~= L0 + spec.0);
                    assert(pieces_view(right@) =~= R0 + spec.1);
                }
            }
        } else if before && h {
            if (l > ce.0 && l < c.0) || (l == c.0 && l == ce.0 && cc >= ce.1 && cc + len <= c.1) {
                push_piece(left, piece(mode, self, tt, crate::text::string_of_str(s.as_str()), len, true));
            } else if cc + len > ce.1 && cc < ce.1 && l == ce.0 {
                let k = ce.1 - cc;
                let a = crate::text::substring(s, 0, k);
                let b = crate::text::substring(s, k, len);
                push_piece(left, piece(mode, self, tt, a, len, false));
                push_piece(left, piece(mode, self, tt, b, len, true));
            } else if (l == c.0 && cc + len <= c.1 || l == ce.0 && cc >= ce.1) && c.0 != ce.0 {
                push_piece(left, piece(mode, self, tt, crate::text::string_of_str(s.as_str()), len, true));
            } else {
                push_piece(left, piece(mode, self, tt, crate::text::string_of_str(s.as_str()), len, false));
            }
            proof {
                assert(pieces_view(left@) =~= L0 + spec.0);
                assert(pieces_view(right@) =~= R0 + spec.1);
            }
        } else if h {
            if (l > c.0 && l < ce.0) || (l == ce.0 && l == c.0 && cc >= c.1 && cc + len <= ce.1) {
                push_piece(left, piece(mode, self, tt, crate::text::string_of_str(s.as_str()), len, true));
            } else if cc + len > ce.1 && cc <= ce.1 && l == ce.0 {
                let k = ce.1 - cc;
                let a = crate::text::substring(s, 0, k);
                let b = crate::text::substring(s, k, len);
                push_piece(left, piece(mode, self, tt, a, len, true));
                push_piece(left, piece(mode, self, tt, b, len, false));
            } else if (l == ce.0 && cc <= ce.1 || l == c.0 && cc >= c.1) && ce.0 != c.0 {
                push_piece(left, piece(mode, self, tt, crate::text::string_of_str(s.as_str()), len, true));
            } else {
                push_piece(left, piece(mode, self, tt, crate::text::string_of_str(s.as_str()), len, false));
            }
            proof {
                assert(pieces_view(left@) =~= L0 + spec.0);
                assert(pieces_view(right@) =~= R0 + spec.1);
            }
        } else {
            push_piece(left, piece(mode, self, tt, crate::text::string_of_str(s.as_str()), len, false));
            proof {
                assert(pieces_view(left@) =~= L0 + spec.0);
                assert(pieces_view(right@) =~= R0 + spec.1);
            }
        }
    }
}

fn styled_of(text: String, styles: Vec<ColorType>) -> (s: StyledText)
    ensures
        styled_view(s) == (text@, styles@),
{
    StyledText { text, styles }
}

/// The pieces kept within `width` columns (see `clipped`), appended to `out`; returns the
/// columns used.
fn clip_into(ps: Vec<ViewPiece>, width: usize, used: usize, underline: bool, out: &mut Vec<StyledText>) -> (u: usize)
    requires
        used <= width,
    ensures
        out_views(final(out)@) == out_views(old(out)@) + clipped(pieces_view(ps@), width as int, used as int, underline).0,
        u == clipped(pieces_view(ps@), width as int, used as int, underline).1,
        u <= width,
{
    let ghost total = clipped(pieces_view(ps@), width as int, used as int, underline);
    let ghost start = out_views(out@);
    let mut ps = ps;
    let mut used = used;
    loop
        invariant
            used <= width,
            total.0 == out_views(out@).subrange(start.len() as int, out_views(out@).len() as int) + clipped(
                pieces_view(ps@),
                width as int,
                used as int,
                underline,
            ).0,
            total.1 == clipped(pieces_view(ps@), width as int, used as int, underline).1,
            out_views(out@).subrange(0, start.len() as int) == start,
            start.len() <= out_views(out@).len(),
        ensures
            used <= width,
            total.0 == out_views(out@).subrange(start.len() as int, out_views(out@).len() as int),
            total.1 == used,
            out_views(out@).subrange(0, start.len() as int) == start,
            start.len() <= out_views(out@).len(),
        decreases ps@.len(),
    {
        if ps.len() == 0 {
            proof {
                assert(pieces_view(ps@).len() == 0);
                assert(total.0 =~= out_views(out@).subrange(start.len() as int, out_views(out@).len() as int));
            }
            break;
        }
        let size = ps[0].size;
        if used >= width || size >= width - used {
            proof {
                assert(pieces_view(ps@)[0].0 == size);
                assert(total.0 =~= out_views(out@).subrange(start.len() as int, out_views(out@).len() as int));
            }
            break;
        }
        let ghost pv = pieces_view(ps@);
        let p = ps.remove(0);
        proof {
            assert(pieces_view(ps@) =~= pv.drop_first());
        }
        let mut text = p.text;
        if underline {
            text.styles.push(ColorType::Underline);
        }
        let ghost before = out_views(out@);
        out.push(text);
        proof {
            assert(out_views(out@) =~= before.push(styled_view(text)));
            assert(out_views(out@).subrange(0, start.len() as int) =~= before.subrange(0, start.len() as int));
            assert(out_views(out@).subrange(start.len() as int, out_views(out@).len() as int) =~= before.subrange(
                start.len() as int,
                before.len() as int,
            ).push(styled_view(text)));
        }
        used = used + size;
    }
    proof {
        assert(out_views(out@) =~= start + out_views(out@).subrange(start.len() as int, out_views(out@).len() as int));
    }
    used
}

pub open spec fn out_views(v: Seq<StyledText>) -> Seq<StyledView> {
    v.map_values(|s: StyledText| styled_view(s))
}

proof fn lemma_prefix_step(texts: Seq<Seq<char>>, k: int)
    requires
        0 <= k < texts.len(),
    ensures
        prefix_len(texts, k + 1) == prefix_len(texts, k) + texts[k].len(),
{
}

proof fn lemma_prefix_grows(texts: Seq<Seq<char>>, i: int, j: int)
    requires
        0 <= i <= j <= texts.len(),
    ensures
        prefix_len(texts, i) <= prefix_len(texts, j),
    decreases j - i,
{
    if i < j {
        lemma_prefix_grows(texts, i, j - 1);
    }
}

impl CodeTab {
    /// Draws row `i` of the pane, showing line `l` (see `drawn_row`): the pane is `width`
    /// columns wide (33 of which belong to the rest of the screen), the scroll bar stands at
    /// row `bar`, and `suggested` is the completion offered at the cursor.
    pub fn RenderCodeLine(
        &self,
        l: usize,
        i: usize,
        editingCode: bool,
        colorMode: &ColorMode,
        suggested: &String,
        width: u16,
        bar: usize,
    ) -> (row: Vec<StyledText>)
        requires
            self.wf(),
            l < self.lines@.len(),
            l < usize::MAX,
            mode_covers(*colorMode),
            texts_within(token_texts(self.lineTokens@[l as int]@), usize::MAX as int),
            self.cursor_tokens_within(usize::MAX as int),
            width >= 33,
            bar < usize::MAX,
        ensures
            out_views(row@) == drawn_row(
                *self,
                *colorMode,
                l as int,
                i as int,
                editingCode,
                suggested@,
                width - 33,
                bar as int,
            ),
    {
        let mut left: Vec<ViewPiece> = Vec::new();
        let mut right: Vec<ViewPiece> = Vec::new();
        let label = self.LineNumberText(l);
        let labelSize = crate::text::char_len(&label);
        let labelStyles = if l == self.cursor.0 {
            vec![ColorType::Red, ColorType::Bold, ColorType::Underline]
        } else {
            vec![ColorType::White, ColorType::Italic]
        };
        proof {
            assert(labelStyles@ =~= gutter_piece(*self, l as int).1.1);
        }
        push_piece(&mut left, ViewPiece { size: labelSize, text: styled_of(label, labelStyles) });
        let toks = &self.lineTokens[l];
        let ghost texts = token_texts(toks@);
        let ghost total = tokens_pieces(*self, *colorMode, l as int, editingCode, toks@, 0, 0);
        let mut cc: usize = 0;
        let mut k: usize = 0;
        proof {
            assert(pieces_view(left@) =~= seq![gutter_piece(*self, l as int)]);
            assert(pieces_view(right@) =~= Seq::<PieceView>::empty());
            assert(total.0 =~= Seq::<PieceView>::empty() + total.0);
            assert(total.1 =~= Seq::<PieceView>::empty() + total.1);
        }
        while k < toks.len()
            invariant
                k <= toks@.len(),
                toks@ == self.lineTokens@[l as int]@,
                texts == token_texts(toks@),
                texts_within(texts, usize::MAX as int),
                mode_covers(*colorMode),
                cc == prefix_len(texts, k as int),
                ({
                    let rest = tokens_pieces(*self, *colorMode, l as int, editingCode, toks@, k as int, cc as int);
                    &&& total.0 == pieces_view(left@).drop_first() + rest.0
                    &&& total.1 == pieces_view(right@) + rest.1
                    &&& total.2 == rest.2
                }),
                pieces_view(left@).len() >= 1,
                pieces_view(left@)[0] == gutter_piece(*self, l as int),
            decreases toks@.len() - k,
        {
            proof {
                lemma_prefix_step(texts, k as int);
                lemma_prefix_grows(texts, k + 1, texts.len() as int);
                assert(texts[k as int] == toks@[k as int].text@);
            }
            let ghost L = pieces_view(left@);
            let ghost R = pieces_view(right@);
            self.add_token_pieces(colorMode, l, editingCode, cc, &toks[k], &mut left, &mut right);
            proof {
                let (a, b) = token_pieces(
                    *self,
                    *colorMode,
                    l as int,
                    editingCode,
                    cc as int,
                    toks@[k as int].token,
                    toks@[k as int].text@,
                );
                assert(pieces_view(left@) == L + a);
                assert(pieces_view(left@).drop_first() =~= L.drop_first() + a);
                assert(pieces_view(left@)[0] == L[0]);
            }
            cc = cc + crate::text::char_len(&toks[k].text);
            k = k + 1;
        }
        // the end of the cursor's line
        let c = self.cursor;
        let ghost beforeEnd = pieces_view(left@);
        if l == c.0 && cc <= c.1 && editingCode {
            push_piece(&mut left, bar_piece());
            let slen = crate::text::char_len(suggested);
            if slen > 0 {
                let mut current: Vec<String> = Vec::new();
                self.GetCurrentToken(&mut current);
                if current.len() > 0 {
                    let n = crate::text::char_len(&current[0]);
                    let partial = if n <= slen {
                        crate::text::substring(suggested, n, slen)
                    } else {
                        String::new()
                    };
                    let size = if slen > n {
                        slen - n
                    } else {
                        0
                    };
                    let styles = vec![ColorType::BrightWhite, ColorType::Dim, ColorType::Italic];
                    proof {
                        assert(styles@ =~= seq![ColorType::BrightWhite, ColorType::Dim, ColorType::Italic]);
                        assert(crate::edits::lines_view(current@)[0] == current@[0]@);
                        if n > slen {
                            assert(partial@ =~= Seq::<char>::empty());
                        }
                    }
                    push_piece(&mut left, ViewPiece { size, text: styled_of(partial, styles) });
                }
            }
        }
        proof {
            let end = total.2;
            assert(pieces_view(left@) =~= beforeEnd + end_pieces(*self, l as int, editingCode, end, suggested@));
            assert(beforeEnd =~= seq![gutter_piece(*self, l as int)] + beforeEnd.drop_first());
            assert(tokens_pieces(*self, *colorMode, l as int, editingCode, toks@, k as int, cc as int).0 =~= Seq::<
                PieceView,
            >::empty());
            assert(tokens_pieces(*self, *colorMode, l as int, editingCode, toks@, k as int, cc as int).1 =~= Seq::<
                PieceView,
            >::empty());
            assert(pieces_view(left@) =~= seq![gutter_piece(*self, l as int)] + total.0 + end_pieces(
                *self,
                l as int,
                editingCode,
                total.2,
                suggested@,
            ));
        }
        // clipping to the pane's width
        let w: usize = (width - 33) as usize;
        let underline = l == c.0 && editingCode;
        let mut row: Vec<StyledText> = Vec::new();
        let u1 = clip_into(left, w, 0, underline, &mut row);
        let used = clip_into(right, w, u1, underline, &mut row);
        proof {
            assert(out_views(row@) =~= Seq::<StyledView>::empty() + out_views(row@));
        }
        // the scroll bar
        let ghost base = out_views(row@);
        let lowBar = if bar > 0 {
            bar - 1
        } else {
            0
        };
        let mut pinned = false;
        let mut q: usize = 0;
        while q < self.pinedLines.len()
            invariant
                q <= self.pinedLines@.len(),
                pinned == exists|x: int| 0 <= x < q && self.pinedLines@[x] == l,
            decreases self.pinedLines@.len() - q,
        {
            if self.pinedLines[q] == l {
                pinned = true;
            }
            q = q + 1;
        }
        proof {
            if self.pinedLines@.contains(l) {
                let x = choose|x: int| 0 <= x < self.pinedLines@.len() && self.pinedLines@[x] == l;
                assert(pinned);
            }
            if pinned {
                let x = choose|x: int| 0 <= x < q && self.pinedLines@[x] == l;
                assert(self.pinedLines@.contains(l));
            }
        }
        if (lowBar <= i && i <= bar + 1) || pinned {
            let mut p: usize = 0;
            while p < w - used
                invariant
                    used <= w,
                    p <= w - used,
                    out_views(row@) == base + padding(p as int),
                decreases w - used - p,
            {
                let mut space = String::new();
                crate::text::string_push(&mut space, ' ');
                let ghost before = out_views(row@);
                let item = styled_of(space, vec![ColorType::BrightWhite]);
                proof {
                    assert(styled_view(item) =~= (seq![' '], seq![ColorType::BrightWhite]));
                }
                row.push(item);
                proof {
                    assert(out_views(row@) =~= before.push(styled_view(item)));
                    assert(out_views(row@) =~= base + padding(p + 1));
                }
                p = p + 1;
            }
            let ghost padded_row = out_views(row@);
            let mut mark = String::new();
            if bar > 0 && i == bar - 1 {
                crate::text::string_push(&mut mark, '/');
                crate::text::string_push(&mut mark, '\\');
                let item = styled_of(mark, vec![ColorType::BrightWhite]);
                proof {
                    assert(styled_view(item) =~= (seq!['/', '\\'], seq![ColorType::BrightWhite]));
                }
                row.push(item);
                proof {
                    assert(out_views(row@) =~= padded_row.push(styled_view(item)));
                }
            } else if i == bar {
                crate::text::string_push(&mut mark, '|');
                crate::text::string_push(&mut mark, '|');
                let item = styled_of(mark, vec![ColorType::BrightWhite]);
                proof {
                    assert(styled_view(item) =~= (seq!['|', '|'], seq![ColorType::BrightWhite]));
                }
                row.push(item);
                proof {
                    assert(out_views(row@) =~= padded_row.push(styled_view(item)));
                }
            } else if i == bar + 1 {
                crate::text::string_push(&mut mark, '\\');
                crate::text::string_push(&mut mark, '/');
                let item = styled_of(mark, vec![ColorType::BrightWhite]);
                proof {
                    assert(styled_view(item) =~= (seq!['\\', '/'], seq![ColorType::BrightWhite]));
                }
                row.push(item);
                proof {
                    assert(out_views(row@) =~= padded_row.push(styled_view(item)));
                }
            } else {
                crate::text::string_push(&mut mark, ' ');
                crate::text::string_push(&mut mark, ' ');
                let item = styled_of(mark, vec![ColorType::OnRed]);
                proof {
                    assert(styled_view(item) =~= (seq![' ', ' '], seq![ColorType::OnRed]));
                }
                row.push(item);
                let ghost marked = out_views(row@);
                proof {
                    assert(marked =~= padded_row.push(styled_view(item)));
                }
                let mut done: Vec<StyledText> = Vec::new();
                let ghost n = marked.len();
                while row.len() > 0
                    invariant
                        n == marked.len(),
                        done@.len() + row@.len() == n,
                        out_views(done@) == marked.subrange(0, done@.len() as int).map_values(
                            |v: StyledView| (v.0, v.1.push(ColorType::Underline)),
                        ),
                        out_views(row@) == marked.subrange(done@.len() as int, n as int),
                    decreases row@.len(),
                {
                    let ghost k: int = done@.len() as int;
                    let ghost rv = out_views(row@);
                    let mut item = row.remove(0);
                    proof {
                        assert(styled_view(item) == rv[0]);
                        assert(out_views(row@) =~= rv.drop_first());
                        assert(rv[0] == marked[k as int]);
                    }
                    item.styles.push(ColorType::Underline);
                    let ghost dv = out_views(done@);
                    done.push(item);
                    proof {
                        assert(out_views(done@) =~= dv.push(styled_view(item)));
                        assert(out_views(done@) =~= marked.subrange(0, k + 1).map_values(
                            |v: StyledView| (v.0, v.1.push(ColorType::Underline)),
                        ));
                        assert(out_views(row@) =~= marked.subrange(k + 1, n as int));
                    }
                }
                row = done;
                proof {
                    assert(marked.subrange(0, n as int) =~= marked);
                }
            }
        }
        row
    }
}

/// The first line drawn (see `CodeTab::FirstVisibleLine`).
pub open spec fn first_visible(t: CodeTab) -> int {
    if t.scrolled + t.mouseScrolled < 0 {
        0
    } else {
        t.scrolled + t.mouseScrolled
    }
}

/// How many lines a pane of `height` rows shows from line `first` (ten rows belong to the
/// rest of the screen).
pub open spec fn shown_lines(t: CodeTab, first: int, height: int) -> int {
    let end = first + height - 10;
    let stop = if end < t.lines@.len() {
        end
    } else {
        t.lines@.len() as int
    };
    if stop > first {
        stop - first
    } else {
        0
    }
}

impl CodeTab {
    /// The rows of a pane of `height` by `width` cells: the lines from the first visible
    /// one (see `first_visible`), each drawn by `RenderCodeLine` with its row number, as many
    /// as fit; `bar` is the scroll bar's row. The view is not moved here: callers bring it to
    /// the cursor with `AdjustScroll` first.
    pub fn GetScrolledText(
        &self,
        height: u16,
        width: u16,
        editingCode: bool,
        colorMode: &ColorMode,
        suggested: &String,
        bar: usize,
    ) -> (rows: Vec<Vec<StyledText>>)
        requires
            self.wf(),
            self.scrolled + self.mouseScrolled <= isize::MAX,
            first_visible(*self) + height >= 10,
            first_visible(*self) + height <= usize::MAX,
            mode_covers(*colorMode),
            forall|l: int|
                0 <= l < self.lines@.len() ==> texts_within(
                    token_texts(#[trigger] self.lineTokens@[l]@),
                    usize::MAX as int,
                ),
            self.cursor_tokens_within(usize::MAX as int),
            width >= 33,
            bar < usize::MAX,
        ensures
            rows@.len() == shown_lines(*self, first_visible(*self), height as int),
            forall|i: int|
                0 <= i < rows@.len() ==> out_views(#[trigger] rows@[i]@) == drawn_row(
                    *self,
                    *colorMode,
                    first_visible(*self) + i,
                    i,
                    editingCode,
                    suggested@,
                    width - 33,
                    bar as int,
                ),
    {
        let first = self.FirstVisibleLine();
        let end = first + (height as usize) - 10;
        let mut rows: Vec<Vec<StyledText>> = Vec::new();
        let mut line = first;
        while line < end && line < self.lines.len()
            invariant
                first <= line,
                first == first_visible(*self),
                end == first + height - 10,
                line <= end || line == first,
                line <= self.lines@.len() || line == first,
                rows@.len() == line - first,
                self.wf(),
                mode_covers(*colorMode),
                forall|l: int|
                    0 <= l < self.lines@.len() ==> texts_within(
                        token_texts(#[trigger] self.lineTokens@[l]@),
                        usize::MAX as int,
                    ),
                self.cursor_tokens_within(usize::MAX as int),
                width >= 33,
                bar < usize::MAX,
                forall|i: int|
                    0 <= i < rows@.len() ==> out_views(#[trigger] rows@[i]@) == drawn_row(
                        *self,
                        *colorMode,
                        first + i,
                        i,
                        editingCode,
                        suggested@,
                        width - 33,
                        bar as int,
                    ),
            decreases self.lines@.len() - line,
        {
            let row = self.RenderCodeLine(line, line - first, editingCode, colorMode, suggested, width, bar);
            rows.push(row);
            line = line + 1;
        }
        rows
    }
}

} // verus!
