//! Following the cursor with the view of a code tab, and the line-number gutter.
use vstd::prelude::*;
use crate::code_tabs::CodeTab;
use crate::term_render::{decimal, push_decimal};

verus! {

/// How close (in rows) the cursor may come to the top or bottom edge before the view
/// scrolls.
pub const SCROLL_BOUNDS: usize = 12;

/// How far past an edge the cursor must jump for the view to recenter on it.
pub const CENTER_BOUNDS: usize = 0;

/// How long (in milliseconds) after a mouse scroll the view stays where the mouse put it.
pub const SCROLL_PAUSE: u128 = 125;

pub open spec fn sat_sub(a: int, b: int) -> int {
    if a > b {
        a - b
    } else {
        0
    }
}

/// The row that puts the cursor in the middle of a pane of `height` rows (ten of which
/// belong to the rest of the screen), kept on a line.
pub open spec fn centered_row(cursor: int, height: int, lines: int) -> int {
    let c = sat_sub(cursor, sat_sub(height, 10) / 2);
    if c < lines - 1 {
        c
    } else {
        lines - 1
    }
}

/// The first pass: with the cursor near the top edge, the view recenters on a cursor that
/// jumped above it (unless a selection is being made) or else keeps the cursor
/// `SCROLL_BOUNDS` rows below its top.
pub open spec fn scroll_up_pass(s: int, cursor: int, highlighting: bool, height: int, lines: int) -> int {
    if s + SCROLL_BOUNDS >= cursor {
        if sat_sub(s, CENTER_BOUNDS as int) >= cursor && !highlighting {
            centered_row(cursor, height, lines)
        } else {
            sat_sub(cursor, SCROLL_BOUNDS as int)
        }
    } else {
        s
    }
}

/// Whether the second pass moves the view (the cursor is near the bottom edge).
pub open spec fn near_bottom(s: int, cursor: int, height: int) -> bool {
    sat_sub(s + height - 12, SCROLL_BOUNDS as int) <= cursor
}

/// The second pass: with the cursor near the bottom edge, the view recenters on a cursor
/// that jumped below it (unless a selection is being made) or else keeps the cursor
/// `SCROLL_BOUNDS` rows above its bottom.
pub open spec fn scroll_down_pass(s: int, cursor: int, highlighting: bool, height: int, lines: int) -> int {
    if near_bottom(s, cursor, height) {
        if s + height + CENTER_BOUNDS <= cursor && !highlighting {
            centered_row(cursor, height, lines)
        } else {
            sat_sub(cursor + SCROLL_BOUNDS, height - 12)
        }
    } else {
        s
    }
}

/// Whether the passes subtract below zero: the pane is too short for the view to follow
/// the cursor.
pub open spec fn scroll_underflows(s: int, cursor: int, highlighting: bool, height: int, lines: int) -> bool {
    let m = scroll_up_pass(s, cursor, highlighting, height, lines);
    m + height < 12 || (near_bottom(m, cursor, height) && !(m + height + CENTER_BOUNDS <= cursor
        && !highlighting) && height < 12)
}

/// How many times a pass kept the cursor at an edge while a selection was being made (each
/// time, the view pauses briefly so that a selection does not race down the file).
pub open spec fn scroll_pauses(s: int, cursor: int, highlighting: bool, height: int, lines: int) -> int {
    let m = scroll_up_pass(s, cursor, highlighting, height, lines);
    let first = if s + SCROLL_BOUNDS >= cursor && highlighting {
        1int
    } else {
        0
    };
    let second = if near_bottom(m, cursor, height) && highlighting {
        1int
    } else {
        0
    };
    first + second
}

/// Whether only the scroll position differs between two tabs.
pub open spec fn same_but_scroll(a: CodeTab, b: CodeTab) -> bool {
    &&& a.cursor == b.cursor
    &&& a.lines == b.lines
    &&& a.lineTokens == b.lineTokens
    &&& a.scopeJumps == b.scopeJumps
    &&& a.scopes == b.scopes
    &&& a.linearScopes == b.linearScopes
    &&& a.mouseScrolled == b.mouseScrolled
    &&& a.name == b.name
    &&& a.fileName == b.fileName
    &&& a.cursorEnd == b.cursorEnd
    &&& a.highlighting == b.highlighting
    &&& a.pauseScroll == b.pauseScroll
    &&& a.searchIndex == b.searchIndex
    &&& a.searchTerm == b.searchTerm
    &&& a.changeBuffer == b.changeBuffer
    &&& a.redoneBuffer == b.redoneBuffer
    &&& a.pinedLines == b.pinedLines
    &&& a.outlineKeywords == b.outlineKeywords
    &&& a.lineTokenFlags == b.lineTokenFlags
}

fn sub_or_zero(a: usize, b: usize) -> (r: usize)
    ensures
        r == sat_sub(a as int, b as int),
{
    if a > b {
        a - b
    } else {
        0
    }
}

/// The label of a line in the gutter: the cursor's line shows its number (counting from
/// 1), the others their distance from it.
pub open spec fn line_label_number(line: int, cursor: int) -> int {
    if line == cursor {
        line + 1
    } else if line > cursor {
        line - cursor
    } else {
        cursor - line
    }
}

/// `label` padded with spaces to `width + 1` characters.
pub open spec fn padded(label: Seq<char>, width: int) -> Seq<char> {
    if label.len() > width {
        label
    } else {
        label + Seq::new((width + 1 - label.len()) as nat, |i: int| ' ')
    }
}

proof fn lemma_decimal_len(n: nat)
    ensures
        1 <= decimal(n).len() <= n / 2 + 1,
    decreases n,
{
    if n >= 10 {
        lemma_decimal_len(n / 10);
    }
}

/// How many spaces the padding loop has added after `k` rounds to a label of `len`
/// characters: one per round while the label is at most `width` long.
pub open spec fn pad_count(len: int, width: int, k: int) -> int {
    if len > width {
        0
    } else if len + k <= width + 1 {
        k
    } else {
        width + 1 - len
    }
}

impl CodeTab {
    /// Moves the view to follow the cursor in a pane of `height` rows, unless the mouse
    /// scrolled within the last `SCROLL_PAUSE` milliseconds before `now`. Returns how many
    /// brief pauses the caller should make (see `scroll_pauses`).
    pub fn AdjustScroll(&mut self, height: u16, now: u128) -> (pauses: u8)
        requires
            old(self).wf(),
            old(self).scrolled + 0x10000 + SCROLL_BOUNDS <= usize::MAX,
            old(self).cursor.0 + SCROLL_BOUNDS <= usize::MAX,
            now > old(self).pauseScroll + SCROLL_PAUSE ==> !scroll_underflows(
                old(self).scrolled as int,
                old(self).cursor.0 as int,
                old(self).highlighting,
                height as int,
                old(self).lines@.len() as int,
            ),
        ensures
            same_but_scroll(*old(self), *final(self)),
            final(self).scrolled == if now > old(self).pauseScroll + SCROLL_PAUSE {
                scroll_down_pass(
                    scroll_up_pass(
                        old(self).scrolled as int,
                        old(self).cursor.0 as int,
                        old(self).highlighting,
                        height as int,
                        old(self).lines@.len() as int,
                    ),
                    old(self).cursor.0 as int,
                    old(self).highlighting,
                    height as int,
                    old(self).lines@.len() as int,
                )
            } else {
                old(self).scrolled as int
            },
            pauses == if now > old(self).pauseScroll + SCROLL_PAUSE {
                scroll_pauses(
                    old(self).scrolled as int,
                    old(self).cursor.0 as int,
                    old(self).highlighting,
                    height as int,
                    old(self).lines@.len() as int,
                )
            } else {
                0
            },
    {
        let elapsed: u128 = if now > self.pauseScroll {
            now - self.pauseScroll
        } else {
            0
        };
        if elapsed <= SCROLL_PAUSE {
            return 0;
        }
        let h: usize = height as usize;
        let cursor = self.cursor.0;
        let last = self.lines.len() - 1;
        let half = sub_or_zero(h, 10) / 2;
        let center = if sub_or_zero(cursor, half) < last {
            sub_or_zero(cursor, half)
        } else {
            last
        };
        let mut pauses: u8 = 0;
        let mut s = self.scrolled;
        if s + SCROLL_BOUNDS >= cursor {
            if sub_or_zero(s, CENTER_BOUNDS) >= cursor && !self.highlighting {
                s = center;
            } else {
                s = sub_or_zero(cursor, SCROLL_BOUNDS);
                if self.highlighting {
                    pauses = pauses + 1;
                }
            }
        }
        if sub_or_zero(s + h - 12, SCROLL_BOUNDS) <= cursor {
            if s + h + CENTER_BOUNDS <= cursor && !self.highlighting {
                s = center;
            } else {
                s = sub_or_zero(cursor + SCROLL_BOUNDS, h - 12);
                if self.highlighting {
                    pauses = pauses + 1;
                }
            }
        }
        self.scrolled = s;
        pauses
    }

    /// The first line drawn: the scroll position moved by the mouse scrolling, never above
    /// the first line.
    pub fn FirstVisibleLine(&self) -> (first: usize)
        requires
            self.scrolled + self.mouseScrolled <= isize::MAX,
        ensures
            first == if self.scrolled + self.mouseScrolled < 0 {
                0
            } else {
                self.scrolled + self.mouseScrolled
            },
    {
        let s: i128 = self.scrolled as i128 + self.mouseScrolled as i128;
        if s < 0 {
            0
        } else {
            s as usize
        }
    }

    /// The gutter text of line `line`: its label (see `line_label_number`), a colon and a
    /// space, padded to one more character than the digits of the line count plus one.
    pub fn LineNumberText(&self, line: usize) -> (text: String)
        requires
            self.wf(),
            line < usize::MAX,
        ensures
            text@ == padded(
                decimal(line_label_number(line as int, self.cursor.0 as int) as nat) + ": "@,
                decimal(self.lines@.len() as nat).len() + 1int,
            ),
    {
        let mut text = String::new();
        let n: usize = if line == self.cursor.0 {
            line + 1
        } else if line > self.cursor.0 {
            line - self.cursor.0
        } else {
            self.cursor.0 - line
        };
        push_decimal(&mut text, n as u64);
        let ghost label = text@;
        crate::text::string_push(&mut text, ':');
        crate::text::string_push(&mut text, ' ');
        proof {
            reveal_strlit(": ");
            assert(text@ =~= label + ": "@);
        }
        let digits = crate::term_render::decimal_string(self.lines.len() as u64);
        proof {
            lemma_decimal_len(self.lines@.len() as nat);
        }
        let width = digits.as_str().unicode_len() + 1;
        let ghost start = text@;
        let mut k: usize = 0;
        while k < width
            invariant
                k <= width,
                start.len() >= 3,
                text@ == start + Seq::new(pad_count(start.len() as int, width as int, k as int) as nat, |i: int| ' '),
            decreases width - k,
        {
            if text.as_str().unicode_len() <= width {
                crate::text::string_push(&mut text, ' ');
                proof {
                    assert(text@ =~= start + Seq::new(
                        pad_count(start.len() as int, width as int, k + 1) as nat,
                        |i: int| ' ',
                    ));
                }
            } else {
                proof {
                    assert(pad_count(start.len() as int, width as int, k + 1) == pad_count(
                        start.len() as int,
                        width as int,
                        k as int,
                    ));
                }
            }
            k = k + 1;
        }
        proof {
            if start.len() <= width {
                assert(text@ =~= start + Seq::new((width + 1 - start.len()) as nat, |i: int| ' '));
            } else {
                assert(text@ =~= start);
            }
        }
        text
    }
}

} // verus!
