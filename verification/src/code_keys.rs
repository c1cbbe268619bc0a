//! The code panel's key actions on a tab that go beyond a single editing call: starting a
//! selection with shift, the cursor jumps to a line's indentation or end, to the file's
//! ends and to a scope's ends, the amounts the delete shortcuts remove, typing with bracket
//! pairs, selecting everything, and finding the nearest line that holds the search term.
use vstd::prelude::*;
use crate::code_tabs::{CodeTab, scroll_settled};
use crate::text::{contains_seq, str_contains};
use crate::token_info::node_at;
use crate::rust_linter::rev;
use crate::key_handling::{CodeKey, jump_target, lines_fit};

verus! {

/// The number of spaces a line starts with.
pub open spec fn leading_spaces(l: Seq<char>) -> nat
    decreases l.len(),
{
    if l.len() == 0 || l[0] != ' ' {
        0
    } else {
        1 + leading_spaces(l.drop_first())
    }
}

/// Whether only the cursor, the selection's other end, the selection flag and the scroll
/// position may differ between two tabs.
pub open spec fn same_text(a: CodeTab, b: CodeTab) -> bool {
    &&& a.lines == b.lines
    &&& a.lineTokens == b.lineTokens
    &&& a.lineTokenFlags == b.lineTokenFlags
    &&& a.scopeJumps == b.scopeJumps
    &&& a.scopes == b.scopes
    &&& a.linearScopes == b.linearScopes
    &&& a.changeBuffer == b.changeBuffer
    &&& a.redoneBuffer == b.redoneBuffer
    &&& a.searchTerm == b.searchTerm
    &&& a.searchIndex == b.searchIndex
}

/// Whether two tabs agree on everything but their edit history.
pub open spec fn same_view(a: CodeTab, b: CodeTab) -> bool {
    &&& a.lines == b.lines
    &&& a.lineTokens == b.lineTokens
    &&& a.lineTokenFlags == b.lineTokenFlags
    &&& a.cursor == b.cursor
    &&& a.cursorEnd == b.cursorEnd
    &&& a.highlighting == b.highlighting
    &&& a.scrolled == b.scrolled
    &&& a.mouseScrolled == b.mouseScrolled
}

/// The text typed for a character: an opening bracket or quote brings its closing one.
pub open spec fn typed_text(c: char) -> Seq<char> {
    if c == '(' {
        seq!['(', ')']
    } else if c == '{' {
        seq!['{', '}']
    } else if c == '[' {
        seq!['[', ']']
    } else if c == '"' {
        seq!['"', '"']
    } else {
        seq![c]
    }
}

/// The distance between two lines.
pub open spec fn line_distance(i: int, c: int) -> int {
    if i >= c {
        i - c
    } else {
        c - i
    }
}

/// The line the search goes to: lines are read from the top, a line holding the term
/// replaces the best so far unless it is farther from the cursor, and the reading stops at
/// the first holding line that is farther; `best` is the (distance, line) found so far.
pub open spec fn search_from(ls: Seq<Seq<char>>, term: Seq<char>, c: int, i: int, best: Option<(int, int)>) -> Option<
    (int, int),
>
    decreases ls.len() - i,
{
    if i < 0 || i >= ls.len() {
        best
    } else if !contains_seq(ls[i], term) {
        search_from(ls, term, c, i + 1, best)
    } else if best matches Some((d, _)) && line_distance(i, c) > d {
        best
    } else {
        search_from(ls, term, c, i + 1, Some((line_distance(i, c), i)))
    }
}

impl CodeTab {
    /// Starts a selection at the cursor when shift is held; says whether a cursor move
    /// extends the selection.
    pub fn HandleHighlightOnCursorMove(&mut self, shift: bool) -> (highlight: bool)
        ensures
            highlight == shift,
            final(self).cursorEnd == if shift && !old(self).highlighting {
                old(self).cursor
            } else {
                old(self).cursorEnd
            },
            final(self).highlighting == (shift || old(self).highlighting),
            final(self).cursor == old(self).cursor,
            final(self).scrolled == old(self).scrolled,
            final(self).mouseScrolled == old(self).mouseScrolled,
            same_text(*old(self), *final(self)),
    {
        if shift {
            if !self.highlighting {
                self.cursorEnd = self.cursor;
                self.highlighting = true;
            }
            true
        } else {
            false
        }
    }

    /// Moves the cursor to its line's indentation, or to the line's start when it is there
    /// already or before it.
    pub fn MoveCursorToIndent(&mut self)
        requires
            old(self).wf(),
        ensures
            final(self).wf(),
            final(self).cursor == (old(self).cursor.0, ({
                let indent = leading_spaces(old(self).text()[old(self).cursor.0 as int]);
                if old(self).cursor.1 <= indent {
                    0usize
                } else {
                    indent as usize
                }
            })),
            final(self).mouseScrolled == 0,
            final(self).scrolled == old(self).scrolled,
            final(self).cursorEnd == old(self).cursorEnd,
            final(self).highlighting == old(self).highlighting,
            same_text(*old(self), *final(self)),
    {
        self.mouseScrolled = 0;
        let line = self.cursor.0;
        let n = crate::text::char_len(&self.lines[line]);
        let ghost l = self.text()[line as int];
        let mut indent: usize = 0;
        proof {
            assert(l.subrange(0, n as int) =~= l);
        }
        while indent < n && self.lines[line].as_str().get_char(indent) == ' '
            invariant
                line < self.lines@.len(),
                l == self.text()[line as int],
                n == l.len(),
                indent <= n,
                leading_spaces(l) == indent + leading_spaces(l.subrange(indent as int, n as int)),
            decreases n - indent,
        {
            proof {
                let rest = l.subrange(indent as int, n as int);
                assert(rest[0] == l[indent as int]);
                assert(rest.drop_first() =~= l.subrange(indent + 1, n as int));
            }
            indent = indent + 1;
        }
        proof {
            let rest = l.subrange(indent as int, n as int);
            if indent < n {
                assert(rest[0] == l[indent as int]);
            }
            assert(leading_spaces(rest) == 0);
        }
        if self.cursor.1 <= indent {
            self.cursor.1 = 0;
        } else {
            self.cursor.1 = indent;
        }
    }

    /// Moves the cursor to its line's end, folding the mouse scrolling into the view first.
    pub fn MoveCursorToLineEnd(&mut self)
        requires
            old(self).wf(),
        ensures
            final(self).wf(),
            final(self).cursor == (old(self).cursor.0, old(self).text()[old(self).cursor.0 as int].len() as usize),
            final(self).scrolled == scroll_settled(old(self).scrolled, old(self).mouseScrolled),
            final(self).mouseScrolled == 0,
            final(self).cursorEnd == old(self).cursorEnd,
            final(self).highlighting == old(self).highlighting,
            same_text(*old(self), *final(self)),
    {
        self.settle_scroll_view();
        let line = self.cursor.0;
        self.cursor.1 = crate::text::char_len(&self.lines[line]);
    }

    /// Moves the cursor to the first line (the column stays), folding the mouse scrolling
    /// into the view first.
    pub fn MoveCursorToTop(&mut self)
        requires
            old(self).wf(),
        ensures
            final(self).wf(),
            final(self).cursor == (0usize, old(self).cursor.1),
            final(self).scrolled == scroll_settled(old(self).scrolled, old(self).mouseScrolled),
            final(self).mouseScrolled == 0,
            final(self).cursorEnd == old(self).cursorEnd,
            final(self).highlighting == old(self).highlighting,
            same_text(*old(self), *final(self)),
    {
        self.settle_scroll_view();
        self.cursor.0 = 0;
    }

    /// Moves the cursor to the last line (the column stays), folding the mouse scrolling
    /// into the view first.
    pub fn MoveCursorToBottom(&mut self)
        requires
            old(self).wf(),
        ensures
            final(self).wf(),
            final(self).cursor == ((old(self).lines@.len() - 1) as usize, old(self).cursor.1),
            final(self).scrolled == scroll_settled(old(self).scrolled, old(self).mouseScrolled),
            final(self).mouseScrolled == 0,
            final(self).cursorEnd == old(self).cursorEnd,
            final(self).highlighting == old(self).highlighting,
            same_text(*old(self), *final(self)),
    {
        self.settle_scroll_view();
        self.cursor.0 = self.lines.len() - 1;
    }

    fn settle_scroll_view(&mut self)
        requires
            old(self).wf(),
        ensures
            final(self).wf(),
            final(self).scrolled == scroll_settled(old(self).scrolled, old(self).mouseScrolled),
            final(self).mouseScrolled == 0,
            final(self).cursor == old(self).cursor,
            final(self).cursorEnd == old(self).cursorEnd,
            final(self).highlighting == old(self).highlighting,
            same_text(*old(self), *final(self)),
    {
        let s: i128 = self.scrolled as i128 + self.mouseScrolled as i128;
        self.scrolled = if s < 0 {
            0
        } else if s > usize::MAX as i128 {
            usize::MAX
        } else {
            s as usize
        };
        self.mouseScrolled = 0;
    }

    /// Jumps to the start line (or, with `toEnd`, the end line) of the scope the cursor's
    /// line is in, at that line's end.
    pub fn JumpToScopeEdge(&mut self, toEnd: bool)
        requires
            old(self).wf(),
            lines_fit(*old(self)),
            old(self).cursor.0 < old(self).scopeJumps@.len(),
        ensures
            final(self).wf(),
            ({
                let node = node_at(old(self).scopes, rev(old(self).scopeJumps@[old(self).cursor.0 as int]@));
                final(self).cursor == jump_target(*old(self), (if toEnd {
                    node.end
                } else {
                    node.start
                }) as int, 1)
            }),
            final(self).mouseScrolled == 0,
            final(self).scrolled == old(self).scrolled,
            final(self).cursorEnd == old(self).cursorEnd,
            final(self).highlighting == old(self).highlighting,
            same_text(*old(self), *final(self)),
    {
        let mut jumps = crate::rust_linter::reversed(&self.scopeJumps[self.cursor.0]);
        let node = self.scopes.GetNode(&mut jumps);
        let line = if toEnd {
            node.end
        } else {
            node.start
        };
        proof {
            let nl = self.lines@.len();
            let l = if line < nl { line as int } else { nl - 1 };
            assert(self.text()[l].len() * 2 <= usize::MAX);
        }
        self.JumpCursor(line, 1);
    }

    /// How much the delete key removes (characters back, and how far past the cursor the
    /// deletion starts): one character back; with shift one forward; by token with option;
    /// to the line's start, or with shift to its end, with the shortcut modifier.
    pub fn DeleteAmount(&mut self, key: CodeKey) -> (amount: (usize, usize))
        requires
            old(self).wf(),
            old(self).cursor_tokens_within(usize::MAX as int),
            key == CodeKey::DeleteToLineEnd ==> old(self).cursor.1 <= old(self).text()[old(self).cursor.0 as int].len(),
        ensures
            final(self).wf(),
            final(self).lines == old(self).lines,
            final(self).cursorEnd == old(self).cursorEnd,
            final(self).highlighting == old(self).highlighting,
            final(self).changeBuffer == old(self).changeBuffer,
            final(self).redoneBuffer == old(self).redoneBuffer,
            final(self).lineTokens == old(self).lineTokens,
            final(self).lineTokenFlags == old(self).lineTokenFlags,
            key == CodeKey::DeleteForward ==> amount == (1usize, 1usize),
            key == CodeKey::DeleteTokenBack ==> amount == (old(self).token_left_span() as usize, 0usize),
            key == CodeKey::DeleteTokenForward ==> amount == (old(self).token_right_span() as usize, old(self).token_right_span() as usize),
            final(self).cursor.0 == old(self).cursor.0,
            !(key == CodeKey::DeleteTokenBack || key == CodeKey::DeleteTokenForward) ==> final(self).cursor == old(self).cursor,
            key == CodeKey::DeleteToLineStart ==> amount == (old(self).cursor.1, 0usize),
            key == CodeKey::DeleteToLineEnd ==> ({
                let n = (old(self).text()[old(self).cursor.0 as int].len() - old(self).cursor.1) as usize;
                amount == (n, n)
            }),
            !(key == CodeKey::DeleteForward || key == CodeKey::DeleteTokenBack || key == CodeKey::DeleteTokenForward
                || key == CodeKey::DeleteToLineStart || key == CodeKey::DeleteToLineEnd) ==> amount == (
            1usize, 0usize),
    {
        match key {
            CodeKey::DeleteForward => (1, 1),
            CodeKey::DeleteTokenBack => {
                let n = self.FindTokenPosLeft();
                (n, 0)
            },
            CodeKey::DeleteTokenForward => {
                let n = self.FindTokenPosRight();
                (n, n)
            },
            CodeKey::DeleteToLineStart => (self.cursor.1, 0),
            CodeKey::DeleteToLineEnd => {
                let n = crate::text::char_len(&self.lines[self.cursor.0]) - self.cursor.1;
                (n, n)
            },
            _ => (1, 0),
        }
    }

    /// Selects the whole text: the cursor goes to the end of the last line, the selection's
    /// other end to the start, and the view follows by mouse scrolling.
    pub fn SelectAll(&mut self)
        requires
            old(self).wf(),
            old(self).lines@.len() <= isize::MAX,
            old(self).mouseScrolled - old(self).lines@.len() >= isize::MIN,
        ensures
            final(self).wf(),
            final(self).cursor == ((old(self).lines@.len() - 1) as usize, old(self).text()[old(self).lines@.len()
                - 1].len() as usize),
            final(self).cursorEnd == (0usize, 0usize),
            final(self).highlighting,
            final(self).mouseScrolled == old(self).mouseScrolled - (old(self).lines@.len() - 1 - old(self).cursor.0),
            final(self).scrolled == old(self).scrolled,
            same_text(*old(self), *final(self)),
    {
        let last = self.lines.len() - 1;
        let newCursor = (last, crate::text::char_len(&self.lines[last]));
        let difference = last - self.cursor.0;
        self.mouseScrolled = self.mouseScrolled - difference as isize;
        self.cursorEnd = (0, 0);
        self.cursor = newCursor;
        self.highlighting = true;
    }

    /// Types one character; an opening bracket or quote brings its closing one, with the
    /// cursor left between them (see `typed_text`). Returns the lines to retokenize.
    pub fn TypeChar(&mut self, chr: char) -> (touched: Vec<usize>)
        requires
            old(self).wf(),
            old(self).selection_fits(),
        ensures
            final(self).wf(),
            ({
                let pair = typed_text(chr).len() == 2;
                exists|t: CodeTab|
                    crate::code_tabs::typed_post(*old(self), typed_text(chr), t, touched@) && t.wf() && *final(self)
                        == (if pair {
                        CodeTab { cursor: (t.cursor.0, (t.cursor.1 - 1) as usize), ..t }
                    } else {
                        t
                    })
            }),
    {
        let pair = chr == '(' || chr == '{' || chr == '[' || chr == '"';
        let mut text = String::new();
        crate::text::string_push(&mut text, chr);
        if chr == '(' {
            crate::text::string_push(&mut text, ')');
        } else if chr == '{' {
            crate::text::string_push(&mut text, '}');
        } else if chr == '[' {
            crate::text::string_push(&mut text, ']');
        } else if chr == '"' {
            crate::text::string_push(&mut text, '"');
        }
        proof {
            assert(text@ =~= typed_text(chr));
        }
        let touched = self.InsertChars(text);
        let ghost t = *self;
        if pair {
            self.cursor.1 = self.cursor.1 - 1;
        }
        touched
    }

    /// Joins the latest group of edits into the one before it (its edits first), so that a
    /// paste spanning lines is undone in one step.
    pub fn MergeLastChange(&mut self)
        requires
            old(self).changeBuffer@.len() == 1 ==> old(self).changeBuffer@[0]@.len() == 0,
        ensures
            ({
                let b = old(self).changeBuffer@;
                let n = b.len();
                if n == 0 {
                    final(self).changeBuffer@ == old(self).changeBuffer@
                } else if n == 1 {
                    final(self).changeBuffer@.len() == 0
                } else {
                    &&& final(self).changeBuffer@.len() == n - 1
                    &&& forall|i: int| 0 <= i < n - 2 ==> #[trigger] final(self).changeBuffer@[i] == b[i]
                    &&& final(self).changeBuffer@[n - 2]@ == b[n - 1]@ + b[n - 2]@
                }
            }),
            final(self).lines == old(self).lines,
            final(self).cursor == old(self).cursor,
            final(self).redoneBuffer == old(self).redoneBuffer,
            same_view(*old(self), *final(self)),
    {
        let ghost b = self.changeBuffer@;
        if let Some(mut elements) = self.changeBuffer.pop() {
            let ghost last = elements@;
            while elements.len() > 0
                invariant
                    b.len() >= 1,
                    b.len() == 1 ==> elements@.len() == 0,
                    self.changeBuffer@.len() == b.len() - 1,
                    forall|i: int| 0 <= i < b.len() - 2 ==> #[trigger] self.changeBuffer@[i] == b[i],
                    b.len() >= 2 ==> elements@ + self.changeBuffer@[b.len() - 2]@ == last + b[b.len() - 2]@,
                    last == b[b.len() - 1]@,
                    self.lines == old(self).lines,
                    self.cursor == old(self).cursor,
                    self.redoneBuffer == old(self).redoneBuffer,
                    same_view(*old(self), *self),
                decreases elements@.len(),
            {
                let ghost before = elements@;
                let ghost group = self.changeBuffer@[b.len() - 2]@;
                let element = elements.pop().unwrap();
                let size = self.changeBuffer.len() - 1;
                self.changeBuffer[size].insert(0, element);
                proof {
                    assert(self.changeBuffer@[b.len() - 2]@ =~= seq![element] + group);
                    assert(before =~= elements@.push(element));
                    assert(elements@ + self.changeBuffer@[b.len() - 2]@ =~= before + group);
                }
            }
            proof {
                if b.len() >= 2 {
                    assert(elements@ + self.changeBuffer@[b.len() - 2]@ =~= self.changeBuffer@[b.len() - 2]@);
                }
            }
        }
    }

    /// Finds the line nearest the cursor that holds the search term (a selection becomes the
    /// term first), preferring the later of two lines as near; the search index moves there
    /// when one is found (see `search_from`).
    pub fn FindCodeReferenceLine(&mut self)
        requires
            old(self).wf(),
            old(self).selection_fits(),
        ensures
            final(self).wf(),
            final(self).searchTerm@ == if old(self).highlighting {
                if old(self).selecting() {
                    crate::code_tabs::selected_text(old(self).text(), old(self).bounds().0, old(self).bounds().1)
                } else {
                    old(self).text()[old(self).cursor.0 as int].push('\n')
                }
            } else {
                old(self).searchTerm@
            },
            final(self).searchIndex == match search_from(
                old(self).text(),
                final(self).searchTerm@,
                old(self).cursor.0 as int,
                0,
                None,
            ) {
                Some((d, i)) => i as usize,
                None => old(self).searchIndex,
            },
            final(self).lines == old(self).lines,
            final(self).cursor == old(self).cursor,
            final(self).cursorEnd == old(self).cursorEnd,
            final(self).highlighting == old(self).highlighting,
            final(self).changeBuffer == old(self).changeBuffer,
            final(self).redoneBuffer == old(self).redoneBuffer,
    {
        if self.highlighting {
            let selection = self.GetSelection();
            self.searchTerm = selection;
        }
        let ghost ls = self.text();
        let c = self.cursor.0;
        let mut found = false;
        let mut bestDst: usize = 0;
        let mut bestLine: usize = 0;
        let mut index: usize = 0;
        let ghost total = search_from(ls, self.searchTerm@, c as int, 0, None);
        while index < self.lines.len()
            invariant_except_break
                ls == self.text(),
                index <= self.lines@.len(),
                total == search_from(ls, self.searchTerm@, c as int, index as int, if found {
                    Some((bestDst as int, bestLine as int))
                } else {
                    None
                }),
            ensures
                total == if found {
                    Some((bestDst as int, bestLine as int))
                } else {
                    None::<(int, int)>
                },
            decreases self.lines@.len() - index,
        {
            let dst = if index >= c {
                index - c
            } else {
                c - index
            };
            if !str_contains(self.lines[index].as_str(), self.searchTerm.as_str()) {
                index = index + 1;
                continue;
            }
            if found && dst > bestDst {
                break;
            }
            found = true;
            bestDst = dst;
            bestLine = index;
            index = index + 1;
        }
        if found {
            self.searchIndex = bestLine;
        }
    }
}

} // verus!
