//! Moving over, finding and removing whole tokens of the cursor's line.
use vstd::prelude::*;
use crate::code_tabs::{CodeTab, scroll_settled, clamp_col};
use crate::edits::lines_view;
use crate::text::{char_len, is_char, remove_range};
use crate::token_info::LuaTuple;

verus! {

/// The texts of the tokens.
pub open spec fn token_texts(tokens: Seq<LuaTuple>) -> Seq<Seq<char>> {
    tokens.map_values(|t: LuaTuple| t.text@)
}

/// The total length of the first `k` texts.
pub open spec fn prefix_len(texts: Seq<Seq<char>>, k: int) -> int
    decreases k,
{
    if k <= 0 {
        0
    } else {
        prefix_len(texts, k - 1) + texts[k - 1].len()
    }
}

/// The first token, from `k` on, whose end (with the tokens before it adding up to `acc`)
/// reaches column `col` (passes it, with `strict`); with that sum.
pub open spec fn first_reaching(texts: Seq<Seq<char>>, col: int, k: int, acc: int, strict: bool) -> Option<
    (int, int),
>
    decreases texts.len() - k,
{
    if k < 0 || k >= texts.len() {
        None
    } else if (if strict {
        acc + texts[k].len() > col
    } else {
        acc + texts[k].len() >= col
    }) {
        Some((k, acc))
    } else {
        first_reaching(texts, col, k + 1, acc + texts[k].len(), strict)
    }
}

/// The first token from `k` on that holds column `col` (the cursor just right of a token
/// counts as in it, just left of it does not); with the sum of the lengths before it.
pub open spec fn token_holding(texts: Seq<Seq<char>>, col: int, k: int, acc: int) -> Option<(int, int)>
    decreases texts.len() - k,
{
    if k < 0 || k >= texts.len() {
        None
    } else if acc + texts[k].len() >= col && col > acc {
        Some((k, acc))
    } else {
        token_holding(texts, col, k + 1, acc + texts[k].len())
    }
}

/// The first token from `k` on, other than a single space, that ends after column `col`.
pub open spec fn word_ending_after(texts: Seq<Seq<char>>, col: int, k: int, acc: int) -> Option<(int, int)>
    decreases texts.len() - k,
{
    if k < 0 || k >= texts.len() {
        None
    } else if texts[k] != seq![' '] && acc + texts[k].len() > col {
        Some((k, acc))
    } else {
        word_ending_after(texts, col, k + 1, acc + texts[k].len())
    }
}

/// The column reached by stepping left from `col` over spaces.
pub open spec fn back_over_spaces(line: Seq<char>, col: int) -> int
    decreases col,
{
    if col > 0 && col <= line.len() && line[col - 1] == ' ' {
        back_over_spaces(line, col - 1)
    } else {
        col
    }
}

/// The column reached by stepping right from `col` over spaces, stopping before the last
/// character.
pub open spec fn forward_over_spaces(line: Seq<char>, col: int) -> int
    decreases line.len() - col,
{
    if 0 <= col < line.len() - 1 && line[col] == ' ' {
        forward_over_spaces(line, col + 1)
    } else {
        col
    }
}

/// Tokens that precede another of the given text end the chain of names before a token.
pub open spec fn breaks_chain(t: Seq<char>) -> bool {
    t == seq![' '] || t == seq![','] || t == seq!['('] || t == seq![')'] || t == seq![';']
}

/// The names that lead up to the token at `i`, read backwards from it: the name before each
/// `::` and before each `.`, up to a space, a comma, a bracket or a semicolon.
pub open spec fn path_before(texts: Seq<Seq<char>>, i: int) -> Seq<Seq<char>>
    decreases i,
{
    if i <= 0 {
        Seq::empty()
    } else {
        let j = i - 1;
        if breaks_chain(texts[j]) {
            Seq::empty()
        } else {
            let here = if j > 1 && texts[j] == seq![':'] && texts[j - 1] == seq![':'] {
                seq![texts[j - 2]]
            } else if j > 0 && texts[j] == seq!['.'] {
                seq![texts[j - 1]]
            } else {
                Seq::empty()
            };
            here + path_before(texts, j)
        }
    }
}

/// The texts of the tokens add up to no more than `bound` characters.
pub open spec fn texts_within(texts: Seq<Seq<char>>, bound: int) -> bool {
    prefix_len(texts, texts.len() as int) <= bound
}

proof fn lemma_prefix_mono(texts: Seq<Seq<char>>, i: int, j: int)
    requires
        0 <= i <= j <= texts.len(),
    ensures
        prefix_len(texts, i) <= prefix_len(texts, j),
    decreases j - i,
{
    if i < j {
        lemma_prefix_mono(texts, i, j - 1);
    }
}

/// Finds the first token reaching (or passing) `col`.
fn find_reaching(tokens: &Vec<LuaTuple>, col: usize, strict: bool) -> (res: Option<(usize, usize)>)
    requires
        texts_within(token_texts(tokens@), usize::MAX as int),
    ensures
        res is None <==> first_reaching(token_texts(tokens@), col as int, 0, 0, strict) is None,
        res matches Some((k, acc)) ==> first_reaching(token_texts(tokens@), col as int, 0, 0, strict)
            == Some((k as int, acc as int)) && acc == prefix_len(token_texts(tokens@), k as int) && k
            < tokens@.len(),
{
    let ghost texts = token_texts(tokens@);
    proof {
        lemma_reaching_found(texts, col as int, 0, 0, strict);
    }
    let mut acc: usize = 0;
    let mut k: usize = 0;
    while k < tokens.len()
        invariant
            texts == token_texts(tokens@),
            k <= tokens@.len(),
            acc == prefix_len(texts, k as int),
            texts_within(texts, usize::MAX as int),
            first_reaching(texts, col as int, 0, 0, strict) == first_reaching(texts, col as int, k as int, acc as int, strict),
        decreases tokens@.len() - k,
    {
        proof {
            lemma_prefix_mono(texts, k + 1, texts.len() as int);
            assert(texts[k as int] == tokens@[k as int].text@);
        }
        let n = char_len(&tokens[k].text);
        let reached = if strict {
            acc + n > col
        } else {
            acc + n >= col
        };
        if reached {
            return Some((k, acc));
        }
        acc = acc + n;
        k = k + 1;
    }
    None
}

/// The end of the first token (other than a single space) that ends after `col`.
fn find_word_end(tokens: &Vec<LuaTuple>, col: usize) -> (res: Option<usize>)
    requires
        texts_within(token_texts(tokens@), usize::MAX as int),
    ensures
        res == match word_ending_after(token_texts(tokens@), col as int, 0, 0) {
            Some((k, acc)) => Some((acc + token_texts(tokens@)[k].len()) as usize),
            None => None::<usize>,
        },
{
    let ghost texts = token_texts(tokens@);
    let mut acc: usize = 0;
    let mut k: usize = 0;
    while k < tokens.len()
        invariant
            texts == token_texts(tokens@),
            k <= tokens@.len(),
            acc == prefix_len(texts, k as int),
            texts_within(texts, usize::MAX as int),
            word_ending_after(texts, col as int, 0, 0) == word_ending_after(texts, col as int, k as int, acc as int),
        decreases tokens@.len() - k,
    {
        proof {
            lemma_prefix_mono(texts, k + 1, texts.len() as int);
            assert(texts[k as int] == tokens@[k as int].text@);
        }
        let n = char_len(&tokens[k].text);
        if !is_char(&tokens[k].text, ' ') && acc + n > col {
            return Some(acc + n);
        }
        acc = acc + n;
        k = k + 1;
    }
    None
}

/// Finds the token holding `col`.
fn find_holding(tokens: &Vec<LuaTuple>, col: usize) -> (res: Option<(usize, usize)>)
    requires
        texts_within(token_texts(tokens@), usize::MAX as int),
    ensures
        res is None <==> token_holding(token_texts(tokens@), col as int, 0, 0) is None,
        res matches Some((k, acc)) ==> token_holding(token_texts(tokens@), col as int, 0, 0) == Some(
            (k as int, acc as int),
        ) && acc == prefix_len(token_texts(tokens@), k as int) && k < tokens@.len(),
{
    let ghost texts = token_texts(tokens@);
    proof {
        lemma_holding_found(texts, col as int, 0, 0);
    }
    let mut acc: usize = 0;
    let mut k: usize = 0;
    while k < tokens.len()
        invariant
            texts == token_texts(tokens@),
            k <= tokens@.len(),
            acc == prefix_len(texts, k as int),
            texts_within(texts, usize::MAX as int),
            token_holding(texts, col as int, 0, 0) == token_holding(texts, col as int, k as int, acc as int),
        decreases tokens@.len() - k,
    {
        proof {
            lemma_prefix_mono(texts, k + 1, texts.len() as int);
            assert(texts[k as int] == tokens@[k as int].text@);
        }
        let n = char_len(&tokens[k].text);
        if acc + n >= col && col > acc {
            return Some((k, acc));
        }
        acc = acc + n;
        k = k + 1;
    }
    None
}

impl CodeTab {
    /// The tokens of the cursor's line add up to no more than `bound` characters.
    pub open spec fn cursor_tokens_within(&self, bound: int) -> bool {
        texts_within(token_texts(self.lineTokens@[self.cursor.0 as int]@), bound)
    }

    /// Moves the cursor left to the start of the token it is in or after, first stepping
    /// back over spaces (the column is first brought within the line).
    pub fn MoveCursorLeftToken(&mut self)
        requires
            old(self).wf(),
            old(self).cursor_tokens_within(usize::MAX as int),
        ensures
            final(self).wf(),
            final(self).scrolled == scroll_settled(old(self).scrolled, old(self).mouseScrolled),
            final(self).mouseScrolled == 0,
            final(self).lines == old(self).lines,
            final(self).lineTokens == old(self).lineTokens,
            final(self).lineTokenFlags == old(self).lineTokenFlags,
            ({
                let c = old(self).cursor;
                let line = old(self).text()[c.0 as int];
                let col = back_over_spaces(line, clamp_col(line, c.1) as int);
                final(self).cursor == (c.0, match first_reaching(
                    token_texts(old(self).lineTokens@[c.0 as int]@),
                    col,
                    0,
                    0,
                    false,
                ) {
                    Some((_, acc)) => acc as usize,
                    None => col as usize,
                })
            }),
    {
        let s: i128 = self.scrolled as i128 + self.mouseScrolled as i128;
        self.scrolled = if s < 0 {
            0
        } else if s > usize::MAX as i128 {
            usize::MAX
        } else {
            s as usize
        };
        self.mouseScrolled = 0;
        let c = self.cursor;
        let length = char_len(&self.lines[c.0]);
        let mut col = if c.1 <= length {
            c.1
        } else {
            length
        };
        let ghost line = self.text()[c.0 as int];
        let ghost start = col;
        while col > 0 && self.lines[c.0].as_str().get_char(col - 1) == ' '
            invariant
                c.0 < self.lines@.len(),
                line == self.text()[c.0 as int],
                col <= length,
                length == line.len(),
                back_over_spaces(line, start as int) == back_over_spaces(line, col as int),
            decreases col,
        {
            col = col - 1;
        }
        proof {
            assert(back_over_spaces(line, col as int) == col);
        }
        let found = find_reaching(&self.lineTokens[c.0], col, false);
        self.cursor = (c.0, match found {
            Some((_, acc)) => acc,
            None => col,
        });
    }

    /// How many columns lie between the cursor (brought within its line) and the start of
    /// the token it is in or after, stepping back over spaces first.
    pub open spec fn token_left_span(&self) -> int {
        let c = self.cursor;
        let line = self.text()[c.0 as int];
        let col = back_over_spaces(line, clamp_col(line, c.1) as int);
        let start = match first_reaching(token_texts(self.lineTokens@[c.0 as int]@), col, 0, 0, false) {
            Some((_, acc)) => acc,
            None => col,
        };
        clamp_col(line, c.1) - start
    }

    /// How many columns lie between the cursor (brought within its line) and the end of the
    /// first token that ends beyond it, stepping over spaces first (0 on an empty line).
    pub open spec fn token_right_span(&self) -> int {
        let c = self.cursor;
        let line = self.text()[c.0 as int];
        let here = clamp_col(line, c.1);
        let col = forward_over_spaces(line, here as int);
        if line.len() == 0 {
            0
        } else {
            let end = match first_reaching(token_texts(self.lineTokens@[c.0 as int]@), col, 0, 0, true) {
                Some((k, acc)) => acc + token_texts(self.lineTokens@[c.0 as int]@)[k].len(),
                None => col,
            };
            end - here
        }
    }

    /// How many columns the cursor would move left to the start of a token (see
    /// `MoveCursorLeftToken`); the cursor's column is brought within its line.
    pub fn FindTokenPosLeft(&mut self) -> (n: usize)
        requires
            old(self).wf(),
            old(self).cursor_tokens_within(usize::MAX as int),
        ensures
            final(self).wf(),
            final(self).cursor == (old(self).cursor.0, clamp_col(
                old(self).text()[old(self).cursor.0 as int],
                old(self).cursor.1,
            )),
            n == old(self).token_left_span(),
            final(self).cursorEnd == old(self).cursorEnd,
            final(self).highlighting == old(self).highlighting,
            final(self).changeBuffer == old(self).changeBuffer,
            final(self).redoneBuffer == old(self).redoneBuffer,
            final(self).lines == old(self).lines,
            final(self).lineTokens == old(self).lineTokens,
            final(self).lineTokenFlags == old(self).lineTokenFlags,
            final(self).scrolled == old(self).scrolled,
            final(self).mouseScrolled == old(self).mouseScrolled,
    {
        let c = self.cursor;
        let length = char_len(&self.lines[c.0]);
        let here = if c.1 <= length {
            c.1
        } else {
            length
        };
        self.cursor = (c.0, here);
        let mut col = here;
        let ghost line = self.text()[c.0 as int];
        while col > 0 && self.lines[c.0].as_str().get_char(col - 1) == ' '
            invariant
                c.0 < self.lines@.len(),
                line == self.text()[c.0 as int],
                col <= here <= length,
                length == line.len(),
                back_over_spaces(line, here as int) == back_over_spaces(line, col as int),
            decreases col,
        {
            col = col - 1;
        }
        proof {
            assert(back_over_spaces(line, col as int) == col);
        }
        let found = find_reaching(&self.lineTokens[c.0], col, false);
        let target = match found {
            Some((k, acc)) => {
                proof {
                    let texts = token_texts(self.lineTokens@[c.0 as int]@);
                    lemma_reaching_start(texts, col as int, 0, 0);
                }
                acc
            },
            None => col,
        };
        here - target
    }

    /// How many columns the cursor would move right to the end of a token: from its column
    /// (brought within the line, which it also keeps), stepping over spaces, to the end of
    /// the first token that ends beyond that. An empty line gives 0.
    pub fn FindTokenPosRight(&mut self) -> (n: usize)
        requires
            old(self).wf(),
            old(self).cursor_tokens_within(usize::MAX as int),
        ensures
            final(self).wf(),
            final(self).cursor == (old(self).cursor.0, if old(self).text()[old(self).cursor.0 as int].len() == 0 {
                old(self).cursor.1
            } else {
                clamp_col(old(self).text()[old(self).cursor.0 as int], old(self).cursor.1)
            }),
            n == old(self).token_right_span(),
            final(self).cursorEnd == old(self).cursorEnd,
            final(self).highlighting == old(self).highlighting,
            final(self).changeBuffer == old(self).changeBuffer,
            final(self).redoneBuffer == old(self).redoneBuffer,
            final(self).lines == old(self).lines,
            final(self).lineTokens == old(self).lineTokens,
            final(self).lineTokenFlags == old(self).lineTokenFlags,
            final(self).scrolled == old(self).scrolled,
            final(self).mouseScrolled == old(self).mouseScrolled,
    {
        let c = self.cursor;
        let length = char_len(&self.lines[c.0]);
        if length == 0 {
            return 0;
        }
        let here = if c.1 <= length {
            c.1
        } else {
            length
        };
        self.cursor = (c.0, here);
        let mut col = here;
        let ghost line = self.text()[c.0 as int];
        while col < length - 1 && self.lines[c.0].as_str().get_char(col) == ' '
            invariant
                c.0 < self.lines@.len(),
                line == self.text()[c.0 as int],
                here <= col <= length,
                length == line.len(),
                length > 0,
                forward_over_spaces(line, here as int) == forward_over_spaces(line, col as int),
            decreases length - col,
        {
            col = col + 1;
        }
        proof {
            assert(forward_over_spaces(line, col as int) == col);
        }
        let found = find_reaching(&self.lineTokens[c.0], col, true);
        let target = match found {
            Some((k, acc)) => {
                proof {
                    let texts = token_texts(self.lineTokens@[c.0 as int]@);
                    lemma_prefix_mono(texts, k + 1, texts.len() as int);
                    assert(texts[k as int] == self.lineTokens@[c.0 as int]@[k as int].text@);
                }
                acc + char_len(&self.lineTokens[c.0][k].text)
            },
            None => col,
        };
        proof {
            if let Some((k, acc)) = found {
                let texts = token_texts(self.lineTokens@[c.0 as int]@);
                lemma_reaching_passes(texts, col as int, 0, 0);
            }
        }
        target - here
    }

    /// Moves the cursor right to the end of the first token (other than a single space)
    /// that ends beyond it; it stays when there is none.
    pub fn MoveCursorRightToken(&mut self)
        requires
            old(self).wf(),
            old(self).cursor_tokens_within(usize::MAX as int),
        ensures
            final(self).wf(),
            final(self).scrolled == scroll_settled(old(self).scrolled, old(self).mouseScrolled),
            final(self).mouseScrolled == 0,
            final(self).lines == old(self).lines,
            final(self).lineTokens == old(self).lineTokens,
            final(self).lineTokenFlags == old(self).lineTokenFlags,
            ({
                let c = old(self).cursor;
                let texts = token_texts(old(self).lineTokens@[c.0 as int]@);
                final(self).cursor == (c.0, match word_ending_after(texts, c.1 as int, 0, 0) {
                    Some((k, acc)) => (acc + texts[k].len()) as usize,
                    None => c.1,
                })
            }),
    {
        let s: i128 = self.scrolled as i128 + self.mouseScrolled as i128;
        self.scrolled = if s < 0 {
            0
        } else if s > usize::MAX as i128 {
            usize::MAX
        } else {
            s as usize
        };
        self.mouseScrolled = 0;
        let c = self.cursor;
        match find_word_end(&self.lineTokens[c.0], c.1) {
            Some(end) => {
                self.cursor = (c.0, end);
            },
            None => {},
        }
    }

    /// Appends to `tokenOutput` the token that holds the cursor and then the names that lead
    /// up to it (see `path_before`); nothing when no token holds the cursor.
    pub fn GetCurrentToken(&self, tokenOutput: &mut Vec<String>)
        requires
            self.wf(),
            self.cursor_tokens_within(usize::MAX as int),
        ensures
            ({
                let texts = token_texts(self.lineTokens@[self.cursor.0 as int]@);
                lines_view(final(tokenOutput)@) == lines_view(old(tokenOutput)@) + match token_holding(
                    texts,
                    self.cursor.1 as int,
                    0,
                    0,
                ) {
                    Some((k, _)) => seq![texts[k]] + path_before(texts, k),
                    None => Seq::empty(),
                }
            }),
    {
        let tokens = &self.lineTokens[self.cursor.0];
        let ghost texts = token_texts(tokens@);
        let ghost before = lines_view(tokenOutput@);
        match find_holding(tokens, self.cursor.1) {
            None => {
                proof {
                    assert(lines_view(tokenOutput@) =~= before + Seq::<Seq<char>>::empty());
                }
            },
            Some((k, _)) => {
                tokenOutput.push(tokens[k].text.clone());
                proof {
                    assert(lines_view(tokenOutput@) =~= before + seq![texts[k as int]]);
                }
                let mut index: usize = k;
                while index > 0
                    invariant
                        texts == token_texts(tokens@),
                        index <= k < tokens@.len(),
                        lines_view(tokenOutput@) + path_before(texts, index as int) == before
                            + seq![texts[k as int]] + path_before(texts, k as int),
                    ensures
                        lines_view(tokenOutput@) == before + seq![texts[k as int]] + path_before(texts, k as int),
                    decreases index,
                {
                    let j = index - 1;
                    proof {
                        assert(texts[j as int] == tokens@[j as int].text@);
                        if j > 0 {
                            assert(texts[j - 1] == tokens@[j - 1].text@);
                        }
                        if j > 1 {
                            assert(texts[j - 2] == tokens@[j - 2].text@);
                        }
                    }
                    let t = &tokens[j].text;
                    if is_char(t, ' ') || is_char(t, ',') || is_char(t, '(') || is_char(t, ')')
                        || is_char(t, ';') {
                        proof {
                            assert(breaks_chain(texts[j as int]));
                            assert(path_before(texts, index as int) == Seq::<Seq<char>>::empty());
                            assert(lines_view(tokenOutput@) + Seq::<Seq<char>>::empty() =~= lines_view(tokenOutput@));
                        }
                        break;
                    }
                    let ghost out0 = lines_view(tokenOutput@);
                    if j > 1 && is_char(t, ':') && is_char(&tokens[j - 1].text, ':') {
                        tokenOutput.push(tokens[j - 2].text.clone());
                        proof {
                            assert(lines_view(tokenOutput@) =~= out0 + seq![texts[j - 2]]);
                            assert(out0 + (seq![texts[j - 2]] + path_before(texts, j as int))
                                =~= lines_view(tokenOutput@) + path_before(texts, j as int));
                        }
                    } else if j > 0 && is_char(t, '.') {
                        tokenOutput.push(tokens[j - 1].text.clone());
                        proof {
                            assert(lines_view(tokenOutput@) =~= out0 + seq![texts[j - 1]]);
                            assert(out0 + (seq![texts[j - 1]] + path_before(texts, j as int))
                                =~= lines_view(tokenOutput@) + path_before(texts, j as int));
                        }
                    } else {
                        proof {
                            assert(out0 + (Seq::<Seq<char>>::empty() + path_before(texts, j as int))
                                =~= lines_view(tokenOutput@) + path_before(texts, j as int));
                        }
                    }
                    index = j;
                    proof {
                        if index == 0 {
                            assert(lines_view(tokenOutput@) + Seq::<Seq<char>>::empty() =~= lines_view(tokenOutput@));
                        }
                    }
                }
                proof {
                    assert(lines_view(tokenOutput@) =~= before + (seq![texts[k as int]] + path_before(texts, k as int)));
                }
            },
        }
    }

    /// Removes from the cursor's line the text of the token that holds the cursor and puts
    /// the cursor where it began; tokens and history stay as they are.
    pub fn RemoveCurrentToken_NonUpdate(&mut self)
        requires
            old(self).wf(),
            old(self).cursor_tokens_within(old(self).text()[old(self).cursor.0 as int].len() as int),
        ensures
            final(self).wf(),
            ({
                let c = old(self).cursor;
                let texts = token_texts(old(self).lineTokens@[c.0 as int]@);
                let line = old(self).text()[c.0 as int];
                match token_holding(texts, c.1 as int, 0, 0) {
                    Some((k, acc)) => {
                        &&& final(self).text() == old(self).text().update(
                            c.0 as int,
                            line.subrange(0, acc) + line.subrange(acc + texts[k].len(), line.len() as int),
                        )
                        &&& final(self).cursor == (c.0, acc as usize)
                    },
                    None => final(self).lines == old(self).lines && final(self).cursor == c,
                }
            }),
            final(self).lineTokens == old(self).lineTokens,
            final(self).lineTokenFlags == old(self).lineTokenFlags,
            final(self).changeBuffer == old(self).changeBuffer,
            final(self).redoneBuffer == old(self).redoneBuffer,
    {
        let c = self.cursor;
        let length = char_len(&self.lines[c.0]);
        match find_holding(&self.lineTokens[c.0], c.1) {
            None => {},
            Some((k, acc)) => {
                let ghost ls = self.text();
                let ghost texts = token_texts(self.lineTokens@[c.0 as int]@);
                proof {
                    lemma_prefix_mono(texts, k + 1, texts.len() as int);
                    assert(texts[k as int] == self.lineTokens@[c.0 as int]@[k as int].text@);
                }
                let n = char_len(&self.lineTokens[c.0][k].text);
                let new_line = remove_range(&self.lines[c.0], acc, acc + n);
                self.lines.set(c.0, new_line);
                self.cursor = (c.0, acc);
                proof {
                    assert(self.text() =~= ls.update(
                        c.0 as int,
                        ls[c.0 as int].subrange(0, acc as int) + ls[c.0 as int].subrange(
                            acc + n,
                            ls[c.0 as int].len() as int,
                        ),
                    ));
                }
            },
        }
    }
}

/// A search started at token `k` with the lengths before it finds a token at or after `k`,
/// with the lengths before that one.
proof fn lemma_reaching_found(texts: Seq<Seq<char>>, col: int, k: int, acc: int, strict: bool)
    requires
        0 <= k,
        acc == prefix_len(texts, k),
    ensures
        first_reaching(texts, col, k, acc, strict) matches Some((j, a)) ==> k <= j < texts.len() && a
            == prefix_len(texts, j),
    decreases texts.len() - k,
{
    if k < texts.len() {
        lemma_reaching_found(texts, col, k + 1, acc + texts[k].len(), strict);
    }
}

proof fn lemma_holding_found(texts: Seq<Seq<char>>, col: int, k: int, acc: int)
    requires
        0 <= k,
        acc == prefix_len(texts, k),
    ensures
        token_holding(texts, col, k, acc) matches Some((j, a)) ==> k <= j < texts.len() && a
            == prefix_len(texts, j),
    decreases texts.len() - k,
{
    if k < texts.len() {
        lemma_holding_found(texts, col, k + 1, acc + texts[k].len());
    }
}

/// The token a search finds starts no later than the column it looked for.
proof fn lemma_reaching_start(texts: Seq<Seq<char>>, col: int, k: int, acc: int)
    requires
        acc <= col,
        0 <= k,
    ensures
        first_reaching(texts, col, k, acc, false) matches Some((_, a)) ==> a <= col,
    decreases texts.len() - k,
{
    if k < texts.len() && !(acc + texts[k].len() >= col) {
        lemma_reaching_start(texts, col, k + 1, acc + texts[k].len());
    }
}

/// The token a strict search finds ends beyond the column it looked for.
proof fn lemma_reaching_passes(texts: Seq<Seq<char>>, col: int, k: int, acc: int)
    requires
        0 <= k,
    ensures
        first_reaching(texts, col, k, acc, true) matches Some((j, a)) ==> a + texts[j].len() > col,
    decreases texts.len() - k,
{
    if k < texts.len() && !(acc + texts[k].len() > col) {
        lemma_reaching_passes(texts, col, k + 1, acc + texts[k].len());
    }
}

} // verus!
