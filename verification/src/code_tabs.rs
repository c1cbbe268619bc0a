//! An open file in the editor: its lines, their tokens, the cursor, the selection and the
//! undo and redo history. Columns count characters.
//!
//! Retokenizing a line needs the highlighting script, which runs outside the library: every
//! method that changes lines returns the line numbers to tokenize again, and
//! `RecalcTokens` takes the script's output for one line and says which line comes next.
use vstd::prelude::*;
use crate::edits::{Edit, Pos, Op, lines_view, rows_view, run_ops, run_rows, run_touched, group_ops, op_ok, op_lines, op_rows, op_cursor, op_touched, edit_op, edit_applies, apply_edit_lines, apply_edit_rows, edit_touched, lemma_op_rows_len, remove_rows_between, removed_rows, pos_eq, Deletion, Addition, NewLine, RemoveLine};
use crate::text::{char_len, concat, insert_at, remove_range, string_of_str, string_push, substring};
use crate::token_info::{LineTokenFlags, LuaTuple, OutlineKeyword, ScopeNode};

verus! {

/// One open file.
#[derive(Debug)]
pub struct CodeTab {
    /// (line, column) of the cursor.
    pub cursor: Pos,
    pub lines: Vec<String>,
    pub lineTokens: Vec<Vec<LuaTuple>>,
    pub scopeJumps: Vec<Vec<usize>>,
    pub scopes: ScopeNode,
    pub linearScopes: Vec<Vec<usize>>,
    pub scrolled: usize,
    /// Whole lines scrolled with the mouse since the view last followed the cursor.
    pub mouseScrolled: isize,
    pub name: String,
    pub fileName: String,
    /// The other end of the selection.
    pub cursorEnd: Pos,
    pub highlighting: bool,
    pub pauseScroll: u128,
    pub searchIndex: usize,
    pub searchTerm: String,
    /// Groups of edits that can be undone, the latest last.
    pub changeBuffer: Vec<Vec<Edit>>,
    /// Groups of undone edits that can be redone, the latest last.
    pub redoneBuffer: Vec<Vec<Edit>>,
    pub pinedLines: Vec<usize>,
    pub outlineKeywords: Vec<OutlineKeyword>,
    /// For each line, the flag set after each of its tokens.
    pub lineTokenFlags: Vec<Vec<Vec<LineTokenFlags>>>,
}

/// The scroll position once the mouse scrolling is folded into it (never below 0).
pub open spec fn scroll_settled(scrolled: usize, mouse: isize) -> usize {
    let s = scrolled + mouse;
    if s < 0 {
        0
    } else if s > usize::MAX {
        usize::MAX
    } else {
        s as usize
    }
}

/// Whether undoing (or redoing) `group` applies to the lines and leaves the cursor on a line.
pub open spec fn group_fits(ls: Seq<Seq<char>>, cursor: Pos, group: Seq<Edit>, undo: bool) -> bool {
    match run_ops(ls, cursor, group_ops(group, undo)) {
        Some((l, c)) => c.0 < l.len(),
        None => false,
    }
}

/// A deep copy of the lines.
pub fn copy_lines(lines: &Vec<String>) -> (res: Vec<String>)
    ensures
        lines_view(res@) == lines_view(lines@),
{
    let mut res: Vec<String> = Vec::new();
    let mut i: usize = 0;
    while i < lines.len()
        invariant
            i <= lines@.len(),
            res@.len() == i,
            forall|k: int| 0 <= k < i ==> #[trigger] res@[k]@ == lines@[k]@,
        decreases lines@.len() - i,
    {
        res.push(lines[i].clone());
        i = i + 1;
    }
    proof {
        assert(lines_view(res@) =~= lines_view(lines@));
    }
    res
}

proof fn lemma_run_step(ls: Seq<Seq<char>>, cursor: Pos, ops: Seq<Op>, i: int)
    requires
        0 <= i < ops.len(),
    ensures
        run_ops(ls, cursor, ops.subrange(i, ops.len() as int)) == if op_ok(ls, ops[i]) {
            run_ops(
                op_lines(ls, ops[i]),
                op_cursor(op_lines(ls, ops[i]), ops[i]),
                ops.subrange(i + 1, ops.len() as int),
            )
        } else {
            None
        },
{
    let rest = ops.subrange(i, ops.len() as int);
    assert(rest[0] == ops[i]);
    assert(rest.drop_first() =~= ops.subrange(i + 1, ops.len() as int));
}

proof fn lemma_rows_step<T>(rows: Seq<Seq<T>>, ops: Seq<Op>, i: int)
    requires
        0 <= i < ops.len(),
    ensures
        run_rows(rows, ops.subrange(i, ops.len() as int)) == run_rows(
            op_rows(rows, ops[i]),
            ops.subrange(i + 1, ops.len() as int),
        ),
        run_touched(ops.subrange(i, ops.len() as int)) == op_touched(ops[i]) + run_touched(
            ops.subrange(i + 1, ops.len() as int),
        ),
{
    let rest = ops.subrange(i, ops.len() as int);
    assert(rest[0] == ops[i]);
    assert(rest.drop_first() =~= ops.subrange(i + 1, ops.len() as int));
}

/// Whether undoing (or redoing) `group` applies to the lines and leaves the cursor on a line.
pub fn group_applies(lines: &Vec<String>, cursor: Pos, group: &Vec<Edit>, undo: bool) -> (ok: bool)
    ensures
        ok == group_fits(lines_view(lines@), cursor, group@, undo),
{
    let ghost ops = group_ops(group@, undo);
    let ghost start = run_ops(lines_view(lines@), cursor, ops);
    let mut copy = copy_lines(lines);
    let mut c = cursor;
    let mut i: usize = 0;
    proof {
        assert(ops.subrange(0, ops.len() as int) =~= ops);
    }
    while i < group.len()
        invariant
            i <= group@.len(),
            ops == group_ops(group@, undo),
            ops.len() == group@.len(),
            start == run_ops(lines_view(lines@), cursor, ops),
            run_ops(lines_view(copy@), c, ops.subrange(i as int, ops.len() as int)) == start,
        decreases group@.len() - i,
    {
        proof {
            lemma_run_step(lines_view(copy@), c, ops, i as int);
        }
        if !edit_applies(&copy, &group[i], undo) {
            return false;
        }
        c = apply_edit_lines(&mut copy, &group[i], undo);
        i = i + 1;
    }
    proof {
        assert(ops.subrange(i as int, ops.len() as int) =~= Seq::<Op>::empty());
    }
    c.0 < copy.len()
}

/// The fields that only a change of text touches: everything else stays.
pub open spec fn same_but_text(a: CodeTab, b: CodeTab) -> bool {
    &&& a.scopeJumps == b.scopeJumps
    &&& a.scopes == b.scopes
    &&& a.linearScopes == b.linearScopes
    &&& a.scrolled == b.scrolled
    &&& a.mouseScrolled == b.mouseScrolled
    &&& a.name == b.name
    &&& a.fileName == b.fileName
    &&& a.cursorEnd == b.cursorEnd
    &&& a.highlighting == b.highlighting
    &&& a.pauseScroll == b.pauseScroll
    &&& a.searchIndex == b.searchIndex
    &&& a.searchTerm == b.searchTerm
    &&& a.changeBuffer == b.changeBuffer
    &&& a.redoneBuffer == b.redoneBuffer
    &&& a.pinedLines == b.pinedLines
    &&& a.outlineKeywords == b.outlineKeywords
}

/// The two ends of a selection, the later one first.
pub open spec fn selection_bounds(cursor: Pos, cursor_end: Pos) -> (Pos, Pos) {
    if cursor_end.0 < cursor.0 || cursor_end.0 == cursor.0 && cursor_end.1 < cursor.1 {
        (cursor, cursor_end)
    } else {
        (cursor_end, cursor)
    }
}

/// Both ends of the selection `hi`..`lo` lie within their lines.
pub open spec fn selection_ok(ls: Seq<Seq<char>>, hi: Pos, lo: Pos) -> bool {
    &&& lo.0 <= hi.0 < ls.len()
    &&& lo.1 <= ls[lo.0 as int].len()
    &&& hi.1 <= ls[hi.0 as int].len()
    &&& (lo.0 == hi.0 ==> lo.1 <= hi.1)
}

/// Lines `from..to`, each followed by a newline.
pub open spec fn newline_joined(ls: Seq<Seq<char>>, from: int, to: int) -> Seq<char>
    decreases to - from,
{
    if to <= from {
        Seq::empty()
    } else {
        newline_joined(ls, from, to - 1) + ls[to - 1] + seq!['\n']
    }
}

/// The text between `lo` and `hi`, with a newline between lines.
pub open spec fn selected_text(ls: Seq<Seq<char>>, hi: Pos, lo: Pos) -> Seq<char> {
    let a = ls[lo.0 as int];
    let b = ls[hi.0 as int];
    if lo.0 == hi.0 {
        a.subrange(lo.1 as int, hi.1 as int)
    } else {
        a.subrange(lo.1 as int, a.len() as int) + seq!['\n'] + newline_joined(ls, lo.0 + 1, hi.0 as int)
            + b.subrange(0, hi.1 as int)
    }
}

/// The text recorded when a selection over several lines is deleted: the selected text, a
/// newline, and what followed the selection on its last line.
pub open spec fn deleted_selection_text(ls: Seq<Seq<char>>, hi: Pos, lo: Pos) -> Seq<char> {
    let b = ls[hi.0 as int];
    if lo.0 == hi.0 {
        selected_text(ls, hi, lo)
    } else {
        selected_text(ls, hi, lo) + seq!['\n'] + b.subrange(hi.1 as int, b.len() as int)
    }
}

/// The lines once the selection `hi`..`lo` is deleted.
pub open spec fn selection_removed(ls: Seq<Seq<char>>, hi: Pos, lo: Pos) -> Seq<Seq<char>> {
    let a = ls[lo.0 as int];
    let b = ls[hi.0 as int];
    ls.subrange(0, lo.0 as int) + seq![a.subrange(0, lo.1 as int) + b.subrange(hi.1 as int, b.len() as int)]
        + ls.subrange(hi.0 + 1, ls.len() as int)
}

pub open spec fn is_deletion(e: Edit, start: Pos, end: Pos, text: Seq<char>) -> bool {
    e matches Edit::Deletion(d) && d.start == start && d.end == end && d.text@ == text
}

pub open spec fn is_addition(e: Edit, start: Pos, end: Pos, text: Seq<char>) -> bool {
    e matches Edit::Addition(a) && a.start == start && a.end == end && a.text@ == text
}

pub open spec fn is_new_line(e: Edit, position: Pos) -> bool {
    e matches Edit::NewLine(n) && n.position == position
}

pub open spec fn is_remove_line(e: Edit, position: Pos) -> bool {
    e matches Edit::RemoveLine(r) && r.position == position
}

/// The edits recorded when the selection `hi`..`lo` is deleted.
pub open spec fn selection_record(edits: Seq<Edit>, ls: Seq<Seq<char>>, hi: Pos, lo: Pos) -> bool {
    if lo.0 == hi.0 {
        edits.len() == 1 && is_deletion(edits[0], hi, lo, deleted_selection_text(ls, hi, lo))
    } else {
        &&& edits.len() == 2
        &&& is_deletion(edits[0], hi, lo, deleted_selection_text(ls, hi, lo))
        &&& is_new_line(edits[1], ((hi.0 + 1) as usize, 0usize))
    }
}

/// The text between `lo` and `hi` (see `selected_text`).
fn selected_text_exec(lines: &Vec<String>, hi: Pos, lo: Pos) -> (text: String)
    requires
        selection_ok(lines_view(lines@), hi, lo),
    ensures
        text@ == selected_text(lines_view(lines@), hi, lo),
{
    let ghost ls = lines_view(lines@);
    let na = char_len(&lines[lo.0]);
    if lo.0 == hi.0 {
        return substring(&lines[lo.0], lo.1, hi.1);
    }
    let mut acc = substring(&lines[lo.0], lo.1, na);
    string_push(&mut acc, '\n');
    let ghost head = acc@;
    let mut k: usize = lo.0 + 1;
    while k < hi.0
        invariant
            lo.0 + 1 <= k <= hi.0,
            hi.0 < lines@.len(),
            ls == lines_view(lines@),
            acc@ == head + newline_joined(ls, lo.0 + 1, k as int),
        decreases hi.0 - k,
    {
        acc = concat(&acc, &lines[k]);
        string_push(&mut acc, '\n');
        proof {
            assert(acc@ =~= head + newline_joined(ls, lo.0 + 1, k + 1));
        }
        k = k + 1;
    }
    let tail = substring(&lines[hi.0], 0, hi.1);
    concat(&acc, &tail)
}

/// Records the deletion of the selection `hi`..`lo` at the end of `changeBuff`.
fn record_selection(lines: &Vec<String>, hi: Pos, lo: Pos, changeBuff: &mut Vec<Edit>)
    requires
        selection_ok(lines_view(lines@), hi, lo),
    ensures
        final(changeBuff)@.len() >= old(changeBuff)@.len(),
        final(changeBuff)@.subrange(0, old(changeBuff)@.len() as int) == old(changeBuff)@,
        selection_record(
            final(changeBuff)@.subrange(old(changeBuff)@.len() as int, final(changeBuff)@.len() as int),
            lines_view(lines@),
            hi,
            lo,
        ),
{
    let ghost ls = lines_view(lines@);
    let ghost n0 = changeBuff@.len();
    let num = lines.len();
    let selected = selected_text_exec(lines, hi, lo);
    let nb = char_len(&lines[hi.0]);
    if lo.0 == hi.0 {
        changeBuff.push(Edit::Deletion(Deletion { start: hi, end: lo, text: selected }));
    } else {
        let rest = substring(&lines[hi.0], hi.1, nb);
        let mut text = selected;
        string_push(&mut text, '\n');
        let text = concat(&text, &rest);
        proof {
            assert(text@ =~= deleted_selection_text(ls, hi, lo));
        }
        changeBuff.push(Edit::Deletion(Deletion { start: hi, end: lo, text }));
        changeBuff.push(Edit::NewLine(NewLine { position: (hi.0 + 1, 0) }));
    }
    proof {
        assert(changeBuff@.subrange(0, n0 as int) =~= old(changeBuff)@);
        let added = changeBuff@.subrange(n0 as int, changeBuff@.len() as int);
        assert(added[0] == changeBuff@[n0 as int]);
        if lo.0 != hi.0 {
            assert(added[1] == changeBuff@[n0 as int + 1]);
        }
    }
}

/// Deletes the selection `hi`..`lo` from the lines.
fn remove_selection_lines(lines: &mut Vec<String>, hi: Pos, lo: Pos)
    requires
        selection_ok(lines_view(old(lines)@), hi, lo),
    ensures
        lines_view(final(lines)@) == selection_removed(lines_view(old(lines)@), hi, lo),
{
    let ghost ls = lines_view(lines@);
    let num = lines.len();
    let nb = char_len(&lines[hi.0]);
    let head = substring(&lines[lo.0], 0, lo.1);
    let rest = substring(&lines[hi.0], hi.1, nb);
    let joined = concat(&head, &rest);
    lines.set(lo.0, joined);
    remove_rows_between(lines, lo.0 + 1, hi.0 + 1);
    proof {
        assert(lines_view(lines@) =~= selection_removed(ls, hi, lo));
    }
}

/// The column where text typed at column `col` goes in: the cursor's column, or the end of
/// the line when the cursor is beyond it.
pub open spec fn clamp_col(line: Seq<char>, col: usize) -> usize {
    if col <= line.len() {
        col
    } else {
        line.len() as usize
    }
}

/// `a + b`, or `usize::MAX` when that does not fit.
pub open spec fn sat_add(a: usize, b: int) -> usize {
    if a + b > usize::MAX {
        usize::MAX
    } else {
        (a + b) as usize
    }
}

/// `a - b`, or 0 when that is negative.
pub open spec fn sat_sub(a: usize, b: usize) -> usize {
    if a >= b {
        (a - b) as usize
    } else {
        0
    }
}

/// The line with `chs` typed at column `col`.
pub open spec fn typed_line(line: Seq<char>, col: usize, chs: Seq<char>) -> Seq<char> {
    let at = clamp_col(line, col);
    line.subrange(0, at as int) + chs + line.subrange(at as int, line.len() as int)
}

/// Deleting backwards from the start of a line (with other lines left) joins the line onto
/// the previous one.
pub open spec fn joins_back(ls: Seq<Seq<char>>, c: Pos, numDel: usize, cursorOffset: usize) -> bool {
    c.1 < numDel && cursorOffset == 0 && ls.len() > 1
}

/// The line the cursor goes to when its line is joined back: the previous one, or the first.
pub open spec fn back_line(c: Pos) -> usize {
    if c.0 > 0 {
        (c.0 - 1) as usize
    } else {
        0
    }
}

/// The lines after the cursor's line is removed and its text from the cursor on is appended
/// to the line the cursor goes to.
pub open spec fn joined_back(ls: Seq<Seq<char>>, c: Pos) -> Seq<Seq<char>> {
    let removed = ls.remove(c.0 as int);
    let b = back_line(c) as int;
    let line = ls[c.0 as int];
    removed.update(b, removed[b] + line.subrange(c.1 as int, line.len() as int))
}

/// The columns `from..to` that a deletion within the line removes.
pub open spec fn deleted_range(line: Seq<char>, col: usize, numDel: usize, cursorOffset: usize) -> (usize, usize) {
    let c = clamp_col(line, col);
    let from = if cursorOffset == 0 {
        sat_sub(c, numDel)
    } else {
        c
    };
    let end = sat_add(c, cursorOffset as int);
    let to = if end <= line.len() {
        end
    } else {
        line.len() as usize
    };
    (from, to)
}

/// Joins the cursor's line back onto the previous one; gives the new cursor and the removed text.
fn join_back_lines(lines: &mut Vec<String>, c: Pos) -> (res: (Pos, String))
    requires
        1 < old(lines)@.len(),
        c.0 < old(lines)@.len(),
        c.1 <= old(lines)@[c.0 as int]@.len(),
    ensures
        lines_view(final(lines)@) == joined_back(lines_view(old(lines)@), c),
        res.0 == (back_line(c), lines_view(old(lines)@).remove(c.0 as int)[back_line(c) as int].len() as usize),
        res.1@ == lines_view(old(lines)@)[c.0 as int].subrange(0, c.1 as int),
{
    let ghost ls = lines_view(lines@);
    let n = char_len(&lines[c.0]);
    let deleted = substring(&lines[c.0], 0, c.1);
    let remaining = substring(&lines[c.0], c.1, n);
    let _ = lines.remove(c.0);
    let b = if c.0 > 0 {
        c.0 - 1
    } else {
        0
    };
    proof {
        assert(lines_view(lines@) =~= ls.remove(c.0 as int));
    }
    let col = char_len(&lines[b]);
    let merged = concat(&lines[b], &remaining);
    lines.set(b, merged);
    proof {
        assert(lines_view(lines@) =~= joined_back(ls, c));
    }
    ((b, col), deleted)
}

/// The cursor, the selection's other end and the highlighting flag.
pub type CursorState = (Pos, Pos, bool);

/// Moving up or left without extending a selection that goes back ends it there: the cursor
/// takes the selection's other end.
pub open spec fn ends_selection_back(st: CursorState, highlight: bool) -> bool {
    let (c, e, h) = st;
    h && !highlight && c.0 > e.0 || c.1 > e.1 && !highlight && h
}

/// Moving down or right without extending a selection that goes forward ends it there.
pub open spec fn ends_selection_forward(st: CursorState, highlight: bool) -> bool {
    let (c, e, h) = st;
    h && !highlight && c.0 < e.0 || c.1 < e.1 && c.0 == e.1 && !highlight && h
}

/// The state once a selection that a move ends has been dropped: with `swap` the cursor and
/// the other end trade places; either way highlighting stops unless the move extends it.
pub open spec fn drop_selection(st: CursorState, highlight: bool, swap: bool) -> CursorState {
    let (c, e, h) = st;
    if swap {
        (e, c, false)
    } else if h && !highlight {
        (c, e, false)
    } else {
        st
    }
}

/// The state after moving the cursor up a line.
pub open spec fn moved_up(st: CursorState, highlight: bool) -> CursorState {
    let (c, e, h) = drop_selection(st, highlight, ends_selection_back(st, highlight));
    ((sat_sub(c.0, 1), c.1), e, h)
}

/// The state after moving the cursor down a line, in a text of `n` lines.
pub open spec fn moved_down(st: CursorState, highlight: bool, n: nat) -> CursorState {
    let (c, e, h) = drop_selection(st, highlight, ends_selection_forward(st, highlight));
    let down = sat_add(c.0, 1);
    ((if down <= n - 1 { down } else { (n - 1) as usize }, c.1), e, h)
}

/// Number of characters up to and including the first one that is not a space (all of
/// them if there is none).
pub open spec fn up_to_first_nonspace(line: Seq<char>) -> nat
    decreases line.len(),
{
    if line.len() == 0 {
        0
    } else if line[0] != ' ' {
        1
    } else {
        1 + up_to_first_nonspace(line.drop_first())
    }
}

proof fn lemma_up_to_first_nonspace(line: Seq<char>, i: int)
    requires
        0 <= i <= line.len(),
        forall|k: int| 0 <= k < i ==> line[k] == ' ',
    ensures
        i < line.len() && line[i] != ' ' ==> up_to_first_nonspace(line) == i + 1,
        i == line.len() ==> up_to_first_nonspace(line) == line.len(),
    decreases i,
{
    if i > 0 {
        lemma_up_to_first_nonspace(line.drop_first(), i - 1);
    }
}

/// The line begins with four spaces.
pub open spec fn indented(line: Seq<char>) -> bool {
    line.len() >= 4 && line.subrange(0, 4) == seq![' ', ' ', ' ', ' ']
}

/// Four spaces.
fn indent() -> (s: String)
    ensures
        s@ == seq![' ', ' ', ' ', ' '],
{
    let mut s = String::new();
    string_push(&mut s, ' ');
    string_push(&mut s, ' ');
    string_push(&mut s, ' ');
    string_push(&mut s, ' ');
    proof {
        assert(s@ =~= seq![' ', ' ', ' ', ' ']);
    }
    s
}

/// The lines after a line break typed at `c`: on an empty line a new empty line goes in
/// before it; otherwise the line is split at the cursor (or at its end).
pub open spec fn broken_lines(ls: Seq<Seq<char>>, c: Pos) -> Seq<Seq<char>> {
    let l = ls[c.0 as int];
    if l.len() == 0 {
        ls.insert(c.0 as int, Seq::empty())
    } else {
        let at = clamp_col(l, c.1) as int;
        ls.update(c.0 as int, l.subrange(0, at)).insert(c.0 + 1, l.subrange(at, l.len() as int))
    }
}

/// What undoing the latest group does to a tab (see `CodeTab::Undo`).
pub open spec fn undo_post(t0: CodeTab, t1: CodeTab, touched: Seq<usize>) -> bool {
    &&& t1.scrolled == scroll_settled(t0.scrolled, t0.mouseScrolled)
    &&& t1.mouseScrolled == 0
    &&& !t1.highlighting
    &&& if t0.changeBuffer@.len() > 0 && group_fits(
        t0.text(),
        t0.cursor,
        t0.changeBuffer@.last()@,
        true,
    ) {
        let group = t0.changeBuffer@.last()@;
        &&& run_ops(t0.text(), t0.cursor, group_ops(group, true)) == Some(
            (t1.text(), t1.cursor),
        )
        &&& rows_view(t1.lineTokens@) =~= run_rows(
            rows_view(t0.lineTokens@),
            group_ops(group, true),
        )
        &&& rows_view(t1.lineTokenFlags@) =~= run_rows(
            rows_view(t0.lineTokenFlags@),
            group_ops(group, true),
        )
        &&& touched =~= run_touched(group_ops(group, true))
        &&& t1.changeBuffer@ =~= t0.changeBuffer@.drop_last()
        &&& t1.redoneBuffer@ =~= t0.redoneBuffer@.push(
            t0.changeBuffer@.last(),
        )
    } else {
        &&& t1.lines == t0.lines
        &&& t1.cursor == t0.cursor
        &&& t1.lineTokens == t0.lineTokens
        &&& t1.lineTokenFlags == t0.lineTokenFlags
        &&& t1.changeBuffer == t0.changeBuffer
        &&& t1.redoneBuffer == t0.redoneBuffer
        &&& touched.len() == 0
    }
}

/// What redoing the latest undone group does to a tab (see `CodeTab::Redo`).
pub open spec fn redo_post(t0: CodeTab, t1: CodeTab, touched: Seq<usize>) -> bool {
    &&& t1.scrolled == scroll_settled(t0.scrolled, t0.mouseScrolled)
    &&& t1.mouseScrolled == 0
    &&& !t1.highlighting
    &&& if t0.redoneBuffer@.len() > 0 && group_fits(
        t0.text(),
        t0.cursor,
        t0.redoneBuffer@.last()@,
        false,
    ) {
        let group = t0.redoneBuffer@.last()@;
        &&& run_ops(t0.text(), t0.cursor, group_ops(group, false)) == Some(
            (t1.text(), t1.cursor),
        )
        &&& rows_view(t1.lineTokens@) =~= run_rows(
            rows_view(t0.lineTokens@),
            group_ops(group, false),
        )
        &&& rows_view(t1.lineTokenFlags@) =~= run_rows(
            rows_view(t0.lineTokenFlags@),
            group_ops(group, false),
        )
        &&& touched =~= run_touched(group_ops(group, false))
        &&& t1.redoneBuffer@ =~= t0.redoneBuffer@.drop_last()
        &&& t1.changeBuffer@ =~= t0.changeBuffer@.push(
            t0.redoneBuffer@.last(),
        )
    } else {
        &&& t1.lines == t0.lines
        &&& t1.cursor == t0.cursor
        &&& t1.lineTokens == t0.lineTokens
        &&& t1.lineTokenFlags == t0.lineTokenFlags
        &&& t1.changeBuffer == t0.changeBuffer
        &&& t1.redoneBuffer == t0.redoneBuffer
        &&& touched.len() == 0
    }
}

/// What typing `chs` does to a tab (see `CodeTab::InsertChars`).
pub open spec fn typed_post(t0: CodeTab, chs: Seq<char>, t1: CodeTab, touched: Seq<usize>) -> bool {
    &&& t1.redoneBuffer@.len() == 0
    &&& t1.scrolled == scroll_settled(t0.scrolled, t0.mouseScrolled)
    &&& t1.mouseScrolled == 0
    &&& {
        let ls = t0.text_after_selection();
        let c = t0.cursor_after_selection();
        &&& t1.text() =~= ls.update(c.0 as int, typed_line(ls[c.0 as int], c.1, chs))
        &&& t1.cursor == (c.0, sat_add(clamp_col(ls[c.0 as int], c.1), chs.len() as int))
        &&& t1.changeBuffer@.len() == t0.changeBuffer@.len() + 1
        &&& t1.changeBuffer@.drop_last() =~= t0.changeBuffer@
        &&& t1.changeBuffer@.last()@.len() >= 1
        &&& is_addition(t1.changeBuffer@.last()@[0], t1.cursor, c, chs)
        &&& t0.records_selection(t1.changeBuffer@.last()@.drop_first())
        &&& touched =~= seq![c.0]
    }
    &&& rows_view(t1.lineTokens@) =~= t0.rows_after_selection(
        rows_view(t0.lineTokens@),
    )
    &&& rows_view(t1.lineTokenFlags@) =~= t0.rows_after_selection(
        rows_view(t0.lineTokenFlags@),
    )
    &&& t1.highlighting == (t0.highlighting && !t0.selecting())
}

/// What deleting characters does to a tab (see `CodeTab::DelChars`).
pub open spec fn deleted_post(t0: CodeTab, numDel: usize, cursorOffset: usize, t1: CodeTab, touched: Seq<usize>) -> bool {
    &&& t1.redoneBuffer@.len() == 0
    &&& t1.changeBuffer@.len() == t0.changeBuffer@.len() + 1
    &&& t1.changeBuffer@.drop_last() =~= t0.changeBuffer@
    &&& touched =~= seq![t1.cursor.0]
    &&& {
        let ls = t0.text();
        let c = t0.cursor;
        let group = t1.changeBuffer@.last()@;
        if t0.selecting() {
            &&& t1.text() =~= t0.text_after_selection()
            &&& t1.cursor == t0.cursor_after_selection()
            &&& rows_view(t1.lineTokens@) =~= t0.rows_after_selection(
                rows_view(t0.lineTokens@),
            )
            &&& rows_view(t1.lineTokenFlags@) =~= t0.rows_after_selection(
                rows_view(t0.lineTokenFlags@),
            )
            &&& t0.records_selection(group)
            &&& t1.scrolled == t0.scrolled
            &&& t1.mouseScrolled == t0.mouseScrolled
        } else if joins_back(ls, c, numDel, cursorOffset) {
            let line = ls[c.0 as int];
            &&& t1.text() =~= joined_back(ls, c)
            &&& t1.cursor == (back_line(c), ls.remove(c.0 as int)[back_line(c) as int].len() as usize)
            &&& rows_view(t1.lineTokens@) =~= rows_view(t0.lineTokens@).remove(c.0 as int)
            &&& rows_view(t1.lineTokenFlags@) =~= rows_view(t0.lineTokenFlags@).remove(
                c.0 as int,
            )
            &&& group.len() == 2
            &&& is_deletion(group[0], t1.cursor, c, line.subrange(0, c.1 as int))
            &&& is_remove_line(group[1], (c.0, 0usize))
            &&& t1.scrolled == scroll_settled(t0.scrolled, t0.mouseScrolled)
            &&& t1.mouseScrolled == 0
        } else {
            let line = ls[c.0 as int];
            let (from, to) = deleted_range(line, c.1, numDel, cursorOffset);
            &&& t1.text() =~= ls.update(
                c.0 as int,
                line.subrange(0, from as int) + line.subrange(to as int, line.len() as int),
            )
            &&& t1.cursor == (c.0, from)
            &&& rows_view(t1.lineTokens@) =~= rows_view(t0.lineTokens@)
            &&& rows_view(t1.lineTokenFlags@) =~= rows_view(t0.lineTokenFlags@)
            &&& group.len() == 1
            &&& is_deletion(group[0], c, (c.0, from), line.subrange(from as int, to as int))
            &&& t1.scrolled == scroll_settled(t0.scrolled, t0.mouseScrolled)
            &&& t1.mouseScrolled == 0
        }
    }
}

/// What typing a line break does to a tab (see `CodeTab::LineBreakIn`).
pub open spec fn broke_post(t0: CodeTab, highlight: bool, t1: CodeTab, touched: Seq<usize>) -> bool {
    &&& t1.redoneBuffer@.len() == 0
    &&& t1.scrolled == scroll_settled(t0.scrolled, t0.mouseScrolled)
    &&& t1.mouseScrolled == 0
    &&& t1.text() =~= broken_lines(t0.text(), t0.cursor)
    &&& t1.changeBuffer@.len() == t0.changeBuffer@.len() + 1
    &&& t1.changeBuffer@.drop_last() =~= t0.changeBuffer@
    &&& t1.changeBuffer@.last()@.len() == 1
    &&& is_new_line(t1.changeBuffer@.last()@[0], t0.cursor)
    &&& t1.cursor_state() == moved_down(
        ((t0.cursor.0, 0usize), t0.cursorEnd, t0.highlighting),
        highlight,
        t0.lines@.len() + 1,
    )
    &&& {
        let c = t0.cursor;
        if t0.text()[c.0 as int].len() == 0 {
            &&& rows_view(t1.lineTokens@) =~= rows_view(t0.lineTokens@).update(
                c.0 as int,
                Seq::empty(),
            ).insert(c.0 as int, Seq::empty())
            &&& rows_view(t1.lineTokenFlags@) =~= rows_view(t0.lineTokenFlags@).insert(
                c.0 as int,
                Seq::empty(),
            )
            &&& touched.len() == 0
        } else {
            &&& rows_view(t1.lineTokens@) =~= rows_view(t0.lineTokens@).insert(
                c.0 + 1,
                Seq::empty(),
            )
            &&& rows_view(t1.lineTokenFlags@) =~= rows_view(t0.lineTokenFlags@).insert(
                c.0 + 1,
                Seq::empty(),
            )
            &&& touched =~= seq![c.0, (c.0 + 1) as usize]
        }
    }
}

impl CodeTab {
    /// The per-line vectors are as long as the lines.
    pub open spec fn rows_wf(&self) -> bool {
        &&& self.lineTokens@.len() == self.lines@.len()
        &&& self.lineTokenFlags@.len() == self.lines@.len()
    }

    /// A usable tab: at least one line, per-line vectors as long as the lines, and the
    /// cursor on a line.
    pub open spec fn wf(&self) -> bool {
        &&& self.lines@.len() >= 1
        &&& self.rows_wf()
        &&& self.cursor.0 < self.lines@.len()
    }

    pub open spec fn text(&self) -> Seq<Seq<char>> {
        lines_view(self.lines@)
    }

    /// Folds the mouse scrolling into the scroll position.
    fn settle_scroll(&mut self)
        ensures
            final(self).scrolled == scroll_settled(old(self).scrolled, old(self).mouseScrolled),
            final(self).mouseScrolled == 0,
            final(self).cursor == old(self).cursor,
            final(self).lines == old(self).lines,
            final(self).lineTokens == old(self).lineTokens,
            final(self).lineTokenFlags == old(self).lineTokenFlags,
            final(self).highlighting == old(self).highlighting,
            final(self).cursorEnd == old(self).cursorEnd,
            final(self).changeBuffer == old(self).changeBuffer,
            final(self).redoneBuffer == old(self).redoneBuffer,
    {
        let s: i128 = self.scrolled as i128 + self.mouseScrolled as i128;
        self.scrolled = if s < 0 {
            0
        } else if s > usize::MAX as i128 {
            usize::MAX
        } else {
            s as usize
        };
        self.mouseScrolled = 0;
    }

    /// Makes the change that undoing (or redoing) `e` makes.
    fn apply_edit(&mut self, e: &Edit, undo: bool) -> (touched: Vec<usize>)
        requires
            old(self).rows_wf(),
            op_ok(old(self).text(), edit_op(*e, undo)),
        ensures
            final(self).rows_wf(),
            final(self).text() == op_lines(old(self).text(), edit_op(*e, undo)),
            rows_view(final(self).lineTokens@) == op_rows(rows_view(old(self).lineTokens@), edit_op(*e, undo)),
            rows_view(final(self).lineTokenFlags@) == op_rows(
                rows_view(old(self).lineTokenFlags@),
                edit_op(*e, undo),
            ),
            final(self).cursor == op_cursor(final(self).text(), edit_op(*e, undo)),
            touched@ == op_touched(edit_op(*e, undo)),
            same_but_text(*old(self), *final(self)),
    {
        let ghost ls = self.text();
        let n = self.lines.len();
        let touched = edit_touched(e, undo, Ghost(ls));
        apply_edit_rows(&mut self.lineTokens, e, undo, Ghost(ls));
        apply_edit_rows(&mut self.lineTokenFlags, e, undo, Ghost(ls));
        let c = apply_edit_lines(&mut self.lines, e, undo);
        self.cursor = c;
        proof {
            lemma_op_rows_len(rows_view(old(self).lineTokens@), ls, edit_op(*e, undo));
            lemma_op_rows_len(rows_view(old(self).lineTokenFlags@), ls, edit_op(*e, undo));
        }
        touched
    }

    /// Makes the changes of a group, in order.
    fn apply_group(&mut self, group: &Vec<Edit>, undo: bool) -> (touched: Vec<usize>)
        requires
            old(self).rows_wf(),
            run_ops(old(self).text(), old(self).cursor, group_ops(group@, undo)) is Some,
        ensures
            final(self).rows_wf(),
            run_ops(old(self).text(), old(self).cursor, group_ops(group@, undo)) == Some(
                (final(self).text(), final(self).cursor),
            ),
            rows_view(final(self).lineTokens@) == run_rows(
                rows_view(old(self).lineTokens@),
                group_ops(group@, undo),
            ),
            rows_view(final(self).lineTokenFlags@) == run_rows(
                rows_view(old(self).lineTokenFlags@),
                group_ops(group@, undo),
            ),
            touched@ == run_touched(group_ops(group@, undo)),
            same_but_text(*old(self), *final(self)),
    {
        let ghost ops = group_ops(group@, undo);
        let ghost start = run_ops(self.text(), self.cursor, ops);
        let ghost tok0 = rows_view(self.lineTokens@);
        let ghost flg0 = rows_view(self.lineTokenFlags@);
        let mut touched: Vec<usize> = Vec::new();
        let mut i: usize = 0;
        proof {
            assert(ops.subrange(0, ops.len() as int) =~= ops);
        }
        while i < group.len()
            invariant
                i <= group@.len(),
                ops == group_ops(group@, undo),
                ops.len() == group@.len(),
                start is Some,
                self.rows_wf(),
                run_ops(self.text(), self.cursor, ops.subrange(i as int, ops.len() as int)) == start,
                run_rows(rows_view(self.lineTokens@), ops.subrange(i as int, ops.len() as int))
                    == run_rows(tok0, ops),
                run_rows(rows_view(self.lineTokenFlags@), ops.subrange(i as int, ops.len() as int))
                    == run_rows(flg0, ops),
                touched@ + run_touched(ops.subrange(i as int, ops.len() as int)) == run_touched(ops),
                same_but_text(*old(self), *self),
            decreases group@.len() - i,
        {
            proof {
                lemma_run_step(self.text(), self.cursor, ops, i as int);
                lemma_rows_step(rows_view(self.lineTokens@), ops, i as int);
                lemma_rows_step(rows_view(self.lineTokenFlags@), ops, i as int);
            }
            let ghost before = touched@;
            let mut t = self.apply_edit(&group[i], undo);
            touched.append(&mut t);
            proof {
                assert(before + (op_touched(ops[i as int]) + run_touched(
                    ops.subrange(i + 1, ops.len() as int),
                )) =~= touched@ + run_touched(ops.subrange(i + 1, ops.len() as int)));
            }
            i = i + 1;
        }
        proof {
            assert(ops.subrange(i as int, ops.len() as int) =~= Seq::<Op>::empty());
            assert(touched@ + Seq::<usize>::empty() =~= touched@);
        }
        touched
    }

    /// Undoes the latest group of edits and keeps it for redoing. Returns the lines to
    /// tokenize again. Whatever happens, the mouse scrolling is folded into the scroll
    /// position and the selection ends. A group that no longer applies to the lines stays
    /// where it is and nothing else changes.
    pub fn Undo(&mut self) -> (touched: Vec<usize>)
        requires
            old(self).wf(),
        ensures
            final(self).wf(),
            undo_post(*old(self), *final(self), touched@),
    {
        self.settle_scroll();
        self.highlighting = false;
        let n = self.changeBuffer.len();
        if n == 0 {
            return Vec::new();
        }
        if !group_applies(&self.lines, self.cursor, &self.changeBuffer[n - 1], true) {
            return Vec::new();
        }
        let group = self.changeBuffer.pop().unwrap();
        proof {
            assert(group@ == old(self).changeBuffer@.last()@);
        }
        let touched = self.apply_group(&group, true);
        self.redoneBuffer.push(group);
        touched
    }

    /// Redoes the latest undone group of edits and makes it undoable again. Returns the
    /// lines to tokenize again; otherwise as `Undo`.
    pub fn Redo(&mut self) -> (touched: Vec<usize>)
        requires
            old(self).wf(),
        ensures
            final(self).wf(),
            redo_post(*old(self), *final(self), touched@),
    {
        self.settle_scroll();
        self.highlighting = false;
        let n = self.redoneBuffer.len();
        if n == 0 {
            return Vec::new();
        }
        if !group_applies(&self.lines, self.cursor, &self.redoneBuffer[n - 1], false) {
            return Vec::new();
        }
        let group = self.redoneBuffer.pop().unwrap();
        proof {
            assert(group@ == old(self).redoneBuffer@.last()@);
        }
        let touched = self.apply_group(&group, false);
        self.changeBuffer.push(group);
        touched
    }

    /// A selection is active: highlighting is on and its two ends differ.
    pub open spec fn selecting(&self) -> bool {
        self.highlighting && self.cursorEnd != self.cursor
    }

    /// The later and the earlier end of the selection.
    pub open spec fn bounds(&self) -> (Pos, Pos) {
        selection_bounds(self.cursor, self.cursorEnd)
    }

    /// Both ends of an active selection lie within their lines.
    pub open spec fn selection_fits(&self) -> bool {
        self.selecting() ==> selection_ok(self.text(), self.bounds().0, self.bounds().1)
    }

    /// The lines once an active selection is deleted.
    pub open spec fn text_after_selection(&self) -> Seq<Seq<char>> {
        if self.selecting() {
            selection_removed(self.text(), self.bounds().0, self.bounds().1)
        } else {
            self.text()
        }
    }

    /// The cursor once an active selection is deleted.
    pub open spec fn cursor_after_selection(&self) -> Pos {
        if self.selecting() {
            self.bounds().1
        } else {
            self.cursor
        }
    }

    /// A per-line vector once an active selection is deleted.
    pub open spec fn rows_after_selection<T>(&self, rows: Seq<Seq<T>>) -> Seq<Seq<T>> {
        if self.selecting() {
            removed_rows(rows, self.bounds().0, self.bounds().1)
        } else {
            rows
        }
    }

    /// The edits recorded when an active selection is deleted (none otherwise).
    pub open spec fn records_selection(&self, edits: Seq<Edit>) -> bool {
        if self.selecting() {
            selection_record(edits, self.text(), self.bounds().0, self.bounds().1)
        } else {
            edits.len() == 0
        }
    }

    /// The selected text; without an active selection, the cursor's line and a newline.
    pub fn GetSelection(&self) -> (text: String)
        requires
            self.cursor.0 < self.lines@.len(),
            self.selection_fits(),
        ensures
            text@ == if self.selecting() {
                selected_text(self.text(), self.bounds().0, self.bounds().1)
            } else {
                self.text()[self.cursor.0 as int].push('\n')
            },
    {
        if self.highlighting && !pos_eq(self.cursor, self.cursorEnd) {
            let (hi, lo) = if self.cursorEnd.0 < self.cursor.0 || self.cursorEnd.0 == self.cursor.0
                && self.cursorEnd.1 < self.cursor.1 {
                (self.cursor, self.cursorEnd)
            } else {
                (self.cursorEnd, self.cursor)
            };
            selected_text_exec(&self.lines, hi, lo)
        } else {
            let mut text = self.lines[self.cursor.0].clone();
            string_push(&mut text, '\n');
            text
        }
    }

    /// Deletes an active selection, recording the deletion in `changeBuff`, and puts the
    /// cursor where the selection began. Returns whether there was one. The redo history is
    /// cleared either way.
    pub fn HandleHighlight(&mut self, changeBuff: &mut Vec<Edit>) -> (deleted: bool)
        requires
            old(self).wf(),
            old(self).selection_fits(),
        ensures
            final(self).wf(),
            deleted == old(self).selecting(),
            final(self).redoneBuffer@.len() == 0,
            final(self).text() == old(self).text_after_selection(),
            final(self).cursor == old(self).cursor_after_selection(),
            rows_view(final(self).lineTokens@) == old(self).rows_after_selection(
                rows_view(old(self).lineTokens@),
            ),
            rows_view(final(self).lineTokenFlags@) == old(self).rows_after_selection(
                rows_view(old(self).lineTokenFlags@),
            ),
            final(changeBuff)@.len() >= old(changeBuff)@.len(),
            final(changeBuff)@.subrange(0, old(changeBuff)@.len() as int) == old(changeBuff)@,
            !deleted ==> final(changeBuff)@ == old(changeBuff)@,
            old(self).records_selection(
                final(changeBuff)@.subrange(old(changeBuff)@.len() as int, final(changeBuff)@.len() as int),
            ),
            deleted ==> !final(self).highlighting && final(self).cursorEnd == final(self).cursor,
            !deleted ==> final(self).highlighting == old(self).highlighting && final(self).cursorEnd
                == old(self).cursorEnd,
            final(self).scrolled == old(self).scrolled,
            final(self).mouseScrolled == old(self).mouseScrolled,
            final(self).changeBuffer == old(self).changeBuffer,
            final(self).fileName == old(self).fileName,
    {
        self.redoneBuffer.clear();
        let ghost n0 = changeBuff@.len();
        if !(self.highlighting && !pos_eq(self.cursor, self.cursorEnd)) {
            proof {
                assert(changeBuff@.subrange(0, n0 as int) =~= changeBuff@);
                assert(changeBuff@.subrange(n0 as int, n0 as int) =~= Seq::<Edit>::empty());
            }
            return false;
        }
        let ghost ls = self.text();
        let (hi, lo) = if self.cursorEnd.0 < self.cursor.0 || self.cursorEnd.0 == self.cursor.0
            && self.cursorEnd.1 < self.cursor.1 {
            (self.cursor, self.cursorEnd)
        } else {
            (self.cursorEnd, self.cursor)
        };
        let ntok = self.lineTokens.len();
        record_selection(&self.lines, hi, lo, changeBuff);
        remove_selection_lines(&mut self.lines, hi, lo);
        let ghost t0 = self.lineTokens@;
        let ghost f0 = self.lineTokenFlags@;
        remove_rows_between(&mut self.lineTokens, lo.0 + 1, hi.0 + 1);
        remove_rows_between(&mut self.lineTokenFlags, lo.0 + 1, hi.0 + 1);
        self.highlighting = false;
        self.cursor = lo;
        self.cursorEnd = lo;
        proof {
            assert(lines_view(self.lines@).len() == self.lines@.len());
            assert(selection_removed(ls, hi, lo).len() == ls.len() - (hi.0 - lo.0));
            assert(rows_view(self.lineTokens@) =~= removed_rows(rows_view(t0), hi, lo));
            assert(rows_view(self.lineTokenFlags@) =~= removed_rows(rows_view(f0), hi, lo));
        }
        true
    }

    /// Types `chs` at the cursor (within the line, whatever characters it holds): an active
    /// selection is deleted first, the cursor moves past the typed text, and the insertion,
    /// with the selection's deletion, is recorded as one undoable group. Returns the lines to
    /// tokenize again.
    pub fn InsertChars(&mut self, chs: String) -> (touched: Vec<usize>)
        requires
            old(self).wf(),
            old(self).selection_fits(),
        ensures
            final(self).wf(),
            typed_post(*old(self), chs@, *final(self), touched@),
    {
        let mut changeBuff: Vec<Edit> = Vec::new();
        let _ = self.HandleHighlight(&mut changeBuff);
        proof {
            assert(changeBuff@.subrange(0, changeBuff@.len() as int) =~= changeBuff@);
        }
        let preCursor = self.cursor;
        self.settle_scroll();
        let ghost ls = self.text();
        let length = char_len(&self.lines[self.cursor.0]);
        let at = if self.cursor.1 <= length {
            self.cursor.1
        } else {
            length
        };
        let n = char_len(&chs);
        let ghost typed = chs@;
        let new_line = insert_at(&self.lines[self.cursor.0], at, &chs);
        self.lines.set(self.cursor.0, new_line);
        self.cursor = (self.cursor.0, at.saturating_add(n));
        let ghost rest = changeBuff@;
        changeBuff.insert(0, Edit::Addition(Addition { start: self.cursor, end: preCursor, text: chs }));
        proof {
            assert(changeBuff@.drop_first() =~= rest);
            assert(self.text() =~= ls.update(preCursor.0 as int, typed_line(ls[preCursor.0 as int], preCursor.1, typed)));
        }
        self.changeBuffer.push(changeBuff);
        vec![self.cursor.0]
    }

    /// Deletes characters at the cursor. An active selection is deleted instead, if there is
    /// one. Otherwise, with `cursorOffset` 0, `numDel` characters go from before the cursor;
    /// when the cursor is nearer than that to the start of its line (and other lines are
    /// left), the line is joined onto the previous one instead. With a non-zero
    /// `cursorOffset`, up to `cursorOffset` characters go from the cursor on. The deletion is
    /// recorded as one undoable group. Returns the lines to tokenize again.
    pub fn DelChars(&mut self, numDel: usize, cursorOffset: usize) -> (touched: Vec<usize>)
        requires
            old(self).wf(),
            old(self).selection_fits(),
            !old(self).selecting() && joins_back(old(self).text(), old(self).cursor, numDel, cursorOffset)
                ==> old(self).cursor.1 <= old(self).text()[old(self).cursor.0 as int].len(),
        ensures
            final(self).wf(),
            deleted_post(*old(self), numDel, cursorOffset, *final(self), touched@),
    {
        let mut changeBuff: Vec<Edit> = Vec::new();
        if self.HandleHighlight(&mut changeBuff) {
            proof {
                assert(changeBuff@.subrange(0, changeBuff@.len() as int) =~= changeBuff@);
            }
            self.changeBuffer.push(changeBuff);
            return vec![self.cursor.0];
        }
        let preCursor = self.cursor;
        self.settle_scroll();
        let ghost ls = self.text();
        let num = self.lines.len();
        let length = char_len(&self.lines[self.cursor.0]);
        if self.cursor.1 < numDel && cursorOffset == 0 && num > 1 {
            let ghost t0 = self.lineTokens@;
            let ghost f0 = self.lineTokenFlags@;
            let (c, deleted) = join_back_lines(&mut self.lines, preCursor);
            let _ = self.lineTokens.remove(preCursor.0);
            let _ = self.lineTokenFlags.remove(preCursor.0);
            self.cursor = c;
            let g = vec![
                Edit::Deletion(Deletion { start: c, end: preCursor, text: deleted }),
                Edit::RemoveLine(RemoveLine { position: (preCursor.0, 0) }),
            ];
            proof {
                assert(rows_view(self.lineTokens@) =~= rows_view(t0).remove(preCursor.0 as int));
                assert(rows_view(self.lineTokenFlags@) =~= rows_view(f0).remove(preCursor.0 as int));
                assert(lines_view(self.lines@).len() == self.lines@.len());
                assert(g@.len() == 2);
                assert(is_deletion(g@[0], c, preCursor, ls[preCursor.0 as int].subrange(0, preCursor.1 as int)));
                assert(is_remove_line(g@[1], (preCursor.0, 0usize)));
            }
            self.changeBuffer.push(g);
            return vec![self.cursor.0];
        }
        let col = if self.cursor.1 <= length {
            self.cursor.1
        } else {
            length
        };
        self.cursor = (self.cursor.0, col);
        let from = if cursorOffset == 0 {
            col.saturating_sub(numDel)
        } else {
            col
        };
        let end = col.saturating_add(cursorOffset);
        let to = if end <= length {
            end
        } else {
            length
        };
        let deleted = substring(&self.lines[self.cursor.0], from, to);
        let new_line = remove_range(&self.lines[self.cursor.0], from, to);
        self.lines.set(self.cursor.0, new_line);
        self.cursor = (self.cursor.0, from);
        let g = vec![Edit::Deletion(Deletion { start: preCursor, end: self.cursor, text: deleted })];
        proof {
            assert(self.text() =~= ls.update(
                preCursor.0 as int,
                ls[preCursor.0 as int].subrange(0, from as int) + ls[preCursor.0 as int].subrange(
                    to as int,
                    ls[preCursor.0 as int].len() as int,
                ),
            ));
            assert(g@.len() == 1);
            assert(is_deletion(g@[0], preCursor, (preCursor.0, from), ls[preCursor.0 as int].subrange(from as int, to as int)));
        }
        self.changeBuffer.push(g);
        vec![self.cursor.0]
    }

    pub open spec fn cursor_state(&self) -> CursorState {
        (self.cursor, self.cursorEnd, self.highlighting)
    }

    /// Moves the cursor up a line (the column stays); a selection that goes back ends unless
    /// `highlight` extends it.
    pub fn CursorUp(&mut self, highlight: bool)
        requires
            old(self).wf(),
            ends_selection_back(old(self).cursor_state(), highlight) ==> old(self).cursorEnd.0
                < old(self).lines@.len(),
        ensures
            final(self).wf(),
            final(self).cursor_state() == moved_up(old(self).cursor_state(), highlight),
            final(self).scrolled == scroll_settled(old(self).scrolled, old(self).mouseScrolled),
            final(self).mouseScrolled == 0,
            final(self).lines == old(self).lines,
            final(self).lineTokens == old(self).lineTokens,
            final(self).lineTokenFlags == old(self).lineTokenFlags,
            final(self).changeBuffer == old(self).changeBuffer,
            final(self).redoneBuffer == old(self).redoneBuffer,
    {
        if self.highlighting && !highlight && self.cursor.0 > self.cursorEnd.0 || self.cursor.1
            > self.cursorEnd.1 && !highlight && self.highlighting {
            let c = self.cursor;
            self.cursor = self.cursorEnd;
            self.cursorEnd = c;
            self.highlighting = false;
        } else if self.highlighting && !highlight {
            self.highlighting = false;
        }
        self.settle_scroll();
        self.cursor = (self.cursor.0.saturating_sub(1), self.cursor.1);
    }

    /// Moves the cursor down a line, stopping at the last (the column stays); a selection
    /// that goes forward ends unless `highlight` extends it.
    pub fn CursorDown(&mut self, highlight: bool)
        requires
            old(self).wf(),
            ends_selection_forward(old(self).cursor_state(), highlight) ==> old(self).cursorEnd.0
                < old(self).lines@.len(),
        ensures
            final(self).wf(),
            final(self).cursor_state() == moved_down(old(self).cursor_state(), highlight, old(self).lines@.len()),
            final(self).scrolled == scroll_settled(old(self).scrolled, old(self).mouseScrolled),
            final(self).mouseScrolled == 0,
            final(self).lines == old(self).lines,
            final(self).lineTokens == old(self).lineTokens,
            final(self).lineTokenFlags == old(self).lineTokenFlags,
            final(self).changeBuffer == old(self).changeBuffer,
            final(self).redoneBuffer == old(self).redoneBuffer,
    {
        if self.highlighting && !highlight && self.cursor.0 < self.cursorEnd.0 || self.cursor.1
            < self.cursorEnd.1 && self.cursor.0 == self.cursorEnd.1 && !highlight && self.highlighting {
            let c = self.cursor;
            self.cursor = self.cursorEnd;
            self.cursorEnd = c;
            self.highlighting = false;
        } else if self.highlighting && !highlight {
            self.highlighting = false;
        }
        self.settle_scroll();
        let down = self.cursor.0.saturating_add(1);
        let last = self.lines.len() - 1;
        self.cursor = (if down <= last { down } else { last }, self.cursor.1);
    }

    /// Moves the cursor `amount` characters left, or to the end of the previous line from
    /// the start of a line (or from an empty line). A selection ends instead: one that goes
    /// back puts the cursor at its other end.
    pub fn MoveCursorLeft(&mut self, amount: usize, highlight: bool)
        requires
            old(self).wf(),
            ends_selection_back(old(self).cursor_state(), highlight) ==> old(self).cursorEnd.0
                < old(self).lines@.len(),
        ensures
            final(self).wf(),
            final(self).lines == old(self).lines,
            final(self).lineTokens == old(self).lineTokens,
            final(self).lineTokenFlags == old(self).lineTokenFlags,
            final(self).changeBuffer == old(self).changeBuffer,
            final(self).redoneBuffer == old(self).redoneBuffer,
            ({
                let st = old(self).cursor_state();
                let (c, e, h) = st;
                let line = old(self).text()[c.0 as int];
                if ends_selection_back(st, highlight) || h && !highlight {
                    &&& final(self).cursor_state() == drop_selection(st, highlight, ends_selection_back(st, highlight))
                    &&& final(self).scrolled == old(self).scrolled
                    &&& final(self).mouseScrolled == old(self).mouseScrolled
                } else {
                    &&& final(self).cursorEnd == e
                    &&& final(self).highlighting == h
                    &&& final(self).scrolled == scroll_settled(old(self).scrolled, old(self).mouseScrolled)
                    &&& final(self).mouseScrolled == 0
                    &&& final(self).cursor == if (c.1 == 0 || line.len() == 0) && c.0 > 0 {
                        ((c.0 - 1) as usize, old(self).text()[c.0 - 1].len() as usize)
                    } else {
                        (c.0, sat_sub(clamp_col(line, c.1), amount))
                    }
                }
            }),
    {
        if self.highlighting && !highlight && self.cursor.0 > self.cursorEnd.0 || self.cursor.1
            > self.cursorEnd.1 && !highlight && self.highlighting {
            let c = self.cursor;
            self.cursor = self.cursorEnd;
            self.cursorEnd = c;
            self.highlighting = false;
            return;
        } else if self.highlighting && !highlight {
            self.highlighting = false;
            return;
        }
        self.settle_scroll();
        let length = char_len(&self.lines[self.cursor.0]);
        if (self.cursor.1 == 0 || length == 0) && self.cursor.0 > 0 {
            let up = self.cursor.0 - 1;
            self.cursor = (up, char_len(&self.lines[up]));
            return;
        }
        let col = if self.cursor.1 <= length {
            self.cursor.1
        } else {
            length
        };
        self.cursor = (self.cursor.0, col.saturating_sub(amount));
    }

    /// Moves the cursor `amount` characters right, or to the start of the next line from
    /// the end of a line (but the last). A selection ends instead: one that goes forward
    /// puts the cursor at its other end.
    pub fn MoveCursorRight(&mut self, amount: usize, highlight: bool)
        requires
            old(self).wf(),
            ends_selection_forward(old(self).cursor_state(), highlight) ==> old(self).cursorEnd.0
                < old(self).lines@.len(),
        ensures
            final(self).wf(),
            final(self).lines == old(self).lines,
            final(self).lineTokens == old(self).lineTokens,
            final(self).lineTokenFlags == old(self).lineTokenFlags,
            final(self).changeBuffer == old(self).changeBuffer,
            final(self).redoneBuffer == old(self).redoneBuffer,
            ({
                let st = old(self).cursor_state();
                let (c, e, h) = st;
                let line = old(self).text()[c.0 as int];
                if ends_selection_forward(st, highlight) || h && !highlight {
                    &&& final(self).cursor_state() == drop_selection(st, highlight, ends_selection_forward(st, highlight))
                    &&& final(self).scrolled == old(self).scrolled
                    &&& final(self).mouseScrolled == old(self).mouseScrolled
                } else {
                    &&& final(self).cursorEnd == e
                    &&& final(self).highlighting == h
                    &&& final(self).scrolled == scroll_settled(old(self).scrolled, old(self).mouseScrolled)
                    &&& final(self).mouseScrolled == 0
                    &&& final(self).cursor == if c.1 >= line.len() && c.0 < old(self).lines@.len() - 1 {
                        ((c.0 + 1) as usize, 0usize)
                    } else {
                        (c.0, sat_add(c.1, amount as int))
                    }
                }
            }),
    {
        if self.highlighting && !highlight && self.cursor.0 < self.cursorEnd.0 || self.cursor.1
            < self.cursorEnd.1 && self.cursor.0 == self.cursorEnd.1 && !highlight && self.highlighting {
            let c = self.cursor;
            self.cursor = self.cursorEnd;
            self.cursorEnd = c;
            self.highlighting = false;
            return;
        } else if self.highlighting && !highlight {
            self.highlighting = false;
            return;
        }
        self.settle_scroll();
        let length = char_len(&self.lines[self.cursor.0]);
        if self.cursor.1 >= length && self.cursor.0 < self.lines.len() - 1 {
            self.cursor = (self.cursor.0 + 1, 0);
            return;
        }
        self.cursor = (self.cursor.0, self.cursor.1.saturating_add(amount));
    }

    /// Puts the cursor on line `position` (or the last line) just past its first character
    /// that is not a space, or at its end when `scalar01` is not 0.
    pub fn JumpCursor(&mut self, position: usize, scalar01: usize)
        requires
            old(self).wf(),
            ({
                let n = old(self).lines@.len();
                let line = if position < n { position as int } else { n - 1 };
                old(self).text()[line].len() * (scalar01 + 1) <= usize::MAX
            }),
        ensures
            final(self).wf(),
            final(self).mouseScrolled == 0,
            ({
                let n = old(self).lines@.len();
                let line = if position < n { position as int } else { n - 1 };
                let l = old(self).text()[line];
                let start = l.len() * scalar01 + up_to_first_nonspace(l);
                final(self).cursor == (line as usize, if start <= l.len() { start as usize } else { l.len() as usize })
            }),
            final(self).cursorEnd == old(self).cursorEnd,
            final(self).highlighting == old(self).highlighting,
            final(self).scrolled == old(self).scrolled,
            final(self).lines == old(self).lines,
            final(self).lineTokens == old(self).lineTokens,
            final(self).lineTokenFlags == old(self).lineTokenFlags,
            final(self).changeBuffer == old(self).changeBuffer,
            final(self).redoneBuffer == old(self).redoneBuffer,
            final(self).scopeJumps == old(self).scopeJumps,
            final(self).scopes == old(self).scopes,
            final(self).linearScopes == old(self).linearScopes,
            final(self).name == old(self).name,
            final(self).fileName == old(self).fileName,
            final(self).pauseScroll == old(self).pauseScroll,
            final(self).searchIndex == old(self).searchIndex,
            final(self).searchTerm == old(self).searchTerm,
            final(self).pinedLines == old(self).pinedLines,
            final(self).outlineKeywords == old(self).outlineKeywords,
    {
        self.mouseScrolled = 0;
        let last = self.lines.len() - 1;
        let line = if position <= last {
            position
        } else {
            last
        };
        let length = char_len(&self.lines[line]);
        proof {
            assert(length * scalar01 <= length * (scalar01 + 1)) by (nonlinear_arith);
            assert(length * (scalar01 + 1) == length * scalar01 + length) by (nonlinear_arith);
        }
        let ghost l = self.text()[line as int];
        let mut k: usize = 0;
        while k < length && self.lines[line].as_str().get_char(k) == ' '
            invariant
                line < self.lines@.len(),
                l == self.text()[line as int],
                length == l.len(),
                k <= length,
                forall|j: int| 0 <= j < k ==> l[j] == ' ',
            decreases length - k,
        {
            k = k + 1;
        }
        proof {
            lemma_up_to_first_nonspace(l, k as int);
        }
        let add = if k < length {
            k + 1
        } else {
            length
        };
        let startingPos = length * scalar01 + add;
        self.cursor = (line, if startingPos <= length { startingPos } else { length });
    }

    /// Removes four leading spaces from the cursor's line, if it has them, moving the cursor
    /// back with the text, and records the removal. Returns the lines to tokenize again.
    pub fn UnIndent(&mut self) -> (touched: Vec<usize>)
        requires
            old(self).wf(),
        ensures
            final(self).wf(),
            final(self).redoneBuffer@.len() == 0,
            final(self).scrolled == scroll_settled(old(self).scrolled, old(self).mouseScrolled),
            final(self).mouseScrolled == 0,
            final(self).lineTokens == old(self).lineTokens,
            final(self).lineTokenFlags == old(self).lineTokenFlags,
            final(self).cursorEnd == old(self).cursorEnd,
            final(self).highlighting == old(self).highlighting,
            ({
                let c = old(self).cursor;
                let line = old(self).text()[c.0 as int];
                if indented(line) {
                    &&& final(self).text() == old(self).text().update(c.0 as int, line.subrange(4, line.len() as int))
                    &&& final(self).cursor == (c.0, sat_sub(c.1, 4))
                    &&& final(self).changeBuffer@.len() == old(self).changeBuffer@.len() + 1
                    &&& final(self).changeBuffer@.drop_last() == old(self).changeBuffer@
                    &&& final(self).changeBuffer@.last()@.len() == 1
                    &&& is_deletion(final(self).changeBuffer@.last()@[0], (c.0, 3usize), (c.0, 0usize), seq![' ', ' ', ' ', ' '])
                    &&& touched@ == seq![c.0]
                } else {
                    &&& final(self).lines == old(self).lines
                    &&& final(self).cursor == c
                    &&& final(self).changeBuffer == old(self).changeBuffer
                    &&& touched@.len() == 0
                }
            }),
    {
        self.redoneBuffer.clear();
        self.settle_scroll();
        let c = self.cursor;
        let length = char_len(&self.lines[c.0]);
        if length < 4 {
            return Vec::new();
        }
        let four = indent();
        let head = substring(&self.lines[c.0], 0, 4);
        if !crate::text::str_equal(head.as_str(), four.as_str()) {
            return Vec::new();
        }
        let ghost ls = self.text();
        let rest = substring(&self.lines[c.0], 4, length);
        self.lines.set(c.0, rest);
        self.cursor = (c.0, c.1.saturating_sub(4));
        let g = vec![Edit::Deletion(Deletion { start: (c.0, 3), end: (c.0, 0), text: four })];
        proof {
            assert(self.text() =~= ls.update(c.0 as int, ls[c.0 as int].subrange(4, length as int)));
            assert(is_deletion(g@[0], (c.0, 3usize), (c.0, 0usize), seq![' ', ' ', ' ', ' ']));
        }
        self.changeBuffer.push(g);
        vec![c.0]
    }

    /// Breaks the line at the cursor and records the break; on an empty line a new empty
    /// line goes in before it. The cursor then goes to the start of the line and down a
    /// line (see `CursorDown`). Returns the lines to tokenize again.
    pub fn LineBreakIn(&mut self, highlight: bool) -> (touched: Vec<usize>)
        requires
            old(self).wf(),
            old(self).lines@.len() < usize::MAX,
            ends_selection_forward(((old(self).cursor.0, 0usize), old(self).cursorEnd, old(self).highlighting), highlight)
                ==> old(self).cursorEnd.0 < old(self).lines@.len(),
        ensures
            final(self).wf(),
            broke_post(*old(self), highlight, *final(self), touched@),
    {
        self.redoneBuffer.clear();
        let c = self.cursor;
        self.changeBuffer.push(vec![Edit::NewLine(NewLine { position: c })]);
        self.settle_scroll();
        let ghost ls = self.text();
        let ghost t0 = self.lineTokens@;
        let ghost f0 = self.lineTokenFlags@;
        let num = self.lines.len();
        let length = char_len(&self.lines[c.0]);
        let touched = if length == 0 {
            self.lines.insert(c.0, String::new());
            self.lineTokens.set(c.0, Vec::new());
            self.lineTokens.insert(c.0, Vec::new());
            self.lineTokenFlags.insert(c.0, Vec::new());
            proof {
                assert(self.text() =~= broken_lines(ls, c));
                assert(rows_view(self.lineTokens@) =~= rows_view(t0).update(c.0 as int, Seq::empty()).insert(
                    c.0 as int,
                    Seq::empty(),
                ));
                assert(rows_view(self.lineTokenFlags@) =~= rows_view(f0).insert(c.0 as int, Seq::empty()));
            }
            Vec::new()
        } else {
            let at = if c.1 <= length {
                c.1
            } else {
                length
            };
            let left = substring(&self.lines[c.0], 0, at);
            let right = substring(&self.lines[c.0], at, length);
            self.lines.set(c.0, left);
            self.lines.insert(c.0 + 1, right);
            self.lineTokens.insert(c.0 + 1, Vec::new());
            self.lineTokenFlags.insert(c.0 + 1, Vec::new());
            proof {
                assert(self.text() =~= broken_lines(ls, c));
                assert(rows_view(self.lineTokens@) =~= rows_view(t0).insert(c.0 + 1, Seq::empty()));
                assert(rows_view(self.lineTokenFlags@) =~= rows_view(f0).insert(c.0 + 1, Seq::empty()));
            }
            vec![c.0, c.0 + 1]
        };
        self.cursor = (c.0, 0);
        self.CursorDown(highlight);
        touched
    }
}

} // verus!
