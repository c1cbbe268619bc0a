//! What undo and redo give back after the editing operations of a tab.
use vstd::prelude::*;
use crate::code_tabs::{
    CodeTab, typed_post, deleted_post, broke_post, undo_post, redo_post, typed_line, clamp_col,
    sat_add, broken_lines, is_addition, is_deletion, is_new_line, group_fits, joins_back,
    deleted_range,
};
use crate::edits::{
    Op, Pos, run_ops, group_ops, op_ok, op_lines, op_cursor, edit_op, undo_op, redo_op, add_text,
    add_text_ok, added_text, add_step, add_step_ok, removed_text, remove_text_ok, joined, split,
    split_ok,
};
use crate::text::split_newlines;

verus! {

/// Text without a newline is one piece.
pub proof fn lemma_split_no_newline(s: Seq<char>)
    requires
        forall|i: int| 0 <= i < s.len() ==> s[i] != '\n',
    ensures
        split_newlines(s) == seq![s],
    decreases s.len(),
{
    if s.len() > 0 {
        assert forall|i: int| 0 <= i < s.drop_last().len() implies s.drop_last()[i] != '\n' by {
            assert(s.drop_last()[i] == s[i]);
        }
        lemma_split_no_newline(s.drop_last());
        assert(s[s.len() - 1] != '\n');
        assert(s.drop_last().push(s.last()) =~= s);
        let prev = split_newlines(s.drop_last());
        assert(prev.last() == s.drop_last());
        assert(prev.update(prev.len() - 1, prev.last().push(s.last())) =~= seq![s]);
    } else {
        assert(s =~= Seq::<char>::empty());
        assert(split_newlines(s) =~= seq![s]);
    }
}

/// Adding one piece of text without a newline inserts it at the column (or the line's end).
proof fn lemma_add_one_piece(ls: Seq<Seq<char>>, end: Pos, text: Seq<char>)
    requires
        end.0 < ls.len(),
        ls.len() < usize::MAX,
        text.len() > 0,
        forall|i: int| 0 <= i < text.len() ==> text[i] != '\n',
    ensures
        add_text_ok(ls, end, text),
        add_text(ls, end, text) == ls.update(end.0 as int, typed_line(ls[end.0 as int], end.1, text)),
{
    lemma_split_no_newline(text);
    let ps = split_newlines(text);
    assert(ps.len() == 1);
    assert(ps[0] == text);
    assert(added_text(ls, end, ps, 0) == Some(ls));
    assert(add_step_ok(ls, end, text, 0));
    assert(added_text(ls, end, ps, 1) == Some(add_step(ls, end, text, 0)));
    assert(add_step(ls, end, text, 0) =~= ls.update(end.0 as int, typed_line(ls[end.0 as int], end.1, text)));
}

/// Running a single change.
proof fn lemma_run_one(ls: Seq<Seq<char>>, cursor: Pos, op: Op)
    requires
        op_ok(ls, op),
    ensures
        run_ops(ls, cursor, seq![op]) == Some((op_lines(ls, op), op_cursor(op_lines(ls, op), op))),
{
    reveal_with_fuel(run_ops, 2);
    assert(seq![op][0] == op);
    assert(seq![op].drop_first() =~= Seq::<Op>::empty());
}

/// Undoing typed text gives back the lines and the cursor from before the typing, and the
/// undo history as it was, when nothing was selected and the cursor was within its line.
pub proof fn law_undo_typing(
    t0: CodeTab,
    chs: Seq<char>,
    t1: CodeTab,
    k1: Seq<usize>,
    t2: CodeTab,
    k2: Seq<usize>,
)
    requires
        t0.wf(),
        !t0.selecting(),
        t0.cursor.1 <= t0.text()[t0.cursor.0 as int].len(),
        t0.cursor.1 + chs.len() <= usize::MAX,
        typed_post(t0, chs, t1, k1),
        t1.wf(),
        undo_post(t1, t2, k2),
    ensures
        t2.text() == t0.text(),
        t2.cursor == t0.cursor,
        t2.changeBuffer@ == t0.changeBuffer@,
        t2.redoneBuffer@ == seq![t1.changeBuffer@.last()],
{
    let ls = t0.text();
    let c = t0.cursor;
    let group = t1.changeBuffer@.last()@;
    assert(group.drop_first().len() == 0);
    assert(group =~= seq![group[0]]);
    let start = t1.cursor;
    assert(start == (c.0, (c.1 + chs.len()) as usize));
    let op = undo_op(group[0]);
    assert(op == Op::Remove(start, c));
    assert(group_ops(group, true) =~= seq![op]);
    let l = ls[c.0 as int];
    let l1 = t1.text()[c.0 as int];
    assert(clamp_col(l, c.1) == c.1);
    assert(l1 == typed_line(l, c.1, chs));
    assert(l1.subrange(0, c.1 as int) =~= l.subrange(0, c.1 as int));
    assert(l1.subrange(start.1 as int, l1.len() as int) =~= l.subrange(c.1 as int, l.len() as int));
    assert(l.subrange(0, c.1 as int) + l.subrange(c.1 as int, l.len() as int) =~= l);
    assert(remove_text_ok(t1.text(), start, c));
    assert(removed_text(t1.text(), start, c) =~= ls);
    lemma_run_one(t1.text(), t1.cursor, op);
    assert(group_fits(t1.text(), t1.cursor, group, true));
}

/// Redoing undone typing types the text again, with the cursor after it, when the text
/// was not empty and held no newline.
pub proof fn law_redo_typing(
    t0: CodeTab,
    chs: Seq<char>,
    t1: CodeTab,
    k1: Seq<usize>,
    t2: CodeTab,
    k2: Seq<usize>,
    t3: CodeTab,
    k3: Seq<usize>,
)
    requires
        t0.wf(),
        !t0.selecting(),
        t0.lines@.len() < usize::MAX,
        t0.cursor.1 <= t0.text()[t0.cursor.0 as int].len(),
        t0.cursor.1 + chs.len() <= usize::MAX,
        chs.len() > 0,
        forall|i: int| 0 <= i < chs.len() ==> chs[i] != '\n',
        typed_post(t0, chs, t1, k1),
        t1.wf(),
        undo_post(t1, t2, k2),
        t2.wf(),
        redo_post(t2, t3, k3),
    ensures
        t3.text() == t1.text(),
        t3.cursor == t1.cursor,
{
    law_undo_typing(t0, chs, t1, k1, t2, k2);
    let ls = t0.text();
    let c = t0.cursor;
    let group = t1.changeBuffer@.last()@;
    assert(group.drop_first().len() == 0);
    assert(group =~= seq![group[0]]);
    assert(t2.redoneBuffer@.last()@ == group);
    let op = redo_op(group[0]);
    assert(op == Op::Add(t1.cursor, c, chs));
    assert(group_ops(group, false) =~= seq![op]);
    lemma_add_one_piece(ls, c, chs);
    assert(ls.update(c.0 as int, typed_line(ls[c.0 as int], c.1, chs)) =~= t1.text());
    lemma_run_one(ls, c, op);
    assert(group_fits(t2.text(), t2.cursor, group, false));
}

/// Undoing a deletion of characters before the cursor within its line gives back the lines
/// and the cursor from before it, when nothing was selected, at least one character went and
/// none of them was a newline.
pub proof fn law_undo_deletion(
    t0: CodeTab,
    numDel: usize,
    t1: CodeTab,
    k1: Seq<usize>,
    t2: CodeTab,
    k2: Seq<usize>,
)
    requires
        t0.wf(),
        !t0.selecting(),
        t0.lines@.len() < usize::MAX,
        0 < numDel <= t0.cursor.1 <= t0.text()[t0.cursor.0 as int].len(),
        forall|i: int|
            t0.cursor.1 - numDel <= i < t0.cursor.1 ==> t0.text()[t0.cursor.0 as int][i] != '\n',
        deleted_post(t0, numDel, 0, t1, k1),
        t1.wf(),
        undo_post(t1, t2, k2),
    ensures
        t2.text() == t0.text(),
        t2.cursor == t0.cursor,
        t2.changeBuffer@ == t0.changeBuffer@,
{
    let ls = t0.text();
    let c = t0.cursor;
    let line = ls[c.0 as int];
    assert(!joins_back(ls, c, numDel, 0));
    let from = (c.1 - numDel) as usize;
    assert(deleted_range(line, c.1, numDel, 0) == (from, c.1));
    let text = line.subrange(from as int, c.1 as int);
    let group = t1.changeBuffer@.last()@;
    assert(group =~= seq![group[0]]);
    let op = undo_op(group[0]);
    assert(op == Op::Add(c, (c.0, from), text));
    assert(group_ops(group, true) =~= seq![op]);
    let ls1 = t1.text();
    lemma_add_one_piece(ls1, (c.0, from), text);
    assert(typed_line(ls1[c.0 as int], from, text) =~= line);
    assert(ls1.update(c.0 as int, line) =~= ls);
    lemma_run_one(ls1, t1.cursor, op);
    assert(group_fits(ls1, t1.cursor, group, true));
}

/// Undoing a line break gives back the lines from before it.
pub proof fn law_undo_line_break(
    t0: CodeTab,
    highlight: bool,
    t1: CodeTab,
    k1: Seq<usize>,
    t2: CodeTab,
    k2: Seq<usize>,
)
    requires
        t0.wf(),
        broke_post(t0, highlight, t1, k1),
        t1.wf(),
        undo_post(t1, t2, k2),
    ensures
        t2.text() == t0.text(),
        t2.changeBuffer@ == t0.changeBuffer@,
{
    let ls = t0.text();
    let c = t0.cursor;
    let group = t1.changeBuffer@.last()@;
    assert(group =~= seq![group[0]]);
    let op = undo_op(group[0]);
    assert(op == Op::Join(c));
    assert(group_ops(group, true) =~= seq![op]);
    let ls1 = t1.text();
    assert(ls1 == broken_lines(ls, c));
    let l = ls[c.0 as int];
    if l.len() == 0 {
        assert(ls1[c.0 as int] =~= Seq::<char>::empty());
        assert(ls1[c.0 + 1] == l);
        assert(joined(ls1, c) =~= ls);
    } else {
        let at = clamp_col(l, c.1) as int;
        assert(ls1[c.0 as int] == l.subrange(0, at));
        assert(ls1[c.0 + 1] == l.subrange(at, l.len() as int));
        assert(l.subrange(0, at) + l.subrange(at, l.len() as int) =~= l);
        assert(joined(ls1, c) =~= ls);
    }
    lemma_run_one(ls1, t1.cursor, op);
    assert(group_fits(ls1, t1.cursor, group, true));
}

/// Redoing an undone line break breaks the line again, when the cursor was within its line.
pub proof fn law_redo_line_break(
    t0: CodeTab,
    highlight: bool,
    t1: CodeTab,
    k1: Seq<usize>,
    t2: CodeTab,
    k2: Seq<usize>,
    t3: CodeTab,
    k3: Seq<usize>,
)
    requires
        t0.wf(),
        t0.cursor.1 <= t0.text()[t0.cursor.0 as int].len(),
        broke_post(t0, highlight, t1, k1),
        t1.wf(),
        undo_post(t1, t2, k2),
        t2.wf(),
        redo_post(t2, t3, k3),
    ensures
        t3.text() == t1.text(),
{
    law_undo_line_break(t0, highlight, t1, k1, t2, k2);
    let ls = t0.text();
    let c = t0.cursor;
    let group = t1.changeBuffer@.last()@;
    assert(group =~= seq![group[0]]);
    assert(t2.redoneBuffer@.last()@ == group);
    let op = redo_op(group[0]);
    assert(op == Op::Split(c));
    assert(group_ops(group, false) =~= seq![op]);
    assert(split_ok(ls, c));
    let l = ls[c.0 as int];
    if l.len() == 0 {
        assert(l.subrange(0, c.1 as int) =~= Seq::<char>::empty());
        assert(l.subrange(c.1 as int, l.len() as int) =~= Seq::<char>::empty());
        assert(split(ls, c) =~= broken_lines(ls, c));
    } else {
        assert(split(ls, c) =~= broken_lines(ls, c));
    }
    lemma_run_one(ls, t2.cursor, op);
    assert(group_fits(ls, t2.cursor, group, false));
}

} // verus!
