//! The text edits the editor records for undo and redo, and their effect on the lines of a
//! buffer. Positions are (line, character) pairs; columns count characters.
use vstd::prelude::*;
use crate::text::{concat, insert_at, remove_range, substring, char_len, split_newlines, split_newlines_exec, lemma_split_newlines_len};

verus! {

pub type Pos = (usize, usize);

/// The characters of each line.
pub open spec fn lines_view(v: Seq<String>) -> Seq<Seq<char>> {
    v.map_values(|s: String| s@)
}

/// The contents of each per-line vector.
pub open spec fn rows_view<T>(v: Seq<Vec<T>>) -> Seq<Seq<T>> {
    v.map_values(|r: Vec<T>| r@)
}

/// Are the two positions the same?
pub fn pos_eq(a: Pos, b: Pos) -> (eq: bool)
    ensures
        eq == (a == b),
{
    a.0 == b.0 && a.1 == b.1
}

pub open spec fn min_usize(a: usize, b: int) -> int {
    if a <= b {
        a as int
    } else {
        b
    }
}

// ---------------------------------------------------------------- removing text
/// Removing the text between `end` (the earlier position) and `start` can be done.
pub open spec fn remove_text_ok(ls: Seq<Seq<char>>, start: Pos, end: Pos) -> bool {
    &&& end.0 < ls.len()
    &&& if start.0 == end.0 {
        end.1 <= start.1 <= ls[end.0 as int].len()
    } else {
        &&& end.0 < start.0 < ls.len()
        &&& end.1 <= ls[end.0 as int].len()
        &&& start.1 <= end.1
    }
}

/// The lines after removing the text between `end` and `start`. On one line the characters
/// `end.1..start.1` go; across lines, the line at `end` keeps its characters `start.1..end.1`
/// and is joined with the line at `start`, and the lines after `end` up to `start` go.
pub open spec fn removed_text(ls: Seq<Seq<char>>, start: Pos, end: Pos) -> Seq<Seq<char>> {
    let l = ls[end.0 as int];
    if start.0 == end.0 {
        ls.update(end.0 as int, l.subrange(0, end.1 as int) + l.subrange(start.1 as int, l.len() as int))
    } else {
        ls.subrange(0, end.0 as int) + seq![l.subrange(start.1 as int, end.1 as int) + ls[start.0 as int]]
            + ls.subrange(start.0 + 1, ls.len() as int)
    }
}

/// How a per-line vector follows a text removal.
pub open spec fn removed_rows<T>(rows: Seq<Seq<T>>, start: Pos, end: Pos) -> Seq<Seq<T>> {
    if start.0 == end.0 {
        rows
    } else {
        rows.subrange(0, end.0 + 1) + rows.subrange(start.0 + 1, rows.len() as int)
    }
}

/// Removes lines `from..to` of a vector.
pub fn remove_rows_between<T>(v: &mut Vec<T>, from: usize, to: usize)
    requires
        from <= to <= old(v)@.len(),
    ensures
        final(v)@ == old(v)@.subrange(0, from as int) + old(v)@.subrange(to as int, old(v)@.len() as int),
{
    let mut k: usize = from;
    while k < to
        invariant
            from <= k <= to <= old(v)@.len(),
            v@ == old(v)@.subrange(0, from as int) + old(v)@.subrange(k as int, old(v)@.len() as int),
        decreases to - k,
    {
        let ghost before = v@;
        v.remove(from);
        proof {
            assert(v@ =~= old(v)@.subrange(0, from as int) + old(v)@.subrange(
                k + 1,
                old(v)@.len() as int,
            ));
        }
        k = k + 1;
    }
}

pub fn remove_text_lines(lines: &mut Vec<String>, start: Pos, end: Pos)
    requires
        remove_text_ok(lines_view(old(lines)@), start, end),
    ensures
        lines_view(final(lines)@) == removed_text(lines_view(old(lines)@), start, end),
{
    let ghost ls = lines_view(lines@);
    let num = lines.len();
    proof {
        assert(ls.len() == num);
    }
    if start.0 == end.0 {
        let n = char_len(&lines[end.0]);
        let new_line = remove_range(&lines[end.0], end.1, start.1);
        lines.set(end.0, new_line);
        proof {
            assert(lines_view(lines@) =~= removed_text(ls, start, end));
        }
    } else {
        let part = substring(&lines[end.0], start.1, end.1);
        let joined = concat(&part, &lines[start.0]);
        lines.set(end.0, joined);
        let ghost mid = lines@;
        remove_rows_between(lines, end.0 + 1, start.0 + 1);
        proof {
            assert(lines_view(lines@) =~= removed_text(ls, start, end));
        }
    }
}

pub fn remove_text_rows<T>(rows: &mut Vec<Vec<T>>, start: Pos, end: Pos)
    requires
        start.0 == end.0 || end.0 < start.0 < old(rows)@.len(),
    ensures
        rows_view(final(rows)@) == removed_rows(rows_view(old(rows)@), start, end),
{
    let num = rows.len();
    if start.0 != end.0 {
        let ghost before = rows@;
        remove_rows_between(rows, end.0 + 1, start.0 + 1);
        proof {
            assert(rows_view(rows@) =~= removed_rows(rows_view(before), start, end));
        }
    }
}

// ---------------------------------------------------------------- adding text
/// Piece `i` of the added text can be placed: pieces after the first, and an empty first
/// piece, become new lines at `end.0 + i`; a non-empty first piece goes into the line at `end`.
pub open spec fn add_step_ok(ls: Seq<Seq<char>>, end: Pos, piece: Seq<char>, i: int) -> bool {
    if piece.len() == 0 || i > 0 {
        end.0 + i <= ls.len()
    } else {
        end.0 < ls.len()
    }
}

pub open spec fn add_step(ls: Seq<Seq<char>>, end: Pos, piece: Seq<char>, i: int) -> Seq<Seq<char>> {
    if piece.len() == 0 || i > 0 {
        ls.insert(end.0 + i, piece)
    } else {
        let l = ls[end.0 as int];
        let at = min_usize(end.1, l.len() as int);
        ls.update(end.0 as int, l.subrange(0, at) + piece + l.subrange(at, l.len() as int))
    }
}

pub open spec fn add_step_rows<T>(rows: Seq<Seq<T>>, end: Pos, piece: Seq<char>, i: int) -> Seq<Seq<T>> {
    if piece.len() == 0 || i > 0 {
        rows.insert(end.0 + i, Seq::empty())
    } else {
        rows
    }
}

/// The lines after placing the first `k` pieces, if each could be placed.
pub open spec fn added_text(ls: Seq<Seq<char>>, end: Pos, pieces: Seq<Seq<char>>, k: nat) -> Option<
    Seq<Seq<char>>,
>
    decreases k,
{
    if k == 0 {
        Some(ls)
    } else {
        match added_text(ls, end, pieces, (k - 1) as nat) {
            None => None,
            Some(l) => if add_step_ok(l, end, pieces[k - 1], k - 1) {
                Some(add_step(l, end, pieces[k - 1], k - 1))
            } else {
                None
            },
        }
    }
}

pub open spec fn added_rows<T>(rows: Seq<Seq<T>>, end: Pos, pieces: Seq<Seq<char>>, k: nat) -> Seq<Seq<T>>
    decreases k,
{
    if k == 0 {
        rows
    } else {
        add_step_rows(added_rows(rows, end, pieces, (k - 1) as nat), end, pieces[k - 1], k - 1)
    }
}

/// Adding `text` before `end` can be done (and the line count stays within `usize`).
pub open spec fn add_text_ok(ls: Seq<Seq<char>>, end: Pos, text: Seq<char>) -> bool {
    &&& ls.len() + split_newlines(text).len() <= usize::MAX
    &&& added_text(ls, end, split_newlines(text), split_newlines(text).len()) is Some
}

/// The lines after adding `text` before `end`.
pub open spec fn add_text(ls: Seq<Seq<char>>, end: Pos, text: Seq<char>) -> Seq<Seq<char>> {
    added_text(ls, end, split_newlines(text), split_newlines(text).len()).unwrap()
}

pub open spec fn add_text_rows<T>(rows: Seq<Seq<T>>, end: Pos, text: Seq<char>) -> Seq<Seq<T>> {
    added_rows(rows, end, split_newlines(text), split_newlines(text).len())
}

/// The lines to tokenize again after adding `text` at `end`: one per piece.
pub open spec fn add_text_touched(end: Pos, text: Seq<char>) -> Seq<usize> {
    Seq::new(split_newlines(text).len(), |i: int| (end.0 + i) as usize)
}

proof fn lemma_added_rows_len<T>(rows: Seq<Seq<T>>, end: Pos, pieces: Seq<Seq<char>>, k: nat, ls: Seq<Seq<char>>)
    requires
        rows.len() == ls.len(),
        k <= pieces.len(),
        added_text(ls, end, pieces, k) is Some,
    ensures
        added_rows(rows, end, pieces, k).len() == added_text(ls, end, pieces, k).unwrap().len(),
    decreases k,
{
    if k > 0 {
        lemma_added_rows_len(rows, end, pieces, (k - 1) as nat, ls);
    }
}

/// Checks whether the pieces of a text can be added at `end`.
pub fn can_add_text(lines: &Vec<String>, end: Pos, pieces: &Vec<String>) -> (ok: bool)
    requires
        lines@.len() + pieces@.len() <= usize::MAX,
    ensures
        ok == (added_text(lines_view(lines@), end, lines_view(pieces@), pieces@.len()) is Some),
{
    let ghost ls = lines_view(lines@);
    let ghost ps = lines_view(pieces@);
    let mut count: usize = lines.len();
    let mut i: usize = 0;
    while i < pieces.len()
        invariant
            i <= pieces@.len(),
            lines@.len() + pieces@.len() <= usize::MAX,
            ps == lines_view(pieces@),
            ls == lines_view(lines@),
            added_text(ls, end, ps, i as nat) is Some,
            added_text(ls, end, ps, i as nat).unwrap().len() == count,
            count <= lines@.len() + i,
        decreases pieces@.len() - i,
    {
        let empty = char_len(&pieces[i]) == 0;
        let grows = empty || i > 0;
        if grows {
            if end.0 > count || count - end.0 < i {
                proof {
                    assert(added_text(ls, end, ps, (i + 1) as nat) is None);
                    lemma_added_none_stays(ls, end, ps, (i + 1) as nat, pieces@.len());
                }
                return false;
            }
            count = count + 1;
        } else {
            if end.0 >= count {
                proof {
                    assert(added_text(ls, end, ps, (i + 1) as nat) is None);
                    lemma_added_none_stays(ls, end, ps, (i + 1) as nat, pieces@.len());
                }
                return false;
            }
        }
        i = i + 1;
    }
    true
}

proof fn lemma_added_none_stays(ls: Seq<Seq<char>>, end: Pos, ps: Seq<Seq<char>>, k: nat, n: nat)
    requires
        k <= n,
        added_text(ls, end, ps, k) is None,
    ensures
        added_text(ls, end, ps, n) is None,
    decreases n - k,
{
    if k < n {
        lemma_added_none_stays(ls, end, ps, k + 1, n);
    }
}

pub fn add_text_lines(lines: &mut Vec<String>, end: Pos, text: &String) -> (touched: Vec<usize>)
    requires
        add_text_ok(lines_view(old(lines)@), end, text@),
    ensures
        lines_view(final(lines)@) == add_text(lines_view(old(lines)@), end, text@),
        touched@ == add_text_touched(end, text@),
{
    let pieces = split_newlines_exec(text);
    let ghost ls = lines_view(lines@);
    let ghost ps = split_newlines(text@);
    proof {
        assert(lines_view(pieces@) == ps);
    }
    let mut touched: Vec<usize> = Vec::new();
    let mut i: usize = 0;
    while i < pieces.len()
        invariant
            i <= pieces@.len(),
            lines_view(pieces@) == ps,
            ps.len() == pieces@.len(),
            added_text(ls, end, ps, ps.len()) is Some,
            added_text(ls, end, ps, i as nat) == Some(lines_view(lines@)),
            touched@ == Seq::new(i as nat, |k: int| (end.0 + k) as usize),
        decreases pieces@.len() - i,
    {
        proof {
            lemma_added_prefix_some(ls, end, ps, (i + 1) as nat, ps.len());
            assert(add_step_ok(lines_view(lines@), end, ps[i as int], i as int));
        }
        let num = lines.len();
        let piece = &pieces[i];
        let empty = char_len(piece) == 0;
        let ghost cur = lines_view(lines@);
        if empty || i > 0 {
            let new_line = piece.clone();
            lines.insert(end.0 + i, new_line);
            proof {
                assert(lines_view(lines@) =~= add_step(cur, end, ps[i as int], i as int));
            }
        } else {
            let n = char_len(&lines[end.0]);
            let at = if end.1 <= n {
                end.1
            } else {
                n
            };
            let new_line = insert_at(&lines[end.0], at, piece);
            lines.set(end.0, new_line);
            proof {
                assert(lines_view(lines@) =~= add_step(cur, end, ps[i as int], i as int));
            }
        }
        touched.push(end.0 + i);
        proof {
            assert(touched@ =~= Seq::new((i + 1) as nat, |k: int| (end.0 + k) as usize));
        }
        i = i + 1;
    }
    touched
}

proof fn lemma_added_prefix_some(ls: Seq<Seq<char>>, end: Pos, ps: Seq<Seq<char>>, k: nat, n: nat)
    requires
        k <= n,
        added_text(ls, end, ps, n) is Some,
    ensures
        added_text(ls, end, ps, k) is Some,
    decreases n - k,
{
    if k < n {
        lemma_added_prefix_some(ls, end, ps, k + 1, n);
    }
}

pub fn add_text_rows_exec<T>(rows: &mut Vec<Vec<T>>, end: Pos, text: &String, Ghost(ls): Ghost<Seq<Seq<char>>>)
    requires
        add_text_ok(ls, end, text@),
        old(rows)@.len() == ls.len(),
    ensures
        rows_view(final(rows)@) == add_text_rows(rows_view(old(rows)@), end, text@),
{
    let pieces = split_newlines_exec(text);
    let ghost ps = split_newlines(text@);
    let ghost r0 = rows_view(rows@);
    let mut i: usize = 0;
    while i < pieces.len()
        invariant
            i <= pieces@.len(),
            lines_view(pieces@) == ps,
            ps.len() == pieces@.len(),
            r0.len() == ls.len(),
            added_text(ls, end, ps, ps.len()) is Some,
            rows_view(rows@) == added_rows(r0, end, ps, i as nat),
            rows@.len() == added_text(ls, end, ps, i as nat).unwrap().len(),
            added_text(ls, end, ps, i as nat) is Some,
        decreases pieces@.len() - i,
    {
        proof {
            lemma_added_prefix_some(ls, end, ps, (i + 1) as nat, ps.len());
            lemma_added_rows_len(r0, end, ps, (i + 1) as nat, ls);
            assert(add_step_ok(added_text(ls, end, ps, i as nat).unwrap(), end, ps[i as int], i as int));
        }
        let num = rows.len();
        let empty = char_len(&pieces[i]) == 0;
        let ghost cur = rows_view(rows@);
        if empty || i > 0 {
            rows.insert(end.0 + i, Vec::new());
            proof {
                assert(rows_view(rows@) =~= add_step_rows(cur, end, ps[i as int], i as int));
            }
        }
        i = i + 1;
    }
}

// ---------------------------------------------------------------- joining and splitting lines
/// The line at `pos.0` can be joined with the next one.
pub open spec fn join_ok(ls: Seq<Seq<char>>, pos: Pos) -> bool {
    pos.0 + 1 < ls.len()
}

pub open spec fn joined(ls: Seq<Seq<char>>, pos: Pos) -> Seq<Seq<char>> {
    ls.update(pos.0 as int, ls[pos.0 as int] + ls[pos.0 + 1]).remove(pos.0 + 1)
}

/// The line at `pos.0` can be split at column `pos.1`.
pub open spec fn split_ok(ls: Seq<Seq<char>>, pos: Pos) -> bool {
    pos.0 < ls.len() && pos.1 <= ls[pos.0 as int].len()
}

pub open spec fn split(ls: Seq<Seq<char>>, pos: Pos) -> Seq<Seq<char>> {
    let l = ls[pos.0 as int];
    ls.update(pos.0 as int, l.subrange(0, pos.1 as int)).insert(
        pos.0 + 1,
        l.subrange(pos.1 as int, l.len() as int),
    )
}

pub fn join_lines(lines: &mut Vec<String>, pos: Pos)
    requires
        join_ok(lines_view(old(lines)@), pos),
    ensures
        lines_view(final(lines)@) == joined(lines_view(old(lines)@), pos),
{
    let ghost ls = lines_view(lines@);
    let num = lines.len();
    let text = lines.remove(pos.0 + 1);
    let new_line = concat(&lines[pos.0], &text);
    lines.set(pos.0, new_line);
    proof {
        assert(lines_view(lines@) =~= joined(ls, pos));
    }
}

pub fn split_line(lines: &mut Vec<String>, pos: Pos)
    requires
        split_ok(lines_view(old(lines)@), pos),
    ensures
        lines_view(final(lines)@) == split(lines_view(old(lines)@), pos),
{
    let ghost ls = lines_view(lines@);
    let num = lines.len();
    let n = char_len(&lines[pos.0]);
    let left = substring(&lines[pos.0], 0, pos.1);
    let right = substring(&lines[pos.0], pos.1, n);
    lines.set(pos.0, left);
    lines.insert(pos.0 + 1, right);
    proof {
        assert(lines_view(lines@) =~= split(ls, pos));
    }
}

pub fn join_rows<T>(rows: &mut Vec<Vec<T>>, pos: Pos)
    requires
        pos.0 + 1 < old(rows)@.len(),
    ensures
        rows_view(final(rows)@) == rows_view(old(rows)@).remove(pos.0 + 1),
{
    let ghost before = rows@;
    let num = rows.len();
    let _ = rows.remove(pos.0 + 1);
    proof {
        assert(rows_view(rows@) =~= rows_view(before).remove(pos.0 + 1));
    }
}

pub fn split_rows<T>(rows: &mut Vec<Vec<T>>, pos: Pos)
    requires
        pos.0 < old(rows)@.len(),
    ensures
        rows_view(final(rows)@) == rows_view(old(rows)@).insert(pos.0 + 1, Seq::empty()),
{
    let ghost before = rows@;
    let num = rows.len();
    rows.insert(pos.0 + 1, Vec::new());
    proof {
        assert(rows_view(rows@) =~= rows_view(before).insert(pos.0 + 1, Seq::empty()));
    }
}

// ---------------------------------------------------------------- recorded edits
/// Text deleted between `end` (the earlier position) and `start`.
#[derive(Debug)]
pub struct Deletion {
    pub start: Pos,
    pub end: Pos,
    pub text: String,
}

/// Text added between `end` (where it went in) and `start` (where the cursor ended up).
#[derive(Debug)]
pub struct Addition {
    pub start: Pos,
    pub end: Pos,
    pub text: String,
}

/// A line broken in two at `position`.
#[derive(Debug)]
pub struct NewLine {
    pub position: Pos,
}

/// A line joined onto the previous one.
#[derive(Debug)]
pub struct RemoveLine {
    pub position: Pos,
}

/// One recorded edit.
#[derive(Debug)]
pub enum Edit {
    Deletion(Deletion),
    Addition(Addition),
    NewLine(NewLine),
    RemoveLine(RemoveLine),
}

/// A change of the lines: adding text, removing text, joining or splitting a line.
pub enum Op {
    Add(Pos, Pos, Seq<char>),
    Remove(Pos, Pos),
    Join(Pos),
    Split(Pos),
}

/// What undoing an edit does.
pub open spec fn undo_op(e: Edit) -> Op {
    match e {
        Edit::Deletion(d) => Op::Add(d.start, d.end, d.text@),
        Edit::Addition(a) => Op::Remove(a.start, a.end),
        Edit::NewLine(n) => Op::Join(n.position),
        Edit::RemoveLine(r) => Op::Split(r.position),
    }
}

/// What redoing an edit does.
pub open spec fn redo_op(e: Edit) -> Op {
    match e {
        Edit::Deletion(d) => Op::Remove(d.start, d.end),
        Edit::Addition(a) => Op::Add(a.start, a.end, a.text@),
        Edit::NewLine(n) => Op::Split(n.position),
        Edit::RemoveLine(r) => Op::Join(r.position),
    }
}

pub open spec fn edit_op(e: Edit, undo: bool) -> Op {
    if undo {
        undo_op(e)
    } else {
        redo_op(e)
    }
}

pub open spec fn op_ok(ls: Seq<Seq<char>>, op: Op) -> bool {
    match op {
        Op::Add(_, end, text) => add_text_ok(ls, end, text),
        Op::Remove(start, end) => remove_text_ok(ls, start, end),
        Op::Join(pos) => join_ok(ls, pos),
        Op::Split(pos) => split_ok(ls, pos),
    }
}

pub open spec fn op_lines(ls: Seq<Seq<char>>, op: Op) -> Seq<Seq<char>> {
    match op {
        Op::Add(_, end, text) => add_text(ls, end, text),
        Op::Remove(start, end) => removed_text(ls, start, end),
        Op::Join(pos) => joined(ls, pos),
        Op::Split(pos) => split(ls, pos),
    }
}

pub open spec fn op_rows<T>(rows: Seq<Seq<T>>, op: Op) -> Seq<Seq<T>> {
    match op {
        Op::Add(_, end, text) => add_text_rows(rows, end, text),
        Op::Remove(start, end) => removed_rows(rows, start, end),
        Op::Join(pos) => rows.remove(pos.0 + 1),
        Op::Split(pos) => rows.insert(pos.0 + 1, Seq::empty()),
    }
}

/// Where the cursor goes after the change (given the lines after it).
pub open spec fn op_cursor(new_lines: Seq<Seq<char>>, op: Op) -> Pos {
    match op {
        Op::Add(start, _, _) => start,
        Op::Remove(_, end) => end,
        Op::Join(pos) => {
            let line = if pos.0 > 0 {
                (pos.0 - 1) as usize
            } else {
                0usize
            };
            (line, new_lines[line as int].len() as usize)
        },
        Op::Split(pos) => ((pos.0 + 1) as usize, 0usize),
    }
}

/// The lines to tokenize again after the change.
pub open spec fn op_touched(op: Op) -> Seq<usize> {
    match op {
        Op::Add(_, end, text) => add_text_touched(end, text),
        Op::Remove(_, end) => seq![end.0],
        Op::Join(pos) => seq![pos.0],
        Op::Split(pos) => seq![(pos.0 + 1) as usize, pos.0],
    }
}

/// Applying a sequence of changes in order to lines and cursor; `None` when one cannot be done.
pub open spec fn run_ops(ls: Seq<Seq<char>>, cursor: Pos, ops: Seq<Op>) -> Option<(Seq<Seq<char>>, Pos)>
    decreases ops.len(),
{
    if ops.len() == 0 {
        Some((ls, cursor))
    } else if op_ok(ls, ops[0]) {
        let next = op_lines(ls, ops[0]);
        run_ops(next, op_cursor(next, ops[0]), ops.drop_first())
    } else {
        None
    }
}

pub open spec fn run_rows<T>(rows: Seq<Seq<T>>, ops: Seq<Op>) -> Seq<Seq<T>>
    decreases ops.len(),
{
    if ops.len() == 0 {
        rows
    } else {
        run_rows(op_rows(rows, ops[0]), ops.drop_first())
    }
}

pub open spec fn run_touched(ops: Seq<Op>) -> Seq<usize>
    decreases ops.len(),
{
    if ops.len() == 0 {
        Seq::empty()
    } else {
        op_touched(ops[0]) + run_touched(ops.drop_first())
    }
}

/// The changes made by undoing (or redoing) each edit of a group, in order.
pub open spec fn group_ops(group: Seq<Edit>, undo: bool) -> Seq<Op> {
    group.map_values(|e: Edit| edit_op(e, undo))
}

/// Can `text` be added before `end`?
fn add_applies(lines: &Vec<String>, end: Pos, text: &String) -> (ok: bool)
    ensures
        ok == add_text_ok(lines_view(lines@), end, text@),
{
    let num = lines.len();
    let pieces = split_newlines_exec(text);
    proof {
        assert(lines_view(pieces@) == split_newlines(text@));
    }
    if pieces.len() > usize::MAX - num {
        return false;
    }
    can_add_text(lines, end, &pieces)
}

/// Can the text between `end` and `start` be removed?
fn remove_applies(lines: &Vec<String>, start: Pos, end: Pos) -> (ok: bool)
    ensures
        ok == remove_text_ok(lines_view(lines@), start, end),
{
    let num = lines.len();
    if end.0 >= num {
        return false;
    }
    let n_end = char_len(&lines[end.0]);
    if start.0 == end.0 {
        end.1 <= start.1 && start.1 <= n_end
    } else {
        end.0 < start.0 && start.0 < num && end.1 <= n_end && start.1 <= end.1
    }
}

/// Can the line at `pos.0` be split at column `pos.1`?
fn split_applies(lines: &Vec<String>, pos: Pos) -> (ok: bool)
    ensures
        ok == split_ok(lines_view(lines@), pos),
{
    if pos.0 >= lines.len() {
        return false;
    }
    pos.1 <= char_len(&lines[pos.0])
}

/// Does the change that undoing (or redoing) `e` makes apply to these lines?
pub fn edit_applies(lines: &Vec<String>, e: &Edit, undo: bool) -> (ok: bool)
    ensures
        ok == op_ok(lines_view(lines@), edit_op(*e, undo)),
{
    let num = lines.len();
    match e {
        Edit::Deletion(d) => if undo {
            add_applies(lines, d.end, &d.text)
        } else {
            remove_applies(lines, d.start, d.end)
        },
        Edit::Addition(a) => if undo {
            remove_applies(lines, a.start, a.end)
        } else {
            add_applies(lines, a.end, &a.text)
        },
        Edit::NewLine(n) => if undo {
            n.position.0 < num && n.position.0 + 1 < num
        } else {
            split_applies(lines, n.position)
        },
        Edit::RemoveLine(r) => if undo {
            split_applies(lines, r.position)
        } else {
            r.position.0 < num && r.position.0 + 1 < num
        },
    }
}

/// A change keeps each per-line vector as long as the lines.
pub proof fn lemma_op_rows_len<T>(rows: Seq<Seq<T>>, ls: Seq<Seq<char>>, op: Op)
    requires
        rows.len() == ls.len(),
        op_ok(ls, op),
    ensures
        op_rows(rows, op).len() == op_lines(ls, op).len(),
{
    match op {
        Op::Add(_, end, text) => {
            lemma_added_rows_len(rows, end, split_newlines(text), split_newlines(text).len(), ls);
        },
        _ => {},
    }
}

/// The cursor after a change, computed from the lines after it.
fn op_cursor_exec(lines: &Vec<String>, e: &Edit, undo: bool) -> (cursor: Pos)
    requires
        match edit_op(*e, undo) {
            Op::Join(pos) => (if pos.0 > 0 { pos.0 - 1 } else { 0 }) < lines@.len(),
            Op::Split(pos) => pos.0 + 1 <= usize::MAX,
            _ => true,
        },
    ensures
        cursor == op_cursor(lines_view(lines@), edit_op(*e, undo)),
{
    match e {
        Edit::Deletion(d) => if undo { d.start } else { d.end },
        Edit::Addition(a) => if undo { a.end } else { a.start },
        Edit::NewLine(n) => if undo {
            let line = if n.position.0 > 0 { n.position.0 - 1 } else { 0 };
            (line, char_len(&lines[line]))
        } else {
            (n.position.0 + 1, 0)
        },
        Edit::RemoveLine(r) => if undo {
            (r.position.0 + 1, 0)
        } else {
            let line = if r.position.0 > 0 { r.position.0 - 1 } else { 0 };
            (line, char_len(&lines[line]))
        },
    }
}

/// Makes the change that undoing (or redoing) `e` makes to the lines, and gives the cursor
/// it leaves.
pub fn apply_edit_lines(lines: &mut Vec<String>, e: &Edit, undo: bool) -> (cursor: Pos)
    requires
        op_ok(lines_view(old(lines)@), edit_op(*e, undo)),
    ensures
        lines_view(final(lines)@) == op_lines(lines_view(old(lines)@), edit_op(*e, undo)),
        cursor == op_cursor(lines_view(final(lines)@), edit_op(*e, undo)),
{
    let ghost ls = lines_view(lines@);
    let n0 = lines.len();
    match e {
        Edit::Deletion(d) => if undo {
            let _ = add_text_lines(lines, d.end, &d.text);
        } else {
            remove_text_lines(lines, d.start, d.end);
        },
        Edit::Addition(a) => if undo {
            remove_text_lines(lines, a.start, a.end);
        } else {
            let _ = add_text_lines(lines, a.end, &a.text);
        },
        Edit::NewLine(n) => if undo {
            join_lines(lines, n.position);
        } else {
            split_line(lines, n.position);
        },
        Edit::RemoveLine(r) => if undo {
            split_line(lines, r.position);
        } else {
            join_lines(lines, r.position);
        },
    }
    let n1 = lines.len();
    proof {
        assert(ls.len() == n0);
        assert(lines_view(lines@).len() == n1);
    }
    op_cursor_exec(lines, e, undo)
}

/// Makes a per-line vector follow the change that undoing (or redoing) `e` makes to lines `ls`.
pub fn apply_edit_rows<T>(rows: &mut Vec<Vec<T>>, e: &Edit, undo: bool, Ghost(ls): Ghost<Seq<Seq<char>>>)
    requires
        op_ok(ls, edit_op(*e, undo)),
        old(rows)@.len() == ls.len(),
    ensures
        rows_view(final(rows)@) == op_rows(rows_view(old(rows)@), edit_op(*e, undo)),
{
    match e {
        Edit::Deletion(d) => if undo {
            add_text_rows_exec(rows, d.end, &d.text, Ghost(ls));
        } else {
            remove_text_rows(rows, d.start, d.end);
        },
        Edit::Addition(a) => if undo {
            remove_text_rows(rows, a.start, a.end);
        } else {
            add_text_rows_exec(rows, a.end, &a.text, Ghost(ls));
        },
        Edit::NewLine(n) => if undo {
            join_rows(rows, n.position);
        } else {
            split_rows(rows, n.position);
        },
        Edit::RemoveLine(r) => if undo {
            split_rows(rows, r.position);
        } else {
            join_rows(rows, r.position);
        },
    }
}

proof fn lemma_add_end_bound(ls: Seq<Seq<char>>, end: Pos, text: Seq<char>)
    requires
        add_text_ok(ls, end, text),
    ensures
        end.0 + split_newlines(text).len() <= usize::MAX + 1,
{
    let ps = split_newlines(text);
    lemma_split_newlines_len(text);
    lemma_added_prefix_some(ls, end, ps, 1, ps.len());
    assert(added_text(ls, end, ps, 0) == Some(ls));
    assert(add_step_ok(ls, end, ps[0], 0));
}

/// The lines to tokenize again after the change that undoing (or redoing) `e` makes to `ls`.
pub fn edit_touched(e: &Edit, undo: bool, Ghost(ls): Ghost<Seq<Seq<char>>>) -> (touched: Vec<usize>)
    requires
        op_ok(ls, edit_op(*e, undo)),
        ls.len() <= usize::MAX,
    ensures
        touched@ == op_touched(edit_op(*e, undo)),
{
    proof {
        match edit_op(*e, undo) {
            Op::Add(_, end, text) => lemma_add_end_bound(ls, end, text),
            _ => {},
        }
    }
    match e {
        Edit::Deletion(d) => if undo {
            add_touched(d.end, &d.text)
        } else {
            vec![d.end.0]
        },
        Edit::Addition(a) => if undo {
            vec![a.end.0]
        } else {
            add_touched(a.end, &a.text)
        },
        Edit::NewLine(n) => if undo {
            vec![n.position.0]
        } else {
            vec![n.position.0 + 1, n.position.0]
        },
        Edit::RemoveLine(r) => if undo {
            vec![r.position.0 + 1, r.position.0]
        } else {
            vec![r.position.0]
        },
    }
}

fn add_touched(end: Pos, text: &String) -> (touched: Vec<usize>)
    requires
        end.0 + split_newlines(text@).len() <= usize::MAX + 1,
    ensures
        touched@ == add_text_touched(end, text@),
{
    let pieces = split_newlines_exec(text);
    proof {
        assert(lines_view(pieces@).len() == pieces@.len());
    }
    let mut touched: Vec<usize> = Vec::new();
    let mut i: usize = 0;
    while i < pieces.len()
        invariant
            i <= pieces@.len(),
            pieces@.len() == split_newlines(text@).len(),
            end.0 + pieces@.len() <= usize::MAX + 1,
            touched@ == Seq::new(i as nat, |k: int| (end.0 + k) as usize),
        decreases pieces@.len() - i,
    {
        touched.push(end.0 + i);
        proof {
            assert(touched@ =~= Seq::new((i + 1) as nat, |k: int| (end.0 + k) as usize));
        }
        i = i + 1;
    }
    proof {
        assert(touched@ =~= add_text_touched(end, text@));
    }
    touched
}

} // verus!
