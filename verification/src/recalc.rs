//! Storing a line's tokens once the highlighting script has typed them, deciding whether the
//! change of the line's open constructs carries over to the next line, and the tab's text as
//! a whole.
use vstd::prelude::*;
use crate::code_tabs::CodeTab;
use crate::edits::{Pos, lines_view};
use crate::text::{concat, string_push};
use crate::token_info::{LineTokenFlags, LuaTuple, ScopeNode};
use crate::tokens::{GenerateTokens, flags_after, marked_token, previous_flags, takes_generics, vec_contains_flag, copy_flags};

verus! {

/// The flag set a line of flag sets ends with (none when it has none).
pub open spec fn last_set(line: Seq<Vec<LineTokenFlags>>) -> Seq<LineTokenFlags> {
    if line.len() > 0 {
        line.last()@
    } else {
        Seq::empty()
    }
}

/// Whether retokenizing line `lineNumber` (of `n`) must go on to the next line: the line's
/// closing flags changed (or were dropped), and either a block comment is involved and
/// fewer than 250 lines were redone in a row, or fewer than 25 were.
pub open spec fn cascades(
    previous: Seq<LineTokenFlags>,
    current: Seq<LineTokenFlags>,
    lineNumber: usize,
    n: nat,
    recursed: usize,
) -> bool {
    let empty = current.len() == 0;
    (lineNumber < n - 1 && !empty && previous != current || empty && previous.len() > 0) && (
    recursed < 250 && (previous.contains(LineTokenFlags::Comment) || current.contains(
        LineTokenFlags::Comment,
    )) || recursed < 25)
}

/// The file's contents: the lines joined by newlines.
pub open spec fn joined_text(ls: Seq<Seq<char>>) -> Seq<char>
    decreases ls.len(),
{
    if ls.len() == 0 {
        Seq::empty()
    } else if ls.len() == 1 {
        ls[0]
    } else {
        joined_text(ls.drop_last()) + seq!['\n'] + ls.last()
    }
}

/// Are two flag sets equal?
fn flags_equal(a: &Vec<LineTokenFlags>, b: &Vec<LineTokenFlags>) -> (eq: bool)
    ensures
        eq == (a@ == b@),
{
    if a.len() != b.len() {
        return false;
    }
    let mut i: usize = 0;
    while i < a.len()
        invariant
            a@.len() == b@.len(),
            i <= a@.len(),
            forall|j: int| 0 <= j < i ==> a@[j] == b@[j],
        decreases a@.len() - i,
    {
        if a[i] != b[i] {
            return false;
        }
        i = i + 1;
    }
    proof {
        assert(a@ =~= b@);
    }
    true
}

impl CodeTab {
    /// A tab showing `lines` (at least one) of the file `fileName`, named `name`, with the
    /// cursor at the start and no tokens yet.
    pub fn from_lines(name: String, fileName: String, lines: Vec<String>) -> (tab: CodeTab)
        requires
            lines@.len() >= 1,
        ensures
            tab.wf(),
            tab.lines == lines,
            tab.name == name,
            tab.fileName == fileName,
            tab.cursor == (0usize, 0usize),
            tab.cursorEnd == (0usize, 0usize),
            !tab.highlighting,
            tab.scrolled == 0,
            tab.mouseScrolled == 0,
            forall|i: int| 0 <= i < tab.lines@.len() ==> (#[trigger] tab.lineTokens@[i])@.len() == 0,
            forall|i: int| 0 <= i < tab.lines@.len() ==> (#[trigger] tab.lineTokenFlags@[i])@.len() == 0,
            tab.changeBuffer@.len() == 0,
            tab.redoneBuffer@.len() == 0,
    {
        let mut lineTokens: Vec<Vec<LuaTuple>> = Vec::new();
        let mut lineTokenFlags: Vec<Vec<Vec<LineTokenFlags>>> = Vec::new();
        let mut i: usize = 0;
        while i < lines.len()
            invariant
                i <= lines@.len(),
                lineTokens@.len() == i,
                lineTokenFlags@.len() == i,
                forall|j: int| 0 <= j < i ==> (#[trigger] lineTokens@[j])@.len() == 0,
                forall|j: int| 0 <= j < i ==> (#[trigger] lineTokenFlags@[j])@.len() == 0,
            decreases lines@.len() - i,
        {
            lineTokens.push(Vec::new());
            lineTokenFlags.push(Vec::new());
            i = i + 1;
        }
        CodeTab {
            cursor: (0, 0),
            lines,
            lineTokens,
            scopeJumps: Vec::new(),
            scopes: ScopeNode { children: Vec::new(), name: crate::text::string_of_str("Root"), start: 0, end: 0 },
            linearScopes: Vec::new(),
            scrolled: 0,
            mouseScrolled: 0,
            name,
            fileName,
            cursorEnd: (0, 0),
            highlighting: false,
            pauseScroll: 0,
            searchIndex: 0,
            searchTerm: String::new(),
            changeBuffer: Vec::new(),
            redoneBuffer: Vec::new(),
            pinedLines: Vec::new(),
            outlineKeywords: Vec::new(),
            lineTokenFlags,
        }
    }

    /// Stores the tokens of line `lineNumber`, given the token types the highlighting script
    /// gave to the line's token strings (see `GenerateTokens`), and says which line to
    /// retokenize next and how deep the run is then: the next line, when the line's closing
    /// flags changed (see `cascades`); nothing past the last line.
    pub fn RecalcTokens(&mut self, lineNumber: usize, recursed: usize, scripted: Vec<LuaTuple>) -> (next: Option<
        Pos,
    >)
        requires
            old(self).wf(),
            lineNumber < old(self).lines@.len() ==> scripted@.len() > 0,
            recursed < usize::MAX,
        ensures
            final(self).wf(),
            final(self).lines == old(self).lines,
            final(self).cursor == old(self).cursor,
            final(self).changeBuffer == old(self).changeBuffer,
            final(self).redoneBuffer == old(self).redoneBuffer,
            lineNumber >= old(self).lines@.len() ==> next is None && final(self).lineTokens == old(self).lineTokens && final(self).lineTokenFlags == old(self).lineTokenFlags,
            lineNumber < old(self).lines@.len() ==> {
                let prev = previous_flags(old(self).lineTokenFlags@, lineNumber as int);
                let generics = takes_generics(old(self).text()[lineNumber as int]);
                let n = scripted@.len();
                &&& final(self).lineTokens@.len() == old(self).lineTokens@.len()
                &&& forall|i: int|
                    0 <= i < final(self).lines@.len() && i != lineNumber ==> #[trigger] final(self).lineTokens@[i] == old(self).lineTokens@[i]
                &&& final(self).lineTokens@[lineNumber as int]@.len() == n
                &&& forall|i: int|
                    0 <= i < n ==> #[trigger] final(self).lineTokens@[lineNumber as int]@[i]
                        == marked_token(scripted@[i], flags_after(prev, scripted@, generics, (i + 1) as nat))
                &&& forall|i: int|
                    0 <= i < final(self).lines@.len() && i != lineNumber ==> #[trigger] final(self).lineTokenFlags@[i]@ == old(self).lineTokenFlags@[i]@
                &&& final(self).lineTokenFlags@[lineNumber as int]@.len() == n
                &&& forall|i: int|
                    0 <= i < n ==> #[trigger] final(self).lineTokenFlags@[lineNumber as int]@[i]@
                        == flags_after(prev, scripted@, generics, (i + 1) as nat)
                &&& next == if cascades(
                    last_set(old(self).lineTokenFlags@[lineNumber as int]@),
                    flags_after(prev, scripted@, generics, n),
                    lineNumber,
                    old(self).lines@.len(),
                    recursed,
                ) {
                    Some(((lineNumber + 1) as usize, (recursed + 1) as usize))
                } else {
                    None
                }
            },
    {
        let num = self.lines.len();
        if lineNumber >= num {
            return None;
        }
        let ghost old_flags = self.lineTokenFlags@;
        let flags_line = &self.lineTokenFlags[lineNumber];
        let previousEnding: Vec<LineTokenFlags> = if flags_line.len() > 0 {
            copy_flags(flags_line[flags_line.len() - 1].as_slice())
        } else {
            Vec::new()
        };
        let containedComment = vec_contains_flag(&previousEnding, LineTokenFlags::Comment);
        let newTokens = GenerateTokens(scripted, self.lines[lineNumber].as_str(), &mut self.lineTokenFlags, lineNumber);
        let ghost t0 = self.lineTokens@;
        self.lineTokens.set(lineNumber, newTokens);
        let line_flags = &self.lineTokenFlags[lineNumber];
        let current = copy_flags(line_flags[line_flags.len() - 1].as_slice());
        let empty = current.len() == 0;
        let changed = !flags_equal(&previousEnding, &current);
        let go = (lineNumber < num - 1 && !empty && changed || empty && previousEnding.len() > 0) && (
        recursed < 250 && (containedComment || vec_contains_flag(&current, LineTokenFlags::Comment))
            || recursed < 25);
        proof {
            assert(previousEnding@ == last_set(old_flags[lineNumber as int]@));
        }
        if go {
            Some((lineNumber + 1, recursed + 1))
        } else {
            None
        }
    }

    /// The file's contents as saved: the lines joined by newlines.
    pub fn SaveText(&self) -> (contents: String)
        ensures
            contents@ == joined_text(self.text()),
    {
        let ghost ls = self.text();
        let mut contents = String::new();
        let mut i: usize = 0;
        while i < self.lines.len()
            invariant
                ls == self.text(),
                i <= self.lines@.len(),
                contents@ == joined_text(ls.subrange(0, i as int)),
            decreases self.lines@.len() - i,
        {
            if i > 0 {
                string_push(&mut contents, '\n');
            }
            contents = concat(&contents, &self.lines[i]);
            proof {
                let pre = ls.subrange(0, i + 1);
                assert(pre.drop_last() =~= ls.subrange(0, i as int));
                if i == 0 {
                    assert(pre.len() == 1);
                }
            }
            i = i + 1;
        }
        proof {
            assert(ls.subrange(0, self.lines@.len() as int) =~= ls);
        }
        contents
    }
}

} // verus!
