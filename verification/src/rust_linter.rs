//! The Rust linter: the tree of scopes that brackets and block keywords open, the scope each
//! line sits in, and the outline of declared items.
use vstd::prelude::*;
use crate::text::{concat, string_push, str_equal, string_of_str};
use crate::token_info::{
    LuaTuple, TokenType, ScopeNode, OutlineKeyword, OutlineType, node_at, valid_path, pushed_at,
    end_set_at, scopes_edited,
};

verus! {

// ---------------------------------------------------------------- scope paths
/// The index path `p` read from its end, as `ScopeNode` methods take it, is `cs` reversed:
/// `cs` leads from the root down.
pub open spec fn rev(cs: Seq<usize>) -> Seq<usize> {
    cs.reverse()
}

/// A path stays valid without its deepest step.
proof fn lemma_valid_drop_first(n: ScopeNode, p: Seq<usize>)
    requires
        valid_path(n, p),
        p.len() > 0,
    ensures
        valid_path(n, p.drop_first()),
    decreases p.len(),
{
    if p.len() > 1 {
        let i = p.last() as int;
        assert(p.drop_last().drop_first() =~= p.drop_first().drop_last());
        lemma_valid_drop_first(n.children@[i], p.drop_last());
        assert(p.drop_first().last() == p.last());
    }
}

/// Appending a child keeps every valid path valid, and the new child can be entered.
proof fn lemma_pushed_valid(old: ScopeNode, new: ScopeNode, p: Seq<usize>, name: String, start: usize, q: Seq<usize>)
    requires
        pushed_at(old, new, p, name, start),
        valid_path(old, q),
    ensures
        valid_path(new, q),
    decreases q.len(),
{
    if q.len() > 0 {
        let j = q.last() as int;
        if p.len() == 0 {
            assert(new.children@[j] == old.children@[j]);
            lemma_same_valid(old.children@[j], q.drop_last());
        } else if j == p.last() {
            lemma_pushed_valid(old.children@[j], new.children@[j], p.drop_last(), name, start, q.drop_last());
        } else {
            assert(new.children@[j] == old.children@[j]);
        }
    }
}

proof fn lemma_same_valid(n: ScopeNode, q: Seq<usize>)
    requires
        valid_path(n, q),
    ensures
        valid_path(n, q),
{
}

/// The new child is reached by the path to its parent with its index added as the deepest
/// step.
proof fn lemma_pushed_child(old: ScopeNode, new: ScopeNode, p: Seq<usize>, name: String, start: usize, k: usize)
    requires
        pushed_at(old, new, p, name, start),
        valid_path(old, p),
        k == node_at(old, p).children@.len(),
    ensures
        valid_path(new, seq![k] + p),
    decreases p.len(),
{
    if p.len() == 0 {
        assert((seq![k] + p).last() == k);
        assert((seq![k] + p).drop_last() =~= Seq::<usize>::empty());
        assert(valid_path(new.children@[k as int], Seq::<usize>::empty()));
    } else {
        let i = p.last() as int;
        lemma_pushed_child(old.children@[i], new.children@[i], p.drop_last(), name, start, k);
        assert((seq![k] + p).last() == p.last());
        assert((seq![k] + p).drop_last() =~= seq![k] + p.drop_last());
    }
}

/// Setting an end keeps every valid path valid.
proof fn lemma_end_set_valid(old: ScopeNode, new: ScopeNode, p: Seq<usize>, end: usize, q: Seq<usize>)
    requires
        end_set_at(old, new, p, end),
        valid_path(old, q),
    ensures
        valid_path(new, q),
    decreases q.len(),
{
    if q.len() > 0 {
        let j = q.last() as int;
        if p.len() == 0 {
            assert(new.children == old.children);
        } else if j == p.last() {
            lemma_end_set_valid(old.children@[j], new.children@[j], p.drop_last(), end, q.drop_last());
        } else {
            assert(new.children@[j] == old.children@[j]);
        }
    }
}

proof fn lemma_rev_push(cs: Seq<usize>, k: usize)
    ensures
        rev(cs.push(k)) == seq![k] + rev(cs),
{
    assert(rev(cs.push(k)) =~= seq![k] + rev(cs));
}

proof fn lemma_rev_drop_last(cs: Seq<usize>)
    requires
        cs.len() > 0,
    ensures
        rev(cs.drop_last()) == rev(cs).drop_first(),
{
    assert(rev(cs.drop_last()) =~= rev(cs).drop_first());
}

/// A copy of `cs` reversed.
pub(crate) fn reversed(cs: &Vec<usize>) -> (r: Vec<usize>)
    ensures
        r@ == rev(cs@),
{
    let mut r: Vec<usize> = Vec::new();
    let mut i: usize = cs.len();
    while i > 0
        invariant
            i <= cs@.len(),
            r@ == cs@.subrange(i as int, cs@.len() as int).reverse(),
        decreases i,
    {
        i = i - 1;
        r.push(cs[i]);
        proof {
            assert(r@ =~= cs@.subrange(i as int, cs@.len() as int).reverse());
        }
    }
    proof {
        assert(cs@.subrange(0, cs@.len() as int) =~= cs@);
    }
    r
}

fn copy_path(cs: &Vec<usize>) -> (r: Vec<usize>)
    ensures
        r@ == cs@,
{
    let mut r: Vec<usize> = Vec::new();
    let mut i: usize = 0;
    while i < cs.len()
        invariant
            i <= cs@.len(),
            r@ == cs@.subrange(0, i as int),
        decreases cs@.len() - i,
    {
        r.push(cs[i]);
        i = i + 1;
    }
    proof {
        assert(cs@.subrange(0, cs@.len() as int) =~= cs@);
    }
    r
}

/// `new` is `old` with a fresh scope whose name reads `name` appended under the node `p`
/// leads to.
pub open spec fn pushed_as(old: ScopeNode, new: ScopeNode, p: Seq<usize>, name: Seq<char>, start: usize) -> bool {
    exists|nm: String| nm@ == name && pushed_at(old, new, p, nm, start)
}

// ---------------------------------------------------------------- bracket depth
/// The token before `index` (an empty null token before the first).
pub open spec fn previous_text(tokens: Seq<LuaTuple>, index: int) -> Seq<char> {
    if index == 0 {
        Seq::empty()
    } else {
        tokens[index - 1].text@
    }
}

/// How a token changes the bracket depth: `{` opens and `}` closes, except in comments and
/// in strings just after a quote.
pub open spec fn bracket_delta(tokens: Seq<LuaTuple>, token: TokenType, name: Seq<char>, index: int) -> int {
    let last = previous_text(tokens, index);
    if !(token == TokenType::Comment || (last == seq!['"'] || last == seq!['\'']) && token == TokenType::String) {
        if name == seq!['{'] {
            1
        } else if name == seq!['}'] {
            -1
        } else {
            0
        }
    } else {
        0
    }
}

/// The bracket depth after the first `k` tokens of a line.
pub open spec fn depth_after(tokens: Seq<LuaTuple>, k: int) -> int
    decreases k,
{
    if k <= 0 {
        0
    } else {
        depth_after(tokens, k - 1) + bracket_delta(tokens, tokens[k - 1].token, tokens[k - 1].text@, k - 1)
    }
}

proof fn lemma_depth_bound(tokens: Seq<LuaTuple>, k: int)
    requires
        0 <= k,
    ensures
        -k <= depth_after(tokens, k) <= k,
    decreases k,
{
    if k > 0 {
        lemma_depth_bound(tokens, k - 1);
    }
}

/// Updates the bracket depth for the token at `index` (see `bracket_delta`).
pub fn CalculateBracketDepth(tokens: &[LuaTuple], token: &TokenType, bracketDepth: &mut isize, name: &String, index: usize)
    requires
        index <= tokens@.len(),
        isize::MIN < *old(bracketDepth) < isize::MAX,
    ensures
        *final(bracketDepth) == *old(bracketDepth) + bracket_delta(tokens@, *token, name@, index as int),
{
    let quote = if index == 0 {
        false
    } else {
        let last = &tokens[index - 1].text;
        let dq = crate::text::is_char(last, '"');
        let sq = crate::text::is_char(last, '\'');
        proof {
            assert(last@ == tokens@[index - 1].text@);
            assert(dq == (last@ == seq!['"']));
            assert(sq == (last@ == seq!['\'']));
            assert(previous_text(tokens@, index as int) == last@);
        }
        dq || sq
    };
    let counts = !(*token == TokenType::Comment || quote && *token == TokenType::String);
    proof {
        let last = previous_text(tokens@, index as int);
        if index == 0 {
            assert(last.len() == 0);
            assert(seq!['"'].len() == 1);
            assert(seq!['\''].len() == 1);
        }
        assert(quote == (last == seq!['"'] || last == seq!['\'']));
        assert(counts == !(*token == TokenType::Comment || (last == seq!['"'] || last == seq!['\'']) && *token == TokenType::String));
    }
    if counts {
        if crate::text::is_char(name, '{') {
            *bracketDepth = *bracketDepth + 1;
        } else if crate::text::is_char(name, '}') {
            *bracketDepth = *bracketDepth - 1;
        }
    }
}

// ---------------------------------------------------------------- scope names
/// Characters that `str::trim` removes: the Unicode white space.
pub open spec fn is_white(c: char) -> bool {
    ('\u{9}' <= c && c <= '\u{d}') || c == ' ' || c == '\u{85}' || c == '\u{a0}' || c == '\u{1680}'
        || ('\u{2000}' <= c && c <= '\u{200a}') || c == '\u{2028}' || c == '\u{2029}' || c == '\u{202f}'
        || c == '\u{205f}' || c == '\u{3000}'
}

fn white(c: char) -> (b: bool)
    ensures
        b == is_white(c),
{
    ('\u{9}' <= c && c <= '\u{d}') || c == ' ' || c == '\u{85}' || c == '\u{a0}' || c == '\u{1680}'
        || ('\u{2000}' <= c && c <= '\u{200a}') || c == '\u{2028}' || c == '\u{2029}' || c == '\u{202f}'
        || c == '\u{205f}' || c == '\u{3000}'
}

/// `s` without white space at either end.
pub open spec fn trimmed(s: Seq<char>) -> Seq<char>
    decreases s.len(),
{
    if s.len() == 0 {
        s
    } else if is_white(s[0]) {
        trimmed(s.drop_first())
    } else if is_white(s.last()) {
        trimmed(s.drop_last())
    } else {
        s
    }
}

/// `s` without white space at either end.
pub fn trim(s: &String) -> (t: String)
    ensures
        t@ == trimmed(s@),
    decreases s@.len(),
{
    let n = crate::text::char_len(s);
    if n == 0 {
        return s.clone();
    }
    if white(s.as_str().get_char(0)) {
        let rest = crate::text::substring(s, 1, n);
        proof {
            assert(rest@ =~= s@.drop_first());
        }
        return trim(&rest);
    }
    if white(s.as_str().get_char(n - 1)) {
        let rest = crate::text::substring(s, 0, n - 1);
        proof {
            assert(rest@ =~= s@.drop_last());
        }
        return trim(&rest);
    }
    s.clone()
}

/// Keywords whose scope is named after them and the name that follows.
pub open spec fn names_next(t: Seq<char>) -> bool {
    t == "fn"@ || t == "struct"@ || t == "enum"@ || t == "impl"@ || t == "mod"@
}

/// Keywords whose scope is named after them alone.
pub open spec fn names_take(t: Seq<char>) -> bool {
    t == "for"@ || t == "while"@ || t == "if"@ || t == "else"@ || t == "match"@ || t == "loop"@
}

fn is_names_next(t: &String) -> (b: bool)
    ensures
        b == names_next(t@),
{
    proof {
        reveal_strlit("fn");
        reveal_strlit("struct");
        reveal_strlit("enum");
        reveal_strlit("impl");
        reveal_strlit("mod");
    }
    let s = t.as_str();
    str_equal(s, "fn") || str_equal(s, "struct") || str_equal(s, "enum") || str_equal(s, "impl") || str_equal(s, "mod")
}

fn is_names_take(t: &String) -> (b: bool)
    ensures
        b == names_take(t@),
{
    proof {
        reveal_strlit("for");
        reveal_strlit("while");
        reveal_strlit("if");
        reveal_strlit("else");
        reveal_strlit("match");
        reveal_strlit("loop");
    }
    let s = t.as_str();
    str_equal(s, "for") || str_equal(s, "while") || str_equal(s, "if") || str_equal(s, "else") || str_equal(s, "match")
        || str_equal(s, "loop")
}

/// The text of the token two after `index` (empty past the end).
pub open spec fn text_two_after(tokens: Seq<LuaTuple>, index: int) -> Seq<char> {
    if index + 2 < tokens.len() {
        tokens[index + 2].text@
    } else {
        Seq::empty()
    }
}

/// The scope path and scope tree once a scope that closes on this line while its keyword
/// opens one is ended: `closes` says whether it happened.
pub open spec fn closed_first(root0: ScopeNode, root1: ScopeNode, cs0: Seq<usize>, cs1: Seq<usize>, closes: bool, line: usize) -> bool {
    if closes {
        &&& end_set_at(root0, root1, rev(cs0), line)
        &&& cs1 == if cs0.len() > 0 { cs0.drop_last() } else { cs0 }
    } else {
        root1 == root0 && cs1 == cs0
    }
}

/// One way `UpdateScopes` can go: from `root0` and `cs0`, a scope possibly ended (giving
/// `root1` and `cs1`), then a scope possibly opened (giving `root2` and `cs2`), given the rest
/// of the line's bracket depth `bk`.
pub open spec fn scopes_via(
    root0: ScopeNode,
    root1: ScopeNode,
    root2: ScopeNode,
    cs0: Seq<usize>,
    cs1: Seq<usize>,
    cs2: Seq<usize>,
    lin0: Seq<Vec<usize>>,
    lin2: Seq<Vec<usize>>,
    bd0: isize,
    bd2: isize,
    bk: int,
    name: Seq<char>,
    tokens: Seq<LuaTuple>,
    index: int,
    line: usize,
    opened: bool,
) -> bool {
    let closes = bd0 < 0 && bk > 0;
    let t = trimmed(name);
    let opens = bk > 0 && (names_next(t) || names_take(t));
    let new_name = if names_next(t) {
        name + seq![' '] + text_two_after(tokens, index)
    } else {
        name
    };
    &&& opened == opens
    &&& closed_first(root0, root1, cs0, cs1, closes, line)
    &&& valid_path(root1, rev(cs1))
    &&& if opens {
        let k = node_at(root1, rev(cs1)).children@.len();
        &&& k <= usize::MAX
        &&& pushed_as(root1, root2, rev(cs1), new_name, line)
        &&& cs2 == cs1.push(k as usize)
        &&& lin2.len() == lin0.len() + 1
        &&& lin2.drop_last() == lin0
        &&& lin2.last()@ == cs1.push(k as usize)
        &&& bd2 == 0
    } else {
        &&& root2 == root1
        &&& cs2 == cs1
        &&& lin2 == lin0
        &&& bd2 == bd0
    }
}

/// What `UpdateScopes` does, given the rest of the line's bracket depth `bk` (see there).
pub open spec fn scopes_updated(
    root0: ScopeNode,
    root2: ScopeNode,
    cs0: Seq<usize>,
    cs2: Seq<usize>,
    lin0: Seq<Vec<usize>>,
    lin2: Seq<Vec<usize>>,
    bd0: isize,
    bd2: isize,
    bk: int,
    name: Seq<char>,
    tokens: Seq<LuaTuple>,
    index: int,
    line: usize,
    opened: bool,
) -> bool {
    exists|root1: ScopeNode, cs1: Seq<usize>|
        #[trigger] scopes_via(root0, root1, root2, cs0, cs1, cs2, lin0, lin2, bd0, bd2, bk, name, tokens, index, line, opened)
}

/// Names the scope tree and path between ending and opening, to conclude `scopes_updated`.
proof fn lemma_scopes_updated(
    root0: ScopeNode,
    root1: ScopeNode,
    root2: ScopeNode,
    cs0: Seq<usize>,
    cs1: Seq<usize>,
    cs2: Seq<usize>,
    lin0: Seq<Vec<usize>>,
    lin2: Seq<Vec<usize>>,
    bd0: isize,
    bd2: isize,
    bk: int,
    name: Seq<char>,
    tokens: Seq<LuaTuple>,
    index: int,
    line: usize,
    opened: bool,
)
    requires
        scopes_via(root0, root1, root2, cs0, cs1, cs2, lin0, lin2, bd0, bd2, bk, name, tokens, index, line, opened),
    ensures
        scopes_updated(root0, root2, cs0, cs2, lin0, lin2, bd0, bd2, bk, name, tokens, index, line, opened),
{
}

/// Opens the scope a block keyword names when the rest of its line opens a bracket
/// (`brackDepth` positive): a scope still open from before (`bracketDepth` negative) is
/// ended on this line first. `fn`, `struct`, `enum`, `impl` and `mod` name the scope with
/// themselves and the token two after; `for`, `while`, `if`, `else`, `match` and `loop` with
/// themselves. A new scope is recorded in `linearized`, resets `bracketDepth` and gives true.
pub fn UpdateScopes(
    tokens: &[LuaTuple],
    rootNode: &mut ScopeNode,
    currentScope: &mut Vec<usize>,
    linearized: &mut Vec<Vec<usize>>,
    name: &String,
    bracketDepth: &mut isize,
    brackDepth: &mut isize,
    index: usize,
    lineNumber: usize,
) -> (opened: bool)
    requires
        valid_path(*old(rootNode), rev(old(currentScope)@)),
        old(currentScope)@.len() < usize::MAX,
    ensures
        valid_path(*final(rootNode), rev(final(currentScope)@)),
        *final(brackDepth) == *old(brackDepth),
        scopes_updated(*old(rootNode), *final(rootNode), old(currentScope)@, final(currentScope)@, old(linearized)@,
            final(linearized)@, *old(bracketDepth), *final(bracketDepth), *old(brackDepth) as int, name@, tokens@,
            index as int, lineNumber, opened),
{
    let ghost root0 = *rootNode;
    let ghost cs0 = currentScope@;
    if *bracketDepth < 0 && *brackDepth > 0 {
        let mut scopeCopy = reversed(currentScope);
        rootNode.SetEnd(&mut scopeCopy, lineNumber);
        let _ = currentScope.pop();
        proof {
            if cs0.len() > 0 {
                lemma_rev_drop_last(cs0);
                lemma_end_set_valid(root0, *rootNode, rev(cs0), lineNumber, rev(cs0));
                lemma_valid_drop_first(*rootNode, rev(cs0));
            } else {
                lemma_end_set_valid(root0, *rootNode, rev(cs0), lineNumber, rev(cs0));
            }
            assert(currentScope@ == if cs0.len() > 0 { cs0.drop_last() } else { cs0 });
        }
    }
    let ghost root1 = *rootNode;
    let ghost cs1 = currentScope@;
    if *brackDepth > 0 {
        let t = trim(name);
        let next = is_names_next(&t);
        if next || is_names_take(&t) {
            let goodName = if next {
                let tl = tokens.len();
                let nextName = if index < usize::MAX - 2 && index + 2 < tokens.len() {
                    tokens[index + 2].text.clone()
                } else {
                    String::new()
                };
                let mut g = name.clone();
                string_push(&mut g, ' ');
                let g2 = concat(&g, &nextName);
                proof {
                    assert(nextName@ == text_two_after(tokens@, index as int));
                    assert(g2@ =~= name@ + seq![' '] + text_two_after(tokens@, index as int));
                }
                g2
            } else {
                name.clone()
            };
            let ghost gn = goodName;
            let mut scopeCopy = reversed(currentScope);
            let ghost parent_len = node_at(root1, rev(cs1)).children@.len();
            let newScope = rootNode.Push(&mut scopeCopy, goodName, lineNumber);
            proof {
                lemma_pushed_child(root1, *rootNode, rev(cs1), gn, lineNumber, newScope);
                lemma_rev_push(cs1, newScope);
            }
            currentScope.push(newScope);
            linearized.push(copy_path(currentScope));
            *bracketDepth = 0;
            proof {
                assert(linearized@.drop_last() =~= old(linearized)@);
                assert(pushed_as(root1, *rootNode, rev(cs1), gn@, lineNumber));
                assert(gn@ == if names_next(trimmed(name@)) {
                    name@ + seq![' '] + text_two_after(tokens@, index as int)
                } else {
                    name@
                });
                let closes = *old(bracketDepth) < 0 && *old(brackDepth) > 0;
                assert(closed_first(root0, root1, cs0, cs1, closes, lineNumber));
                assert(valid_path(root1, rev(cs1)));
                assert(pushed_as(root1, *rootNode, rev(cs1), gn@, lineNumber));
                lemma_scopes_updated(root0, root1, *rootNode, cs0, cs1, currentScope@, old(linearized)@, linearized@,
                    *old(bracketDepth), *bracketDepth, *old(brackDepth) as int, name@, tokens@, index as int, lineNumber, true);
            }
            return true;
        }
    }
    proof {
        let closes = *old(bracketDepth) < 0 && *old(brackDepth) > 0;
        assert(closed_first(root0, root1, cs0, cs1, closes, lineNumber));
        assert(valid_path(root1, rev(cs1)));
        lemma_scopes_updated(root0, root1, *rootNode, cs0, cs1, currentScope@, old(linearized)@, linearized@,
            *old(bracketDepth), *bracketDepth, *old(brackDepth) as int, name@, tokens@, index as int, lineNumber, false);
    }
    false
}

/// The change of depth the tokens after `index` make when `name` is a bracket: one per
/// token outside comments and quoted strings, up for `{` and down for `}`.
pub open spec fn scope_name_depth(tokens: Seq<LuaTuple>, name: Seq<char>, index: int, k: int) -> int
    decreases k,
{
    if k <= 0 {
        0
    } else {
        let i = k - 1;
        let t = tokens[i];
        let counted = !(t.token == TokenType::Comment || previous_text(tokens, i) == seq!['"'] && t.token
            == TokenType::String) && i > index;
        scope_name_depth(tokens, name, index, k - 1) + if counted {
            if name == seq!['{'] {
                1int
            } else if name == seq!['}'] {
                -1int
            } else {
                0int
            }
        } else {
            0int
        }
    }
}

proof fn lemma_scope_name_depth(tokens: Seq<LuaTuple>, name: Seq<char>, index: int, k: int)
    requires
        0 <= k,
    ensures
        -k <= scope_name_depth(tokens, name, index, k) <= k,
        name != seq!['{'] && name != seq!['}'] ==> scope_name_depth(tokens, name, index, k) == 0,
    decreases k,
{
    if k > 0 {
        lemma_scope_name_depth(tokens, name, index, k - 1);
    }
}

/// Measures how far the rest of the line opens brackets after a block keyword (see
/// `scope_name_depth`) and updates the scopes accordingly (see `UpdateScopes`).
pub fn CheckForScopeName(
    tokens: &[LuaTuple],
    rootNode: &mut ScopeNode,
    currentScope: &mut Vec<usize>,
    linearized: &mut Vec<Vec<usize>>,
    name: &String,
    bracketDepth: &mut isize,
    index: usize,
    lineNumber: usize,
) -> (opened: bool)
    requires
        valid_path(*old(rootNode), rev(old(currentScope)@)),
        old(currentScope)@.len() < usize::MAX,
        tokens@.len() < isize::MAX,
    ensures
        valid_path(*final(rootNode), rev(final(currentScope)@)),
        scopes_updated(*old(rootNode), *final(rootNode), old(currentScope)@, final(currentScope)@, old(linearized)@,
            final(linearized)@, *old(bracketDepth), *final(bracketDepth), scope_name_depth(tokens@, name@, index as int,
            tokens@.len() as int), name@, tokens@, index as int, lineNumber, opened),
        name@ != seq!['{'] && name@ != seq!['}'] ==> !opened && *final(rootNode) == *old(rootNode)
            && final(currentScope)@ == old(currentScope)@ && final(linearized)@ == old(linearized)@
            && *final(bracketDepth) == *old(bracketDepth),
{
    let open = crate::text::is_char(name, '{');
    let close = crate::text::is_char(name, '}');
    let mut brackDepth: isize = 0;
    let mut indx: usize = 0;
    while indx < tokens.len()
        invariant
            indx <= tokens@.len(),
            tokens@.len() < isize::MAX,
            brackDepth == scope_name_depth(tokens@, name@, index as int, indx as int),
            open == (name@ == seq!['{']),
            close == (name@ == seq!['}']),
        decreases tokens@.len() - indx,
    {
        proof {
            lemma_scope_name_depth(tokens@, name@, index as int, indx as int);
        }
        let t = &tokens[indx];
        let quote = indx > 0 && crate::text::is_char(&tokens[indx - 1].text, '"');
        if !(t.token == TokenType::Comment || quote && t.token == TokenType::String) && indx > index {
            if open {
                brackDepth = brackDepth + 1;
            } else if close {
                brackDepth = brackDepth - 1;
            }
        }
        indx = indx + 1;
    }
    proof {
        lemma_scope_name_depth(tokens@, name@, index as int, tokens@.len() as int);
    }
    let ghost root0 = *rootNode;
    let ghost cs0 = currentScope@;
    let opened = UpdateScopes(tokens, rootNode, currentScope, linearized, name, bracketDepth, &mut brackDepth, index, lineNumber);
    proof {
        if name@ != seq!['{'] && name@ != seq!['}'] {
            assert(brackDepth == 0);
        }
    }
    opened
}

/// The scope path's contents.
pub open spec fn paths_view(v: Seq<Vec<usize>>) -> Seq<Seq<usize>> {
    v.map_values(|p: Vec<usize>| p@)
}

/// What the end of a line does to the scopes, given the line's bracket depth `d`: a line
/// that opens brackets opens a scope `{ ... }` under the current one and enters it; a line
/// that closes brackets ends the current scope on this line and leaves it. Each line records
/// the scope it sits in (the new one, or the one it closes) in `jumps`, and the first
/// outline keyword of the line gets that scope.
pub open spec fn bracket_updated(
    root0: ScopeNode,
    root1: ScopeNode,
    cs0: Seq<usize>,
    cs1: Seq<usize>,
    lin0: Seq<Seq<usize>>,
    lin1: Seq<Seq<usize>>,
    jumps0: Seq<Seq<usize>>,
    jumps1: Seq<Seq<usize>>,
    outline0: Seq<OutlineKeyword>,
    outline1: Seq<OutlineKeyword>,
    d: int,
    line: usize,
) -> bool {
    if d > 0 {
        let k = node_at(root0, rev(cs0)).children@.len();
        &&& k <= usize::MAX
        &&& pushed_as(root0, root1, rev(cs0), "{ ... }"@, line)
        &&& cs1 == cs0.push(k as usize)
        &&& jumps1 == jumps0.push(cs1)
        &&& lin1 == lin0.push(cs1)
        &&& scopes_edited(outline0, outline1, cs1, line)
    } else if d < 0 {
        &&& end_set_at(root0, root1, rev(cs0), line)
        &&& cs1 == if cs0.len() > 0 { cs0.drop_last() } else { cs0 }
        &&& jumps1 == jumps0.push(cs0)
        &&& lin1 == lin0
        &&& scopes_edited(outline0, outline1, cs0, line)
    } else {
        &&& root1 == root0
        &&& cs1 == cs0
        &&& jumps1 == jumps0.push(cs0)
        &&& lin1 == lin0
        &&& scopes_edited(outline0, outline1, cs0, line)
    }
}

/// Updates the scopes at the end of a line whose bracket depth is `bracketDepth` (see
/// `bracket_updated`).
pub fn UpdateBracketDepth(
    outline: &mut Vec<OutlineKeyword>,
    rootNode: &mut ScopeNode,
    currentScope: &mut Vec<usize>,
    linearized: &mut Vec<Vec<usize>>,
    jumps: &mut Vec<Vec<usize>>,
    bracketDepth: &mut isize,
    lineNumber: usize,
)
    requires
        valid_path(*old(rootNode), rev(old(currentScope)@)),
        old(currentScope)@.len() < usize::MAX,
    ensures
        valid_path(*final(rootNode), rev(final(currentScope)@)),
        *final(bracketDepth) == *old(bracketDepth),
        bracket_updated(*old(rootNode), *final(rootNode), old(currentScope)@, final(currentScope)@,
            paths_view(old(linearized)@), paths_view(final(linearized)@), paths_view(old(jumps)@),
            paths_view(final(jumps)@), old(outline)@, final(outline)@, *old(bracketDepth) as int, lineNumber),
{
    let ghost root0 = *rootNode;
    let ghost cs0 = currentScope@;
    let ghost lin0 = paths_view(linearized@);
    let ghost jumps0 = paths_view(jumps@);
    if *bracketDepth > 0 {
        let mut scopeCopy = reversed(currentScope);
        proof {
            reveal_strlit("{ ... }");
        }
        let name = string_of_str("{ ... }");
        let ghost nm = name;
        let newScope = rootNode.Push(&mut scopeCopy, name, lineNumber);
        proof {
            lemma_pushed_child(root0, *rootNode, rev(cs0), nm, lineNumber, newScope);
            lemma_rev_push(cs0, newScope);
            assert(pushed_as(root0, *rootNode, rev(cs0), "{ ... }"@, lineNumber));
        }
        currentScope.push(newScope);
        jumps.push(copy_path(currentScope));
        linearized.push(copy_path(currentScope));
        OutlineKeyword::EditScopes(outline, currentScope.as_slice(), lineNumber);
        proof {
            assert(paths_view(jumps@) =~= jumps0.push(currentScope@));
            assert(paths_view(linearized@) =~= lin0.push(currentScope@));
        }
    } else if *bracketDepth < 0 {
        jumps.push(copy_path(currentScope));
        OutlineKeyword::EditScopes(outline, currentScope.as_slice(), lineNumber);
        let mut scopeCopy = reversed(currentScope);
        rootNode.SetEnd(&mut scopeCopy, lineNumber);
        let _ = currentScope.pop();
        proof {
            assert(paths_view(jumps@) =~= jumps0.push(cs0));
            lemma_end_set_valid(root0, *rootNode, rev(cs0), lineNumber, rev(cs0));
            if cs0.len() > 0 {
                lemma_rev_drop_last(cs0);
                lemma_valid_drop_first(*rootNode, rev(cs0));
            }
        }
    } else {
        jumps.push(copy_path(currentScope));
        OutlineKeyword::EditScopes(outline, currentScope.as_slice(), lineNumber);
        proof {
            assert(paths_view(jumps@) =~= jumps0.push(cs0));
        }
    }
}

/// A keyword named like a block keyword is not a bracket.
proof fn lemma_names_not_bracket(t: Seq<char>)
    requires
        names_next(trimmed(t)) || names_take(trimmed(t)),
    ensures
        t != seq!['{'] && t != seq!['}'],
{
    reveal_strlit("fn");
    reveal_strlit("struct");
    reveal_strlit("enum");
    reveal_strlit("impl");
    reveal_strlit("mod");
    reveal_strlit("for");
    reveal_strlit("while");
    reveal_strlit("if");
    reveal_strlit("else");
    reveal_strlit("match");
    reveal_strlit("loop");
    if t == seq!['{'] || t == seq!['}'] {
        assert(!is_white(t[0]));
        assert(trimmed(t) == t);
    }
}

/// Tracks one line's scopes: the line's bracket depth (see `depth_after`) decides at its end
/// what happens to the scopes (see `bracket_updated`). Block keywords on the line are looked
/// at too (see `CheckForScopeName`), which changes nothing for them since they are not
/// brackets.
pub fn HandleBracketsLayer(
    outline: &mut Vec<OutlineKeyword>,
    rootNode: &mut ScopeNode,
    jumps: &mut Vec<Vec<usize>>,
    linearized: &mut Vec<Vec<usize>>,
    currentScope: &mut Vec<usize>,
    tokens: &[LuaTuple],
    lineNumber: usize,
)
    requires
        valid_path(*old(rootNode), rev(old(currentScope)@)),
        old(currentScope)@.len() < usize::MAX,
        tokens@.len() < isize::MAX,
    ensures
        valid_path(*final(rootNode), rev(final(currentScope)@)),
        bracket_updated(*old(rootNode), *final(rootNode), old(currentScope)@, final(currentScope)@,
            paths_view(old(linearized)@), paths_view(final(linearized)@), paths_view(old(jumps)@),
            paths_view(final(jumps)@), old(outline)@, final(outline)@, depth_after(tokens@, tokens@.len() as int),
            lineNumber),
{
    let mut bracketDepth: isize = 0;
    let mut index: usize = 0;
    while index < tokens.len()
        invariant
            index <= tokens@.len(),
            tokens@.len() < isize::MAX,
            bracketDepth == depth_after(tokens@, index as int),
            *rootNode == *old(rootNode),
            currentScope@ == old(currentScope)@,
            linearized@ == old(linearized)@,
            valid_path(*rootNode, rev(currentScope@)),
            currentScope@.len() < usize::MAX,
        ensures
            bracketDepth == depth_after(tokens@, tokens@.len() as int),
            *rootNode == *old(rootNode),
            currentScope@ == old(currentScope)@,
            linearized@ == old(linearized)@,
            valid_path(*rootNode, rev(currentScope@)),
            currentScope@.len() < usize::MAX,
        decreases tokens@.len() - index,
    {
        proof {
            lemma_depth_bound(tokens@, index as int);
        }
        let token = &tokens[index];
        CalculateBracketDepth(tokens, &token.token, &mut bracketDepth, &token.text, index);
        if token.token == TokenType::Keyword || token.token == TokenType::Object || token.token == TokenType::Function {
            let t = trim(&token.text);
            if is_names_next(&t) || is_names_take(&t) {
                proof {
                    lemma_names_not_bracket(token.text@);
                }
                let invalid = CheckForScopeName(tokens, rootNode, currentScope, linearized, &token.text,
                    &mut bracketDepth, index, lineNumber);
                if invalid {
                    break;
                }
            }
        }
        index = index + 1;
    }
    UpdateBracketDepth(outline, rootNode, currentScope, linearized, jumps, &mut bracketDepth, lineNumber);
}

} // verus!
