//! Splitting a line into token strings, and the per-token flags that track open
//! comments, strings, parameter lists, lists and generics across a file.
use vstd::prelude::*;
use crate::text::{string_push, is_char, str_contains, contains_seq, str_equal};
use crate::token_info::{LuaTuple, TokenType, LineTokenFlags};

verus! {

/// The characters that end a token (each also forms a token of its own).
pub open spec fn is_line_break(c: char) -> bool {
    c == ' ' || c == '@' || c == '?' || c == '=' || c == '|' || c == '#' || c == '.' || c == ','
        || c == '(' || c == ')' || c == '[' || c == ']' || c == '{' || c == '}' || c == ';' || c
        == ':' || c == '!' || c == '/' || c == '+' || c == '-' || c == '*' || c == '&' || c == '\''
        || c == '"' || c == '<' || c == '>' || c == '$'
}

pub fn IsLineBreak(c: char) -> (b: bool)
    ensures
        b == is_line_break(c),
{
    c == ' ' || c == '@' || c == '?' || c == '=' || c == '|' || c == '#' || c == '.' || c == ','
        || c == '(' || c == ')' || c == '[' || c == ']' || c == '{' || c == '}' || c == ';' || c
        == ':' || c == '!' || c == '/' || c == '+' || c == '-' || c == '*' || c == '&' || c == '\''
        || c == '"' || c == '<' || c == '>' || c == '$'
}

pub open spec fn has_line_break(s: Seq<char>) -> bool {
    exists|i: int| 0 <= i < s.len() && is_line_break(s[i])
}

/// One step of the tokenizer: the finished tokens and the token being read, after reading `c`.
/// A break character ends the current token and stands as a token of its own.
pub open spec fn scan_step(tokens: Seq<Seq<char>>, current: Seq<char>, c: char) -> (
    Seq<Seq<char>>,
    Seq<char>,
) {
    if current.len() > 0 && is_line_break(c) {
        (tokens.push(current).push(seq![c]), Seq::empty())
    } else {
        let next = current.push(c);
        if has_line_break(next) {
            (tokens.push(next), Seq::empty())
        } else {
            (tokens, next)
        }
    }
}

/// The tokenizer's state after reading all of `text`.
pub open spec fn scan(text: Seq<char>) -> (Seq<Seq<char>>, Seq<char>)
    decreases text.len(),
{
    if text.len() == 0 {
        (Seq::empty(), Seq::empty())
    } else {
        let (tokens, current) = scan(text.drop_last());
        scan_step(tokens, current, text.last())
    }
}

/// The token strings of a line: the finished tokens followed by the one being read at the end
/// (which may be empty).
pub open spec fn token_strs(text: Seq<char>) -> Seq<Seq<char>> {
    scan(text).0.push(scan(text).1)
}

/// The characters of all the strings, in order.
pub open spec fn concat_all(s: Seq<Seq<char>>) -> Seq<char>
    decreases s.len(),
{
    if s.len() == 0 {
        Seq::empty()
    } else {
        concat_all(s.drop_last()) + s.last()
    }
}

pub open spec fn strings_view(v: Seq<String>) -> Seq<Seq<char>> {
    v.map_values(|s: String| s@)
}

proof fn lemma_scan_keeps_text(text: Seq<char>)
    ensures
        concat_all(scan(text).0) + scan(text).1 == text,
        !has_line_break(scan(text).1),
    decreases text.len(),
{
    if text.len() > 0 {
        lemma_scan_keeps_text(text.drop_last());
        let (tokens, current) = scan(text.drop_last());
        let c = text.last();
        assert(text =~= text.drop_last().push(c));
        if current.len() > 0 && is_line_break(c) {
            let t2 = tokens.push(current).push(seq![c]);
            assert(t2.drop_last() == tokens.push(current));
            assert(tokens.push(current).drop_last() == tokens);
            assert(concat_all(tokens.push(current)) == concat_all(tokens) + current);
            assert(concat_all(t2) == concat_all(tokens.push(current)) + seq![c]);
            assert(concat_all(t2) =~= concat_all(tokens) + current + seq![c]);
        } else {
            let next = current.push(c);
            if has_line_break(next) {
                assert(tokens.push(next).drop_last() == tokens);
                assert(concat_all(tokens.push(next)) =~= concat_all(tokens) + next);
            } else {
            }
        }
    }
}

/// Joining the token strings of a line gives back the line.
pub proof fn lemma_token_strs_join(text: Seq<char>)
    ensures
        concat_all(token_strs(text)) == text,
{
    lemma_scan_keeps_text(text);
    assert(token_strs(text).drop_last() == scan(text).0);
}

/// The characters that separate tokens: space, `@`, `?`, `=`, `|`, `#`, `.`, `,`, the
/// brackets, `;`, `:`, `!`, `/`, `+`, `-`, `*`, `&`, the quotes, `<`, `>` and `$`.
pub open spec fn separators() -> Seq<char> {
    seq![
        ' ', '@', '?', '=', '|', '#', '.', ',', '(', ')', '[', ']', '{', '}', ';', ':', '!', '/', '+', '-', '*',
        '&', '\'', '"', '<', '>', '$',
    ]
}

proof fn lemma_separators(c: char)
    ensures
        separators().contains(c) <==> is_line_break(c),
{
    let s = separators();
    if is_line_break(c) {
        if c == ' ' { assert(s[0] == c); } else if c == '@' { assert(s[1] == c); } else if c == '?' { assert(s[2] == c); }
        else if c == '=' { assert(s[3] == c); } else if c == '|' { assert(s[4] == c); } else if c == '#' { assert(s[5] == c); }
        else if c == '.' { assert(s[6] == c); } else if c == ',' { assert(s[7] == c); } else if c == '(' { assert(s[8] == c); }
        else if c == ')' { assert(s[9] == c); } else if c == '[' { assert(s[10] == c); } else if c == ']' { assert(s[11] == c); }
        else if c == '{' { assert(s[12] == c); } else if c == '}' { assert(s[13] == c); } else if c == ';' { assert(s[14] == c); }
        else if c == ':' { assert(s[15] == c); } else if c == '!' { assert(s[16] == c); } else if c == '/' { assert(s[17] == c); }
        else if c == '+' { assert(s[18] == c); } else if c == '-' { assert(s[19] == c); } else if c == '*' { assert(s[20] == c); }
        else if c == '&' { assert(s[21] == c); } else if c == '\'' { assert(s[22] == c); } else if c == '"' { assert(s[23] == c); }
        else if c == '<' { assert(s[24] == c); } else if c == '>' { assert(s[25] == c); } else { assert(s[26] == c); }
    }
}

proof fn lemma_scan_tokens_split(text: Seq<char>)
    ensures
        forall|k: int|
            0 <= k < scan(text).0.len() ==> (#[trigger] scan(text).0[k]).len() == 1 || !has_line_break(
                scan(text).0[k],
            ),
        !has_line_break(scan(text).1),
    decreases text.len(),
{
    if text.len() > 0 {
        lemma_scan_tokens_split(text.drop_last());
        let (tokens, current) = scan(text.drop_last());
        let c = text.last();
        let t2 = scan(text).0;
        if current.len() > 0 && is_line_break(c) {
            assert forall|k: int| 0 <= k < t2.len() implies (#[trigger] t2[k]).len() == 1 || !has_line_break(t2[k]) by {
                if k < tokens.len() {
                    assert(t2[k] == tokens[k]);
                }
            }
        } else {
            let next = current.push(c);
            if has_line_break(next) {
                if current.len() > 0 {
                    let i = choose|i: int| 0 <= i < next.len() && is_line_break(next[i]);
                    if i < current.len() {
                        assert(next[i] == current[i]);
                    }
                }
                assert forall|k: int| 0 <= k < t2.len() implies (#[trigger] t2[k]).len() == 1 || !has_line_break(t2[k]) by {
                    if k < tokens.len() {
                        assert(t2[k] == tokens[k]);
                    }
                }
            } else {
            }
        }
    }
}

/// The tokens of a line give back the line, and every separator (see `separators`) stands
/// as a token of its own: a token holding a separator is that one character.
pub proof fn law_separators_stand_alone(text: Seq<char>)
    ensures
        concat_all(token_strs(text)) == text,
        forall|k: int, i: int|
            0 <= k < token_strs(text).len() && 0 <= i < token_strs(text)[k].len() && separators().contains(
                #[trigger] token_strs(text)[k][i],
            ) ==> token_strs(text)[k].len() == 1,
{
    lemma_token_strs_join(text);
    lemma_scan_tokens_split(text);
    let t = token_strs(text);
    assert forall|k: int, i: int|
        0 <= k < t.len() && 0 <= i < t[k].len() && separators().contains(#[trigger] t[k][i]) implies t[k].len() == 1 by {
        lemma_separators(t[k][i]);
        if k < scan(text).0.len() {
            assert(t[k] == scan(text).0[k]);
        } else {
            assert(t[k] == scan(text).1);
        }
    }
}

/// Splits a line into token strings; every break character stands alone.
pub fn GenerateTokenStrs(text: &str) -> (tokens: Vec<String>)
    ensures
        strings_view(tokens@) == token_strs(text@),
{
    let n = text.unicode_len();
    let mut tokens: Vec<String> = Vec::new();
    let mut current = String::new();
    let mut i: usize = 0;
    while i < n
        invariant
            n == text@.len(),
            i <= n,
            strings_view(tokens@) == scan(text@.subrange(0, i as int)).0,
            current@ == scan(text@.subrange(0, i as int)).1,
            !has_line_break(current@),
        decreases n - i,
    {
        let c = text.get_char(i);
        let ghost pre = text@.subrange(0, i as int + 1);
        proof {
            assert(pre.drop_last() =~= text@.subrange(0, i as int));
            assert(pre.last() == c);
        }
        let is_break = IsLineBreak(c);
        if current.as_str().unicode_len() > 0 && is_break {
            let ghost before = tokens@;
            let mut single = String::new();
            string_push(&mut single, c);
            tokens.push(current);
            tokens.push(single);
            current = String::new();
            proof {
                assert(single@ =~= seq![c]);
                assert(strings_view(tokens@) =~= strings_view(before).push(
                    scan(text@.subrange(0, i as int)).1,
                ).push(seq![c]));
            }
        } else {
            let ghost old_current = current@;
            string_push(&mut current, c);
            proof {
                if is_break {
                    assert(is_line_break(current@[current@.len() - 1]));
                } else {
                    assert forall|k: int| 0 <= k < current@.len() implies !is_line_break(
                        current@[k],
                    ) by {
                        if k < old_current.len() {
                            assert(current@[k] == old_current[k]);
                        }
                    }
                }
            }
            if is_break {
                let ghost before = tokens@;
                tokens.push(current);
                current = String::new();
                proof {
                    assert(strings_view(tokens@) =~= strings_view(before).push(
                        old_current.push(c),
                    ));
                }
            }
        }
        i = i + 1;
    }
    let ghost before = tokens@;
    tokens.push(current);
    proof {
        assert(text@.subrange(0, n as int) =~= text@);
        assert(strings_view(tokens@) =~= strings_view(before).push(scan(text@).1));
    }
    tokens
}

/// `flags` with the first occurrence of `flag` removed (unchanged when there is none).
pub open spec fn remove_first(flags: Seq<LineTokenFlags>, flag: LineTokenFlags) -> Seq<LineTokenFlags>
    decreases flags.len(),
{
    if flags.len() == 0 {
        flags
    } else if flags[0] == flag {
        flags.drop_first()
    } else {
        seq![flags[0]] + remove_first(flags.drop_first(), flag)
    }
}

proof fn lemma_remove_first_at(flags: Seq<LineTokenFlags>, flag: LineTokenFlags, i: int)
    requires
        0 <= i < flags.len(),
        flags[i] == flag,
        forall|j: int| 0 <= j < i ==> flags[j] != flag,
    ensures
        remove_first(flags, flag) == flags.remove(i),
    decreases i,
{
    if i > 0 {
        lemma_remove_first_at(flags.drop_first(), flag, i - 1);
        assert(flags.remove(i) =~= seq![flags[0]] + flags.drop_first().remove(i - 1));
    } else {
        assert(flags.remove(0) =~= flags.drop_first());
    }
}

proof fn lemma_remove_first_absent(flags: Seq<LineTokenFlags>, flag: LineTokenFlags)
    requires
        !flags.contains(flag),
    ensures
        remove_first(flags, flag) == flags,
    decreases flags.len(),
{
    if flags.len() > 0 {
        assert(!flags.drop_first().contains(flag)) by {
            if flags.drop_first().contains(flag) {
                let j = choose|j: int| 0 <= j < flags.drop_first().len() && flags.drop_first()[j] == flag;
                assert(flags[j + 1] == flag);
            }
        }
        assert(flags[0] != flag) by {
            if flags[0] == flag {
                assert(flags.contains(flag));
            }
        }
        lemma_remove_first_absent(flags.drop_first(), flag);
        assert(seq![flags[0]] + flags.drop_first() =~= flags);
    }
}

/// Removes the first occurrence of `removeFlag`, if there is one.
pub fn RemoveLineFlag(currentFlags: &mut Vec<LineTokenFlags>, removeFlag: LineTokenFlags)
    ensures
        final(currentFlags)@ == remove_first(old(currentFlags)@, removeFlag),
{
    let mut i: usize = 0;
    while i < currentFlags.len()
        invariant
            currentFlags@ == old(currentFlags)@,
            i <= currentFlags@.len(),
            forall|j: int| 0 <= j < i ==> currentFlags@[j] != removeFlag,
        decreases currentFlags@.len() - i,
    {
        if currentFlags[i] == removeFlag {
            proof {
                lemma_remove_first_at(currentFlags@, removeFlag, i as int);
            }
            currentFlags.remove(i);
            return ;
        }
        i = i + 1;
    }
    proof {
        assert(!currentFlags@.contains(removeFlag));
        lemma_remove_first_absent(currentFlags@, removeFlag);
    }
}

/// Does the line declare something that takes generics (it mentions `fn`, `struct` or `impl`)?
pub open spec fn takes_generics(text: Seq<char>) -> bool {
    contains_seq(text, "fn"@) || contains_seq(text, "struct"@) || contains_seq(text, "impl"@)
}

/// The flags after reading the token at `index`, given the flags before it.
pub open spec fn flags_step(
    flags: Seq<LineTokenFlags>,
    tokens: Seq<LuaTuple>,
    index: int,
    generics: bool,
) -> Seq<LineTokenFlags> {
    let t = tokens[index].text@;
    let last = tokens[if index == 0 {
        0
    } else {
        index - 1
    }].text@;
    if t == seq!['/'] && last == seq!['*'] && flags.contains(LineTokenFlags::Comment) {
        remove_first(flags, LineTokenFlags::Comment)
    } else if tokens[index].token == TokenType::Comment {
        flags
    } else if t == seq!['<'] && generics {
        flags.push(LineTokenFlags::Generic)
    } else if t == seq!['>'] && flags.contains(LineTokenFlags::Generic) {
        remove_first(flags, LineTokenFlags::Generic)
    } else if t == seq!['"'] || t == seq!['\''] {
        if flags.contains(LineTokenFlags::String) {
            remove_first(flags, LineTokenFlags::String)
        } else {
            flags.push(LineTokenFlags::String)
        }
    } else if t == seq!['('] {
        flags.push(LineTokenFlags::Parameter)
    } else if t == seq![')'] && flags.contains(LineTokenFlags::Parameter) {
        remove_first(flags, LineTokenFlags::Parameter)
    } else if t == seq!['['] {
        flags.push(LineTokenFlags::List)
    } else if t == seq![']'] && flags.contains(LineTokenFlags::List) {
        remove_first(flags, LineTokenFlags::List)
    } else if t == seq!['*'] && last == seq!['/'] {
        flags.push(LineTokenFlags::Comment)
    } else {
        flags
    }
}

/// The flags after reading the first `n` tokens of a line that starts with `previous`.
pub open spec fn flags_after(
    previous: Seq<LineTokenFlags>,
    tokens: Seq<LuaTuple>,
    generics: bool,
    n: nat,
) -> Seq<LineTokenFlags>
    decreases n,
{
    if n == 0 {
        previous
    } else {
        flags_step(flags_after(previous, tokens, generics, (n - 1) as nat), tokens, n - 1, generics)
    }
}

pub fn vec_contains_flag(flags: &Vec<LineTokenFlags>, flag: LineTokenFlags) -> (b: bool)
    ensures
        b == flags@.contains(flag),
{
    let mut i: usize = 0;
    while i < flags.len()
        invariant
            i <= flags@.len(),
            forall|j: int| 0 <= j < i ==> flags@[j] != flag,
        decreases flags@.len() - i,
    {
        if flags[i] == flag {
            return true;
        }
        i = i + 1;
    }
    false
}

pub fn copy_flags(flags: &[LineTokenFlags]) -> (res: Vec<LineTokenFlags>)
    ensures
        res@ == flags@,
{
    let mut out: Vec<LineTokenFlags> = Vec::new();
    let mut i: usize = 0;
    while i < flags.len()
        invariant
            i <= flags@.len(),
            out@ == flags@.subrange(0, i as int),
        decreases flags@.len() - i,
    {
        out.push(flags[i]);
        i = i + 1;
    }
    proof {
        assert(flags@.subrange(0, flags@.len() as int) =~= flags@);
    }
    out
}

fn flags_step_exec(
    flags: &mut Vec<LineTokenFlags>,
    tokens: &[LuaTuple],
    index: usize,
    generics: bool,
)
    requires
        index < tokens@.len(),
    ensures
        final(flags)@ == flags_step(old(flags)@, tokens@, index as int, generics),
{
    let last_index = if index == 0 {
        0
    } else {
        index - 1
    };
    let token = &tokens[index];
    let last = &tokens[last_index];
    if is_char(&token.text, '/') && is_char(&last.text, '*') && vec_contains_flag(
        flags,
        LineTokenFlags::Comment,
    ) {
        RemoveLineFlag(flags, LineTokenFlags::Comment);
    } else if token.token == TokenType::Comment {
    } else if is_char(&token.text, '<') && generics {
        flags.push(LineTokenFlags::Generic);
    } else if is_char(&token.text, '>') && vec_contains_flag(flags, LineTokenFlags::Generic) {
        RemoveLineFlag(flags, LineTokenFlags::Generic);
    } else if is_char(&token.text, '"') || is_char(&token.text, '\'') {
        if vec_contains_flag(flags, LineTokenFlags::String) {
            RemoveLineFlag(flags, LineTokenFlags::String);
        } else {
            flags.push(LineTokenFlags::String);
        }
    } else if is_char(&token.text, '(') {
        flags.push(LineTokenFlags::Parameter);
    } else if is_char(&token.text, ')') && vec_contains_flag(flags, LineTokenFlags::Parameter) {
        RemoveLineFlag(flags, LineTokenFlags::Parameter);
    } else if is_char(&token.text, '[') {
        flags.push(LineTokenFlags::List);
    } else if is_char(&token.text, ']') && vec_contains_flag(flags, LineTokenFlags::List) {
        RemoveLineFlag(flags, LineTokenFlags::List);
    } else if is_char(&token.text, '*') && is_char(&last.text, '/') {
        flags.push(LineTokenFlags::Comment);
    }
}

/// Does the line mention `fn`, `struct` or `impl`?
pub fn TakesGenerics(text: &str) -> (b: bool)
    ensures
        b == takes_generics(text@),
{
    str_contains(text, "fn") || str_contains(text, "struct") || str_contains(text, "impl")
}

/// The flag set after each token of a line, starting from the flags that the previous line
/// ended with.
pub fn GenerateLineTokenFlags(tokens: &[LuaTuple], previousFlagSet: &[LineTokenFlags], text: &str) -> (sets: Vec<
    Vec<LineTokenFlags>,
>)
    ensures
        sets@.len() == tokens@.len(),
        forall|i: int|
            0 <= i < tokens@.len() ==> #[trigger] sets@[i]@ == flags_after(
                previousFlagSet@,
                tokens@,
                takes_generics(text@),
                (i + 1) as nat,
            ),
{
    let generics = TakesGenerics(text);
    let mut current = copy_flags(previousFlagSet);
    let mut sets: Vec<Vec<LineTokenFlags>> = Vec::new();
    let mut index: usize = 0;
    while index < tokens.len()
        invariant
            index <= tokens@.len(),
            generics == takes_generics(text@),
            current@ == flags_after(previousFlagSet@, tokens@, generics, index as nat),
            sets@.len() == index,
            forall|i: int|
                0 <= i < index ==> #[trigger] sets@[i]@ == flags_after(
                    previousFlagSet@,
                    tokens@,
                    generics,
                    (i + 1) as nat,
                ),
        decreases tokens@.len() - index,
    {
        flags_step_exec(&mut current, tokens, index, generics);
        let snapshot = copy_flags(current.as_slice());
        sets.push(snapshot);
        index = index + 1;
    }
    sets
}

/// A token inside an open `/* */` comment becomes a long comment; others keep their type.
pub open spec fn marked_token(token: LuaTuple, flags: Seq<LineTokenFlags>) -> LuaTuple {
    if flags.contains(LineTokenFlags::Comment) {
        LuaTuple { token: TokenType::CommentLong, text: token.text }
    } else {
        token
    }
}

/// The flags the previous line ended with (none for the first line or an empty line).
pub open spec fn previous_flags(lines: Seq<Vec<Vec<LineTokenFlags>>>, lineNumber: int) -> Seq<
    LineTokenFlags,
> {
    if lineNumber != 0 && lineNumber - 1 < lines.len() && lines[lineNumber - 1]@.len() > 0 {
        lines[lineNumber - 1]@.last()@
    } else {
        Seq::empty()
    }
}

/// Finishes the tokens of line `lineNumber` once the highlighting script has typed the token
/// strings: records the flag set after each token in `lineTokenFlags` (growing it to reach
/// the line) and marks the tokens inside an open block comment as long comments.
pub fn GenerateTokens(
    scripted: Vec<LuaTuple>,
    text: &str,
    lineTokenFlags: &mut Vec<Vec<Vec<LineTokenFlags>>>,
    lineNumber: usize,
) -> (tokens: Vec<LuaTuple>)
    requires
        lineNumber < usize::MAX,
    ensures
        final(lineTokenFlags)@.len() == if old(lineTokenFlags)@.len() > lineNumber {
            old(lineTokenFlags)@.len() as int
        } else {
            lineNumber + 1
        },
        forall|i: int|
            0 <= i < final(lineTokenFlags)@.len() && i != lineNumber
                ==> #[trigger] final(lineTokenFlags)@[i]@ == if i < old(lineTokenFlags)@.len() {
                old(lineTokenFlags)@[i]@
            } else {
                Seq::empty()
            },
        final(lineTokenFlags)@[lineNumber as int]@.len() == scripted@.len(),
        forall|i: int|
            0 <= i < scripted@.len() ==> #[trigger] final(lineTokenFlags)@[lineNumber as int]@[i]@
                == flags_after(
                previous_flags(old(lineTokenFlags)@, lineNumber as int),
                scripted@,
                takes_generics(text@),
                (i + 1) as nat,
            ),
        tokens@.len() == scripted@.len(),
        forall|i: int|
            0 <= i < scripted@.len() ==> #[trigger] tokens@[i] == marked_token(
                scripted@[i],
                flags_after(
                    previous_flags(old(lineTokenFlags)@, lineNumber as int),
                    scripted@,
                    takes_generics(text@),
                    (i + 1) as nat,
                ),
            ),
{
    let ghost old_lines = lineTokenFlags@;
    while lineTokenFlags.len() < lineNumber + 1
        invariant
            lineNumber < usize::MAX,
            old_lines.len() <= lineTokenFlags@.len() <= if old_lines.len() > lineNumber {
                old_lines.len() as int
            } else {
                lineNumber + 1
            },
            forall|i: int|
                0 <= i < lineTokenFlags@.len() ==> #[trigger] lineTokenFlags@[i]@ == if i
                    < old_lines.len() {
                    old_lines[i]@
                } else {
                    Seq::empty()
                },
        decreases lineNumber + 1 - lineTokenFlags@.len(),
    {
        lineTokenFlags.push(Vec::new());
    }
    let previous: Vec<LineTokenFlags> = if lineNumber != 0 && lineTokenFlags[lineNumber - 1].len()
        > 0 {
        let prev_line = &lineTokenFlags[lineNumber - 1];
        copy_flags(prev_line[prev_line.len() - 1].as_slice())
    } else {
        Vec::new()
    };
    proof {
        assert(previous@ == previous_flags(old_lines, lineNumber as int));
    }
    let sets = GenerateLineTokenFlags(scripted.as_slice(), previous.as_slice(), text);
    let mut tokens: Vec<LuaTuple> = Vec::new();
    let mut i: usize = 0;
    while i < scripted.len()
        invariant
            i <= scripted@.len(),
            sets@.len() == scripted@.len(),
            tokens@.len() == i,
            forall|k: int|
                0 <= k < i ==> #[trigger] tokens@[k] == marked_token(scripted@[k], sets@[k]@),
        decreases scripted@.len() - i,
    {
        let t = scripted[i].clone();
        if vec_contains_flag(&sets[i], LineTokenFlags::Comment) {
            tokens.push(LuaTuple { token: TokenType::CommentLong, text: t.text });
        } else {
            tokens.push(t);
        }
        i = i + 1;
    }
    lineTokenFlags.set(lineNumber, sets);
    tokens
}

/// The languages with syntax support.
#[derive(Debug, Clone, Copy, PartialEq, Eq, Structural, Hash)]
pub enum Languages {
    Null,
    Rust,
    Lua,
    Cpp,
    Python,
}

/// The language a file ending belongs to, if any.
pub open spec fn language_of(ending: Seq<char>) -> Option<Languages> {
    if ending == "rs"@ {
        Some(Languages::Rust)
    } else if ending == "lua"@ {
        Some(Languages::Lua)
    } else if ending == "cpp"@ || ending == "hpp"@ || ending == "c"@ || ending == "h"@ {
        Some(Languages::Cpp)
    } else if ending == "py"@ {
        Some(Languages::Python)
    } else {
        None
    }
}

/// Finds the language of a file ending.
pub fn FindLanguage(languageEnding: &str) -> (lang: Option<Languages>)
    ensures
        lang == language_of(languageEnding@),
{
    if str_equal(languageEnding, "rs") {
        Some(Languages::Rust)
    } else if str_equal(languageEnding, "lua") {
        Some(Languages::Lua)
    } else if str_equal(languageEnding, "cpp") || str_equal(languageEnding, "hpp") || str_equal(
        languageEnding,
        "c",
    ) || str_equal(languageEnding, "h") {
        Some(Languages::Cpp)
    } else if str_equal(languageEnding, "py") {
        Some(Languages::Python)
    } else {
        None
    }
}

/// The language a file ending is highlighted as (`Null` for unknown endings).
pub fn LanguageOf(fileType: &str) -> (lang: Languages)
    ensures
        lang == match language_of(fileType@) {
            Some(l) => l,
            None => Languages::Null,
        },
{
    match FindLanguage(fileType) {
        Some(l) => l,
        None => Languages::Null,
    }
}

} // verus!
