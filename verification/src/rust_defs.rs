//! The Rust linter's reading of declarations: walking a line's tokens, it recognizes the
//! item a line declares (a struct, enum, function, module or binding), its name, its type
//! and, for a function, its parameters.
use vstd::prelude::*;
use crate::text::{str_equal, str_contains, contains_seq, concat, string_of_str};
use crate::token_info::{
    LuaTuple, TokenType, OutlineKeyword, OutlineType, LineTokenFlags, KeywordView, keywords_view, keyword_view,
    lemma_keywords_view,
};
use crate::rust_outline::{first_implementing, impl_recorded, impl_target, impl_step, impl_steps, impl_indices, jumps_view, GetImplKeywordIndex, HandleKeywordIndexes, with_child, with_scope};
use crate::token_info::{ScopeNode, node_at};
use crate::rust_linter::{reversed, rev, bracket_updated, depth_after, paths_view, HandleBracketsLayer};
use crate::token_info::valid_path;
use crate::tokens::{vec_contains_flag, copy_flags};
use crate::rust_outline::{HandleImpl, impl_steps_fit};
use crate::linters::LanguageLinterInterface;

verus! {

/// What the declaration walk knows of a keyword being read.
pub struct KwModel {
    pub keyword: Seq<char>,
    pub kwType: OutlineType,
    pub typedType: Option<Seq<char>>,
    pub public: Option<bool>,
    pub mutable: bool,
    pub parameters: Option<Seq<(Seq<char>, Option<Seq<char>>)>>,
    pub lineNumber: usize,
}

pub open spec fn opt_text(s: Option<String>) -> Option<Seq<char>> {
    match s {
        Some(t) => Some(t@),
        None => None,
    }
}

pub open spec fn param_model(p: (String, Option<String>)) -> (Seq<char>, Option<Seq<char>>) {
    (p.0@, opt_text(p.1))
}

pub open spec fn params_model(p: Option<Vec<(String, Option<String>)>>) -> Option<Seq<(Seq<char>, Option<Seq<char>>)>> {
    match p {
        Some(v) => Some(v@.map_values(|x: (String, Option<String>)| param_model(x))),
        None => None,
    }
}

/// The keyword as the declaration walk sees it.
pub open spec fn kw_model(k: OutlineKeyword) -> KwModel {
    KwModel {
        keyword: k.keyword@,
        kwType: k.kwType,
        typedType: opt_text(k.typedType),
        public: k.public,
        mutable: k.mutable,
        parameters: params_model(k.parameters),
        lineNumber: k.lineNumber,
    }
}

pub open spec fn opt_model(k: Option<OutlineKeyword>) -> Option<KwModel> {
    match k {
        Some(k) => Some(kw_model(k)),
        None => None,
    }
}

/// A keyword as a declaration starts it: no result type, children, scope or `impl` lines.
pub open spec fn bare(k: OutlineKeyword) -> bool {
    &&& k.resultType is None
    &&& k.childKeywords@.len() == 0
    &&& k.scope@.len() == 0
    &&& k.implLines@.len() == 0
}

pub open spec fn bare_opt(k: Option<OutlineKeyword>) -> bool {
    k is Some ==> bare(k.unwrap())
}

/// A new, unnamed keyword.
pub open spec fn new_kw(kind: OutlineType, public: Option<bool>, mutable: bool, lineNumber: usize) -> KwModel {
    KwModel {
        keyword: Seq::empty(),
        kwType: kind,
        typedType: None,
        public,
        mutable,
        parameters: None,
        lineNumber,
    }
}

/// The kind of item a declaring word starts.
pub open spec fn item_kind(t: Seq<char>) -> OutlineType {
    if t == "mod"@ {
        OutlineType::Mod
    } else if t == "struct"@ {
        OutlineType::Struct
    } else if t == "fn"@ {
        OutlineType::Function
    } else {
        OutlineType::Enum
    }
}

/// The texts of the tokens from `j` on while they are parameter tokens other than `,`.
pub open spec fn param_rest(tokens: Seq<LuaTuple>, flags: Seq<Vec<LineTokenFlags>>, j: int) -> Seq<char>
    decreases tokens.len() - j,
{
    if j < 0 || j >= tokens.len() || tokens[j].text@ == ","@ || !flags[j]@.contains(LineTokenFlags::Parameter) {
        Seq::empty()
    } else {
        tokens[j].text@ + param_rest(tokens, flags, j + 1)
    }
}

/// The keyword with a parameter added: its name is the token three before, its type the
/// token at `index` and the parameter tokens after it (see `param_rest`).
pub open spec fn with_parameter(k: KwModel, tokens: Seq<LuaTuple>, flags: Seq<Vec<LineTokenFlags>>, index: int) -> KwModel {
    let name = tokens[if index >= 3 { index - 3 } else { 0 }].text@;
    let ty = tokens[index].text@ + param_rest(tokens, flags, index + 1);
    let ps = match k.parameters {
        Some(ps) => ps,
        None => Seq::empty(),
    };
    KwModel { parameters: Some(ps.push((name, Some(ty)))), ..k }
}

/// A word that names, types or ends the keyword being read.
pub open spec fn binding_step(
    tokens: Seq<LuaTuple>,
    flags: Seq<Vec<LineTokenFlags>>,
    index: int,
    passedEq: bool,
    st: (Option<KwModel>, bool),
) -> (Option<KwModel>, bool) {
    let t = tokens[index].text@;
    let (c, nonSet) = if t.len() > 0 && t[0] == '_' {
        (None::<KwModel>, true)
    } else {
        st
    };
    match c {
        None => (None, nonSet),
        Some(k) => if k.keyword.len() == 0 {
            (Some(KwModel { keyword: t, ..k }), nonSet)
        } else if index > 1 && tokens[index - 2].text@ == ":"@ && !passedEq && k.typedType is None {
            if k.kwType == OutlineType::Function {
                (Some(with_parameter(k, tokens, flags, index)), nonSet)
            } else {
                (Some(KwModel { typedType: Some(t), ..k }), nonSet)
            }
        } else {
            (Some(k), nonSet)
        },
    }
}

/// How token `index` of a line (whose text is `text`) changes the keyword being read:
/// `struct`, `enum`, `fn` and `mod` start an item (public when the line says `pub`); `let`,
/// `static` and `const` start a binding when none is being read (a constant one for the
/// latter two); `mut` makes it mutable; other words name or type it (see `binding_step`).
pub open spec fn keyword_step(
    tokens: Seq<LuaTuple>,
    flags: Seq<Vec<LineTokenFlags>>,
    text: Seq<char>,
    lineNumber: usize,
    index: int,
    st: (Option<KwModel>, bool),
) -> (Option<KwModel>, bool) {
    let t = tokens[index].text@;
    let (c, nonSet) = st;
    if t == "="@ {
        st
    } else if t == "struct"@ || t == "enum"@ || t == "fn"@ || t == "mod"@ {
        (Some(new_kw(item_kind(t), Some(contains_seq(text, "pub"@)), false, lineNumber)), nonSet)
    } else if (t == "let"@ || t == "static"@ || t == "const"@) && c is None {
        (Some(new_kw(OutlineType::Variable, None, t == "static"@ || t == "const"@, lineNumber)), nonSet)
    } else if t == "mut"@ && c is Some {
        (Some(KwModel { mutable: true, ..c.unwrap() }), nonSet)
    } else if !(t == " "@ || t == "("@ || t == "Some"@ || t == "Ok"@ || t == "mut"@) && c is Some {
        binding_step(tokens, flags, index, false, st)
    } else {
        st
    }
}

/// The keyword being read after the first `k` tokens of a line; once a word starting with
/// `_` ended it, the rest of the line is skipped.
pub open spec fn defs_state(
    tokens: Seq<LuaTuple>,
    flags: Seq<Vec<LineTokenFlags>>,
    text: Seq<char>,
    lineNumber: usize,
    k: int,
) -> (Option<KwModel>, bool)
    decreases k,
{
    if k <= 0 {
        (None, false)
    } else {
        let st = defs_state(tokens, flags, text, lineNumber, k - 1);
        if !st.1 {
            keyword_step(tokens, flags, text, lineNumber, k - 1, st)
        } else {
            st
        }
    }
}

fn is_text(s: &String, lit: &str) -> (b: bool)
    ensures
        b == (s@ == lit@),
{
    str_equal(s.as_str(), lit)
}

fn new_keyword(kind: OutlineType, public: Option<bool>, mutable: bool, lineNumber: usize) -> (k: OutlineKeyword)
    ensures
        kw_model(k) == new_kw(kind, public, mutable, lineNumber),
        bare(k),
{
    let k = OutlineKeyword {
        keyword: String::new(),
        kwType: kind,
        typedType: None,
        resultType: None,
        childKeywords: Vec::new(),
        scope: Vec::new(),
        public,
        mutable,
        parameters: None,
        lineNumber,
        implLines: Vec::new(),
    };
    proof {
        assert(k.keyword@ =~= Seq::<char>::empty());
    }
    k
}

/// Adds a function's parameter: named by the token three before `index`, typed by the
/// token at `index` and the parameter tokens after it up to a `,`.
fn HandleFunctionDef(
    keyword: &mut OutlineKeyword,
    tokens: &Vec<LuaTuple>,
    lineTokenFlags: &Vec<Vec<Vec<LineTokenFlags>>>,
    tokenText: &str,
    index: usize,
    lineNumber: usize,
)
    requires
        index < tokens@.len(),
        tokenText@ == tokens@[index as int].text@,
        lineNumber < lineTokenFlags@.len(),
        lineTokenFlags@[lineNumber as int]@.len() >= tokens@.len(),
    ensures
        kw_model(*final(keyword)) == with_parameter(kw_model(*old(keyword)), tokens@, lineTokenFlags@[lineNumber as int]@, index as int),
        final(keyword).resultType == old(keyword).resultType,
        final(keyword).childKeywords == old(keyword).childKeywords,
        final(keyword).scope == old(keyword).scope,
        final(keyword).implLines == old(keyword).implLines,
{
    let ghost flags = lineTokenFlags@[lineNumber as int]@;
    let mut text = string_of_str(tokenText);
    let n = tokens.len();
    let mut next = index + 1;
    let mut done = false;
    while !done && next < n
        invariant
            n == tokens@.len(),
            index < next <= tokens@.len(),
            flags == lineTokenFlags@[lineNumber as int]@,
            lineNumber < lineTokenFlags@.len(),
            flags.len() >= tokens@.len(),
            text@ + param_rest(tokens@, flags, next as int) == tokens@[index as int].text@ + param_rest(tokens@, flags, index + 1),
            done ==> param_rest(tokens@, flags, next as int) == Seq::<char>::empty(),
        decreases tokens@.len() - next, if done { 0int } else { 1int },
    {
        if is_text(&tokens[next].text, ",") || !vec_contains_flag(&lineTokenFlags[lineNumber][next], LineTokenFlags::Parameter) {
            done = true;
        } else {
            let ghost t0 = text@;
            text.append(tokens[next].text.as_str());
            proof {
                assert(t0 + param_rest(tokens@, flags, next as int) =~= text@ + param_rest(tokens@, flags, next + 1));
            }
            next = next + 1;
        }
    }
    proof {
        assert(param_rest(tokens@, flags, next as int) =~= Seq::<char>::empty());
        assert(text@ + Seq::<char>::empty() =~= text@);
    }
    let nameAt = if index >= 3 {
        index - 3
    } else {
        0
    };
    let name = tokens[nameAt].text.clone();
    let mut ps0: Option<Vec<(String, Option<String>)>> = None;
    std::mem::swap(&mut ps0, &mut keyword.parameters);
    let ghost before = ps0;
    let mut v = match ps0 {
        Some(v) => v,
        None => Vec::new(),
    };
    let ghost v0 = v@;
    v.push((name, Some(text)));
    keyword.parameters = Some(v);
    proof {
        let ps = match before {
            Some(v) => v@,
            None => Seq::empty(),
        };
        assert(v0 == ps);
        assert(v@.map_values(|x: (String, Option<String>)| param_model(x)) =~= ps.map_values(
            |x: (String, Option<String>)| param_model(x),
        ).push((tokens@[nameAt as int].text@, Some(tokens@[index as int].text@ + param_rest(tokens@, flags, index + 1)))));
        let mps = match params_model(before) {
            Some(ps) => ps,
            None => Seq::empty(),
        };
        assert(mps =~= ps.map_values(|x: (String, Option<String>)| param_model(x)));
        let w = with_parameter(kw_model(*old(keyword)), tokens@, flags, index as int);
        assert(w.parameters == params_model(keyword.parameters));
        assert(kw_model(*keyword) =~= w);
    }
}

fn starts_with_underscore(s: &str) -> (b: bool)
    ensures
        b == (s@.len() > 0 && s@[0] == '_'),
{
    s.unicode_len() > 0 && s.get_char(0) == '_'
}

/// A word while a keyword is being read (see `binding_step`): one starting with `_` drops
/// the keyword and ends the line's reading; else it names an unnamed keyword, or, right
/// after a `:`, types it (adds a parameter to a function).
fn HandleBinding(
    tokens: &Vec<LuaTuple>,
    lineTokenFlags: &Vec<Vec<Vec<LineTokenFlags>>>,
    currentContainer: &mut Option<OutlineKeyword>,
    txt: &str,
    tokenText: &str,
    lineNumber: usize,
    nonSet: &mut bool,
    prevTokens: &Vec<TokenType>,
    index: usize,
    passedEq: bool,
)
    requires
        index < tokens@.len(),
        tokenText@ == tokens@[index as int].text@,
        txt@ == tokenText@,
        prevTokens@.len() == index,
        lineNumber < lineTokenFlags@.len(),
        lineTokenFlags@[lineNumber as int]@.len() >= tokens@.len(),
        bare_opt(*old(currentContainer)),
    ensures
        (opt_model(*final(currentContainer)), *final(nonSet)) == binding_step(
            tokens@,
            lineTokenFlags@[lineNumber as int]@,
            index as int,
            passedEq,
            (opt_model(*old(currentContainer)), *old(nonSet)),
        ),
        bare_opt(*final(currentContainer)),
{
    if starts_with_underscore(txt) {
        *currentContainer = None;
        *nonSet = true;
    }
    match currentContainer {
        Some(keyword) => {
            if keyword.keyword.as_str().unicode_len() == 0 {
                keyword.keyword = string_of_str(tokenText);
            } else if prevTokens.len() > 1 && is_text(&tokens[index - 2].text, ":") && !passedEq
                && keyword.typedType.is_none() {
                if keyword.kwType == OutlineType::Function {
                    HandleFunctionDef(keyword, tokens, lineTokenFlags, tokenText, index, lineNumber);
                } else {
                    keyword.typedType = Some(string_of_str(tokenText));
                }
            }
        },
        None => {},
    }
}

/// Reads token `index` of a line (whose text is `text`) into the keyword being read (see
/// `keyword_step`).
fn HandleKeyword(
    tokens: &Vec<LuaTuple>,
    lineTokenFlags: &Vec<Vec<Vec<LineTokenFlags>>>,
    currentContainer: &mut Option<OutlineKeyword>,
    text: &str,
    tokenText: &str,
    lineNumber: usize,
    nonSet: &mut bool,
    prevTokens: &Vec<TokenType>,
    index: usize,
)
    requires
        index < tokens@.len(),
        tokenText@ == tokens@[index as int].text@,
        prevTokens@.len() == index,
        lineNumber < lineTokenFlags@.len(),
        lineTokenFlags@[lineNumber as int]@.len() >= tokens@.len(),
        bare_opt(*old(currentContainer)),
    ensures
        (opt_model(*final(currentContainer)), *final(nonSet)) == keyword_step(
            tokens@,
            lineTokenFlags@[lineNumber as int]@,
            text@,
            lineNumber,
            index as int,
            (opt_model(*old(currentContainer)), *old(nonSet)),
        ),
        bare_opt(*final(currentContainer)),
{
    let passedEq = false;
    let t = tokenText;
    if str_equal(t, "=") {
    } else if str_equal(t, "struct") || str_equal(t, "enum") || str_equal(t, "fn") || str_equal(t, "mod") {
        let kind = if str_equal(t, "mod") {
            OutlineType::Mod
        } else if str_equal(t, "struct") {
            OutlineType::Struct
        } else if str_equal(t, "fn") {
            OutlineType::Function
        } else {
            OutlineType::Enum
        };
        *currentContainer = Some(new_keyword(kind, Some(str_contains(text, "pub")), false, lineNumber));
    } else if (str_equal(t, "let") || str_equal(t, "static") || str_equal(t, "const")) && currentContainer.is_none() {
        let constant = str_equal(t, "static") || str_equal(t, "const");
        *currentContainer = Some(new_keyword(OutlineType::Variable, None, constant, lineNumber));
    } else if str_equal(t, "mut") && currentContainer.is_some() {
        match currentContainer {
            Some(keyword) => {
                keyword.mutable = true;
            },
            None => {},
        }
    } else if !(str_equal(t, " ") || str_equal(t, "(") || str_equal(t, "Some") || str_equal(t, "Ok") || str_equal(t, "mut"))
        && currentContainer.is_some() {
        HandleBinding(tokens, lineTokenFlags, currentContainer, t, tokenText, lineNumber, nonSet, prevTokens, index, passedEq);
    }
}

/// The outline keyword is one the declaration walk read as `m`, fresh from its line.
pub open spec fn read_as(k: KeywordView, m: KwModel) -> bool {
    &&& k.keyword@ == m.keyword
    &&& k.kwType == m.kwType
    &&& opt_text(k.typedType) == m.typedType
    &&& k.public == m.public
    &&& k.mutable == m.mutable
    &&& match k.parameters {
        Some(ps) => m.parameters == Some(ps.map_values(|x: (String, Option<String>)| param_model(x))),
        None => m.parameters is None,
    }
    &&& k.lineNumber == m.lineNumber
    &&& k.resultType is None
    &&& k.childKeywords.len() == 0
    &&& k.scope.len() == 0
    &&& k.implLines.len() == 0
}

pub proof fn lemma_read_as(k: OutlineKeyword)
    requires
        bare(k),
    ensures
        read_as(keyword_view(k), kw_model(k)),
{
    crate::token_info::lemma_keywords_view(k.childKeywords@);
}

/// `now` is the outline `before` after reading the declarations of line `lineNumber`
/// (see `HandleDefinitions`).
pub open spec fn defs_done(
    before: Seq<KeywordView>,
    now: Seq<KeywordView>,
    tokens: Seq<LuaTuple>,
    flags: Seq<Vec<LineTokenFlags>>,
    text: Seq<char>,
    lineNumber: usize,
) -> bool {
    let kept = before.filter(|k: KeywordView| k.lineNumber != lineNumber);
    match defs_state(tokens, flags, text, lineNumber, tokens.len() as int).0 {
        Some(m) => now.len() == kept.len() + 1 && now.take(kept.len() as int) == kept && read_as(now.last(), m),
        None => now == if contains_seq(text, "impl"@) {
            impl_recorded(kept, impl_target(tokens, 0), lineNumber)
        } else {
            kept
        },
    }
}

/// Reads the declarations of line `lineNumber` (see `defs_state`): the keywords the outline
/// had for the line are replaced by the one the line declares; a line declaring nothing
/// that says `impl` is recorded as implementing the item it names.
pub fn HandleDefinitions(
    tokens: &Vec<LuaTuple>,
    lineTokenFlags: &Vec<Vec<Vec<LineTokenFlags>>>,
    outline: &mut Vec<OutlineKeyword>,
    text: &str,
    lineNumber: usize,
)
    requires
        lineNumber < lineTokenFlags@.len(),
        lineTokenFlags@[lineNumber as int]@.len() >= tokens@.len(),
    ensures
        defs_done(
            keywords_view(old(outline)@),
            keywords_view(final(outline)@),
            tokens@,
            lineTokenFlags@[lineNumber as int]@,
            text@,
            lineNumber,
        ),
{
    let ghost flags = lineTokenFlags@[lineNumber as int]@;
    let mut nonSet = false;
    let mut prevTokens: Vec<TokenType> = Vec::new();
    let mut currentContainer: Option<OutlineKeyword> = None;
    let mut index: usize = 0;
    while index < tokens.len()
        invariant
            index <= tokens@.len(),
            flags == lineTokenFlags@[lineNumber as int]@,
            lineNumber < lineTokenFlags@.len(),
            flags.len() >= tokens@.len(),
            prevTokens@.len() == index,
            bare_opt(currentContainer),
            (opt_model(currentContainer), nonSet) == defs_state(tokens@, flags, text@, lineNumber, index as int),
        decreases tokens@.len() - index,
    {
        if !nonSet {
            HandleKeyword(
                tokens,
                lineTokenFlags,
                &mut currentContainer,
                text,
                tokens[index].text.as_str(),
                lineNumber,
                &mut nonSet,
                &prevTokens,
                index,
            );
        }
        prevTokens.push(tokens[index].token);
        index = index + 1;
    }
    let ghost pred = |k: KeywordView| k.lineNumber != lineNumber;
    let mut newOutline: Vec<OutlineKeyword> = Vec::new();
    let mut i: usize = 0;
    proof {
        lemma_keywords_view(outline@);
        reveal(Seq::filter);
        assert(keywords_view(outline@).take(0) =~= Seq::<KeywordView>::empty());
        assert(keywords_view(outline@).take(0).filter(pred) =~= Seq::<KeywordView>::empty());
    }
    while i < outline.len()
        invariant
            i <= outline@.len(),
            pred == (|k: KeywordView| k.lineNumber != lineNumber),
            outline@ == old(outline)@,
            keywords_view(newOutline@) == keywords_view(outline@).take(i as int).filter(pred),
            keywords_view(outline@).len() == outline@.len(),
            forall|j: int| 0 <= j < outline@.len() ==> #[trigger] keywords_view(outline@)[j] == keyword_view(outline@[j]),
        decreases outline@.len() - i,
    {
        let ghost ov = keywords_view(outline@);
        proof {
            assert(ov.take(i + 1).drop_last() =~= ov.take(i as int));
            assert(ov.take(i + 1).last() == ov[i as int]);
        }
        if outline[i].lineNumber != lineNumber {
            let ghost n0 = newOutline@;
            let k = outline[i].copy();
            proof {
                assert(keyword_view(k) == ov[i as int]);
                assert(pred(ov[i as int]));
                assert(ov.take(i + 1) =~= ov.take(i as int).push(ov[i as int]));
                ov.take(i as int).lemma_filter_push(ov[i as int], pred);
            }
            newOutline.push(k);
            proof {
                assert(newOutline@.drop_last() =~= n0);
                assert(keywords_view(newOutline@) == keywords_view(n0).push(keyword_view(k)));
            }
        } else {
            proof {
                assert(!pred(ov[i as int]));
                assert(ov.take(i + 1) =~= ov.take(i as int).push(ov[i as int]));
                ov.take(i as int).lemma_filter_push(ov[i as int], pred);
            }
        }
        i = i + 1;
    }
    proof {
        assert(keywords_view(outline@).take(outline@.len() as int) =~= keywords_view(outline@));
    }
    *outline = newOutline;
    let ghost kept = keywords_view(outline@);
    let ghost c = currentContainer;
    HandleImpl(currentContainer, outline, tokens.as_slice(), text, lineNumber);
    proof {
        match c {
            Some(k) => {
                lemma_read_as(k);
                let now = keywords_view(outline@);
                assert(now.take(kept.len() as int) =~= kept);
            },
            None => {},
        }
    }
}

// ---------------------------------------------------------------- members of types
/// A parameter as plain text: its name and its type.
pub type ParamModel = (Seq<char>, Option<Seq<char>>);

/// The texts of the tokens from `from` to the end of the line.
pub open spec fn rest_text(tokens: Seq<LuaTuple>, from: int) -> Seq<char>
    decreases tokens.len() - from,
{
    if from < 0 || from >= tokens.len() {
        Seq::empty()
    } else {
        tokens[from].text@ + rest_text(tokens, from + 1)
    }
}

/// Words that never name a member.
pub open spec fn member_skip(t: Seq<char>) -> bool {
    t == " "@ || t == "("@ || t == "Some"@ || t == "Ok"@ || t == "_"@ || t == "mut"@ || t == ","@ || t == "pub"@
}

/// How token `index` of a line inside a struct or enum (of kind `parentKind`) changes the
/// member being read and the type's own parameters: a parameter token after a member
/// either opens a `(` list, whose rest of the line becomes a parameter of the type named
/// after the member, or follows a `:`, whose rest of the line (from the second token on)
/// becomes the member's type; otherwise the first word names a new member (a variant of
/// an enum), public as the line says so far.
pub open spec fn member_step(
    tokens: Seq<LuaTuple>,
    flags: Seq<Vec<LineTokenFlags>>,
    parentKind: OutlineType,
    index: int,
    lineNumber: usize,
    public: bool,
    st: (Option<KwModel>, Option<Seq<ParamModel>>),
) -> (Option<KwModel>, Option<Seq<ParamModel>>) {
    let t = tokens[index].text@;
    let (c, pp) = st;
    if flags[index]@.contains(LineTokenFlags::Parameter) && c is Some {
        if t == "("@ {
            let ps = match pp {
                Some(ps) => ps,
                None => Seq::empty(),
            };
            (c, Some(ps.push((c.unwrap().keyword, Some(rest_text(tokens, index + 1))))))
        } else if t == ":"@ {
            let name = tokens[if index >= 1 { index - 1 } else { 0 }].text@;
            let ty = if flags[index]@.contains(LineTokenFlags::Comment) {
                Seq::empty()
            } else {
                rest_text(tokens, index + 2)
            };
            (Some(KwModel { parameters: Some(seq![(name, Some(ty))]), ..c.unwrap() }), pp)
        } else {
            st
        }
    } else if !member_skip(t) && c is None {
        let kind = if parentKind == OutlineType::Enum {
            OutlineType::Variant
        } else {
            OutlineType::Member
        };
        (Some(KwModel { keyword: t, ..new_kw(kind, Some(public), false, lineNumber) }), pp)
    } else {
        st
    }
}

/// A member as the scan starts it: no result type, children or `impl` lines, and the scope
/// of its type.
pub open spec fn member_ok(k: OutlineKeyword, scope: Seq<usize>) -> bool {
    &&& k.resultType is None
    &&& k.childKeywords@.len() == 0
    &&& k.implLines@.len() == 0
    &&& k.scope@ == scope
}

pub open spec fn member_opt_ok(k: Option<OutlineKeyword>, scope: Seq<usize>) -> bool {
    k is Some ==> member_ok(k.unwrap(), scope)
}

/// The keyword with only its parameters changed.
pub open spec fn same_but_params(a: OutlineKeyword, b: OutlineKeyword) -> bool {
    &&& a.keyword == b.keyword
    &&& a.kwType == b.kwType
    &&& a.typedType == b.typedType
    &&& a.resultType == b.resultType
    &&& a.childKeywords == b.childKeywords
    &&& a.scope == b.scope
    &&& a.public == b.public
    &&& a.mutable == b.mutable
    &&& a.lineNumber == b.lineNumber
    &&& a.implLines == b.implLines
}

/// The texts of the tokens of a line from `from` on.
fn rest_of_line(tokens: &Vec<LuaTuple>, from: usize) -> (text: String)
    ensures
        text@ == rest_text(tokens@, from as int),
{
    let mut text = String::new();
    let mut i = from;
    while i < tokens.len()
        invariant
            from <= i,
            text@ + rest_text(tokens@, i as int) == rest_text(tokens@, from as int),
        decreases tokens@.len() - i,
    {
        let ghost t0 = text@;
        text.append(tokens[i].text.as_str());
        proof {
            assert(t0 + rest_text(tokens@, i as int) =~= text@ + rest_text(tokens@, i + 1));
        }
        i = i + 1;
    }
    proof {
        assert(text@ + Seq::<char>::empty() =~= text@);
    }
    text
}

/// A `(` after a member: the rest of the line becomes a parameter of the type, named after
/// the member.
fn HandleKeywordParameter(
    tokenLines: &Vec<Vec<LuaTuple>>,
    lineFlags: &Vec<Vec<Vec<LineTokenFlags>>>,
    currentContainer: &mut Option<OutlineKeyword>,
    keyword: &mut OutlineKeyword,
    parameterType: String,
    index: usize,
    lineNumber: usize,
)
    requires
        lineNumber < tokenLines@.len(),
        index < tokenLines@[lineNumber as int]@.len(),
        lineNumber < lineFlags@.len(),
        lineFlags@[lineNumber as int]@.len() >= tokenLines@[lineNumber as int]@.len(),
        lineFlags@[lineNumber as int]@[index as int]@.contains(LineTokenFlags::Parameter),
        parameterType@.len() == 0,
    ensures
        *final(currentContainer) == *old(currentContainer),
        same_but_params(*old(keyword), *final(keyword)),
        params_model(final(keyword).parameters) == match *old(currentContainer) {
            Some(c) => Some(
                match params_model(old(keyword).parameters) {
                    Some(ps) => ps,
                    None => Seq::empty(),
                }.push((c.keyword@, Some(rest_text(tokenLines@[lineNumber as int]@, index + 1)))),
            ),
            None => match params_model(old(keyword).parameters) {
                Some(ps) => Some(ps),
                None => Some(Seq::empty()),
            },
        },
{
    let tokens = &tokenLines[lineNumber];
    let mut parameterType = parameterType;
    let n = tokens.len();
    let rest = rest_of_line(tokens, index + 1);
    parameterType.append(rest.as_str());
    proof {
        assert(parameterType@ =~= rest_text(tokenLines@[lineNumber as int]@, index + 1));
    }
    let mut ps0: Option<Vec<(String, Option<String>)>> = None;
    std::mem::swap(&mut ps0, &mut keyword.parameters);
    let ghost before = ps0;
    let mut v = match ps0 {
        Some(v) => v,
        None => Vec::new(),
    };
    let ghost v0 = v@;
    match currentContainer {
        Some(container) => {
            v.push((container.keyword.clone(), Some(parameterType)));
        },
        None => {},
    }
    keyword.parameters = Some(v);
    proof {
        let ps = match before {
            Some(v) => v@,
            None => Seq::empty(),
        };
        assert(v0 == ps);
        let mps = match params_model(before) {
            Some(ps) => ps,
            None => Seq::empty(),
        };
        assert(mps =~= ps.map_values(|x: (String, Option<String>)| param_model(x)));
        match *old(currentContainer) {
            Some(c) => {
                assert(v@.map_values(|x: (String, Option<String>)| param_model(x)) =~= mps.push((c.keyword@, Some(parameterType@))));
            },
            None => {
                assert(v@.map_values(|x: (String, Option<String>)| param_model(x)) =~= mps);
            },
        }
    }
}

/// A parameter token after a member: `(` adds a parameter to the type (see
/// `HandleKeywordParameter`); `:` types the member with the rest of the line from the
/// second token on (nothing inside a comment).
fn HandleKeywordParameterSet(
    tokenLines: &Vec<Vec<LuaTuple>>,
    lineFlags: &Vec<Vec<Vec<LineTokenFlags>>>,
    currentContainer: &mut Option<OutlineKeyword>,
    keyword: &mut OutlineKeyword,
    textIndex: usize,
    index: usize,
    lineNumber: usize,
)
    requires
        textIndex == index,
        lineNumber < tokenLines@.len(),
        index < tokenLines@[lineNumber as int]@.len(),
        lineNumber < lineFlags@.len(),
        lineFlags@[lineNumber as int]@.len() >= tokenLines@[lineNumber as int]@.len(),
        lineFlags@[lineNumber as int]@[index as int]@.contains(LineTokenFlags::Parameter),
        (*old(currentContainer)) is Some,
    ensures
        ({
            let tokens = tokenLines@[lineNumber as int]@;
            let flags = lineFlags@[lineNumber as int]@;
            let t = tokens[index as int].text@;
            &&& (opt_model(*final(currentContainer)), params_model(final(keyword).parameters)) == if t == "("@ || t == ":"@ {
                member_step(tokens, flags, old(keyword).kwType, index as int, lineNumber, false,
                    (opt_model(*old(currentContainer)), params_model(old(keyword).parameters)))
            } else {
                (opt_model(*old(currentContainer)), params_model(old(keyword).parameters))
            }
            &&& same_but_params(*old(keyword), *final(keyword))
            &&& (*final(currentContainer)) is Some
            &&& same_but_params(old(currentContainer).unwrap(), final(currentContainer).unwrap())
        }),
{
    let tokens = &tokenLines[lineNumber];
    let parameterType = String::new();
    if is_text(&tokens[textIndex].text, "(") {
        HandleKeywordParameter(tokenLines, lineFlags, currentContainer, keyword, parameterType, index, lineNumber);
        proof {
            let c = old(currentContainer).unwrap();
            let ps = match params_model(old(keyword).parameters) {
                Some(ps) => ps,
                None => Seq::empty(),
            };
            assert(params_model(keyword.parameters) == Some(ps.push((c.keyword@, Some(rest_text(tokens@, index + 1))))));
        }
    } else if is_text(&tokens[textIndex].text, ":") {
        let ty = if vec_contains_flag(&lineFlags[lineNumber][index], LineTokenFlags::Comment) {
            String::new()
        } else {
            let n = tokens.len();
            let from = if index < n - 1 {
                index + 2
            } else {
                n
            };
            let r = rest_of_line(tokens, from);
            proof {
                assert(rest_text(tokens@, from as int) == rest_text(tokens@, index + 2));
            }
            r
        };
        let nameAt = if index >= 1 {
            index - 1
        } else {
            0
        };
        let name = tokens[nameAt].text.clone();
        match currentContainer {
            Some(container) => {
                container.parameters = Some(vec![(name, Some(ty))]);
            },
            None => {},
        }
        proof {
            let c = currentContainer.unwrap();
            let v = c.parameters.unwrap()@;
            assert(v.map_values(|x: (String, Option<String>)| param_model(x)) =~= seq![(name@, Some(ty@))]);
            assert(ty@ == if lineFlags@[lineNumber as int]@[index as int]@.contains(LineTokenFlags::Comment) {
                Seq::<char>::empty()
            } else {
                rest_text(tokens@, index + 2)
            });
        }
    }
}

/// Reads token `index` of a line inside the struct or enum `keyword` (see `member_step`).
fn HandleScopeChecks(
    tokenLines: &Vec<Vec<LuaTuple>>,
    lineFlags: &Vec<Vec<Vec<LineTokenFlags>>>,
    currentContainer: &mut Option<OutlineKeyword>,
    scopeJumps: &Vec<Vec<usize>>,
    keyword: &mut OutlineKeyword,
    textIndex: usize,
    index: usize,
    lineNumber: usize,
    public: bool,
)
    requires
        textIndex == index,
        lineNumber < tokenLines@.len(),
        index < tokenLines@[lineNumber as int]@.len(),
        lineNumber < lineFlags@.len(),
        lineFlags@[lineNumber as int]@.len() >= tokenLines@[lineNumber as int]@.len(),
        old(keyword).lineNumber < scopeJumps@.len(),
        member_opt_ok(*old(currentContainer), scopeJumps@[old(keyword).lineNumber as int]@),
    ensures
        (opt_model(*final(currentContainer)), params_model(final(keyword).parameters)) == member_step(
            tokenLines@[lineNumber as int]@,
            lineFlags@[lineNumber as int]@,
            old(keyword).kwType,
            index as int,
            lineNumber,
            public,
            (opt_model(*old(currentContainer)), params_model(old(keyword).parameters)),
        ),
        same_but_params(*old(keyword), *final(keyword)),
        member_opt_ok(*final(currentContainer), scopeJumps@[old(keyword).lineNumber as int]@),
{
    let condition = vec_contains_flag(&lineFlags[lineNumber][index], LineTokenFlags::Parameter);
    if condition && currentContainer.is_some() {
        HandleKeywordParameterSet(tokenLines, lineFlags, currentContainer, keyword, textIndex, index, lineNumber);
    } else {
        let t = &tokenLines[lineNumber][textIndex].text;
        let skip = is_text(t, " ") || is_text(t, "(") || is_text(t, "Some") || is_text(t, "Ok") || is_text(t, "_")
            || is_text(t, "mut") || is_text(t, ",") || is_text(t, "pub");
        if !skip && currentContainer.is_none() {
            let kind = if keyword.kwType == OutlineType::Enum {
                OutlineType::Variant
            } else {
                OutlineType::Member
            };
            let scope = crate::token_info::clone_usizes(&scopeJumps[keyword.lineNumber]);
            let k = OutlineKeyword {
                keyword: t.clone(),
                kwType: kind,
                typedType: None,
                resultType: None,
                childKeywords: Vec::new(),
                scope,
                public: Some(public),
                mutable: false,
                parameters: None,
                lineNumber,
                implLines: Vec::new(),
            };
            proof {
                assert(kw_model(k) == KwModel { keyword: t@, ..new_kw(kind, Some(public), false, lineNumber) });
            }
            *currentContainer = Some(k);
        }
    }
}

/// The scan of the first `k` tokens of a line inside a struct or enum of kind `kind`:
/// whether a `}` ended the type, whether `pub` was seen, the member being read and the
/// type's parameters (starting from `pp0`). Comments and strings are skipped.
pub open spec fn line_scan(
    tokens: Seq<LuaTuple>,
    flags: Seq<Vec<LineTokenFlags>>,
    kind: OutlineType,
    lineNumber: usize,
    pp0: Option<Seq<ParamModel>>,
    k: int,
) -> (bool, bool, Option<KwModel>, Option<Seq<ParamModel>>)
    decreases k,
{
    if k <= 0 {
        (false, false, None, pp0)
    } else {
        let (stop, public, c, pp) = line_scan(tokens, flags, kind, lineNumber, pp0, k - 1);
        if stop {
            (stop, public, c, pp)
        } else {
            let t = tokens[k - 1].text@;
            if t == "}"@ {
                (true, public, c, pp)
            } else {
                let public2 = public || t == "pub"@;
                if tokens[k - 1].token == TokenType::Comment || tokens[k - 1].token == TokenType::String {
                    (false, public2, c, pp)
                } else {
                    let (c2, pp2) = member_step(tokens, flags, kind, k - 1, lineNumber, public2, (c, pp));
                    (false, public2, c2, pp2)
                }
            }
        }
    }
}

/// The members read from lines `from..to` of a struct or enum of kind `kind`, one per line
/// at most, until a `}` ends the type: the members in order, the type's parameters, and
/// whether the end was found.
pub open spec fn members_scan(
    lines: Seq<Vec<LuaTuple>>,
    flags: Seq<Vec<Vec<LineTokenFlags>>>,
    kind: OutlineType,
    from: int,
    to: int,
    pp0: Option<Seq<ParamModel>>,
) -> (Seq<KwModel>, Option<Seq<ParamModel>>, bool)
    decreases to - from,
{
    if to <= from {
        (Seq::empty(), pp0, false)
    } else {
        let (added, pp, stopped) = members_scan(lines, flags, kind, from, to - 1, pp0);
        if stopped {
            (added, pp, stopped)
        } else {
            let tokens = lines[to - 1]@;
            let (stop, _, c, pp2) = line_scan(tokens, flags[to - 1]@, kind, (to - 1) as usize, pp, tokens.len() as int);
            if stop {
                (added, pp2, true)
            } else {
                match c {
                    Some(m) => (added.push(m), pp2, false),
                    None => (added, pp2, false),
                }
            }
        }
    }
}

/// `ks` are members read as `ms`, each with the scope `scope`.
pub open spec fn members_as(ks: Seq<OutlineKeyword>, ms: Seq<KwModel>, scope: Seq<usize>) -> bool {
    &&& ks.len() == ms.len()
    &&& forall|i: int| 0 <= i < ks.len() ==> kw_model(#[trigger] ks[i]) == ms[i] && member_ok(ks[i], scope)
}

/// The line after `keyword`'s own up to the end of its scope (see `members_scan`).
pub open spec fn scope_end(keyword: OutlineKeyword, jumps: Seq<Vec<usize>>, root: ScopeNode) -> int {
    node_at(root, rev(jumps[keyword.lineNumber as int]@)).end as int
}

/// Reads the members of the struct or enum `keyword` from the lines of its scope (see
/// `members_scan`): each is added to `newKeywords` and to the keyword's children, and the
/// keyword gets the parameters the scan gives.
fn HandleKeywordsLoop(
    tokenLines: &Vec<Vec<LuaTuple>>,
    lineFlags: &Vec<Vec<Vec<LineTokenFlags>>>,
    scopeJumps: &Vec<Vec<usize>>,
    keyword: &mut OutlineKeyword,
    newKeywords: &mut Vec<OutlineKeyword>,
    root: &ScopeNode,
)
    requires
        old(keyword).lineNumber < scopeJumps@.len(),
        scope_end(*old(keyword), scopeJumps@, *root) <= tokenLines@.len(),
        lineFlags@.len() >= tokenLines@.len(),
        forall|l: int| 0 <= l < tokenLines@.len() ==> #[trigger] lineFlags@[l]@.len() >= tokenLines@[l]@.len(),
    ensures
        ({
            let (added, pp, _) = members_scan(
                tokenLines@,
                lineFlags@,
                old(keyword).kwType,
                old(keyword).lineNumber + 1,
                scope_end(*old(keyword), scopeJumps@, *root),
                params_model(old(keyword).parameters),
            );
            let n = old(newKeywords)@.len();
            let fresh = final(newKeywords)@.subrange(n as int, final(newKeywords)@.len() as int);
            &&& final(newKeywords)@.len() >= n
            &&& final(newKeywords)@.take(n as int) == old(newKeywords)@
            &&& members_as(fresh, added, scopeJumps@[old(keyword).lineNumber as int]@)
            &&& keywords_view(final(keyword).childKeywords@) == keywords_view(old(keyword).childKeywords@) + keywords_view(fresh)
            &&& params_model(final(keyword).parameters) == pp
            &&& final(keyword).keyword == old(keyword).keyword
            &&& final(keyword).kwType == old(keyword).kwType
            &&& final(keyword).lineNumber == old(keyword).lineNumber
            &&& final(keyword).scope == old(keyword).scope
            &&& final(keyword).implLines == old(keyword).implLines
            &&& final(keyword).public == old(keyword).public
            &&& final(keyword).typedType == old(keyword).typedType
        }),
{
    let ghost k0 = *keyword;
    let ghost n0 = newKeywords@.len();
    let ghost scope = scopeJumps@[k0.lineNumber as int]@;
    let nj = scopeJumps.len();
    let mut path = reversed(&scopeJumps[keyword.lineNumber]);
    let end = root.GetNode(&mut path).end;
    let mut lineNumber = keyword.lineNumber + 1;
    let mut stopped = false;
    while lineNumber < end && !stopped
        invariant
            k0 == *old(keyword),
            n0 == old(newKeywords)@.len(),
            scope == scopeJumps@[k0.lineNumber as int]@,
            k0.lineNumber < scopeJumps@.len(),
            end == scope_end(k0, scopeJumps@, *root),
            end <= tokenLines@.len(),
            lineFlags@.len() >= tokenLines@.len(),
            forall|l: int| 0 <= l < tokenLines@.len() ==> #[trigger] lineFlags@[l]@.len() >= tokenLines@[l]@.len(),
            k0.lineNumber + 1 <= lineNumber,
            lineNumber <= end || k0.lineNumber + 1 == lineNumber,
            ({
                let (added, pp, st) = members_scan(tokenLines@, lineFlags@, k0.kwType, k0.lineNumber + 1, lineNumber as int, params_model(k0.parameters));
                let fresh = newKeywords@.subrange(n0 as int, newKeywords@.len() as int);
                &&& st == stopped
                &&& newKeywords@.len() >= n0
                &&& newKeywords@.take(n0 as int) == old(newKeywords)@
                &&& members_as(fresh, added, scope)
                &&& keywords_view(keyword.childKeywords@) == keywords_view(k0.childKeywords@) + keywords_view(fresh)
                &&& params_model(keyword.parameters) == pp
            }),
            keyword.keyword == k0.keyword,
            keyword.kwType == k0.kwType,
            keyword.lineNumber == k0.lineNumber,
            keyword.scope == k0.scope,
            keyword.implLines == k0.implLines,
            keyword.public == k0.public,
            keyword.typedType == k0.typedType,
        decreases end - lineNumber, if stopped { 0int } else { 1int },
    {
        let ghost pp0 = params_model(keyword.parameters);
        let ghost tokens = tokenLines@[lineNumber as int]@;
        let ghost flags = lineFlags@[lineNumber as int]@;
        let ghost children0 = keyword.childKeywords;
        let mut public = false;
        let mut currentContainer: Option<OutlineKeyword> = None;
        let tokensSize = tokenLines[lineNumber].len();
        let mut stop = false;
        let mut index: usize = 0;
        while index < tokensSize && !stop
            invariant
                k0 == *old(keyword),
                scope == scopeJumps@[k0.lineNumber as int]@,
                k0.lineNumber < scopeJumps@.len(),
                lineNumber < tokenLines@.len(),
                tokens == tokenLines@[lineNumber as int]@,
                flags == lineFlags@[lineNumber as int]@,
                tokensSize == tokens.len(),
                lineFlags@.len() >= tokenLines@.len(),
                flags.len() >= tokens.len(),
                index <= tokensSize,
                line_scan(tokens, flags, k0.kwType, lineNumber, pp0, index as int) == (
                    stop,
                    public,
                    opt_model(currentContainer),
                    params_model(keyword.parameters),
                ),
                member_opt_ok(currentContainer, scope),
                keyword.keyword == k0.keyword,
                keyword.kwType == k0.kwType,
                keyword.lineNumber == k0.lineNumber,
                keyword.scope == k0.scope,
                keyword.implLines == k0.implLines,
                keyword.public == k0.public,
                keyword.typedType == k0.typedType,
                keyword.childKeywords == children0,
            decreases tokensSize - index, if stop { 0int } else { 1int },
        {
            if is_text(&tokenLines[lineNumber][index].text, "}") {
                stop = true;
                index = index + 1;
            } else {
                if is_text(&tokenLines[lineNumber][index].text, "pub") {
                    public = true;
                }
                let tk = tokenLines[lineNumber][index].token;
                if !(tk == TokenType::Comment || tk == TokenType::String) {
                    HandleScopeChecks(
                        tokenLines,
                        lineFlags,
                        &mut currentContainer,
                        scopeJumps,
                        keyword,
                        index,
                        index,
                        lineNumber,
                        public,
                    );
                }
                index = index + 1;
            }
        }
        proof {
            if !stop {
                assert(index == tokensSize);
            } else {
                lemma_line_stopped(tokens, flags, k0.kwType, lineNumber, pp0, index as int, tokens.len() as int);
            }
            let (added, pp, st) = members_scan(tokenLines@, lineFlags@, k0.kwType, k0.lineNumber + 1, lineNumber as int, params_model(k0.parameters));
            assert(members_scan(tokenLines@, lineFlags@, k0.kwType, k0.lineNumber + 1, lineNumber + 1, params_model(k0.parameters)) == {
                let (stop2, _, c, pp2) = line_scan(tokens, flags, k0.kwType, lineNumber, pp, tokens.len() as int);
                if stop2 {
                    (added, pp2, true)
                } else {
                    match c {
                        Some(m) => (added.push(m), pp2, false),
                        None => (added, pp2, false),
                    }
                }
            });
        }
        if stop {
            stopped = true;
        } else {
            match currentContainer {
                Some(container) => {
                    let ghost f0 = newKeywords@;
                    let ghost c0 = keyword.childKeywords@;
                    let copy = container.copy();
                    proof {
                        lemma_members_copy(copy, container, scope);
                    }
                    let ghost cv = keyword_view(container);
                    newKeywords.push(copy);
                    keyword.childKeywords.push(container);
                    proof {
                        assert(keyword.childKeywords@.drop_last() =~= c0);
                        let fresh0 = f0.subrange(n0 as int, f0.len() as int);
                        let fresh1 = newKeywords@.subrange(n0 as int, newKeywords@.len() as int);
                        assert(fresh1 =~= fresh0.push(copy));
                        assert(fresh1.drop_last() =~= fresh0);
                        assert(newKeywords@.take(n0 as int) =~= f0.take(n0 as int));
                        assert(keywords_view(k0.childKeywords@) + keywords_view(fresh1) =~= (keywords_view(k0.childKeywords@) + keywords_view(fresh0)).push(cv));
                    }
                },
                None => {},
            }
        }
        lineNumber = lineNumber + 1;
    }
    proof {
        let from = k0.lineNumber + 1;
        if stopped {
            lemma_scan_stopped(tokenLines@, lineFlags@, k0.kwType, from as int, lineNumber as int, end as int, params_model(k0.parameters));
        }
    }
}

pub proof fn lemma_line_stopped(
    tokens: Seq<LuaTuple>,
    flags: Seq<Vec<LineTokenFlags>>,
    kind: OutlineType,
    lineNumber: usize,
    pp0: Option<Seq<ParamModel>>,
    k: int,
    to: int,
)
    requires
        line_scan(tokens, flags, kind, lineNumber, pp0, k).0,
        k <= to,
    ensures
        line_scan(tokens, flags, kind, lineNumber, pp0, to) == line_scan(tokens, flags, kind, lineNumber, pp0, k),
    decreases to - k,
{
    if k < to {
        lemma_line_stopped(tokens, flags, kind, lineNumber, pp0, k, to - 1);
    }
}

pub proof fn lemma_scan_stopped(
    lines: Seq<Vec<LuaTuple>>,
    flags: Seq<Vec<Vec<LineTokenFlags>>>,
    kind: OutlineType,
    from: int,
    l: int,
    to: int,
    pp0: Option<Seq<ParamModel>>,
)
    requires
        members_scan(lines, flags, kind, from, l, pp0).2,
        l <= to,
    ensures
        members_scan(lines, flags, kind, from, to, pp0) == members_scan(lines, flags, kind, from, l, pp0),
    decreases to - l,
{
    if l < to {
        lemma_scan_stopped(lines, flags, kind, from, l, to - 1, pp0);
    }
}

proof fn lemma_members_copy(copy: OutlineKeyword, k: OutlineKeyword, scope: Seq<usize>)
    requires
        keyword_view(copy) == keyword_view(k),
        member_ok(k, scope),
    ensures
        kw_model(copy) == kw_model(k),
        member_ok(copy, scope),
{
    lemma_keywords_view(copy.childKeywords@);
    lemma_keywords_view(k.childKeywords@);
    assert(keyword_view(copy).parameters == keyword_view(k).parameters);
    assert(params_model(copy.parameters) == params_model(k.parameters)) by {
        match copy.parameters {
            Some(v) => {
                assert(k.parameters is Some);
            },
            None => {},
        }
    }
}

/// A struct or enum, whose members the scan reads.
pub open spec fn is_type(k: OutlineKeyword) -> bool {
    k.kwType == OutlineType::Enum || k.kwType == OutlineType::Struct
}

/// The members read for keyword `k`, and its parameters after the scan.
pub open spec fn type_scan(
    k: OutlineKeyword,
    lines: Seq<Vec<LuaTuple>>,
    flags: Seq<Vec<Vec<LineTokenFlags>>>,
    jumps: Seq<Vec<usize>>,
    root: ScopeNode,
) -> (Seq<KwModel>, Option<Seq<ParamModel>>) {
    let (added, pp, _) = members_scan(lines, flags, k.kwType, k.lineNumber + 1, scope_end(k, jumps, root), params_model(k.parameters));
    (added, pp)
}

/// Whether the scan reads members for keyword `k`: a struct or enum whose line has a scope.
pub open spec fn scanned(k: OutlineKeyword, jumps: Seq<Vec<usize>>) -> bool {
    is_type(k) && k.lineNumber < jumps.len()
}

/// The members read for the first `i` keywords of the outline, in order.
pub open spec fn scanned_members(
    outline: Seq<OutlineKeyword>,
    lines: Seq<Vec<LuaTuple>>,
    flags: Seq<Vec<Vec<LineTokenFlags>>>,
    jumps: Seq<Vec<usize>>,
    root: ScopeNode,
    i: int,
) -> Seq<KwModel>
    decreases i,
{
    if i <= 0 {
        Seq::empty()
    } else {
        let before = scanned_members(outline, lines, flags, jumps, root, i - 1);
        if scanned(outline[i - 1], jumps) {
            before + type_scan(outline[i - 1], lines, flags, jumps, root).0
        } else {
            before
        }
    }
}

/// Keyword `after` is `before` after the member scan, whose new members are `mine`.
pub open spec fn scanned_keyword(
    before: OutlineKeyword,
    after: OutlineKeyword,
    mine: Seq<OutlineKeyword>,
    lines: Seq<Vec<LuaTuple>>,
    flags: Seq<Vec<Vec<LineTokenFlags>>>,
    jumps: Seq<Vec<usize>>,
    root: ScopeNode,
) -> bool {
    if scanned(before, jumps) {
        let (added, pp) = type_scan(before, lines, flags, jumps, root);
        &&& members_as(mine, added, jumps[before.lineNumber as int]@)
        &&& keywords_view(after.childKeywords@) == keywords_view(mine)
        &&& params_model(after.parameters) == pp
        &&& after.keyword == before.keyword
        &&& after.kwType == before.kwType
        &&& after.lineNumber == before.lineNumber
        &&& after.scope == before.scope
        &&& after.implLines == before.implLines
        &&& after.public == before.public
        &&& after.typedType == before.typedType
    } else if is_type(before) {
        &&& mine.len() == 0
        &&& after.childKeywords@.len() == 0
        &&& after.parameters == before.parameters
        &&& after.keyword == before.keyword
        &&& after.kwType == before.kwType
        &&& after.lineNumber == before.lineNumber
        &&& after.scope == before.scope
        &&& after.implLines == before.implLines
        &&& after.public == before.public
        &&& after.typedType == before.typedType
    } else {
        &&& mine.len() == 0
        &&& after == before
    }
}

/// Keyword `j` of `outline` is keyword `j` of `o0` after the scan, its members at the
/// right place among `newk` (see `scanned_members`).
pub open spec fn keyword_done(
    o0: Seq<OutlineKeyword>,
    outline: Seq<OutlineKeyword>,
    newk: Seq<OutlineKeyword>,
    j: int,
    lines: Seq<Vec<LuaTuple>>,
    flags: Seq<Vec<Vec<LineTokenFlags>>>,
    jumps: Seq<Vec<usize>>,
    root: ScopeNode,
) -> bool {
    let lo = scanned_members(o0, lines, flags, jumps, root, j).len() as int;
    let hi = scanned_members(o0, lines, flags, jumps, root, j + 1).len() as int;
    &&& lo <= hi <= newk.len()
    &&& scanned_keyword(o0[j], outline[j], newk.subrange(lo, hi), lines, flags, jumps, root)
}

/// Reads the members of every struct and enum of the outline (see `members_scan`): each
/// type's children become the members read for it, and all members read are returned in
/// order (see `scanned_members`).
fn HandleKeywords(
    tokenLines: &Vec<Vec<LuaTuple>>,
    lineFlags: &Vec<Vec<Vec<LineTokenFlags>>>,
    outline: &mut Vec<OutlineKeyword>,
    scopeJumps: &Vec<Vec<usize>>,
    root: &ScopeNode,
) -> (newKeywords: Vec<OutlineKeyword>)
    requires
        lineFlags@.len() >= tokenLines@.len(),
        forall|l: int| 0 <= l < tokenLines@.len() ==> #[trigger] lineFlags@[l]@.len() >= tokenLines@[l]@.len(),
        forall|i: int| 0 <= i < old(outline)@.len() && is_type(#[trigger] old(outline)@[i]) ==> old(outline)@[i].lineNumber != scopeJumps@.len()
            && (old(outline)@[i].lineNumber < scopeJumps@.len() ==> scope_end(old(outline)@[i], scopeJumps@, *root) <= tokenLines@.len()),
    ensures
        final(outline)@.len() == old(outline)@.len(),
        forall|k: int| 0 <= k < newKeywords@.len() ==> kw_model(#[trigger] newKeywords@[k])
            == scanned_members(old(outline)@, tokenLines@, lineFlags@, scopeJumps@, *root, old(outline)@.len() as int)[k],
        newKeywords@.len() == scanned_members(old(outline)@, tokenLines@, lineFlags@, scopeJumps@, *root, old(outline)@.len() as int).len(),
        forall|i: int| 0 <= i < old(outline)@.len() ==> {
            let lo = scanned_members(old(outline)@, tokenLines@, lineFlags@, scopeJumps@, *root, i).len() as int;
            let hi = scanned_members(old(outline)@, tokenLines@, lineFlags@, scopeJumps@, *root, i + 1).len() as int;
            scanned_keyword(
                old(outline)@[i],
                #[trigger] final(outline)@[i],
                newKeywords@.subrange(lo, hi),
                tokenLines@,
                lineFlags@,
                scopeJumps@,
                *root,
            )
        },
{
    let ghost o0 = outline@;
    let mut newKeywords: Vec<OutlineKeyword> = Vec::new();
    let mut i: usize = 0;
    while i < outline.len()
        invariant
            o0 == old(outline)@,
            outline@.len() == o0.len(),
            i <= o0.len(),
            lineFlags@.len() >= tokenLines@.len(),
            forall|l: int| 0 <= l < tokenLines@.len() ==> #[trigger] lineFlags@[l]@.len() >= tokenLines@[l]@.len(),
            forall|i: int| 0 <= i < o0.len() && is_type(#[trigger] o0[i]) ==> o0[i].lineNumber != scopeJumps@.len()
                && (o0[i].lineNumber < scopeJumps@.len() ==> scope_end(o0[i], scopeJumps@, *root) <= tokenLines@.len()),
            forall|k: int| i <= k < o0.len() ==> #[trigger] outline@[k] == o0[k],
            newKeywords@.len() == scanned_members(o0, tokenLines@, lineFlags@, scopeJumps@, *root, i as int).len(),
            forall|k: int| 0 <= k < newKeywords@.len() ==> kw_model(#[trigger] newKeywords@[k])
                == scanned_members(o0, tokenLines@, lineFlags@, scopeJumps@, *root, i as int)[k],
            forall|j: int| 0 <= j < i ==> #[trigger] keyword_done(o0, outline@, newKeywords@, j, tokenLines@, lineFlags@, scopeJumps@, *root),
        decreases o0.len() - i,
    {
        let ghost prevNew = newKeywords@;
        let ghost lo = scanned_members(o0, tokenLines@, lineFlags@, scopeJumps@, *root, i as int).len() as int;
        let ghost ob = outline@;
        proof {
            assert(outline@[i as int] == o0[i as int]);
            assert forall|j: int| 0 <= j < i implies {
                let lo2 = scanned_members(o0, tokenLines@, lineFlags@, scopeJumps@, *root, j).len() as int;
                let hi2 = scanned_members(o0, tokenLines@, lineFlags@, scopeJumps@, *root, j + 1).len() as int;
                &&& lo2 <= hi2 <= prevNew.len()
                &&& scanned_keyword(o0[j], #[trigger] ob[j], prevNew.subrange(lo2, hi2), tokenLines@, lineFlags@, scopeJumps@, *root)
            } by {
                assert(keyword_done(o0, ob, prevNew, j, tokenLines@, lineFlags@, scopeJumps@, *root));
            }
        }
        if outline[i].kwType == OutlineType::Enum || outline[i].kwType == OutlineType::Struct {
            let kw = &mut outline[i];
            kw.childKeywords.clear();
            if kw.lineNumber < scopeJumps.len() {
                HandleKeywordsLoop(tokenLines, lineFlags, scopeJumps, kw, &mut newKeywords, root);
            }
        }
        proof {
            let hi = scanned_members(o0, tokenLines@, lineFlags@, scopeJumps@, *root, i + 1).len() as int;
            assert(forall|k: int| 0 <= k < o0.len() && k != i ==> #[trigger] outline@[k] == ob[k]);
            assert(newKeywords@.take(prevNew.len() as int) == prevNew);
            let fresh = newKeywords@.subrange(lo, newKeywords@.len() as int);
            if scanned(o0[i as int], scopeJumps@) {
                let (added, pp) = type_scan(o0[i as int], tokenLines@, lineFlags@, scopeJumps@, *root);
                assert(members_as(fresh, added, scopeJumps@[o0[i as int].lineNumber as int]@));
                assert(hi == lo + added.len());
                assert(keywords_view(Seq::<OutlineKeyword>::empty()) =~= Seq::<KeywordView>::empty());
                assert(keywords_view(Seq::<OutlineKeyword>::empty()) + keywords_view(fresh) =~= keywords_view(fresh));
                assert forall|k: int| 0 <= k < newKeywords@.len() implies kw_model(#[trigger] newKeywords@[k])
                    == scanned_members(o0, tokenLines@, lineFlags@, scopeJumps@, *root, i + 1)[k] by {
                    if k < lo {
                        assert(newKeywords@[k] == prevNew[k]);
                    } else {
                        assert(newKeywords@[k] == fresh[k - lo]);
                    }
                }
            } else {
                assert(newKeywords@ == prevNew);
            }
            assert forall|j: int| 0 <= j < i + 1 implies #[trigger] keyword_done(o0, outline@, newKeywords@, j, tokenLines@, lineFlags@, scopeJumps@, *root) by {
                let lo2 = scanned_members(o0, tokenLines@, lineFlags@, scopeJumps@, *root, j).len() as int;
                let hi2 = scanned_members(o0, tokenLines@, lineFlags@, scopeJumps@, *root, j + 1).len() as int;
                if j < i {
                    assert(outline@[j] == ob[j]);
                    assert(scanned_keyword(o0[j], ob[j], prevNew.subrange(lo2, hi2), tokenLines@, lineFlags@, scopeJumps@, *root));
                    assert(lo2 <= hi2 <= prevNew.len());
                    assert(newKeywords@.subrange(lo2, hi2) =~= prevNew.subrange(lo2, hi2));
                } else {
                    assert(newKeywords@.subrange(lo, hi) =~= fresh);
                }
            }
        }
        i = i + 1;
    }
    proof {
        assert forall|j: int| 0 <= j < o0.len() implies {
            let lo = scanned_members(o0, tokenLines@, lineFlags@, scopeJumps@, *root, j).len() as int;
            let hi = scanned_members(o0, tokenLines@, lineFlags@, scopeJumps@, *root, j + 1).len() as int;
            scanned_keyword(o0[j], #[trigger] outline@[j], newKeywords@.subrange(lo, hi), tokenLines@, lineFlags@, scopeJumps@, *root)
        } by {
            assert(keyword_done(o0, outline@, newKeywords@, j, tokenLines@, lineFlags@, scopeJumps@, *root));
        }
    }
    newKeywords
}

proof fn lemma_impl_steps_keep(ov: Seq<KeywordView>, list: Seq<usize>, jumps: Seq<Seq<usize>>, root: ScopeNode)
    requires
        impl_steps(ov, list, jumps, root) is Some,
    ensures
        impl_steps(ov, list, jumps, root).unwrap().len() == ov.len(),
        forall|i: int| 0 <= i < ov.len() ==> (#[trigger] impl_steps(ov, list, jumps, root).unwrap()[i]).kwType == ov[i].kwType
            && impl_steps(ov, list, jumps, root).unwrap()[i].lineNumber == ov[i].lineNumber,
    decreases list.len(),
{
    if list.len() > 0 {
        assert(impl_step(ov, list[0] as int, jumps, root) is Some);
        let o = impl_step(ov, list[0] as int, jumps, root).unwrap();
        let ki = list[0] as int;
        let s0 = ov[ki].scope[0];
        if s0 < root.children@.len() {
            let start = root.children@[s0 as int].start;
            match first_implementing(ov, start, 0) {
                Some(j) => {
                    lemma_first_implementing(ov, start, 0);
                },
                None => {},
            }
        }
        assert(o.len() == ov.len());
        assert(forall|i: int| 0 <= i < ov.len() ==> #[trigger] o[i].kwType == ov[i].kwType && o[i].lineNumber == ov[i].lineNumber);
        lemma_impl_steps_keep(o, list.drop_first(), jumps, root);
    }
}

proof fn lemma_first_implementing(ov: Seq<KeywordView>, start: usize, k: int)
    ensures
        first_implementing(ov, start, k) is Some ==> k <= first_implementing(ov, start, k).unwrap() < ov.len(),
    decreases ov.len() - k,
{
    if 0 <= k < ov.len() && !ov[k].implLines.contains(start) {
        lemma_first_implementing(ov, start, k + 1);
    }
}

proof fn lemma_scanned_mono(
    outline: Seq<OutlineKeyword>,
    lines: Seq<Vec<LuaTuple>>,
    flags: Seq<Vec<Vec<LineTokenFlags>>>,
    jumps: Seq<Vec<usize>>,
    root: ScopeNode,
    i: int,
    j: int,
)
    requires
        0 <= i <= j,
    ensures
        scanned_members(outline, lines, flags, jumps, root, i).len() <= scanned_members(outline, lines, flags, jumps, root, j).len(),
    decreases j - i,
{
    if i < j {
        lemma_scanned_mono(outline, lines, flags, jumps, root, i, j - 1);
    }
}

/// `final` is `mid` after the member scan (see `HandleKeywords`) with the new members
/// appended in reverse order.
pub open spec fn outline_updated(
    mid: Seq<OutlineKeyword>,
    fin: Seq<OutlineKeyword>,
    lines: Seq<Vec<LuaTuple>>,
    flags: Seq<Vec<Vec<LineTokenFlags>>>,
    jumps: Seq<Vec<usize>>,
    root: ScopeNode,
) -> bool {
    let members = scanned_members(mid, lines, flags, jumps, root, mid.len() as int);
    let m = members.len();
    &&& fin.len() == mid.len() + m
    &&& forall|k: int| 0 <= k < m ==> kw_model(#[trigger] fin[mid.len() + k]) == members[m - 1 - k]
    &&& forall|i: int| 0 <= i < mid.len() ==> {
        let lo = scanned_members(mid, lines, flags, jumps, root, i).len() as int;
        let hi = scanned_members(mid, lines, flags, jumps, root, i + 1).len() as int;
        scanned_keyword(
            mid[i],
            #[trigger] fin[i],
            Seq::new((hi - lo) as nat, |k: int| fin[mid.len() + m - 1 - (lo + k)]),
            lines,
            flags,
            jumps,
            root,
        )
    }
}

/// Finishes the outline: moves the items declared inside blocks into their blocks (see
/// `impl_steps`), then reads the members of the structs and enums (see `HandleKeywords`),
/// appending them, last first.
pub fn UpdateKeywordOutline(
    tokenLines: &Vec<Vec<LuaTuple>>,
    lineFlags: &Vec<Vec<Vec<LineTokenFlags>>>,
    outline: &mut Vec<OutlineKeyword>,
    scopeJumps: &Vec<Vec<usize>>,
    root: &ScopeNode,
)
    requires
        impl_steps(
            keywords_view(old(outline)@),
            impl_indices(old(outline)@, old(outline)@.len() as int),
            jumps_view(scopeJumps@),
            *root,
        ) is Some,
        lineFlags@.len() >= tokenLines@.len(),
        forall|l: int| 0 <= l < tokenLines@.len() ==> #[trigger] lineFlags@[l]@.len() >= tokenLines@[l]@.len(),
        forall|i: int| 0 <= i < old(outline)@.len() && is_type(#[trigger] old(outline)@[i]) ==> old(outline)@[i].lineNumber
            != scopeJumps@.len() && (old(outline)@[i].lineNumber < scopeJumps@.len() ==> scope_end(
            old(outline)@[i],
            scopeJumps@,
            *root,
        ) <= tokenLines@.len()),
    ensures
        exists|mid: Seq<OutlineKeyword>| {
            &&& #[trigger] keywords_view(mid) == impl_steps(
                keywords_view(old(outline)@),
                impl_indices(old(outline)@, old(outline)@.len() as int),
                jumps_view(scopeJumps@),
                *root,
            ).unwrap()
            &&& outline_updated(mid, final(outline)@, tokenLines@, lineFlags@, scopeJumps@, *root)
        },
{
    let implKeywordIndex = GetImplKeywordIndex(outline);
    let ghost o0 = outline@;
    HandleKeywordIndexes(outline, implKeywordIndex, scopeJumps.as_slice(), root);
    let ghost mid = outline@;
    proof {
        let ov = keywords_view(o0);
        lemma_impl_steps_keep(ov, impl_indices(o0, o0.len() as int), jumps_view(scopeJumps@), *root);
        lemma_keywords_view(o0);
        lemma_keywords_view(mid);
        assert forall|i: int| 0 <= i < mid.len() && is_type(#[trigger] mid[i]) implies mid[i].lineNumber != scopeJumps@.len()
            && (mid[i].lineNumber < scopeJumps@.len() ==> scope_end(mid[i], scopeJumps@, *root) <= tokenLines@.len()) by {
            assert(keywords_view(mid)[i].kwType == ov[i].kwType);
            assert(keywords_view(o0)[i] == keyword_view(o0[i]));
            assert(keywords_view(mid)[i] == keyword_view(mid[i]));
            assert(is_type(o0[i]));
        }
    }
    let mut newKeywords = HandleKeywords(tokenLines, lineFlags, outline, scopeJumps, root);
    let ghost scanned = outline@;
    let ghost nk = newKeywords@;
    let mlen = newKeywords.len();
    let ghost m = nk.len();
    let mut k: usize = 0;
    while newKeywords.len() > 0
        invariant
            newKeywords@ == nk.take(m - k),
            k <= m,
            m == mlen,
            m == nk.len(),
            outline@.len() == scanned.len() + k,
            forall|q: int| 0 <= q < scanned.len() ==> #[trigger] outline@[q] == scanned[q],
            forall|q: int| 0 <= q < k ==> #[trigger] outline@[scanned.len() + q] == nk[m - 1 - q],
        decreases newKeywords@.len(),
    {
        let kw = newKeywords.pop().unwrap();
        outline.push(kw);
        proof {
            assert(nk.take(m - k).drop_last() =~= nk.take(m - k - 1));
        }
        k = k + 1;
    }
    proof {
        let fin = outline@;
        assert(k == m);
        let members = scanned_members(mid, tokenLines@, lineFlags@, scopeJumps@, *root, mid.len() as int);
        assert forall|i: int| 0 <= i < mid.len() implies {
            let lo = scanned_members(mid, tokenLines@, lineFlags@, scopeJumps@, *root, i).len() as int;
            let hi = scanned_members(mid, tokenLines@, lineFlags@, scopeJumps@, *root, i + 1).len() as int;
            scanned_keyword(
                mid[i],
                #[trigger] fin[i],
                Seq::new((hi - lo) as nat, |k: int| fin[mid.len() + m - 1 - (lo + k)]),
                tokenLines@,
                lineFlags@,
                scopeJumps@,
                *root,
            )
        } by {
            let lo = scanned_members(mid, tokenLines@, lineFlags@, scopeJumps@, *root, i).len() as int;
            let hi = scanned_members(mid, tokenLines@, lineFlags@, scopeJumps@, *root, i + 1).len() as int;
            assert(fin[i] == scanned[i]);
            lemma_scanned_mono(mid, tokenLines@, lineFlags@, scopeJumps@, *root, i, i + 1);
            lemma_scanned_mono(mid, tokenLines@, lineFlags@, scopeJumps@, *root, i + 1, mid.len() as int);
            assert(hi <= m);
            assert forall|q: int| 0 <= q < hi - lo implies #[trigger] fin[mid.len() + m - 1 - (lo + q)] == nk[lo + q] by {
                let r = m - 1 - (lo + q);
                assert(0 <= r < m);
                assert(fin[scanned.len() + r] == nk[m - 1 - r]);
            }
            assert(Seq::new((hi - lo) as nat, |k: int| fin[mid.len() + m - 1 - (lo + k)]) =~= nk.subrange(lo, hi));
        }
        assert(outline_updated(mid, fin, tokenLines@, lineFlags@, scopeJumps@, *root));
    }
}

// ---------------------------------------------------------------- the whole file
/// The Rust linter.
pub struct Rust {}

/// A line's text: its tokens' texts one after another.
pub open spec fn line_text(tokens: Seq<LuaTuple>) -> Seq<char>
    decreases tokens.len(),
{
    if tokens.len() == 0 {
        Seq::empty()
    } else {
        line_text(tokens.drop_last()) + tokens.last().text@
    }
}

/// `views` are the outline before and after reading each line's declarations in turn.
pub open spec fn defs_chain(views: Seq<Seq<KeywordView>>, lines: Seq<Vec<LuaTuple>>, flags: Seq<Vec<Vec<LineTokenFlags>>>) -> bool {
    &&& views.len() == lines.len() + 1
    &&& forall|l: int| 0 <= l < lines.len() ==> #[trigger] defs_done(views[l], views[l + 1], lines[l]@, flags[l]@, line_text(lines[l]@), l as usize)
}

/// The scope tree, the current scope, the scopes in order, the scope of each line and the
/// outline, while the lines' brackets are read.
pub type BracketState = (ScopeNode, Seq<usize>, Seq<Seq<usize>>, Seq<Seq<usize>>, Seq<OutlineKeyword>);

/// `chain` are the states before and after reading each line's brackets in turn (see
/// `bracket_updated`).
pub open spec fn bracket_chain(chain: Seq<BracketState>, lines: Seq<Vec<LuaTuple>>) -> bool {
    &&& chain.len() == lines.len() + 1
    &&& forall|l: int| 0 <= l < lines.len() ==> #[trigger] bracket_updated(
        chain[l].0,
        chain[l + 1].0,
        chain[l].1,
        chain[l + 1].1,
        chain[l].2,
        chain[l + 1].2,
        chain[l].3,
        chain[l + 1].3,
        chain[l].4,
        chain[l + 1].4,
        depth_after(lines[l]@, lines[l]@.len() as int),
        l as usize,
    )
}

/// The scope tree of a file of `n` lines before any bracket is read: the root scope
/// spanning every line.
pub open spec fn fresh_root(r: ScopeNode, n: int) -> bool {
    &&& r.children@.len() == 0
    &&& r.name@ == "Root"@
    &&& r.start == 0
    &&& r.end == if n > 0 { n - 1 } else { 0 }
}

/// The first two passes over a file: reading each line's declarations into the outline
/// (`views`), then each line's brackets into the scopes (`chain`).
pub open spec fn scoped(
    start: Seq<KeywordView>,
    views: Seq<Seq<KeywordView>>,
    chain: Seq<BracketState>,
    lines: Seq<Vec<LuaTuple>>,
    flags: Seq<Vec<Vec<LineTokenFlags>>>,
) -> bool {
    &&& views.len() > 0
    &&& views[0] == start
    &&& defs_chain(views, lines, flags)
    &&& chain.len() > 0
    &&& keywords_view(chain[0].4) == views.last()
    &&& fresh_root(chain[0].0, lines.len() as int)
    &&& chain[0].1.len() == 0
    &&& chain[0].2.len() == 0
    &&& chain[0].3.len() == 0
    &&& bracket_chain(chain, lines)
}

/// The last pass can run on the outline `o` with the line scopes `jumps`: its lookups stay
/// within the scopes and lines (see `UpdateKeywordOutline`).
pub open spec fn update_ok(
    o: Seq<OutlineKeyword>,
    jumps: Seq<Seq<usize>>,
    root: ScopeNode,
    lines: Seq<Vec<LuaTuple>>,
) -> bool {
    &&& impl_steps(keywords_view(o), impl_indices(o, o.len() as int), jumps, root) is Some
    &&& forall|i: int| 0 <= i < o.len() && is_type(#[trigger] o[i]) ==> o[i].lineNumber != jumps.len()
        && (o[i].lineNumber < jumps.len() ==> node_at(root, rev(jumps[o[i].lineNumber as int])).end <= lines.len())
}

/// The first two passes over the lines (see `scoped`), then: the last pass and the scopes
/// (see `rust_scoped`) where its lookups stay in range (see `update_ok`); none, and the
/// outline as the first passes left it, where they would not.
pub open spec fn passes_then(
    tokenLines: Seq<Vec<LuaTuple>>,
    lineFlags: Seq<Vec<Vec<LineTokenFlags>>>,
    before: Seq<OutlineKeyword>,
    after: Seq<OutlineKeyword>,
    res: Option<(ScopeNode, Vec<Vec<usize>>, Vec<Vec<usize>>)>,
) -> bool {
    exists|views: Seq<Seq<KeywordView>>, chain: Seq<BracketState>| {
        &&& #[trigger] scoped(keywords_view(before), views, chain, tokenLines, lineFlags)
        &&& (res is Some <==> update_ok(chain.last().4, chain.last().3, chain.last().0, tokenLines))
        &&& res is Some ==> rust_scoped(tokenLines, lineFlags, before, after, res.unwrap())
        &&& res is None ==> after == chain.last().4
    }
}

/// What the Rust linter gives (see `Rust::GenerateScopes`): the passes over the lines
/// (`scoped`), then the last pass on the outline, which ends up reversed.
pub open spec fn rust_scoped(
    tokenLines: Seq<Vec<LuaTuple>>,
    lineFlags: Seq<Vec<Vec<LineTokenFlags>>>,
    before: Seq<OutlineKeyword>,
    after: Seq<OutlineKeyword>,
    res: (ScopeNode, Vec<Vec<usize>>, Vec<Vec<usize>>),
) -> bool {
    exists|views: Seq<Seq<KeywordView>>, chain: Seq<BracketState>, mid: Seq<OutlineKeyword>, fin: Seq<OutlineKeyword>| {
        &&& #[trigger] scoped(keywords_view(before), views, chain, tokenLines, lineFlags)
        &&& res.0 == chain.last().0
        &&& paths_view(res.1@) == chain.last().3
        &&& paths_view(res.2@) == chain.last().2
        &&& keywords_view(mid) == impl_steps(
            keywords_view(chain.last().4),
            impl_indices(chain.last().4, chain.last().4.len() as int),
            chain.last().3,
            chain.last().0,
        ).unwrap()
        &&& #[trigger] outline_updated(mid, fin, tokenLines, lineFlags, res.1@, res.0)
        &&& after == fin.reverse()
    }
}

/// Whether the last pass can run (see `update_ok`), worked out without running it: the
/// moves into blocks are tried on a copy, and each struct's and enum's scope is looked up.
pub fn update_fits(
    tokenLines: &Vec<Vec<LuaTuple>>,
    outline: &Vec<OutlineKeyword>,
    jumps: &Vec<Vec<usize>>,
    root: &ScopeNode,
) -> (ok: bool)
    ensures
        ok == update_ok(outline@, jumps_view(jumps@), *root, tokenLines@),
{
    let indices = GetImplKeywordIndex(outline);
    if !impl_steps_fit(outline, &indices, jumps.as_slice(), root) {
        return false;
    }
    let ghost jv = jumps_view(jumps@);
    let mut i: usize = 0;
    while i < outline.len()
        invariant
            i <= outline@.len(),
            jv == jumps_view(jumps@),
            impl_steps(keywords_view(outline@), impl_indices(outline@, outline@.len() as int), jv, *root) is Some,
            forall|q: int| 0 <= q < i && is_type(#[trigger] outline@[q]) ==> outline@[q].lineNumber != jv.len()
                && (outline@[q].lineNumber < jv.len() ==> node_at(*root, rev(jv[outline@[q].lineNumber as int])).end
                <= tokenLines@.len()),
        decreases outline@.len() - i,
    {
        let t = outline[i].kwType;
        if t == OutlineType::Enum || t == OutlineType::Struct {
            let line = outline[i].lineNumber;
            if line == jumps.len() {
                proof {
                    assert(is_type(outline@[i as int]));
                }
                return false;
            }
            if line < jumps.len() {
                let mut path = reversed(&jumps[line]);
                proof {
                    assert(jv[line as int] == jumps@[line as int]@);
                }
                let end = root.GetNode(&mut path).end;
                if end > tokenLines.len() {
                    proof {
                        assert(is_type(outline@[i as int]));
                    }
                    return false;
                }
            }
        }
        i = i + 1;
    }
    true
}

fn line_text_exec(tokens: &Vec<LuaTuple>) -> (text: String)
    ensures
        text@ == line_text(tokens@),
{
    let mut text = String::new();
    let mut i: usize = 0;
    while i < tokens.len()
        invariant
            i <= tokens@.len(),
            text@ == line_text(tokens@.take(i as int)),
        decreases tokens@.len() - i,
    {
        text.append(tokens[i].text.as_str());
        proof {
            assert(tokens@.take(i + 1).drop_last() =~= tokens@.take(i as int));
        }
        i = i + 1;
    }
    proof {
        assert(tokens@.take(tokens@.len() as int) =~= tokens@);
    }
    text
}

impl Rust {
    /// `GenerateScopes` without its precondition on the last pass: the result is none
    /// exactly when that pass's lookups would leave the scopes and lines the first passes
    /// built (see `passes_then`); a token without flags counts as having none.
    pub fn GenerateScopesChecked(
        tokenLines: &Vec<Vec<LuaTuple>>,
        lineFlags: &Vec<Vec<Vec<LineTokenFlags>>>,
        outlineOriginal: &mut Vec<OutlineKeyword>,
    ) -> (res: Option<(ScopeNode, Vec<Vec<usize>>, Vec<Vec<usize>>)>)
        requires
            forall|l: int| 0 <= l < tokenLines@.len() ==> #[trigger] tokenLines@[l]@.len() < isize::MAX,
        ensures
            exists|padded: Seq<Vec<Vec<LineTokenFlags>>>|
                #[trigger] flags_padded(tokenLines@, lineFlags@, padded) && passes_then(
                    tokenLines@,
                    padded,
                    old(outlineOriginal)@,
                    final(outlineOriginal)@,
                    res,
                ),
    {
        let padded = pad_flags(tokenLines, lineFlags);
        Rust::scopes_of(tokenLines, &padded, outlineOriginal)
    }

    /// Builds the scopes of a file and updates its outline: reads each line's declarations
    /// (see `HandleDefinitions`), then each line's brackets into the scope tree, the scope
    /// of each line and the scopes in order (see `HandleBracketsLayer`), then finishes the
    /// outline (see `UpdateKeywordOutline`); the outline ends up in reverse order. Gives the
    /// scope tree, the scope of each line and the scopes in order.
    fn scopes_of(
        tokenLines: &Vec<Vec<LuaTuple>>,
        lineFlags: &Vec<Vec<Vec<LineTokenFlags>>>,
        outlineOriginal: &mut Vec<OutlineKeyword>,
    ) -> (res: Option<(ScopeNode, Vec<Vec<usize>>, Vec<Vec<usize>>)>)
        requires
            lineFlags@.len() >= tokenLines@.len(),
            forall|l: int| 0 <= l < tokenLines@.len() ==> #[trigger] lineFlags@[l]@.len() >= tokenLines@[l]@.len(),
            forall|l: int| 0 <= l < tokenLines@.len() ==> #[trigger] tokenLines@[l]@.len() < isize::MAX,
        ensures
            passes_then(tokenLines@, lineFlags@, old(outlineOriginal)@, final(outlineOriginal)@, res),
    {
        let n = tokenLines.len();
        let ghost start = keywords_view(outlineOriginal@);
        let mut outline: Vec<OutlineKeyword> = Vec::new();
        std::mem::swap(&mut outline, outlineOriginal);
        let ghost mut views: Seq<Seq<KeywordView>> = seq![start];
        let mut lineNumber: usize = 0;
        while lineNumber < n
            invariant
                n == tokenLines@.len(),
                lineNumber <= n,
                lineFlags@.len() >= tokenLines@.len(),
                forall|l: int| 0 <= l < tokenLines@.len() ==> #[trigger] lineFlags@[l]@.len() >= tokenLines@[l]@.len(),
                views.len() == lineNumber + 1,
                views[0] == start,
                views.last() == keywords_view(outline@),
                forall|l: int| 0 <= l < lineNumber ==> #[trigger] defs_done(views[l], views[l + 1], tokenLines@[l]@, lineFlags@[l]@, line_text(tokenLines@[l]@), l as usize),
            decreases n - lineNumber,
        {
            let lineText = line_text_exec(&tokenLines[lineNumber]);
            let ghost v0 = views;
            HandleDefinitions(&tokenLines[lineNumber], lineFlags, &mut outline, lineText.as_str(), lineNumber);
            proof {
                views = views.push(keywords_view(outline@));
                assert forall|l: int| 0 <= l < lineNumber + 1 implies #[trigger] defs_done(views[l], views[l + 1], tokenLines@[l]@, lineFlags@[l]@, line_text(tokenLines@[l]@), l as usize) by {
                    if l < lineNumber {
                        assert(views[l] == v0[l] && views[l + 1] == v0[l + 1]);
                    }
                }
            }
            lineNumber = lineNumber + 1;
        }
        let mut rootNode = ScopeNode {
            children: Vec::new(),
            name: string_of_str("Root"),
            start: 0,
            end: if n > 0 {
                n - 1
            } else {
                0
            },
        };
        let mut jumps: Vec<Vec<usize>> = Vec::new();
        let mut linearized: Vec<Vec<usize>> = Vec::new();
        let mut currentScope: Vec<usize> = Vec::new();
        let ghost mut chain: Seq<BracketState> = seq![(rootNode, currentScope@, paths_view(linearized@), paths_view(jumps@), outline@)];
        proof {
            assert(paths_view(linearized@) =~= Seq::<Seq<usize>>::empty());
            assert(valid_path(rootNode, rev(currentScope@)));
        }
        let mut lineNumber: usize = 0;
        while lineNumber < n
            invariant
                n == tokenLines@.len(),
                lineNumber <= n,
                forall|l: int| 0 <= l < tokenLines@.len() ==> #[trigger] tokenLines@[l]@.len() < isize::MAX,
                chain.len() == lineNumber + 1,
                chain[0].0.children@.len() == 0,
                chain[0].0.name@ == "Root"@,
                chain[0].0.start == 0,
                chain[0].0.end == if n > 0 { n - 1 } else { 0 },
                chain[0].1.len() == 0,
                chain[0].2.len() == 0,
                chain[0].3.len() == 0,
                keywords_view(chain[0].4) == views.last(),
                chain.last() == (rootNode, currentScope@, paths_view(linearized@), paths_view(jumps@), outline@),
                valid_path(rootNode, rev(currentScope@)),
                currentScope@.len() <= lineNumber,
                forall|l: int| 0 <= l < lineNumber ==> #[trigger] bracket_updated(
                    chain[l].0, chain[l + 1].0, chain[l].1, chain[l + 1].1, chain[l].2, chain[l + 1].2,
                    chain[l].3, chain[l + 1].3, chain[l].4, chain[l + 1].4,
                    depth_after(tokenLines@[l]@, tokenLines@[l]@.len() as int), l as usize,
                ),
            decreases n - lineNumber,
        {
            let ghost c0 = chain;
            HandleBracketsLayer(
                &mut outline,
                &mut rootNode,
                &mut jumps,
                &mut linearized,
                &mut currentScope,
                tokenLines[lineNumber].as_slice(),
                lineNumber,
            );
            proof {
                chain = chain.push((rootNode, currentScope@, paths_view(linearized@), paths_view(jumps@), outline@));
                assert forall|l: int| 0 <= l < lineNumber + 1 implies #[trigger] bracket_updated(
                    chain[l].0, chain[l + 1].0, chain[l].1, chain[l + 1].1, chain[l].2, chain[l + 1].2,
                    chain[l].3, chain[l + 1].3, chain[l].4, chain[l + 1].4,
                    depth_after(tokenLines@[l]@, tokenLines@[l]@.len() as int), l as usize,
                ) by {
                    if l < lineNumber {
                        assert(chain[l] == c0[l] && chain[l + 1] == c0[l + 1]);
                    }
                }
            }
            lineNumber = lineNumber + 1;
        }
        proof {
            assert(scoped(start, views, chain, tokenLines@, lineFlags@));
            assert(jumps_view(jumps@) =~= paths_view(jumps@));
            lemma_keywords_view(outline@);
        }
        if !update_fits(tokenLines, &outline, &jumps, &rootNode) {
            *outlineOriginal = outline;
            proof {
                assert(scoped(keywords_view(old(outlineOriginal)@), views, chain, tokenLines@, lineFlags@));
            }
            return None;
        }
        let ghost beforeUpdate = outline@;
        UpdateKeywordOutline(tokenLines, lineFlags, &mut outline, &jumps, &rootNode);
        let ghost fin = outline@;
        let flen = outline.len();
        let mut k: usize = 0;
        while outline.len() > 0
            invariant
                flen == fin.len(),
                outline@ == fin.take(fin.len() - k),
                k <= fin.len(),
                outlineOriginal@.len() == k,
                forall|q: int| 0 <= q < k ==> #[trigger] outlineOriginal@[q] == fin[fin.len() - 1 - q],
            decreases outline@.len(),
        {
            let kw = outline.pop().unwrap();
            outlineOriginal.push(kw);
            proof {
                assert(fin.take(fin.len() - k).drop_last() =~= fin.take(fin.len() - k - 1));
            }
            k = k + 1;
        }
        proof {
            assert(outlineOriginal@ =~= fin.reverse());
            assert(jumps_view(jumps@) == paths_view(jumps@));
        }
        let res = (rootNode, jumps, linearized);
        proof {
            let mid = choose|mid: Seq<OutlineKeyword>| #[trigger] keywords_view(mid) == impl_steps(
                keywords_view(beforeUpdate),
                impl_indices(beforeUpdate, beforeUpdate.len() as int),
                jumps_view(res.1@),
                res.0,
            ).unwrap() && outline_updated(mid, fin, tokenLines@, lineFlags@, res.1@, res.0);
            assert(outline_updated(mid, fin, tokenLines@, lineFlags@, res.1@, res.0));
            assert(scoped(start, views, chain, tokenLines@, lineFlags@));
            assert(res.0 == chain.last().0);
            assert(paths_view(res.1@) == chain.last().3);
            assert(paths_view(res.2@) == chain.last().2);
            assert(rust_scoped(tokenLines@, lineFlags@, old(outlineOriginal)@, outlineOriginal@, res));
            assert(scoped(keywords_view(old(outlineOriginal)@), views, chain, tokenLines@, lineFlags@));
        }
        Some(res)
    }
}


impl LanguageLinterInterface for Rust {
    /// The Rust linter works on token lines that fit an `isize` each, and runs its last pass
    /// (see `UpdateKeywordOutline`) only where that pass's lookups stay within the scopes
    /// and lines that the earlier passes built from the tokens and their flags (see
    /// `update_ok` and `flags_padded`).
    open spec fn lintable(
        tokenLines: Seq<Vec<LuaTuple>>,
        lineFlags: Seq<Vec<Vec<LineTokenFlags>>>,
        outline: Seq<OutlineKeyword>,
    ) -> bool {
        &&& forall|l: int| 0 <= l < tokenLines.len() ==> #[trigger] tokenLines[l]@.len() < isize::MAX
        &&& forall|padded: Seq<Vec<Vec<LineTokenFlags>>>, views: Seq<Seq<KeywordView>>, chain: Seq<BracketState>|
            flags_padded(tokenLines, lineFlags, padded) && #[trigger] scoped(keywords_view(outline), views, chain, tokenLines, padded)
                ==> update_ok(chain.last().4, chain.last().3, chain.last().0, tokenLines)
    }

    /// Builds the scopes of a file and updates its outline (see `rust_generated`): reads
    /// each line's declarations (see `HandleDefinitions`), then each line's brackets into the
    /// scope tree, the scope of each line and the scopes in order (see
    /// `HandleBracketsLayer`), then finishes the outline (see `UpdateKeywordOutline`); the
    /// outline ends up in reverse order. A token without flags counts as having none.
    fn GenerateScopes(
        tokenLines: &Vec<Vec<LuaTuple>>,
        lineFlags: &Vec<Vec<Vec<LineTokenFlags>>>,
        outlineOriginal: &mut Vec<OutlineKeyword>,
    ) -> (res: (ScopeNode, Vec<Vec<usize>>, Vec<Vec<usize>>))
        ensures
            rust_generated(tokenLines@, lineFlags@, old(outlineOriginal)@, final(outlineOriginal)@, res),
    {
        let padded = pad_flags(tokenLines, lineFlags);
        let res = Rust::scopes_of(tokenLines, &padded, outlineOriginal);
        match res {
            Some(r) => r,
            None => {
                proof {
                    assert(false);
                }
                (ScopeNode { children: Vec::new(), name: String::new(), start: 0, end: 0 }, Vec::new(), Vec::new())
            },
        }
    }
}

/// `padded` gives every token of `tokenLines` its flags from `lineFlags`, and none to a
/// token that `lineFlags` has no entry for.
pub open spec fn flags_padded(
    tokenLines: Seq<Vec<LuaTuple>>,
    lineFlags: Seq<Vec<Vec<LineTokenFlags>>>,
    padded: Seq<Vec<Vec<LineTokenFlags>>>,
) -> bool {
    &&& padded.len() == tokenLines.len()
    &&& forall|l: int| 0 <= l < tokenLines.len() ==> #[trigger] padded[l]@.len() == tokenLines[l]@.len()
    &&& forall|l: int, j: int|
        0 <= l < tokenLines.len() && 0 <= j < tokenLines[l]@.len() ==> (#[trigger] padded[l]@[j])@ == if l < lineFlags.len()
            && j < lineFlags[l]@.len() {
            lineFlags[l]@[j]@
        } else {
            Seq::empty()
        }
}

/// What the Rust linter gives (see `Rust::GenerateScopes`): the result of the passes over
/// the lines with every token's flags (see `flags_padded` and `rust_scoped`).
pub open spec fn rust_generated(
    tokenLines: Seq<Vec<LuaTuple>>,
    lineFlags: Seq<Vec<Vec<LineTokenFlags>>>,
    before: Seq<OutlineKeyword>,
    after: Seq<OutlineKeyword>,
    res: (ScopeNode, Vec<Vec<usize>>, Vec<Vec<usize>>),
) -> bool {
    exists|padded: Seq<Vec<Vec<LineTokenFlags>>>| #[trigger] flags_padded(tokenLines, lineFlags, padded) && rust_scoped(tokenLines, padded, before, after, res)
}

/// The flags of every token, none where `lineFlags` has no entry (see `flags_padded`).
fn pad_flags(tokenLines: &Vec<Vec<LuaTuple>>, lineFlags: &Vec<Vec<Vec<LineTokenFlags>>>) -> (padded: Vec<Vec<Vec<LineTokenFlags>>>)
    ensures
        flags_padded(tokenLines@, lineFlags@, padded@),
{
    let mut padded: Vec<Vec<Vec<LineTokenFlags>>> = Vec::new();
    let mut l: usize = 0;
    while l < tokenLines.len()
        invariant
            l <= tokenLines@.len(),
            padded@.len() == l,
            forall|q: int| 0 <= q < l ==> #[trigger] padded@[q]@.len() == tokenLines@[q]@.len(),
            forall|q: int, j: int|
                0 <= q < l && 0 <= j < tokenLines@[q]@.len() ==> (#[trigger] padded@[q]@[j])@ == if q < lineFlags@.len()
                    && j < lineFlags@[q]@.len() {
                    lineFlags@[q]@[j]@
                } else {
                    Seq::empty()
                },
        decreases tokenLines@.len() - l,
    {
        let m = tokenLines[l].len();
        let mut row: Vec<Vec<LineTokenFlags>> = Vec::new();
        let mut j: usize = 0;
        while j < m
            invariant
                l < tokenLines@.len(),
                m == tokenLines@[l as int]@.len(),
                j <= m,
                row@.len() == j,
                forall|k: int| 0 <= k < j ==> (#[trigger] row@[k])@ == if l < lineFlags@.len() && k < lineFlags@[l as int]@.len() {
                    lineFlags@[l as int]@[k]@
                } else {
                    Seq::empty()
                },
            decreases m - j,
        {
            if l < lineFlags.len() && j < lineFlags[l].len() {
                row.push(copy_flags(lineFlags[l][j].as_slice()));
            } else {
                row.push(Vec::new());
            }
            j = j + 1;
        }
        let ghost before = padded@;
        padded.push(row);
        proof {
            assert forall|q: int, j: int|
                0 <= q < l + 1 && 0 <= j < tokenLines@[q]@.len() implies (#[trigger] padded@[q]@[j])@ == if q < lineFlags@.len()
                    && j < lineFlags@[q]@.len() {
                    lineFlags@[q]@[j]@
                } else {
                    Seq::empty()
                } by {
                if q < l {
                    assert(padded@[q] == before[q]);
                }
            }
        }
        l = l + 1;
    }
    padded
}

} // verus!
