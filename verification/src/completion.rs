//! Completion: the keyword offered for the token at the cursor, found among the keywords
//! that apply in the scope the token leads to.
use vstd::prelude::*;
use vstd::utf8::encode_utf8;
use crate::string_pattern_matching::{byte_comparison, byte_comparison_score, bytes_of};
use crate::token_info::{
    OutlineKeyword, KeywordView, keywords_view, keyword_view, node_at, scoped_keywords, keywords_named, is_first_named,
    lemma_keywords_view,
};
use crate::rust_outline::{first_implementing, first_named};
use crate::code_tabs::CodeTab;
use crate::rust_linter::reversed;
use crate::token_info::clone_usizes;
use crate::token_moves::{token_texts, token_holding, path_before};
use crate::edits::lines_view;
use crate::main_app::MainApp;
use crate::text::str_equal;

verus! {

/// Tokens that never get a completion.
pub open spec fn punctuation(t: Seq<char>) -> bool {
    t == " "@ || t == ","@ || t == "|"@ || t == "}"@ || t == "{"@ || t == "["@ || t == "]"@ || t == "("@
        || t == ")"@ || t == "+"@ || t == "="@ || t == "-"@ || t == "_"@ || t == "!"@ || t == "?"@ || t == "/"@
        || t == "<"@ || t == ">"@ || t == "*"@ || t == "&"@ || t == "."@ || t == ";"@
}

/// The best score among the first `k` names against `token` (see `byte_comparison_score`),
/// and the names that have it, in order (an empty name while none was scored).
pub open spec fn closest_fold(token: Seq<char>, names: Seq<Seq<char>>, k: int) -> (int, Seq<Seq<char>>)
    decreases k,
{
    if k <= 0 {
        (usize::MAX as int, seq![Seq::<char>::empty()])
    } else {
        let (best, list) = closest_fold(token, names, k - 1);
        let v = byte_comparison_score(encode_utf8(token), encode_utf8(names[k - 1]));
        if v < best {
            (v, seq![names[k - 1]])
        } else if v == best {
            (best, list.push(names[k - 1]))
        } else {
            (best, list)
        }
    }
}

/// How far a name's length in bytes is from the token's.
pub open spec fn length_gap(token: Seq<char>, name: Seq<char>) -> int {
    let a = encode_utf8(name).len() as int;
    let b = encode_utf8(token).len() as int;
    if a >= b {
        a - b
    } else {
        b - a
    }
}

/// Among the first `k` names, the first whose length is nearest the token's.
pub open spec fn nearest_fold(token: Seq<char>, list: Seq<Seq<char>>, k: int) -> (int, Seq<char>)
    decreases k,
{
    if k <= 0 {
        (usize::MAX as int, Seq::empty())
    } else {
        let (best, name) = nearest_fold(token, list, k - 1);
        let gap = length_gap(token, list[k - 1]);
        if gap < best {
            (gap, list[k - 1])
        } else {
            (best, name)
        }
    }
}

/// The completion for `token` among `names`: none for punctuation or when no name scores
/// below 15; else, among the best scoring names, the first nearest in length.
pub open spec fn suggestion(token: Seq<char>, names: Seq<Seq<char>>) -> Option<Seq<char>> {
    if punctuation(token) {
        None
    } else {
        let (best, list) = closest_fold(token, names, names.len() as int);
        if best < 15 {
            Some(nearest_fold(token, list, list.len() as int).1)
        } else {
            None
        }
    }
}

/// The names of the keywords.
pub open spec fn names_of(ks: Seq<KeywordView>) -> Seq<Seq<char>> {
    ks.map_values(|k: KeywordView| k.keyword@)
}

fn is_punctuation(t: &String) -> (b: bool)
    ensures
        b == punctuation(t@),
{
    let s = t.as_str();
    str_equal(s, " ") || str_equal(s, ",") || str_equal(s, "|") || str_equal(s, "}") || str_equal(s, "{")
        || str_equal(s, "[") || str_equal(s, "]") || str_equal(s, "(") || str_equal(s, ")") || str_equal(s, "+")
        || str_equal(s, "=") || str_equal(s, "-") || str_equal(s, "_") || str_equal(s, "!") || str_equal(s, "?")
        || str_equal(s, "/") || str_equal(s, "<") || str_equal(s, ">") || str_equal(s, "*") || str_equal(s, "&")
        || str_equal(s, ".") || str_equal(s, ";")
}

/// The length of a string in bytes.
fn byte_len(s: &String) -> (n: usize)
    ensures
        n == encode_utf8(s@).len(),
{
    s.as_str().as_bytes().len()
}

// ---------------------------------------------------------------- the scope a token leads to
/// The scope recorded for `line`, if the line has one.
pub open spec fn jump_at(tab: CodeTab, line: int) -> Option<Seq<usize>> {
    if 0 <= line < tab.scopeJumps@.len() {
        Some(tab.scopeJumps@[line]@)
    } else {
        None
    }
}

/// The keywords of `vs` named `name`, in order.
pub open spec fn named_views(vs: Seq<KeywordView>, name: Seq<char>) -> Seq<KeywordView>
    decreases vs.len(),
{
    if vs.len() == 0 {
        Seq::empty()
    } else if vs.last().keyword@ == name {
        named_views(vs.drop_last(), name).push(vs.last())
    } else {
        named_views(vs.drop_last(), name)
    }
}

pub proof fn lemma_named_views(s: Seq<OutlineKeyword>, name: Seq<char>)
    ensures
        keywords_named(s, name) == named_views(keywords_view(s), name),
    decreases s.len(),
{
    if s.len() > 0 {
        lemma_named_views(s.drop_last(), name);
        assert(keywords_view(s) == keywords_view(s.drop_last()).push(keyword_view(s.last())));
        assert(keywords_view(s).drop_last() =~= keywords_view(s.drop_last()));
        assert(keywords_view(s).last() == keyword_view(s.last()));
    }
}

/// The scope `self` refers to: when the current scope's second level is past the root's
/// children, the scope of the first keyword implemented where the root starts (else the
/// scope stays). `None` where a lookup would fail.
pub open spec fn self_scope(tab: CodeTab, cs: Seq<usize>) -> Option<Seq<usize>> {
    let scope = cs.reverse();
    if scope.len() < 2 || tab.scopes.children@.len() >= scope[1] {
        Some(cs)
    } else {
        let implLine = node_at(tab.scopes, seq![scope[1]]).start;
        let ov = keywords_view(tab.outlineKeywords@);
        match first_implementing(ov, implLine, 0) {
            Some(j) => jump_at(tab, ov[j].lineNumber as int),
            None => Some(cs),
        }
    }
}

/// For the first `k` keywords of `bases`, each typed one whose type is a keyword of the
/// outline moves the scope to the scope of that type's first keyword.
pub open spec fn typed_fold(tab: CodeTab, bases: Seq<KeywordView>, k: int, cs: Seq<usize>) -> Option<Seq<usize>>
    decreases k,
{
    if k <= 0 {
        Some(cs)
    } else {
        match typed_fold(tab, bases, k - 1, cs) {
            None => None,
            Some(c) => match bases[k - 1].typedType {
                None => Some(c),
                Some(t) => {
                    let nb = keywords_named(tab.outlineKeywords@, t@);
                    if nb.len() == 0 {
                        Some(c)
                    } else {
                        jump_at(tab, nb[0].lineNumber as int)
                    }
                },
            },
        }
    }
}

/// The scope a keyword named `base` leads to from scope `cs`: `self` leads to its type's
/// scope (see `self_scope`); another name, through the types of the keywords so named in
/// the scope (see `typed_fold`).
pub open spec fn keyword_scopes(tab: CodeTab, base: Seq<char>, cs: Seq<usize>) -> Option<Seq<usize>> {
    if base == "self"@ {
        self_scope(tab, cs)
    } else {
        let bases = named_views(scoped_keywords(tab.outlineKeywords@, cs), base);
        typed_fold(tab, bases, bases.len() as int, cs)
    }
}

/// Walking from the keyword `el` down its children named by `toks` in turn, the scope of
/// the last keyword reached.
pub open spec fn walk(tab: CodeTab, el: Option<KeywordView>, toks: Seq<Seq<char>>, cs: Seq<usize>) -> Option<Seq<usize>>
    decreases toks.len(),
{
    if toks.len() == 0 || el is None {
        Some(cs)
    } else {
        let set = el.unwrap();
        match jump_at(tab, set.lineNumber as int) {
            None => None,
            Some(cs2) => walk(
                tab,
                match first_named(set.childKeywords, toks[0], 0) {
                    Some(i) => Some(set.childKeywords[i]),
                    None => None,
                },
                toks.drop_first(),
                cs2,
            ),
        }
    }
}

/// The scope the names `toks` (the last one first, then the others from the start) lead
/// to from scope `cs`. `None` where a lookup would fail.
pub open spec fn inner_scope(tab: CodeTab, cs: Seq<usize>, toks: Seq<Seq<char>>) -> Option<Seq<usize>> {
    if toks.len() == 0 {
        Some(cs)
    } else {
        let base = toks.last();
        let rest = toks.drop_last();
        let ov = keywords_view(tab.outlineKeywords@);
        match first_named(ov, base, 0) {
            Some(i) => match jump_at(tab, ov[i].lineNumber as int) {
                None => None,
                Some(cs1) => if ov[i].childKeywords.len() == 0 {
                    keyword_scopes(tab, base, cs1)
                } else {
                    walk(tab, Some(ov[i]), rest, cs1)
                },
            },
            None => if base == "self"@ {
                keyword_scopes(tab, base, cs)
            } else {
                Some(cs)
            },
        }
    }
}

proof fn lemma_first_named_at(ov: Seq<KeywordView>, name: Seq<char>, k: int, i: int)
    requires
        0 <= k <= i < ov.len(),
        ov[i].keyword@ == name,
        forall|j: int| k <= j < i ==> ov[j].keyword@ != name,
    ensures
        first_named(ov, name, k) == Some(i),
    decreases i - k,
{
    if k < i {
        lemma_first_named_at(ov, name, k + 1, i);
    }
}

proof fn lemma_first_named_none(ov: Seq<KeywordView>, name: Seq<char>, k: int)
    requires
        0 <= k,
        forall|j: int| k <= j < ov.len() ==> ov[j].keyword@ != name,
    ensures
        first_named(ov, name, k) is None,
    decreases ov.len() - k,
{
    if k < ov.len() {
        lemma_first_named_none(ov, name, k + 1);
    }
}

/// What the lookup of `name` among `ks` finds, as the specification of the walk says.
proof fn lemma_find(ks: Seq<OutlineKeyword>, name: Seq<char>, found: Option<OutlineKeyword>)
    requires
        found is None <==> forall|i: int| 0 <= i < ks.len() ==> ks[i].keyword@ != name,
        found matches Some(k) ==> exists|i: int| is_first_named(ks, name, i) && k@ == ks[i]@,
    ensures
        match first_named(keywords_view(ks), name, 0) {
            Some(i) => found is Some && found.unwrap()@ == keywords_view(ks)[i],
            None => found is None,
        },
{
    lemma_keywords_view(ks);
    let ov = keywords_view(ks);
    match found {
        Some(k) => {
            let i = choose|i: int| is_first_named(ks, name, i) && k@ == ks[i]@;
            assert forall|j: int| 0 <= j < i implies ov[j].keyword@ != name by {
                assert(ov[j] == keyword_view(ks[j]));
            }
            assert(ov[i] == keyword_view(ks[i]));
            lemma_first_named_at(ov, name, 0, i);
        },
        None => {
            assert forall|j: int| 0 <= j < ov.len() implies ov[j].keyword@ != name by {
                assert(ov[j] == keyword_view(ks[j]));
            }
            lemma_first_named_none(ov, name, 0);
        },
    }
}

fn holds_usize(v: &Vec<usize>, x: usize) -> (b: bool)
    ensures
        b == v@.contains(x),
{
    let mut k: usize = 0;
    while k < v.len()
        invariant
            k <= v@.len(),
            forall|j: int| 0 <= j < k ==> v@[j] != x,
        decreases v@.len() - k,
    {
        if v[k] == x {
            return true;
        }
        k = k + 1;
    }
    false
}

/// The tab the outline is drawn for.
pub open spec fn last_tab(app: MainApp) -> CodeTab {
    app.codeTabs.tabs@[app.lastTab as int]
}

/// The token at the cursor, then the names leading up to it (see `GetCurrentToken`).
pub open spec fn cursor_tokens(tab: CodeTab) -> Seq<Seq<char>> {
    let texts = token_texts(tab.lineTokens@[tab.cursor.0 as int]@);
    match token_holding(texts, tab.cursor.1 as int, 0, 0) {
        Some((k, _)) => seq![texts[k]] + path_before(texts, k),
        None => Seq::empty(),
    }
}

/// The completion offered for the token at the cursor of `tab`: among the keywords that
/// apply in the scope the names before the token lead to (see `inner_scope`).
pub open spec fn completion_of(tab: CodeTab) -> Option<Seq<char>> {
    let toks = cursor_tokens(tab);
    let cs = inner_scope(tab, tab.scopeJumps@[tab.cursor.0 as int]@, toks.drop_first()).unwrap();
    suggestion(toks[0], names_of(scoped_keywords(tab.outlineKeywords@, cs)))
}

pub proof fn lemma_typed_fold_some(tab: CodeTab, bases: Seq<KeywordView>, k: int, n: int, cs: Seq<usize>)
    requires
        0 <= k <= n,
        typed_fold(tab, bases, n, cs) is Some,
    ensures
        typed_fold(tab, bases, k, cs) is Some,
    decreases n - k,
{
    if k < n {
        lemma_typed_fold_some(tab, bases, k + 1, n, cs);
    }
}

proof fn lemma_scoped_from(s: Seq<OutlineKeyword>, scope: Seq<usize>)
    ensures
        forall|i: int| 0 <= i < scoped_keywords(s, scope).len() ==> exists|j: int| 0 <= j < s.len()
            && #[trigger] scoped_keywords(s, scope)[i] == keyword_view(s[j]),
    decreases s.len(),
{
    if s.len() > 0 {
        lemma_scoped_from(s.drop_last(), scope);
        let p = scoped_keywords(s.drop_last(), scope);
        assert forall|i: int| 0 <= i < scoped_keywords(s, scope).len() implies exists|j: int| 0 <= j < s.len()
            && #[trigger] scoped_keywords(s, scope)[i] == keyword_view(s[j]) by {
            if i < p.len() {
                let j = choose|j: int| 0 <= j < s.drop_last().len() && #[trigger] p[i] == keyword_view(s.drop_last()[j]);
                assert(s.drop_last()[j] == s[j]);
            } else {
                assert(scoped_keywords(s, scope)[i] == keyword_view(s.last()));
                assert(s.last() == s[s.len() - 1]);
            }
        }
    }
}

proof fn lemma_closest_from(token: Seq<char>, names: Seq<Seq<char>>, k: int)
    requires
        k <= names.len(),
    ensures
        forall|i: int| 0 <= i < closest_fold(token, names, k).1.len() ==> (#[trigger] closest_fold(token, names, k).1[i]).len() == 0
            || exists|j: int| 0 <= j < names.len() && names[j] == closest_fold(token, names, k).1[i],
    decreases k,
{
    if k > 0 {
        lemma_closest_from(token, names, k - 1);
        let (best, list) = closest_fold(token, names, k - 1);
        assert forall|i: int| 0 <= i < closest_fold(token, names, k).1.len() implies (#[trigger] closest_fold(token, names, k).1[i]).len() == 0
            || exists|j: int| 0 <= j < names.len() && names[j] == closest_fold(token, names, k).1[i] by {
            let l = closest_fold(token, names, k).1;
            if i < list.len() && l[i] == list[i] {
            } else {
                assert(l[i] == names[k - 1]);
            }
        }
    }
}

proof fn lemma_nearest_from(token: Seq<char>, list: Seq<Seq<char>>, k: int)
    requires
        k <= list.len(),
    ensures
        nearest_fold(token, list, k).1.len() == 0 || exists|j: int| 0 <= j < list.len() && list[j] == nearest_fold(token, list, k).1,
    decreases k,
{
    if k > 0 {
        lemma_nearest_from(token, list, k - 1);
    }
}

/// A completion is one of the names (or empty).
pub proof fn lemma_suggestion_from(token: Seq<char>, names: Seq<Seq<char>>)
    ensures
        suggestion(token, names) matches Some(c) ==> c.len() == 0 || exists|j: int| 0 <= j < names.len() && names[j] == c,
{
    if !punctuation(token) {
        let (best, list) = closest_fold(token, names, names.len() as int);
        lemma_closest_from(token, names, names.len() as int);
        lemma_nearest_from(token, list, list.len() as int);
        let c = nearest_fold(token, list, list.len() as int).1;
        if c.len() > 0 {
            let j = choose|j: int| 0 <= j < list.len() && list[j] == c;
            assert(list[j].len() > 0);
        }
    }
}

/// How far a name is from the token by byte comparison (0 for the token itself).
pub open spec fn name_score(token: Seq<char>, name: Seq<char>) -> int {
    byte_comparison_score(encode_utf8(token), encode_utf8(name))
}

/// The names among the first `k` whose score is `b`, in order.
pub open spec fn tied(token: Seq<char>, names: Seq<Seq<char>>, k: int, b: int) -> Seq<Seq<char>>
    decreases k,
{
    if k <= 0 {
        Seq::empty()
    } else {
        tied(token, names, k - 1, b) + if name_score(token, names[k - 1]) == b {
            seq![names[k - 1]]
        } else {
            Seq::empty()
        }
    }
}

proof fn lemma_tied_none(token: Seq<char>, names: Seq<Seq<char>>, k: int, b: int)
    requires
        forall|j: int| 0 <= j < k ==> name_score(token, #[trigger] names[j]) != b,
    ensures
        tied(token, names, k, b) == Seq::<Seq<char>>::empty(),
    decreases k,
{
    if k > 0 {
        lemma_tied_none(token, names, k - 1, b);
        assert(tied(token, names, k, b) =~= Seq::<Seq<char>>::empty());
    }
}

proof fn lemma_closest_min(token: Seq<char>, names: Seq<Seq<char>>, k: int)
    requires
        0 <= k <= names.len(),
    ensures
        ({
            let (b, l) = closest_fold(token, names, k);
            &&& b <= usize::MAX
            &&& forall|j: int| 0 <= j < k ==> name_score(token, #[trigger] names[j]) >= b
            &&& b < usize::MAX ==> exists|j: int| 0 <= j < k && name_score(token, #[trigger] names[j]) == b
            &&& b < usize::MAX ==> l == tied(token, names, k, b)
        }),
    decreases k,
{
    if k > 0 {
        lemma_closest_min(token, names, k - 1);
        let (b0, l0) = closest_fold(token, names, k - 1);
        let v = name_score(token, names[k - 1]);
        if v < b0 {
            lemma_tied_none(token, names, k - 1, v);
            assert(tied(token, names, k, v) =~= seq![names[k - 1]]);
        } else if v == b0 {
            if b0 < usize::MAX {
                assert(tied(token, names, k, b0) =~= l0.push(names[k - 1]));
            }
        } else {
            assert(tied(token, names, k, b0) =~= tied(token, names, k - 1, b0));
        }
    }
}

proof fn lemma_tied_len_mono(token: Seq<char>, names: Seq<Seq<char>>, j: int, k: int, b: int)
    requires
        0 <= j <= k,
    ensures
        tied(token, names, j, b).len() <= tied(token, names, k, b).len(),
        forall|p: int| 0 <= p < tied(token, names, j, b).len() ==> #[trigger] tied(token, names, k, b)[p] == tied(token, names, j, b)[p],
    decreases k - j,
{
    if j < k {
        lemma_tied_len_mono(token, names, j, k - 1, b);
        let t = tied(token, names, k - 1, b);
        assert forall|p: int| 0 <= p < t.len() implies #[trigger] tied(token, names, k, b)[p] == t[p] by {}
    }
}

proof fn lemma_tied_at(token: Seq<char>, names: Seq<Seq<char>>, j: int, k: int, b: int)
    requires
        0 <= j < k,
        name_score(token, names[j]) == b,
    ensures
        tied(token, names, j, b).len() < tied(token, names, k, b).len(),
        tied(token, names, k, b)[tied(token, names, j, b).len() as int] == names[j],
{
    assert(tied(token, names, j + 1, b) == tied(token, names, j, b).push(names[j]));
    lemma_tied_len_mono(token, names, j + 1, k, b);
}

proof fn lemma_nearest_prefix(token: Seq<char>, l1: Seq<Seq<char>>, l2: Seq<Seq<char>>, k: int)
    requires
        0 <= k <= l1.len(),
        k <= l2.len(),
        forall|p: int| 0 <= p < k ==> l1[p] == l2[p],
    ensures
        nearest_fold(token, l1, k) == nearest_fold(token, l2, k),
    decreases k,
{
    if k > 0 {
        lemma_nearest_prefix(token, l1, l2, k - 1);
        assert(l1[k - 1] == l2[k - 1]);
    }
}

proof fn lemma_nearest_tied(token: Seq<char>, names: Seq<Seq<char>>, k: int, b: int)
    requires
        0 <= k <= names.len(),
        forall|i: int| 0 <= i < names.len() ==> length_gap(token, #[trigger] names[i]) < usize::MAX,
    ensures
        ({
            let t = tied(token, names, k, b);
            let (g, e) = nearest_fold(token, t, t.len() as int);
            &&& t.len() == 0 ==> g == usize::MAX
            &&& t.len() > 0 ==> exists|j: int|
                0 <= j < k && name_score(token, #[trigger] names[j]) == b && e == names[j] && g == length_gap(
                    token,
                    names[j],
                ) && (forall|i: int|
                    0 <= i < k && name_score(token, #[trigger] names[i]) == b ==> length_gap(token, names[i]) >= g)
                    && (forall|i: int|
                    0 <= i < j && name_score(token, #[trigger] names[i]) == b ==> length_gap(token, names[i]) > g)
        }),
    decreases k,
{
    if k > 0 {
        lemma_nearest_tied(token, names, k - 1, b);
        let t0 = tied(token, names, k - 1, b);
        let t = tied(token, names, k, b);
        let x = names[k - 1];
        if name_score(token, x) == b {
            assert(t =~= t0.push(x));
            lemma_nearest_prefix(token, t, t0, t0.len() as int);
            let (g0, e0) = nearest_fold(token, t0, t0.len() as int);
            let gn = length_gap(token, x);
            assert(nearest_fold(token, t, t.len() as int) == if gn < g0 { (gn, x) } else { (g0, e0) });
            if t0.len() == 0 {
                assert forall|i: int| 0 <= i < k - 1 && name_score(token, #[trigger] names[i]) == b implies false by {
                    lemma_tied_at(token, names, i, k - 1, b);
                }
                assert(0 <= k - 1 < k && name_score(token, names[k - 1]) == b);
            } else {
                let j0 = choose|j: int|
                    0 <= j < k - 1 && name_score(token, #[trigger] names[j]) == b && e0 == names[j] && g0 == length_gap(
                        token,
                        names[j],
                    ) && (forall|i: int|
                        0 <= i < k - 1 && name_score(token, #[trigger] names[i]) == b ==> length_gap(token, names[i])
                            >= g0) && (forall|i: int|
                        0 <= i < j && name_score(token, #[trigger] names[i]) == b ==> length_gap(token, names[i]) > g0);
                if gn < g0 {
                    assert(0 <= k - 1 < k && name_score(token, names[k - 1]) == b);
                } else {
                    assert(0 <= j0 < k && name_score(token, names[j0]) == b);
                }
            }
        } else {
            assert(t =~= t0);
        }
    } else {
        assert(tied(token, names, k, b) =~= Seq::<Seq<char>>::empty());
    }
}

/// The completion offered for `token` among `names` (see `ParseKeywordSuggestions`): none
/// for punctuation; otherwise a name scores best (lowest) by byte comparison and below 15
/// exactly when one is offered, and the one offered is, among all the names with that best
/// score, one nearest the token in byte length, and the first such in order.
pub proof fn law_completion_best_then_nearest(token: Seq<char>, names: Seq<Seq<char>>)
    requires
        encode_utf8(token).len() < isize::MAX,
        forall|i: int| 0 <= i < names.len() ==> encode_utf8(#[trigger] names[i]).len() < isize::MAX,
    ensures
        punctuation(token) ==> suggestion(token, names) is None,
        !punctuation(token) && (exists|i: int| 0 <= i < names.len() && name_score(token, #[trigger] names[i]) < 15)
            ==> suggestion(token, names) is Some,
        (forall|i: int| 0 <= i < names.len() ==> name_score(token, #[trigger] names[i]) >= 15) ==> suggestion(
            token,
            names,
        ) is None,
        suggestion(token, names) matches Some(s) ==> exists|k: int|
            0 <= k < names.len() && names[k] == s && name_score(token, s) < 15 && (forall|j: int|
                0 <= j < names.len() ==> name_score(token, #[trigger] names[j]) >= name_score(token, s)) && (forall|j: int|
                0 <= j < names.len() && name_score(token, #[trigger] names[j]) == name_score(token, s) ==> length_gap(
                    token,
                    names[j],
                ) >= length_gap(token, s)) && (forall|j: int|
                0 <= j < k && name_score(token, #[trigger] names[j]) == name_score(token, s) ==> length_gap(
                    token,
                    names[j],
                ) > length_gap(token, s)),
{
    let n = names.len() as int;
    lemma_closest_min(token, names, n);
    let (b, l) = closest_fold(token, names, n);
    if !punctuation(token) && b < 15 {
        assert forall|i: int| 0 <= i < names.len() implies length_gap(token, #[trigger] names[i]) < usize::MAX by {
            assert(encode_utf8(names[i]).len() < isize::MAX);
        }
        let j0 = choose|j: int| 0 <= j < n && name_score(token, #[trigger] names[j]) == b;
        lemma_tied_at(token, names, j0, n, b);
        lemma_nearest_tied(token, names, n, b);
        let (g, s) = nearest_fold(token, l, l.len() as int);
        let k = choose|j: int|
            0 <= j < n && name_score(token, #[trigger] names[j]) == b && s == names[j] && g == length_gap(token, names[j])
                && (forall|i: int| 0 <= i < n && name_score(token, #[trigger] names[i]) == b ==> length_gap(token, names[i]) >= g)
                && (forall|i: int| 0 <= i < j && name_score(token, #[trigger] names[i]) == b ==> length_gap(token, names[i]) > g);
        assert(suggestion(token, names) == Some(s));
        assert(0 <= k < names.len() && names[k] == s);
    }
}

/// The completion can be worked out for the tab last worked on: its cursor sits in a token
/// and a scope, and the lookups stay in range (see `inner_scope`).
pub open spec fn completion_ready(app: MainApp) -> bool {
    app.codeTabs.tabs@.len() > 0 ==> {
        let tab = last_tab(app);
        let toks = cursor_tokens(tab);
        &&& app.lastTab < app.codeTabs.tabs@.len()
        &&& tab.wf()
        &&& tab.cursor_tokens_within(usize::MAX as int)
        &&& tab.cursor.0 < tab.scopeJumps@.len()
        &&& forall|i: int| 0 <= i < tab.outlineKeywords@.len() ==> encode_utf8(#[trigger] tab.outlineKeywords@[i].keyword@).len() < isize::MAX
        &&& toks.len() > 0 ==> {
            &&& inner_scope(tab, tab.scopeJumps@[tab.cursor.0 as int]@, toks.drop_first()) is Some
            &&& 257 * encode_utf8(toks[0]).len() <= usize::MAX
            &&& encode_utf8(toks[0]).len() < isize::MAX
        }
    }
}

/// The completion offered after `before` (see `completion_of`), empty when there is none;
/// nothing changes without tabs.
pub open spec fn completed(before: MainApp, after: MainApp) -> bool {
    &&& before.codeTabs.tabs@.len() == 0 ==> after == before
    &&& before.codeTabs.tabs@.len() > 0 ==> {
        let tab = last_tab(before);
        &&& after.suggested@ == if cursor_tokens(tab).len() == 0 {
            Seq::<char>::empty()
        } else {
            match completion_of(tab) {
                Some(c) => c,
                None => Seq::<char>::empty(),
            }
        }
        &&& after.codeTabs == before.codeTabs
        &&& after.appState == before.appState
        &&& after.lastTab == before.lastTab
        &&& after.debugInfo == before.debugInfo
        &&& after.renderMode == before.renderMode
        &&& after.colorMode == before.colorMode
    }
}

/// A name among the keywords that apply in a scope is a name of the outline.
pub proof fn lemma_names_from(s: Seq<OutlineKeyword>, scope: Seq<usize>, j: int)
    requires
        0 <= j < scoped_keywords(s, scope).len(),
    ensures
        exists|k: int| 0 <= k < s.len() && names_of(scoped_keywords(s, scope))[j] == s[k].keyword@,
{
    lemma_scoped_from(s, scope);
    let k = choose|k: int| 0 <= k < s.len() && #[trigger] scoped_keywords(s, scope)[j] == keyword_view(s[k]);
    assert(names_of(scoped_keywords(s, scope))[j] == s[k].keyword@);
}

impl MainApp {
    /// Moves `currentScope` to the scope `self` refers to (see `self_scope`).
    pub fn HandleKeywordSelf(&mut self, currentScope: &mut Vec<usize>)
        requires
            old(self).lastTab < old(self).codeTabs.tabs@.len(),
            self_scope(last_tab(*old(self)), old(currentScope)@) is Some,
        ensures
            final(currentScope)@ == self_scope(last_tab(*old(self)), old(currentScope)@).unwrap(),
            *final(self) == *old(self),
    {
        let tab = &self.codeTabs.tabs[self.lastTab];
        let scope = reversed(currentScope);
        if scope.len() < 2 || tab.scopes.children.len() >= scope[1] {
            return;
        }
        let mut path = vec![scope[1]];
        proof {
            assert(path@ =~= seq![scope@[1]]);
        }
        let baseNode = tab.scopes.GetNode(&mut path);
        let implLine = baseNode.start;
        let ghost ov = keywords_view(tab.outlineKeywords@);
        proof {
            lemma_keywords_view(tab.outlineKeywords@);
            assert(scope@ == old(currentScope)@.reverse());
        }
        let ghost target = self_scope(*tab, old(currentScope)@);
        proof {
            assert(target == match first_implementing(ov, implLine, 0) {
                Some(j) => jump_at(*tab, ov[j].lineNumber as int),
                None => Some(old(currentScope)@),
            });
        }
        let mut i: usize = 0;
        while i < tab.outlineKeywords.len()
            invariant
                *self == *old(self),
                *tab == last_tab(*old(self)),
                target == self_scope(last_tab(*old(self)), old(currentScope)@),
                target is Some,
                target == match first_implementing(ov, implLine, 0) {
                    Some(j) => jump_at(*tab, ov[j].lineNumber as int),
                    None => Some(old(currentScope)@),
                },
                i <= tab.outlineKeywords@.len(),
                ov == keywords_view(tab.outlineKeywords@),
                ov.len() == tab.outlineKeywords@.len(),
                forall|j: int| 0 <= j < ov.len() ==> #[trigger] ov[j] == keyword_view(tab.outlineKeywords@[j]),
                first_implementing(ov, implLine, 0) == first_implementing(ov, implLine, i as int),
                currentScope@ == old(currentScope)@,
            decreases tab.outlineKeywords@.len() - i,
        {
            proof {
                assert(ov[i as int] == keyword_view(tab.outlineKeywords@[i as int]));
            }
            if holds_usize(&tab.outlineKeywords[i].implLines, implLine) {
                proof {
                    assert(first_implementing(ov, implLine, i as int) == Some(i as int));
                }
                let jumps = &tab.scopeJumps[tab.outlineKeywords[i].lineNumber];
                let copy = clone_usizes(jumps);
                *currentScope = copy;
                proof {
                    assert(ov[i as int].lineNumber == tab.outlineKeywords@[i as int].lineNumber);
                    assert(target == jump_at(*tab, ov[i as int].lineNumber as int));
                    assert(currentScope@ == target.unwrap());
                    assert(*tab == last_tab(*old(self)));
                }
                return;
            }
            i = i + 1;
        }
    }

    /// Moves `currentScope` to the scope a keyword named `baseToken` leads to (see
    /// `keyword_scopes`).
    pub fn HandleKeywordScopes(&mut self, baseToken: String, currentScope: &mut Vec<usize>)
        requires
            old(self).lastTab < old(self).codeTabs.tabs@.len(),
            keyword_scopes(last_tab(*old(self)), baseToken@, old(currentScope)@) is Some,
        ensures
            final(currentScope)@ == keyword_scopes(last_tab(*old(self)), baseToken@, old(currentScope)@).unwrap(),
            *final(self) == *old(self),
    {
        if str_equal(baseToken.as_str(), "self") {
            self.HandleKeywordSelf(currentScope);
            return;
        }
        let tab = &self.codeTabs.tabs[self.lastTab];
        let valid = OutlineKeyword::GetValidScoped(&tab.outlineKeywords, currentScope);
        let ghost base = baseToken@;
        let baseKeywords = OutlineKeyword::TryFindKeywords(&valid, baseToken);
        let ghost bases = named_views(scoped_keywords(tab.outlineKeywords@, old(currentScope)@), base);
        proof {
            lemma_named_views(valid@, base);
            lemma_keywords_view(baseKeywords@);
            assert(keywords_view(baseKeywords@) == bases);
        }
        let mut k: usize = 0;
        while k < baseKeywords.len()
            invariant
                k <= baseKeywords@.len(),
                bases == keywords_view(baseKeywords@),
                bases.len() == baseKeywords@.len(),
                forall|j: int| 0 <= j < bases.len() ==> #[trigger] bases[j] == keyword_view(baseKeywords@[j]),
                *self == *old(self),
                *tab == last_tab(*old(self)),
                typed_fold(*tab, bases, bases.len() as int, old(currentScope)@) is Some,
                typed_fold(*tab, bases, k as int, old(currentScope)@) == Some(currentScope@),
            decreases baseKeywords@.len() - k,
        {
            proof {
                assert(bases[k as int] == keyword_view(baseKeywords@[k as int]));
                lemma_typed_fold_some(*tab, bases, k + 1, bases.len() as int, old(currentScope)@);
            }
            match &baseKeywords[k].typedType {
                None => {},
                Some(t) => {
                    let nb = OutlineKeyword::TryFindKeywords(&tab.outlineKeywords, t.clone());
                    proof {
                        lemma_keywords_view(nb@);
                    }
                    if nb.len() > 0 {
                        proof {
                            assert(keywords_view(nb@)[0] == keyword_view(nb@[0]));
                        }
                        let copy = clone_usizes(&tab.scopeJumps[nb[0].lineNumber]);
                        *currentScope = copy;
                    }
                },
            }
            k = k + 1;
        }
    }

    /// Moves `currentScope` to the scope the names in `tokenSet` lead to (see
    /// `inner_scope`), using up `tokenSet`.
    pub fn CalculateInnerScope(&mut self, currentScope: &mut Vec<usize>, tokenSet: &mut Vec<String>)
        requires
            old(self).lastTab < old(self).codeTabs.tabs@.len(),
            inner_scope(last_tab(*old(self)), old(currentScope)@, lines_view(old(tokenSet)@)) is Some,
        ensures
            final(currentScope)@ == inner_scope(last_tab(*old(self)), old(currentScope)@, lines_view(old(tokenSet)@)).unwrap(),
            *final(self) == *old(self),
    {
        if tokenSet.len() == 0 {
            return;
        }
        let ghost tab0 = last_tab(*self);
        let ghost toks = lines_view(tokenSet@);
        let ghost target = inner_scope(tab0, currentScope@, toks);
        let n = tokenSet.len();
        let baseToken = tokenSet[n - 1].clone();
        let last = tokenSet.pop().unwrap();
        proof {
            assert(lines_view(tokenSet@) =~= toks.drop_last());
            assert(toks.last() == baseToken@);
            lemma_keywords_view(tab0.outlineKeywords@);
        }
        let currentElement = OutlineKeyword::TryFindKeyword(&self.codeTabs.tabs[self.lastTab].outlineKeywords, last);
        proof {
            lemma_find(tab0.outlineKeywords@, baseToken@, currentElement);
        }
        let mut el: Option<OutlineKeyword> = None;
        match currentElement {
            Some(set) => {
                let copy = clone_usizes(&self.codeTabs.tabs[self.lastTab].scopeJumps[set.lineNumber]);
                *currentScope = copy;
                if set.childKeywords.len() == 0 {
                    proof {
                        lemma_keywords_view(set.childKeywords@);
                    }
                    self.HandleKeywordScopes(baseToken, currentScope);
                    return;
                }
                el = Some(set);
            },
            None => {
                if str_equal(baseToken.as_str(), "self") {
                    self.HandleKeywordScopes(baseToken, currentScope);
                }
                return;
            },
        }
        while tokenSet.len() > 0 && el.is_some()
            invariant
                *self == *old(self),
                self.lastTab < self.codeTabs.tabs@.len(),
                tab0 == last_tab(*old(self)),
                target is Some,
                target == inner_scope(last_tab(*old(self)), old(currentScope)@, lines_view(old(tokenSet)@)),
                walk(tab0, match el {
                    Some(k) => Some(keyword_view(k)),
                    None => None,
                }, lines_view(tokenSet@), currentScope@) == target,
            decreases tokenSet@.len(),
        {
            let ghost t0 = lines_view(tokenSet@);
            let newToken = tokenSet.remove(0);
            proof {
                assert(lines_view(tokenSet@) =~= t0.drop_first());
                assert(t0[0] == newToken@);
            }
            let set = el.unwrap();
            let copy = clone_usizes(&self.codeTabs.tabs[self.lastTab].scopeJumps[set.lineNumber]);
            *currentScope = copy;
            let found = OutlineKeyword::TryFindKeyword(&set.childKeywords, newToken);
            proof {
                lemma_find(set.childKeywords@, t0[0], found);
                assert(keyword_view(set).childKeywords == keywords_view(set.childKeywords@));
            }
            el = found;
        }
    }

    /// Works out the completion offered for the token at the cursor of the tab last worked
    /// on (see `completion_of`): none while no token holds the cursor.
    pub fn UpdateRenderErrorBar(&mut self)
        requires
            completion_ready(*old(self)),
        ensures
            completed(*old(self), *final(self)),
    {
        if self.codeTabs.tabs.len() == 0 {
            return;
        }
        self.suggested = String::new();
        let mut tokenSet: Vec<String> = Vec::new();
        self.codeTabs.tabs[self.lastTab].GetCurrentToken(&mut tokenSet);
        let ghost tab = last_tab(*old(self));
        let ghost toks = cursor_tokens(tab);
        proof {
            assert(lines_view(Seq::<String>::empty()) =~= Seq::<Seq<char>>::empty());
            assert(lines_view(tokenSet@) =~= toks);
        }
        if tokenSet.len() == 0 {
            proof {
                assert(self.suggested@ =~= Seq::<char>::empty());
            }
            return;
        }
        let token = tokenSet.remove(0);
        proof {
            assert(lines_view(tokenSet@) =~= toks.drop_first());
            assert(token@ == toks[0]);
        }
        let mut currentScope = clone_usizes(&self.codeTabs.tabs[self.lastTab].scopeJumps[self.codeTabs.tabs[self.lastTab].cursor.0]);
        self.CalculateInnerScope(&mut currentScope, &mut tokenSet);
        let validKeywords = OutlineKeyword::GetValidScoped(&self.codeTabs.tabs[self.lastTab].outlineKeywords, &currentScope);
        proof {
            lemma_keywords_view(validKeywords@);
            lemma_scoped_from(tab.outlineKeywords@, currentScope@);
            assert forall|i: int| 0 <= i < validKeywords@.len() implies encode_utf8(#[trigger] validKeywords@[i].keyword@).len() < isize::MAX by {
                let v = keywords_view(validKeywords@)[i];
                assert(v == keyword_view(validKeywords@[i]));
                let j = choose|j: int| 0 <= j < tab.outlineKeywords@.len() && scoped_keywords(tab.outlineKeywords@, currentScope@)[i] == keyword_view(tab.outlineKeywords@[j]);
                assert(validKeywords@[i].keyword == tab.outlineKeywords@[j].keyword);
            }
            assert(names_of(keywords_view(validKeywords@)) == names_of(scoped_keywords(tab.outlineKeywords@, currentScope@)));
        }
        let ghost before = self.suggested@;
        self.ParseKeywordSuggestions(validKeywords, token);
    }

    /// Offers the completion for `token` among `validKeywords` (see `suggestion`); the offer
    /// stays as it was when there is none.
    pub fn ParseKeywordSuggestions(&mut self, validKeywords: Vec<OutlineKeyword>, token: String)
        requires
            257 * encode_utf8(token@).len() <= usize::MAX,
            encode_utf8(token@).len() < isize::MAX,
            forall|i: int| 0 <= i < validKeywords@.len() ==> encode_utf8(#[trigger] validKeywords@[i].keyword@).len() < isize::MAX,
        ensures
            match suggestion(token@, names_of(keywords_view(validKeywords@))) {
                Some(s) => final(self).suggested@ == s,
                None => final(self).suggested == old(self).suggested,
            },
            final(self).codeTabs == old(self).codeTabs,
            final(self).appState == old(self).appState,
            final(self).lastTab == old(self).lastTab,
            final(self).debugInfo == old(self).debugInfo,
            final(self).renderMode == old(self).renderMode,
            final(self).colorMode == old(self).colorMode,
    {
        let ghost names = names_of(keywords_view(validKeywords@));
        proof {
            crate::token_info::lemma_keywords_view(validKeywords@);
        }
        if is_punctuation(&token) {
            return;
        }
        let mut best: usize = usize::MAX;
        let mut list: Vec<String> = vec![String::new()];
        let mut i: usize = 0;
        proof {
            assert(list@.map_values(|s: String| s@) =~= seq![Seq::<char>::empty()]);
        }
        while i < validKeywords.len()
            invariant
                i <= validKeywords@.len(),
                names == names_of(keywords_view(validKeywords@)),
                names.len() == validKeywords@.len(),
                forall|j: int| 0 <= j < validKeywords@.len() ==> #[trigger] names[j] == validKeywords@[j].keyword@,
                257 * encode_utf8(token@).len() <= usize::MAX,
                forall|j: int| 0 <= j < validKeywords@.len() ==> encode_utf8(#[trigger] validKeywords@[j].keyword@).len() < isize::MAX,
                forall|j: int| 0 <= j < list@.len() ==> encode_utf8(#[trigger] list@[j]@).len() < isize::MAX,
                closest_fold(token@, names, i as int) == (best as int, list@.map_values(|s: String| s@)),
            decreases validKeywords@.len() - i,
        {
            let value = byte_comparison(&token, &validKeywords[i].keyword);
            let ghost l0 = list@;
            proof {
                assert(names[i as int] == validKeywords@[i as int].keyword@);
            }
            if value < best {
                best = value;
                list = vec![validKeywords[i].keyword.clone()];
                proof {
                    assert(list@.map_values(|s: String| s@) =~= seq![names[i as int]]);
                }
            } else if value == best {
                list.push(validKeywords[i].keyword.clone());
                proof {
                    assert(list@.map_values(|s: String| s@) =~= l0.map_values(|s: String| s@).push(names[i as int]));
                }
            }
            i = i + 1;
        }
        let mut nearest: usize = usize::MAX;
        let mut chosen: String = String::new();
        let tokenLen = byte_len(&token);
        let mut k: usize = 0;
        while k < list.len()
            invariant
                k <= list@.len(),
                tokenLen == encode_utf8(token@).len(),
                tokenLen < isize::MAX,
                forall|j: int| 0 <= j < list@.len() ==> encode_utf8(#[trigger] list@[j]@).len() < isize::MAX,
                nearest_fold(token@, list@.map_values(|s: String| s@), k as int) == (nearest as int, chosen@),
            decreases list@.len() - k,
        {
            let n = byte_len(&list[k]);
            let gap = if n >= tokenLen {
                n - tokenLen
            } else {
                tokenLen - n
            };
            proof {
                assert(list@.map_values(|s: String| s@)[k as int] == list@[k as int]@);
            }
            if gap < nearest {
                nearest = gap;
                chosen = list[k].clone();
            }
            k = k + 1;
        }
        if best < 15 {
            self.suggested = chosen;
        }
    }
}

} // verus!
