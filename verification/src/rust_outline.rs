//! The Rust linter's outline of declared items: which items sit inside `impl` blocks or
//! modules, and which lines implement a type.
use vstd::prelude::*;
use crate::text::{str_contains, contains_seq};
use crate::token_info::{
    LuaTuple, TokenType, ScopeNode, OutlineKeyword, OutlineType, KeywordView, keyword_view, keywords_view,
    lemma_keywords_view,
};

verus! {

/// Whether a keyword can sit inside an `impl` block or a module: enums, functions, structs
/// and modules.
pub open spec fn implementable(t: OutlineType) -> bool {
    t == OutlineType::Enum || t == OutlineType::Function || t == OutlineType::Struct || t == OutlineType::Mod
}

/// The positions, below `k`, of the keywords that can sit inside a block and have a scope.
pub open spec fn impl_indices(outline: Seq<OutlineKeyword>, k: int) -> Seq<usize>
    decreases k,
{
    if k <= 0 {
        Seq::empty()
    } else if implementable(outline[k - 1].kwType) && outline[k - 1].scope@.len() > 0 {
        impl_indices(outline, k - 1).push((k - 1) as usize)
    } else {
        impl_indices(outline, k - 1)
    }
}

/// The positions of the keywords that can sit inside a block and have a scope.
pub fn GetImplKeywordIndex(outline: &Vec<OutlineKeyword>) -> (indices: Vec<usize>)
    ensures
        indices@ == impl_indices(outline@, outline@.len() as int),
{
    let mut indices: Vec<usize> = Vec::new();
    let mut i: usize = 0;
    while i < outline.len()
        invariant
            i <= outline@.len(),
            indices@ == impl_indices(outline@, i as int),
        decreases outline@.len() - i,
    {
        let t = outline[i].kwType;
        if (t == OutlineType::Enum || t == OutlineType::Function || t == OutlineType::Struct || t == OutlineType::Mod)
            && outline[i].scope.len() > 0 {
            indices.push(i);
        }
        i = i + 1;
    }
    indices
}

/// `k` with `c` added to its child keywords.
pub open spec fn with_child(k: KeywordView, c: KeywordView) -> KeywordView {
    KeywordView {
        keyword: k.keyword,
        kwType: k.kwType,
        typedType: k.typedType,
        resultType: k.resultType,
        childKeywords: k.childKeywords.push(c),
        scope: k.scope,
        public: k.public,
        mutable: k.mutable,
        parameters: k.parameters,
        lineNumber: k.lineNumber,
        implLines: k.implLines,
    }
}

/// `k` with the scope `s`.
pub open spec fn with_scope(k: KeywordView, s: Seq<usize>) -> KeywordView {
    KeywordView {
        keyword: k.keyword,
        kwType: k.kwType,
        typedType: k.typedType,
        resultType: k.resultType,
        childKeywords: k.childKeywords,
        scope: s,
        public: k.public,
        mutable: k.mutable,
        parameters: k.parameters,
        lineNumber: k.lineNumber,
        implLines: k.implLines,
    }
}

/// `k` with `line` added to its implementing lines.
pub open spec fn with_impl_line(k: KeywordView, line: usize) -> KeywordView {
    KeywordView {
        keyword: k.keyword,
        kwType: k.kwType,
        typedType: k.typedType,
        resultType: k.resultType,
        childKeywords: k.childKeywords,
        scope: k.scope,
        public: k.public,
        mutable: k.mutable,
        parameters: k.parameters,
        lineNumber: k.lineNumber,
        implLines: k.implLines.push(line),
    }
}

/// The first keyword from `k` on that is implemented on line `start`.
pub open spec fn first_implementing(ov: Seq<KeywordView>, start: usize, k: int) -> Option<int>
    decreases ov.len() - k,
{
    if k < 0 || k >= ov.len() {
        None
    } else if ov[k].implLines.contains(start) {
        Some(k)
    } else {
        first_implementing(ov, start, k + 1)
    }
}

/// Moving the keyword at `ki` into the block that holds it: the block is the first keyword
/// implemented on the line where the keyword's outermost scope starts; the keyword is added
/// to its children and takes the scope of the block's line. `None` where the lookup would
/// fail (no scope, a scope index just past the root's children, or a block line past the
/// recorded lines).
pub open spec fn impl_step(ov: Seq<KeywordView>, ki: int, jumps: Seq<Seq<usize>>, root: ScopeNode) -> Option<
    Seq<KeywordView>,
> {
    if ki < 0 || ki >= ov.len() || ov[ki].scope.len() == 0 {
        None
    } else {
        let s0 = ov[ki].scope[0];
        if root.children@.len() < s0 {
            Some(ov)
        } else if s0 == root.children@.len() {
            None
        } else {
            let start = root.children@[s0 as int].start;
            match first_implementing(ov, start, 0) {
                None => Some(ov),
                Some(j) => if ov[j].lineNumber >= jumps.len() {
                    None
                } else {
                    let ov2 = ov.update(j, with_child(ov[j], ov[ki]));
                    Some(ov2.update(ki, with_scope(ov2[ki], jumps[ov[j].lineNumber as int])))
                },
            }
        }
    }
}

/// The steps for each index of `list` in turn (`None` if one fails).
pub open spec fn impl_steps(ov: Seq<KeywordView>, list: Seq<usize>, jumps: Seq<Seq<usize>>, root: ScopeNode) -> Option<
    Seq<KeywordView>,
>
    decreases list.len(),
{
    if list.len() == 0 {
        Some(ov)
    } else {
        match impl_step(ov, list[0] as int, jumps, root) {
            None => None,
            Some(o) => impl_steps(o, list.drop_first(), jumps, root),
        }
    }
}

pub open spec fn jumps_view(v: Seq<Vec<usize>>) -> Seq<Seq<usize>> {
    v.map_values(|p: Vec<usize>| p@)
}

proof fn lemma_view_update(s: Seq<OutlineKeyword>, j: int, x: OutlineKeyword)
    requires
        0 <= j < s.len(),
    ensures
        keywords_view(s.update(j, x)) == keywords_view(s).update(j, keyword_view(x)),
{
    lemma_keywords_view(s);
    lemma_keywords_view(s.update(j, x));
    assert(keywords_view(s.update(j, x)) =~= keywords_view(s).update(j, keyword_view(x)));
}

proof fn lemma_view_push(s: Seq<OutlineKeyword>, x: OutlineKeyword)
    ensures
        keywords_view(s.push(x)) == keywords_view(s).push(keyword_view(x)),
{
    assert(s.push(x).drop_last() =~= s);
}

fn copy_usizes(v: &Vec<usize>) -> (r: Vec<usize>)
    ensures
        r@ == v@,
{
    crate::token_info::clone_usizes(v)
}

/// Whether `v` holds `x`.
fn contains_usize(v: &Vec<usize>, x: usize) -> (b: bool)
    ensures
        b == v@.contains(x),
{
    let mut k: usize = 0;
    while k < v.len()
        invariant
            k <= v@.len(),
            forall|w: int| 0 <= w < k ==> v@[w] != x,
        decreases v@.len() - k,
    {
        if v[k] == x {
            return true;
        }
        k = k + 1;
    }
    false
}

/// Finds the first keyword implemented on line `start`.
fn find_implementing(outline: &Vec<OutlineKeyword>, start: usize) -> (j: Option<usize>)
    ensures
        match first_implementing(keywords_view(outline@), start, 0) {
            Some(k) => j matches Some(x) && x as int == k,
            None => j is None,
        },
        j matches Some(x) ==> x < outline@.len(),
{
    let ghost ov = keywords_view(outline@);
    proof {
        lemma_keywords_view(outline@);
    }
    let mut i: usize = 0;
    while i < outline.len()
        invariant
            ov == keywords_view(outline@),
            ov.len() == outline@.len(),
            forall|t: int| 0 <= t < outline@.len() ==> #[trigger] ov[t] == keyword_view(outline@[t]),
            i <= outline@.len(),
            first_implementing(ov, start, 0) == first_implementing(ov, start, i as int),
        decreases outline@.len() - i,
    {
        let found = contains_usize(&outline[i].implLines, start);
        proof {
            assert(ov[i as int].implLines == outline@[i as int].implLines@);
        }
        if found {
            return Some(i);
        }
        i = i + 1;
    }
    None
}

/// Whether every step of `list` can be taken on `outline` (see `impl_steps`); the steps are
/// tried on a copy.
pub fn impl_steps_fit(outline: &Vec<OutlineKeyword>, list: &Vec<usize>, scopeJumps: &[Vec<usize>], root: &ScopeNode) -> (ok: bool)
    ensures
        ok == impl_steps(keywords_view(outline@), list@, jumps_view(scopeJumps@), *root) is Some,
{
    let mut sim: Vec<OutlineKeyword> = Vec::new();
    let mut c: usize = 0;
    while c < outline.len()
        invariant
            c <= outline@.len(),
            sim@.len() == c,
            forall|q: int| 0 <= q < c ==> keyword_view(#[trigger] sim@[q]) == keyword_view(outline@[q]),
        decreases outline@.len() - c,
    {
        sim.push(outline[c].copy());
        c = c + 1;
    }
    proof {
        crate::token_info::lemma_keywords_view_ext(sim@, outline@);
    }
    let ghost jv = jumps_view(scopeJumps@);
    let ghost total = impl_steps(keywords_view(outline@), list@, jv, *root);
    let mut n: usize = 0;
    proof {
        assert(list@.subrange(0, list@.len() as int) =~= list@);
    }
    while n < list.len()
        invariant
            n <= list@.len(),
            jv == jumps_view(scopeJumps@),
            total == impl_steps(keywords_view(outline@), list@, jv, *root),
            impl_steps(keywords_view(sim@), list@.subrange(n as int, list@.len() as int), jv, *root) == total,
        decreases list@.len() - n,
    {
        let ghost rest = list@.subrange(n as int, list@.len() as int);
        proof {
            assert(rest[0] == list@[n as int]);
            assert(rest.drop_first() =~= list@.subrange(n + 1, list@.len() as int));
            lemma_keywords_view(sim@);
        }
        let ghost ov = keywords_view(sim@);
        let ki = list[n];
        proof {
            assert(ov.len() == sim@.len());
            if ki < sim@.len() {
                assert(ov[ki as int] == keyword_view(sim@[ki as int]));
            }
        }
        if ki >= sim.len() || sim[ki].scope.len() == 0 {
            proof {
                assert(impl_step(ov, ki as int, jv, *root) is None);
            }
            return false;
        }
        let s0 = sim[ki].scope[0];
        if root.children.len() < s0 {
            proof {
                assert(impl_step(ov, ki as int, jv, *root) == Some(ov));
            }
            n = n + 1;
            continue;
        }
        if s0 == root.children.len() {
            proof {
                assert(impl_step(ov, ki as int, jv, *root) is None);
            }
            return false;
        }
        let start = root.children[s0].start;
        let keyword = sim[ki].copy();
        match find_implementing(&sim, start) {
            None => {},
            Some(j) => {
                proof {
                    assert(ov[ki as int].scope[0] == s0);
                    assert(first_implementing(ov, start, 0) == Some(j as int));
                    assert(ov[j as int] == keyword_view(sim@[j as int]));
                }
                let line = sim[j].lineNumber;
                if line >= scopeJumps.len() {
                    return false;
                }
                let newScope = copy_usizes(&scopeJumps[line]);
                let ghost before = sim@;
                let ghost kv = keyword@;
                sim[j].childKeywords.push(keyword);
                proof {
                    lemma_view_push(before[j as int].childKeywords@, keyword);
                    assert(keywords_view(sim[j as int].childKeywords@) =~= keywords_view(before[j as int].childKeywords@).push(kv));
                    assert(keyword_view(sim@[j as int]) == with_child(ov[j as int], ov[ki as int]));
                    assert(sim@ =~= before.update(j as int, sim@[j as int]));
                    lemma_view_update(before, j as int, sim@[j as int]);
                }
                let ghost mid = sim@;
                sim[ki].scope = newScope;
                proof {
                    assert(jv[line as int] == scopeJumps@[line as int]@);
                    assert(keyword_view(sim@[ki as int]) == with_scope(keywords_view(mid)[ki as int], jv[line as int]));
                    assert(sim@ =~= mid.update(ki as int, sim@[ki as int]));
                    lemma_view_update(mid, ki as int, sim@[ki as int]);
                }
            },
        }
        n = n + 1;
    }
    proof {
        assert(list@.subrange(n as int, list@.len() as int) =~= Seq::<usize>::empty());
    }
    true
}

/// Moves each keyword listed in `implKeywordIndex` into the block that holds it (see
/// `impl_step`), in order.
pub fn HandleKeywordIndexes(
    outline: &mut Vec<OutlineKeyword>,
    implKeywordIndex: Vec<usize>,
    scopeJumps: &[Vec<usize>],
    root: &ScopeNode,
)
    requires
        impl_steps(keywords_view(old(outline)@), implKeywordIndex@, jumps_view(scopeJumps@), *root) is Some,
    ensures
        Some(keywords_view(final(outline)@)) == impl_steps(keywords_view(old(outline)@), implKeywordIndex@,
            jumps_view(scopeJumps@), *root),
{
    let ghost jv = jumps_view(scopeJumps@);
    let ghost list = implKeywordIndex@;
    let ghost total = impl_steps(keywords_view(outline@), list, jv, *root);
    let mut n: usize = 0;
    proof {
        assert(list.subrange(0, list.len() as int) =~= list);
    }
    while n < implKeywordIndex.len()
        invariant
            n <= list.len(),
            list == implKeywordIndex@,
            jv == jumps_view(scopeJumps@),
            total is Some,
            impl_steps(keywords_view(outline@), list.subrange(n as int, list.len() as int), jv, *root) == total,
        decreases list.len() - n,
    {
        let ghost rest = list.subrange(n as int, list.len() as int);
        proof {
            assert(rest[0] == list[n as int]);
            assert(rest.drop_first() =~= list.subrange(n + 1, list.len() as int));
            lemma_keywords_view(outline@);
        }
        let ghost ov = keywords_view(outline@);
        let ki = implKeywordIndex[n];
        let s0 = outline[ki].scope[0];
        if root.children.len() < s0 {
            n = n + 1;
            continue;
        }
        let start = root.children[s0].start;
        let keyword = outline[ki].copy();
        match find_implementing(outline, start) {
            None => {},
            Some(j) => {
                proof {
                    assert(impl_step(ov, ki as int, jv, *root) is Some);
                    assert(ov[ki as int].scope[0] == s0);
                    assert(first_implementing(ov, start, 0) == Some(j as int));
                    assert(ov[j as int] == keyword_view(outline@[j as int]));
                    assert(ov[j as int].lineNumber < jv.len());
                }
                let line = outline[j].lineNumber;
                let newScope = copy_usizes(&scopeJumps[line]);
                let ghost before = outline@;
                let ghost kv = keyword@;
                outline[j].childKeywords.push(keyword);
                proof {
                    lemma_view_push(before[j as int].childKeywords@, keyword);
                    assert(keywords_view(outline[j as int].childKeywords@) =~= keywords_view(before[j as int].childKeywords@).push(kv));
                    assert(keyword_view(outline@[j as int]) == with_child(ov[j as int], ov[ki as int]));
                    assert(outline@ =~= before.update(j as int, outline@[j as int]));
                    lemma_view_update(before, j as int, outline@[j as int]);
                }
                let ghost mid = outline@;
                outline[ki].scope = newScope;
                proof {
                    assert(jv[line as int] == scopeJumps@[line as int]@);
                    assert(keyword_view(outline@[ki as int]) == with_scope(keywords_view(mid)[ki as int], jv[line as int]));
                    assert(outline@ =~= mid.update(ki as int, outline@[ki as int]));
                    lemma_view_update(mid, ki as int, outline@[ki as int]);
                }
            },
        }
        n = n + 1;
    }
    proof {
        assert(list.subrange(n as int, list.len() as int) =~= Seq::<usize>::empty());
    }
}

/// The first keyword from `k` on whose name is `name`.
pub open spec fn first_named(ov: Seq<KeywordView>, name: Seq<char>, k: int) -> Option<int>
    decreases ov.len() - k,
{
    if k < 0 || k >= ov.len() {
        None
    } else if ov[k].keyword@ == name {
        Some(k)
    } else {
        first_named(ov, name, k + 1)
    }
}

/// The outline once `line` is recorded as implementing the first keyword named `name`.
pub open spec fn impl_recorded(ov: Seq<KeywordView>, name: Option<Seq<char>>, line: usize) -> Seq<KeywordView> {
    match name {
        None => ov,
        Some(q) => match first_named(ov, q, 0) {
            None => ov,
            Some(j) => ov.update(j, with_impl_line(ov[j], line)),
        },
    }
}

/// Finds the first keyword named `name`.
fn find_named(outline: &Vec<OutlineKeyword>, name: &str) -> (j: Option<usize>)
    ensures
        match j {
            Some(x) => x < outline@.len() && first_named(keywords_view(outline@), name@, 0) == Some(x as int),
            None => first_named(keywords_view(outline@), name@, 0) is None,
        },
{
    let ghost ov = keywords_view(outline@);
    proof {
        lemma_keywords_view(outline@);
    }
    let mut i: usize = 0;
    while i < outline.len()
        invariant
            ov == keywords_view(outline@),
            ov.len() == outline@.len(),
            forall|t: int| 0 <= t < outline@.len() ==> #[trigger] ov[t] == keyword_view(outline@[t]),
            i <= outline@.len(),
            first_named(ov, name@, 0) == first_named(ov, name@, i as int),
        decreases outline@.len() - i,
    {
        if crate::text::str_equal(outline[i].keyword.as_str(), name) {
            proof {
                assert(ov[i as int].keyword@ == name@);
            }
            return Some(i);
        }
        i = i + 1;
    }
    None
}

/// Records `lineNumber` as implementing the first keyword named `queryName`, if any.
pub fn HandleGettingImpl(outline: &mut Vec<OutlineKeyword>, queryName: &Option<String>, lineNumber: usize)
    ensures
        keywords_view(final(outline)@) == impl_recorded(keywords_view(old(outline)@), match queryName {
            Some(q) => Some(q@),
            None => None,
        }, lineNumber),
{
    if let Some(q) = queryName {
        let ghost ov = keywords_view(outline@);
        proof {
            lemma_keywords_view(outline@);
        }
        if let Some(i) = find_named(outline, q.as_str()) {
            let ghost before = outline@;
            outline[i].implLines.push(lineNumber);
            proof {
                assert(keyword_view(outline@[i as int]) == with_impl_line(ov[i as int], lineNumber));
                assert(outline@ =~= before.update(i as int, outline@[i as int]));
                lemma_view_update(before, i as int, outline@[i as int]);
            }
        }
    }
}

/// The name an `impl` line implements: the first token typed as a function.
pub open spec fn impl_target(tokens: Seq<LuaTuple>, k: int) -> Option<Seq<char>>
    decreases tokens.len() - k,
{
    if k < 0 || k >= tokens.len() {
        None
    } else if tokens[k].token == TokenType::Function {
        Some(tokens[k].text@)
    } else {
        impl_target(tokens, k + 1)
    }
}

/// Finishes a line's definitions: a keyword the line declared is added to the outline;
/// otherwise, on an `impl` line, the line is recorded as implementing the item it names
/// (see `impl_target`).
pub fn HandleImpl(
    currentContainer: Option<OutlineKeyword>,
    outline: &mut Vec<OutlineKeyword>,
    tokens: &[LuaTuple],
    text: &str,
    lineNumber: usize,
)
    ensures
        match currentContainer {
            Some(c) => keywords_view(final(outline)@) == keywords_view(old(outline)@).push(keyword_view(c)),
            None => keywords_view(final(outline)@) == if contains_seq(text@, "impl"@) {
                impl_recorded(keywords_view(old(outline)@), impl_target(tokens@, 0), lineNumber)
            } else {
                keywords_view(old(outline)@)
            },
        },
{
    match currentContainer {
        Some(container) => {
            let ghost before = outline@;
            outline.push(container);
            proof {
                lemma_view_push(before, outline@.last());
            }
        },
        None => {
            proof {
                reveal_strlit("impl");
            }
            if str_contains(text, "impl") {
                let mut queryName: Option<String> = None;
                let mut index: usize = tokens.len();
                while index > 0
                    invariant
                        index <= tokens@.len(),
                        match queryName {
                            Some(q) => impl_target(tokens@, index as int) == Some(q@),
                            None => impl_target(tokens@, index as int) is None,
                        },
                    decreases index,
                {
                    index = index - 1;
                    if tokens[index].token == TokenType::Function {
                        queryName = Some(tokens[index].text.clone());
                    }
                }
                HandleGettingImpl(outline, &queryName, lineNumber);
            }
        },
    }
}

} // verus!
