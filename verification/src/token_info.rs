//! Token, outline and scope data shared by the tokenizer, the linters and the editor.
use vstd::prelude::*;

verus! {

/// The syntax category of a token.
#[derive(Debug, Clone, Copy, PartialEq, Eq, Structural, Hash)]
pub enum TokenType {
    Bracket,
    SquirlyBracket,
    Parentheses,
    Variable,
    Member,
    Object,
    Function,
    Method,
    Number,
    Logic,
    Math,
    Assignment,
    Endl,
    Macro,
    Const,
    Barrow,
    Lifetime,
    String,
    Comment,
    Null,
    Primitive,
    Keyword,
    CommentLong,
    Unsafe,
    Grayed,
}

impl Default for TokenType {
    fn default() -> (t: TokenType)
        ensures
            t == TokenType::Null,
    {
        TokenType::Null
    }
}

/// The token type a highlighting script names; an unknown name is `Null`.
pub open spec fn token_type_named(name: Seq<char>) -> TokenType {
    if name == "Bracket"@ {
        TokenType::Bracket
    } else if name == "SquirlyBracket"@ {
        TokenType::SquirlyBracket
    } else if name == "Parentheses"@ {
        TokenType::Parentheses
    } else if name == "Variable"@ {
        TokenType::Variable
    } else if name == "Member"@ {
        TokenType::Member
    } else if name == "Object"@ {
        TokenType::Object
    } else if name == "Function"@ {
        TokenType::Function
    } else if name == "Method"@ {
        TokenType::Method
    } else if name == "Number"@ {
        TokenType::Number
    } else if name == "Logic"@ {
        TokenType::Logic
    } else if name == "Math"@ {
        TokenType::Math
    } else if name == "Assignment"@ {
        TokenType::Assignment
    } else if name == "Endl"@ {
        TokenType::Endl
    } else if name == "Macro"@ {
        TokenType::Macro
    } else if name == "Const"@ {
        TokenType::Const
    } else if name == "Barrow"@ {
        TokenType::Barrow
    } else if name == "Lifetime"@ {
        TokenType::Lifetime
    } else if name == "String"@ {
        TokenType::String
    } else if name == "Comment"@ {
        TokenType::Comment
    } else if name == "Primitive"@ {
        TokenType::Primitive
    } else if name == "Keyword"@ {
        TokenType::Keyword
    } else if name == "CommentLong"@ {
        TokenType::CommentLong
    } else if name == "Unsafe"@ {
        TokenType::Unsafe
    } else if name == "Grayed"@ {
        TokenType::Grayed
    } else {
        TokenType::Null
    }
}

/// The token type a highlighting script names (see `token_type_named`).
pub fn TokenTypeNamed(name: &str) -> (t: TokenType)
    ensures
        t == token_type_named(name@),
{
    if crate::text::str_equal(name, "Bracket") {
        TokenType::Bracket
    } else if crate::text::str_equal(name, "SquirlyBracket") {
        TokenType::SquirlyBracket
    } else if crate::text::str_equal(name, "Parentheses") {
        TokenType::Parentheses
    } else if crate::text::str_equal(name, "Variable") {
        TokenType::Variable
    } else if crate::text::str_equal(name, "Member") {
        TokenType::Member
    } else if crate::text::str_equal(name, "Object") {
        TokenType::Object
    } else if crate::text::str_equal(name, "Function") {
        TokenType::Function
    } else if crate::text::str_equal(name, "Method") {
        TokenType::Method
    } else if crate::text::str_equal(name, "Number") {
        TokenType::Number
    } else if crate::text::str_equal(name, "Logic") {
        TokenType::Logic
    } else if crate::text::str_equal(name, "Math") {
        TokenType::Math
    } else if crate::text::str_equal(name, "Assignment") {
        TokenType::Assignment
    } else if crate::text::str_equal(name, "Endl") {
        TokenType::Endl
    } else if crate::text::str_equal(name, "Macro") {
        TokenType::Macro
    } else if crate::text::str_equal(name, "Const") {
        TokenType::Const
    } else if crate::text::str_equal(name, "Barrow") {
        TokenType::Barrow
    } else if crate::text::str_equal(name, "Lifetime") {
        TokenType::Lifetime
    } else if crate::text::str_equal(name, "String") {
        TokenType::String
    } else if crate::text::str_equal(name, "Comment") {
        TokenType::Comment
    } else if crate::text::str_equal(name, "Primitive") {
        TokenType::Primitive
    } else if crate::text::str_equal(name, "Keyword") {
        TokenType::Keyword
    } else if crate::text::str_equal(name, "CommentLong") {
        TokenType::CommentLong
    } else if crate::text::str_equal(name, "Unsafe") {
        TokenType::Unsafe
    } else if crate::text::str_equal(name, "Grayed") {
        TokenType::Grayed
    } else {
        TokenType::Null
    }
}

/// A token: its category and its text.
#[derive(Debug)]
pub struct LuaTuple {
    pub token: TokenType,
    pub text: String,
}

impl Clone for LuaTuple {
    fn clone(&self) -> (res: Self)
        ensures
            res == *self,
    {
        LuaTuple { token: self.token, text: self.text.clone() }
    }
}

impl Default for LuaTuple {
    fn default() -> (t: LuaTuple)
        ensures
            t.token == TokenType::Null,
            t.text@ == Seq::<char>::empty(),
    {
        LuaTuple { token: TokenType::Null, text: String::new() }
    }
}

/// The open constructs that a token sits inside of.
#[derive(Debug, Clone, Copy, PartialEq, Eq, Structural)]
pub enum LineTokenFlags {
    Comment,
    Parameter,
    Generic,
    List,
    String,
}

/// The kind of item an outline keyword names.
#[derive(Debug, Clone, Copy, PartialEq, Eq, Structural)]
pub enum OutlineType {
    Variable,
    Struct,
    Enum,
    Variant,
    Function,
    Member,
    Generic,
    Lifetime,
    Mod,
}

/// An item of the code outline (variables, types, functions and their members).
#[derive(Debug)]
pub struct OutlineKeyword {
    pub keyword: String,
    pub kwType: OutlineType,
    pub typedType: Option<String>,
    pub resultType: Option<String>,
    pub childKeywords: Vec<OutlineKeyword>,
    pub scope: Vec<usize>,
    pub public: Option<bool>,
    pub mutable: bool,
    pub parameters: Option<Vec<(String, Option<String>)>>,
    pub lineNumber: usize,
    pub implLines: Vec<usize>,
}

pub fn clone_option_string(s: &Option<String>) -> (res: Option<String>)
    ensures
        res == *s,
{
    match s {
        Some(text) => Some(text.clone()),
        None => None,
    }
}

pub fn clone_usizes(v: &Vec<usize>) -> (res: Vec<usize>)
    ensures
        res@ == v@,
{
    let mut out: Vec<usize> = Vec::new();
    let mut i: usize = 0;
    while i < v.len()
        invariant
            i <= v@.len(),
            out@ == v@.subrange(0, i as int),
        decreases v@.len() - i,
    {
        out.push(v[i]);
        i = i + 1;
    }
    proof {
        assert(v@.subrange(0, v@.len() as int) =~= v@);
    }
    out
}

pub fn clone_parameters(p: &Option<Vec<(String, Option<String>)>>) -> (res: Option<
    Vec<(String, Option<String>)>,
>)
    ensures
        res matches Some(r) ==> p matches Some(q) && r@ == q@,
        res is None <==> p is None,
{
    match p {
        None => None,
        Some(params) => {
            let mut out: Vec<(String, Option<String>)> = Vec::new();
            let mut i: usize = 0;
            while i < params.len()
                invariant
                    i <= params@.len(),
                    out@ == params@.subrange(0, i as int),
                decreases params@.len() - i,
            {
                let item = (params[i].0.clone(), clone_option_string(&params[i].1));
                out.push(item);
                i = i + 1;
            }
            proof {
                assert(params@.subrange(0, params@.len() as int) =~= params@);
            }
            Some(out)
        },
    }
}

/// The contents of an outline keyword, with its child keywords taken by their contents too.
pub struct KeywordView {
    pub keyword: String,
    pub kwType: OutlineType,
    pub typedType: Option<String>,
    pub resultType: Option<String>,
    pub childKeywords: Seq<KeywordView>,
    pub scope: Seq<usize>,
    pub public: Option<bool>,
    pub mutable: bool,
    pub parameters: Option<Seq<(String, Option<String>)>>,
    pub lineNumber: usize,
    pub implLines: Seq<usize>,
}

pub open spec fn parameters_view(p: Option<Vec<(String, Option<String>)>>) -> Option<
    Seq<(String, Option<String>)>,
> {
    match p {
        Some(v) => Some(v@),
        None => None,
    }
}

pub open spec fn keyword_view(k: OutlineKeyword) -> KeywordView
    decreases k,
{
    KeywordView {
        keyword: k.keyword,
        kwType: k.kwType,
        typedType: k.typedType,
        resultType: k.resultType,
        childKeywords: keywords_view(k.childKeywords@),
        scope: k.scope@,
        public: k.public,
        mutable: k.mutable,
        parameters: parameters_view(k.parameters),
        lineNumber: k.lineNumber,
        implLines: k.implLines@,
    }
}

pub open spec fn keywords_view(s: Seq<OutlineKeyword>) -> Seq<KeywordView>
    decreases s,
{
    if s.len() == 0 {
        Seq::empty()
    } else {
        keywords_view(s.drop_last()).push(keyword_view(s.last()))
    }
}

pub proof fn lemma_keywords_view(s: Seq<OutlineKeyword>)
    ensures
        keywords_view(s).len() == s.len(),
        forall|i: int| 0 <= i < s.len() ==> #[trigger] keywords_view(s)[i] == keyword_view(s[i]),
    decreases s.len(),
{
    if s.len() > 0 {
        lemma_keywords_view(s.drop_last());
        assert forall|i: int| 0 <= i < s.len() implies #[trigger] keywords_view(s)[i]
            == keyword_view(s[i]) by {
            if i < s.len() - 1 {
                assert(s.drop_last()[i] == s[i]);
            }
        }
    }
}

/// Two keyword lists with equal contents have equal views.
pub proof fn lemma_keywords_view_ext(a: Seq<OutlineKeyword>, b: Seq<OutlineKeyword>)
    requires
        a.len() == b.len(),
        forall|i: int| 0 <= i < a.len() ==> keyword_view(#[trigger] a[i]) == keyword_view(b[i]),
    ensures
        keywords_view(a) == keywords_view(b),
{
    lemma_keywords_view(a);
    lemma_keywords_view(b);
    assert(keywords_view(a) =~= keywords_view(b));
}

impl View for OutlineKeyword {
    type V = KeywordView;

    open spec fn view(&self) -> KeywordView {
        keyword_view(*self)
    }
}

impl OutlineKeyword {
    /// A deep copy of the keyword.
    pub fn copy(&self) -> (res: OutlineKeyword)
        ensures
            res@ == self@,
        decreases self,
    {
        let mut children: Vec<OutlineKeyword> = Vec::new();
        let mut i: usize = 0;
        while i < self.childKeywords.len()
            invariant
                i <= self.childKeywords@.len(),
                children@.len() == i,
                forall|k: int|
                    0 <= k < i ==> keyword_view(#[trigger] children@[k]) == keyword_view(
                        self.childKeywords@[k],
                    ),
            decreases self.childKeywords@.len() - i,
        {
            let child = self.childKeywords[i].copy();
            children.push(child);
            i = i + 1;
        }
        proof {
            lemma_keywords_view_ext(children@, self.childKeywords@);
        }
        let params = clone_parameters(&self.parameters);
        let res = OutlineKeyword {
            keyword: self.keyword.clone(),
            kwType: self.kwType,
            typedType: clone_option_string(&self.typedType),
            resultType: clone_option_string(&self.resultType),
            childKeywords: children,
            scope: clone_usizes(&self.scope),
            public: self.public,
            mutable: self.mutable,
            parameters: params,
            lineNumber: self.lineNumber,
            implLines: clone_usizes(&self.implLines),
        };
        proof {
            assert(parameters_view(res.parameters) == parameters_view(self.parameters));
        }
        res
    }
}

/// Does a keyword with scope `kw_scope` apply inside `scope`? Keywords without a scope apply
/// everywhere; others apply where the scope starts with theirs.
pub open spec fn scope_applies(kw_scope: Seq<usize>, scope: Seq<usize>) -> bool {
    kw_scope.len() == 0 || (kw_scope.len() <= scope.len() && scope.subrange(
        0,
        kw_scope.len() as int,
    ) == kw_scope)
}

/// The views of the keywords, in order, that apply inside `scope`.
pub open spec fn scoped_keywords(s: Seq<OutlineKeyword>, scope: Seq<usize>) -> Seq<KeywordView>
    decreases s.len(),
{
    if s.len() == 0 {
        Seq::empty()
    } else if scope_applies(s.last().scope@, scope) {
        scoped_keywords(s.drop_last(), scope).push(s.last()@)
    } else {
        scoped_keywords(s.drop_last(), scope)
    }
}

/// The views of the keywords, in order, whose name is `name`.
pub open spec fn keywords_named(s: Seq<OutlineKeyword>, name: Seq<char>) -> Seq<KeywordView>
    decreases s.len(),
{
    if s.len() == 0 {
        Seq::empty()
    } else if s.last().keyword@ == name {
        keywords_named(s.drop_last(), name).push(s.last()@)
    } else {
        keywords_named(s.drop_last(), name)
    }
}

/// The position of the first keyword on `line`, if any.
pub open spec fn is_first_on_line(s: Seq<OutlineKeyword>, line: usize, i: int) -> bool {
    0 <= i < s.len() && s[i].lineNumber == line && forall|j: int|
        0 <= j < i ==> s[j].lineNumber != line
}

/// The position of the first keyword named `name`, if any.
pub open spec fn is_first_named(s: Seq<OutlineKeyword>, name: Seq<char>, i: int) -> bool {
    0 <= i < s.len() && s[i].keyword@ == name && forall|j: int|
        0 <= j < i ==> s[j].keyword@ != name
}

/// The scope a keyword on the edited line receives: functions, enums and structs sit one
/// scope outside of the one their line opens.
pub open spec fn edited_scope(kind: OutlineType, scope: Seq<usize>) -> Seq<usize> {
    if (kind == OutlineType::Function || kind == OutlineType::Enum || kind == OutlineType::Struct)
        && scope.len() > 0 {
        scope.drop_last()
    } else {
        scope
    }
}

/// `b` is `a` with only its scope changed.
pub open spec fn same_but_scope(a: OutlineKeyword, b: OutlineKeyword) -> bool {
    &&& a.keyword == b.keyword
    &&& a.kwType == b.kwType
    &&& a.typedType == b.typedType
    &&& a.resultType == b.resultType
    &&& a.childKeywords == b.childKeywords
    &&& a.public == b.public
    &&& a.mutable == b.mutable
    &&& a.parameters == b.parameters
    &&& a.lineNumber == b.lineNumber
    &&& a.implLines == b.implLines
}

/// `new` is `old` with the first keyword declared on `line` (if any) given the scope that
/// `scope` leads to (see `edited_scope`), and nothing else changed.
pub open spec fn scopes_edited(old: Seq<OutlineKeyword>, new: Seq<OutlineKeyword>, scope: Seq<usize>, line: usize) -> bool {
    &&& new.len() == old.len()
    &&& (forall|i: int| !is_first_on_line(old, line, i)) ==> new == old
    &&& forall|i: int|
        is_first_on_line(old, line, i) ==> {
            &&& forall|j: int| 0 <= j < old.len() && j != i ==> new[j] == old[j]
            &&& same_but_scope(old[i], new[i])
            &&& new[i].scope@ == edited_scope(old[i].kwType, scope)
        }
}

impl OutlineKeyword {
    /// Gives the first keyword declared on `lineNumber` the scope of that line.
    pub fn EditScopes(outline: &mut Vec<OutlineKeyword>, scope: &[usize], lineNumber: usize)
        ensures
            final(outline)@.len() == old(outline)@.len(),
            (forall|i: int| !is_first_on_line(old(outline)@, lineNumber, i)) ==> final(outline)@
                == old(outline)@,
            forall|i: int|
                is_first_on_line(old(outline)@, lineNumber, i) ==> {
                    &&& forall|j: int|
                        0 <= j < old(outline)@.len() && j != i ==> final(outline)@[j] == old(
                            outline,
                        )@[j]
                    &&& same_but_scope(old(outline)@[i], final(outline)@[i])
                    &&& final(outline)@[i].scope@ == edited_scope(
                        old(outline)@[i].kwType,
                        scope@,
                    )
                },
            scopes_edited(old(outline)@, final(outline)@, scope@, lineNumber),
    {
        let mut i: usize = 0;
        while i < outline.len()
            invariant
                outline@ == old(outline)@,
                i <= outline@.len(),
                forall|j: int| 0 <= j < i ==> outline@[j].lineNumber != lineNumber,
            decreases outline@.len() - i,
        {
            if outline[i].lineNumber == lineNumber {
                let mut new_scope: Vec<usize> = Vec::new();
                let mut k: usize = 0;
                while k < scope.len()
                    invariant
                        k <= scope@.len(),
                        new_scope@ == scope@.subrange(0, k as int),
                    decreases scope@.len() - k,
                {
                    new_scope.push(scope[k]);
                    k = k + 1;
                }
                proof {
                    assert(scope@.subrange(0, scope@.len() as int) =~= scope@);
                }
                let kind = outline[i].kwType;
                if (kind == OutlineType::Function || kind == OutlineType::Enum || kind
                    == OutlineType::Struct) && new_scope.len() > 0 {
                    new_scope.pop();
                }
                outline[i].scope = new_scope;
                proof {
                    assert(is_first_on_line(old(outline)@, lineNumber, i as int));
                    assert forall|t: int| is_first_on_line(old(outline)@, lineNumber, t) implies t
                        == i by {
                        if t < i {
                        } else if t > i {
                            assert(old(outline)@[i as int].lineNumber == lineNumber);
                        }
                    }
                }
                return ;
            }
            i = i + 1;
        }
    }

    /// The keywords that apply inside `scope`, in order.
    pub fn GetValidScoped(outline: &Vec<OutlineKeyword>, scope: &Vec<usize>) -> (valid: Vec<
        OutlineKeyword,
    >)
        ensures
            keywords_view(valid@) == scoped_keywords(outline@, scope@),
    {
        let mut valid: Vec<OutlineKeyword> = Vec::new();
        let mut i: usize = 0;
        while i < outline.len()
            invariant
                i <= outline@.len(),
                keywords_view(valid@) == scoped_keywords(outline@.subrange(0, i as int), scope@),
            decreases outline@.len() - i,
        {
            let applies = scope_starts_with(&outline[i].scope, scope);
            proof {
                let pre = outline@.subrange(0, i as int + 1);
                assert(pre.drop_last() =~= outline@.subrange(0, i as int));
                assert(pre.last() == outline@[i as int]);
            }
            if applies {
                let kw = outline[i].copy();
                let ghost before = valid@;
                valid.push(kw);
                proof {
                    assert(valid@.drop_last() == before);
                }
            }
            i = i + 1;
        }
        proof {
            assert(outline@.subrange(0, outline@.len() as int) =~= outline@);
        }
        valid
    }

    /// The first keyword named `queryWord`, if any.
    pub fn TryFindKeyword(outline: &Vec<OutlineKeyword>, queryWord: String) -> (found: Option<
        OutlineKeyword,
    >)
        ensures
            found is None <==> forall|i: int|
                0 <= i < outline@.len() ==> outline@[i].keyword@ != queryWord@,
            found matches Some(k) ==> exists|i: int|
                is_first_named(outline@, queryWord@, i) && k@ == outline@[i]@,
    {
        let mut i: usize = 0;
        while i < outline.len()
            invariant
                i <= outline@.len(),
                forall|j: int| 0 <= j < i ==> outline@[j].keyword@ != queryWord@,
            decreases outline@.len() - i,
        {
            if queryWord == outline[i].keyword {
                let k = outline[i].copy();
                proof {
                    assert(is_first_named(outline@, queryWord@, i as int));
                }
                return Some(k);
            }
            i = i + 1;
        }
        None
    }

    /// All keywords named `queryWord`, in order.
    pub fn TryFindKeywords(outline: &Vec<OutlineKeyword>, queryWord: String) -> (found: Vec<
        OutlineKeyword,
    >)
        ensures
            keywords_view(found@) == keywords_named(outline@, queryWord@),
    {
        let mut found: Vec<OutlineKeyword> = Vec::new();
        let mut i: usize = 0;
        while i < outline.len()
            invariant
                i <= outline@.len(),
                keywords_view(found@) == keywords_named(outline@.subrange(0, i as int), queryWord@),
            decreases outline@.len() - i,
        {
            proof {
                let pre = outline@.subrange(0, i as int + 1);
                assert(pre.drop_last() =~= outline@.subrange(0, i as int));
                assert(pre.last() == outline@[i as int]);
            }
            if queryWord == outline[i].keyword {
                let kw = outline[i].copy();
                let ghost before = found@;
                found.push(kw);
                proof {
                    assert(found@.drop_last() == before);
                }
            }
            i = i + 1;
        }
        proof {
            assert(outline@.subrange(0, outline@.len() as int) =~= outline@);
        }
        found
    }
}

/// Does `scope` start with `prefix`? (An empty prefix always applies.)
pub fn scope_starts_with(prefix: &Vec<usize>, scope: &Vec<usize>) -> (b: bool)
    ensures
        b == scope_applies(prefix@, scope@),
{
    if prefix.len() == 0 {
        return true;
    }
    if prefix.len() > scope.len() {
        return false;
    }
    let mut i: usize = 0;
    while i < prefix.len()
        invariant
            prefix@.len() <= scope@.len(),
            i <= prefix@.len(),
            forall|j: int| 0 <= j < i ==> scope@[j] == prefix@[j],
        decreases prefix@.len() - i,
    {
        if prefix[i] != scope[i] {
            proof {
                assert(scope@.subrange(0, prefix@.len() as int)[i as int] != prefix@[i as int]);
            }
            return false;
        }
        i = i + 1;
    }
    proof {
        assert(scope@.subrange(0, prefix@.len() as int) =~= prefix@);
    }
    true
}

/// A node of the scope tree: a named range of lines with nested scopes.
#[derive(Debug)]
pub struct ScopeNode {
    pub children: Vec<ScopeNode>,
    pub name: String,
    pub start: usize,
    pub end: usize,
}

impl Default for ScopeNode {
    fn default() -> (node: ScopeNode)
        ensures
            node.children@.len() == 0,
            node.name@ == Seq::<char>::empty(),
            node.start == 0,
            node.end == 0,
    {
        ScopeNode { children: Vec::new(), name: String::new(), start: 0, end: 0 }
    }
}

/// The node reached by following `path` from its last index to its first; the walk stops at
/// the first index that names no child.
pub open spec fn node_at(n: ScopeNode, path: Seq<usize>) -> ScopeNode
    decreases path.len(),
{
    if path.len() == 0 {
        n
    } else if path.last() < n.children@.len() {
        node_at(n.children@[path.last() as int], path.drop_last())
    } else {
        n
    }
}

/// What is left of `path` once that walk stops.
pub open spec fn path_left(n: ScopeNode, path: Seq<usize>) -> Seq<usize>
    decreases path.len(),
{
    if path.len() == 0 {
        path
    } else if path.last() < n.children@.len() {
        path_left(n.children@[path.last() as int], path.drop_last())
    } else {
        path.drop_last()
    }
}

/// Every index of `path` (read from the end) names a child.
pub open spec fn valid_path(n: ScopeNode, path: Seq<usize>) -> bool
    decreases path.len(),
{
    path.len() == 0 || (path.last() < n.children@.len() && valid_path(
        n.children@[path.last() as int],
        path.drop_last(),
    ))
}

/// `new` is `old` with a fresh leaf (named `name`, starting at `start`, ending at 0) appended
/// to the children of the node that `path` leads to.
pub open spec fn pushed_at(
    old: ScopeNode,
    new: ScopeNode,
    path: Seq<usize>,
    name: String,
    start: usize,
) -> bool
    decreases path.len(),
{
    &&& new.name == old.name
    &&& new.start == old.start
    &&& new.end == old.end
    &&& if path.len() == 0 {
        &&& new.children@.len() == old.children@.len() + 1
        &&& new.children@.subrange(0, old.children@.len() as int) == old.children@
        &&& new.children@.last().children@.len() == 0
        &&& new.children@.last().name == name
        &&& new.children@.last().start == start
        &&& new.children@.last().end == 0
    } else {
        let i = path.last() as int;
        &&& i < old.children@.len()
        &&& new.children@.len() == old.children@.len()
        &&& forall|k: int| 0 <= k < old.children@.len() && k != i ==> new.children@[k] == old.children@[k]
        &&& pushed_at(old.children@[i], new.children@[i], path.drop_last(), name, start)
    }
}

/// `new` is `old` with the end of the node that `path` leads to set to `end`.
pub open spec fn end_set_at(old: ScopeNode, new: ScopeNode, path: Seq<usize>, end: usize) -> bool
    decreases path.len(),
{
    &&& new.name == old.name
    &&& new.start == old.start
    &&& if path.len() == 0 {
        &&& new.end == end
        &&& new.children == old.children
    } else {
        let i = path.last() as int;
        &&& new.end == old.end
        &&& i < old.children@.len()
        &&& new.children@.len() == old.children@.len()
        &&& forall|k: int| 0 <= k < old.children@.len() && k != i ==> new.children@[k] == old.children@[k]
        &&& end_set_at(old.children@[i], new.children@[i], path.drop_last(), end)
    }
}

impl ScopeNode {
    /// Follows `scope` (popping indices from its end) down the tree and returns the node reached.
    pub fn GetNode(&self, scope: &mut Vec<usize>) -> (node: &ScopeNode)
        ensures
            *node == node_at(*self, old(scope)@),
            final(scope)@ == path_left(*self, old(scope)@),
        decreases old(scope)@.len(),
    {
        let index = scope.pop();
        match index {
            None => self,
            Some(i) => {
                if i < self.children.len() {
                    self.children[i].GetNode(scope)
                } else {
                    self
                }
            },
        }
    }

    /// Appends a new scope named `name` starting at `start` under the node `scope` leads to,
    /// and returns its index among that node's children.
    pub fn Push(&mut self, scope: &mut Vec<usize>, name: String, start: usize) -> (index: usize)
        requires
            valid_path(*old(self), old(scope)@),
        ensures
            pushed_at(*old(self), *final(self), old(scope)@, name, start),
            index == node_at(*old(self), old(scope)@).children@.len(),
            final(scope)@.len() == 0,
        decreases old(scope)@.len(),
    {
        let index = scope.pop();
        match index {
            None => {
                let ghost before = self.children@;
                self.children.push(ScopeNode { children: Vec::new(), name, start, end: 0 });
                proof {
                    assert(self.children@.subrange(0, before.len() as int) =~= before);
                }
                self.children.len() - 1
            },
            Some(i) => self.children[i].Push(scope, name, start),
        }
    }

    /// Sets the end line of the node `scope` leads to.
    pub fn SetEnd(&mut self, scope: &mut Vec<usize>, end: usize)
        requires
            valid_path(*old(self), old(scope)@),
        ensures
            end_set_at(*old(self), *final(self), old(scope)@, end),
            final(scope)@.len() == 0,
        decreases old(scope)@.len(),
    {
        let index = scope.pop();
        match index {
            None => {
                self.end = end;
            },
            Some(i) => {
                self.children[i].SetEnd(scope, end);
            },
        }
    }
}

} // verus!
