//! Language support: each language's linter builds a file's scopes and outline through one
//! interface, and the file's ending picks the linter.
use vstd::prelude::*;
use crate::token_info::{LuaTuple, LineTokenFlags, OutlineKeyword, ScopeNode};
use crate::tokens::{language_of, Languages, LanguageOf};
use crate::rust_defs::{Rust, rust_generated, flags_padded, passes_then};

verus! {

/// A language's linter: from a file's token lines and the flags of each token it builds
/// the scope tree, the scope of each line and the scopes in order, and updates the outline.
pub trait LanguageLinterInterface {
    /// The inputs the linter works on.
    spec fn lintable(
        tokenLines: Seq<Vec<LuaTuple>>,
        lineFlags: Seq<Vec<Vec<LineTokenFlags>>>,
        outline: Seq<OutlineKeyword>,
    ) -> bool;

    fn GenerateScopes(
        tokenLines: &Vec<Vec<LuaTuple>>,
        lineFlags: &Vec<Vec<Vec<LineTokenFlags>>>,
        outlineOriginal: &mut Vec<OutlineKeyword>,
    ) -> (res: (ScopeNode, Vec<Vec<usize>>, Vec<Vec<usize>>))
        requires
            Self::lintable(tokenLines@, lineFlags@, old(outlineOriginal)@),
    ;
}

/// Builds the scopes of a file with the linter of its ending `fileType`: Rust files with
/// the Rust linter (see `rust_generated`); for other endings there is no linter, and the
/// result is an empty root with no line scopes, the outline untouched.
pub fn GenerateScopes(
    tokenLines: &Vec<Vec<LuaTuple>>,
    lineFlags: &Vec<Vec<Vec<LineTokenFlags>>>,
    outline: &mut Vec<OutlineKeyword>,
    fileType: &str,
) -> (res: (ScopeNode, Vec<Vec<usize>>, Vec<Vec<usize>>))
    requires
        language_of(fileType@) == Some(Languages::Rust) ==> Rust::lintable(tokenLines@, lineFlags@, old(outline)@),
    ensures
        language_of(fileType@) == Some(Languages::Rust) ==> rust_generated(tokenLines@, lineFlags@, old(outline)@, final(outline)@, res),
        language_of(fileType@) != Some(Languages::Rust) ==> {
            &&& res.0.children@.len() == 0
            &&& res.0.name@.len() == 0
            &&& res.0.start == 0
            &&& res.0.end == 0
            &&& res.1@.len() == 0
            &&& res.2@.len() == 0
            &&& final(outline)@ == old(outline)@
        },
{
    let language = LanguageOf(fileType);
    if language == Languages::Rust {
        <Rust as LanguageLinterInterface>::GenerateScopes(tokenLines, lineFlags, outline)
    } else {
        (ScopeNode { children: Vec::new(), name: String::new(), start: 0, end: 0 }, Vec::new(), Vec::new())
    }
}

/// `GenerateScopes` without its precondition on the last pass (see
/// `Rust::GenerateScopesChecked`): for a Rust file, none exactly when that pass would go out
/// of range; for other endings, an empty root with no line scopes and the outline untouched.
pub fn GenerateScopesChecked(
    tokenLines: &Vec<Vec<LuaTuple>>,
    lineFlags: &Vec<Vec<Vec<LineTokenFlags>>>,
    outline: &mut Vec<OutlineKeyword>,
    fileType: &str,
) -> (res: Option<(ScopeNode, Vec<Vec<usize>>, Vec<Vec<usize>>)>)
    requires
        forall|l: int| 0 <= l < tokenLines@.len() ==> #[trigger] tokenLines@[l]@.len() < isize::MAX,
    ensures
        language_of(fileType@) == Some(Languages::Rust) ==> exists|padded: Seq<Vec<Vec<LineTokenFlags>>>|
            #[trigger] flags_padded(tokenLines@, lineFlags@, padded) && passes_then(
                tokenLines@,
                padded,
                old(outline)@,
                final(outline)@,
                res,
            ),
        language_of(fileType@) != Some(Languages::Rust) ==> {
            &&& res is Some
            &&& res.unwrap().0.children@.len() == 0
            &&& res.unwrap().0.name@.len() == 0
            &&& res.unwrap().0.start == 0
            &&& res.unwrap().0.end == 0
            &&& res.unwrap().1@.len() == 0
            &&& res.unwrap().2@.len() == 0
            &&& final(outline)@ == old(outline)@
        },
{
    let language = LanguageOf(fileType);
    if language == Languages::Rust {
        Rust::GenerateScopesChecked(tokenLines, lineFlags, outline)
    } else {
        Some((ScopeNode { children: Vec::new(), name: String::new(), start: 0, end: 0 }, Vec::new(), Vec::new()))
    }
}

} // verus!
