//! The syntax-highlighting configuration: a JSON text that lists the highlighting scripts
//! (`scripts`) and, at the same places, the file endings they are for (`file_ending`).
use vstd::prelude::*;
use crate::tokens::{language_of, Languages, FindLanguage};

verus! {

/// What `serde_json` reads from `text` for the entry `key`: none when the text is not
/// JSON, has no entry `key` or the entry is not an array; else each item of the array, as
/// its text when it is a string.
pub uninterp spec fn json_string_array(text: Seq<char>, key: Seq<char>) -> Option<Seq<Option<Seq<char>>>>;

/// The texts of optional strings.
pub open spec fn opt_texts(v: Seq<Option<String>>) -> Seq<Option<Seq<char>>> {
    v.map_values(
        |o: Option<String>|
            match o {
                Some(s) => Some(s@),
                None => None,
            },
    )
}

/// `serde_json::from_str` into a `serde_json::Value`, then `get(key)`, `as_array` and
/// `as_str` on each item. Claimed: the result is `json_string_array` of the text and key,
/// which depends on them alone (parsing involves no state, time or machine).
#[verifier::external_body]
fn JsonStringArray(text: &str, key: &str) -> (r: Option<Vec<Option<String>>>)
    ensures
        match r {
            Some(v) => json_string_array(text@, key@) == Some(opt_texts(v@)),
            None => json_string_array(text@, key@) is None,
        },
{
    let value: serde_json::Value = serde_json::from_str(text).ok()?;
    let items = value.get(key)?.as_array()?;
    let mut out = Vec::new();
    for item in items {
        out.push(item.as_str().map(|s| s.to_string()));
    }
    Some(out)
}

/// The scripts among the first `k` items with their languages: item `i` counts when both
/// it and ending `i` are strings and the ending names a language.
pub open spec fn script_pairs(scripts: Seq<Option<Seq<char>>>, endings: Seq<Option<Seq<char>>>, k: int) -> Seq<
    (Languages, Seq<char>),
>
    decreases k,
{
    if k <= 0 {
        Seq::empty()
    } else {
        let i = k - 1;
        let before = script_pairs(scripts, endings, i);
        if i < scripts.len() && i < endings.len() && scripts[i] is Some && endings[i] is Some && language_of(
            endings[i].unwrap(),
        ) is Some {
            before.push((language_of(endings[i].unwrap()).unwrap(), scripts[i].unwrap()))
        } else {
            before
        }
    }
}

/// The scripts the configuration `text` lists, each with the language of its ending, in
/// order; none when either list is missing.
pub open spec fn syntax_scripts(text: Seq<char>) -> Seq<(Languages, Seq<char>)> {
    match (json_string_array(text, "scripts"@), json_string_array(text, "file_ending"@)) {
        (Some(s), Some(e)) => script_pairs(s, e, s.len() as int),
        _ => Seq::empty(),
    }
}

/// The highlighting scripts that the configuration `json` lists, each with the language
/// of its file ending (see `syntax_scripts`); a script whose ending is not a string or
/// names no language is left out.
pub fn SyntaxScripts(json: &str) -> (s: Vec<(Languages, String)>)
    ensures
        s@.map_values(|p: (Languages, String)| (p.0, p.1@)) == syntax_scripts(json@),
{
    let scripts = JsonStringArray(json, "scripts");
    let endings = JsonStringArray(json, "file_ending");
    let mut out: Vec<(Languages, String)> = Vec::new();
    proof {
        assert(out@.map_values(|p: (Languages, String)| (p.0, p.1@)) =~= Seq::<(Languages, Seq<char>)>::empty());
    }
    match (scripts, endings) {
        (Some(scripts), Some(endings)) => {
            let ghost s = opt_texts(scripts@);
            let ghost e = opt_texts(endings@);
            let mut i: usize = 0;
            while i < scripts.len()
                invariant
                    i <= scripts@.len(),
                    s == opt_texts(scripts@),
                    e == opt_texts(endings@),
                    out@.map_values(|p: (Languages, String)| (p.0, p.1@)) == script_pairs(s, e, i as int),
                decreases scripts@.len() - i,
            {
                let ghost before = out@;
                if i < endings.len() {
                    match (&scripts[i], &endings[i]) {
                        (Some(script), Some(ending)) => {
                            match FindLanguage(ending.as_str()) {
                                Some(lang) => {
                                    out.push((lang, script.clone()));
                                    proof {
                                        assert(out@.map_values(|p: (Languages, String)| (p.0, p.1@)) =~= before.map_values(
                                            |p: (Languages, String)| (p.0, p.1@),
                                        ).push((lang, script@)));
                                    }
                                },
                                None => {},
                            }
                        },
                        _ => {},
                    }
                }
                i = i + 1;
            }
            proof {
                assert(json_string_array(json@, "scripts"@) == Some(s));
            }
        },
        _ => {},
    }
    out
}

} // verus!
