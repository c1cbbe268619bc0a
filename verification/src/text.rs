//! Character-level string helpers.
use vstd::prelude::*;

verus! {

/// Wraps `String::push`, which appends one character to the string.
/// The contract states what the standard library documents: the string's characters
/// afterwards are the old ones followed by `c`.
#[verifier::external_body]
pub fn string_push(s: &mut String, c: char)
    ensures
        final(s)@ == old(s)@.push(c),
{
    s.push(c)
}

/// A string holding exactly the characters of `s`.
pub fn string_of_str(s: &str) -> (res: String)
    ensures
        res@ == s@,
{
    String::from_str(s)
}

/// The characters `from..to` of `s` as a new string.
pub fn substring(s: &String, from: usize, to: usize) -> (res: String)
    requires
        from <= to <= s@.len(),
    ensures
        res@ == s@.subrange(from as int, to as int),
{
    String::from_str(s.as_str().substring_char(from, to))
}

/// The number of characters of `s`.
pub fn char_len(s: &String) -> (n: usize)
    ensures
        n == s@.len(),
{
    s.as_str().unicode_len()
}

/// Are the two strings equal, character for character?
pub fn str_equal(a: &str, b: &str) -> (eq: bool)
    ensures
        eq == (a@ == b@),
{
    let n = a.unicode_len();
    let m = b.unicode_len();
    if n != m {
        return false;
    }
    let mut i: usize = 0;
    while i < n
        invariant
            n == a@.len(),
            m == b@.len(),
            n == m,
            i <= n,
            forall|j: int| 0 <= j < i ==> a@[j] == b@[j],
        decreases n - i,
    {
        if a.get_char(i) != b.get_char(i) {
            return false;
        }
        i = i + 1;
    }
    proof {
        assert(a@ =~= b@);
    }
    true
}

/// Is the string exactly the one character `c`?
pub fn is_char(s: &String, c: char) -> (b: bool)
    ensures
        b == (s@ == seq![c]),
{
    let n = s.as_str().unicode_len();
    if n != 1 {
        return false;
    }
    let first = s.as_str().get_char(0);
    if first == c {
        proof {
            assert(s@ =~= seq![c]);
        }
        true
    } else {
        false
    }
}

/// Does `pat` occur in `text` starting at position `at`?
pub open spec fn occurs_at(text: Seq<char>, pat: Seq<char>, at: int) -> bool {
    0 <= at && at + pat.len() <= text.len() && text.subrange(at, at + pat.len()) == pat
}

/// Does `pat` occur anywhere in `text`?
pub open spec fn contains_seq(text: Seq<char>, pat: Seq<char>) -> bool {
    exists|at: int| occurs_at(text, pat, at)
}

/// Does `pat` occur in `text`?
pub fn str_contains(text: &str, pat: &str) -> (found: bool)
    ensures
        found == contains_seq(text@, pat@),
{
    let n = text.unicode_len();
    let m = pat.unicode_len();
    if m > n {
        proof {
            assert forall|at: int| !occurs_at(text@, pat@, at) by {}
        }
        return false;
    }
    if m == 0 {
        proof {
            assert(text@.subrange(0, 0) =~= pat@);
            assert(occurs_at(text@, pat@, 0));
        }
        return true;
    }
    let mut at: usize = 0;
    while at <= n - m
        invariant
            n == text@.len(),
            m == pat@.len(),
            0 < m <= n,
            at <= n - m + 1,
            forall|k: int| 0 <= k < at ==> !occurs_at(text@, pat@, k),
        decreases n - m + 1 - at,
    {
        let mut j: usize = 0;
        let mut matched = true;
        while j < m
            invariant
                n == text@.len(),
                m == pat@.len(),
                at + m <= n,
                j <= m,
                matched ==> forall|t: int| 0 <= t < j ==> text@[at + t] == pat@[t],
                !matched ==> !occurs_at(text@, pat@, at as int),
            decreases m - j,
        {
            if text.get_char(at + j) != pat.get_char(j) {
                matched = false;
                proof {
                    assert(text@.subrange(at as int, at + m)[j as int] != pat@[j as int]);
                }
            }
            j = j + 1;
        }
        if matched {
            proof {
                assert(text@.subrange(at as int, at + m) =~= pat@);
                assert(occurs_at(text@, pat@, at as int));
            }
            return true;
        }
        at = at + 1;
    }
    proof {
        assert forall|k: int| !occurs_at(text@, pat@, k) by {
            if 0 <= k && k + m <= n {
                assert(k < at);
            }
        }
    }
    false
}

/// `a` followed by `b`.
pub fn concat(a: &String, b: &String) -> (res: String)
    ensures
        res@ == a@ + b@,
{
    let mut res = a.clone();
    res.append(b.as_str());
    res
}

/// `s` without the characters `from..to`.
pub fn remove_range(s: &String, from: usize, to: usize) -> (res: String)
    requires
        from <= to <= s@.len(),
    ensures
        res@ == s@.subrange(0, from as int) + s@.subrange(to as int, s@.len() as int),
{
    let n = char_len(s);
    let left = substring(s, 0, from);
    let right = substring(s, to, n);
    concat(&left, &right)
}

/// `s` with `t` inserted before character `at`.
pub fn insert_at(s: &String, at: usize, t: &String) -> (res: String)
    requires
        at <= s@.len(),
    ensures
        res@ == s@.subrange(0, at as int) + t@ + s@.subrange(at as int, s@.len() as int),
{
    let n = char_len(s);
    let left = substring(s, 0, at);
    let right = substring(s, at, n);
    let mid = concat(&left, t);
    concat(&mid, &right)
}

/// The pieces of `s` between newlines (always at least one, possibly empty).
pub open spec fn split_newlines(s: Seq<char>) -> Seq<Seq<char>>
    decreases s.len(),
{
    if s.len() == 0 {
        seq![Seq::empty()]
    } else {
        let prev = split_newlines(s.drop_last());
        if s.last() == '\n' {
            prev.push(Seq::empty())
        } else {
            prev.update(prev.len() - 1, prev.last().push(s.last()))
        }
    }
}

pub proof fn lemma_split_newlines_len(s: Seq<char>)
    ensures
        split_newlines(s).len() >= 1,
    decreases s.len(),
{
    if s.len() > 0 {
        lemma_split_newlines_len(s.drop_last());
    }
}

/// Splits `s` at its newlines, as `str::split('\n')` does.
pub fn split_newlines_exec(s: &String) -> (parts: Vec<String>)
    ensures
        parts@.map_values(|p: String| p@) == split_newlines(s@),
{
    let n = char_len(s);
    let mut parts: Vec<String> = Vec::new();
    let mut current = String::new();
    let mut i: usize = 0;
    while i < n
        invariant
            n == s@.len(),
            i <= n,
            parts@.map_values(|p: String| p@).push(current@) == split_newlines(
                s@.subrange(0, i as int),
            ),
        decreases n - i,
    {
        let c = s.as_str().get_char(i);
        let ghost pre = s@.subrange(0, i as int + 1);
        proof {
            assert(pre.drop_last() =~= s@.subrange(0, i as int));
            assert(pre.last() == c);
            lemma_split_newlines_len(s@.subrange(0, i as int));
        }
        if c == '\n' {
            let ghost before = parts@;
            parts.push(current);
            current = String::new();
            proof {
                assert(parts@.map_values(|p: String| p@) =~= before.map_values(|p: String| p@).push(
                    parts@.last()@,
                ));
            }
        } else {
            let ghost old_cur = current@;
            string_push(&mut current, c);
            proof {
                let prev = split_newlines(s@.subrange(0, i as int));
                assert(parts@.map_values(|p: String| p@).push(current@) =~= prev.update(
                    prev.len() - 1,
                    prev.last().push(c),
                ));
            }
        }
        i = i + 1;
    }
    let ghost before = parts@;
    parts.push(current);
    proof {
        assert(s@.subrange(0, n as int) =~= s@);
        assert(parts@.map_values(|p: String| p@) =~= before.map_values(|p: String| p@).push(
            parts@.last()@,
        ));
    }
    parts
}

} // verus!
