//! Fuzzy word comparison used to rank auto-complete suggestions.
//!
//! Both measures work on the UTF-8 bytes of the words, as the editor
//! compares words byte by byte.
use vstd::prelude::*;
use vstd::utf8::encode_utf8;

verus! {

/// The UTF-8 bytes of a string.
pub open spec fn bytes_of(s: &String) -> Seq<u8> {
    encode_utf8(s@)
}

/// Distance between two bytes.
pub open spec fn byte_distance(x: u8, y: u8) -> int {
    if x >= y {
        x - y
    } else {
        y - x
    }
}

/// Sum of the byte distances over the first `n` positions.
pub open spec fn prefix_distance(a: Seq<u8>, b: Seq<u8>, n: nat) -> int
    decreases n,
{
    if n == 0 {
        0
    } else {
        prefix_distance(a, b, (n - 1) as nat) + byte_distance(a[n - 1], b[n - 1])
    }
}

pub open spec fn min_nat(x: nat, y: nat) -> nat {
    if x <= y {
        x
    } else {
        y
    }
}

/// The byte comparison score: the byte distances over the common length,
/// plus two for every byte by which the main word is longer.
pub open spec fn byte_comparison_score(main: Seq<u8>, comp: Seq<u8>) -> int {
    prefix_distance(main, comp, min_nat(main.len(), comp.len())) + if comp.len() < main.len() {
        2 * (main.len() - comp.len())
    } else {
        0
    }
}

proof fn lemma_prefix_distance_bounds(a: Seq<u8>, b: Seq<u8>, n: nat)
    ensures
        0 <= prefix_distance(a, b, n) <= 255 * n,
    decreases n,
{
    if n > 0 {
        lemma_prefix_distance_bounds(a, b, (n - 1) as nat);
    }
}

/// Scores how different `wordComp` is from `wordMain` (0 when they are equal).
pub fn byte_comparison(wordMain: &String, wordComp: &String) -> (total: usize)
    requires
        257 * bytes_of(wordMain).len() <= usize::MAX,
    ensures
        total == byte_comparison_score(bytes_of(wordMain), bytes_of(wordComp)),
{
    let main_bytes = wordMain.as_str().as_bytes();
    let comp_bytes = wordComp.as_str().as_bytes();
    let main_len = main_bytes.len();
    let comp_len = comp_bytes.len();
    let common = if main_len < comp_len {
        main_len
    } else {
        comp_len
    };
    let mut total: usize = 0;
    let mut index: usize = 0;
    while index < common
        invariant
            main_bytes@ == bytes_of(wordMain),
            comp_bytes@ == bytes_of(wordComp),
            main_len == main_bytes@.len(),
            comp_len == comp_bytes@.len(),
            common == min_nat(main_len as nat, comp_len as nat),
            index <= common,
            257 * main_len <= usize::MAX,
            total == prefix_distance(main_bytes@, comp_bytes@, index as nat),
        decreases common - index,
    {
        proof {
            lemma_prefix_distance_bounds(main_bytes@, comp_bytes@, index as nat);
        }
        let x = main_bytes[index];
        let y = comp_bytes[index];
        let d: usize = if x >= y {
            (x - y) as usize
        } else {
            (y - x) as usize
        };
        total = total + d;
        index = index + 1;
    }
    proof {
        lemma_prefix_distance_bounds(main_bytes@, comp_bytes@, common as nat);
    }
    if comp_len < main_len {
        total = total + (main_len - comp_len) * 2;
    }
    total
}

/// The edit distance between the first `i` bytes of `a` and the first `j` bytes of `b`.
pub open spec fn edit_distance(a: Seq<u8>, b: Seq<u8>, i: nat, j: nat) -> nat
    decreases i + j,
{
    if i == 0 {
        j
    } else if j == 0 {
        i
    } else {
        let del = edit_distance(a, b, (i - 1) as nat, j) + 1;
        let ins = edit_distance(a, b, i, (j - 1) as nat) + 1;
        let sub = edit_distance(a, b, (i - 1) as nat, (j - 1) as nat) + if a[i - 1] != b[j - 1] {
            1nat
        } else {
            0nat
        };
        min_nat(min_nat(del, ins), sub)
    }
}

/// The Levenshtein distance between two whole byte sequences.
pub open spec fn levenshtein(a: Seq<u8>, b: Seq<u8>) -> nat {
    edit_distance(a, b, a.len(), b.len())
}

proof fn lemma_edit_distance_bound(a: Seq<u8>, b: Seq<u8>, i: nat, j: nat)
    ensures
        edit_distance(a, b, i, j) <= if i <= j {
            j
        } else {
            i
        },
    decreases i + j,
{
    if i > 0 && j > 0 {
        lemma_edit_distance_bound(a, b, (i - 1) as nat, (j - 1) as nat);
    }
}

/// Computes the edit distance of two byte slices one row at a time.
fn edit_distance_rows(a: &[u8], b: &[u8]) -> (d: usize)
    ensures
        d == edit_distance(a@, b@, a@.len(), b@.len()),
{
    let n = a.len();
    let m = b.len();
    let mut prev: Vec<usize> = Vec::new();
    let mut j: usize = 0;
    while j < m
        invariant
            m == b@.len(),
            j <= m,
            prev@.len() == j,
            forall|k: int| 0 <= k < j ==> prev@[k] == edit_distance(a@, b@, 0, k as nat),
        decreases m - j,
    {
        prev.push(j);
        j = j + 1;
    }
    prev.push(m);
    let mut i: usize = 0;
    while i < n
        invariant
            n == a@.len(),
            m == b@.len(),
            i <= n,
            prev@.len() == m + 1,
            forall|k: int| 0 <= k <= m ==> prev@[k] == edit_distance(a@, b@, i as nat, k as nat),
        decreases n - i,
    {
        let mut cur: Vec<usize> = Vec::new();
        cur.push(i + 1);
        let mut k: usize = 0;
        while k < m
            invariant
                n == a@.len(),
                m == b@.len(),
                i < n,
                k <= m,
                prev@.len() == m + 1,
                forall|t: int| 0 <= t <= m ==> prev@[t] == edit_distance(a@, b@, i as nat, t as nat),
                cur@.len() == k + 1,
                forall|t: int|
                    0 <= t <= k ==> cur@[t] == edit_distance(a@, b@, (i + 1) as nat, t as nat),
            decreases m - k,
        {
            proof {
                lemma_edit_distance_bound(a@, b@, i as nat, k as nat);
            }
            let del = prev[k + 1].saturating_add(1);
            let ins = cur[k].saturating_add(1);
            let cost: usize = if a[i] != b[k] {
                1
            } else {
                0
            };
            let sub = prev[k] + cost;
            let best_first = if del <= ins {
                del
            } else {
                ins
            };
            let best = if best_first <= sub {
                best_first
            } else {
                sub
            };
            proof {
                lemma_edit_distance_bound(a@, b@, (i + 1) as nat, (k + 1) as nat);
                assert(edit_distance(a@, b@, (i + 1) as nat, (k + 1) as nat) == min_nat(
                    min_nat(
                        edit_distance(a@, b@, i as nat, (k + 1) as nat) + 1,
                        edit_distance(a@, b@, (i + 1) as nat, k as nat) + 1,
                    ),
                    edit_distance(a@, b@, i as nat, k as nat) + if a@[i as int] != b@[k as int] {
                        1nat
                    } else {
                        0nat
                    },
                ));
            }
            cur.push(best);
            k = k + 1;
        }
        prev = cur;
        i = i + 1;
    }
    prev[m]
}

/// The Levenshtein distance between the bytes of the two words.
pub fn levenshtein_distance(query_word: &String, other_word: &String) -> (d: usize)
    ensures
        d == levenshtein(bytes_of(query_word), bytes_of(other_word)),
{
    edit_distance_rows(query_word.as_str().as_bytes(), other_word.as_str().as_bytes())
}

/// The smallest distance from the query to any of the words (`usize::MAX` when there are none).
pub open spec fn min_distance(query: Seq<u8>, words: Seq<String>) -> nat
    decreases words.len(),
{
    if words.len() == 0 {
        usize::MAX as nat
    } else {
        min_nat(
            min_distance(query, words.drop_last()),
            levenshtein(query, bytes_of(&words.last())),
        )
    }
}

/// The smallest Levenshtein distance between the query and any of the words.
pub fn levenshtein_distance_itter(query_word: &String, words: &Vec<String>) -> (d: usize)
    ensures
        d == min_distance(bytes_of(query_word), words@),
{
    let mut min_so_far: usize = usize::MAX;
    let mut index: usize = 0;
    while index < words.len()
        invariant
            index <= words@.len(),
            min_so_far == min_distance(bytes_of(query_word), words@.subrange(0, index as int)),
        decreases words@.len() - index,
    {
        let distance = levenshtein_distance(query_word, &words[index]);
        proof {
            let prefix = words@.subrange(0, index as int + 1);
            assert(prefix.drop_last() =~= words@.subrange(0, index as int));
            assert(prefix.last() == words@[index as int]);
        }
        if distance < min_so_far {
            min_so_far = distance;
        }
        index = index + 1;
    }
    proof {
        assert(words@.subrange(0, words@.len() as int) =~= words@);
    }
    min_so_far
}

} // verus!
