//! Searching and cutting byte strings.

use vstd::prelude::*;
use vstd::slice::slice_subrange;

verus! {

/// `pat` stands in `s` at index `i`.
pub open spec fn occurs_at(s: Seq<u8>, pat: Seq<u8>, i: int) -> bool {
    0 <= i && i + pat.len() <= s.len() && s.subrange(i, i + pat.len()) == pat
}

/// The least index from `from` on at which `pat` stands in `s`, if there is
/// one. An empty pattern is found nowhere.
pub open spec fn find(s: Seq<u8>, pat: Seq<u8>, from: int) -> Option<int>
    decreases s.len() - from,
{
    if pat.len() == 0 || from < 0 || from + pat.len() > s.len() {
        None
    } else if occurs_at(s, pat, from) {
        Some(from)
    } else {
        find(s, pat, from + 1)
    }
}

/// What `find` finds is the first place where the pattern stands, and it
/// finds nothing only where the pattern stands nowhere.
pub proof fn lemma_find(s: Seq<u8>, pat: Seq<u8>, from: int)
    requires
        0 <= from,
        pat.len() > 0,
    ensures
        match find(s, pat, from) {
            Some(i) => from <= i && occurs_at(s, pat, i) && forall|j: int|
                from <= j < i ==> !occurs_at(s, pat, j),
            None => forall|j: int| from <= j ==> !occurs_at(s, pat, j),
        },
    decreases s.len() - from,
{
    if from + pat.len() > s.len() {
    } else if occurs_at(s, pat, from) {
    } else {
        lemma_find(s, pat, from + 1);
    }
}

/// The pieces of `s` between the places where `pat` stands, found from left
/// to right, each search going on behind the last find. There is always at
/// least one piece, and pieces can be empty.
pub open spec fn split(s: Seq<u8>, pat: Seq<u8>) -> Seq<Seq<u8>>
    decreases s.len(),
{
    let at = find(s, pat, 0);
    if at is Some {
        proof {
            lemma_find(s, pat, 0);
        }
        seq![s.subrange(0, at.unwrap())] + split(
            s.subrange(at.unwrap() + pat.len(), s.len() as int),
            pat,
        )
    } else {
        seq![s]
    }
}

/// Cutting a text gives at least one piece.
pub proof fn lemma_split_not_empty(s: Seq<u8>, pat: Seq<u8>)
    ensures
        split(s, pat).len() >= 1,
{
}

/// The byte strings that a list of slices holds.
pub open spec fn texts(pieces: Seq<&[u8]>) -> Seq<Seq<u8>> {
    Seq::new(pieces.len(), |k: int| pieces[k]@)
}

/// Finds where `pat` first stands in `s`.
pub fn find_in(s: &[u8], pat: &[u8]) -> (at: Option<usize>)
    ensures
        match at {
            Some(i) => find(s@, pat@, 0) == Some(i as int) && i + pat@.len() <= s@.len(),
            None => find(s@, pat@, 0) is None,
        },
{
    let n: usize = s.len();
    let m: usize = pat.len();
    if m == 0 || m > n {
        return None;
    }
    let mut i: usize = 0;
    while i <= n - m
        invariant
            n == s@.len(),
            m == pat@.len(),
            0 < m <= n,
            i <= n - m + 1,
            find(s@, pat@, 0) == find(s@, pat@, i as int),
        decreases n - m + 1 - i,
    {
        let mut k: usize = 0;
        while k < m && s[i + k] == pat[k]
            invariant
                n == s@.len(),
                m == pat@.len(),
                k <= m,
                i + m <= n,
                forall|t: int| 0 <= t < k ==> s@[i + t] == pat@[t],
            decreases m - k,
        {
            k = k + 1;
        }
        if k == m {
            proof {
                assert(s@.subrange(i as int, i + m) =~= pat@);
                lemma_find(s@, pat@, i as int);
            }
            return Some(i);
        }
        proof {
            assert(s@.subrange(i as int, i + m)[k as int] == s@[i + k]);
        }
        i = i + 1;
    }
    None
}

/// Cuts `s` at every place where `pat` stands.
pub fn split_text<'a>(s: &'a [u8], pat: &[u8]) -> (pieces: Vec<&'a [u8]>)
    ensures
        texts(pieces@) == split(s@, pat@),
{
    let mut pieces: Vec<&'a [u8]> = Vec::new();
    let mut rest: &'a [u8] = s;
    loop
        invariant
            split(s@, pat@) == texts(pieces@) + split(rest@, pat@),
        decreases rest@.len(),
    {
        let ghost before = texts(pieces@);
        let n: usize = rest.len();
        match find_in(rest, pat) {
            Some(i) => {
                proof {
                    lemma_find(rest@, pat@, 0);
                }
                let piece = slice_subrange(rest, 0, i);
                let tail = slice_subrange(rest, i + pat.len(), n);
                pieces.push(piece);
                proof {
                    assert(texts(pieces@) =~= before + seq![piece@]);
                    assert(before + (seq![piece@] + split(tail@, pat@)) =~= (before + seq![
                        piece@,
                    ]) + split(tail@, pat@));
                }
                rest = tail;
            },
            None => {
                pieces.push(rest);
                proof {
                    assert(texts(pieces@) =~= before + seq![rest@]);
                }
                return pieces;
            },
        }
    }
}

} // verus!
