//! The name that may have been meant where an unknown name was given.

use crate::strings::{
    lemma_bytes_before_irreflexive,
    lemma_bytes_before_total,
    lemma_bytes_before_transitive,
    precedes,
    text_before,
};
use vstd::prelude::*;
use vstd::utf8::{encode_utf8, encode_utf8_decode_utf8};

verus! {

/// The edit distance between two texts: how many characters must be
/// inserted, removed or replaced to turn the first into the second.
pub uninterp spec fn edit_distance_of(a: Seq<char>, b: Seq<char>) -> nat;

/// `edit_distance::edit_distance`: the Levenshtein distance between two
/// strings, counted in characters.
#[verifier::external_body]
fn edit_distance(a: &str, b: &str) -> (d: usize)
    ensures
        d == edit_distance_of(a@, b@),
{
    edit_distance::edit_distance(a, b)
}

/// Whether `a` is a better suggestion for `name` than `b`: it is closer
/// to it or, at the same distance, comes first in the order of strings.
pub open spec fn is_better(a: Seq<char>, b: Seq<char>, name: Seq<char>) -> bool {
    edit_distance_of(a, name) < edit_distance_of(b, name) || (edit_distance_of(a, name)
        == edit_distance_of(b, name) && text_before(a, b))
}

/// Whether none of the candidates is a better suggestion than the `i`-th.
pub open spec fn is_best(candidates: Seq<Seq<char>>, name: Seq<char>, i: int) -> bool {
    &&& 0 <= i < candidates.len()
    &&& forall|j: int|
        0 <= j < candidates.len() ==> !is_better(#[trigger] candidates[j], candidates[i], name)
}

/// Whether the `i`-th candidate is the suggestion for `name`: it is the
/// best of the candidates and less than three edits away.
pub open spec fn is_suggested(candidates: Seq<Seq<char>>, name: Seq<char>, i: int) -> bool {
    is_best(candidates, name, i) && edit_distance_of(candidates[i], name) < 3
}

/// The candidate that is suggested for `name`, if there is one.
pub open spec fn suggestion_of(candidates: Seq<Seq<char>>, name: Seq<char>) -> Option<Seq<char>> {
    if exists|i: int| is_suggested(candidates, name, i) {
        Some(candidates[choose|i: int| is_suggested(candidates, name, i)])
    } else {
        None
    }
}

pub proof fn lemma_is_better_transitive(a: Seq<char>, b: Seq<char>, c: Seq<char>, name: Seq<char>)
    requires
        is_better(a, b, name),
        is_better(b, c, name),
    ensures
        is_better(a, c, name),
{
    if text_before(a, b) && text_before(b, c) {
        lemma_bytes_before_transitive(encode_utf8(a), encode_utf8(b), encode_utf8(c));
    }
}

/// Of two different candidates one is the better.
pub proof fn lemma_is_better_total(a: Seq<char>, b: Seq<char>, name: Seq<char>)
    ensures
        a == b || is_better(a, b, name) || is_better(b, a, name),
        !is_better(a, a, name),
{
    lemma_bytes_before_total(encode_utf8(a), encode_utf8(b));
    lemma_bytes_before_irreflexive(encode_utf8(a));
    encode_utf8_decode_utf8(a);
    encode_utf8_decode_utf8(b);
}

/// The suggestion is the one candidate that is best and near enough.
pub proof fn lemma_suggestion(candidates: Seq<Seq<char>>, name: Seq<char>, i: int)
    requires
        is_suggested(candidates, name, i),
    ensures
        suggestion_of(candidates, name) == Some(candidates[i]),
{
    let j = choose|j: int| is_suggested(candidates, name, j);
    lemma_is_better_total(candidates[i], candidates[j], name);
    assert(!is_better(candidates[j], candidates[i], name));
    assert(!is_better(candidates[i], candidates[j], name));
}

/// Where the best candidate is too far, nothing is suggested.
pub proof fn lemma_no_suggestion(candidates: Seq<Seq<char>>, name: Seq<char>, i: int)
    requires
        is_best(candidates, name, i),
        edit_distance_of(candidates[i], name) >= 3,
    ensures
        suggestion_of(candidates, name) is None,
{
    if exists|j: int| is_suggested(candidates, name, j) {
        let j = choose|j: int| is_suggested(candidates, name, j);
        assert(is_better(candidates[j], candidates[i], name));
    }
}

/// The views of a row of strings.
pub open spec fn texts(strings: Seq<&str>) -> Seq<Seq<char>> {
    Seq::new(strings.len(), |i: int| strings[i]@)
}

/// Picks the candidate that is nearest to `name`, the first in the order
/// of strings among those equally near, and suggests it if it is less than
/// three edits away.
pub fn suggest<'a>(candidates: &Vec<&'a str>, name: &str) -> (r: Option<&'a str>)
    ensures
        r is Some == suggestion_of(texts(candidates@), name@) is Some,
        r matches Some(s) ==> suggestion_of(texts(candidates@), name@) == Some(s@),
{
    let ghost all = texts(candidates@);
    if candidates.len() == 0 {
        return None;
    }
    let mut best: usize = 0;
    let mut distance = edit_distance(candidates[0], name);
    let mut k: usize = 1;
    proof {
        lemma_is_better_total(all[0], all[0], name@);
    }
    while k < candidates.len()
        invariant
            all == texts(candidates@),
            0 <= best < k <= candidates.len(),
            distance == edit_distance_of(all[best as int], name@),
            forall|j: int| 0 <= j < k ==> !is_better(#[trigger] all[j], all[best as int], name@),
        decreases candidates.len() - k,
    {
        let d = edit_distance(candidates[k], name);
        assert(all[k as int] == candidates@[k as int]@);
        assert(all[best as int] == candidates@[best as int]@);
        if d < distance || (d == distance && precedes(candidates[k], candidates[best])) {
            proof {
                assert forall|j: int| 0 <= j < k + 1 implies !is_better(
                    #[trigger] all[j],
                    all[k as int],
                    name@,
                ) by {
                    if is_better(all[j], all[k as int], name@) {
                        if j < k {
                            lemma_is_better_transitive(
                                all[j],
                                all[k as int],
                                all[best as int],
                                name@,
                            );
                        } else {
                            lemma_is_better_total(all[k as int], all[k as int], name@);
                        }
                    }
                }
            }
            best = k;
            distance = d;
        }
        k += 1;
    }
    if distance < 3 {
        proof {
            lemma_suggestion(all, name@, best as int);
        }
        Some(candidates[best])
    } else {
        proof {
            lemma_no_suggestion(all, name@, best as int);
        }
        None
    }
}

} // verus!
