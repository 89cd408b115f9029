//! Lists of names in the order of strings.

use crate::strings::{
    lemma_bytes_before_total,
    lemma_bytes_before_transitive,
    precedes,
    same,
    text_before,
};
use crate::suggestion::texts;
use vstd::prelude::*;
use vstd::utf8::{encode_utf8, encode_utf8_decode_utf8};

verus! {

/// Whether the texts stand in the order of strings, none of them twice.
pub open spec fn strictly_sorted(list: Seq<Seq<char>>) -> bool {
    forall|i: int, j: int| 0 <= i < j < list.len() ==> text_before(#[trigger] list[i], #[trigger] list[j])
}

/// Puts `name` at its place in a sorted list, unless the list holds it
/// already.
pub fn insert_sorted<'a>(list: &mut Vec<&'a str>, name: &'a str)
    requires
        strictly_sorted(texts(old(list)@)),
    ensures
        strictly_sorted(texts(final(list)@)),
        forall|n: Seq<char>|
            texts(final(list)@).contains(n) <==> texts(old(list)@).contains(n) || n == name@,
{
    let ghost before = texts(list@);
    let mut p: usize = 0;
    while p < list.len() && precedes(list[p], name)
        invariant
            p <= list.len(),
            before == texts(list@),
            forall|i: int| 0 <= i < p ==> text_before(#[trigger] before[i], name@),
        decreases list.len() - p,
    {
        assert(before[p as int] == list@[p as int]@);
        p += 1;
    }
    if p < list.len() && same(list[p], name) {
        proof {
            assert(before[p as int] == list@[p as int]@);
            assert forall|n: Seq<char>| before.contains(n) || n == name@ implies before.contains(
                n,
            ) by {
                assert(before[p as int] == name@);
            }
        }
        return ;
    }
    list.insert(p, name);
    proof {
        let after = texts(list@);
        assert forall|i: int| 0 <= i < after.len() implies #[trigger] after[i] == (if i < p {
            before[i]
        } else if i == p {
            name@
        } else {
            before[i - 1]
        }) by {}
        assert forall|i: int| p <= i < before.len() implies text_before(
            name@,
            #[trigger] before[i],
        ) by {
            assert(before[p as int] == old(list)@[p as int]@);
            lemma_bytes_before_total(encode_utf8(before[p as int]), encode_utf8(name@));
            encode_utf8_decode_utf8(before[p as int]);
            encode_utf8_decode_utf8(name@);
            if i > p {
                assert(text_before(before[p as int], before[i]));
                lemma_bytes_before_transitive(
                    encode_utf8(name@),
                    encode_utf8(before[p as int]),
                    encode_utf8(before[i]),
                );
            }
        }
        assert forall|i: int, j: int| 0 <= i < j < after.len() implies text_before(
            #[trigger] after[i],
            #[trigger] after[j],
        ) by {
            if j < p {
                assert(text_before(before[i], before[j]));
            } else if j == p {
            } else if i < p {
                assert(text_before(before[i], before[j - 1]));
            } else if i == p {
                assert(text_before(name@, before[j - 1]));
            } else {
                assert(text_before(before[i - 1], before[j - 1]));
            }
        }
        assert forall|n: Seq<char>| after.contains(n) <==> before.contains(n) || n == name@ by {
            if after.contains(n) {
                let i = choose|i: int| 0 <= i < after.len() && after[i] == n;
                if i < p {
                    assert(before[i] == n);
                } else if i > p {
                    assert(before[i - 1] == n);
                }
            }
            if before.contains(n) {
                let i = choose|i: int| 0 <= i < before.len() && before[i] == n;
                if i < p {
                    assert(after[i] == n);
                } else {
                    assert(after[i + 1] == n);
                }
            }
            if n == name@ {
                assert(after[p as int] == n);
            }
        }
    }
}

} // verus!
