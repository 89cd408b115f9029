//! Conflicts of names: two items of one namespace may not have the same name.

use crate::compilation_error::CompilationError;
use crate::compilation_error_kind::CompilationErrorKind;
use crate::item::Item;
use crate::keyed::Keyed;
use crate::strings::same;
use vstd::prelude::*;

verus! {

/// Whether two items conflict: they have the same name in the same
/// namespace.
pub open spec fn collides(a: Item, b: Item) -> bool {
    a.namespace_spec() == b.namespace_spec() && a.key_spec() == b.key_spec()
}

/// Whether `i` is the first item that item `j` conflicts with.
pub open spec fn is_first_match(items: Seq<Item>, i: int, j: int) -> bool {
    &&& 0 <= i < j < items.len()
    &&& collides(items[i], items[j])
    &&& forall|h: int| 0 <= h < i ==> !collides(#[trigger] items[h], items[j])
}

/// Whether item `j` conflicts with an item before it.
pub open spec fn has_match(items: Seq<Item>, j: int) -> bool {
    exists|i: int| 0 <= i < j && collides(#[trigger] items[i], items[j])
}

/// The first item that item `j` conflicts with.
pub open spec fn first_match(items: Seq<Item>, j: int) -> int {
    choose|i: int| is_first_match(items, i, j)
}

/// The error for item `j` conflicting with the earlier item `i`. It stands
/// at the later item and names the line of the earlier one.
pub open spec fn collision(items: Seq<Item>, i: int, j: int) -> CompilationError {
    CompilationError {
        token: items[j].name_spec().token_spec(),
        kind: CompilationErrorKind::Collision {
            first: items[i].name_spec().line,
            first_kind: items[i].kind_spec(),
            kind: items[j].kind_spec(),
            name: items[j].name_spec().lexeme,
            namespace: items[j].namespace_spec(),
        },
    }
}

/// What is wrong with the name of item `j`: it must not be the name of an
/// earlier item of the same namespace.
pub open spec fn collision_fault(items: Seq<Item>, j: int) -> Option<CompilationError> {
    if has_match(items, j) {
        Some(collision(items, first_match(items, j), j))
    } else {
        None
    }
}

/// An item has one first match at most.
pub proof fn lemma_first_match(items: Seq<Item>, i: int, j: int)
    requires
        is_first_match(items, i, j),
    ensures
        has_match(items, j),
        first_match(items, j) == i,
{
    let f = first_match(items, j);
    assert(is_first_match(items, f, j));
    if f < i {
        assert(!collides(items[f], items[j]));
    } else if i < f {
        assert(!collides(items[i], items[j]));
    }
}

/// Items of different namespaces do not conflict, whatever their names.
pub proof fn lemma_namespaces_are_apart(a: Item, b: Item)
    requires
        a.namespace_spec() != b.namespace_spec(),
    ensures
        !collides(a, b),
{
}

/// Where items share a name only across namespaces, none conflicts with
/// another.
pub proof fn lemma_no_collision_across_namespaces(items: Seq<Item>, j: int)
    requires
        0 <= j < items.len(),
        forall|i: int|
            0 <= i < j && (#[trigger] items[i]).key_spec() == items[j].key_spec()
                ==> items[i].namespace_spec() != items[j].namespace_spec(),
    ensures
        collision_fault(items, j) is None,
{
}

/// A conflict is reported at the later item and gives the line and the
/// kind of the first item that has the name.
pub proof fn lemma_collision_names_first(items: Seq<Item>, j: int)
    requires
        0 <= j < items.len(),
        collision_fault(items, j) is Some,
    ensures
        ({
            let e = collision_fault(items, j)->0;
            let i = first_match(items, j);
            &&& is_first_match(items, i, j)
            &&& e.token == items[j].name_spec().token_spec()
            &&& e.kind matches CompilationErrorKind::Collision { first, first_kind, .. }
            &&& first == items[i].name_spec().line
            &&& first_kind == items[i].kind_spec()
        }),
{
    let w = choose|i: int| 0 <= i < j && collides(#[trigger] items[i], items[j]);
    lemma_has_first_match(items, j, w);
}

/// An item that conflicts with an earlier one has a first match.
pub proof fn lemma_has_first_match(items: Seq<Item>, j: int, w: int)
    requires
        0 <= w < j < items.len(),
        collides(items[w], items[j]),
    ensures
        is_first_match(items, first_match(items, j), j),
    decreases w,
{
    if exists|h: int| 0 <= h < w && collides(#[trigger] items[h], items[j]) {
        let h = choose|h: int| 0 <= h < w && collides(#[trigger] items[h], items[j]);
        lemma_has_first_match(items, j, h);
    } else {
        assert(is_first_match(items, w, j));
    }
}

/// Looks for the first item that item `j` conflicts with.
pub fn find_match(items: &Vec<Item>, j: usize) -> (r: Option<usize>)
    requires
        j < items@.len(),
    ensures
        r is Some == has_match(items@, j as int),
        r matches Some(i) ==> i == first_match(items@, j as int) && i < j,
{
    let item = &items[j];
    let namespace = item.namespace();
    let mut i: usize = 0;
    while i < j
        invariant
            j < items@.len(),
            *item == items@[j as int],
            namespace == item.namespace_spec(),
            i <= j,
            forall|h: int| 0 <= h < i ==> !collides(#[trigger] items@[h], items@[j as int]),
        decreases j - i,
    {
        let other = &items[i];
        if other.namespace() == namespace && same(other.key(), item.key()) {
            proof {
                lemma_first_match(items@, i as int, j as int);
            }
            return Some(i);
        }
        i += 1;
    }
    None
}

} // verus!
