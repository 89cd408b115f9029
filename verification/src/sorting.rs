//! The items of each sort among the items of a module.

use crate::alias::UnresolvedAlias;
use crate::assignment::Assignment;
use crate::item::Item;
use crate::keyed::Keyed;
use crate::recipe::UnresolvedRecipe;
use crate::setting::SetItem;
use crate::submodule::UnresolvedSubmodule;
use vstd::prelude::*;

verus! {

/// The aliases among the first `n` items, in their order.
pub open spec fn aliases_in(items: Seq<Item>, n: nat) -> Seq<UnresolvedAlias>
    decreases n,
{
    if n == 0 || n > items.len() {
        Seq::empty()
    } else {
        let before = aliases_in(items, (n - 1) as nat);
        match items[n - 1] {
            Item::Alias(alias) => before.push(alias),
            _ => before,
        }
    }
}

/// Each of the aliases among the first `n` items is one of these items.
pub proof fn lemma_aliases_in(items: Seq<Item>, n: nat, k: int)
    requires
        0 <= k < aliases_in(items, n).len(),
    ensures
        exists|i: int|
            0 <= i < n && i < items.len() && #[trigger] items[i] == Item::Alias(
                aliases_in(items, n)[k],
            ),
    decreases n,
{
    if n == 0 || n > items.len() {
    } else {
        let before = aliases_in(items, (n - 1) as nat);
        if k < before.len() {
            lemma_aliases_in(items, (n - 1) as nat, k);
            let i = choose|i: int|
                0 <= i < n - 1 && i < items.len() && #[trigger] items[i] == Item::Alias(before[k]);
            assert(items[i] == Item::Alias(aliases_in(items, n)[k]));
        } else {
            assert(items[n - 1] == Item::Alias(aliases_in(items, n)[k]));
        }
    }
}

/// The assignments among the first `n` items, in their order.
pub open spec fn assignments_in(items: Seq<Item>, n: nat) -> Seq<Assignment>
    decreases n,
{
    if n == 0 || n > items.len() {
        Seq::empty()
    } else {
        let before = assignments_in(items, (n - 1) as nat);
        match items[n - 1] {
            Item::Assignment(assignment) => before.push(assignment),
            _ => before,
        }
    }
}

/// Each of the assignments among the first `n` items is one of these items.
pub proof fn lemma_assignments_in(items: Seq<Item>, n: nat, k: int)
    requires
        0 <= k < assignments_in(items, n).len(),
    ensures
        exists|i: int|
            0 <= i < n && i < items.len() && #[trigger] items[i] == Item::Assignment(
                assignments_in(items, n)[k],
            ),
    decreases n,
{
    if n == 0 || n > items.len() {
    } else {
        let before = assignments_in(items, (n - 1) as nat);
        if k < before.len() {
            lemma_assignments_in(items, (n - 1) as nat, k);
            let i = choose|i: int|
                0 <= i < n - 1 && i < items.len() && #[trigger] items[i] == Item::Assignment(before[k]);
            assert(items[i] == Item::Assignment(assignments_in(items, n)[k]));
        } else {
            assert(items[n - 1] == Item::Assignment(assignments_in(items, n)[k]));
        }
    }
}

/// The recipes among the first `n` items, in their order.
pub open spec fn recipes_in(items: Seq<Item>, n: nat) -> Seq<UnresolvedRecipe>
    decreases n,
{
    if n == 0 || n > items.len() {
        Seq::empty()
    } else {
        let before = recipes_in(items, (n - 1) as nat);
        match items[n - 1] {
            Item::Recipe(recipe) => before.push(recipe),
            _ => before,
        }
    }
}

/// Each of the recipes among the first `n` items is one of these items.
pub proof fn lemma_recipes_in(items: Seq<Item>, n: nat, k: int)
    requires
        0 <= k < recipes_in(items, n).len(),
    ensures
        exists|i: int|
            0 <= i < n && i < items.len() && #[trigger] items[i] == Item::Recipe(
                recipes_in(items, n)[k],
            ),
    decreases n,
{
    if n == 0 || n > items.len() {
    } else {
        let before = recipes_in(items, (n - 1) as nat);
        if k < before.len() {
            lemma_recipes_in(items, (n - 1) as nat, k);
            let i = choose|i: int|
                0 <= i < n - 1 && i < items.len() && #[trigger] items[i] == Item::Recipe(before[k]);
            assert(items[i] == Item::Recipe(recipes_in(items, n)[k]));
        } else {
            assert(items[n - 1] == Item::Recipe(recipes_in(items, n)[k]));
        }
    }
}

/// The settings among the first `n` items, in their order.
pub open spec fn sets_in(items: Seq<Item>, n: nat) -> Seq<SetItem>
    decreases n,
{
    if n == 0 || n > items.len() {
        Seq::empty()
    } else {
        let before = sets_in(items, (n - 1) as nat);
        match items[n - 1] {
            Item::SetItem(set) => before.push(set),
            _ => before,
        }
    }
}

/// Each of the settings among the first `n` items is one of these items.
pub proof fn lemma_sets_in(items: Seq<Item>, n: nat, k: int)
    requires
        0 <= k < sets_in(items, n).len(),
    ensures
        exists|i: int|
            0 <= i < n && i < items.len() && #[trigger] items[i] == Item::SetItem(
                sets_in(items, n)[k],
            ),
    decreases n,
{
    if n == 0 || n > items.len() {
    } else {
        let before = sets_in(items, (n - 1) as nat);
        if k < before.len() {
            lemma_sets_in(items, (n - 1) as nat, k);
            let i = choose|i: int|
                0 <= i < n - 1 && i < items.len() && #[trigger] items[i] == Item::SetItem(before[k]);
            assert(items[i] == Item::SetItem(sets_in(items, n)[k]));
        } else {
            assert(items[n - 1] == Item::SetItem(sets_in(items, n)[k]));
        }
    }
}

/// The modules among the first `n` items, in their order.
pub open spec fn submodules_in(items: Seq<Item>, n: nat) -> Seq<UnresolvedSubmodule>
    decreases n,
{
    if n == 0 || n > items.len() {
        Seq::empty()
    } else {
        let before = submodules_in(items, (n - 1) as nat);
        match items[n - 1] {
            Item::Submodule(submodule) => before.push(submodule),
            _ => before,
        }
    }
}

/// Each of the modules among the first `n` items is one of these items.
pub proof fn lemma_submodules_in(items: Seq<Item>, n: nat, k: int)
    requires
        0 <= k < submodules_in(items, n).len(),
    ensures
        exists|i: int|
            0 <= i < n && i < items.len() && #[trigger] items[i] == Item::Submodule(
                submodules_in(items, n)[k],
            ),
    decreases n,
{
    if n == 0 || n > items.len() {
    } else {
        let before = submodules_in(items, (n - 1) as nat);
        if k < before.len() {
            lemma_submodules_in(items, (n - 1) as nat, k);
            let i = choose|i: int|
                0 <= i < n - 1 && i < items.len() && #[trigger] items[i] == Item::Submodule(before[k]);
            assert(items[i] == Item::Submodule(submodules_in(items, n)[k]));
        } else {
            assert(items[n - 1] == Item::Submodule(submodules_in(items, n)[k]));
        }
    }
}

/// Each module among the items is a part of them.
pub proof fn lemma_submodule_is_part(items: Seq<Item>, n: nat, k: int)
    requires
        0 <= k < submodules_in(items, n).len(),
    ensures
        decreases_to!(items => submodules_in(items, n)[k].items.items@),
{
    lemma_submodules_in(items, n, k);
    let submodule = submodules_in(items, n)[k];
    let i = choose|i: int|
        0 <= i < n && i < items.len() && #[trigger] items[i] == Item::Submodule(submodule);
    match items[i] {
        Item::Submodule(inner) => {
            assert(decreases_to!(items => items[i]));
            assert(decreases_to!(items[i] => inner));
            assert(decreases_to!(inner => inner.items));
            assert(decreases_to!(inner.items => inner.items.items));
            assert(decreases_to!(inner.items.items => inner.items.items@));
        },
        _ => {},
    }
}

} // verus!
