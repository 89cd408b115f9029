//! An analyzed manifest, and how a command line is read against it.

use crate::alias::Alias;
use crate::assignment::Assignment;
use crate::keyed::Keyed;
use crate::group::{planned, Group, Planned};
use crate::module::{recipe_names, Module};
use crate::parameter::min_arguments_of;
use crate::recipe::Recipe;
use crate::runtime_error::{Refusal, RuntimeError};
use crate::scope::{Binding, Scope};
use crate::sorted::{insert_sorted, strictly_sorted};
use crate::suggestion::{suggestion_of, texts};
use crate::table::{has_key, position};
use crate::warning::Warning;
use std::rc::Rc;
use vstd::prelude::*;

verus! {

/// A manifest that was analyzed: its root module and what the parser
/// warned of.
#[derive(Debug, PartialEq)]
pub struct Justfile {
    pub root: Module,
    pub warnings: Vec<Warning>,
}

/// Whether the `i`-th recipe is the first of the source: none begins on
/// an earlier line, and those before it in the table begin on later ones.
pub open spec fn is_earliest(recipes: Seq<Rc<Recipe>>, i: int) -> bool {
    &&& 0 <= i < recipes.len()
    &&& forall|j: int|
        0 <= j < recipes.len() ==> recipes[i].name.line <= (#[trigger] recipes[j]).name.line
    &&& forall|j: int| 0 <= j < i ==> recipes[i].name.line < (#[trigger] recipes[j]).name.line
}

/// The place of the first recipe of the source.
pub open spec fn earliest(recipes: Seq<Rc<Recipe>>) -> int {
    choose|i: int| is_earliest(recipes, i)
}

pub proof fn lemma_earliest(recipes: Seq<Rc<Recipe>>, i: int)
    requires
        is_earliest(recipes, i),
    ensures
        earliest(recipes) == i,
{
    let e = earliest(recipes);
    assert(is_earliest(recipes, e));
    if e < i {
        assert(recipes[i].name.line < recipes[e].name.line);
        assert(recipes[e].name.line <= recipes[i].name.line);
    } else if i < e {
        assert(recipes[e].name.line < recipes[i].name.line);
        assert(recipes[i].name.line <= recipes[e].name.line);
    }
}

/// Whether a variable that is to get a value is not assigned.
pub open spec fn is_unknown(
    overrides: Seq<(String, String)>,
    assignments: Seq<Assignment>,
    i: int,
) -> bool {
    0 <= i < overrides.len() && !has_key(assignments, overrides[i].0@)
}

/// Whether `list` names, in the order of strings and each once, the
/// variables among the first `n` that are to get a value and are not
/// assigned.
pub open spec fn is_unknown_list(
    overrides: Seq<(String, String)>,
    assignments: Seq<Assignment>,
    n: int,
    list: Seq<Seq<char>>,
) -> bool {
    &&& strictly_sorted(list)
    &&& forall|name: Seq<char>|
        list.contains(name) <==> exists|i: int|
            i < n && #[trigger] is_unknown(overrides, assignments, i) && overrides[i].0@ == name
}

/// The bindings that the first `n` of the variables which are to get a
/// value make, all of them being assigned: each binds the name of its
/// assignment, exported as that is, to the value given.
pub open spec fn overridden(
    overrides: Seq<(String, String)>,
    assignments: Seq<Assignment>,
    n: nat,
) -> Seq<Binding>
    decreases n,
{
    if n == 0 || n > overrides.len() {
        Seq::empty()
    } else {
        let assignment = assignments[position(assignments, overrides[n - 1].0@)];
        overridden(overrides, assignments, (n - 1) as nat).push(
            Binding {
                export: assignment.export,
                name: assignment.name,
                value: overrides[n - 1].1,
            },
        )
    }
}

impl Justfile {
    /// The recipe that runs where none is named: the first of the source.
    pub fn first(&self) -> (r: Option<&Recipe>)
        ensures
            r is None <==> self.root.recipes@.len() == 0,
            r matches Some(recipe) ==> is_earliest(self.root.recipes@, earliest(self.root.recipes@))
                && *recipe == *self.root.recipes@[earliest(self.root.recipes@)],
    {
        let recipes = self.root.recipes.values();
        if recipes.len() == 0 {
            return None;
        }
        let mut best: usize = 0;
        let mut k: usize = 1;
        while k < recipes.len()
            invariant
                best < k <= recipes.len(),
                forall|j: int|
                    0 <= j < k ==> recipes@[best as int].name.line <= (
                    #[trigger] recipes@[j]).name.line,
                forall|j: int|
                    0 <= j < best ==> recipes@[best as int].name.line < (
                    #[trigger] recipes@[j]).name.line,
            decreases recipes.len() - k,
        {
            if recipes[k].line_number() < recipes[best].line_number() {
                best = k;
            }
            k += 1;
        }
        proof {
            lemma_earliest(recipes@, best as int);
        }
        Some(&recipes[best])
    }

    /// The number of recipes.
    pub fn count(&self) -> (n: usize)
        ensures
            n == self.root.recipes@.len(),
    {
        self.root.recipes.len()
    }

    /// The recipe whose name is nearest to `name`, if one is near.
    pub fn suggest(&self, name: &str) -> (r: Option<&str>)
        ensures
            r is Some == suggestion_of(recipe_names(self.root.recipes@), name@) is Some,
            r matches Some(s) ==> suggestion_of(recipe_names(self.root.recipes@), name@) == Some(
                s@,
            ),
    {
        self.root.suggest(name)
    }

    pub fn get_alias(&self, name: &str) -> (r: Option<&Alias>)
        ensures
            r is Some == self.root.aliases.contains(name@),
            self.root.aliases.wf() ==> (r matches Some(alias) ==> *alias == self.root.aliases.at(
                name@,
            )),
    {
        self.root.aliases.get(name)
    }

    /// The recipe that a name stands for: the recipe of that name, or the
    /// target of the alias of that name.
    pub fn get_recipe(&self, name: &str) -> (r: Option<&Recipe>)
        ensures
            r is Some == self.root.recipe_named(name@) is Some,
            self.root.wf() ==> (r matches Some(recipe) ==> Some(*recipe) == self.root.recipe_named(
                name@,
            )),
    {
        self.root.get_recipe(name)
    }

    /// The names, in the order of strings, of the variables that are to get
    /// a value and are not assigned.
    pub fn unknown_overrides<'run>(&self, overrides: &'run Vec<(String, String)>) -> (list: Vec<
        &'run str,
    >)
        ensures
            is_unknown_list(
                overrides@,
                self.root.assignments@,
                overrides@.len() as int,
                texts(list@),
            ),
    {
        let mut list: Vec<&'run str> = Vec::new();
        let mut k: usize = 0;
        assert forall|name: Seq<char>| !texts(list@).contains(name) by {}
        while k < overrides.len()
            invariant
                k <= overrides.len(),
                is_unknown_list(overrides@, self.root.assignments@, k as int, texts(list@)),
            decreases overrides.len() - k,
        {
            let name = overrides[k].0.as_str();
            let ghost before = texts(list@);
            if !self.root.assignments.contains_key(name) {
                insert_sorted(&mut list, name);
                assert(is_unknown(overrides@, self.root.assignments@, k as int));
            }
            proof {
                let after = texts(list@);
                assert forall|n: Seq<char>| after.contains(n) <==> exists|i: int|
                    i < k + 1 && #[trigger] is_unknown(overrides@, self.root.assignments@, i)
                        && overrides@[i].0@ == n by {
                    if before.contains(n) {
                        let i = choose|i: int|
                            i < k && #[trigger] is_unknown(overrides@, self.root.assignments@, i)
                                && overrides@[i].0@ == n;
                        assert(i < k + 1 && is_unknown(overrides@, self.root.assignments@, i));
                    }
                    if exists|i: int|
                        i < k + 1 && #[trigger] is_unknown(overrides@, self.root.assignments@, i)
                            && overrides@[i].0@ == n {
                        let i = choose|i: int|
                            i < k + 1 && #[trigger] is_unknown(
                                overrides@,
                                self.root.assignments@,
                                i,
                            ) && overrides@[i].0@ == n;
                        if i < k {
                            assert(before.contains(n));
                        }
                    }
                }
            }
            k += 1;
        }
        list
    }

    /// Where to begin with the values of the variables: each variable that
    /// is to get a value has it. All of them must be assigned.
    pub fn override_scope<'run>(&self, overrides: &'run Vec<(String, String)>) -> (result: Result<
        Scope,
        RuntimeError<'run>,
    >)
        ensures
            result is Ok <==> forall|i: int| !is_unknown(overrides@, self.root.assignments@, i),
            self.root.assignments.wf() ==> (result matches Ok(scope) ==> scope.bindings@
                == overridden(overrides@, self.root.assignments@, overrides@.len())),
            result matches Err(e) ==> e@ matches Refusal::UnknownOverrides { overrides: list }
                && is_unknown_list(
                overrides@,
                self.root.assignments@,
                overrides@.len() as int,
                list,
            ),
    {
        let unknown = self.unknown_overrides(overrides);
        if unknown.len() > 0 {
            proof {
                let list = texts(unknown@);
                assert(list.contains(list[0]));
            }
            return Err(RuntimeError::UnknownOverrides { overrides: unknown });
        }
        proof {
            assert forall|i: int| !is_unknown(overrides@, self.root.assignments@, i) by {
                if is_unknown(overrides@, self.root.assignments@, i) {
                    assert(texts(unknown@).contains(overrides@[i].0@));
                }
            }
        }
        let mut scope = Scope::new();
        let mut k: usize = 0;
        while k < overrides.len()
            invariant
                k <= overrides.len(),
                forall|i: int| !is_unknown(overrides@, self.root.assignments@, i),
                self.root.assignments.wf() ==> scope.bindings@ == overridden(
                    overrides@,
                    self.root.assignments@,
                    k as nat,
                ),
            decreases overrides.len() - k,
        {
            assert(!is_unknown(overrides@, self.root.assignments@, k as int));
            match self.root.assignments.get(overrides[k].0.as_str()) {
                Some(assignment) => {
                    scope.bind(
                        assignment.export,
                        assignment.name.duplicate(),
                        overrides[k].1.clone(),
                    );
                },
                None => {},
            }
            k += 1;
        }
        Ok(scope)
    }

    /// The groups of a command line: each a recipe with its arguments. The
    /// variables that are to get a value are checked once more: all of them
    /// must be assigned.
    pub fn groups<'run>(
        &'run self,
        overrides: &'run Vec<(String, String)>,
        arguments: &'run [String],
    ) -> (result: Result<Vec<Group<'run>>, RuntimeError<'run>>)
        ensures
            (exists|i: int| is_unknown(overrides@, self.root.assignments@, i)) ==> (result matches Err(
                e,
            ) && e@ matches Refusal::UnknownOverrides { overrides: list } && is_unknown_list(
                overrides@,
                self.root.assignments@,
                overrides@.len() as int,
                list,
            )),
            self.root.wf() && (forall|i: int| !is_unknown(overrides@, self.root.assignments@, i))
                ==> match result {
                Ok(groups) => self.root.groupings(arguments@, Seq::empty()) == Ok::<
                    Seq<Planned>,
                    Refusal,
                >(planned(groups@)),
                Err(e) => self.root.groupings(arguments@, Seq::empty()) == Err::<
                    Seq<Planned>,
                    Refusal,
                >(e@),
            },
    {
        let unknown = self.unknown_overrides(overrides);
        if unknown.len() > 0 {
            proof {
                let list = texts(unknown@);
                assert(list.contains(list[0]));
            }
            return Err(RuntimeError::UnknownOverrides { overrides: unknown });
        }
        proof {
            assert forall|i: int| !is_unknown(overrides@, self.root.assignments@, i) by {
                if is_unknown(overrides@, self.root.assignments@, i) {
                    assert(texts(unknown@).contains(overrides@[i].0@));
                }
            }
        }
        self.root.groups(arguments)
    }

    /// The command line that is run: the arguments given or, where none is
    /// given, the name of the first recipe, which must need no arguments.
    pub fn invocation<'run>(&'run self, arguments: &[String]) -> (result: Result<
        Vec<String>,
        RuntimeError<'run>,
    >)
        ensures
            arguments@.len() > 0 ==> (result matches Ok(line) && line@ == arguments@),
            arguments@.len() == 0 && self.root.recipes@.len() == 0 ==> (result matches Err(e)
                && e@ == Refusal::NoRecipes),
            arguments@.len() == 0 && self.root.recipes@.len() > 0 ==> {
                let recipe = self.root.recipes@[earliest(self.root.recipes@)];
                let min = min_arguments_of(recipe.parameters@);
                if min > 0 {
                    result matches Err(e) && e@ == (Refusal::DefaultRecipeRequiresArguments {
                        recipe: recipe.name.lexeme@,
                        min_arguments: min,
                    })
                } else {
                    result matches Ok(line) && line@.len() == 1 && line@[0]@ == recipe.name.lexeme@
                }
            },
    {
        if arguments.len() > 0 {
            let mut line: Vec<String> = Vec::new();
            let mut k: usize = 0;
            while k < arguments.len()
                invariant
                    k <= arguments.len(),
                    line@ == arguments@.take(k as int),
                decreases arguments.len() - k,
            {
                line.push(arguments[k].clone());
                assert(line@ =~= arguments@.take(k + 1));
                k += 1;
            }
            assert(arguments@.take(k as int) =~= arguments@);
            return Ok(line);
        }
        match self.first() {
            Some(recipe) => {
                let min_arguments = recipe.min_arguments();
                if min_arguments > 0 {
                    return Err(
                        RuntimeError::DefaultRecipeRequiresArguments {
                            recipe: recipe.name(),
                            min_arguments,
                        },
                    );
                }
                let mut line: Vec<String> = Vec::new();
                line.push(String::from_str(recipe.name()));
                Ok(line)
            },
            None => Err(RuntimeError::NoRecipes),
        }
    }
}

} // verus!
