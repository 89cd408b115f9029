//! Modules whose names are resolved, and the grouping of a command line.

use crate::alias::Alias;
use crate::assignment::Assignment;
use crate::assignment_resolver::assignments_valid;
use crate::group::{planned, Group, Planned};
use crate::keyed::Keyed;
use crate::parameter::{lemma_counts_bounded, max_arguments_of, min_arguments_of};
use crate::recipe::Recipe;
use crate::runtime_error::{Refusal, RuntimeError};
use crate::setting::Settings;
use crate::shape::{defaults_last, distinct_parameters};
use crate::submodule::Submodule;
use crate::suggestion::{suggest, suggestion_of, texts};
use crate::table::{distinct_keys, find, has_key, lemma_position, position, Table};
use std::rc::Rc;
use vstd::prelude::*;

verus! {

/// A module whose names are resolved.
#[derive(Debug, PartialEq)]
pub struct Module {
    pub aliases: Table<Alias>,
    pub assignments: Table<Assignment>,
    pub recipes: Table<Rc<Recipe>>,
    pub settings: Settings,
    /// The modules within this one, in the order of the source, each under
    /// a name of its own.
    pub submodules: Vec<Submodule>,
}

/// What holds of a recipe of a module with the given assignments and
/// recipes. Its parameters have distinct names, of which none is the name
/// of a variable, and those that need an argument come before those that
/// have a default. Each of its dependencies is the recipe of the module
/// that has its name, and gets a number of arguments that it accepts.
pub open spec fn recipe_wf(
    recipe: Recipe,
    assignments: Seq<Assignment>,
    recipes: Seq<Rc<Recipe>>,
) -> bool {
    &&& distinct_parameters(recipe.parameters@)
    &&& defaults_last(recipe.parameters@)
    &&& forall|p: int|
        0 <= p < recipe.parameters@.len() ==> !has_key(
            assignments,
            (#[trigger] recipe.parameters@[p]).name.lexeme@,
        )
    &&& forall|d: int|
        0 <= d < recipe.dependencies@.len() ==> {
            let dependency = #[trigger] recipe.dependencies@[d];
            &&& has_key(recipes, dependency.recipe.key_spec())
            &&& recipes[position(recipes, dependency.recipe.key_spec())] == dependency.recipe
            &&& dependency.recipe.argument_range_spec().holds(dependency.arguments@.len() as usize)
        }
}

/// What becomes of a name on the command line and the arguments behind
/// it.
pub enum Grouping {
    /// The name stands for `recipe`, which takes the `count` arguments
    /// before the place `consumed`.
    Group { recipe: Recipe, count: nat, consumed: nat },
    /// The name or the number of arguments is refused.
    Refused { error: Refusal },
}

/// The names of recipes.
pub open spec fn recipe_names(recipes: Seq<Rc<Recipe>>) -> Seq<Seq<char>> {
    Seq::new(recipes.len(), |i: int| recipes[i].key_spec())
}

impl Module {
    /// What holds of a module that the analyzer accepted. Within the
    /// assignments, and within the aliases, recipes and modules taken
    /// together, no name occurs twice. The assignments can be evaluated.
    /// Every recipe is well formed, every alias stands for a recipe of the
    /// module, and modules occur only where the setting allows them, each
    /// well formed itself.
    pub open spec fn wf(&self) -> bool
        decreases self,
    {
        &&& distinct_keys(self.aliases@)
        &&& distinct_keys(self.assignments@)
        &&& distinct_keys(self.recipes@)
        &&& distinct_keys(self.submodules@)
        &&& forall|a: int|
            0 <= a < self.aliases@.len() ==> !has_key(
                self.recipes@,
                (#[trigger] self.aliases@[a]).key_spec(),
            ) && !has_key(self.submodules@, self.aliases@[a].key_spec())
        &&& forall|i: int|
            0 <= i < self.recipes@.len() ==> !has_key(
                self.submodules@,
                (#[trigger] self.recipes@[i]).key_spec(),
            )
        &&& assignments_valid(self.assignments@)
        &&& forall|i: int|
            0 <= i < self.recipes@.len() ==> recipe_wf(
                *#[trigger] self.recipes@[i],
                self.assignments@,
                self.recipes@,
            )
        &&& forall|a: int|
            0 <= a < self.aliases@.len() ==> has_key(
                self.recipes@,
                (#[trigger] self.aliases@[a]).target.key_spec(),
            ) && self.recipes@[position(self.recipes@, self.aliases@[a].target.key_spec())]
                == self.aliases@[a].target
        &&& self.submodules@.len() > 0 ==> self.settings.module_experiment
        &&& forall|s: int|
            0 <= s < self.submodules@.len() ==> (#[trigger] self.submodules@[s]).items.wf()
    }

    /// The recipe that a name stands for: the recipe of that name, or the
    /// target of the alias of that name.
    pub open spec fn recipe_named(&self, name: Seq<char>) -> Option<Recipe> {
        if has_key(self.recipes@, name) {
            Some(*self.recipes@[position(self.recipes@, name)])
        } else if has_key(self.aliases@, name) {
            Some(*self.aliases@[position(self.aliases@, name)].target)
        } else {
            None
        }
    }

    /// What becomes of `name` with `arguments` behind it. A recipe, under
    /// its name or that of an alias, takes as many of the arguments as it
    /// accepts, and is refused if those are too few. A module hands the
    /// arguments on: the first of them is looked up in it. Any other name
    /// is refused, with the name of a recipe that may have been meant.
    pub open spec fn grouping(&self, name: Seq<char>, arguments: Seq<String>) -> Grouping
        decreases self,
    {
        match self.recipe_named(name) {
            Some(recipe) => {
                let min = min_arguments_of(recipe.parameters@);
                let max = max_arguments_of(recipe.parameters@);
                let count = if arguments.len() <= max {
                    arguments.len()
                } else {
                    max
                };
                if min <= count {
                    Grouping::Group { recipe, count, consumed: count }
                } else {
                    Grouping::Refused {
                        error: Refusal::ArgumentCountMismatch {
                            recipe: recipe.name.lexeme@,
                            parameters: recipe.parameters@,
                            found: arguments.len(),
                            min,
                            max,
                        },
                    }
                }
            },
            None => if has_key(self.submodules@, name) {
                if arguments.len() == 0 {
                    Grouping::Refused { error: Refusal::SubmoduleRequiresRecipe { module: name } }
                } else {
                    match self.submodules@[position(self.submodules@, name)].items.grouping(
                        arguments[0]@,
                        arguments.skip(1),
                    ) {
                        Grouping::Group { recipe, count, consumed } => Grouping::Group {
                            recipe,
                            count,
                            consumed: consumed + 1,
                        },
                        refused => refused,
                    }
                }
            } else {
                Grouping::Refused {
                    error: Refusal::UnknownRecipe {
                        recipe: name,
                        suggestion: suggestion_of(recipe_names(self.recipes@), name),
                    },
                }
            },
        }
    }

    /// What becomes of a command line: group after group is taken from its
    /// front and added to those that are `done`, until nothing is left or a
    /// name or a number of arguments is refused.
    pub open spec fn groupings(&self, arguments: Seq<String>, done: Seq<Planned>) -> Result<
        Seq<Planned>,
        Refusal,
    >
        decreases arguments.len(),
    {
        if arguments.len() == 0 {
            Ok(done)
        } else {
            match self.grouping(arguments[0]@, arguments.skip(1)) {
                Grouping::Group { recipe, count, consumed } => if count <= consumed
                    < arguments.len() {
                    self.groupings(
                        arguments.skip((consumed + 1) as int),
                        done.push(
                            Planned {
                                recipe,
                                arguments: arguments.subrange(consumed + 1 - count, (consumed + 1) as int),
                            },
                        ),
                    )
                } else {
                    Ok(done)
                },
                Grouping::Refused { error } => Err(error),
            }
        }
    }

    /// Splits a command line into groups: each a recipe with its
    /// arguments.
    pub fn groups<'run>(&'run self, arguments: &'run [String]) -> (result: Result<
        Vec<Group<'run>>,
        RuntimeError<'run>,
    >)
        ensures
            self.wf() ==> match result {
                Ok(groups) => self.groupings(arguments@, Seq::empty()) == Ok::<
                    Seq<Planned>,
                    Refusal,
                >(planned(groups@)),
                Err(e) => self.groupings(arguments@, Seq::empty()) == Err::<Seq<Planned>, Refusal>(
                    e@,
                ),
            },
    {
        let mut groups: Vec<Group<'run>> = Vec::new();
        let mut rest = arguments;
        assert(planned(groups@) =~= Seq::empty());
        while rest.len() > 0
            invariant
                self.wf() ==> self.groupings(arguments@, Seq::empty()) == self.groupings(
                    rest@,
                    planned(groups@),
                ),
            decreases rest@.len(),
        {
            let head = rest[0].as_str();
            let tail = vstd::slice::slice_subrange(rest, 1, rest.len());
            assert(tail@ == rest@.skip(1));
            match self.group(head, tail) {
                Ok((group, remaining)) => {
                    proof {
                      if self.wf() {
                        let found = self.grouping(rest@[0]@, rest@.skip(1));
                        let consumed = found->consumed;
                        let count = found->count;
                        assert(tail@.subrange(consumed - count, consumed as int)
                            =~= rest@.subrange(consumed + 1 - count, (consumed + 1) as int));
                        assert(tail@.skip(consumed as int) =~= rest@.skip((consumed + 1) as int));
                        assert(planned(groups@.push(group)) =~= planned(groups@).push(group@));
                      }
                    }
                    groups.push(group);
                    rest = remaining;
                },
                Err(error) => {
                    return Err(error);
                },
            }
        }
        Ok(groups)
    }

    /// The recipe whose name is nearest to `name`, if one is near.
    pub fn suggest(&self, name: &str) -> (r: Option<&str>)
        ensures
            r is Some == suggestion_of(recipe_names(self.recipes@), name@) is Some,
            r matches Some(s) ==> suggestion_of(recipe_names(self.recipes@), name@) == Some(s@),
    {
        let keys = self.recipes.keys();
        assert(texts(keys@) =~= recipe_names(self.recipes@));
        suggest(&keys, name)
    }

    /// Looks `name` up and gives the recipe that it stands for its
    /// arguments. Returns the group and the arguments that are left.
    pub fn group<'run>(&'run self, name: &'run str, arguments: &'run [String]) -> (result: Result<
        (Group<'run>, &'run [String]),
        RuntimeError<'run>,
    >)
        ensures
            result matches Ok((_, rest)) ==> rest@.len() <= arguments@.len(),
            self.wf() ==> match result {
                Ok((group, rest)) => self.grouping(name@, arguments@) matches Grouping::Group {
                    recipe,
                    count,
                    consumed,
                } && *group.recipe == recipe && count <= consumed <= arguments@.len()
                    && group.arguments@ == arguments@.subrange(consumed - count, consumed as int)
                    && rest@ == arguments@.skip(consumed as int),
                Err(e) => self.grouping(name@, arguments@) == (Grouping::Refused { error: e@ }),
            },
        decreases self,
    {
        if let Some(recipe) = self.get_recipe(name) {
            let range = recipe.argument_range();
            let argument_count = if arguments.len() <= range.max {
                arguments.len()
            } else {
                range.max
            };
            proof {
                lemma_counts_bounded(recipe.parameters@, recipe.parameters@.len());
            }
            if !range.range_contains(argument_count) {
                return Err(
                    RuntimeError::ArgumentCountMismatch {
                        recipe: recipe.name(),
                        parameters: &recipe.parameters,
                        found: arguments.len(),
                        min: range.min,
                        max: range.max,
                    },
                );
            }
            let taken = vstd::slice::slice_subrange(arguments, 0, argument_count);
            let rest = vstd::slice::slice_subrange(arguments, argument_count, arguments.len());
            Ok((Group { arguments: taken, recipe }, rest))
        } else if let Some(k) = find(&self.submodules, name) {
            if arguments.len() == 0 {
                return Err(RuntimeError::SubmoduleRequiresRecipe { module: name });
            }
            let submodule = &self.submodules[k];
            let tail = vstd::slice::slice_subrange(arguments, 1, arguments.len());
            assert(tail@ == arguments@.skip(1));
            match submodule.items.group(arguments[0].as_str(), tail) {
                Ok((group, rest)) => {
                    proof {
                      if self.wf() {
                        let inner = submodule.items.grouping(arguments@[0]@, arguments@.skip(1));
                        let consumed = inner->consumed;
                        let count = inner->count;
                        assert(tail@.subrange(consumed - count, consumed as int)
                            =~= arguments@.subrange(consumed + 1 - count, (consumed + 1) as int));
                        assert(tail@.skip(consumed as int) =~= arguments@.skip((consumed + 1) as int));
                      }
                    }
                    Ok((group, rest))
                },
                Err(error) => Err(error),
            }
        } else {
            Err(RuntimeError::UnknownRecipe { recipe: name, suggestion: self.suggest(name) })
        }
    }

    pub fn get_recipe(&self, name: &str) -> (r: Option<&Recipe>)
        ensures
            r is Some == self.recipe_named(name@) is Some,
            self.wf() ==> (r matches Some(recipe) ==> Some(*recipe) == self.recipe_named(name@)),
    {
        if let Some(recipe) = self.recipes.get(name) {
            Some(recipe)
        } else if let Some(alias) = self.aliases.get(name) {
            Some(&alias.target)
        } else {
            None
        }
    }
}

/// An alias stands for its target: with the same arguments behind it, the
/// name of an alias is grouped as the name of the recipe that it stands
/// for.
pub proof fn lemma_alias_is_transparent(
    module: Module,
    a: int,
    alias: String,
    target: String,
    arguments: Seq<String>,
)
    requires
        module.wf(),
        0 <= a < module.aliases@.len(),
        alias@ == module.aliases@[a].key_spec(),
        target@ == module.aliases@[a].target.key_spec(),
    ensures
        module.grouping(alias@, arguments) == module.grouping(target@, arguments),
        module.groupings(seq![alias] + arguments, Seq::empty()) == module.groupings(
            seq![target] + arguments,
            Seq::empty(),
        ),
{
    lemma_position(module.aliases@, alias@, a);
    assert(module.recipe_named(alias@) == Some(*module.aliases@[a].target));
    assert(module.recipe_named(target@) == Some(*module.aliases@[a].target));
    let one = seq![alias] + arguments;
    let other = seq![target] + arguments;
    assert(one.skip(1) =~= arguments);
    assert(other.skip(1) =~= arguments);
    let found = module.grouping(alias@, arguments);
    if let Grouping::Group { recipe, count, consumed } = found {
        if count <= consumed < one.len() {
            assert(one.skip((consumed + 1) as int) =~= other.skip((consumed + 1) as int));
            assert(one.subrange(consumed + 1 - count, (consumed + 1) as int) =~= other.subrange(
                consumed + 1 - count,
                (consumed + 1) as int,
            ));
        }
    }
}

} // verus!
