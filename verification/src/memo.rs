//! Within one run no dependency runs twice with the same arguments.

use crate::keyed::Keyed;
use crate::group::Planned;
use crate::module::{recipe_wf, Grouping, Module};
use crate::recipe::{Dependency, Recipe};
use crate::runner::{coherent, decide, invocation_of, next, Entered, Expecting, Signal, State};
use crate::table::{has_key, position};
use vstd::prelude::*;

verus! {

/// The state of a run after a row of events.
pub open spec fn run(start: State, signals: Seq<Signal>) -> State
    decreases signals.len(),
{
    if signals.len() == 0 {
        start
    } else {
        next(run(start, signals.drop_last()), signals.last()).0
    }
}

/// Whether an event finishes the run of a dependency: the body of the
/// recipe on top has run, and the recipe was not asked for on the command
/// line but entered as a dependency.
pub open spec fn finishes_dependency(s: State, signal: Signal) -> bool {
    signal is Done && s.expecting == Expecting::Body && s.stack.len() >= 2
}

/// The runs of dependencies that a row of events finishes, in their
/// order.
pub open spec fn finished(start: State, signals: Seq<Signal>) -> Seq<Seq<Seq<char>>>
    decreases signals.len(),
{
    if signals.len() == 0 {
        Seq::empty()
    } else {
        let before = run(start, signals.drop_last());
        let earlier = finished(start, signals.drop_last());
        if finishes_dependency(before, signals.last()) {
            earlier.push(invocation_of(before.stack.last().recipe, before.stack.last().arguments))
        } else {
            earlier
        }
    }
}

/// How far the dependencies of a recipe reach: one more than those of its
/// dependencies do.
pub open spec fn height(recipe: Recipe) -> nat
    decreases recipe,
{
    1 + heights(recipe.dependencies@, recipe.dependencies@.len())
}

/// How far the first `n` of the dependencies reach.
pub open spec fn heights(dependencies: Seq<Dependency>, n: nat) -> nat
    decreases dependencies, n,
{
    if n == 0 || n > dependencies.len() {
        0
    } else {
        let before = heights(dependencies, (n - 1) as nat);
        let own = height(*dependencies[n - 1].recipe);
        if before < own {
            own
        } else {
            before
        }
    }
}

proof fn lemma_heights(dependencies: Seq<Dependency>, n: nat, d: int)
    requires
        0 <= d < n <= dependencies.len(),
    ensures
        height(*dependencies[d].recipe) <= heights(dependencies, n),
    decreases n,
{
    if d < n - 1 {
        lemma_heights(dependencies, (n - 1) as nat, d);
    }
}

/// A dependency reaches less far than the recipe that depends on it.
pub proof fn lemma_dependency_is_lower(recipe: Recipe, d: int)
    requires
        0 <= d < recipe.dependencies@.len(),
    ensures
        height(*recipe.dependencies@[d].recipe) < height(recipe),
{
    lemma_heights(recipe.dependencies@, recipe.dependencies@.len(), d);
}

/// The recipe that a dependency names.
pub open spec fn target_of(dependency: Dependency) -> Recipe {
    *dependency.recipe
}

/// Whether `recipe` is one of the recipes of `module`.
pub open spec fn is_recipe_of(module: Module, recipe: Recipe) -> bool {
    exists|i: int| 0 <= i < module.recipes@.len() && *(#[trigger] module.recipes@[i]) == recipe
}

/// Whether `recipe` is a recipe of a well-formed module.
pub open spec fn is_module_recipe(recipe: Recipe) -> bool {
    exists|module: Module| module.wf() && #[trigger] is_recipe_of(module, recipe)
}

/// The dependencies of a recipe of a well-formed module are recipes of
/// that module.
pub proof fn lemma_dependency_in_module(module: Module, recipe: Recipe, d: int)
    requires
        module.wf(),
        is_recipe_of(module, recipe),
        0 <= d < recipe.dependencies@.len(),
    ensures
        is_recipe_of(module, *recipe.dependencies@[d].recipe),
{
    let i = choose|i: int| 0 <= i < module.recipes@.len() && *(#[trigger] module.recipes@[i]) == recipe;
    assert(recipe_wf(*module.recipes@[i], module.assignments@, module.recipes@));
    let dependency = recipe.dependencies@[d];
    let j = position(module.recipes@, dependency.recipe.key_spec());
    assert(module.recipes@[j] == dependency.recipe);
}

/// Two recipes of a well-formed module that have the same name are the
/// same recipe.
pub proof fn lemma_name_tells_recipe(module: Module, a: Recipe, b: Recipe)
    requires
        module.wf(),
        is_recipe_of(module, a),
        is_recipe_of(module, b),
        a.name.lexeme@ == b.name.lexeme@,
    ensures
        a == b,
{
    let i = choose|i: int| 0 <= i < module.recipes@.len() && *(#[trigger] module.recipes@[i]) == a;
    let j = choose|j: int| 0 <= j < module.recipes@.len() && *(#[trigger] module.recipes@[j]) == b;
    if i != j {
        assert(module.recipes@[i].key_spec() == module.recipes@[j].key_spec());
    }
}

/// What a name on the command line is grouped to is a recipe of a
/// well-formed module, where the module that groups it is well formed.
pub proof fn lemma_grouped_recipe(module: Module, name: Seq<char>, arguments: Seq<String>)
    requires
        module.wf(),
        module.grouping(name, arguments) is Group,
    ensures
        is_module_recipe(module.grouping(name, arguments)->recipe),
    decreases module,
{
    let found = module.grouping(name, arguments)->recipe;
    if has_key(module.recipes@, name) {
        assert(is_recipe_of(module, found));
    } else if has_key(module.aliases@, name) {
        let a = position(module.aliases@, name);
        let target = module.aliases@[a].target;
        let i = position(module.recipes@, target.key_spec());
        assert(module.recipes@[i] == target);
        assert(is_recipe_of(module, found));
    } else {
        let k = position(module.submodules@, name);
        lemma_grouped_recipe(module.submodules@[k].items, arguments[0]@, arguments.skip(1));
    }
}

/// The recipes of the groups of a command line are recipes of well-formed
/// modules, where the module that groups it is well formed.
pub proof fn lemma_grouped_recipes(module: Module, arguments: Seq<String>, done: Seq<Planned>)
    requires
        module.wf(),
        forall|i: int| 0 <= i < done.len() ==> is_module_recipe((#[trigger] done[i]).recipe),
    ensures
        module.groupings(arguments, done) matches Ok(groups) ==> forall|i: int|
            0 <= i < groups.len() ==> is_module_recipe((#[trigger] groups[i]).recipe),
    decreases arguments.len(),
{
    if arguments.len() > 0 {
        if let Grouping::Group { recipe, count, consumed } = module.grouping(
            arguments[0]@,
            arguments.skip(1),
        ) {
            if count <= consumed < arguments.len() {
                lemma_grouped_recipe(module, arguments[0]@, arguments.skip(1));
                let group = Planned {
                    recipe,
                    arguments: arguments.subrange(consumed + 1 - count, (consumed + 1) as int),
                };
                let more = done.push(group);
                assert forall|i: int| 0 <= i < more.len() implies is_module_recipe(
                    (#[trigger] more[i]).recipe,
                ) by {
                    if i < done.len() {
                        assert(more[i] == done[i]);
                    }
                }
                lemma_grouped_recipes(module, arguments.skip((consumed + 1) as int), more);
            }
        }
    }
}

/// What holds of a run and of the runs of dependencies that it has
/// finished. Every finished run is remembered, and none was finished twice.
/// No recipe that was entered as a dependency has a run remembered with its
/// arguments. The recipes that are entered belong to one well-formed
/// module, and each reaches less far than the one below it.
pub open spec fn is_orderly(s: State, log: Seq<Seq<Seq<char>>>) -> bool {
    &&& coherent(s)
    &&& forall|i: int| 0 <= i < s.groups.len() ==> is_module_recipe((#[trigger] s.groups[i]).recipe)
    &&& forall|k: int| 0 <= k < log.len() ==> s.ran.contains(#[trigger] log[k])
    &&& log.no_duplicates()
    &&& forall|i: int|
        1 <= i < s.stack.len() ==> !s.ran.contains(
            invocation_of((#[trigger] s.stack[i]).recipe, s.stack[i].arguments),
        )
    &&& exists|module: Module| #[trigger] holds_stack(module, s.stack)
    &&& forall|i: int, j: int|
        0 <= i < j < s.stack.len() ==> height((#[trigger] s.stack[j]).recipe) < height(
            (#[trigger] s.stack[i]).recipe,
        )
}

/// Whether the recipes that are entered are recipes of `module`, which is
/// well formed.
pub open spec fn holds_stack(module: Module, stack: Seq<Entered>) -> bool {
    stack.len() > 0 ==> module.wf() && forall|i: int|
        0 <= i < stack.len() ==> is_recipe_of(module, (#[trigger] stack[i]).recipe)
}

/// Whether a run begins in this state: nothing is begun or remembered,
/// and each recipe that was asked for is a recipe of a well-formed module.
pub open spec fn is_start(s: State) -> bool {
    &&& s.begun == 0
    &&& s.stack.len() == 0
    &&& s.ran == Set::<Seq<Seq<char>>>::empty()
    &&& s.expecting == Expecting::Nothing
    &&& forall|i: int| 0 <= i < s.groups.len() ==> (#[trigger] s.groups[i]).next == 0
    &&& forall|i: int| 0 <= i < s.groups.len() ==> is_module_recipe((#[trigger] s.groups[i]).recipe)
}

/// Recipes that are entered together have different names.
proof fn lemma_entered_differ(s: State, log: Seq<Seq<Seq<char>>>, i: int, j: int)
    requires
        is_orderly(s, log),
        0 <= i < j < s.stack.len(),
    ensures
        invocation_of(s.stack[i].recipe, s.stack[i].arguments) != invocation_of(
            s.stack[j].recipe,
            s.stack[j].arguments,
        ),
{
    let module = choose|module: Module| #[trigger] holds_stack(module, s.stack);
    let a = s.stack[i];
    let b = s.stack[j];
    if a.recipe.name.lexeme@ == b.recipe.name.lexeme@ {
        lemma_name_tells_recipe(module, a.recipe, b.recipe);
    }
    assert(invocation_of(a.recipe, a.arguments)[0] == a.recipe.name.lexeme@);
    assert(invocation_of(b.recipe, b.arguments)[0] == b.recipe.name.lexeme@);
}

/// `decide` keeps what holds of a run.
proof fn lemma_decide_keeps(s: State, log: Seq<Seq<Seq<char>>>)
    requires
        is_orderly(State { expecting: Expecting::Nothing, ..s }, log) || (s.stack.len() > 0
            && is_orderly(State { expecting: Expecting::Scope, ..s }, log)),
    ensures
        is_orderly(decide(s).0, log),
{
    let after = decide(s).0;
    if s.stack.len() == 0 {
        if s.begun < s.groups.len() {
            let group = s.groups[s.begun as int];
            assert(is_module_recipe(group.recipe));
            let module = choose|module: Module|
                module.wf() && #[trigger] is_recipe_of(module, group.recipe);
            assert(holds_stack(module, after.stack));
        } else {
            let module = choose|module: Module| #[trigger] holds_stack(module, s.stack);
            assert(holds_stack(module, after.stack));
        }
    } else {
        let module = choose|module: Module| #[trigger] holds_stack(module, s.stack);
        assert(holds_stack(module, after.stack));
    }
}

/// A step keeps what holds of a run.
pub proof fn lemma_step_keeps(s: State, log: Seq<Seq<Seq<char>>>, signal: Signal)
    requires
        is_orderly(s, log),
    ensures
        is_orderly(
            next(s, signal).0,
            if finishes_dependency(s, signal) {
                log.push(invocation_of(s.stack.last().recipe, s.stack.last().arguments))
            } else {
                log
            },
        ),
{
    let module = choose|module: Module| #[trigger] holds_stack(module, s.stack);
    match signal {
        Signal::Done => match s.expecting {
            Expecting::Nothing => {
                lemma_decide_keeps(s, log);
            },
            Expecting::Scope => {
                lemma_decide_keeps(s, log);
            },
            Expecting::Body => {
                let top = s.stack.last();
                let x = invocation_of(top.recipe, top.arguments);
                let popped = State { stack: s.stack.drop_last(), ran: s.ran.insert(x), ..s };
                let after = if s.stack.len() >= 2 {
                    log.push(x)
                } else {
                    log
                };
                let calm = State {
                    expecting: if popped.stack.len() > 0 {
                        Expecting::Scope
                    } else {
                        Expecting::Nothing
                    },
                    ..popped
                };
                assert(holds_stack(module, popped.stack)) by {
                    assert forall|i: int| 0 <= i < popped.stack.len() implies is_recipe_of(
                        module,
                        (#[trigger] popped.stack[i]).recipe,
                    ) by {
                        assert(popped.stack[i] == s.stack[i]);
                    }
                }
                assert forall|i: int| 1 <= i < popped.stack.len() implies !popped.ran.contains(
                    invocation_of((#[trigger] popped.stack[i]).recipe, popped.stack[i].arguments),
                ) by {
                    assert(popped.stack[i] == s.stack[i]);
                    lemma_entered_differ(s, log, i, s.stack.len() - 1);
                }
                assert forall|i: int, j: int| 0 <= i < j < popped.stack.len() implies height(
                    (#[trigger] popped.stack[j]).recipe,
                ) < height((#[trigger] popped.stack[i]).recipe) by {
                    assert(popped.stack[i] == s.stack[i]);
                    assert(popped.stack[j] == s.stack[j]);
                }
                assert forall|i: int| 0 <= i < popped.stack.len() implies (
                #[trigger] popped.stack[i]).next <= popped.stack[i].recipe.dependencies@.len() by {
                    assert(popped.stack[i] == s.stack[i]);
                }
                assert(after.no_duplicates()) by {
                    if s.stack.len() >= 2 {
                        assert(!s.ran.contains(x));
                        assert forall|a: int, b: int|
                            0 <= a < after.len() && 0 <= b < after.len() && a != b implies after[a]
                            != after[b] by {
                            if a < log.len() {
                                assert(s.ran.contains(log[a]));
                            }
                            if b < log.len() {
                                assert(s.ran.contains(log[b]));
                            }
                        }
                    }
                }
                assert forall|k: int| 0 <= k < after.len() implies popped.ran.contains(
                    #[trigger] after[k],
                ) by {
                    if k < log.len() {
                        assert(s.ran.contains(log[k]));
                    }
                }
                assert(is_orderly(calm, after));
                lemma_decide_keeps(popped, after);
            },
            Expecting::Values => {},
        },
        Signal::Evaluated(values) => match s.expecting {
            Expecting::Values => {
                let top = s.stack.last();
                let dependency = top.recipe.dependencies@[top.next as int];
                let moved = Entered { next: top.next + 1, ..top };
                let advanced = s.stack.drop_last().push(moved);
                let last = s.stack.len() - 1;
                assert forall|i: int| 0 <= i < advanced.len() implies (#[trigger] advanced[i]).recipe
                    == s.stack[i].recipe && advanced[i].arguments == s.stack[i].arguments
                    && advanced[i].next <= advanced[i].recipe.dependencies@.len() by {
                    if i < last {
                        assert(advanced[i] == s.stack[i]);
                    }
                }
                assert(holds_stack(module, advanced)) by {
                    assert forall|i: int| 0 <= i < advanced.len() implies is_recipe_of(
                        module,
                        (#[trigger] advanced[i]).recipe,
                    ) by {
                        assert(advanced[i].recipe == s.stack[i].recipe);
                    }
                }
                let stepped = State { stack: advanced, ..s };
                assert forall|i: int| 1 <= i < advanced.len() implies !s.ran.contains(
                    invocation_of((#[trigger] advanced[i]).recipe, advanced[i].arguments),
                ) by {
                    assert(advanced[i].recipe == s.stack[i].recipe);
                }
                assert forall|i: int, j: int| 0 <= i < j < advanced.len() implies height(
                    (#[trigger] advanced[j]).recipe,
                ) < height((#[trigger] advanced[i]).recipe) by {
                    assert(advanced[i].recipe == s.stack[i].recipe);
                    assert(advanced[j].recipe == s.stack[j].recipe);
                }
                if s.ran.contains(invocation_of(target_of(dependency), values)) {
                    assert(is_orderly(State { expecting: Expecting::Scope, ..stepped }, log));
                    lemma_decide_keeps(stepped, log);
                } else {
                    let entered = Entered { recipe: target_of(dependency), arguments: values, next: 0 };
                    let pushed = advanced.push(entered);
                    lemma_dependency_in_module(module, top.recipe, top.next as int);
                    lemma_dependency_is_lower(top.recipe, top.next as int);
                    assert(holds_stack(module, pushed)) by {
                        assert forall|i: int| 0 <= i < pushed.len() implies is_recipe_of(
                            module,
                            (#[trigger] pushed[i]).recipe,
                        ) by {
                            if i < advanced.len() {
                                assert(pushed[i] == advanced[i]);
                            }
                        }
                    }
                    assert forall|i: int| 1 <= i < pushed.len() implies !s.ran.contains(
                        invocation_of((#[trigger] pushed[i]).recipe, pushed[i].arguments),
                    ) by {
                        if i < advanced.len() {
                            assert(pushed[i] == advanced[i]);
                        }
                    }
                    assert forall|i: int, j: int| 0 <= i < j < pushed.len() implies height(
                        (#[trigger] pushed[j]).recipe,
                    ) < height((#[trigger] pushed[i]).recipe) by {
                        assert(pushed[i] == advanced[i]);
                        if j < advanced.len() {
                            assert(pushed[j] == advanced[j]);
                        } else {
                            assert(advanced[last].recipe == top.recipe);
                            if i < last {
                                assert(height(advanced[last].recipe) < height(advanced[i].recipe));
                            }
                        }
                    }
                    assert forall|i: int| 0 <= i < pushed.len() implies (#[trigger] pushed[i]).next
                        <= pushed[i].recipe.dependencies@.len() by {
                        if i < advanced.len() {
                            assert(pushed[i] == advanced[i]);
                        }
                    }
                }
            },
            _ => {},
        },
    }
}

/// What holds of a run holds after any row of events.
pub proof fn lemma_run_keeps(start: State, signals: Seq<Signal>)
    requires
        is_start(start),
    ensures
        is_orderly(run(start, signals), finished(start, signals)),
    decreases signals.len(),
{
    if signals.len() == 0 {
        let module = arbitrary::<Module>();
        assert(holds_stack(module, start.stack));
    } else {
        lemma_run_keeps(start, signals.drop_last());
        lemma_step_keeps(
            run(start, signals.drop_last()),
            finished(start, signals.drop_last()),
            signals.last(),
        );
    }
}

/// Within one run no dependency is run twice with the same arguments:
/// whatever the events, the runs of dependencies that they finish are all
/// different. A recipe may still run again with other arguments.
pub proof fn lemma_dependencies_run_once(start: State, signals: Seq<Signal>)
    requires
        is_start(start),
    ensures
        finished(start, signals).no_duplicates(),
{
    lemma_run_keeps(start, signals);
}

/// A dependency of which a run with the same values is remembered is not
/// entered: the recipe that depends on it goes on to what is next.
pub proof fn lemma_remembered_is_skipped(s: State, values: Seq<Seq<char>>)
    requires
        coherent(s),
        s.expecting == Expecting::Values,
        s.ran.contains(
            invocation_of(
                *s.stack.last().recipe.dependencies@[s.stack.last().next as int].recipe,
                values,
            ),
        ),
    ensures
        next(s, Signal::Evaluated(values)).0.stack.len() == s.stack.len(),
        next(s, Signal::Evaluated(values)).0.ran == s.ran,
        !(next(s, Signal::Evaluated(values)).1 is Enter),
{
}

/// A run that is finished is remembered, and what is remembered stays so.
pub proof fn lemma_finished_is_remembered(s: State, signal: Signal)
    requires
        coherent(s),
    ensures
        s.ran.subset_of(next(s, signal).0.ran),
        signal is Done && s.expecting == Expecting::Body ==> next(s, signal).0.ran.contains(
            invocation_of(s.stack.last().recipe, s.stack.last().arguments),
        ),
{
}

} // verus!
