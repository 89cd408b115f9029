//! The steps of a run: what is to be evaluated and run, and in what order.

use crate::group::Group;
use crate::recipe::Recipe;
use crate::strings::{same, words};
use vstd::prelude::*;

verus! {

/// What a run of a recipe is remembered by: the name of the recipe, then
/// the arguments.
pub open spec fn invocation_of(recipe: Recipe, arguments: Seq<Seq<char>>) -> Seq<Seq<char>> {
    seq![recipe.name.lexeme@] + arguments
}

/// What the runner waits for.
#[derive(Debug, PartialEq, Eq, Clone, Copy, Structural)]
pub enum Expecting {
    /// Nothing: it is idle.
    Nothing,
    /// The parameters of the recipe on top to be evaluated.
    Scope,
    /// The values of the arguments of a dependency.
    Values,
    /// The body of the recipe on top to have run.
    Body,
}

/// A recipe that was entered and is not finished.
pub struct Frame<'run> {
    pub recipe: &'run Recipe,
    /// The arguments that it was entered with.
    pub arguments: Vec<String>,
    /// How many of its dependencies are dealt with.
    pub next: usize,
}

/// What a frame holds.
pub struct Entered {
    pub recipe: Recipe,
    pub arguments: Seq<Seq<char>>,
    pub next: nat,
}

impl<'run> View for Frame<'run> {
    type V = Entered;

    open spec fn view(&self) -> Entered {
        Entered { recipe: *self.recipe, arguments: words(self.arguments@), next: self.next as nat }
    }
}

/// What is told to the runner.
#[derive(Debug, PartialEq)]
pub enum Event {
    /// What was asked for last is done; also the word to begin.
    Done,
    /// The arguments of the dependency that was asked about have these
    /// values.
    Evaluated(Vec<String>),
}

/// What an event says.
pub enum Signal {
    Done,
    Evaluated(Seq<Seq<char>>),
}

impl View for Event {
    type V = Signal;

    open spec fn view(&self) -> Signal {
        match self {
            Event::Done => Signal::Done,
            Event::Evaluated(values) => Signal::Evaluated(words(values@)),
        }
    }
}

/// What the runner asks for.
#[derive(Debug, PartialEq)]
pub enum Action<'run> {
    /// Evaluate the parameters of the recipe for these arguments, and keep
    /// the scope that results for as long as the recipe is not finished.
    Enter { recipe: &'run Recipe, arguments: Vec<String> },
    /// Evaluate, in the scope of the recipe, the arguments of its
    /// dependency of this number.
    Evaluate { recipe: &'run Recipe, dependency: usize },
    /// Run the body of the recipe in its scope.
    Execute { recipe: &'run Recipe },
    /// Nothing is left to do.
    Finished,
}

/// What an action says.
pub enum Request {
    Enter { recipe: Recipe, arguments: Seq<Seq<char>> },
    Evaluate { recipe: Recipe, dependency: nat },
    Execute { recipe: Recipe },
    Finished,
}

impl<'run> View for Action<'run> {
    type V = Request;

    open spec fn view(&self) -> Request {
        match self {
            Action::Enter { recipe, arguments } => Request::Enter {
                recipe: **recipe,
                arguments: words(arguments@),
            },
            Action::Evaluate { recipe, dependency } => Request::Evaluate {
                recipe: **recipe,
                dependency: *dependency as nat,
            },
            Action::Execute { recipe } => Request::Execute { recipe: **recipe },
            Action::Finished => Request::Finished,
        }
    }
}

/// The state of a run.
pub struct State {
    /// The recipes that were asked for, each with its arguments.
    pub groups: Seq<Entered>,
    /// How many of them were begun.
    pub begun: nat,
    /// The recipes that were entered and are not finished: the one that was
    /// asked for at the bottom, above each one a dependency of it.
    pub stack: Seq<Entered>,
    /// The runs that are finished.
    pub ran: Set<Seq<Seq<char>>>,
    pub expecting: Expecting,
}

/// What the runner asks for when nothing is awaited. The recipe on top
/// has its next dependency looked at or, when none is left, its body run.
/// With no recipe entered, the next that was asked for is entered.
pub open spec fn decide(s: State) -> (State, Request) {
    if s.stack.len() == 0 {
        if s.begun < s.groups.len() {
            let group = s.groups[s.begun as int];
            (
                State {
                    begun: s.begun + 1,
                    stack: seq![group],
                    expecting: Expecting::Scope,
                    ..s
                },
                Request::Enter { recipe: group.recipe, arguments: group.arguments },
            )
        } else {
            (State { expecting: Expecting::Nothing, ..s }, Request::Finished)
        }
    } else {
        let top = s.stack.last();
        if top.next < top.recipe.dependencies@.len() {
            (
                State { expecting: Expecting::Values, ..s },
                Request::Evaluate { recipe: top.recipe, dependency: top.next },
            )
        } else {
            (State { expecting: Expecting::Body, ..s }, Request::Execute { recipe: top.recipe })
        }
    }
}

/// What is awaited, asked for again.
pub open spec fn repeat(s: State) -> Request {
    let top = s.stack.last();
    match s.expecting {
        Expecting::Nothing => Request::Finished,
        Expecting::Scope => Request::Enter { recipe: top.recipe, arguments: top.arguments },
        Expecting::Values => Request::Evaluate { recipe: top.recipe, dependency: top.next },
        Expecting::Body => Request::Execute { recipe: top.recipe },
    }
}

/// Whether the state is one that a run can be in: something is awaited of
/// the recipe on top only where there is one, and values only for a
/// dependency that it has.
pub open spec fn coherent(s: State) -> bool {
    &&& s.begun <= s.groups.len()
    &&& forall|i: int| 0 <= i < s.groups.len() ==> (#[trigger] s.groups[i]).next == 0
    &&& s.expecting != Expecting::Nothing ==> s.stack.len() > 0
    &&& s.expecting == Expecting::Values ==> s.stack.last().next
        < s.stack.last().recipe.dependencies@.len()
    &&& s.expecting == Expecting::Body ==> s.stack.last().next
        == s.stack.last().recipe.dependencies@.len()
    &&& forall|i: int|
        0 <= i < s.stack.len() ==> (#[trigger] s.stack[i]).next
            <= s.stack[i].recipe.dependencies@.len()
}

/// The step of a run. When the body of the recipe on top has run, the run
/// is remembered and the recipe is finished. When the values of the
/// arguments of a dependency are known, the dependency is entered with
/// them, unless a run of it with these values is remembered. An event that
/// is not awaited changes nothing: what is awaited is asked for again.
pub open spec fn next(s: State, signal: Signal) -> (State, Request) {
    match signal {
        Signal::Done => match s.expecting {
            Expecting::Nothing | Expecting::Scope => decide(s),
            Expecting::Body => {
                let top = s.stack.last();
                decide(
                    State {
                        stack: s.stack.drop_last(),
                        ran: s.ran.insert(invocation_of(top.recipe, top.arguments)),
                        ..s
                    },
                )
            },
            Expecting::Values => (s, repeat(s)),
        },
        Signal::Evaluated(values) => match s.expecting {
            Expecting::Values => {
                let top = s.stack.last();
                let dependency = top.recipe.dependencies@[top.next as int];
                let advanced = s.stack.drop_last().push(Entered { next: top.next + 1, ..top });
                if s.ran.contains(invocation_of(*dependency.recipe, values)) {
                    decide(State { stack: advanced, ..s })
                } else {
                    let entered = Entered {
                        recipe: *dependency.recipe,
                        arguments: values,
                        next: 0,
                    };
                    (
                        State { stack: advanced.push(entered), expecting: Expecting::Scope, ..s },
                        Request::Enter { recipe: entered.recipe, arguments: values },
                    )
                }
            },
            _ => (s, repeat(s)),
        },
    }
}

/// What a runner keeps.
struct Machine<'run> {
    groups: Vec<Frame<'run>>,
    begun: usize,
    stack: Vec<Frame<'run>>,
    ran: Vec<Vec<String>>,
    expecting: Expecting,
}

/// Runs recipes: it says what is to be done next, and is told when that
/// is done.
pub struct Runner<'run> {
    machine: Machine<'run>,
}

/// What rows of frames hold.
pub open spec fn entered(frames: Seq<Frame>) -> Seq<Entered> {
    Seq::new(frames.len(), |i: int| frames[i]@)
}

/// The runs that a list of them holds.
pub open spec fn remembered(ran: Seq<Vec<String>>) -> Set<Seq<Seq<char>>> {
    Set::new(|x: Seq<Seq<char>>| exists|i: int| 0 <= i < ran.len() && words(#[trigger] ran[i]@) == x)
}

/// A copy of a row of strings.
fn copy_strings(strings: &[String]) -> (r: Vec<String>)
    ensures
        r@ == strings@,
{
    let mut r: Vec<String> = Vec::new();
    let mut i: usize = 0;
    while i < strings.len()
        invariant
            i <= strings.len(),
            r@ == strings@.take(i as int),
        decreases strings.len() - i,
    {
        r.push(strings[i].clone());
        assert(r@ =~= strings@.take(i + 1));
        i += 1;
    }
    assert(strings@.take(i as int) =~= strings@);
    r
}

/// Whether two rows of strings hold the same texts.
fn same_words(a: &Vec<String>, b: &Vec<String>) -> (r: bool)
    ensures
        r == (words(a@) == words(b@)),
{
    if a.len() != b.len() {
        assert(words(a@).len() != words(b@).len());
        return false;
    }
    let mut i: usize = 0;
    while i < a.len()
        invariant
            a.len() == b.len(),
            i <= a.len(),
            forall|j: int| 0 <= j < i ==> (#[trigger] a@[j])@ == b@[j]@,
        decreases a.len() - i,
    {
        if !same(a[i].as_str(), b[i].as_str()) {
            assert(words(a@)[i as int] != words(b@)[i as int]);
            return false;
        }
        i += 1;
    }
    assert(words(a@) =~= words(b@));
    true
}

/// The name of a recipe, then the arguments.
fn invocation(recipe: &Recipe, arguments: &Vec<String>) -> (r: Vec<String>)
    ensures
        words(r@) == invocation_of(*recipe, words(arguments@)),
{
    let mut r: Vec<String> = Vec::new();
    r.push(String::from_str(recipe.name()));
    let mut i: usize = 0;
    while i < arguments.len()
        invariant
            i <= arguments.len(),
            r@.len() == i + 1,
            r@[0]@ == recipe.name.lexeme@,
            forall|j: int| 1 <= j < i + 1 ==> (#[trigger] r@[j]) == arguments@[j - 1],
        decreases arguments.len() - i,
    {
        r.push(arguments[i].clone());
        i += 1;
    }
    assert forall|k: int| 0 <= k < r@.len() implies words(r@)[k] == invocation_of(
        *recipe,
        words(arguments@),
    )[k] by {
        if k >= 1 {
            assert(r@[k] == arguments@[k - 1]);
        }
    }
    assert(words(r@) =~= invocation_of(*recipe, words(arguments@)));
    r
}

impl<'run> View for Machine<'run> {
    type V = State;

    closed spec fn view(&self) -> State {
        State {
            groups: entered(self.groups@),
            begun: self.begun as nat,
            stack: entered(self.stack@),
            ran: remembered(self.ran@),
            expecting: self.expecting,
        }
    }
}

impl<'run> Machine<'run> {
    /// A machine with nothing to do.
    fn idle() -> (machine: Machine<'run>)
        ensures
            coherent(machine@),
    {
        Machine {
            groups: Vec::new(),
            begun: 0,
            stack: Vec::new(),
            ran: Vec::new(),
            expecting: Expecting::Nothing,
        }
    }

    /// A machine for the groups of a command line, with nothing begun.
    fn new(groups: &Vec<Group<'run>>) -> (runner: Machine<'run>)
        ensures
            runner@.groups.len() == groups@.len(),
            forall|i: int|
                0 <= i < groups@.len() ==> (#[trigger] runner@.groups[i]) == (Entered {
                    recipe: *groups@[i].recipe,
                    arguments: words(groups@[i].arguments@),
                    next: 0,
                }),
            runner@.begun == 0,
            runner@.stack.len() == 0,
            runner@.ran == Set::<Seq<Seq<char>>>::empty(),
            runner@.expecting == Expecting::Nothing,
            coherent(runner@),
    {
        let mut frames: Vec<Frame<'run>> = Vec::new();
        let mut i: usize = 0;
        while i < groups.len()
            invariant
                i <= groups.len(),
                frames@.len() == i,
                forall|j: int|
                    0 <= j < i ==> (#[trigger] frames@[j])@ == (Entered {
                        recipe: *groups@[j].recipe,
                        arguments: words(groups@[j].arguments@),
                        next: 0,
                    }),
            decreases groups.len() - i,
        {
            frames.push(
                Frame {
                    recipe: groups[i].recipe,
                    arguments: copy_strings(groups[i].arguments),
                    next: 0,
                },
            );
            i += 1;
        }
        let runner = Machine {
            groups: frames,
            begun: 0,
            stack: Vec::new(),
            ran: Vec::new(),
            expecting: Expecting::Nothing,
        };
        assert(runner@.ran =~= Set::<Seq<Seq<char>>>::empty());
        runner
    }

    /// Whether a run is remembered.
    fn has_run(&self, invocation: &Vec<String>) -> (r: bool)
        ensures
            r == remembered(self.ran@).contains(words(invocation@)),
    {
        let mut i: usize = 0;
        while i < self.ran.len()
            invariant
                i <= self.ran.len(),
                forall|j: int| 0 <= j < i ==> words((#[trigger] self.ran@[j])@) != words(invocation@),
            decreases self.ran.len() - i,
        {
            if same_words(&self.ran[i], invocation) {
                return true;
            }
            i += 1;
        }
        false
    }

    /// What is awaited, asked for again.
    fn again(&self) -> (action: Action<'run>)
        requires
            coherent(self@),
        ensures
            action@ == repeat(self@),
    {
        match self.expecting {
            Expecting::Nothing => Action::Finished,
            Expecting::Scope => {
                let top = &self.stack[self.stack.len() - 1];
                Action::Enter { recipe: top.recipe, arguments: copy_strings(top.arguments.as_slice()) }
            },
            Expecting::Values => {
                let top = &self.stack[self.stack.len() - 1];
                Action::Evaluate { recipe: top.recipe, dependency: top.next }
            },
            Expecting::Body => {
                let top = &self.stack[self.stack.len() - 1];
                Action::Execute { recipe: top.recipe }
            },
        }
    }

    /// Says what to do when nothing is awaited.
    fn choose_next(&mut self) -> (action: Action<'run>)
        requires
            old(self)@.begun <= old(self)@.groups.len(),
            forall|i: int|
                0 <= i < old(self)@.groups.len() ==> (#[trigger] old(self)@.groups[i]).next == 0,
            forall|i: int|
                0 <= i < old(self)@.stack.len() ==> (#[trigger] old(self)@.stack[i]).next
                    <= old(self)@.stack[i].recipe.dependencies@.len(),
        ensures
            (final(self)@, action@) == decide(old(self)@),
            coherent(final(self)@),
    {
        if self.stack.len() == 0 {
            if self.begun < self.groups.len() {
                let group = &self.groups[self.begun];
                let recipe = group.recipe;
                let frame = Frame {
                    recipe,
                    arguments: copy_strings(group.arguments.as_slice()),
                    next: group.next,
                };
                let arguments = copy_strings(group.arguments.as_slice());
                self.begun += 1;
                self.stack.push(frame);
                self.expecting = Expecting::Scope;
                proof {
                    assert(self@.stack =~= seq![old(self)@.groups[old(self)@.begun as int]]);
                }
                Action::Enter { recipe, arguments }
            } else {
                self.expecting = Expecting::Nothing;
                Action::Finished
            }
        } else {
            let top = &self.stack[self.stack.len() - 1];
            let recipe = top.recipe;
            assert(top@ == old(self)@.stack.last());
            if top.next < recipe.dependencies.len() {
                let dependency = top.next;
                self.expecting = Expecting::Values;
                Action::Evaluate { recipe, dependency }
            } else {
                self.expecting = Expecting::Body;
                Action::Execute { recipe }
            }
        }
    }

    /// Takes an event and says what is to be done next.
    fn step(&mut self, event: Event) -> (action: Action<'run>)
        requires
            coherent(old(self)@),
        ensures
            (final(self)@, action@) == next(old(self)@, event@),
            coherent(final(self)@),
    {
        match event {
            Event::Done => match self.expecting {
                Expecting::Nothing | Expecting::Scope => self.choose_next(),
                Expecting::Body => {
                    let top = self.stack.pop().unwrap();
                    let ghost before = self.ran@;
                    let run = invocation(top.recipe, &top.arguments);
                    if !self.has_run(&run) {
                        self.ran.push(run);
                    }
                    proof {
                        let x = invocation_of(*top.recipe, words(top.arguments@));
                        assert(top@ == old(self)@.stack.last());
                        assert(entered(self.stack@) =~= old(self)@.stack.drop_last());
                        assert forall|y: Seq<Seq<char>>| remembered(self.ran@).contains(y)
                            == remembered(before).insert(x).contains(y) by {
                            if remembered(self.ran@).contains(y) {
                                let i = choose|i: int|
                                    0 <= i < self.ran@.len() && words(#[trigger] self.ran@[i]@) == y;
                                if i < before.len() {
                                    assert(words(before[i]@) == y);
                                }
                            }
                            if remembered(before).contains(y) {
                                let i = choose|i: int|
                                    0 <= i < before.len() && words(#[trigger] before[i]@) == y;
                                assert(words(self.ran@[i]@) == y);
                            }
                            if y == x && !remembered(before).contains(x) {
                                assert(words(self.ran@[before.len() as int]@) == y);
                            }
                        }
                        assert(remembered(self.ran@) =~= remembered(before).insert(x));
                        assert forall|i: int| 0 <= i < self@.stack.len() implies (
                        #[trigger] self@.stack[i]).next
                            <= self@.stack[i].recipe.dependencies@.len() by {
                            assert(self@.stack[i] == old(self)@.stack[i]);
                        }
                    }
                    self.choose_next()
                },
                Expecting::Values => self.again(),
            },
            Event::Evaluated(values) => match self.expecting {
                Expecting::Values => {
                    let mut top = self.stack.pop().unwrap();
                    let recipe = top.recipe;
                    assert(top@ == old(self)@.stack.last());
                    let index = top.next;
                    let count = recipe.dependencies.len();
                    assert(index < count);
                    let dependency = &recipe.dependencies[index];
                    let target: &'run Recipe = &dependency.recipe;
                    top.next = index + 1;
                    self.stack.push(top);
                    let run = invocation(target, &values);
                    proof {
                        let old_top = old(self)@.stack.last();
                        assert(entered(self.stack@) =~= old(self)@.stack.drop_last().push(
                            Entered { next: old_top.next + 1, ..old_top },
                        ));
                        assert forall|i: int| 0 <= i < self@.stack.len() implies (
                        #[trigger] self@.stack[i]).next
                            <= self@.stack[i].recipe.dependencies@.len() by {
                            if i < self@.stack.len() - 1 {
                                assert(self@.stack[i] == old(self)@.stack[i]);
                            }
                        }
                    }
                    if self.has_run(&run) {
                        self.choose_next()
                    } else {
                        let ghost advanced = entered(self.stack@);
                        let arguments = copy_strings(values.as_slice());
                        self.stack.push(Frame { recipe: target, arguments: values, next: 0 });
                        self.expecting = Expecting::Scope;
                        proof {
                            assert(entered(self.stack@) =~= advanced.push(
                                Entered { recipe: *target, arguments: words(values@), next: 0 },
                            ));
                            assert forall|i: int| 0 <= i < self@.stack.len() implies (
                            #[trigger] self@.stack[i]).next
                                <= self@.stack[i].recipe.dependencies@.len() by {
                                if i < self@.stack.len() - 1 {
                                    assert(self@.stack[i] == advanced[i]);
                                }
                            }
                        }
                        Action::Enter { recipe: target, arguments }
                    }
                },
                _ => self.again(),
            },
        }
    }
}

impl<'run> View for Runner<'run> {
    type V = State;

    closed spec fn view(&self) -> State {
        self.machine@
    }
}

impl<'run> Runner<'run> {
    #[verifier::type_invariant]
    spec fn is_coherent(&self) -> bool {
        coherent(self.machine@)
    }

    /// A runner for the groups of a command line, with nothing begun.
    pub fn new(groups: &Vec<Group<'run>>) -> (runner: Runner<'run>)
        ensures
            runner@.groups.len() == groups@.len(),
            forall|i: int|
                0 <= i < groups@.len() ==> (#[trigger] runner@.groups[i]) == (Entered {
                    recipe: *groups@[i].recipe,
                    arguments: words(groups@[i].arguments@),
                    next: 0,
                }),
            runner@.begun == 0,
            runner@.stack.len() == 0,
            runner@.ran == Set::<Seq<Seq<char>>>::empty(),
            runner@.expecting == Expecting::Nothing,
            coherent(runner@),
    {
        Runner { machine: Machine::new(groups) }
    }

    /// Takes an event and says what is to be done next.
    pub fn step(&mut self, event: Event) -> (action: Action<'run>)
        ensures
            coherent(old(self)@),
            (final(self)@, action@) == next(old(self)@, event@),
            coherent(final(self)@),
    {
        proof {
            use_type_invariant(&*self);
        }
        let mut machine = Machine::idle();
        std::mem::swap(&mut machine, &mut self.machine);
        let action = machine.step(event);
        self.machine = machine;
        action
    }
}

} // verus!
