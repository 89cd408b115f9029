//! The parameters of a recipe and the arguments that they take.

use crate::expression::Expression;
use crate::strings::{joined, push_joined, words};
use crate::token::Name;
use vstd::prelude::*;

verus! {

/// How many arguments a parameter takes.
#[derive(Debug, PartialEq, Eq, Clone, Copy, Structural)]
pub enum ParameterKind {
    /// Exactly one.
    Singular,
    /// One or more: all that are left.
    Plus,
    /// Any number: all that are left.
    Star,
}

/// A parameter of a recipe.
#[derive(Debug, PartialEq)]
pub struct Parameter {
    pub name: Name,
    pub kind: ParameterKind,
    /// The value of the parameter where no argument is given for it.
    pub default: Option<Expression>,
}

impl Parameter {
    /// Whether the parameter takes all the arguments that are left.
    pub open spec fn is_variadic(&self) -> bool {
        self.kind != ParameterKind::Singular
    }

    /// Whether an argument must be given for the parameter.
    pub open spec fn is_required(&self) -> bool {
        self.default is None && !self.is_variadic()
    }

    pub fn variadic(&self) -> (b: bool)
        ensures
            b == self.is_variadic(),
    {
        match self.kind {
            ParameterKind::Singular => false,
            _ => true,
        }
    }

    pub fn required(&self) -> (b: bool)
        ensures
            b == self.is_required(),
    {
        self.default.is_none() && !self.variadic()
    }
}

/// How many of the first `n` parameters need an argument.
pub open spec fn required_count(parameters: Seq<Parameter>, n: nat) -> nat
    decreases n,
{
    if n == 0 || n > parameters.len() {
        0
    } else {
        required_count(parameters, (n - 1) as nat) + if parameters[n - 1].is_required() {
            1nat
        } else {
            0nat
        }
    }
}

/// How many of the first `n` parameters take one argument each.
pub open spec fn singular_count(parameters: Seq<Parameter>, n: nat) -> nat
    decreases n,
{
    if n == 0 || n > parameters.len() {
        0
    } else {
        singular_count(parameters, (n - 1) as nat) + if parameters[n - 1].is_variadic() {
            0nat
        } else {
            1nat
        }
    }
}

/// Whether one of the parameters takes all the arguments that are left.
pub open spec fn any_variadic(parameters: Seq<Parameter>) -> bool {
    exists|i: int| 0 <= i < parameters.len() && (#[trigger] parameters[i]).is_variadic()
}

/// The least number of arguments that the parameters accept.
pub open spec fn min_arguments_of(parameters: Seq<Parameter>) -> nat {
    required_count(parameters, parameters.len())
}

/// The greatest number of arguments that the parameters accept. With a
/// parameter that takes all that are left it is one less than the greatest
/// number there is.
pub open spec fn max_arguments_of(parameters: Seq<Parameter>) -> nat {
    if any_variadic(parameters) {
        (usize::MAX - 1) as nat
    } else {
        singular_count(parameters, parameters.len())
    }
}

pub proof fn lemma_counts_bounded(parameters: Seq<Parameter>, n: nat)
    ensures
        required_count(parameters, n) <= singular_count(parameters, n) <= n,
        singular_count(parameters, n) <= parameters.len(),
    decreases n,
{
    if n > 0 && n <= parameters.len() {
        lemma_counts_bounded(parameters, (n - 1) as nat);
    }
}

/// The least number of arguments that the parameters accept.
pub fn min_arguments(parameters: &Vec<Parameter>) -> (r: usize)
    ensures
        r == min_arguments_of(parameters@),
{
    let mut count: usize = 0;
    let mut i: usize = 0;
    while i < parameters.len()
        invariant
            i <= parameters.len(),
            count == required_count(parameters@, i as nat),
            count <= i,
        decreases parameters.len() - i,
    {
        if parameters[i].required() {
            count += 1;
        }
        i += 1;
    }
    count
}

/// The greatest number of arguments that the parameters accept.
pub fn max_arguments(parameters: &Vec<Parameter>) -> (r: usize)
    ensures
        r == max_arguments_of(parameters@),
{
    let mut count: usize = 0;
    let mut i: usize = 0;
    while i < parameters.len()
        invariant
            i <= parameters.len(),
            count == singular_count(parameters@, i as nat),
            count <= i,
            forall|j: int| 0 <= j < i ==> !(#[trigger] parameters@[j]).is_variadic(),
        decreases parameters.len() - i,
    {
        if parameters[i].variadic() {
            return usize::MAX - 1;
        }
        count += 1;
        i += 1;
    }
    count
}

/// Where a parameter gets its value from when a recipe is run.
#[derive(Debug, PartialEq)]
pub enum Supply {
    /// From the arguments: this is its value.
    Given(String),
    /// From its default, which is to be evaluated.
    Default,
    /// From nowhere: no argument is left for it, and it has no default.
    Missing,
}

/// What a supply says.
pub enum Supplied {
    Given(Seq<char>),
    Default,
    Missing,
}

impl View for Supply {
    type V = Supplied;

    open spec fn view(&self) -> Supplied {
        match self {
            Supply::Given(value) => Supplied::Given(value@),
            Supply::Default => Supplied::Default,
            Supply::Missing => Supplied::Missing,
        }
    }
}

/// How many of the arguments the first `n` parameters use up. A parameter
/// takes one argument, and one that takes all that are left takes them all.
pub open spec fn used_up(parameters: Seq<Parameter>, arguments: Seq<String>, n: nat) -> nat
    decreases n,
{
    if n == 0 || n > parameters.len() {
        0
    } else {
        let before = used_up(parameters, arguments, (n - 1) as nat);
        if before >= arguments.len() {
            before
        } else if parameters[n - 1].is_variadic() {
            arguments.len()
        } else {
            before + 1
        }
    }
}

/// Where the `k`-th parameter gets its value from. With an argument left
/// it takes that, or all that are left, joined by single spaces, if it is
/// of that kind. With none left it takes its default; without a default,
/// one that accepts no argument at all is empty, and any other goes
/// without.
pub open spec fn supply_of(parameters: Seq<Parameter>, arguments: Seq<String>, k: int) -> Supplied {
    let before = used_up(parameters, arguments, k as nat);
    let parameter = parameters[k];
    if before < arguments.len() {
        if parameter.is_variadic() {
            let rest = arguments.skip(before as int);
            Supplied::Given(joined(words(rest), " "@, rest.len()))
        } else {
            Supplied::Given(arguments[before as int]@)
        }
    } else if parameter.default is Some {
        Supplied::Default
    } else if parameter.kind == ParameterKind::Star {
        Supplied::Given(Seq::empty())
    } else {
        Supplied::Missing
    }
}

/// Where the first `n` parameters get their values from.
pub open spec fn supplies_of(parameters: Seq<Parameter>, arguments: Seq<String>, n: nat) -> Seq<
    Supplied,
> {
    Seq::new(n, |k: int| supply_of(parameters, arguments, k))
}

/// What rows of supplies say.
pub open spec fn supplied(supplies: Seq<Supply>) -> Seq<Supplied> {
    Seq::new(supplies.len(), |k: int| supplies[k]@)
}

/// Hands the arguments of a recipe out to its parameters, in their order.
pub fn supply(parameters: &Vec<Parameter>, arguments: &[String]) -> (supplies: Vec<Supply>)
    ensures
        supplied(supplies@) == supplies_of(parameters@, arguments@, parameters@.len()),
{
    let mut supplies: Vec<Supply> = Vec::new();
    let mut rest: usize = 0;
    let mut k: usize = 0;
    assert(supplied(supplies@) =~= supplies_of(parameters@, arguments@, 0));
    while k < parameters.len()
        invariant
            k <= parameters.len(),
            rest == used_up(parameters@, arguments@, k as nat),
            rest <= arguments@.len(),
            supplies@.len() == k,
            supplied(supplies@) == supplies_of(parameters@, arguments@, k as nat),
        decreases parameters.len() - k,
    {
        let parameter = &parameters[k];
        let ghost before = supplied(supplies@);
        let ghost earlier = supplies@;
        let found = if rest < arguments.len() {
            if parameter.variadic() {
                let mut left: Vec<String> = Vec::new();
                let mut i: usize = rest;
                while i < arguments.len()
                    invariant
                        rest <= i <= arguments.len(),
                        left@ == arguments@.subrange(rest as int, i as int),
                    decreases arguments.len() - i,
                {
                    left.push(arguments[i].clone());
                    assert(left@ =~= arguments@.subrange(rest as int, i + 1));
                    i += 1;
                }
                assert(left@ =~= arguments@.skip(rest as int));
                let mut value = String::new();
                push_joined(&mut value, &left, " ");
                assert(value@ =~= joined(words(left@), " "@, left@.len()));
                rest = arguments.len();
                Supply::Given(value)
            } else {
                let value = arguments[rest].clone();
                rest += 1;
                Supply::Given(value)
            }
        } else if parameter.default.is_some() {
            Supply::Default
        } else {
            match parameter.kind {
                ParameterKind::Star => Supply::Given(String::new()),
                _ => Supply::Missing,
            }
        };
        assert(found@ == supply_of(parameters@, arguments@, k as int));
        supplies.push(found);
        assert forall|j: int| 0 <= j < k + 1 implies supplied(supplies@)[j] == supplies_of(
            parameters@,
            arguments@,
            (k + 1) as nat,
        )[j] by {
            if j < k {
                assert(supplies@[j] == earlier[j]);
                assert(supplied(supplies@)[j] == before[j]);
                assert(before[j] == supplies_of(parameters@, arguments@, k as nat)[j]);
            }
        }
        assert(supplied(supplies@) =~= supplies_of(parameters@, arguments@, (k + 1) as nat));
        k += 1;
    }
    supplies
}

} // verus!
