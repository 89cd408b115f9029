//! Expressions and the names that they use.

use crate::token::{Name, Token};
use vstd::prelude::*;

verus! {

/// How a string is written.
#[derive(Debug, PartialEq, Eq, Clone, Copy, Structural)]
pub enum StringKind {
    /// Between single quotes: its text is taken as it stands.
    Raw,
    /// Between double quotes: its escapes are resolved.
    Cooked,
}

/// A string as the source writes it between its quotes, and as it reads
/// once its escapes are resolved.
#[derive(Debug, PartialEq)]
pub struct StringLiteral {
    pub kind: StringKind,
    pub raw: String,
    pub cooked: String,
}

/// The right-hand side of an assignment, the default of a parameter, an
/// argument of a dependency, or an interpolation in a recipe line.
#[derive(Debug, PartialEq)]
#[allow(inconsistent_fields)]
pub enum Expression {
    /// A command whose output is the value.
    Backtick { contents: String, token: Token },
    /// A call of a built-in function.
    Call { function: Name, arguments: Vec<Expression> },
    /// Two values, one after the other.
    Concatination { lhs: Box<Expression>, rhs: Box<Expression> },
    /// An expression in parentheses.
    Group { contents: Box<Expression> },
    StringLiteral { string_literal: StringLiteral },
    /// The value of a variable or a parameter.
    Variable { name: Name },
}

/// A name that an expression uses and that must exist for the expression
/// to have a value.
#[derive(Debug, PartialEq)]
pub enum Reference {
    /// A variable.
    Variable { name: Name },
    /// A function, called with so many arguments.
    Call { function: Name, arguments: usize },
}

impl Expression {
    /// The names that the expression uses, in the order in which it is
    /// written; a call comes before what its arguments use.
    pub open spec fn references_spec(&self) -> Seq<Reference>
        decreases self,
    {
        match self {
            Expression::Backtick { .. } => Seq::empty(),
            Expression::Call { function, arguments } => seq![
                Reference::Call { function: *function, arguments: arguments.len() },
            ] + references_of(arguments@, arguments@.len()),
            Expression::Concatination { lhs, rhs } => lhs.references_spec()
                + rhs.references_spec(),
            Expression::Group { contents } => contents.references_spec(),
            Expression::StringLiteral { .. } => Seq::empty(),
            Expression::Variable { name } => seq![Reference::Variable { name: *name }],
        }
    }

    /// Appends the names that the expression uses.
    pub fn collect_references(&self, out: &mut Vec<Reference>)
        ensures
            final(out)@ == old(out)@ + self.references_spec(),
        decreases self,
    {
        match self {
            Expression::Backtick { .. } => {
                assert(old(out)@ + self.references_spec() =~= old(out)@);
            },
            Expression::Call { function, arguments } => {
                out.push(Reference::Call { function: function.duplicate(), arguments: arguments.len() });
                let ghost start = out@;
                let mut i: usize = 0;
                assert(start + references_of(arguments@, 0) =~= start);
                while i < arguments.len()
                    invariant
                        i <= arguments.len(),
                        decreases_to!(self => arguments),
                        out@ == start + references_of(arguments@, i as nat),
                    decreases arguments.len() - i,
                {
                    let ghost before = out@;
                    arguments[i].collect_references(out);
                    assert(before + arguments@[i as int].references_spec() =~= start
                        + references_of(arguments@, (i + 1) as nat));
                    i += 1;
                }
                assert(out@ =~= old(out)@ + self.references_spec());
            },
            Expression::Concatination { lhs, rhs } => {
                lhs.collect_references(out);
                rhs.collect_references(out);
                assert(out@ =~= old(out)@ + self.references_spec());
            },
            Expression::Group { contents } => {
                contents.collect_references(out);
            },
            Expression::StringLiteral { .. } => {
                assert(old(out)@ + self.references_spec() =~= old(out)@);
            },
            Expression::Variable { name } => {
                out.push(Reference::Variable { name: name.duplicate() });
                assert(out@ =~= old(out)@ + self.references_spec());
            },
        }
    }

    /// The names that the expression uses.
    pub fn references(&self) -> (r: Vec<Reference>)
        ensures
            r@ == self.references_spec(),
    {
        let mut r: Vec<Reference> = Vec::new();
        self.collect_references(&mut r);
        assert(Seq::<Reference>::empty() + self.references_spec() =~= self.references_spec());
        r
    }
}

/// The names that the first `n` of `expressions` use.
pub open spec fn references_of(expressions: Seq<Expression>, n: nat) -> Seq<Reference>
    decreases expressions, n,
{
    if n == 0 || n > expressions.len() {
        Seq::empty()
    } else {
        references_of(expressions, (n - 1) as nat) + expressions[n - 1].references_spec()
    }
}

/// Appends the names that `expressions` use.
pub fn collect_all_references(expressions: &Vec<Expression>, out: &mut Vec<Reference>)
    ensures
        final(out)@ == old(out)@ + references_of(expressions@, expressions@.len()),
{
    let mut i: usize = 0;
    assert(old(out)@ + references_of(expressions@, 0) =~= old(out)@);
    while i < expressions.len()
        invariant
            i <= expressions.len(),
            out@ == old(out)@ + references_of(expressions@, i as nat),
        decreases expressions.len() - i,
    {
        let ghost before = out@;
        expressions[i].collect_references(out);
        assert(before + expressions@[i as int].references_spec() =~= old(out)@ + references_of(
            expressions@,
            (i + 1) as nat,
        ));
        i += 1;
    }
}

} // verus!
