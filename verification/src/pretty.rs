//! A manifest written out as a source would write it.

use crate::alias::Alias;
use crate::assignment::Assignment;
use crate::expression::{Expression, StringKind, StringLiteral};
use crate::justfile::Justfile;
use crate::line::{Fragment, Line};
use crate::parameter::{Parameter, ParameterKind};
use crate::recipe::{Dependency, Recipe};
use crate::strings::{joined, push_joined, words};
use vstd::prelude::*;

verus! {

/// A string as the source writes it, with its quotes.
pub open spec fn shown_string(literal: StringLiteral) -> Seq<char> {
    match literal.kind {
        StringKind::Raw => "'"@ + literal.raw@ + "'"@,
        StringKind::Cooked => "\""@ + literal.raw@ + "\""@,
    }
}

/// An expression as the source writes it.
pub open spec fn shown_expression(expression: Expression) -> Seq<char>
    decreases expression,
{
    match expression {
        Expression::Backtick { contents, .. } => "`"@ + contents@ + "`"@,
        Expression::Call { function, arguments } => function.lexeme@ + "("@ + shown_arguments(
            arguments@,
            arguments@.len(),
        ) + ")"@,
        Expression::Concatination { lhs, rhs } => shown_expression(*lhs) + " + "@
            + shown_expression(*rhs),
        Expression::Group { contents } => "("@ + shown_expression(*contents) + ")"@,
        Expression::StringLiteral { string_literal } => shown_string(string_literal),
        Expression::Variable { name } => name.lexeme@,
    }
}

/// The first `n` arguments of a call, with commas between them.
pub open spec fn shown_arguments(arguments: Seq<Expression>, n: nat) -> Seq<char>
    decreases arguments, n,
{
    if n == 0 || n > arguments.len() {
        Seq::empty()
    } else if n == 1 {
        shown_expression(arguments[0])
    } else {
        shown_arguments(arguments, (n - 1) as nat) + ", "@ + shown_expression(arguments[n - 1])
    }
}

/// Appends an expression as the source writes it.
pub fn push_expression(out: &mut String, expression: &Expression)
    ensures
        final(out)@ == old(out)@ + shown_expression(*expression),
    decreases expression,
{
    match expression {
        Expression::Backtick { contents, .. } => {
            out.append("`");
            out.append(contents.as_str());
            out.append("`");
            assert(out@ =~= old(out)@ + shown_expression(*expression));
        },
        Expression::Call { function, arguments } => {
            out.append(function.lexeme());
            out.append("(");
            let ghost start = out@;
            let mut i: usize = 0;
            assert(start + shown_arguments(arguments@, 0) =~= start);
            while i < arguments.len()
                invariant
                    i <= arguments.len(),
                    decreases_to!(expression => arguments),
                    out@ == start + shown_arguments(arguments@, i as nat),
                decreases arguments.len() - i,
            {
                let ghost before = out@;
                if i > 0 {
                    out.append(", ");
                }
                push_expression(out, &arguments[i]);
                proof {
                    let shown = shown_expression(arguments@[i as int]);
                    if i == 0 {
                        assert(before + shown =~= start + shown_arguments(arguments@, 1));
                    } else {
                        assert(before + ", "@ + shown =~= start + (shown_arguments(
                            arguments@,
                            i as nat,
                        ) + ", "@ + shown));
                    }
                }
                i += 1;
            }
            out.append(")");
            assert(out@ =~= old(out)@ + shown_expression(*expression));
        },
        Expression::Concatination { lhs, rhs } => {
            push_expression(out, lhs);
            out.append(" + ");
            push_expression(out, rhs);
            assert(out@ =~= old(out)@ + shown_expression(*expression));
        },
        Expression::Group { contents } => {
            out.append("(");
            push_expression(out, contents);
            out.append(")");
            assert(out@ =~= old(out)@ + shown_expression(*expression));
        },
        Expression::StringLiteral { string_literal } => {
            match string_literal.kind {
                StringKind::Raw => {
                    out.append("'");
                    out.append(string_literal.raw.as_str());
                    out.append("'");
                },
                StringKind::Cooked => {
                    out.append("\"");
                    out.append(string_literal.raw.as_str());
                    out.append("\"");
                },
            }
            assert(out@ =~= old(out)@ + shown_expression(*expression));
        },
        Expression::Variable { name } => {
            out.append(name.lexeme());
        },
    }
}

/// A parameter as the source writes it: the sign of its kind, its name
/// and, behind an equals sign, its default.
pub open spec fn shown_parameter(parameter: Parameter) -> Seq<char> {
    (match parameter.kind {
        ParameterKind::Singular => ""@,
        ParameterKind::Plus => "+"@,
        ParameterKind::Star => "*"@,
    }) + parameter.name.lexeme@ + (match parameter.default {
        Some(default) => "="@ + shown_expression(default),
        None => Seq::empty(),
    })
}

fn push_parameter(out: &mut String, parameter: &Parameter)
    ensures
        final(out)@ == old(out)@ + shown_parameter(*parameter),
{
    match parameter.kind {
        ParameterKind::Singular => {
            out.append("");
        },
        ParameterKind::Plus => {
            out.append("+");
        },
        ParameterKind::Star => {
            out.append("*");
        },
    }
    out.append(parameter.name.lexeme());
    match &parameter.default {
        Some(default) => {
            out.append("=");
            push_expression(out, default);
        },
        None => {},
    }
    assert(out@ =~= old(out)@ + shown_parameter(*parameter));
}

/// The first `n` of `expressions`, a space before each.
pub open spec fn shown_values(expressions: Seq<Expression>, n: nat) -> Seq<char>
    decreases n,
{
    if n == 0 || n > expressions.len() {
        Seq::empty()
    } else {
        shown_values(expressions, (n - 1) as nat) + " "@ + shown_expression(expressions[n - 1])
    }
}

/// A dependency as the source writes it: its name or, where it has
/// arguments, its name and the arguments in parentheses.
pub open spec fn shown_dependency(dependency: Dependency) -> Seq<char> {
    if dependency.arguments@.len() == 0 {
        dependency.recipe.name.lexeme@
    } else {
        "("@ + dependency.recipe.name.lexeme@ + shown_values(
            dependency.arguments@,
            dependency.arguments@.len(),
        ) + ")"@
    }
}

fn push_dependency(out: &mut String, dependency: &Dependency)
    ensures
        final(out)@ == old(out)@ + shown_dependency(*dependency),
{
    if dependency.arguments.len() == 0 {
        out.append(dependency.recipe.name());
    } else {
        out.append("(");
        out.append(dependency.recipe.name());
        let ghost start = out@;
        let mut i: usize = 0;
        assert(start + shown_values(dependency.arguments@, 0) =~= start);
        while i < dependency.arguments.len()
            invariant
                i <= dependency.arguments.len(),
                out@ == start + shown_values(dependency.arguments@, i as nat),
            decreases dependency.arguments.len() - i,
        {
            let ghost before = out@;
            out.append(" ");
            push_expression(out, &dependency.arguments[i]);
            assert(out@ =~= start + shown_values(dependency.arguments@, (i + 1) as nat));
            i += 1;
        }
        out.append(")");
        assert(out@ =~= old(out)@ + shown_dependency(*dependency));
    }
}

/// A fragment of a line: text as it stands, an expression between double
/// braces.
pub open spec fn shown_fragment(fragment: Fragment) -> Seq<char> {
    match fragment {
        Fragment::Text { token } => token.lexeme@,
        Fragment::Interpolation { expression } => "{{"@ + shown_expression(expression) + "}}"@,
    }
}

/// The first `n` fragments of a line, indented by four spaces.
pub open spec fn shown_line(fragments: Seq<Fragment>, n: nat) -> Seq<char>
    decreases n,
{
    if n == 0 || n > fragments.len() {
        Seq::empty()
    } else if n == 1 {
        "    "@ + shown_fragment(fragments[0])
    } else {
        shown_line(fragments, (n - 1) as nat) + shown_fragment(fragments[n - 1])
    }
}

fn push_line(out: &mut String, line: &Line)
    ensures
        final(out)@ == old(out)@ + shown_line(line.fragments@, line.fragments@.len()),
{
    let mut j: usize = 0;
    assert(old(out)@ + shown_line(line.fragments@, 0) =~= old(out)@);
    while j < line.fragments.len()
        invariant
            j <= line.fragments.len(),
            out@ == old(out)@ + shown_line(line.fragments@, j as nat),
        decreases line.fragments.len() - j,
    {
        if j == 0 {
            out.append("    ");
        }
        match &line.fragments[j] {
            Fragment::Text { token } => {
                out.append(token.lexeme());
            },
            Fragment::Interpolation { expression } => {
                out.append("{{");
                push_expression(out, expression);
                out.append("}}");
            },
        }
        assert(out@ =~= old(out)@ + shown_line(line.fragments@, (j + 1) as nat));
        j += 1;
    }
}

/// The first `n` lines of a body, each on a line of its own below the
/// head of the recipe.
pub open spec fn shown_body(body: Seq<Line>, n: nat) -> Seq<char>
    decreases n,
{
    if n == 0 || n > body.len() {
        Seq::empty()
    } else {
        shown_body(body, (n - 1) as nat) + "\n"@ + shown_line(
            body[n - 1].fragments@,
            body[n - 1].fragments@.len(),
        )
    }
}

/// The first `n` parameters, a space before each.
pub open spec fn shown_parameters(parameters: Seq<Parameter>, n: nat) -> Seq<char>
    decreases n,
{
    if n == 0 || n > parameters.len() {
        Seq::empty()
    } else {
        shown_parameters(parameters, (n - 1) as nat) + " "@ + shown_parameter(parameters[n - 1])
    }
}

/// The first `n` dependencies, a space before each.
pub open spec fn shown_dependencies(dependencies: Seq<Dependency>, n: nat) -> Seq<char>
    decreases n,
{
    if n == 0 || n > dependencies.len() {
        Seq::empty()
    } else {
        shown_dependencies(dependencies, (n - 1) as nat) + " "@ + shown_dependency(
            dependencies[n - 1],
        )
    }
}

/// A recipe as the source writes it: its comment, then its name with an
/// `@` in front if it is quiet, its parameters, a colon, its dependencies,
/// and below that its body.
pub open spec fn shown_recipe(recipe: Recipe) -> Seq<char> {
    (match recipe.doc {
        Some(doc) => "# "@ + doc@ + "\n"@,
        None => Seq::empty(),
    }) + (if recipe.quiet {
        "@"@
    } else {
        ""@
    }) + recipe.name.lexeme@ + shown_parameters(recipe.parameters@, recipe.parameters@.len())
        + ":"@ + shown_dependencies(recipe.dependencies@, recipe.dependencies@.len())
        + shown_body(recipe.body@, recipe.body@.len())
}

/// An alias as the source writes it.
pub open spec fn shown_alias(alias: Alias) -> Seq<char> {
    "alias "@ + alias.name.lexeme@ + " := "@ + alias.target.name.lexeme@
}

/// An assignment as the source writes it.
pub open spec fn shown_assignment(assignment: Assignment) -> Seq<char> {
    (if assignment.export {
        "export "@
    } else {
        ""@
    }) + assignment.name.lexeme@ + " := "@ + shown_expression(assignment.value)
}

impl Recipe {
    /// The recipe as the source writes it.
    pub fn to_string(&self) -> (out: String)
        ensures
            out@ == shown_recipe(*self),
    {
        let mut out = String::new();
        match &self.doc {
            Some(doc) => {
                out.append("# ");
                out.append(doc.as_str());
                out.append("\n");
            },
            None => {},
        }
        if self.quiet {
            out.append("@");
        } else {
            out.append("");
        }
        out.append(self.name());
        let ghost head = out@;
        let mut i: usize = 0;
        assert(head + shown_parameters(self.parameters@, 0) =~= head);
        while i < self.parameters.len()
            invariant
                i <= self.parameters.len(),
                out@ == head + shown_parameters(self.parameters@, i as nat),
            decreases self.parameters.len() - i,
        {
            out.append(" ");
            push_parameter(&mut out, &self.parameters[i]);
            assert(out@ =~= head + shown_parameters(self.parameters@, (i + 1) as nat));
            i += 1;
        }
        out.append(":");
        let ghost middle = out@;
        let mut i: usize = 0;
        assert(middle + shown_dependencies(self.dependencies@, 0) =~= middle);
        while i < self.dependencies.len()
            invariant
                i <= self.dependencies.len(),
                out@ == middle + shown_dependencies(self.dependencies@, i as nat),
            decreases self.dependencies.len() - i,
        {
            out.append(" ");
            push_dependency(&mut out, &self.dependencies[i]);
            assert(out@ =~= middle + shown_dependencies(self.dependencies@, (i + 1) as nat));
            i += 1;
        }
        let ghost tail = out@;
        let mut i: usize = 0;
        assert(tail + shown_body(self.body@, 0) =~= tail);
        while i < self.body.len()
            invariant
                i <= self.body.len(),
                out@ == tail + shown_body(self.body@, i as nat),
            decreases self.body.len() - i,
        {
            out.append("\n");
            push_line(&mut out, &self.body[i]);
            assert(out@ =~= tail + shown_body(self.body@, (i + 1) as nat));
            i += 1;
        }
        assert(out@ =~= shown_recipe(*self));
        out
    }
}

impl Alias {
    /// The alias as the source writes it.
    pub fn to_string(&self) -> (out: String)
        ensures
            out@ == shown_alias(*self),
    {
        String::from_str("alias ").concat(self.name.lexeme()).concat(" := ").concat(
            self.target.name(),
        )
    }
}

impl Assignment {
    /// The assignment as the source writes it.
    pub fn to_string(&self) -> (out: String)
        ensures
            out@ == shown_assignment(*self),
    {
        let mut out = String::from_str(
            if self.export {
                "export "
            } else {
                ""
            },
        );
        out.append(self.name.lexeme());
        out.append(" := ");
        push_expression(&mut out, &self.value);
        out
    }
}

impl Expression {
    /// The expression as the source writes it.
    pub fn to_string(&self) -> (out: String)
        ensures
            out@ == shown_expression(*self),
    {
        let mut out = String::new();
        push_expression(&mut out, self);
        assert(Seq::<char>::empty() + shown_expression(*self) =~= shown_expression(*self));
        out
    }
}

/// The items of a manifest as the source writes them: the assignments,
/// then the aliases, then the recipes.
pub open spec fn shown_items(justfile: Justfile) -> Seq<Seq<char>> {
    Seq::new(
        justfile.root.assignments@.len(),
        |i: int| shown_assignment(justfile.root.assignments@[i]),
    ) + Seq::new(justfile.root.aliases@.len(), |i: int| shown_alias(justfile.root.aliases@[i]))
        + Seq::new(
        justfile.root.recipes@.len(),
        |i: int| shown_recipe(*justfile.root.recipes@[i]),
    )
}

impl Justfile {
    /// The manifest as a source would write it: its assignments, aliases
    /// and recipes, with an empty line between one and the next.
    pub fn to_string(&self) -> (out: String)
        ensures
            out@ == joined(shown_items(*self), "\n\n"@, shown_items(*self).len()),
    {
        let mut items: Vec<String> = Vec::new();
        let assignments = self.root.assignments.values();
        let mut i: usize = 0;
        while i < assignments.len()
            invariant
                i <= assignments.len(),
                assignments@ == self.root.assignments@,
                words(items@) == Seq::new(
                    i as nat,
                    |k: int| shown_assignment(self.root.assignments@[k]),
                ),
            decreases assignments.len() - i,
        {
            let ghost before = words(items@);
            items.push(assignments[i].to_string());
            assert(words(items@) =~= before.push(shown_assignment(self.root.assignments@[i as int])));
            assert(before.push(shown_assignment(self.root.assignments@[i as int])) =~= Seq::new(
                (i + 1) as nat,
                |k: int| shown_assignment(self.root.assignments@[k]),
            ));
            i += 1;
        }
        let ghost first = words(items@);
        let aliases = self.root.aliases.values();
        let mut i: usize = 0;
        assert(words(items@) =~= first + Seq::new(
            0,
            |k: int| shown_alias(self.root.aliases@[k]),
        ));
        while i < aliases.len()
            invariant
                i <= aliases.len(),
                aliases@ == self.root.aliases@,
                words(items@) == first + Seq::new(
                    i as nat,
                    |k: int| shown_alias(self.root.aliases@[k]),
                ),
            decreases aliases.len() - i,
        {
            let ghost before = words(items@);
            items.push(aliases[i].to_string());
            assert(words(items@) =~= before.push(shown_alias(self.root.aliases@[i as int])));
            assert(before.push(shown_alias(self.root.aliases@[i as int])) =~= first + Seq::new(
                (i + 1) as nat,
                |k: int| shown_alias(self.root.aliases@[k]),
            ));
            i += 1;
        }
        let ghost second = words(items@);
        let recipes = self.root.recipes.values();
        let mut i: usize = 0;
        assert(words(items@) =~= second + Seq::new(
            0,
            |k: int| shown_recipe(*self.root.recipes@[k]),
        ));
        while i < recipes.len()
            invariant
                i <= recipes.len(),
                recipes@ == self.root.recipes@,
                words(items@) == second + Seq::new(
                    i as nat,
                    |k: int| shown_recipe(*self.root.recipes@[k]),
                ),
            decreases recipes.len() - i,
        {
            let ghost before = words(items@);
            items.push(recipes[i].to_string());
            assert(words(items@) =~= before.push(shown_recipe(*self.root.recipes@[i as int])));
            assert(before.push(shown_recipe(*self.root.recipes@[i as int])) =~= second + Seq::new(
                (i + 1) as nat,
                |k: int| shown_recipe(*self.root.recipes@[k]),
            ));
            i += 1;
        }
        assert(words(items@) =~= shown_items(*self));
        let mut out = String::new();
        push_joined(&mut out, &items, "\n\n");
        assert(out@ =~= joined(shown_items(*self), "\n\n"@, shown_items(*self).len()));
        out
    }
}

} // verus!
