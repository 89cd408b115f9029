//! Errors in a manifest and what they say.

use crate::capitalized::{capitalized_of, push_capitalized};
use crate::compilation_error_kind::CompilationErrorKind;
use crate::namespace::Namespace;
use crate::strings::{decimal_of, joined, push_decimal, push_joined, same, words};
use crate::token::{Token, TokenKind};
use vstd::prelude::*;
use vstd::std_specs::iter::IteratorSpec;

verus! {

/// An error in a manifest, with the token at which it was found.
#[derive(Debug, PartialEq)]
pub struct CompilationError {
    pub token: Token,
    pub kind: CompilationErrorKind,
}

/// A character written with the escapes of a character literal.
pub uninterp spec fn escaped_of(c: char) -> Seq<char>;

/// `char::escape_default`, collected into a string: the character as a
/// literal would write it, with a backslash escape where it needs one.
#[verifier::external_body]
fn escaped(c: char) -> (r: String)
    ensures
        r@ == escaped_of(c),
{
    c.escape_default().collect()
}

/// The first `n` of a list of kinds of token as an alternative: `a`,
/// `a or b`, `a, b, or c`.
pub open spec fn alternatives(kinds: Seq<TokenKind>, n: nat) -> Seq<char>
    decreases n,
{
    if n == 0 {
        Seq::empty()
    } else if n == 1 {
        kinds[0].label()
    } else if kinds.len() == 2 {
        kinds[0].label() + " or "@ + kinds[1].label()
    } else if n == kinds.len() {
        alternatives(kinds, (n - 1) as nat) + ", or "@ + kinds[n - 1].label()
    } else {
        alternatives(kinds, (n - 1) as nat) + ", "@ + kinds[n - 1].label()
    }
}

fn push_alternatives(out: &mut String, kinds: &Vec<TokenKind>)
    ensures
        final(out)@ == old(out)@ + alternatives(kinds@, kinds@.len()),
{
    let mut i: usize = 0;
    assert(old(out)@ + alternatives(kinds@, 0) =~= old(out)@);
    while i < kinds.len()
        invariant
            i <= kinds.len(),
            out@ == old(out)@ + alternatives(kinds@, i as nat),
        decreases kinds.len() - i,
    {
        let ghost before = out@;
        let ghost listed = alternatives(kinds@, i as nat);
        let ghost label = kinds@[i as int].label();
        if i == 0 {
            assert(before + label =~= old(out)@ + alternatives(kinds@, 1));
        } else if kinds.len() == 2 {
            out.append(" or ");
            assert(before + " or "@ + label =~= old(out)@ + (listed + " or "@ + label));
        } else if i == kinds.len() - 1 {
            out.append(", or ");
            assert(before + ", or "@ + label =~= old(out)@ + (listed + ", or "@ + label));
        } else {
            out.append(", ");
            assert(before + ", "@ + label =~= old(out)@ + (listed + ", "@ + label));
        }
        out.append(kinds[i].name());
        i += 1;
    }
}

/// A character of leading whitespace made visible: a tab and a space are
/// shown by the symbols for them.
pub open spec fn visible(c: char) -> char {
    if c == '\t' {
        '\u{2409}'
    } else if c == ' ' {
        '\u{2420}'
    } else {
        c
    }
}

/// A text with its tabs and spaces made visible.
pub open spec fn visible_whitespace(text: Seq<char>) -> Seq<char> {
    text.map_values(|c: char| visible(c))
}

fn push_visible_whitespace(out: &mut String, text: &str)
    ensures
        final(out)@ == old(out)@ + visible_whitespace(text@),
{
    let mut i: usize = 0;
    let n = text.unicode_len();
    assert(old(out)@ + visible_whitespace(text@).take(0) =~= old(out)@);
    for c in it: text.chars()
        invariant
            i == it.index(),
            it.seq() == text@,
            n == text@.len(),
            out@ == old(out)@ + visible_whitespace(text@).take(i as int),
    {
        let ghost before = out@;
        if c == '\t' {
            out.push('\u{2409}');
        } else if c == ' ' {
            out.push('\u{2420}');
        } else {
            out.push(c);
        }
        assert(before.push(visible(c)) =~= old(out)@ + visible_whitespace(text@).take(i + 1));
        i += 1;
    }
    assert(visible_whitespace(text@).take(n as int) =~= visible_whitespace(text@));
}

/// The word `argument` for one of them, `arguments` for any other number.
pub open spec fn arguments_word(n: nat) -> Seq<char> {
    if n == 1 {
        "argument"@
    } else {
        "arguments"@
    }
}

fn arguments_noun(n: usize) -> (s: &'static str)
    ensures
        s@ == arguments_word(n as nat),
{
    if n == 1 {
        "argument"
    } else {
        "arguments"
    }
}

/// A number and the word for that many arguments.
pub open spec fn counted(n: nat) -> Seq<char> {
    decimal_of(n) + " "@ + arguments_word(n)
}

fn push_counted(out: &mut String, n: usize)
    ensures
        final(out)@ == old(out)@ + counted(n as nat),
{
    push_decimal(out, n as u128);
    out.append(" ");
    out.append(arguments_noun(n));
    assert(old(out)@ + decimal_of(n as nat) + " "@ + arguments_word(n as nat) =~= old(out)@ + counted(
        n as nat,
    ));
}

/// The number by which messages call a line: lines are counted from one.
pub open spec fn ordinal_of(line: usize) -> Seq<char> {
    decimal_of((line + 1) as nat)
}

fn push_ordinal(out: &mut String, line: usize)
    ensures
        final(out)@ == old(out)@ + ordinal_of(line),
{
    push_decimal(out, line as u128 + 1);
}

/// How the message shows the character of an escape sequence that does not
/// exist.
pub open spec fn escape_shown(c: char) -> Seq<char> {
    if c == '`' {
        "\\`"@
    } else if c == '\\' {
        "\\"@
    } else if c == '\'' {
        "'"@
    } else if c == '"' {
        "\""@
    } else {
        escaped_of(c)
    }
}

fn escape_representation(c: char) -> (r: String)
    ensures
        r@ == escape_shown(c),
{
    if c == '`' {
        String::from_str("\\`")
    } else if c == '\\' {
        String::from_str("\\")
    } else if c == '\'' {
        String::from_str("'")
    } else if c == '"' {
        String::from_str("\"")
    } else {
        escaped(c)
    }
}

/// What a collision says: a redefinition where both items are of one kind,
/// a conflict where they are not.
pub open spec fn collision_message(
    first: usize,
    first_kind: Seq<char>,
    kind: Seq<char>,
    name: Seq<char>,
    namespace: Namespace,
    line: usize,
) -> Seq<char> {
    if kind == first_kind {
        capitalized_of(kind) + " `"@ + name + "` first "@ + (if namespace == Namespace::Setting {
            "set"@
        } else {
            "defined"@
        }) + " on line "@ + ordinal_of(first) + " is "@ + (if namespace == Namespace::Setting {
            "set again"@
        } else {
            "redefined"@
        }) + " on line "@ + ordinal_of(line) + "\n"@
    } else {
        capitalized_of(kind) + " `"@ + name + "` conflicts with "@ + first_kind
            + " first defined on line "@ + ordinal_of(first) + "\n"@
    }
}

fn collision_text(
    first: usize,
    first_kind: &str,
    kind: &str,
    name: &str,
    namespace: Namespace,
    line: usize,
) -> (out: String)
    ensures
        out@ == collision_message(first, first_kind@, kind@, name@, namespace, line),
{
    let mut out = String::new();
    push_capitalized(&mut out, kind);
    assert(out@ =~= capitalized_of(kind@));
    out.append(" `");
    out.append(name);
    if same(kind, first_kind) {
        out.append("` first ");
        out.append(
            match namespace {
                Namespace::Setting => "set",
                _ => "defined",
            },
        );
        out.append(" on line ");
        push_ordinal(&mut out, first);
        out.append(" is ");
        out.append(
            match namespace {
                Namespace::Setting => "set again",
                _ => "redefined",
            },
        );
        out.append(" on line ");
        push_ordinal(&mut out, line);
    } else {
        out.append("` conflicts with ");
        out.append(first_kind);
        out.append(" first defined on line ");
        push_ordinal(&mut out, first);
    }
    out.append("\n");
    out
}

/// What a circular dependency says after the word for what depends on
/// itself: the name, then `own` where the circle is the name alone, else
/// `other` and the circle.
pub open spec fn circle_message(
    own: Seq<char>,
    other: Seq<char>,
    name: Seq<char>,
    circle: Seq<String>,
) -> Seq<char> {
    if circle.len() == 2 {
        "`"@ + name + own
    } else {
        "`"@ + name + other + joined(words(circle), " -> "@, circle.len()) + "`\n"@
    }
}

fn circle_text(own: &str, other: &str, name: &str, circle: &Vec<String>) -> (out: String)
    ensures
        out@ == circle_message(own@, other@, name@, circle@),
{
    let mut out = String::from_str("`");
    out.append(name);
    if circle.len() == 2 {
        out.append(own);
    } else {
        out.append(other);
        push_joined(&mut out, circle, " -> ");
        out.append("`\n");
    }
    out
}

/// What a mismatch in the number of a dependency's arguments says.
pub open spec fn dependency_count_message(
    dependency: Seq<char>,
    found: usize,
    min: usize,
    max: usize,
) -> Seq<char> {
    let start = "Dependency `"@ + dependency + "` got "@ + counted(found as nat) + " but takes "@;
    if min == max {
        start + counted(min as nat) + "\n"@
    } else if found < min {
        start + "at least "@ + counted(min as nat) + "\n"@
    } else {
        start + "at most "@ + counted(max as nat) + "\n"@
    }
}

fn dependency_count_text(dependency: &str, found: usize, min: usize, max: usize) -> (out: String)
    ensures
        out@ == dependency_count_message(dependency@, found, min, max),
{
    let mut out = String::from_str("Dependency `");
    out.append(dependency);
    out.append("` got ");
    push_counted(&mut out, found);
    out.append(" but takes ");
    if min == max {
        push_counted(&mut out, min);
    } else if found < min {
        out.append("at least ");
        push_counted(&mut out, min);
    } else {
        out.append("at most ");
        push_counted(&mut out, max);
    }
    out.append("\n");
    out
}

impl CompilationError {
    /// The text that describes the error, each of its lines closed by a
    /// newline.
    pub open spec fn message_of(&self) -> Seq<char> {
        match self.kind {
            CompilationErrorKind::CircularRecipeDependency { recipe, circle } => "Recipe "@
                + circle_message(
                "` depends on itself\n"@,
                "` has circular dependency `"@,
                recipe@,
                circle@,
            ),
            CompilationErrorKind::CircularVariableDependency { variable, circle } => "Variable "@
                + circle_message(
                "` is defined in terms of itself\n"@,
                "` depends on its own value: `"@,
                variable@,
                circle@,
            ),
            CompilationErrorKind::Collision { first, first_kind, kind, name, namespace } =>
                collision_message(first, first_kind@, kind@, name@, namespace, self.token.line),
            CompilationErrorKind::DependencyArgumentCountMismatch { dependency, found, min, max } =>
                dependency_count_message(dependency@, found, min, max),
            CompilationErrorKind::DuplicateParameter { recipe, parameter } => "Recipe `"@ + recipe@
                + "` has duplicate parameter `"@ + parameter@ + "`\n"@,
            CompilationErrorKind::ExtraLeadingWhitespace =>
                "Recipe line has extra leading whitespace\n"@,
            CompilationErrorKind::ForbiddenModule { module } => "Found module `"@ + module@
                + "` without `module-experiment` setting enabled\n"@
                + "Use `set module-experiment := true` to enable modules. Modules are experimental and may change, break, or be removed at any time.\n"@,
            CompilationErrorKind::FunctionArgumentCountMismatch { function, found, expected } =>
                "Function `"@ + function@ + "` called with "@ + counted(found as nat)
                    + " but takes "@ + decimal_of(expected as nat) + "\n"@,
            CompilationErrorKind::InconsistentLeadingWhitespace { expected, found } =>
                "Recipe line has inconsistent leading whitespace. Recipe started with `"@
                    + visible_whitespace(expected@) + "` but found line with `"@
                    + visible_whitespace(found@) + "`\n"@,
            CompilationErrorKind::Internal { message } =>
                "Internal error, this may indicate a bug in just: "@ + message@
                    + "\nconsider filing an issue: https://github.com/casey/just/issues/new\n"@,
            CompilationErrorKind::InvalidEscapeSequence { character } => "`\\"@ + escape_shown(
                character,
            ) + "` is not a valid escape sequence\n"@,
            CompilationErrorKind::MixedLeadingWhitespace { whitespace } =>
                "Found a mix of tabs and spaces in leading whitespace: `"@ + visible_whitespace(
                    whitespace@,
                ) + "`\nLeading whitespace may consist of tabs or spaces, but not both\n"@,
            CompilationErrorKind::ParameterFollowsVariadicParameter { parameter } => "Parameter `"@
                + parameter@ + "` follows variadic parameter\n"@,
            CompilationErrorKind::ParameterShadowsVariable { parameter } => "Parameter `"@
                + parameter@ + "` shadows variable of the same name\n"@,
            CompilationErrorKind::RequiredParameterFollowsDefaultParameter { parameter } =>
                "Non-default parameter `"@ + parameter@ + "` follows default parameter\n"@,
            CompilationErrorKind::UndefinedVariable { variable } => "Variable `"@ + variable@
                + "` not defined\n"@,
            CompilationErrorKind::UnexpectedName { expected, found } => "Expected identifier `"@
                + expected@ + "` but found `"@ + found@ + "`\n"@,
            CompilationErrorKind::UnexpectedToken { expected, found } => "Expected "@
                + alternatives(expected@, expected@.len()) + ", but found "@ + found.label()
                + "\n"@,
            CompilationErrorKind::UnknownAliasTarget { alias, target } => "Alias `"@ + alias@
                + "` has an unknown target `"@ + target@ + "`\n"@,
            CompilationErrorKind::UnknownDependency { recipe, unknown } => "Recipe `"@ + recipe@
                + "` has unknown dependency `"@ + unknown@ + "`\n"@,
            CompilationErrorKind::UnknownFunction { function } => "Call to unknown function `"@
                + function@ + "`\n"@,
            CompilationErrorKind::UnknownSetting { setting } => "Unknown setting `"@ + setting@
                + "`\n"@,
            CompilationErrorKind::UnknownStartOfToken => "Unknown start of token:\n"@,
            CompilationErrorKind::UnpairedCarriageReturn => "Unpaired carriage return\n"@,
            CompilationErrorKind::UnterminatedBacktick => "Unterminated backtick\n"@,
            CompilationErrorKind::UnterminatedInterpolation => "Unterminated interpolation\n"@,
            CompilationErrorKind::UnterminatedString => "Unterminated string\n"@,
        }
    }

    pub fn message(&self) -> (out: String)
        ensures
            out@ == self.message_of(),
    {
        match &self.kind {
            CompilationErrorKind::CircularRecipeDependency { recipe, circle } => {
                let rest = circle_text(
                    "` depends on itself\n",
                    "` has circular dependency `",
                    recipe.as_str(),
                    circle,
                );
                String::from_str("Recipe ").concat(rest.as_str())
            },
            CompilationErrorKind::CircularVariableDependency { variable, circle } => {
                let rest = circle_text(
                    "` is defined in terms of itself\n",
                    "` depends on its own value: `",
                    variable.as_str(),
                    circle,
                );
                String::from_str("Variable ").concat(rest.as_str())
            },
            CompilationErrorKind::Collision { first, first_kind, kind, name, namespace } => {
                collision_text(*first, first_kind, kind, name.as_str(), *namespace, self.token.line)
            },
            CompilationErrorKind::DependencyArgumentCountMismatch { dependency, found, min, max } => {
                dependency_count_text(dependency.as_str(), *found, *min, *max)
            },
            CompilationErrorKind::DuplicateParameter { recipe, parameter } => String::from_str(
                "Recipe `",
            ).concat(recipe.as_str()).concat("` has duplicate parameter `").concat(
                parameter.as_str(),
            ).concat("`\n"),
            CompilationErrorKind::ExtraLeadingWhitespace => String::from_str(
                "Recipe line has extra leading whitespace\n",
            ),
            CompilationErrorKind::ForbiddenModule { module } => String::from_str(
                "Found module `",
            ).concat(module.as_str()).concat(
                "` without `module-experiment` setting enabled\n",
            ).concat(
                "Use `set module-experiment := true` to enable modules. Modules are experimental and may change, break, or be removed at any time.\n",
            ),
            CompilationErrorKind::FunctionArgumentCountMismatch { function, found, expected } => {
                let mut out = String::from_str("Function `");
                out.append(function.as_str());
                out.append("` called with ");
                push_counted(&mut out, *found);
                out.append(" but takes ");
                push_decimal(&mut out, *expected as u128);
                out.append("\n");
                out
            },
            CompilationErrorKind::InconsistentLeadingWhitespace { expected, found } => {
                let mut out = String::from_str(
                    "Recipe line has inconsistent leading whitespace. Recipe started with `",
                );
                push_visible_whitespace(&mut out, expected.as_str());
                out.append("` but found line with `");
                push_visible_whitespace(&mut out, found.as_str());
                out.append("`\n");
                out
            },
            CompilationErrorKind::Internal { message } => String::from_str(
                "Internal error, this may indicate a bug in just: ",
            ).concat(message.as_str()).concat(
                "\nconsider filing an issue: https://github.com/casey/just/issues/new\n",
            ),
            CompilationErrorKind::InvalidEscapeSequence { character } => {
                let shown = escape_representation(*character);
                String::from_str("`\\").concat(shown.as_str()).concat(
                    "` is not a valid escape sequence\n",
                )
            },
            CompilationErrorKind::MixedLeadingWhitespace { whitespace } => {
                let mut out = String::from_str(
                    "Found a mix of tabs and spaces in leading whitespace: `",
                );
                push_visible_whitespace(&mut out, whitespace.as_str());
                out.append("`\nLeading whitespace may consist of tabs or spaces, but not both\n");
                out
            },
            CompilationErrorKind::ParameterFollowsVariadicParameter { parameter } =>
                String::from_str("Parameter `").concat(parameter.as_str()).concat(
                    "` follows variadic parameter\n",
                ),
            CompilationErrorKind::ParameterShadowsVariable { parameter } => String::from_str(
                "Parameter `",
            ).concat(parameter.as_str()).concat("` shadows variable of the same name\n"),
            CompilationErrorKind::RequiredParameterFollowsDefaultParameter { parameter } =>
                String::from_str("Non-default parameter `").concat(parameter.as_str()).concat(
                    "` follows default parameter\n",
                ),
            CompilationErrorKind::UndefinedVariable { variable } => String::from_str(
                "Variable `",
            ).concat(variable.as_str()).concat("` not defined\n"),
            CompilationErrorKind::UnexpectedName { expected, found } => String::from_str(
                "Expected identifier `",
            ).concat(expected).concat("` but found `").concat(found.as_str()).concat("`\n"),
            CompilationErrorKind::UnexpectedToken { expected, found } => {
                let mut out = String::from_str("Expected ");
                push_alternatives(&mut out, expected);
                out.append(", but found ");
                out.append(found.name());
                out.append("\n");
                out
            },
            CompilationErrorKind::UnknownAliasTarget { alias, target } => String::from_str(
                "Alias `",
            ).concat(alias.as_str()).concat("` has an unknown target `").concat(
                target.as_str(),
            ).concat("`\n"),
            CompilationErrorKind::UnknownDependency { recipe, unknown } => String::from_str(
                "Recipe `",
            ).concat(recipe.as_str()).concat("` has unknown dependency `").concat(
                unknown.as_str(),
            ).concat("`\n"),
            CompilationErrorKind::UnknownFunction { function } => String::from_str(
                "Call to unknown function `",
            ).concat(function.as_str()).concat("`\n"),
            CompilationErrorKind::UnknownSetting { setting } => String::from_str(
                "Unknown setting `",
            ).concat(setting.as_str()).concat("`\n"),
            CompilationErrorKind::UnknownStartOfToken => String::from_str(
                "Unknown start of token:\n",
            ),
            CompilationErrorKind::UnpairedCarriageReturn => String::from_str(
                "Unpaired carriage return\n",
            ),
            CompilationErrorKind::UnterminatedBacktick => String::from_str(
                "Unterminated backtick\n",
            ),
            CompilationErrorKind::UnterminatedInterpolation => String::from_str(
                "Unterminated interpolation\n",
            ),
            CompilationErrorKind::UnterminatedString => String::from_str("Unterminated string\n"),
        }
    }
}

} // verus!
