use just::compilation_error::CompilationError;
use just::compilation_error_kind::CompilationErrorKind;
use just::namespace::Namespace;
use just::token::{Token, TokenKind};

fn at_line(line: usize, kind: CompilationErrorKind) -> CompilationError {
    CompilationError {
        token: Token {
            offset: 0,
            length: 1,
            line,
            column: 0,
            lexeme: "x".to_string(),
            kind: TokenKind::Identifier,
        },
        kind,
    }
}

fn message(kind: CompilationErrorKind) -> String {
    at_line(0, kind).message()
}

fn collision(first_kind: &'static str, kind: &'static str, namespace: Namespace) -> String {
    at_line(
        11,
        CompilationErrorKind::Collision {
            first: 2,
            first_kind,
            kind,
            name: "foo".to_string(),
            namespace,
        },
    )
    .message()
}

#[test]
fn collision_of_one_kind_is_a_redefinition() {
    assert_eq!(
        collision("recipe", "recipe", Namespace::Recipe),
        "Recipe `foo` first defined on line 3 is redefined on line 12\n"
    );
    assert_eq!(
        collision("variable", "variable", Namespace::Assignment),
        "Variable `foo` first defined on line 3 is redefined on line 12\n"
    );
    assert_eq!(
        collision("setting", "setting", Namespace::Setting),
        "Setting `foo` first set on line 3 is set again on line 12\n"
    );
}

#[test]
fn collision_of_two_kinds_is_a_conflict() {
    assert_eq!(
        collision("recipe", "alias", Namespace::Recipe),
        "Alias `foo` conflicts with recipe first defined on line 3\n"
    );
    assert_eq!(
        collision("alias", "submodule", Namespace::Recipe),
        "Submodule `foo` conflicts with alias first defined on line 3\n"
    );
}

#[test]
fn circular_dependencies_show_the_circle() {
    let circle = |names: &[&str]| names.iter().map(|n| n.to_string()).collect::<Vec<_>>();
    assert_eq!(
        message(CompilationErrorKind::CircularRecipeDependency {
            recipe: "a".to_string(),
            circle: circle(&["a", "a"]),
        }),
        "Recipe `a` depends on itself\n"
    );
    assert_eq!(
        message(CompilationErrorKind::CircularRecipeDependency {
            recipe: "a".to_string(),
            circle: circle(&["a", "b", "c", "a"]),
        }),
        "Recipe `a` has circular dependency `a -> b -> c -> a`\n"
    );
    assert_eq!(
        message(CompilationErrorKind::CircularVariableDependency {
            variable: "v".to_string(),
            circle: circle(&["v", "v"]),
        }),
        "Variable `v` is defined in terms of itself\n"
    );
    assert_eq!(
        message(CompilationErrorKind::CircularVariableDependency {
            variable: "v".to_string(),
            circle: circle(&["v", "w", "v"]),
        }),
        "Variable `v` depends on its own value: `v -> w -> v`\n"
    );
}

#[test]
fn argument_counts_are_worded_by_their_number() {
    let mismatch = |found, min, max| {
        message(CompilationErrorKind::DependencyArgumentCountMismatch {
            dependency: "d".to_string(),
            found,
            min,
            max,
        })
    };
    assert_eq!(mismatch(1, 2, 2), "Dependency `d` got 1 argument but takes 2 arguments\n");
    assert_eq!(mismatch(0, 1, 1), "Dependency `d` got 0 arguments but takes 1 argument\n");
    assert_eq!(mismatch(0, 1, 3), "Dependency `d` got 0 arguments but takes at least 1 argument\n");
    assert_eq!(mismatch(4, 1, 3), "Dependency `d` got 4 arguments but takes at most 3 arguments\n");
    assert_eq!(mismatch(12, 0, 10), "Dependency `d` got 12 arguments but takes at most 10 arguments\n");
    assert_eq!(
        message(CompilationErrorKind::FunctionArgumentCountMismatch {
            function: "env_var".to_string(),
            found: 2,
            expected: 1,
        }),
        "Function `env_var` called with 2 arguments but takes 1\n"
    );
}

#[test]
fn names_are_quoted_in_messages() {
    assert_eq!(
        message(CompilationErrorKind::DuplicateParameter {
            recipe: "a".to_string(),
            parameter: "b".to_string()
        }),
        "Recipe `a` has duplicate parameter `b`\n"
    );
    assert_eq!(
        message(CompilationErrorKind::ParameterShadowsVariable { parameter: "p".to_string() }),
        "Parameter `p` shadows variable of the same name\n"
    );
    assert_eq!(
        message(CompilationErrorKind::RequiredParameterFollowsDefaultParameter {
            parameter: "p".to_string()
        }),
        "Non-default parameter `p` follows default parameter\n"
    );
    assert_eq!(
        message(CompilationErrorKind::ParameterFollowsVariadicParameter {
            parameter: "p".to_string()
        }),
        "Parameter `p` follows variadic parameter\n"
    );
    assert_eq!(
        message(CompilationErrorKind::UnknownAliasTarget {
            alias: "a".to_string(),
            target: "t".to_string()
        }),
        "Alias `a` has an unknown target `t`\n"
    );
    assert_eq!(
        message(CompilationErrorKind::UnknownDependency {
            recipe: "a".to_string(),
            unknown: "u".to_string()
        }),
        "Recipe `a` has unknown dependency `u`\n"
    );
    assert_eq!(
        message(CompilationErrorKind::UndefinedVariable { variable: "v".to_string() }),
        "Variable `v` not defined\n"
    );
    assert_eq!(
        message(CompilationErrorKind::UnknownFunction { function: "f".to_string() }),
        "Call to unknown function `f`\n"
    );
    assert_eq!(
        message(CompilationErrorKind::UnknownSetting { setting: "s".to_string() }),
        "Unknown setting `s`\n"
    );
    assert_eq!(
        message(CompilationErrorKind::UnexpectedName { expected: "export", found: "x".to_string() }),
        "Expected identifier `export` but found `x`\n"
    );
    assert_eq!(
        message(CompilationErrorKind::ForbiddenModule { module: "m".to_string() }),
        "Found module `m` without `module-experiment` setting enabled\nUse `set module-experiment := true` to enable modules. Modules are experimental and may change, break, or be removed at any time.\n"
    );
    assert_eq!(
        message(CompilationErrorKind::Internal { message: "oops".to_string() }),
        "Internal error, this may indicate a bug in just: oops\nconsider filing an issue: https://github.com/casey/just/issues/new\n"
    );
}

#[test]
fn plain_messages() {
    assert_eq!(
        message(CompilationErrorKind::ExtraLeadingWhitespace),
        "Recipe line has extra leading whitespace\n"
    );
    assert_eq!(message(CompilationErrorKind::UnknownStartOfToken), "Unknown start of token:\n");
    assert_eq!(message(CompilationErrorKind::UnpairedCarriageReturn), "Unpaired carriage return\n");
    assert_eq!(message(CompilationErrorKind::UnterminatedBacktick), "Unterminated backtick\n");
    assert_eq!(
        message(CompilationErrorKind::UnterminatedInterpolation),
        "Unterminated interpolation\n"
    );
    assert_eq!(message(CompilationErrorKind::UnterminatedString), "Unterminated string\n");
}

#[test]
fn expected_tokens_are_listed_as_alternatives() {
    let unexpected = |expected: Vec<TokenKind>| {
        message(CompilationErrorKind::UnexpectedToken { expected, found: TokenKind::Eol })
    };
    assert_eq!(unexpected(vec![]), "Expected , but found end of line\n");
    assert_eq!(unexpected(vec![TokenKind::Colon]), "Expected ':', but found end of line\n");
    assert_eq!(
        unexpected(vec![TokenKind::Identifier, TokenKind::Plus]),
        "Expected identifier or '+', but found end of line\n"
    );
    assert_eq!(
        unexpected(vec![TokenKind::StringRaw, TokenKind::InterpolationStart, TokenKind::Eof]),
        "Expected raw string, '{{', or end of file, but found end of line\n"
    );
    assert_eq!(
        unexpected(vec![
            TokenKind::At,
            TokenKind::Backtick,
            TokenKind::ColonEquals,
            TokenKind::Comma
        ]),
        "Expected '@', backtick, ':=', or ',', but found end of line\n"
    );
}

#[test]
fn kinds_of_token_have_names() {
    let names: Vec<String> = vec![
        TokenKind::Comment,
        TokenKind::Dedent,
        TokenKind::Equals,
        TokenKind::Indent,
        TokenKind::InterpolationEnd,
        TokenKind::ParenL,
        TokenKind::ParenR,
        TokenKind::StringCooked,
        TokenKind::Text,
        TokenKind::Whitespace,
        TokenKind::Unspecified,
    ]
    .iter()
    .map(|kind| kind.to_string())
    .collect();
    assert_eq!(
        names,
        vec![
            "comment",
            "dedent",
            "'='",
            "indent",
            "'}}'",
            "'('",
            "')'",
            "cooked string",
            "command text",
            "whitespace",
            "unspecified"
        ]
    );
    assert_eq!(Namespace::Recipe.to_string(), "recipe");
    assert_eq!(Namespace::Assignment.to_string(), "assignment");
    assert_eq!(Namespace::Setting.to_string(), "setting");
}

#[test]
fn whitespace_is_made_visible() {
    assert_eq!(
        message(CompilationErrorKind::MixedLeadingWhitespace { whitespace: " \t x".to_string() }),
        "Found a mix of tabs and spaces in leading whitespace: `\u{2420}\u{2409}\u{2420}x`\nLeading whitespace may consist of tabs or spaces, but not both\n"
    );
    assert_eq!(
        message(CompilationErrorKind::InconsistentLeadingWhitespace {
            expected: "\t".to_string(),
            found: "  ".to_string(),
        }),
        "Recipe line has inconsistent leading whitespace. Recipe started with `\u{2409}` but found line with `\u{2420}\u{2420}`\n"
    );
}

#[test]
fn escape_sequences_are_shown_as_written() {
    let invalid = |character| message(CompilationErrorKind::InvalidEscapeSequence { character });
    assert_eq!(invalid('q'), "`\\q` is not a valid escape sequence\n");
    assert_eq!(invalid('`'), "`\\\\`` is not a valid escape sequence\n");
    assert_eq!(invalid('\\'), "`\\\\` is not a valid escape sequence\n");
    assert_eq!(invalid('\''), "`\\'` is not a valid escape sequence\n");
    assert_eq!(invalid('"'), "`\\\"` is not a valid escape sequence\n");
    assert_eq!(invalid('\n'), "`\\\\n` is not a valid escape sequence\n");
    assert_eq!(invalid('\u{e9}'), "`\\\\u{e9}` is not a valid escape sequence\n");
}

fn spot(lexeme: &str, offset: usize, line: usize, column: usize) -> Token {
    Token {
        offset,
        length: lexeme.len(),
        line,
        column,
        lexeme: lexeme.to_string(),
        kind: TokenKind::Identifier,
    }
}

#[test]
fn context_marks_the_token_in_its_line() {
    let source = "alias foo = bar\nalias foo = baz";
    assert_eq!(
        spot("foo", 22, 1, 6).context(source),
        "  |\n2 | alias foo = baz\n  |       ^^^"
    );
    assert_eq!(spot("alias", 0, 0, 0).context(source), "  |\n1 | alias foo = bar\n  | ^^^^^");
    let error = CompilationError {
        token: spot("foo", 22, 1, 6),
        kind: CompilationErrorKind::Collision {
            first: 0,
            first_kind: "alias",
            kind: "alias",
            name: "foo".to_string(),
            namespace: Namespace::Recipe,
        },
    };
    assert_eq!(
        error.render(source),
        "Alias `foo` first defined on line 1 is redefined on line 2\n  |\n2 | alias foo = baz\n  |       ^^^"
    );
}

#[test]
fn context_shows_tabs_as_four_spaces_and_counts_bytes() {
    assert_eq!(
        spot("y", 7, 1, 3).context("a:\n\tx y\r\nb:"),
        "  |\n2 |     x y\n  |       ^"
    );
    assert_eq!(
        spot("\tx", 3, 1, 0).context("a:\n\tx y\n"),
        "  |\n2 |     x y\n  | ^^^^^"
    );
    assert_eq!(
        spot("z", 6, 0, 6).context("\u{e9}\u{4e16} z"),
        "  |\n1 | \u{e9}\u{4e16} z\n  |    ^"
    );
    let mut end = spot("", 3, 0, 3);
    end.kind = TokenKind::Eof;
    assert_eq!(end.context("a b"), "  |\n1 | a b\n  |    ");
}

#[test]
fn context_of_a_line_that_is_not_there() {
    assert_eq!(
        spot("x", 3, 11, 0).context("a\nb\n"),
        "internal error: Error has invalid line number: 12"
    );
    let mut end = spot("", 4, 2, 0);
    end.kind = TokenKind::Eof;
    assert_eq!(end.context("a\nb\n"), "");
    assert_eq!(spot("", 0, 0, 0).context(""), "");
    let lines = "\n\n\n\n\n\n\n\n\nj";
    assert_eq!(spot("j", 9, 9, 0).context(lines), "   |\n10 | j\n   | ^");
    assert_eq!(spot("", 1, 1, 0).context(lines), "  |\n2 | \n  | ");
}
