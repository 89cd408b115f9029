use just::alias::UnresolvedAlias;
use just::analyzer::Analyzer;
use just::assignment::Assignment;
use just::expression::{Expression, StringKind, StringLiteral};
use just::item::Item;
use just::line::{Fragment, Line};
use just::parameter::{Parameter, ParameterKind};
use just::parse::Parse;
use just::recipe::{UnresolvedDependency, UnresolvedRecipe};
use just::suite::Suite;
use just::token::{Name, Token, TokenKind};

fn ident(lexeme: &str, line: usize) -> Name {
    Name { offset: 0, length: lexeme.len(), line, column: 0, lexeme: lexeme.to_string() }
}

fn cooked(raw: &str) -> Expression {
    Expression::StringLiteral {
        string_literal: StringLiteral {
            kind: StringKind::Cooked,
            raw: raw.to_string(),
            cooked: raw.to_string(),
        },
    }
}

fn raw(text: &str) -> Expression {
    Expression::StringLiteral {
        string_literal: StringLiteral {
            kind: StringKind::Raw,
            raw: text.to_string(),
            cooked: text.to_string(),
        },
    }
}

fn var(lexeme: &str) -> Expression {
    Expression::Variable { name: ident(lexeme, 0) }
}

fn backtick(contents: &str) -> Expression {
    Expression::Backtick {
        contents: contents.to_string(),
        token: Token {
            offset: 0,
            length: contents.len() + 2,
            line: 0,
            column: 0,
            lexeme: format!("`{}`", contents),
            kind: TokenKind::Backtick,
        },
    }
}

fn plus(lhs: Expression, rhs: Expression) -> Expression {
    Expression::Concatination { lhs: Box::new(lhs), rhs: Box::new(rhs) }
}

fn text(lexeme: &str) -> Fragment {
    Fragment::Text {
        token: Token {
            offset: 0,
            length: lexeme.len(),
            line: 0,
            column: 0,
            lexeme: lexeme.to_string(),
            kind: TokenKind::Text,
        },
    }
}

fn recipe(lexeme: &str, line: usize) -> UnresolvedRecipe {
    UnresolvedRecipe {
        name: ident(lexeme, line),
        parameters: vec![],
        dependencies: vec![],
        body: vec![],
        shebang: false,
        quiet: false,
        private: false,
        doc: None,
    }
}

fn printed(items: Vec<Item>) -> String {
    Analyzer::analyze(Parse { suite: Suite { items }, warnings: vec![] }).unwrap().to_string()
}

#[test]
fn parse_empty() {
    assert_eq!(printed(vec![]), "");
}

#[test]
fn parse_string_default() {
    let mut foo = recipe("foo", 0);
    foo.parameters =
        vec![Parameter { name: ident("a", 0), kind: ParameterKind::Singular, default: Some(cooked("b\\t")) }];
    assert_eq!(printed(vec![Item::Recipe(foo)]), "foo a=\"b\\t\":");
}

#[test]
fn parse_raw_string_default() {
    let mut foo = recipe("foo", 0);
    foo.parameters =
        vec![Parameter { name: ident("a", 0), kind: ParameterKind::Singular, default: Some(raw("b\\t")) }];
    assert_eq!(printed(vec![Item::Recipe(foo)]), "foo a='b\\t':");
}

#[test]
fn parse_multiple() {
    assert_eq!(
        printed(vec![Item::Recipe(recipe("a", 0)), Item::Recipe(recipe("b", 1))]),
        "a:\n\nb:"
    );
}

#[test]
fn parse_variadic_string_default() {
    let mut foo = recipe("foo", 0);
    foo.parameters = vec![
        Parameter { name: ident("a", 0), kind: ParameterKind::Plus, default: Some(cooked("Hello")) },
        Parameter { name: ident("b", 0), kind: ParameterKind::Star, default: None },
    ];
    assert_eq!(printed(vec![Item::Recipe(foo)]), "foo +a=\"Hello\" *b:");
}

#[test]
fn parse_export() {
    assert_eq!(
        printed(vec![Item::Assignment(Assignment {
            export: true,
            name: ident("a", 0),
            value: cooked("hello"),
        })]),
        "export a := \"hello\""
    );
}

#[test]
fn parse_alias_before_target() {
    let mut foo = recipe("foo", 1);
    foo.body = vec![Line { fragments: vec![text("echo a")] }];
    assert_eq!(
        printed(vec![
            Item::Alias(UnresolvedAlias { name: ident("f", 0), target: ident("foo", 0) }),
            Item::Recipe(foo),
        ]),
        "alias f := foo\n\nfoo:\n    echo a"
    );
}

#[test]
fn parse_complex() {
    let mut hello = recipe("hello", 6);
    hello.quiet = true;
    hello.doc = Some("says hello".to_string());
    hello.parameters = vec![
        Parameter { name: ident("a", 6), kind: ParameterKind::Singular, default: None },
        Parameter {
            name: ident("b", 6),
            kind: ParameterKind::Singular,
            default: Some(Expression::Group {
                contents: Box::new(plus(backtick("echo hello"), var("foo"))),
            }),
        },
    ];
    hello.dependencies = vec![
        UnresolvedDependency { recipe: ident("x", 6), arguments: vec![] },
        UnresolvedDependency { recipe: ident("y", 6), arguments: vec![cooked("1"), var("foo")] },
    ];
    hello.body = vec![
        Line { fragments: vec![text("#! blah")] },
        Line {
            fragments: vec![
                Fragment::Interpolation { expression: plus(var("foo"), var("a")) },
                text("abc"),
                Fragment::Interpolation {
                    expression: Expression::Call {
                        function: ident("env_var_or_default", 8),
                        arguments: vec![plus(raw("foo"), raw("bar")), cooked("baz")],
                    },
                },
                text("xyz"),
            ],
        },
        Line { fragments: vec![] },
        Line {
            fragments: vec![Fragment::Interpolation {
                expression: Expression::Call { function: ident("os", 9), arguments: vec![] },
            }],
        },
    ];
    let mut y = recipe("y", 1);
    y.parameters = vec![
        Parameter { name: ident("p", 1), kind: ParameterKind::Singular, default: None },
        Parameter { name: ident("q", 1), kind: ParameterKind::Singular, default: None },
    ];
    assert_eq!(
        printed(vec![
            Item::Recipe(recipe("x", 0)),
            Item::Recipe(y),
            Item::Assignment(Assignment { export: false, name: ident("foo", 3), value: cooked("xx") }),
            Item::Assignment(Assignment { export: false, name: ident("bar", 4), value: var("foo") }),
            Item::Recipe(hello),
        ]),
        "foo := \"xx\"\n\nbar := foo\n\nx:\n\ny p q:\n\n# says hello\n@hello a b=(`echo hello` + foo): x (y \"1\" foo)\n    #! blah\n    {{foo + a}}abc{{env_var_or_default('foo' + 'bar', \"baz\")}}xyz\n\n    {{os()}}"
    );
}
