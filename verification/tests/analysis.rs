use just::alias::UnresolvedAlias;
use just::analyzer::Analyzer;
use just::assignment::Assignment;
use just::compilation_error::CompilationError;
use just::compilation_error_kind::CompilationErrorKind;
use just::expression::{Expression, StringKind, StringLiteral};
use just::item::Item;
use just::justfile::Justfile;
use just::line::{Fragment, Line};
use just::namespace::Namespace;
use just::parameter::{Parameter, ParameterKind};
use just::parse::Parse;
use just::recipe::{UnresolvedDependency, UnresolvedRecipe};
use just::setting::{SetItem, Setting};
use just::submodule::UnresolvedSubmodule;
use just::suite::Suite;
use just::token::{Name, Token, TokenKind};

fn name(lexeme: &str, offset: usize, line: usize, column: usize) -> Name {
    Name { offset, length: lexeme.len(), line, column, lexeme: lexeme.to_string() }
}

fn token(lexeme: &str, offset: usize, line: usize, column: usize, kind: TokenKind) -> Token {
    Token { offset, length: lexeme.len(), line, column, lexeme: lexeme.to_string(), kind }
}

fn identifier(lexeme: &str, offset: usize, line: usize, column: usize) -> Token {
    token(lexeme, offset, line, column, TokenKind::Identifier)
}

fn string(text: &str) -> Expression {
    Expression::StringLiteral {
        string_literal: StringLiteral {
            kind: StringKind::Cooked,
            raw: text.to_string(),
            cooked: text.to_string(),
        },
    }
}

fn variable(n: Name) -> Expression {
    Expression::Variable { name: n }
}

fn parameter(n: Name) -> Parameter {
    Parameter { name: n, kind: ParameterKind::Singular, default: None }
}

fn recipe(n: Name) -> UnresolvedRecipe {
    UnresolvedRecipe {
        name: n,
        parameters: vec![],
        dependencies: vec![],
        body: vec![],
        shebang: false,
        quiet: false,
        private: false,
        doc: None,
    }
}

fn dependency(n: Name) -> UnresolvedDependency {
    UnresolvedDependency { recipe: n, arguments: vec![] }
}

fn text_line(t: Token) -> Line {
    Line { fragments: vec![Fragment::Text { token: t }] }
}

fn analyze(items: Vec<Item>) -> Result<Justfile, CompilationError> {
    Analyzer::analyze(Parse { suite: Suite { items }, warnings: vec![] })
}

fn error(items: Vec<Item>) -> CompilationError {
    analyze(items).unwrap_err()
}

fn module_experiment(offset: usize, line: usize, column: usize) -> Item {
    Item::SetItem(SetItem {
        name: name("module-experiment", offset, line, column),
        value: Setting::ModuleExperiment,
    })
}

#[test]
fn duplicate_alias() {
    let e = error(vec![
        Item::Alias(UnresolvedAlias { name: name("foo", 6, 0, 6), target: name("bar", 12, 0, 12) }),
        Item::Alias(UnresolvedAlias { name: name("foo", 22, 1, 6), target: name("baz", 28, 1, 12) }),
    ]);
    assert_eq!(e.token, identifier("foo", 22, 1, 6));
    assert_eq!(e.token.length, 3);
    assert_eq!(
        e.kind,
        CompilationErrorKind::Collision {
            first: 0,
            first_kind: "alias",
            kind: "alias",
            name: "foo".to_string(),
            namespace: Namespace::Recipe,
        }
    );
}

#[test]
fn unknown_alias_target() {
    let e = error(vec![Item::Alias(UnresolvedAlias {
        name: name("foo", 6, 0, 6),
        target: name("bar", 12, 0, 12),
    })]);
    assert_eq!(e.token, identifier("foo", 6, 0, 6));
    assert_eq!(
        e.kind,
        CompilationErrorKind::UnknownAliasTarget {
            alias: "foo".to_string(),
            target: "bar".to_string()
        }
    );
}

#[test]
fn alias_shadows_recipe_before() {
    let e = error(vec![
        Item::Recipe(recipe(name("bar", 0, 0, 0))),
        Item::Alias(UnresolvedAlias { name: name("foo", 23, 2, 6), target: name("bar", 29, 2, 12) }),
        Item::Recipe(recipe(name("foo", 33, 3, 0))),
    ]);
    assert_eq!(e.token, identifier("foo", 33, 3, 0));
    assert_eq!(
        e.kind,
        CompilationErrorKind::Collision {
            first: 2,
            first_kind: "alias",
            kind: "recipe",
            name: "foo".to_string(),
            namespace: Namespace::Recipe,
        }
    );
}

#[test]
fn alias_shadows_recipe_after() {
    let e = error(vec![
        Item::Recipe(recipe(name("foo", 0, 0, 0))),
        Item::Alias(UnresolvedAlias { name: name("foo", 22, 2, 6), target: name("bar", 28, 2, 12) }),
        Item::Recipe(recipe(name("bar", 32, 3, 0))),
    ]);
    assert_eq!(e.token, identifier("foo", 22, 2, 6));
    assert_eq!(
        e.kind,
        CompilationErrorKind::Collision {
            first: 0,
            first_kind: "recipe",
            kind: "alias",
            name: "foo".to_string(),
            namespace: Namespace::Recipe,
        }
    );
}

#[test]
fn required_after_default() {
    let mut hello = recipe(name("hello", 0, 0, 0));
    hello.parameters = vec![
        Parameter {
            name: name("arg", 6, 0, 6),
            kind: ParameterKind::Singular,
            default: Some(string("foo")),
        },
        parameter(name("bar", 16, 0, 16)),
    ];
    let e = error(vec![Item::Recipe(hello)]);
    assert_eq!(e.token, identifier("bar", 16, 0, 16));
    assert_eq!(e.token.column, 16);
    assert_eq!(
        e.kind,
        CompilationErrorKind::RequiredParameterFollowsDefaultParameter {
            parameter: "bar".to_string()
        }
    );
}

#[test]
fn variadic_after_default_is_accepted() {
    let mut hello = recipe(name("hello", 0, 0, 0));
    hello.parameters = vec![
        Parameter {
            name: name("arg", 6, 0, 6),
            kind: ParameterKind::Singular,
            default: Some(string("foo")),
        },
        Parameter { name: name("rest", 17, 0, 17), kind: ParameterKind::Plus, default: None },
    ];
    let justfile = analyze(vec![Item::Recipe(hello)]).unwrap();
    assert_eq!(justfile.count(), 1);
    let found = justfile.root.recipes.get("hello").unwrap();
    assert_eq!(found.min_arguments(), 0);
    assert_eq!(found.max_arguments(), usize::MAX - 1);
}

#[test]
fn duplicate_parameter() {
    let mut a = recipe(name("a", 0, 0, 0));
    a.parameters = vec![parameter(name("b", 2, 0, 2)), parameter(name("b", 4, 0, 4))];
    let e = error(vec![Item::Recipe(a)]);
    assert_eq!(e.token, identifier("b", 4, 0, 4));
    assert_eq!(e.token.column, 4);
    assert_eq!(
        e.kind,
        CompilationErrorKind::DuplicateParameter {
            recipe: "a".to_string(),
            parameter: "b".to_string()
        }
    );
}

#[test]
fn duplicate_variadic_parameter() {
    let mut a = recipe(name("a", 0, 0, 0));
    a.parameters = vec![
        parameter(name("b", 2, 0, 2)),
        Parameter { name: name("b", 5, 0, 5), kind: ParameterKind::Plus, default: None },
    ];
    let e = error(vec![Item::Recipe(a)]);
    assert_eq!(e.token, identifier("b", 5, 0, 5));
    assert_eq!(
        e.kind,
        CompilationErrorKind::DuplicateParameter {
            recipe: "a".to_string(),
            parameter: "b".to_string()
        }
    );
}

#[test]
fn duplicate_comes_before_default_order() {
    let mut a = recipe(name("a", 0, 0, 0));
    a.parameters = vec![
        Parameter {
            name: name("b", 2, 0, 2),
            kind: ParameterKind::Singular,
            default: Some(string("x")),
        },
        parameter(name("b", 8, 0, 8)),
    ];
    let e = error(vec![Item::Recipe(a)]);
    assert_eq!(
        e.kind,
        CompilationErrorKind::DuplicateParameter {
            recipe: "a".to_string(),
            parameter: "b".to_string()
        }
    );
}

#[test]
fn parameter_shadows_varible() {
    let mut a = recipe(name("a", 10, 1, 0));
    a.parameters = vec![parameter(name("foo", 12, 1, 2))];
    let e = error(vec![
        Item::Assignment(Assignment { export: false, name: name("foo", 0, 0, 0), value: string("h") }),
        Item::Recipe(a),
    ]);
    assert_eq!(e.token, identifier("foo", 12, 1, 2));
    assert_eq!(
        e.kind,
        CompilationErrorKind::ParameterShadowsVariable { parameter: "foo".to_string() }
    );
}

#[test]
fn duplicate_recipe() {
    let e = error(vec![
        Item::Recipe(recipe(name("a", 0, 0, 0))),
        Item::Recipe(recipe(name("b", 3, 1, 0))),
        Item::Recipe(recipe(name("a", 6, 2, 0))),
    ]);
    assert_eq!(e.token, identifier("a", 6, 2, 0));
    assert_eq!(
        e.kind,
        CompilationErrorKind::Collision {
            first: 0,
            first_kind: "recipe",
            kind: "recipe",
            name: "a".to_string(),
            namespace: Namespace::Recipe,
        }
    );
}

#[test]
fn collision_names_the_first_of_three() {
    let e = error(vec![
        Item::Recipe(recipe(name("b", 0, 4, 0))),
        Item::Recipe(recipe(name("a", 3, 5, 0))),
        Item::Recipe(recipe(name("b", 6, 6, 0))),
        Item::Recipe(recipe(name("b", 9, 7, 0))),
    ]);
    assert_eq!(e.token, identifier("b", 6, 6, 0));
    assert_eq!(
        e.kind,
        CompilationErrorKind::Collision {
            first: 4,
            first_kind: "recipe",
            kind: "recipe",
            name: "b".to_string(),
            namespace: Namespace::Recipe,
        }
    );
}

#[test]
fn duplicate_assignment() {
    let e = error(vec![
        Item::Assignment(Assignment { export: false, name: name("a", 0, 0, 0), value: string("0") }),
        Item::Assignment(Assignment { export: false, name: name("a", 8, 1, 0), value: string("0") }),
    ]);
    assert_eq!(e.token, identifier("a", 8, 1, 0));
    assert_eq!(
        e.kind,
        CompilationErrorKind::Collision {
            first: 0,
            first_kind: "variable",
            kind: "variable",
            name: "a".to_string(),
            namespace: Namespace::Assignment,
        }
    );
}

#[test]
fn duplicate_setting() {
    let e = error(vec![module_experiment(4, 0, 4), module_experiment(34, 1, 4)]);
    assert_eq!(e.token, identifier("module-experiment", 34, 1, 4));
    assert_eq!(e.token.length, 17);
    assert_eq!(
        e.kind,
        CompilationErrorKind::Collision {
            first: 0,
            first_kind: "setting",
            kind: "setting",
            name: "module-experiment".to_string(),
            namespace: Namespace::Setting,
        }
    );
}

#[test]
fn extra_whitespace() {
    let mut a = recipe(name("a", 0, 0, 0));
    a.body = vec![
        text_line(token("blah", 4, 1, 1, TokenKind::Text)),
        text_line(token(" blarg", 10, 2, 1, TokenKind::Text)),
    ];
    let e = error(vec![Item::Recipe(a)]);
    assert_eq!(e.token, token(" blarg", 10, 2, 1, TokenKind::Text));
    assert_eq!(e.token.line, 2);
    assert_eq!(e.token.length, 6);
    assert_eq!(e.kind, CompilationErrorKind::ExtraLeadingWhitespace);
}

#[test]
fn whitespace_is_accepted_in_a_script_and_after_a_continuation() {
    let mut script = recipe(name("a", 0, 0, 0));
    script.shebang = true;
    script.body = vec![
        text_line(token("#!/bin/sh", 4, 1, 1, TokenKind::Text)),
        text_line(token("  indented", 14, 2, 1, TokenKind::Text)),
    ];
    let mut continued = recipe(name("b", 30, 3, 0));
    continued.body = vec![
        text_line(token("first \\", 34, 4, 1, TokenKind::Text)),
        text_line(token("\tsecond", 42, 5, 1, TokenKind::Text)),
    ];
    let justfile = analyze(vec![Item::Recipe(script), Item::Recipe(continued)]).unwrap();
    assert_eq!(justfile.count(), 2);
}

#[test]
fn names_of_different_namespaces_do_not_conflict() {
    let justfile = analyze(vec![
        Item::Assignment(Assignment { export: true, name: name("x", 7, 0, 7), value: string("1") }),
        Item::Recipe(recipe(name("x", 20, 1, 0))),
        Item::SetItem(SetItem { name: name("x", 28, 2, 4), value: Setting::ModuleExperiment }),
    ])
    .unwrap();
    assert_eq!(justfile.count(), 1);
    assert_eq!(justfile.root.assignments.len(), 1);
    assert!(justfile.root.assignments.get("x").unwrap().export);
    assert!(justfile.root.settings.module_experiment);
}

#[test]
fn circular_recipe_dependency() {
    let mut a = recipe(name("a", 0, 0, 0));
    a.dependencies = vec![dependency(name("b", 3, 0, 3))];
    let mut b = recipe(name("b", 5, 1, 0));
    b.dependencies = vec![dependency(name("a", 8, 1, 3))];
    let e = error(vec![Item::Recipe(a), Item::Recipe(b)]);
    assert_eq!(
        e.kind,
        CompilationErrorKind::CircularRecipeDependency {
            recipe: "a".to_string(),
            circle: vec!["a".to_string(), "b".to_string(), "a".to_string()],
        }
    );
    assert_eq!(e.token, identifier("a", 0, 0, 0));
}

#[test]
fn self_recipe_dependency() {
    let mut a = recipe(name("a", 0, 0, 0));
    a.dependencies = vec![dependency(name("a", 3, 0, 3))];
    let e = error(vec![Item::Recipe(a)]);
    assert_eq!(
        e.kind,
        CompilationErrorKind::CircularRecipeDependency {
            recipe: "a".to_string(),
            circle: vec!["a".to_string(), "a".to_string()],
        }
    );
}

#[test]
fn circle_leaves_out_the_way_to_it() {
    let mut a = recipe(name("a", 0, 0, 0));
    a.dependencies = vec![dependency(name("b", 3, 0, 3))];
    let mut b = recipe(name("b", 5, 1, 0));
    b.dependencies = vec![dependency(name("c", 8, 1, 3))];
    let mut c = recipe(name("c", 10, 2, 0));
    c.dependencies = vec![dependency(name("b", 13, 2, 3))];
    let e = error(vec![Item::Recipe(a), Item::Recipe(b), Item::Recipe(c)]);
    assert_eq!(
        e.kind,
        CompilationErrorKind::CircularRecipeDependency {
            recipe: "b".to_string(),
            circle: vec!["b".to_string(), "c".to_string(), "b".to_string()],
        }
    );
}

#[test]
fn circular_variable_dependency() {
    let e = error(vec![
        Item::Assignment(Assignment {
            export: false,
            name: name("a", 0, 0, 0),
            value: variable(name("b", 4, 0, 4)),
        }),
        Item::Assignment(Assignment {
            export: false,
            name: name("b", 6, 1, 0),
            value: variable(name("a", 10, 1, 4)),
        }),
    ]);
    assert_eq!(e.token, identifier("a", 0, 0, 0));
    assert_eq!(
        e.kind,
        CompilationErrorKind::CircularVariableDependency {
            variable: "a".to_string(),
            circle: vec!["a".to_string(), "b".to_string(), "a".to_string()],
        }
    );
}

#[test]
fn self_variable_dependency() {
    let e = error(vec![Item::Assignment(Assignment {
        export: false,
        name: name("a", 0, 0, 0),
        value: variable(name("a", 4, 0, 4)),
    })]);
    assert_eq!(
        e.kind,
        CompilationErrorKind::CircularVariableDependency {
            variable: "a".to_string(),
            circle: vec!["a".to_string(), "a".to_string()],
        }
    );
}

#[test]
fn undefined_variable_in_assignment() {
    let e = error(vec![Item::Assignment(Assignment {
        export: false,
        name: name("a", 0, 0, 0),
        value: Expression::Concatination {
            lhs: Box::new(string("x")),
            rhs: Box::new(Expression::Group { contents: Box::new(variable(name("yy", 11, 0, 11))) }),
        },
    })]);
    assert_eq!(e.token, identifier("yy", 11, 0, 11));
    assert_eq!(e.kind, CompilationErrorKind::UndefinedVariable { variable: "yy".to_string() });
}

#[test]
fn unknown_dependency() {
    let mut a = recipe(name("a", 0, 0, 0));
    a.dependencies = vec![dependency(name("b", 3, 0, 3))];
    let e = error(vec![Item::Recipe(a)]);
    assert_eq!(e.token, identifier("b", 3, 0, 3));
    assert_eq!(
        e.kind,
        CompilationErrorKind::UnknownDependency {
            recipe: "a".to_string(),
            unknown: "b".to_string()
        }
    );
}

#[test]
fn dependency_argument_count_mismatch() {
    let mut a = recipe(name("a", 0, 0, 0));
    a.dependencies = vec![UnresolvedDependency {
        recipe: name("b", 4, 0, 4),
        arguments: vec![string("1"), string("2")],
    }];
    let mut b = recipe(name("b", 15, 1, 0));
    b.parameters = vec![parameter(name("x", 17, 1, 2))];
    let e = error(vec![Item::Recipe(a), Item::Recipe(b)]);
    assert_eq!(e.token, identifier("b", 4, 0, 4));
    assert_eq!(
        e.kind,
        CompilationErrorKind::DependencyArgumentCountMismatch {
            dependency: "b".to_string(),
            found: 2,
            min: 1,
            max: 1,
        }
    );
}

#[test]
fn recipe_may_use_its_parameters_and_the_variables() {
    let mut a = recipe(name("a", 10, 1, 0));
    a.parameters = vec![parameter(name("b", 12, 1, 2))];
    a.body = vec![Line {
        fragments: vec![
            Fragment::Text { token: token("echo ", 16, 2, 1, TokenKind::Text) },
            Fragment::Interpolation {
                expression: Expression::Concatination {
                    lhs: Box::new(variable(name("b", 23, 2, 8))),
                    rhs: Box::new(variable(name("v", 27, 2, 12))),
                },
            },
        ],
    }];
    let justfile = analyze(vec![
        Item::Assignment(Assignment { export: false, name: name("v", 0, 0, 0), value: string("h") }),
        Item::Recipe(a),
    ])
    .unwrap();
    assert_eq!(justfile.count(), 1);
}

#[test]
fn undefined_variable_in_recipe() {
    let mut a = recipe(name("a", 0, 0, 0));
    a.body = vec![Line {
        fragments: vec![Fragment::Interpolation { expression: variable(name("zz", 6, 1, 3)) }],
    }];
    let e = error(vec![Item::Recipe(a)]);
    assert_eq!(e.token, identifier("zz", 6, 1, 3));
    assert_eq!(e.kind, CompilationErrorKind::UndefinedVariable { variable: "zz".to_string() });
}

#[test]
fn unknown_function() {
    let mut a = recipe(name("a", 0, 0, 0));
    a.body = vec![Line {
        fragments: vec![Fragment::Interpolation {
            expression: Expression::Call { function: name("foo", 6, 1, 3), arguments: vec![] },
        }],
    }];
    let e = error(vec![Item::Recipe(a)]);
    assert_eq!(e.token, identifier("foo", 6, 1, 3));
    assert_eq!(e.kind, CompilationErrorKind::UnknownFunction { function: "foo".to_string() });
}

#[test]
fn function_argument_count_mismatch() {
    let mut a = recipe(name("a", 0, 0, 0));
    a.body = vec![Line {
        fragments: vec![Fragment::Interpolation {
            expression: Expression::Call {
                function: name("env_var", 6, 1, 3),
                arguments: vec![string("x"), string("y")],
            },
        }],
    }];
    let e = error(vec![Item::Recipe(a)]);
    assert_eq!(
        e.kind,
        CompilationErrorKind::FunctionArgumentCountMismatch {
            function: "env_var".to_string(),
            found: 2,
            expected: 1,
        }
    );
}

#[test]
fn built_in_functions_are_known() {
    let mut a = recipe(name("a", 0, 0, 0));
    a.body = vec![Line {
        fragments: vec![
            Fragment::Interpolation {
                expression: Expression::Call { function: name("os", 6, 1, 3), arguments: vec![] },
            },
            Fragment::Interpolation {
                expression: Expression::Call {
                    function: name("env_var_or_default", 12, 1, 9),
                    arguments: vec![
                        string("a"),
                        Expression::Call { function: name("arch", 40, 1, 37), arguments: vec![] },
                    ],
                },
            },
        ],
    }];
    assert!(analyze(vec![Item::Recipe(a)]).is_ok());
}

#[test]
fn forbidden_module() {
    let e = error(vec![Item::Submodule(UnresolvedSubmodule {
        name: name("foo", 4, 0, 4),
        items: Suite { items: vec![] },
    })]);
    assert_eq!(e.token, identifier("foo", 4, 0, 4));
    assert_eq!(e.kind, CompilationErrorKind::ForbiddenModule { module: "foo".to_string() });
}

#[test]
fn modules_are_analyzed_within() {
    let inner = Suite {
        items: vec![
            Item::Recipe(recipe(name("a", 50, 3, 2))),
            Item::Recipe(recipe(name("a", 60, 4, 2))),
        ],
    };
    let e = error(vec![
        module_experiment(4, 0, 4),
        Item::Recipe(recipe(name("a", 30, 1, 0))),
        Item::Submodule(UnresolvedSubmodule { name: name("foo", 40, 2, 4), items: inner }),
    ]);
    assert_eq!(e.token, identifier("a", 60, 4, 2));
    assert_eq!(
        e.kind,
        CompilationErrorKind::Collision {
            first: 3,
            first_kind: "recipe",
            kind: "recipe",
            name: "a".to_string(),
            namespace: Namespace::Recipe,
        }
    );
}

#[test]
fn resolved_module_keeps_the_order_of_the_source() {
    let mut z = recipe(name("z", 0, 0, 0));
    z.dependencies = vec![dependency(name("y", 3, 0, 3))];
    let y = recipe(name("y", 5, 1, 0));
    let justfile = analyze(vec![
        module_experiment(4, 9, 4),
        Item::Recipe(z),
        Item::Alias(UnresolvedAlias { name: name("w", 20, 3, 6), target: name("z", 25, 3, 11) }),
        Item::Recipe(y),
        Item::Alias(UnresolvedAlias { name: name("v", 30, 4, 6), target: name("y", 35, 4, 11) }),
        Item::Submodule(UnresolvedSubmodule {
            name: name("sub", 40, 5, 4),
            items: Suite { items: vec![Item::Recipe(recipe(name("z", 50, 6, 2)))] },
        }),
    ])
    .unwrap();
    assert_eq!(justfile.root.recipes.keys(), vec!["z", "y"]);
    assert_eq!(justfile.root.aliases.keys(), vec!["w", "v"]);
    let z = justfile.get_recipe("z").unwrap();
    assert_eq!(z.dependencies.len(), 1);
    assert_eq!(z.dependencies[0].recipe.name(), "y");
    assert!(std::rc::Rc::ptr_eq(
        &z.dependencies[0].recipe,
        &justfile.root.recipes.values()[1]
    ));
    assert!(std::rc::Rc::ptr_eq(
        &justfile.get_alias("v").unwrap().target,
        &justfile.root.recipes.values()[1]
    ));
    assert_eq!(justfile.get_recipe("w").unwrap().name(), "z");
    assert_eq!(justfile.root.submodules.len(), 1);
    assert_eq!(justfile.root.submodules[0].items.recipes.keys(), vec!["z"]);
    assert_eq!(justfile.first().unwrap().name(), "z");
}

#[test]
fn the_search_reports_what_it_comes_upon_first() {
    let undefined_first = error(vec![
        Item::Assignment(Assignment {
            export: false,
            name: name("a", 0, 0, 0),
            value: Expression::Concatination {
                lhs: Box::new(variable(name("x", 4, 0, 4))),
                rhs: Box::new(variable(name("b", 8, 0, 8))),
            },
        }),
        Item::Assignment(Assignment {
            export: false,
            name: name("b", 10, 1, 0),
            value: variable(name("a", 14, 1, 4)),
        }),
    ]);
    assert_eq!(
        undefined_first.kind,
        CompilationErrorKind::UndefinedVariable { variable: "x".to_string() }
    );
    let circle_first = error(vec![
        Item::Assignment(Assignment {
            export: false,
            name: name("a", 0, 0, 0),
            value: Expression::Concatination {
                lhs: Box::new(variable(name("b", 4, 0, 4))),
                rhs: Box::new(variable(name("x", 8, 0, 8))),
            },
        }),
        Item::Assignment(Assignment {
            export: false,
            name: name("b", 10, 1, 0),
            value: variable(name("a", 14, 1, 4)),
        }),
    ]);
    assert_eq!(
        circle_first.kind,
        CompilationErrorKind::CircularVariableDependency {
            variable: "a".to_string(),
            circle: vec!["a".to_string(), "b".to_string(), "a".to_string()],
        }
    );
    let later = error(vec![
        Item::Assignment(Assignment {
            export: false,
            name: name("a", 0, 0, 0),
            value: variable(name("b", 4, 0, 4)),
        }),
        Item::Assignment(Assignment {
            export: false,
            name: name("b", 10, 1, 0),
            value: Expression::Call {
                function: name("env_var", 14, 1, 4),
                arguments: vec![variable(name("y", 22, 1, 12))],
            },
        }),
    ]);
    assert_eq!(later.token, identifier("y", 22, 1, 12));
    assert_eq!(later.kind, CompilationErrorKind::UndefinedVariable { variable: "y".to_string() });
}
