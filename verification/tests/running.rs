use just::alias::UnresolvedAlias;
use just::analyzer::Analyzer;
use just::assignment::Assignment;
use just::expression::{Expression, StringKind, StringLiteral};
use just::group::Group;
use just::item::Item;
use just::justfile::Justfile;
use just::parameter::{supply, Parameter, ParameterKind, Supply};
use just::parse::Parse;
use just::recipe::{Recipe, UnresolvedDependency, UnresolvedRecipe};
use just::runner::{Action, Event, Runner};
use just::runtime_error::RuntimeError;
use just::scope::Scope;
use just::setting::{SetItem, Setting};
use just::submodule::UnresolvedSubmodule;
use just::suite::Suite;
use just::token::Name;

fn named(lexeme: &str, line: usize) -> Name {
    Name { offset: line * 10, length: lexeme.len(), line, column: 0, lexeme: lexeme.to_string() }
}

fn text(value: &str) -> Expression {
    Expression::StringLiteral {
        string_literal: StringLiteral {
            kind: StringKind::Raw,
            raw: value.to_string(),
            cooked: value.to_string(),
        },
    }
}

fn required(lexeme: &str) -> Parameter {
    Parameter { name: named(lexeme, 0), kind: ParameterKind::Singular, default: None }
}

fn defaulted(lexeme: &str, value: &str) -> Parameter {
    Parameter { name: named(lexeme, 0), kind: ParameterKind::Singular, default: Some(text(value)) }
}

fn variadic(lexeme: &str) -> Parameter {
    Parameter { name: named(lexeme, 0), kind: ParameterKind::Plus, default: None }
}

fn task(lexeme: &str, line: usize, parameters: Vec<Parameter>, needs: Vec<(&str, Vec<&str>)>) -> Item {
    Item::Recipe(UnresolvedRecipe {
        name: named(lexeme, line),
        parameters,
        dependencies: needs
            .into_iter()
            .map(|(target, arguments)| UnresolvedDependency {
                recipe: named(target, line),
                arguments: arguments.into_iter().map(text).collect(),
            })
            .collect(),
        body: vec![],
        shebang: false,
        quiet: false,
        private: false,
        doc: None,
    })
}

fn compile(items: Vec<Item>) -> Justfile {
    Analyzer::analyze(Parse { suite: Suite { items }, warnings: vec![] }).unwrap()
}

fn strings(words: &[&str]) -> Vec<String> {
    words.iter().map(|word| word.to_string()).collect()
}

fn names(parameters: &Vec<Parameter>) -> Vec<&str> {
    parameters.iter().map(|p| p.name.lexeme()).collect()
}

fn plain(groups: &Vec<Group>) -> Vec<(String, Vec<String>)> {
    groups.iter().map(|g| (g.recipe.name().to_string(), g.arguments.to_vec())).collect()
}

#[test]
fn unknown_recipe() {
    let justfile = compile(vec![task("a", 0, vec![], vec![]), task("b", 1, vec![], vec![]), task("c", 2, vec![], vec![])]);
    let arguments = strings(&["a", "x", "y", "z"]);
    match justfile.root.groups(&arguments) {
        Err(RuntimeError::UnknownRecipe { recipe, suggestion }) => {
            assert_eq!(recipe, "x");
            assert_eq!(suggestion, Some("a"));
        }
        other => panic!("{:?}", other),
    }
}

#[test]
fn suggestion_is_the_nearest_name_within_three_edits() {
    let justfile = compile(vec![
        task("build", 0, vec![], vec![]),
        task("test", 1, vec![], vec![]),
        task("bench", 2, vec![], vec![]),
    ]);
    assert_eq!(justfile.suggest("biuld"), Some("build"));
    assert_eq!(justfile.suggest("tset"), Some("test"));
    assert_eq!(justfile.suggest("benc"), Some("bench"));
    assert_eq!(justfile.suggest("tes"), Some("test"));
    assert_eq!(justfile.suggest("deployment"), None);
    assert_eq!(justfile.suggest("test"), Some("test"));
    assert_eq!(justfile.root.suggest("bxxxh"), None);
    assert_eq!(justfile.root.suggest("bexxh"), Some("bench"));
    assert_eq!(compile(vec![]).suggest("a"), None);
}

#[test]
fn missing_some_arguments() {
    let justfile = compile(vec![task("a", 0, vec![required("b"), required("c"), required("d")], vec![])]);
    let arguments = strings(&["a", "b", "c"]);
    match justfile.root.groups(&arguments) {
        Err(RuntimeError::ArgumentCountMismatch { recipe, parameters, found, min, max }) => {
            assert_eq!(recipe, "a");
            assert_eq!(names(parameters), ["b", "c", "d"]);
            assert_eq!(found, 2);
            assert_eq!(min, 3);
            assert_eq!(max, 3);
        }
        other => panic!("{:?}", other),
    }
}

#[test]
fn missing_all_arguments() {
    let justfile = compile(vec![task("a", 0, vec![required("b"), required("c"), required("d")], vec![])]);
    let arguments = strings(&["a"]);
    match justfile.root.groups(&arguments) {
        Err(RuntimeError::ArgumentCountMismatch { recipe, parameters, found, min, max }) => {
            assert_eq!(recipe, "a");
            assert_eq!(names(parameters), ["b", "c", "d"]);
            assert_eq!(found, 0);
            assert_eq!(min, 3);
            assert_eq!(max, 3);
        }
        other => panic!("{:?}", other),
    }
}

#[test]
fn missing_some_defaults() {
    let justfile = compile(vec![task(
        "a",
        0,
        vec![required("b"), required("c"), defaulted("d", "hello")],
        vec![],
    )]);
    let arguments = strings(&["a", "b"]);
    match justfile.root.groups(&arguments) {
        Err(RuntimeError::ArgumentCountMismatch { recipe, parameters, found, min, max }) => {
            assert_eq!(recipe, "a");
            assert_eq!(names(parameters), ["b", "c", "d"]);
            assert_eq!(found, 1);
            assert_eq!(min, 2);
            assert_eq!(max, 3);
        }
        other => panic!("{:?}", other),
    }
}

#[test]
fn missing_all_defaults() {
    let justfile = compile(vec![task(
        "a",
        0,
        vec![required("b"), defaulted("c", "r"), defaulted("d", "h")],
        vec![],
    )]);
    let arguments = strings(&["a"]);
    match justfile.root.groups(&arguments) {
        Err(RuntimeError::ArgumentCountMismatch { recipe, parameters, found, min, max }) => {
            assert_eq!(recipe, "a");
            assert_eq!(names(parameters), ["b", "c", "d"]);
            assert_eq!(found, 0);
            assert_eq!(min, 1);
            assert_eq!(max, 3);
        }
        other => panic!("{:?}", other),
    }
}

#[test]
fn variadic_parameter_takes_what_is_left() {
    let justfile = compile(vec![
        task("a", 0, vec![required("b"), variadic("c")], vec![]),
        task("z", 1, vec![], vec![]),
    ]);
    let recipe = justfile.get_recipe("a").unwrap();
    assert_eq!(recipe.min_arguments(), 1);
    assert_eq!(recipe.max_arguments(), usize::MAX - 1);
    let arguments = strings(&["a", "1", "2", "z"]);
    let groups = justfile.root.groups(&arguments).unwrap();
    assert_eq!(plain(&groups), vec![("a".to_string(), strings(&["1", "2", "z"]))]);
    let arguments = strings(&["a"]);
    match justfile.root.groups(&arguments) {
        Err(RuntimeError::ArgumentCountMismatch { found, min, max, .. }) => {
            assert_eq!((found, min, max), (0, 1, usize::MAX - 1));
        }
        other => panic!("{:?}", other),
    }
}

#[test]
fn groups_take_as_many_arguments_as_recipes_accept() {
    let justfile = compile(vec![
        task("a", 0, vec![required("x")], vec![]),
        task("b", 1, vec![defaulted("y", "1")], vec![]),
        task("c", 2, vec![], vec![]),
    ]);
    let arguments = strings(&["a", "c", "b", "c", "c", "b"]);
    let groups = justfile.root.groups(&arguments).unwrap();
    assert_eq!(
        plain(&groups),
        vec![
            ("a".to_string(), strings(&["c"])),
            ("b".to_string(), strings(&["c"])),
            ("c".to_string(), strings(&[])),
            ("b".to_string(), strings(&[])),
        ]
    );
    assert_eq!(justfile.root.groups(&[]).unwrap().len(), 0);
}

#[test]
fn alias_is_grouped_as_its_target() {
    let justfile = compile(vec![
        task("build", 0, vec![required("x"), defaulted("y", "1")], vec![]),
        Item::Alias(UnresolvedAlias { name: named("b", 1), target: named("build", 1) }),
    ]);
    for tail in [vec![], vec!["1"], vec!["1", "2"], vec!["1", "2", "b"]] {
        let mut by_alias = vec!["b"];
        by_alias.extend(tail.iter());
        let mut by_name = vec!["build"];
        by_name.extend(tail.iter());
        let by_alias = strings(&by_alias);
        let by_name = strings(&by_name);
        match (justfile.root.groups(&by_alias), justfile.root.groups(&by_name)) {
            (Ok(one), Ok(other)) => {
                assert_eq!(plain(&one), plain(&other));
                assert!(std::ptr::eq(one[0].recipe, other[0].recipe));
            }
            (Err(one), Err(other)) => assert_eq!(one, other),
            other => panic!("{:?}", other),
        }
    }
}

fn with_module() -> Justfile {
    compile(vec![
        Item::SetItem(SetItem { name: named("module-experiment", 0), value: Setting::ModuleExperiment }),
        task("a", 1, vec![], vec![]),
        Item::Submodule(UnresolvedSubmodule {
            name: named("tools", 2),
            items: Suite {
                items: vec![task("a", 3, vec![required("x")], vec![]), task("lint", 4, vec![], vec![])],
            },
        }),
    ])
}

#[test]
fn module_hands_the_arguments_on() {
    let justfile = with_module();
    let arguments = strings(&["tools", "a", "1", "a", "tools", "lint"]);
    let groups = justfile.root.groups(&arguments).unwrap();
    assert_eq!(
        plain(&groups),
        vec![
            ("a".to_string(), strings(&["1"])),
            ("a".to_string(), strings(&[])),
            ("lint".to_string(), strings(&[])),
        ]
    );
    assert_eq!(groups[0].recipe.parameters.len(), 1);
    assert_eq!(groups[1].recipe.parameters.len(), 0);
}

#[test]
fn module_without_a_recipe_is_refused() {
    let justfile = with_module();
    let arguments = strings(&["a", "tools"]);
    assert_eq!(
        justfile.root.groups(&arguments),
        Err(RuntimeError::SubmoduleRequiresRecipe { module: "tools" })
    );
    let arguments = strings(&["tools", "lnt"]);
    assert_eq!(
        justfile.root.groups(&arguments),
        Err(RuntimeError::UnknownRecipe { recipe: "lnt", suggestion: Some("lint") })
    );
}

#[test]
fn default_recipe_requires_arguments() {
    let justfile = compile(vec![task("a", 0, vec![required("x")], vec![])]);
    assert_eq!(
        justfile.invocation(&[]),
        Err(RuntimeError::DefaultRecipeRequiresArguments { recipe: "a", min_arguments: 1 })
    );
}

#[test]
fn no_recipes() {
    let justfile = compile(vec![]);
    assert_eq!(justfile.invocation(&[]), Err(RuntimeError::NoRecipes));
    assert_eq!(justfile.count(), 0);
    assert!(justfile.first().is_none());
}

#[test]
fn default_recipe_is_the_first_of_the_source() {
    let justfile = compile(vec![
        task("later", 7, vec![], vec![]),
        task("first", 2, vec![defaulted("x", "1")], vec![]),
        task("also", 2, vec![], vec![]),
    ]);
    assert_eq!(justfile.first().unwrap().name(), "first");
    assert_eq!(justfile.invocation(&[]), Ok(strings(&["first"])));
    assert_eq!(justfile.invocation(&strings(&["later", "x"])), Ok(strings(&["later", "x"])));
    assert_eq!(justfile.count(), 3);
}

fn assigned() -> Justfile {
    compile(vec![
        Item::Assignment(Assignment { export: true, name: named("foo", 0), value: text("a") }),
        Item::Assignment(Assignment { export: false, name: named("longer", 1), value: text("b") }),
        task("a", 2, vec![], vec![]),
    ])
}

fn pairs(overrides: &[(&str, &str)]) -> Vec<(String, String)> {
    overrides.iter().map(|(name, value)| (name.to_string(), value.to_string())).collect()
}

#[test]
fn unknown_overrides() {
    let justfile = assigned();
    let overrides = pairs(&[("foo", "bar"), ("baz", "bob"), ("zed", "1"), ("abc", "2"), ("baz", "3")]);
    match justfile.override_scope(&overrides) {
        Err(RuntimeError::UnknownOverrides { overrides }) => {
            assert_eq!(overrides, &["abc", "baz", "zed"]);
        }
        other => panic!("{:?}", other),
    }
    assert_eq!(justfile.unknown_overrides(&overrides), vec!["abc", "baz", "zed"]);
}

#[test]
fn overrides_bind_the_assigned_names() {
    let justfile = assigned();
    let overrides = pairs(&[("longer", "x y"), ("foo", "bar")]);
    let scope = justfile.override_scope(&overrides).unwrap();
    assert_eq!(scope.names(), vec!["longer", "foo"]);
    assert_eq!(scope.value("foo"), Some("bar"));
    assert_eq!(scope.value("longer"), Some("x y"));
    assert_eq!(scope.value("other"), None);
    assert!(scope.bindings()[1].export);
    assert!(!scope.bindings()[0].export);
    assert_eq!(scope.bindings()[1].name, named("foo", 0));
    assert!(justfile.unknown_overrides(&overrides).is_empty());
}

#[test]
fn listing_puts_the_names_in_a_column() {
    let mut scope = Scope::new();
    assert_eq!(scope.listing(), "");
    scope.bind(false, named("a", 0), "1".to_string());
    scope.bind(true, named("long", 1), "two words".to_string());
    scope.bind(false, named("\u{e9}\u{e9}", 2), "".to_string());
    assert_eq!(scope.listing(), "a    := \"1\"\nlong := \"two words\"\n\u{e9}\u{e9}   := \"\"\n");
    scope.bind(false, named("a", 3), "4".to_string());
    assert_eq!(scope.value("a"), Some("4"));
}

fn perform<'run>(groups: &Vec<Group<'run>>, evaluate: &dyn Fn(&Recipe, usize) -> Vec<String>) -> Vec<String> {
    let mut runner = Runner::new(groups);
    let mut trace = Vec::new();
    let mut action = runner.step(Event::Done);
    loop {
        let event = match &action {
            Action::Enter { recipe, arguments } => {
                trace.push(format!("enter {} {:?}", recipe.name(), arguments));
                Event::Done
            }
            Action::Evaluate { recipe, dependency } => Event::Evaluated(evaluate(recipe, *dependency)),
            Action::Execute { recipe } => {
                trace.push(format!("run {}", recipe.name()));
                Event::Done
            }
            Action::Finished => break,
        };
        action = runner.step(event);
    }
    trace
}

fn literal(recipe: &Recipe, dependency: usize) -> Vec<String> {
    recipe.dependencies[dependency]
        .arguments
        .iter()
        .map(|argument| match argument {
            Expression::StringLiteral { string_literal } => string_literal.cooked.clone(),
            _ => String::new(),
        })
        .collect()
}

#[test]
fn dependencies_run_first_and_once() {
    let justfile = compile(vec![
        task("all", 0, vec![], vec![("left", vec![]), ("right", vec![]), ("base", vec!["1"])]),
        task("left", 1, vec![], vec![("base", vec!["1"])]),
        task("right", 2, vec![], vec![("base", vec!["1"]), ("base", vec!["2"])]),
        task("base", 3, vec![required("x")], vec![]),
    ]);
    let arguments = strings(&["all"]);
    let groups = justfile.root.groups(&arguments).unwrap();
    assert_eq!(
        perform(&groups, &literal),
        vec![
            "enter all []",
            "enter left []",
            "enter base [\"1\"]",
            "run base",
            "run left",
            "enter right []",
            "enter base [\"2\"]",
            "run base",
            "run right",
            "run all",
        ]
    );
}

#[test]
fn recipes_that_are_asked_for_run_each_time() {
    let justfile = compile(vec![
        task("a", 0, vec![], vec![("b", vec![])]),
        task("b", 1, vec![], vec![]),
    ]);
    let arguments = strings(&["b", "a", "a", "b"]);
    let groups = justfile.root.groups(&arguments).unwrap();
    assert_eq!(
        perform(&groups, &literal),
        vec!["enter b []", "run b", "enter a []", "run a", "enter a []", "run a", "enter b []", "run b"]
    );
}

#[test]
fn an_event_that_is_not_awaited_changes_nothing() {
    let justfile = compile(vec![
        task("a", 0, vec![], vec![("b", vec!["1"])]),
        task("b", 1, vec![required("x")], vec![]),
    ]);
    let arguments = strings(&["a"]);
    let groups = justfile.root.groups(&arguments).unwrap();
    let mut runner = Runner::new(&groups);
    let a = justfile.get_recipe("a").unwrap();
    let b = justfile.get_recipe("b").unwrap();
    assert_eq!(runner.step(Event::Evaluated(strings(&["9"]))), Action::Finished);
    assert_eq!(runner.step(Event::Done), Action::Enter { recipe: a, arguments: vec![] });
    assert_eq!(
        runner.step(Event::Evaluated(strings(&["9"]))),
        Action::Enter { recipe: a, arguments: vec![] }
    );
    assert_eq!(runner.step(Event::Done), Action::Evaluate { recipe: a, dependency: 0 });
    assert_eq!(runner.step(Event::Done), Action::Evaluate { recipe: a, dependency: 0 });
    assert_eq!(
        runner.step(Event::Evaluated(strings(&["1"]))),
        Action::Enter { recipe: b, arguments: strings(&["1"]) }
    );
    assert_eq!(runner.step(Event::Done), Action::Execute { recipe: b });
    assert_eq!(runner.step(Event::Evaluated(vec![])), Action::Execute { recipe: b });
    assert_eq!(runner.step(Event::Done), Action::Execute { recipe: a });
    assert_eq!(runner.step(Event::Done), Action::Finished);
    assert_eq!(runner.step(Event::Done), Action::Finished);
}

#[test]
fn arguments_are_handed_out_to_the_parameters() {
    let given = |value: &str| Supply::Given(value.to_string());
    let star = Parameter { name: named("s", 0), kind: ParameterKind::Star, default: None };
    let parameters = vec![required("a"), defaulted("b", "1"), variadic("c")];
    assert_eq!(
        supply(&parameters, &strings(&["x", "y", "z", "w"])),
        vec![given("x"), given("y"), given("z w")]
    );
    assert_eq!(supply(&parameters, &strings(&["x", "y", "z"])), vec![given("x"), given("y"), given("z")]);
    assert_eq!(supply(&parameters, &strings(&["x"])), vec![given("x"), Supply::Default, Supply::Missing]);
    assert_eq!(supply(&parameters, &[]), vec![Supply::Missing, Supply::Default, Supply::Missing]);
    assert_eq!(supply(&vec![required("a"), star], &strings(&["x"])), vec![given("x"), given("")]);
    assert_eq!(supply(&vec![], &strings(&["x"])), vec![]);
}
