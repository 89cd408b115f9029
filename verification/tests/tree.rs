use just::entry::{Entry, Step};
use just::graph::{walk, Walk};

fn file(contents: &'static str) -> Entry {
    Entry::File { contents }
}

fn dir(entries: Vec<(&'static str, Entry)>) -> Entry {
    Entry::Dir { entries }
}

#[test]
fn a_file_is_written_under_its_name() {
    assert_eq!(
        Entry::instantiate_base(&vec![("foo", file("bar"))]),
        vec![Step::Write { path: vec!["foo"], contents: "bar" }]
    );
    assert_eq!(Entry::instantiate_base(&vec![]), vec![]);
}

#[test]
fn a_directory_is_created_before_what_it_holds() {
    let entries = vec![
        ("foo", dir(vec![("bar", file("baz")), ("empty", dir(vec![])), ("qux", dir(vec![("deep", file(""))]))])),
        ("top", file("t")),
    ];
    assert_eq!(
        Entry::instantiate_base(&entries),
        vec![
            Step::Create { path: vec!["foo"] },
            Step::Write { path: vec!["foo", "bar"], contents: "baz" },
            Step::Create { path: vec!["foo", "empty"] },
            Step::Create { path: vec!["foo", "qux"] },
            Step::Write { path: vec!["foo", "qux", "deep"], contents: "" },
            Step::Write { path: vec!["top"], contents: "t" },
        ]
    );
}

#[test]
fn instantiate_appends_at_the_path_and_leaves_it() {
    let mut path = vec!["base"];
    let mut steps = vec![Step::Create { path: vec!["base"] }];
    dir(vec![("x", file("1"))]).instantiate(&mut path, &mut steps);
    assert_eq!(path, vec!["base"]);
    assert_eq!(
        steps,
        vec![
            Step::Create { path: vec!["base"] },
            Step::Create { path: vec!["base"] },
            Step::Write { path: vec!["base", "x"], contents: "1" },
        ]
    );
}

#[test]
fn walk_orders_a_graph_without_a_cycle() {
    assert_eq!(walk(&vec![]), Walk::Ordered(vec![]));
    assert_eq!(walk(&vec![vec![1, 2], vec![2], vec![]]), Walk::Ordered(vec![2, 1, 0]));
    assert_eq!(walk(&vec![vec![], vec![0, 0], vec![3], vec![]]), Walk::Ordered(vec![0, 1, 3, 2]));
}

#[test]
fn walk_finds_a_cycle() {
    assert_eq!(walk(&vec![vec![0]]), Walk::Circular(vec![0, 0]));
    assert_eq!(walk(&vec![vec![1], vec![0]]), Walk::Circular(vec![0, 1, 0]));
    assert_eq!(walk(&vec![vec![1], vec![2], vec![3], vec![1]]), Walk::Circular(vec![1, 2, 3, 1]));
    assert_eq!(walk(&vec![vec![], vec![0, 2], vec![1]]), Walk::Circular(vec![1, 2, 1]));
}

#[test]
fn walk_stops_at_an_edge_to_no_node() {
    assert_eq!(walk(&vec![vec![1]]), Walk::Dangling { node: 0, edge: 0 });
    assert_eq!(walk(&vec![vec![1, 5], vec![0]]), Walk::Circular(vec![0, 1, 0]));
    assert_eq!(walk(&vec![vec![1, 1], vec![2, 7], vec![]]), Walk::Dangling { node: 1, edge: 1 });
    assert_eq!(walk(&vec![vec![], vec![0, 2]]), Walk::Dangling { node: 1, edge: 1 });
}
