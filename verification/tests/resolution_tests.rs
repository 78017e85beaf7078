use gobi_lib::recipes::{Action, find_action, find_action_index, get_minimal_names};

fn action(name: &str, subname: &str, priority: bool) -> Action {
    Action::new(name.to_owned(), subname.to_owned(), priority, String::new())
}

#[test]
fn priority_breaks_a_subname_collision() {
    let actions = vec![
        action("shell.build", "build", true),
        action("shell.quick-build", "build", false),
    ];
    let found = find_action("build", &actions).unwrap();
    assert_eq!(found.name, "shell.build");
    let found = find_action("shell.quick-build", &actions).unwrap();
    assert_eq!(found.name, "shell.quick-build");
}

#[test]
fn unique_subname_wins_regardless_of_priority() {
    let actions = vec![action("shell.test", "test", false), action("shell.build", "build", true)];
    let found = find_action("test", &actions).unwrap();
    assert_eq!(found.name, "shell.test");
}

#[test]
fn two_priority_actions_sharing_a_subname_are_ambiguous() {
    let actions = vec![action("a.test", "test", true), action("b.test", "test", true)];
    let e = find_action("test", &actions).unwrap_err();
    assert_eq!(e.code, 1);
    assert_eq!(e.msg, "Action test is ambiguous");

    let listed = get_minimal_names(&actions);
    let shown: Vec<(String, String)> =
        listed.iter().map(|(a, n)| (a.name.clone(), n.clone())).collect();
    assert_eq!(
        shown,
        vec![
            ("a.test".to_owned(), "a.test".to_owned()),
            ("b.test".to_owned(), "b.test".to_owned()),
        ]
    );
}

#[test]
fn qualified_name_still_resolves_amid_ambiguity() {
    let actions = vec![action("a.test", "test", true), action("b.test", "test", true)];
    let found = find_action("a.test", &actions).unwrap();
    assert_eq!(found.name, "a.test");
    let at = find_action_index("b.test", &actions).unwrap();
    assert_eq!(at, 1);
}

#[test]
fn missing_action_is_a_distinct_not_found_error() {
    let actions: Vec<Action> = vec![];
    let e = find_action("missing", &actions).unwrap_err();
    assert_eq!(e.code, 1);
    assert_eq!(e.msg, "Action missing not found");
    assert_ne!(e.msg, "Action missing is ambiguous");
}

#[test]
fn single_action_is_shown_under_its_subname() {
    let actions = vec![action("list", "list", true)];
    let listed = get_minimal_names(&actions);
    assert_eq!(listed.len(), 1);
    assert_eq!(listed[0].0.name, "list");
    assert_eq!(listed[0].1, "list");
}

#[test]
fn lone_priority_holder_owns_a_contested_subname() {
    let actions = vec![
        action("shell.build", "build", true),
        action("imported.build", "build", false),
    ];
    let listed = get_minimal_names(&actions);
    assert_eq!(listed.len(), 1);
    assert_eq!(listed[0].0.name, "shell.build");
    assert_eq!(listed[0].1, "build");
}

#[test]
fn group_without_priority_lists_sorted_qualified_names() {
    let actions = vec![
        action("z.run", "run", false),
        action("a.run", "run", false),
        action("list", "list", true),
    ];
    let listed = get_minimal_names(&actions);
    let shown: Vec<(String, String)> =
        listed.iter().map(|(a, n)| (a.name.clone(), n.clone())).collect();
    assert_eq!(
        shown,
        vec![
            ("list".to_owned(), "list".to_owned()),
            ("a.run".to_owned(), "a.run".to_owned()),
            ("z.run".to_owned(), "z.run".to_owned()),
        ]
    );
}

#[test]
fn groups_are_listed_in_sorted_subname_order() {
    let actions = vec![
        action("c.x", "zeta", true),
        action("a.y", "alpha", true),
        action("b.z", "mid", true),
    ];
    let listed = get_minimal_names(&actions);
    let names: Vec<String> = listed.iter().map(|(_, n)| n.clone()).collect();
    assert_eq!(names, vec!["alpha".to_owned(), "mid".to_owned(), "zeta".to_owned()]);
}
