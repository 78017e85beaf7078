use gobi_lib::GobiError;
use gobi_lib::GobiResult;
use gobi_lib::file::TomlFile;
use gobi_lib::recipes::gobi::{GobiAction, GobiRecipe, context_updates, select_action};
use gobi_lib::recipes::imports::import_action;
use gobi_lib::recipes::list::{ListMode, list_lines, list_mode};
use gobi_lib::recipes::help::{hash_line, help_banner, help_listing};
use gobi_lib::recipes::project_manager::{
    deregister_project, prune_projects, register_project, where_paths,
};
use gobi_lib::recipes::sequence::{resolve_sequence, sequence_action};
use gobi_lib::recipes::shell::{CompleteShellConfig, ShellConfig, shell_action};
use gobi_lib::recipes::{Action, Recipe, RecipeManager};
use gobi_lib::recipes::utils::file_path_completion;

fn action(name: &str, subname: &str, priority: bool) -> Action {
    Action::new(name.to_owned(), subname.to_owned(), priority, String::new())
}

fn load(text: &str) -> TomlFile {
    TomlFile::from_toml_str("demo.toml".to_owned(), text).unwrap()
}

const PROJECTS: &str = r#"
[gobi]
help = "root help"

[gobi.projects]
beta = "/tmp/beta.toml"
alpha = "/tmp/alpha.toml"
"#;

#[test]
fn registry_registers_and_overwrites_by_name() {
    let mut manager = RecipeManager::new();
    manager.register_recipe(Recipe { name: "shell".to_owned(), help: "one".to_owned() });
    manager.register_recipe(Recipe { name: "list".to_owned(), help: "two".to_owned() });
    manager.register_recipe(Recipe { name: "shell".to_owned(), help: "three".to_owned() });
    assert_eq!(manager.recipes().len(), 2);
    assert_eq!(manager.get_recipe("shell").unwrap().help, "three");
    assert_eq!(manager.get_recipe("list").unwrap().help, "two");
    assert!(manager.get_recipe("missing").is_none());
}

#[test]
fn create_actions_aggregates_and_discards_on_any_failure() {
    // Three recipes' outcomes: exactly one fails.
    let results: Vec<GobiResult<Vec<Action>>> = vec![
        Ok(vec![action("a.x", "x", true)]),
        Err(GobiError { code: 1, msg: "Invalid shell config for action 'bad'".to_owned() }),
        Ok(vec![action("b.y", "y", true)]),
    ];
    let e = RecipeManager::create_actions(results).unwrap_err();
    assert_eq!(e.code, 1);
    assert_eq!(e.msg, "Invalid shell config for action 'bad'");

    let results: Vec<GobiResult<Vec<Action>>> = vec![
        Ok(vec![action("a.x", "x", true)]),
        Ok(vec![action("b.y", "y", true), action("c.z", "z", true)]),
    ];
    let all = RecipeManager::create_actions(results).unwrap();
    let names: Vec<String> = all.iter().map(|a| a.name.clone()).collect();
    assert_eq!(names, vec!["a.x".to_owned(), "b.y".to_owned(), "c.z".to_owned()]);
}

#[test]
fn gobi_recipe_emits_one_action_per_declared_project() {
    let file = load(PROJECTS);
    let recipe = GobiRecipe::new();
    let actions = recipe.create_actions(&file.get_data()).unwrap();
    assert_eq!(actions.len(), 2);
    let mut pairs: Vec<(String, String)> =
        actions.iter().map(|a| (a.name.clone(), a.path.clone())).collect();
    pairs.sort();
    assert_eq!(
        pairs,
        vec![
            ("alpha".to_owned(), "/tmp/alpha.toml".to_owned()),
            ("beta".to_owned(), "/tmp/beta.toml".to_owned()),
        ]
    );
    assert!(!actions[0].priority);

    let empty = load("title = \"no projects\"\n");
    let none = recipe.create_actions(&empty.get_data()).unwrap();
    assert!(none.is_empty());
}

#[test]
fn gobi_action_defaults_empty_name_to_root_identity() {
    let root = GobiAction::new("", "core.toml".to_owned());
    assert_eq!(root.name, "gobi");
    assert_eq!(root.subname, "gobi");
    assert!(!root.priority);
    let sub = GobiAction::new("alpha", "alpha.toml".to_owned());
    assert_eq!(sub.name, "alpha");
    let as_action = sub.to_action("h".to_owned());
    assert_eq!(as_action.name, "alpha");
    assert_eq!(as_action.help, "h");
}

#[test]
fn help_text_reads_the_document_or_falls_back() {
    let file = load(PROJECTS);
    let a = GobiAction::new("alpha", "alpha.toml".to_owned());
    assert_eq!(a.help_text(&file.get_data()), "root help");
    let bare = load("x = 1\n");
    assert_eq!(a.help_text(&bare.get_data()), "Project 'alpha' has no help");
}

#[test]
fn select_action_refuses_an_empty_request() {
    let actions = vec![action("list", "list", true)];
    let e = select_action(&actions, &Vec::new()).unwrap_err();
    assert_eq!(e.code, 1);
    assert_eq!(e.msg, "No action specified");
    let i = select_action(&actions, &vec!["list".to_owned(), "full".to_owned()]).unwrap();
    assert_eq!(i, 0);
}

#[test]
fn context_updates_name_the_dispatch() {
    let project = GobiAction::new("alpha", "/tmp/alpha.toml".to_owned());
    let chosen = action("shell.build", "build", true);
    let (pairs, chain) = context_updates(&project, "/tmp", &chosen, None);
    let expect = vec![
        ("GOBI_FILE", "/tmp/alpha.toml"),
        ("GOBI_DIR", "/tmp"),
        ("GOBI_ACTION", "build"),
        ("GOBI_ACTION_FULL", "shell.build"),
        ("GOBI_PROJECT", "alpha"),
    ];
    let got: Vec<(&str, &str)> = pairs.iter().map(|(k, v)| (k.as_str(), v.as_str())).collect();
    assert_eq!(got, expect);
    assert_eq!(chain, Some("alpha".to_owned()));

    let older = "root;mid".to_owned();
    let (_, chain) = context_updates(&project, "/tmp", &chosen, Some(&older));
    assert_eq!(chain, Some("root;mid;alpha".to_owned()));

    let root = GobiAction::new("", "/tmp/core.toml".to_owned());
    let (_, chain) = context_updates(&root, "/tmp", &chosen, Some(&older));
    assert_eq!(chain, None);
}

#[test]
fn register_project_creates_sections_and_stores_the_path() {
    let mut file = load("title = \"x\"\n");
    register_project(&mut file, "alpha", "/tmp/alpha.toml").unwrap();
    let paths = where_paths(&file, &vec!["alpha".to_owned()]).unwrap();
    assert_eq!(paths, vec!["/tmp/alpha.toml".to_owned()]);

    // A second registration under the same name is refused.
    let e = register_project(&mut file, "alpha", "/elsewhere.toml").unwrap_err();
    assert_eq!(e.code, 1);
    assert_eq!(e.msg, "Project alpha is already registered");

    // A second project lands beside the first.
    register_project(&mut file, "beta", "/tmp/beta.toml").unwrap();
    let paths = where_paths(&file, &vec!["beta".to_owned(), "alpha".to_owned()]).unwrap();
    assert_eq!(paths, vec!["/tmp/beta.toml".to_owned(), "/tmp/alpha.toml".to_owned()]);
}

#[test]
fn register_project_refuses_non_table_sections() {
    let mut file = load("gobi = 5\n");
    let e = register_project(&mut file, "alpha", "/a.toml").unwrap_err();
    assert_eq!(e.msg, "Expected [gobi] to be a table");
    let mut file = load("[gobi]\nprojects = 5\n");
    let e = register_project(&mut file, "alpha", "/a.toml").unwrap_err();
    assert_eq!(e.msg, "Expected [gobi.projects] to be a table");
}

#[test]
fn deregister_project_removes_or_refuses() {
    let mut file = load(PROJECTS);
    deregister_project(&mut file, "alpha").unwrap();
    let e = where_paths(&file, &vec!["alpha".to_owned()]).unwrap_err();
    assert_eq!(e.code, 1);
    assert!(e.msg.contains("Project alpha not found"));
    let e = deregister_project(&mut file, "alpha").unwrap_err();
    assert_eq!(e.msg, "Project alpha is not registered");
    let mut bare = load("x = 1\n");
    let e = deregister_project(&mut bare, "alpha").unwrap_err();
    assert_eq!(e.msg, "Project alpha is not registered");
}

#[test]
fn where_paths_aggregates_misses() {
    let file = load(PROJECTS);
    let e = where_paths(&file, &vec!["alpha".to_owned(), "nope".to_owned(), "gone".to_owned()])
        .unwrap_err();
    assert!(e.msg.contains("Project nope not found"));
    assert!(e.msg.contains("Project gone not found"));
    let bare = load("x = 1\n");
    let e = where_paths(&bare, &vec!["alpha".to_owned()]).unwrap_err();
    assert_eq!(e.msg, "Expected 'projects' to be a table");
}

#[test]
fn prune_projects_drops_the_named_entries() {
    let mut file = load(PROJECTS);
    prune_projects(&mut file, &vec!["beta".to_owned(), "missing".to_owned()]).unwrap();
    assert!(where_paths(&file, &vec!["alpha".to_owned()]).is_ok());
    assert!(where_paths(&file, &vec!["beta".to_owned()]).is_err());
}

#[test]
fn list_mode_reads_the_request() {
    assert!(matches!(list_mode(&Vec::new()).unwrap(), ListMode::Decorated));
    assert!(matches!(list_mode(&vec!["porcelain".to_owned()]).unwrap(), ListMode::Porcelain));
    assert!(matches!(list_mode(&vec!["full".to_owned()]).unwrap(), ListMode::Full));
    let e = list_mode(&vec!["bogus".to_owned()]).unwrap_err();
    assert_eq!(e.msg, "Unknown argument: bogus");
    let e = list_mode(&vec!["a".to_owned(), "b".to_owned()]).unwrap_err();
    assert_eq!(e.msg, "Too many arguments passed to list action");
}

#[test]
fn list_lines_shows_full_or_minimal_names() {
    let actions = vec![
        action("z.run", "run", true),
        action("a.run", "run", false),
        action("list", "list", true),
    ];
    let full = list_lines(&actions, true);
    assert_eq!(full, vec!["a.run".to_owned(), "list".to_owned(), "z.run".to_owned()]);
    let minimal = list_lines(&actions, false);
    assert_eq!(minimal, vec!["list".to_owned(), "run".to_owned()]);
}

#[test]
fn help_banner_frames_the_name() {
    assert_eq!(hash_line(3), "###");
    let banner = help_banner("list", "Lists actions");
    assert_eq!(banner, "########\n# list #\n########\nLists actions");
}

#[test]
fn help_listing_joins_banners_and_aggregates_misses() {
    let actions = vec![
        Action::new("list".to_owned(), "list".to_owned(), true, "Lists actions".to_owned()),
        Action::new("help".to_owned(), "help".to_owned(), true, "Shows help".to_owned()),
    ];
    let text = help_listing(&actions, &vec!["list".to_owned(), "help".to_owned()]).unwrap();
    assert_eq!(
        text,
        "\n\n########\n# list #\n########\nLists actions\n\n########\n# help #\n########\nShows help"
    );
    let e = help_listing(&actions, &vec!["nope".to_owned(), "list".to_owned()]).unwrap_err();
    assert_eq!(e.code, 1);
    assert!(e.msg.contains("Action nope not found"));
}

#[test]
fn import_action_prefixes_and_demotes() {
    let sub = action("shell.build", "build", true);
    let wrapped = import_action("other", &sub);
    assert_eq!(wrapped.name, "other.shell.build");
    assert_eq!(wrapped.subname, "build");
    assert!(!wrapped.priority);
}

#[test]
fn sequence_resolution_aggregates_failures() {
    let actions = vec![action("shell.build", "build", true), action("shell.test", "test", true)];
    let idxs =
        resolve_sequence(&vec!["test".to_owned(), "build".to_owned()], &actions).unwrap();
    assert_eq!(idxs, vec![1, 0]);
    let e = resolve_sequence(&vec!["nope".to_owned(), "build".to_owned(), "gone".to_owned()], &actions)
        .unwrap_err();
    assert!(e.msg.contains("Action nope not found"));
    assert!(e.msg.contains("Action gone not found"));
    let named = sequence_action("deploy", "runs things".to_owned());
    assert_eq!(named.name, "sequence.deploy");
    assert!(named.priority);
}

#[test]
fn shell_config_defaulting_follows_the_fallback_chain() {
    let config = ShellConfig {
        shell: None,
        extension: Some(".sh".to_owned()),
        params: None,
        env: None,
        eval_env: None,
        cwd: None,
        help: None,
        priority: Some(false),
        command: Some("make".to_owned()),
        completion: None,
    };
    let default = ShellConfig {
        shell: Some("/bin/bash".to_owned()),
        extension: None,
        params: Some(vec!["-e".to_owned()]),
        env: Some(vec![("A".to_owned(), "1".to_owned())]),
        eval_env: None,
        cwd: None,
        help: Some("default help".to_owned()),
        priority: None,
        command: None,
        completion: None,
    };
    let complete = CompleteShellConfig::new(&config, &default, "/work".to_owned());
    assert_eq!(complete.shell, "/bin/bash");
    assert_eq!(complete.extension, ".sh");
    assert_eq!(complete.params, vec!["-e".to_owned()]);
    assert_eq!(complete.env, vec![("A".to_owned(), "1".to_owned())]);
    assert!(complete.eval_env.is_empty());
    assert_eq!(complete.cwd, "/work");
    assert_eq!(complete.command, "make");
    assert_eq!(complete.completion, None);

    let meta = shell_action("build", &config, &default);
    assert_eq!(meta.name, "shell.build");
    assert_eq!(meta.subname, "build");
    assert!(!meta.priority);
    assert_eq!(meta.help, "default help");
}

#[test]
fn file_path_completion_prefixes_entries() {
    let entries = vec!["one".to_owned(), "two".to_owned()];
    // The typed path is a directory without a trailing separator.
    let r = file_path_completion(true, "src", &entries);
    assert_eq!(r, vec!["src/one".to_owned(), "src/two".to_owned()]);
    // The typed path is a directory with the separator already there.
    let r = file_path_completion(true, "src/", &entries);
    assert_eq!(r, vec!["src/one".to_owned(), "src/two".to_owned()]);
    // Nothing typed yet.
    let r = file_path_completion(true, "", &entries);
    assert_eq!(r, vec!["one".to_owned(), "two".to_owned()]);
    // A fragment after a separator is cut back to the separator.
    let r = file_path_completion(false, "src/ma", &entries);
    assert_eq!(r, vec!["src/one".to_owned(), "src/two".to_owned()]);
    // A bare fragment keeps no prefix.
    let r = file_path_completion(false, "ma", &entries);
    assert_eq!(r, vec!["one".to_owned(), "two".to_owned()]);
}

#[test]
fn render_template_substitutes_context_values() {
    let ctx = vec![("name".to_owned(), "world".to_owned())];
    let out = gobi_lib::render::render_template("hello {{name}}", &ctx, false).unwrap();
    assert_eq!(out, "hello world");
    let e = gobi_lib::render::render_template("{{#broken", &ctx, false).unwrap_err();
    assert_eq!(e.code, 1);
    assert!(e.msg.starts_with("Failed to render template: "));
}

#[test]
fn render_template_is_the_identity_on_raw_text() {
    let ctx = vec![("name".to_owned(), "world".to_owned())];
    let out = gobi_lib::render::render_template("no markers here", &ctx, false).unwrap();
    assert_eq!(out, "no markers here");
    let out = gobi_lib::render::render_template("single { brace }", &ctx, true).unwrap();
    assert_eq!(out, "single { brace }");
}

#[test]
fn render_template_keeps_unknown_placeholders_when_asked() {
    let ctx = vec![("name".to_owned(), "world".to_owned())];
    let dropped = gobi_lib::render::render_template("a {{nope}} b", &ctx, false).unwrap();
    assert_eq!(dropped, "a  b");
    let kept = gobi_lib::render::render_template("a {{nope}} b", &ctx, true).unwrap();
    assert!(kept.contains("nope"));
    let kept = gobi_lib::render::render_template("hello {{name}}", &ctx, true).unwrap();
    assert_eq!(kept, "hello world");
}
