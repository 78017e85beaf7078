use gobi_lib::file::{EntryIndex, EntryType, EntryValue, TomlFile};

const SAMPLE: &str = r#"
title = "demo"
count = 3
flag = true
ratio = 1.5

[gobi]
help = "top help"

[gobi.projects]
alpha = "/tmp/alpha.toml"
beta = "/tmp/beta.toml"

[lists]
nums = [1, 2, 3]
"#;

fn load(text: &str) -> TomlFile {
    TomlFile::from_toml_str("demo.toml".to_owned(), text).unwrap()
}

fn key(k: &str) -> EntryIndex {
    EntryIndex::Key(k.to_owned())
}

fn path(keys: &[&str]) -> Vec<EntryIndex> {
    keys.iter().map(|k| key(k)).collect()
}

#[test]
fn parse_reads_scalars() {
    let file = load(SAMPLE);
    let root = file.get_data();
    assert!(root.is_table());
    assert!(matches!(root.get_type(), EntryType::Table));
    let title = root.get(&key("title")).unwrap();
    assert!(title.is_string());
    assert_eq!(title.get_string().unwrap(), "demo");
    let count = root.get(&key("count")).unwrap();
    assert_eq!(count.get_integer().unwrap(), 3);
    let flag = root.get(&key("flag")).unwrap();
    assert_eq!(flag.get_boolean().unwrap(), true);
    let ratio = root.get(&key("ratio")).unwrap();
    assert!(ratio.is_float());
    assert_eq!(ratio.get_float().unwrap(), "1.5");
    assert_eq!(file.path(), "demo.toml");
}

#[test]
fn get_nested_and_contains() {
    let file = load(SAMPLE);
    let root = file.get_data();
    let help = root.get_nested(&path(&["gobi", "help"])).unwrap();
    assert_eq!(help.get_string().unwrap(), "top help");
    assert!(root.get_nested(&Vec::new()).is_none());
    assert!(root.get_nested(&path(&["gobi", "missing"])).is_none());
    let gobi = root.get(&key("gobi")).unwrap();
    assert_eq!(gobi.contains("projects"), Some(true));
    assert_eq!(gobi.contains("nothing"), Some(false));
    let title = root.get(&key("title")).unwrap();
    assert_eq!(title.contains("x"), None);
}

#[test]
fn arrays_expose_length_and_elements() {
    let file = load(SAMPLE);
    let nums = file.get_data().get_nested(&path(&["lists", "nums"])).unwrap();
    assert!(nums.is_array());
    assert_eq!(nums.len(), Some(3));
    let items = nums.get_array().unwrap();
    assert_eq!(items.len(), 3);
    assert_eq!(items[1].get_integer(), Some(2));
    let second = nums.get(&EntryIndex::Index(1)).unwrap();
    assert_eq!(second.get_integer(), Some(2));
    assert!(nums.get(&EntryIndex::Index(3)).is_none());
    let table = file.get_data().get(&key("gobi")).unwrap().get_table().unwrap();
    assert_eq!(table.len(), 2);
}

#[test]
fn set_then_read_back_round_trips() {
    let mut file = load(SAMPLE);
    let gobi = file.get_data().get(&key("gobi")).unwrap();
    file.set(&gobi, key("help"), EntryValue::String("new help".to_owned())).unwrap();
    let read = file.get_data().get_nested(&path(&["gobi", "help"])).unwrap();
    assert_eq!(read.get_string().unwrap(), "new help");

    // Inserting a key that was absent.
    file.set(&gobi, key("fresh"), EntryValue::Integer(9)).unwrap();
    let read = file.get_data().get_nested(&path(&["gobi", "fresh"])).unwrap();
    assert_eq!(read.get_integer(), Some(9));

    // Setting at the root entry.
    let root = file.get_data();
    file.set(&root, key("title"), EntryValue::String("renamed".to_owned())).unwrap();
    let read = file.get_data().get(&key("title")).unwrap();
    assert_eq!(read.get_string().unwrap(), "renamed");

    // Setting an array element, and appending at the array's end.
    let nums = file.get_data().get_nested(&path(&["lists", "nums"])).unwrap();
    file.set(&nums, EntryIndex::Index(0), EntryValue::Integer(10)).unwrap();
    file.set(&nums, EntryIndex::Index(3), EntryValue::Integer(4)).unwrap();
    let nums = file.get_data().get_nested(&path(&["lists", "nums"])).unwrap();
    assert_eq!(nums.len(), Some(4));
    assert_eq!(nums.get(&EntryIndex::Index(0)).unwrap().get_integer(), Some(10));
    assert_eq!(nums.get(&EntryIndex::Index(3)).unwrap().get_integer(), Some(4));
}

#[test]
fn set_composite_values() {
    let mut file = load(SAMPLE);
    let root = file.get_data();
    file.set(
        &root,
        key("extras"),
        EntryValue::Table(vec![
            ("a".to_owned(), EntryValue::Integer(1)),
            ("b".to_owned(), EntryValue::Array(vec![
                EntryValue::Boolean(false),
                EntryValue::String("x".to_owned()),
            ])),
        ]),
    )
    .unwrap();
    let extras = file.get_data().get(&key("extras")).unwrap();
    assert!(extras.is_table());
    assert_eq!(extras.get(&key("a")).unwrap().get_integer(), Some(1));
    let b = extras.get(&key("b")).unwrap();
    assert_eq!(b.len(), Some(2));
    assert_eq!(b.get(&EntryIndex::Index(1)).unwrap().get_string().unwrap(), "x");
}

#[test]
fn set_failures_are_dedicated_and_leave_tree_unchanged() {
    let mut file = load(SAMPLE);
    let root = file.get_data();

    // Out of bounds.
    let nums = root.get_nested(&path(&["lists", "nums"])).unwrap();
    let e = file.set(&nums, EntryIndex::Index(7), EntryValue::Integer(0)).unwrap_err();
    assert_eq!(e.code, 1);
    assert_eq!(e.msg, "Tried setting out of bounds index into array");

    // An array position on a non-array.
    let title = root.get(&key("title")).unwrap();
    let e = file.set(&title, EntryIndex::Index(0), EntryValue::Integer(0)).unwrap_err();
    assert_eq!(e.msg, "Tried setting an integer index on a non-array type");

    // A key on a non-table.
    let e = file.set(&title, key("k"), EntryValue::Integer(0)).unwrap_err();
    assert_eq!(e.msg, "Tried setting a string key on a non-table type");

    // A stale path: the entry's recorded location is gone.
    let gobi = root.get(&key("gobi")).unwrap();
    let help = gobi.get(&key("help")).unwrap();
    file.drop(&root, key("gobi")).unwrap();
    let e = file.set(&help, key("x"), EntryValue::Integer(0)).unwrap_err();
    assert_eq!(e.msg, "Tried to set a value through a missing path segment");

    // The tree still answers reads consistently.
    assert!(file.get_data().get(&key("gobi")).is_none());
    assert_eq!(file.get_data().get(&key("title")).unwrap().get_string().unwrap(), "demo");
}

#[test]
fn removal_marker_deletes_and_is_refused_inside_values() {
    let mut file = load(SAMPLE);
    let root = file.get_data();
    file.set(&root, key("flag"), EntryValue::Remove).unwrap();
    assert!(file.get_data().get(&key("flag")).is_none());

    // A removal marker nested in an array value cannot become a document
    // value; the conversion's aggregate report is surfaced.
    let nums = file.get_data().get_nested(&path(&["lists", "nums"])).unwrap();
    let e = file
        .set(&nums, EntryIndex::Index(0), EntryValue::Array(vec![EntryValue::Remove]))
        .unwrap_err();
    assert_eq!(e.code, 1);
    assert_eq!(e.msg, "Cannot convert a deletion marker into a document value");
}

#[test]
fn pop_on_empty_array_fails_with_dedicated_error() {
    let mut file = load("empty = []\n");
    let arr = file.get_data().get(&key("empty")).unwrap();
    let e = file.pop(&arr).unwrap_err();
    assert_eq!(e.code, 1);
    assert_eq!(e.msg, "Called pop on an empty array");
}

#[test]
fn pop_on_non_array_fails_with_dedicated_error() {
    let mut file = load(SAMPLE);
    let title = file.get_data().get(&key("title")).unwrap();
    let e = file.pop(&title).unwrap_err();
    assert_eq!(e.code, 1);
    assert_eq!(e.msg, "Called pop on a non-array type");
    let e = file.push(&title, EntryValue::Integer(1)).unwrap_err();
    assert_eq!(e.msg, "Called push on a non-array type");
}

#[test]
fn pop_then_push_restores_the_array() {
    let mut file = load(SAMPLE);
    let nums = file.get_data().get_nested(&path(&["lists", "nums"])).unwrap();
    let popped = file.pop(&nums).unwrap().unwrap();
    assert_eq!(popped.get_integer(), Some(3));
    let shorter = file.get_data().get_nested(&path(&["lists", "nums"])).unwrap();
    assert_eq!(shorter.len(), Some(2));
    file.push(&shorter, EntryValue::Entry(popped)).unwrap();
    let restored = file.get_data().get_nested(&path(&["lists", "nums"])).unwrap();
    assert_eq!(restored.len(), Some(3));
    assert_eq!(restored.get(&EntryIndex::Index(2)).unwrap().get_integer(), Some(3));
}

#[test]
fn push_appends_to_arrays() {
    let mut file = load(SAMPLE);
    let nums = file.get_data().get_nested(&path(&["lists", "nums"])).unwrap();
    file.push(&nums, EntryValue::Integer(4)).unwrap();
    let nums = file.get_data().get_nested(&path(&["lists", "nums"])).unwrap();
    assert_eq!(nums.len(), Some(4));
    assert_eq!(nums.get(&EntryIndex::Index(3)).unwrap().get_integer(), Some(4));
}

#[test]
fn rendering_and_reparsing_preserves_the_tree() {
    let mut file = load(SAMPLE);
    let root = file.get_data();
    file.set(&root, key("count"), EntryValue::Integer(42)).unwrap();
    let text = file.to_toml_string().unwrap();
    assert!(text.contains("42"));
    let reparsed = TomlFile::from_toml_str("again.toml".to_owned(), text.as_str()).unwrap();
    let count = reparsed.get_data().get(&key("count")).unwrap();
    assert_eq!(count.get_integer(), Some(42));
    let help = reparsed.get_data().get_nested(&path(&["gobi", "help"])).unwrap();
    assert_eq!(help.get_string().unwrap(), "top help");
}

#[test]
fn parse_failure_reports_code_one() {
    let e = TomlFile::from_toml_str("bad.toml".to_owned(), "this is = not [ valid").unwrap_err();
    assert_eq!(e.code, 1);
    assert!(!e.msg.is_empty());
}

#[test]
fn datetime_nodes_are_unknown() {
    let file = load("when = 2020-01-02T03:04:05Z\n");
    let when = file.get_data().get(&key("when")).unwrap();
    assert!(when.is_unknown());
    assert!(matches!(when.get_type(), EntryType::Unknown));
    assert!(when.get_string().is_none());
}
