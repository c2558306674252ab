use labelmerge::registry::{LoadError, Registry, SourceFile};

fn file(path: &str, text: &str) -> SourceFile {
    SourceFile {
        path: String::from(path),
        text: String::from(text),
    }
}

#[test]
fn distinct_files_all_merge() {
    let files = vec![
        file("a.labels.json", "{\"x\":1}"),
        file("b.labels.json", "{\"y\":2}"),
        file("c.labels.json", "[1,2,3]"),
    ];
    let mut reg = Registry::new();
    assert!(reg.load_all(&files).is_ok());
    assert_eq!(reg.len(), 3);
    assert_eq!(
        reg.contents_of(&String::from("a")).map(String::as_str),
        Some("{\"x\":1}")
    );
    assert_eq!(
        reg.contents_of(&String::from("b")).map(String::as_str),
        Some("{\"y\":2}")
    );
    assert_eq!(
        reg.contents_of(&String::from("c")).map(String::as_str),
        Some("[1,2,3]")
    );
    assert_eq!(reg.snapshot(), "{\"a\":{\"x\":1},\"b\":{\"y\":2},\"c\":[1,2,3]}");
}

#[test]
fn document_text_is_canonicalized() {
    let files = vec![file("a.labels.json", "{ \"x\" :   1 }")];
    let mut reg = Registry::new();
    assert!(reg.load_all(&files).is_ok());
    // The stored text is the compact re-serialization, not the raw input.
    assert_eq!(
        reg.contents_of(&String::from("a")).map(String::as_str),
        Some("{\"x\":1}")
    );
    // It agrees with what serde_json itself produces for the same input.
    let value: serde_json::Value = serde_json::from_str("{ \"x\" :   1 }").unwrap();
    let expected = serde_json::to_string(&value).unwrap();
    assert_eq!(reg.contents_of(&String::from("a")).unwrap(), &expected);
}

#[test]
fn aggregate_keys_do_not_depend_on_enumeration_order() {
    let forward = vec![
        file("a.labels.json", "{\"x\":1}"),
        file("b.labels.json", "{\"y\":2}"),
    ];
    let backward = vec![
        file("b.labels.json", "{\"y\":2}"),
        file("a.labels.json", "{\"x\":1}"),
    ];
    let mut one = Registry::new();
    let mut two = Registry::new();
    assert!(one.load_all(&forward).is_ok());
    assert!(two.load_all(&backward).is_ok());
    assert_eq!(one.len(), two.len());
    for name in ["a", "b"] {
        assert_eq!(
            one.contents_of(&String::from(name)),
            two.contents_of(&String::from(name))
        );
    }
}

#[test]
fn duplicate_component_fails_with_both_paths() {
    let files = vec![
        file("first/a.labels.json", "{\"x\":1}"),
        file("second/a.labels.json", "{\"x\":2}"),
    ];
    let mut reg = Registry::new();
    match reg.load_all(&files) {
        Err(LoadError::Duplicate {
            component,
            new_path,
            existing_path,
        }) => {
            assert_eq!(component, "a");
            assert_eq!(new_path, "second/a.labels.json");
            assert_eq!(existing_path, "first/a.labels.json");
        }
        other => panic!("expected a duplicate error, got {:?}", other.is_ok()),
    }
}

#[test]
fn invalid_json_fails_the_whole_load() {
    let files = vec![
        file("a.labels.json", "{\"x\":1}"),
        file("b.labels.json", "not json at all"),
    ];
    let mut reg = Registry::new();
    match reg.load_all(&files) {
        Err(LoadError::InvalidJson { path }) => {
            assert_eq!(path, "b.labels.json");
        }
        other => panic!("expected an invalid-json error, got {:?}", other.is_ok()),
    }
}

#[test]
fn nonmatching_files_are_excluded_not_fatal() {
    let files = vec![
        file("a.labels.json", "{\"x\":1}"),
        file("README.txt", "this is not even JSON"),
        file("notes.labels.txt", "neither is this"),
    ];
    let mut reg = Registry::new();
    assert!(reg.load_all(&files).is_ok());
    assert_eq!(reg.len(), 1);
    assert_eq!(reg.snapshot(), "{\"a\":{\"x\":1}}");
}

#[test]
fn empty_leading_segment_is_excluded_not_fatal() {
    let files = vec![
        file(".labels.json", "{\"x\":1}"),
        file("a.labels.json", "{\"x\":1}"),
    ];
    let mut reg = Registry::new();
    assert!(reg.load_all(&files).is_ok());
    assert_eq!(reg.len(), 1);
    assert!(reg.contents_of(&String::from("a")).is_some());
}

#[test]
fn same_path_listed_twice_is_an_update() {
    let files = vec![
        file("a.labels.json", "{\"x\":1}"),
        file("a.labels.json", "{\"x\":2}"),
    ];
    let mut reg = Registry::new();
    assert!(reg.load_all(&files).is_ok());
    assert_eq!(reg.len(), 1);
    assert_eq!(
        reg.contents_of(&String::from("a")).map(String::as_str),
        Some("{\"x\":2}")
    );
}

#[test]
fn merging_twice_gives_identical_output() {
    let files = vec![
        file("a.labels.json", "{\"x\": 1, \"y\": [true, null]}"),
        file("b.labels.json", "\"hello\""),
    ];
    let mut one = Registry::new();
    let mut two = Registry::new();
    assert!(one.load_all(&files).is_ok());
    assert!(two.load_all(&files).is_ok());
    assert_eq!(one.snapshot(), two.snapshot());
}

#[test]
fn names_are_escaped_in_the_aggregate() {
    let files = vec![file("we\"ird.labels.json", "1")];
    let mut reg = Registry::new();
    assert!(reg.load_all(&files).is_ok());
    assert_eq!(reg.snapshot(), "{\"we\\\"ird\":1}");
}

#[test]
fn empty_load_renders_empty_object() {
    let reg = Registry::new();
    assert_eq!(reg.snapshot(), "{}");
}
