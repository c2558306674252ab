use labelmerge::registry::{ApplyOutcome, FileEvent, Registry, SourceFile};

fn file(path: &str, text: &str) -> SourceFile {
    SourceFile {
        path: String::from(path),
        text: String::from(text),
    }
}

fn start_registry() -> Registry {
    let files = vec![
        file("a.labels.json", "{\"x\":1}"),
        file("b.labels.json", "{\"y\":2}"),
    ];
    let mut reg = Registry::new();
    assert!(reg.load_all(&files).is_ok());
    reg
}

#[test]
fn watch_scenario_modify_remove_create() {
    let mut reg = start_registry();
    assert_eq!(reg.snapshot(), "{\"a\":{\"x\":1},\"b\":{\"y\":2}}");

    let modified = FileEvent::Modified {
        path: String::from("a.labels.json"),
        text: Some(String::from("{\"x\":2}")),
    };
    assert_eq!(reg.handle_event(&modified), ApplyOutcome::Applied);
    assert_eq!(reg.snapshot(), "{\"a\":{\"x\":2},\"b\":{\"y\":2}}");

    let removed = FileEvent::Removed {
        path: String::from("b.labels.json"),
    };
    assert_eq!(reg.handle_event(&removed), ApplyOutcome::Applied);
    assert_eq!(reg.snapshot(), "{\"a\":{\"x\":2}}");

    let created = FileEvent::Created {
        path: String::from("c.labels.json"),
        text: Some(String::from("{\"z\":3}")),
    };
    assert_eq!(reg.handle_event(&created), ApplyOutcome::Applied);
    assert_eq!(reg.snapshot(), "{\"a\":{\"x\":2},\"c\":{\"z\":3}}");
}

#[test]
fn conflicting_event_preserves_the_owner() {
    let mut reg = start_registry();
    let before = reg.snapshot();
    let conflicting = FileEvent::Created {
        path: String::from("elsewhere/a.labels.json"),
        text: Some(String::from("{\"x\":99}")),
    };
    assert_eq!(reg.handle_event(&conflicting), ApplyOutcome::Conflict);
    assert_eq!(reg.snapshot(), before);
    assert_eq!(
        reg.owner_of(&String::from("a")).map(String::as_str),
        Some("a.labels.json")
    );
}

#[test]
fn same_path_rewrite_is_an_update_not_a_conflict() {
    let mut reg = start_registry();
    assert_eq!(
        reg.apply_upsert(
            &String::from("a.labels.json"),
            Some(&String::from("{\"x\":7}"))
        ),
        ApplyOutcome::Applied
    );
    assert_eq!(
        reg.contents_of(&String::from("a")).map(String::as_str),
        Some("{\"x\":7}")
    );
}

#[test]
fn malformed_event_is_dropped_without_change() {
    let mut reg = start_registry();
    let before = reg.snapshot();
    let broken = FileEvent::Modified {
        path: String::from("a.labels.json"),
        text: Some(String::from("{oops")),
    };
    assert_eq!(reg.handle_event(&broken), ApplyOutcome::InvalidJson);
    assert_eq!(reg.snapshot(), before);
}

#[test]
fn unreadable_event_is_dropped_without_change() {
    let mut reg = start_registry();
    let before = reg.snapshot();
    let unreadable = FileEvent::Created {
        path: String::from("c.labels.json"),
        text: None,
    };
    assert_eq!(reg.handle_event(&unreadable), ApplyOutcome::Unreadable);
    assert_eq!(reg.snapshot(), before);
}

#[test]
fn remove_of_unknown_path_changes_nothing() {
    let mut reg = start_registry();
    let before = reg.snapshot();
    let removed = FileEvent::Removed {
        path: String::from("zzz.labels.json"),
    };
    assert_eq!(reg.handle_event(&removed), ApplyOutcome::NoChange);
    assert_eq!(reg.snapshot(), before);
}

#[test]
fn nonlabel_path_is_ignored() {
    let mut reg = start_registry();
    let before = reg.snapshot();
    let stray = FileEvent::Created {
        path: String::from("config.toml"),
        text: Some(String::from("3")),
    };
    assert_eq!(reg.handle_event(&stray), ApplyOutcome::Ignored);
    assert_eq!(reg.snapshot(), before);
}

#[test]
fn rename_moves_a_component() {
    let mut reg = start_registry();
    let renamed = FileEvent::Renamed {
        old_path: String::from("b.labels.json"),
        new_path: String::from("d.labels.json"),
        text: Some(String::from("{\"y\":2}")),
    };
    assert_eq!(reg.handle_event(&renamed), ApplyOutcome::Applied);
    assert!(reg.contents_of(&String::from("b")).is_none());
    assert_eq!(
        reg.contents_of(&String::from("d")).map(String::as_str),
        Some("{\"y\":2}")
    );
}

#[test]
fn rename_onto_a_conflicting_name_still_removes_the_old_record() {
    let mut reg = start_registry();
    // The new path collides with "a", owned elsewhere, so only the remove
    // half applies; the registry still changed.
    let renamed = FileEvent::Renamed {
        old_path: String::from("b.labels.json"),
        new_path: String::from("elsewhere/a.labels.json"),
        text: Some(String::from("{\"x\":9}")),
    };
    assert_eq!(reg.handle_event(&renamed), ApplyOutcome::Applied);
    assert_eq!(reg.snapshot(), "{\"a\":{\"x\":1}}");
}
