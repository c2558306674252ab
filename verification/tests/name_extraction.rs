use labelmerge::name::extract_name;

#[test]
fn simple_name_is_extracted() {
    assert_eq!(extract_name("a.labels.json"), Some(String::from("a")));
}

#[test]
fn name_is_taken_from_filename_only() {
    assert_eq!(
        extract_name("some/dir/widget.labels.json"),
        Some(String::from("widget"))
    );
}

#[test]
fn wrong_extension_is_rejected() {
    assert_eq!(extract_name("README.txt"), None);
    assert_eq!(extract_name("notes.labels.txt"), None);
}

#[test]
fn empty_leading_segment_is_rejected() {
    assert_eq!(extract_name(".labels.json"), None);
    assert_eq!(extract_name("dir/.labels.json"), None);
}

#[test]
fn segment_right_before_suffix_is_the_name() {
    assert_eq!(
        extract_name("a.other.labels.json"),
        Some(String::from("other"))
    );
}

#[test]
fn dot_right_before_suffix_is_rejected() {
    assert_eq!(extract_name("a..labels.json"), None);
}

#[test]
fn suffix_alone_in_directory_name_does_not_match() {
    assert_eq!(extract_name("x.labels.json/other.txt"), None);
}
