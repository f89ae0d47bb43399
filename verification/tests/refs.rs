use raven::refs::{
    extract_references, extract_tags, extract_tags_from_text, is_embedded_ref, is_full_path,
    short_name, split_embedded_ref,
};

#[test]
fn test_extract_references() {
    let content = "Met with [[people/alice]] about [[projects/website]].";
    let refs = extract_references(content, 1);

    assert_eq!(refs.len(), 2);
    assert_eq!(refs[0].target, "people/alice");
    assert_eq!(refs[1].target, "projects/website");
}

#[test]
fn test_extract_reference_with_display() {
    let content = "See [[people/alice|Alice Chen]] for details.";
    let refs = extract_references(content, 1);

    assert_eq!(refs.len(), 1);
    assert_eq!(refs[0].target, "people/alice");
    assert_eq!(refs[0].display_text, Some("Alice Chen".to_string()));
}

#[test]
fn test_extract_embedded_ref() {
    let content = "See [[daily/2025-02-01#standup]] for notes.";
    let refs = extract_references(content, 1);

    assert_eq!(refs.len(), 1);
    assert!(is_embedded_ref(&refs[0].target));
    let (path, id) = split_embedded_ref(&refs[0].target).unwrap();
    assert_eq!(path, "daily/2025-02-01");
    assert_eq!(id, "standup");
}

#[test]
fn test_extract_tags() {
    let content = "Some thoughts about #productivity and #habits today.";
    let tags = extract_tags(content, 1);

    assert_eq!(tags.len(), 2);
    assert_eq!(tags[0].name, "productivity");
    assert_eq!(tags[1].name, "habits");
}

#[test]
fn reference_offsets_count_bytes() {
    let refs = extract_references("é [[a|b]] x\nsecond [[c]]", 7);
    assert_eq!(refs.len(), 2);
    assert_eq!(refs[0].line, 7);
    assert_eq!(refs[0].start, 3);
    assert_eq!(refs[0].end, 10);
    assert_eq!(refs[0].display_text, Some("b".to_string()));
    assert_eq!(refs[1].line, 8);
    assert_eq!(refs[1].start, 7);
    assert_eq!(refs[1].end, 12);
    assert_eq!(refs[1].display_text, None);
}

#[test]
fn reference_inside_array_brackets() {
    let refs = extract_references("x=[[[people/alice]], [[people/bob]]]", 1);
    assert_eq!(refs.len(), 2);
    assert_eq!(refs[0].target, "people/alice");
    assert_eq!(refs[0].start, 3);
    assert_eq!(refs[1].target, "people/bob");
}

#[test]
fn malformed_references_are_not_found() {
    assert!(extract_references("[[]] [[a] [[|b]] [[a|]] [[a|b] [a]]", 1).is_empty());
}

#[test]
fn references_do_not_overlap() {
    let refs = extract_references("[[a|[[b]]", 1);
    assert_eq!(refs.len(), 1);
    assert_eq!(refs[0].target, "a");
    assert_eq!(refs[0].display_text, Some("[[b".to_string()));
}

#[test]
fn tag_rules() {
    assert_eq!(extract_tags_from_text("#a (#b) [#c] x#d #1x #e-f_g #"), vec!["a", "b", "c", "e-f_g"]);
    assert_eq!(extract_tags_from_text("#a#b"), vec!["a"]);
    assert!(extract_tags_from_text("Fix #123").is_empty());
    assert!(extract_tags_from_text("").is_empty());
}

#[test]
fn tags_carry_line_numbers() {
    let tags = extract_tags("none\n#one\r\n\n#two #three", 3);
    assert_eq!(tags.len(), 3);
    assert_eq!((tags[0].name.as_str(), tags[0].line), ("one", 4));
    assert_eq!((tags[1].name.as_str(), tags[1].line), ("two", 6));
    assert_eq!((tags[2].name.as_str(), tags[2].line), ("three", 6));
}

#[test]
fn target_helpers() {
    assert!(is_full_path("people/alice"));
    assert!(!is_full_path("alice"));
    assert_eq!(short_name("people/team/alice"), "alice");
    assert_eq!(short_name("alice"), "alice");
    assert_eq!(short_name("alice/"), "");
    assert_eq!(short_name(""), "");
    assert!(!is_embedded_ref("a/b"));
    assert_eq!(split_embedded_ref("a#b#c"), Some(("a", "b#c")));
    assert_eq!(split_embedded_ref("#"), Some(("", "")));
    assert_eq!(split_embedded_ref("abc"), None);
}
