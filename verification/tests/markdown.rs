use raven::hierarchy::{build_objects, compute_line_ends, section_slug_of, unique_slug_of, ParsedObject};
use raven::markdown::{
    extract_headings, extract_inline_tags, headings_from_events, tags_from_events, Heading,
    MarkdownEvent,
};
use raven::value::FieldMap;

#[test]
fn test_extract_headings() {
    let content = "# Heading 1\n\nSome text\n\n## Heading 2\n\n### Heading 3";
    let headings = extract_headings(content, 1);

    assert_eq!(headings.len(), 3);
    assert_eq!(headings[0].level, 1);
    assert_eq!(headings[0].text, "Heading 1");
    assert_eq!(headings[1].level, 2);
    assert_eq!(headings[2].level, 3);
}

#[test]
fn test_heading_in_code_block_ignored() {
    let content = "# Real Heading\n\n```\n# Not a heading\n```\n\n## Another Real";
    let headings = extract_headings(content, 1);

    assert_eq!(headings.len(), 2);
    assert_eq!(headings[0].text, "Real Heading");
    assert_eq!(headings[1].text, "Another Real");
}

#[test]
fn test_extract_inline_tags() {
    let content = "Some text with #tag1 and #tag2, also (#tag3)";
    let tags = extract_inline_tags(content);

    assert!(tags.contains(&"tag1".to_string()));
    assert!(tags.contains(&"tag2".to_string()));
    assert!(tags.contains(&"tag3".to_string()));
}

#[test]
fn test_tags_in_code_block_ignored() {
    let content = "Real #tag here\n\n```\n#not-a-tag\n```\n\nAnd `#also-not-tag` inline";
    let tags = extract_inline_tags(content);

    assert_eq!(tags.len(), 1);
    assert!(tags.contains(&"tag".to_string()));
}

#[test]
fn test_issue_numbers_not_tags() {
    let content = "Fix #123 and add #feature";
    let tags = extract_inline_tags(content);

    assert_eq!(tags.len(), 1);
    assert!(tags.contains(&"feature".to_string()));
    assert!(!tags.contains(&"123".to_string()));
}

#[test]
fn heading_lines_count_from_the_start_line() {
    let headings = extract_headings("é\n\n# One\ntext\n\nTwo\n===\n", 10);
    assert_eq!(headings.len(), 2);
    assert_eq!((headings[0].text.as_str(), headings[0].line, headings[0].level), ("One", 12, 1));
    assert_eq!((headings[1].text.as_str(), headings[1].line, headings[1].level), ("Two", 15, 1));
}

#[test]
fn heading_text_leaves_inline_code_out() {
    let headings = extract_headings("## Use `foo` *now*\n\n#\n", 1);
    assert_eq!(headings.len(), 1);
    assert_eq!(headings[0].text, "Use  now");
}

#[test]
fn headings_from_given_events() {
    let events = vec![
        MarkdownEvent::Text("before".to_string()),
        MarkdownEvent::HeadingStart { level: 2, offset: 4 },
        MarkdownEvent::Text(" A".to_string()),
        MarkdownEvent::Other,
        MarkdownEvent::Text("b ".to_string()),
        MarkdownEvent::HeadingEnd,
        MarkdownEvent::HeadingStart { level: 1, offset: 0 },
        MarkdownEvent::Text("  ".to_string()),
        MarkdownEvent::HeadingEnd,
        MarkdownEvent::HeadingEnd,
    ];
    let headings = headings_from_events(&events, "a\né\nb\n", 5);
    assert_eq!(headings.len(), 1);
    assert_eq!(headings[0].level, 2);
    assert_eq!(headings[0].text, "Ab");
    assert_eq!(headings[0].line, 6);
}

#[test]
fn tags_from_given_events() {
    let events = vec![
        MarkdownEvent::Text("#b #a".to_string()),
        MarkdownEvent::CodeBlockStart,
        MarkdownEvent::Text("#hidden".to_string()),
        MarkdownEvent::CodeBlockEnd,
        MarkdownEvent::Text("#a #c".to_string()),
    ];
    assert_eq!(tags_from_events(&events), vec!["b", "a", "c"]);
}

#[test]
fn inline_tags_keep_the_order_of_their_first_occurrence() {
    assert_eq!(extract_inline_tags("#zeta #alpha #zeta"), vec!["zeta", "alpha"]);
}

#[test]
fn slugs_of_sections() {
    let s: String = section_slug_of("my-heading", 7).into_iter().collect();
    assert_eq!(s, "my-heading");
    let e: String = section_slug_of("", 12).into_iter().collect();
    assert_eq!(e, "section-12");
    let base: Vec<char> = "ideas".chars().collect();
    let first: String = unique_slug_of(&base, 1).into_iter().collect();
    assert_eq!(first, "ideas");
    let tenth: String = unique_slug_of(&base, 10).into_iter().collect();
    assert_eq!(tenth, "ideas-10");
}

#[test]
fn line_ends_follow_the_order_of_lines() {
    let h = |line: usize| Heading { level: 1, text: "x".to_string(), line };
    assert_eq!(
        compute_line_ends(&vec![h(3), h(10), h(7), h(7)]),
        vec![Some(6), None, Some(6), Some(9)]
    );
    assert!(compute_line_ends(&vec![]).is_empty());
}

#[test]
fn objects_from_given_headings() {
    let root = ParsedObject {
        id: "f".to_string(),
        object_type: "page".to_string(),
        fields: FieldMap::new(),
        tags: vec![],
        heading: None,
        heading_level: None,
        parent_id: None,
        line_start: 1,
        line_end: None,
    };
    let headings = vec![
        Heading { level: 2, text: "Hello World".to_string(), line: 2 },
        Heading { level: 1, text: "Hello, world!".to_string(), line: 4 },
        Heading { level: 2, text: "Über".to_string(), line: 6 },
    ];
    let objects = build_objects("f", root, &headings, &vec![None, None, None]);
    let ids: Vec<&str> = objects.iter().map(|o| o.id.as_str()).collect();
    assert_eq!(ids, vec!["f", "f#hello-world", "f#hello-world-2", "f#uber"]);
    assert_eq!(objects[1].parent_id, Some("f".to_string()));
    assert_eq!(objects[2].parent_id, Some("f".to_string()));
    assert_eq!(objects[3].parent_id, Some("f#hello-world-2".to_string()));
}
