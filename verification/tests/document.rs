use raven::document::{find_parent_for_line, parse_document, ParseErrorKind};
use raven::value::FieldValue;

#[test]
fn test_parse_simple_document() {
    let content = r#"---
type: person
name: Alice
---

# Alice

Some content about Alice.
"#;
    let doc = parse_document(content, "people/alice.md").unwrap();

    assert_eq!(doc.file_path, "people/alice.md");
    // Should have file-level object + section for "# Alice"
    assert_eq!(doc.objects.len(), 2);
    assert_eq!(doc.objects[0].id, "people/alice");
    assert_eq!(doc.objects[0].object_type, "person");
    assert_eq!(doc.objects[1].object_type, "section");
    assert_eq!(doc.objects[1].heading, Some("Alice".to_string()));
}

#[test]
fn test_parse_document_with_sections() {
    let content = r#"# Introduction

Some intro text.

## Background

More text here.

## Methods

Even more text.
"#;
    let doc = parse_document(content, "doc.md").unwrap();

    // File + 3 sections
    assert_eq!(doc.objects.len(), 4);
    assert_eq!(doc.objects[0].object_type, "page");
    assert_eq!(doc.objects[1].object_type, "section");
    assert_eq!(doc.objects[1].id, "doc#introduction");
    assert_eq!(doc.objects[2].object_type, "section");
    assert_eq!(doc.objects[2].id, "doc#background");
    assert_eq!(doc.objects[3].object_type, "section");
    assert_eq!(doc.objects[3].id, "doc#methods");
}

#[test]
fn test_explicit_type_overrides_section() {
    let content = r#"# Weekly Standup
::meeting(id=standup, time=09:00)

Discussion notes here.
"#;
    let doc = parse_document(content, "meetings.md").unwrap();

    // File + 1 meeting (not section)
    assert_eq!(doc.objects.len(), 2);
    assert_eq!(doc.objects[1].object_type, "meeting");
    assert_eq!(doc.objects[1].id, "meetings#standup");
}

#[test]
fn test_duplicate_heading_ids() {
    let content = r#"# Notes

## Ideas

First ideas section.

## Ideas

Second ideas section with same heading.
"#;
    let doc = parse_document(content, "doc.md").unwrap();

    // Should have unique IDs
    assert_eq!(doc.objects.len(), 4);
    assert_eq!(doc.objects[2].id, "doc#ideas");
    assert_eq!(doc.objects[3].id, "doc#ideas-2");
}

#[test]
fn test_trait_parented_to_section() {
    let content = r#"# Project

## Tasks

- @task(due=2024-01-15) Do the thing
"#;
    let doc = parse_document(content, "project.md").unwrap();

    assert_eq!(doc.traits.len(), 1);
    // Task should be parented to the "Tasks" section
    assert_eq!(doc.traits[0].parent_object_id, "project#tasks");
}

#[test]
fn person_with_frontmatter_tags() {
    let doc = parse_document(
        "---\ntype: person\ntags: [friend, colleague]\n---\n\n# Alice\n",
        "people/alice.md",
    )
    .unwrap();
    assert_eq!(doc.objects.len(), 2);
    let root = &doc.objects[0];
    assert_eq!(root.id, "people/alice");
    assert_eq!(root.object_type, "person");
    assert_eq!(root.tags, vec!["friend", "colleague"]);
    assert_eq!(
        root.fields.get("tags"),
        Some(&FieldValue::Array(vec![
            FieldValue::String("friend".to_string()),
            FieldValue::String("colleague".to_string()),
        ]))
    );
    assert_eq!(root.line_start, 1);
    assert_eq!(root.line_end, None);
    assert_eq!(root.parent_id, None);
    let section = &doc.objects[1];
    assert_eq!(section.id, "people/alice#alice");
    assert_eq!(section.object_type, "section");
    assert_eq!(section.heading, Some("Alice".to_string()));
    assert_eq!(section.heading_level, Some(1));
    assert_eq!(section.parent_id, Some("people/alice".to_string()));
    assert_eq!(section.line_start, 6);
    assert_eq!(section.line_end, None);
    assert_eq!(section.fields.get("title"), Some(&FieldValue::String("Alice".to_string())));
    assert_eq!(section.fields.get("level"), Some(&FieldValue::Number("1".to_string())));
}

#[test]
fn weekly_standup_meeting() {
    let doc = parse_document(
        "# Weekly Standup\n::meeting(id=standup, time=09:00)\n\nNotes.\n",
        "meetings.md",
    )
    .unwrap();
    assert_eq!(doc.objects.len(), 2);
    assert_eq!(doc.objects[1].id, "meetings#standup");
    assert_eq!(doc.objects[1].object_type, "meeting");
    assert_eq!(
        doc.objects[1].fields.get("time"),
        Some(&FieldValue::String("09:00".to_string()))
    );
    assert_eq!(doc.objects[1].heading, Some("Weekly Standup".to_string()));
}

#[test]
fn sibling_headings_get_counted_ids() {
    let doc = parse_document("# Notes\n## Ideas\n## Ideas\n## Ideas\n", "doc.md").unwrap();
    let ids: Vec<&str> = doc.objects.iter().map(|o| o.id.as_str()).collect();
    assert_eq!(ids, vec!["doc", "doc#notes", "doc#ideas", "doc#ideas-2", "doc#ideas-3"]);
}

#[test]
fn hierarchy_follows_levels() {
    let doc = parse_document(
        "# A\n## B\n### C\n## D\n# E\n#### F\n",
        "t.md",
    )
    .unwrap();
    let parents: Vec<Option<&str>> =
        doc.objects.iter().map(|o| o.parent_id.as_deref()).collect();
    assert_eq!(
        parents,
        vec![None, Some("t"), Some("t#a"), Some("t#b"), Some("t#a"), Some("t"), Some("t#e")]
    );
    let ends: Vec<Option<usize>> = doc.objects.iter().map(|o| o.line_end).collect();
    assert_eq!(ends, vec![None, Some(1), Some(2), Some(3), Some(4), Some(5), None]);
}

#[test]
fn heading_without_slug_is_named_by_its_line() {
    let doc = parse_document("text\n\n# !!!\n", "t.md").unwrap();
    assert_eq!(doc.objects.len(), 2);
    assert_eq!(doc.objects[1].id, "t#section-3");
}

#[test]
fn lines_count_from_the_top_of_the_file() {
    let doc = parse_document(
        "---\ntype: daily\n---\nintro @note\n# Tasks\n- @task(due=2025-02-03) Send email [[people/bob|Bob]]\n",
        "daily/2025-02-03.md",
    )
    .unwrap();
    assert_eq!(doc.objects[1].line_start, 5);
    assert_eq!(doc.traits.len(), 2);
    assert_eq!(doc.traits[0].trait_type, "note");
    assert_eq!(doc.traits[0].line, 4);
    assert_eq!(doc.traits[0].parent_object_id, "daily/2025-02-03");
    assert_eq!(doc.traits[1].trait_type, "task");
    assert_eq!(doc.traits[1].line, 6);
    assert_eq!(doc.traits[1].content, "Send email [[people/bob|Bob]]");
    assert_eq!(doc.traits[1].parent_object_id, "daily/2025-02-03#tasks");
    assert_eq!(
        doc.traits[1].fields.get("due"),
        Some(&FieldValue::Date("2025-02-03".to_string()))
    );
    assert_eq!(doc.refs.len(), 1);
    assert_eq!(doc.refs[0].source_id, "daily/2025-02-03#tasks");
    assert_eq!(doc.refs[0].target_raw, "people/bob");
    assert_eq!(doc.refs[0].display_text, Some("Bob".to_string()));
    assert_eq!(doc.refs[0].line, 6);
    assert_eq!(doc.refs[0].start, 35);
    assert_eq!(doc.refs[0].end, 53);
}

#[test]
fn inline_tags_join_the_frontmatter_tags() {
    let doc = parse_document(
        "---\ntags: work\n---\nA #work day with #focus and `#code`.\n\n```\n#hidden\n```\n#focus\n",
        "t.md",
    )
    .unwrap();
    assert_eq!(doc.objects[0].tags, vec!["work", "focus"]);
}

#[test]
fn malformed_declaration_fails_the_document() {
    let err = parse_document("# A\n\ntext\n  ::broken(\n::also broken\n", "bad.md").unwrap_err();
    assert_eq!(err.path, "bad.md");
    assert_eq!(err.to_text(), "bad.md:4: Invalid type declaration syntax: ::broken(");
    match err.kind {
        ParseErrorKind::Declaration { line, text } => {
            assert_eq!(line, 4);
            assert_eq!(text, "::broken(");
        }
        other => panic!("unexpected error {:?}", other),
    }
}

#[test]
fn malformed_frontmatter_fails_the_document() {
    let err = parse_document("---\nkey: [unclosed\n---\n# A\n", "bad.md").unwrap_err();
    assert_eq!(err.path, "bad.md");
    assert!(err.to_text().starts_with("Failed to parse frontmatter in bad.md: "));
    assert!(matches!(err.kind, ParseErrorKind::Frontmatter { .. }));
}

#[test]
fn declaration_without_id_leaves_a_section() {
    let doc = parse_document("# Plans\n::project(status=open)\n", "t.md").unwrap();
    assert_eq!(doc.objects[1].object_type, "section");
    assert_eq!(doc.objects[1].id, "t#plans");
}

#[test]
fn owner_is_the_last_object_that_starts_before_the_line() {
    let doc = parse_document("intro\n# A\ntext\n## B\nmore\n", "t.md").unwrap();
    assert_eq!(find_parent_for_line(&doc.objects, 1), "t");
    assert_eq!(find_parent_for_line(&doc.objects, 2), "t#a");
    assert_eq!(find_parent_for_line(&doc.objects, 3), "t#a");
    assert_eq!(find_parent_for_line(&doc.objects, 4), "t#b");
    assert_eq!(find_parent_for_line(&doc.objects, 99), "t#b");
    assert_eq!(find_parent_for_line(&doc.objects, 0), "t");
    assert_eq!(find_parent_for_line(&[], 3), "");
}

#[test]
fn heading_on_the_first_line_owns_it() {
    let doc = parse_document("# A @first\n", "t.md").unwrap();
    assert_eq!(doc.objects[0].line_start, 1);
    assert_eq!(doc.objects[1].line_start, 1);
    assert_eq!(doc.traits[0].parent_object_id, "t#a-first");
}

#[test]
fn path_without_extension_is_its_own_id() {
    let doc = parse_document("", "notes/readme").unwrap();
    assert_eq!(doc.objects.len(), 1);
    assert_eq!(doc.objects[0].id, "notes/readme");
    assert_eq!(doc.objects[0].object_type, "page");
    assert!(doc.objects[0].tags.is_empty());
    assert!(doc.objects[0].fields.is_empty());
}

#[test]
fn parents_hold_the_lines_of_what_they_own() {
    let doc = parse_document(
        "---\ntype: page\n---\n@a [[x]]\n# One @b\n::t(id=one)\n- @c [[y|z]]\n## Two\n### Three @d\n# Four\n[[w]] @e\n",
        "t.md",
    )
    .unwrap();
    assert_eq!(doc.traits.len(), 5);
    assert_eq!(doc.refs.len(), 3);
    let lines = doc
        .traits
        .iter()
        .map(|t| (t.parent_object_id.as_str(), t.line))
        .chain(doc.refs.iter().map(|r| (r.source_id.as_str(), r.line)));
    for (parent, line) in lines {
        let object = doc.objects.iter().find(|o| o.id == parent).unwrap();
        assert!(object.line_start <= line, "{} {}", parent, line);
        assert!(object.line_end.map_or(true, |e| line <= e), "{} {}", parent, line);
    }
    let owners: Vec<&str> = doc.traits.iter().map(|t| t.parent_object_id.as_str()).collect();
    assert_eq!(owners, vec!["t", "t#one", "t#one", "t#three-d", "t#four"]);
}

#[test]
fn identifiers_differ_unless_they_collide_by_chance() {
    let doc = parse_document("# A\n## B\n# A\n## B\n### A\n# B\n", "t.md").unwrap();
    let mut ids: Vec<&str> = doc.objects.iter().map(|o| o.id.as_str()).collect();
    assert_eq!(ids, vec!["t", "t#a", "t#b", "t#a-2", "t#b-2", "t#a-3", "t#b-3"]);
    ids.sort();
    ids.dedup();
    assert_eq!(ids.len(), 7);
}

#[test]
fn declared_identifiers_are_taken_as_they_are() {
    let doc = parse_document("# A\n::t(id=x)\n# B\n::u(id=x)\n# Ideas\n# Ideas\n# Ideas 2\n", "t.md")
        .unwrap();
    let ids: Vec<&str> = doc.objects.iter().map(|o| o.id.as_str()).collect();
    assert_eq!(ids, vec!["t", "t#x", "t#x", "t#ideas", "t#ideas-2", "t#ideas-2"]);
}

#[test]
fn declaration_carries_fields_and_tags() {
    let doc = parse_document(
        "## Sync\n::meeting(id=sync, tags=[weekly, 7, team], with=[[people/alice]])\n",
        "m.md",
    )
    .unwrap();
    let meeting = &doc.objects[1];
    assert_eq!(meeting.tags, vec!["weekly", "team"]);
    assert_eq!(meeting.fields.get("with"), Some(&FieldValue::Ref("people/alice".to_string())));
    assert_eq!(meeting.fields.get("id"), Some(&FieldValue::String("sync".to_string())));
    assert_eq!(meeting.heading_level, Some(2));
    assert_eq!(doc.refs.len(), 1);
    assert_eq!(doc.refs[0].source_id, "m#sync");
}

#[test]
fn tags_of_a_file_stand_once_each() {
    let doc = parse_document("---\ntags: [b, a, b]\n---\n#a #c #b #c\n", "t.md").unwrap();
    assert_eq!(doc.objects[0].tags, vec!["b", "a", "c"]);
}
