use raven::coerce::{is_date_string, is_datetime_string};
use raven::frontmatter::{frontmatter_from_yaml, parse_frontmatter, parse_tags_value, yaml_to_field_value};
use raven::value::FieldValue;
use raven::yaml::{YamlEntry, YamlNode};

#[test]
fn test_parse_frontmatter() {
    let content = r#"---
type: person
name: Alice Chen
email: alice@example.com
---

# Alice Chen
"#;
    let fm = parse_frontmatter(content).unwrap();

    assert_eq!(fm.object_type, Some("person".to_string()));
    assert_eq!(fm.fields.get("name"), Some(&FieldValue::String("Alice Chen".to_string())));
    assert_eq!(fm.end_line, 5);
}

#[test]
fn test_parse_frontmatter_with_tags() {
    let content = r#"---
type: daily
date: 2025-02-01
tags: [work, productivity]
---

# Content
"#;
    let fm = parse_frontmatter(content).unwrap();

    assert_eq!(fm.object_type, Some("daily".to_string()));
    assert_eq!(fm.tags, vec!["work", "productivity"]);
}

#[test]
fn test_no_frontmatter() {
    let content = "# Just a heading\n\nSome content";
    let fm = parse_frontmatter(content).unwrap();

    assert!(fm.object_type.is_none());
    assert_eq!(fm.end_line, 0);
}

#[test]
fn frontmatter_needs_both_delimiters() {
    let open = parse_frontmatter("---\ntype: person\n").unwrap();
    assert_eq!(open.end_line, 0);
    assert!(open.object_type.is_none());
    let padded = parse_frontmatter("--- \ntype: person\n---\n").unwrap();
    assert_eq!(padded.end_line, 0);
    let empty = parse_frontmatter("").unwrap();
    assert_eq!(empty.end_line, 0);
    assert!(empty.fields.is_empty() && empty.tags.is_empty());
}

#[test]
fn frontmatter_values_are_typed() {
    let fm = parse_frontmatter(
        "---\ndate: 2025-02-01\ncount: 3\nratio: 1.5\ndone: true\nboss: \"[[people/bob]]\"\nnothing: ~\nwhen: 2025-02-01T09:30\nitems: [a, 2]\nnested: {a: 1}\n---\n",
    )
    .unwrap();
    assert_eq!(fm.end_line, 11);
    assert_eq!(fm.fields.get("date"), Some(&FieldValue::Date("2025-02-01".to_string())));
    assert_eq!(fm.fields.get("count"), Some(&FieldValue::Number("3".to_string())));
    assert_eq!(fm.fields.get("ratio"), Some(&FieldValue::Number("1.5".to_string())));
    assert_eq!(fm.fields.get("done"), Some(&FieldValue::Bool(true)));
    assert_eq!(fm.fields.get("boss"), Some(&FieldValue::Ref("people/bob".to_string())));
    assert_eq!(fm.fields.get("nothing"), Some(&FieldValue::Null));
    assert_eq!(
        fm.fields.get("when"),
        Some(&FieldValue::Datetime("2025-02-01T09:30".to_string()))
    );
    assert_eq!(
        fm.fields.get("items"),
        Some(&FieldValue::Array(vec![
            FieldValue::String("a".to_string()),
            FieldValue::Number("2".to_string()),
        ]))
    );
    assert_eq!(fm.fields.get("nested"), Some(&FieldValue::Null));
    assert_eq!(fm.fields.get("type"), None);
}

#[test]
fn frontmatter_that_is_no_yaml_is_an_error() {
    assert!(parse_frontmatter("---\nkey: [unclosed\n---\n").is_err());
}

#[test]
fn frontmatter_that_is_no_mapping_gives_nothing() {
    let fm = parse_frontmatter("---\njust text\n---\nbody\n").unwrap();
    assert_eq!(fm.end_line, 3);
    assert!(fm.object_type.is_none());
    assert!(fm.fields.is_empty());
}

#[test]
fn tags_from_a_single_string() {
    let one = parse_tags_value(&YamlNode::String("#work, home  #deep-work,#".to_string()));
    assert_eq!(one, vec!["work", "home", "deep-work"]);
    let seq = parse_tags_value(&YamlNode::Sequence(vec![
        YamlNode::String("a b".to_string()),
        YamlNode::Number("3".to_string()),
        YamlNode::String("#c".to_string()),
    ]));
    assert_eq!(seq, vec!["a b", "#c"]);
    assert!(parse_tags_value(&YamlNode::Bool(true)).is_empty());
}

#[test]
fn yaml_numbers_become_numerals() {
    assert_eq!(
        yaml_to_field_value(&YamlNode::Number(".inf".to_string())),
        FieldValue::Number("inf".to_string())
    );
    assert_eq!(
        yaml_to_field_value(&YamlNode::Number("-.inf".to_string())),
        FieldValue::Number("-inf".to_string())
    );
    assert_eq!(
        yaml_to_field_value(&YamlNode::Number(".nan".to_string())),
        FieldValue::Number("nan".to_string())
    );
    assert_eq!(
        yaml_to_field_value(&YamlNode::Number("1e21".to_string())),
        FieldValue::Number("1e21".to_string())
    );
    assert_eq!(
        yaml_to_field_value(&YamlNode::Number("?".to_string())),
        FieldValue::Number("0".to_string())
    );
    assert_eq!(yaml_to_field_value(&YamlNode::Tagged), FieldValue::Null);
}

#[test]
fn frontmatter_from_a_mapping() {
    let node = YamlNode::Mapping(vec![
        YamlEntry { key: YamlNode::String("type".to_string()), value: YamlNode::Number("3".to_string()) },
        YamlEntry { key: YamlNode::Number("1".to_string()), value: YamlNode::Bool(true) },
        YamlEntry { key: YamlNode::String("x".to_string()), value: YamlNode::String("1".to_string()) },
        YamlEntry { key: YamlNode::String("x".to_string()), value: YamlNode::String("two".to_string()) },
    ]);
    let fm = frontmatter_from_yaml(&node, 9);
    assert_eq!(fm.end_line, 9);
    assert!(fm.object_type.is_none());
    assert_eq!(fm.fields.len(), 1);
    assert_eq!(fm.fields.get("x"), Some(&FieldValue::String("two".to_string())));
}

#[test]
fn date_shapes() {
    assert!(is_date_string("2025-02-01"));
    assert!(!is_date_string("2025-2-01"));
    assert!(!is_date_string("2025/02/01"));
    assert!(!is_date_string("2025-02-011"));
    assert!(is_datetime_string("2025-02-01T09:30"));
    assert!(!is_datetime_string("2025-02-01 09:30"));
    assert!(!is_datetime_string("2025-02-01T09"));
    assert!(is_datetime_string("ééééééééT"));
    assert!(!is_datetime_string("éééééééT"));
}

#[test]
fn body_without_frontmatter_is_the_document() {
    for text in ["", "# Title\n\ntext\r\n", "-- -\nx\n---\n", " ---\na: 1\n---\n", "text\n---\na: 1\n---\n", "---\nnever closed\n"] {
        let (body, start) = raven::frontmatter::document_body(text);
        assert_eq!(body, text);
        assert_eq!(start, 1);
        let fm = parse_frontmatter(text).unwrap();
        assert_eq!(fm.end_line, 0);
        assert!(fm.object_type.is_none() && fm.tags.is_empty() && fm.fields.is_empty());
    }
}

#[test]
fn body_after_frontmatter() {
    let (body, start) = raven::frontmatter::document_body("---\r\na: 1\r\n---\r\n\r\n# T\r\nx\r\n");
    assert_eq!(body, "\n# T\nx");
    assert_eq!(start, 4);
    let (none, start) = raven::frontmatter::document_body("---\n---");
    assert_eq!(none, "");
    assert_eq!(start, 3);
}
