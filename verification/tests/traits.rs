use raven::traits::{extract_trait_content, parse_trait_annotation};
use raven::value::FieldValue;

#[test]
fn test_parse_simple_trait() {
    let traits = parse_trait_annotation("- @task(due=2025-02-01) Send the email", 10);

    assert_eq!(traits.len(), 1);
    assert_eq!(traits[0].trait_name, "task");
    assert_eq!(traits[0].content, "Send the email");
    assert_eq!(traits[0].line, 10);
}

#[test]
fn test_parse_trait_no_args() {
    let traits = parse_trait_annotation("- @highlight This is important", 1);

    assert_eq!(traits.len(), 1);
    assert_eq!(traits[0].trait_name, "highlight");
    assert!(traits[0].fields.is_empty());
}

#[test]
fn test_parse_multiple_traits() {
    let traits = parse_trait_annotation("- @task(due=2025-02-01) @highlight Fix this bug", 1);

    assert_eq!(traits.len(), 2);
    assert_eq!(traits[0].trait_name, "task");
    assert_eq!(traits[1].trait_name, "highlight");
}

#[test]
fn test_no_traits() {
    let traits = parse_trait_annotation("Just a regular line of text", 1);
    assert!(traits.is_empty());
}

#[test]
fn task_with_due_date() {
    let traits = parse_trait_annotation("- @task(due=2025-02-03) Send email", 10);
    assert_eq!(traits.len(), 1);
    assert_eq!(traits[0].trait_name, "task");
    assert_eq!(traits[0].fields.len(), 1);
    assert_eq!(
        traits[0].fields.get("due"),
        Some(&FieldValue::Date("2025-02-03".to_string()))
    );
    assert_eq!(traits[0].content, "Send email");
    assert_eq!(traits[0].line, 10);
    assert_eq!(traits[0].start_offset, 1);
    assert_eq!(traits[0].end_offset, 23);
}

#[test]
fn annotation_needs_a_delimiter_before_it() {
    assert!(parse_trait_annotation("mail me at alice@example.com", 1).is_empty());
    assert_eq!(parse_trait_annotation("@a@b", 1).len(), 1);
    assert_eq!(parse_trait_annotation("*@a -@b\t@c", 1).len(), 3);
    assert!(parse_trait_annotation("@ @- x@y", 1).is_empty());
}

#[test]
fn annotation_arguments() {
    let traits = parse_trait_annotation("@remind (at=2025-02-03T09:00, note=\"a, b\") x", 2);
    assert_eq!(traits.len(), 1);
    assert_eq!(
        traits[0].fields.get("at"),
        Some(&FieldValue::Datetime("2025-02-03T09:00".to_string()))
    );
    assert_eq!(traits[0].fields.get("note"), Some(&FieldValue::String("a, b".to_string())));
    assert_eq!(traits[0].content, "x");

    let open = parse_trait_annotation("@task(due=1 and more", 2);
    assert_eq!(open.len(), 1);
    assert!(open[0].fields.is_empty());
    assert_eq!(open[0].content, "(due=1 and more");
}

#[test]
fn content_without_annotations() {
    let lines = ["- @task(due=2025-02-01) @highlight Fix this bug", "plain"];
    assert_eq!(extract_trait_content(&lines, 0), "- Fix this bug");
    assert_eq!(extract_trait_content(&lines, 1), "plain");
    assert_eq!(extract_trait_content(&lines, 2), "");
}
