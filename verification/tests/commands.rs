use raven::commands::{
    backlink_pattern, build_tasks_query, check_document, check_fails, daily_content, note_content,
    note_file_name, priority_color, status_icon, task_filters, trait_id, Severity,
};
use raven::document::parse_document;
use raven::schema::{
    FieldDefinition, FieldType, NamedField, NamedTrait, NamedType, Schema, TraitDefinition,
    TypeDefinition,
};
use raven::validator::RangeCheck;

fn schema() -> Schema {
    let name = FieldDefinition {
        field_type: FieldType::String,
        required: true,
        default: None,
        values: None,
        target: None,
        min: None,
        max: None,
        derived: None,
        positional: false,
    };
    let mut age = name.clone();
    age.field_type = FieldType::Number;
    age.required = false;
    Schema {
        types: vec![NamedType {
            name: "person".to_string(),
            definition: TypeDefinition {
                fields: vec![
                    NamedField { name: "name".to_string(), definition: name },
                    NamedField { name: "age".to_string(), definition: age },
                ],
                detect: None,
            },
        }],
        traits: vec![NamedTrait {
            name: "task".to_string(),
            definition: TraitDefinition { fields: vec![], cli: None },
        }],
    }
    .complete()
}

#[test]
fn issues_of_a_document() {
    let doc = parse_document(
        "---\ntype: person\nage: old\n---\n# Notes\n- @task do\n- @mystery what\n## Pet\n::animal(id=rex)\n",
        "p.md",
    )
    .unwrap();
    let ranges: Vec<Vec<RangeCheck>> =
        doc.objects.iter().map(|o| vec![RangeCheck::Within; o.fields.len()]).collect();
    let issues = check_document(&doc, &schema(), &ranges);
    let lines: Vec<(Severity, usize, &str)> =
        issues.iter().map(|i| (i.severity, i.line, i.message.as_str())).collect();
    assert_eq!(
        lines,
        vec![
            (Severity::Error, 1, "Field 'name': Required field is missing"),
            (Severity::Error, 1, "Field 'age': Expected number"),
            (Severity::Error, 5, "Unknown type 'section'"),
            (Severity::Error, 8, "Unknown type 'animal'"),
            (Severity::Warning, 7, "Undefined trait '@mystery' will be skipped"),
        ]
    );
}

#[test]
fn page_is_always_known() {
    let doc = parse_document("plain text\n", "p.md").unwrap();
    let issues = check_document(&doc, &Schema { types: vec![], traits: vec![] }, &vec![vec![]]);
    assert!(issues.is_empty());
}

#[test]
fn when_a_check_fails() {
    assert!(!check_fails(0, 0, false));
    assert!(!check_fails(0, 3, false));
    assert!(check_fails(0, 3, true));
    assert!(check_fails(1, 0, false));
    assert!(!check_fails(0, 0, true));
}

#[test]
fn texts_of_new_notes() {
    assert_eq!(note_content("person", "Alice Chen"), "---\ntype: person\n---\n\n# Alice Chen\n\n");
    assert_eq!(
        daily_content("2025-02-03", "Monday, February 03, 2025"),
        "---\ntype: daily\ndate: 2025-02-03\n---\n\n# Monday, February 03, 2025\n\n"
    );
    assert_eq!(note_file_name("alice-chen"), "alice-chen.md");
}

#[test]
fn filters_of_a_task_query() {
    let filters = vec![
        "--status=todo".to_string(),
        "due=2025-02-03".to_string(),
        "other=x".to_string(),
        "status".to_string(),
        "-status=done=now".to_string(),
        "status =late".to_string(),
    ];
    assert_eq!(
        task_filters(&filters),
        (Some("done=now".to_string()), Some("2025-02-03".to_string()))
    );
    assert_eq!(task_filters(&vec![]), (None, None));
}

#[test]
fn signs_of_tasks() {
    assert_eq!(status_icon("todo"), "○");
    assert_eq!(status_icon("in_progress"), "◐");
    assert_eq!(status_icon("done"), "●");
    assert_eq!(status_icon("waiting"), "?");
    assert_eq!(priority_color("high"), "\x1b[31m");
    assert_eq!(priority_color("low"), "\x1b[90m");
    assert_eq!(priority_color("medium"), "");
}

#[test]
fn queries_of_the_index() {
    assert_eq!(
        build_tasks_query(None, true),
        "SELECT t.id, t.content, t.fields, t.line_number, t.file_path, t.parent_object_id FROM traits t WHERE t.trait_type = 'task' ORDER BY json_extract(t.fields, '$.due') ASC"
    );
    assert_eq!(
        build_tasks_query(Some("todo"), false),
        "SELECT t.id, t.content, t.fields, t.line_number, t.file_path, t.parent_object_id FROM traits t WHERE t.trait_type = 'task' AND (json_extract(t.fields, '$.status') IS NULL OR json_extract(t.fields, '$.status') != 'done') AND json_extract(t.fields, '$.status') = 'todo' ORDER BY json_extract(t.fields, '$.due') ASC"
    );
    assert_eq!(backlink_pattern("alice"), "%/alice");
    assert_eq!(trait_id("notes/a.md", 0), "notes/a.md:trait:0");
    assert_eq!(trait_id("a.md", 12), "a.md:trait:12");
}
