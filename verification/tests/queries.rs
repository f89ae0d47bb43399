use raven::queries::QueryBuilder;
use raven::value::FieldValue;

#[test]
fn test_parse_query() {
    let query = QueryBuilder::parse("type:meeting tags:planning");

    assert_eq!(query.object_type, Some("meeting".to_string()));
    assert_eq!(query.tag, Some("planning".to_string()));
}

#[test]
fn query_parts() {
    let q = QueryBuilder::parse("  trait:task\tparent.type:project word status:todo status:a:b :x\n");
    assert_eq!(q.object_type, None);
    assert_eq!(q.trait_type, Some("task".to_string()));
    assert_eq!(q.parent_type, Some("project".to_string()));
    assert_eq!(q.tag, None);
    assert_eq!(q.field_filters.len(), 2);
    assert_eq!(q.field_filters.get("status"), Some(&FieldValue::String("a:b".to_string())));
    assert_eq!(q.field_filters.get(""), Some(&FieldValue::String("x".to_string())));
    let empty = QueryBuilder::new();
    assert!(empty.object_type.is_none() && empty.field_filters.is_empty());
}

#[test]
fn where_clause_of_a_query() {
    let (clause, params) = QueryBuilder::new().build_where_clause();
    assert_eq!(clause, "");
    assert!(params.is_empty());

    let q = QueryBuilder::parse("type:meeting tags:planning status:open owner:[[alice]]");
    let (clause, params) = q.build_where_clause();
    assert_eq!(
        clause,
        "WHERE type = ? AND json_extract(fields, '$.tags') LIKE ? AND json_extract(fields, '$.status') = ? AND json_extract(fields, '$.owner') = ?"
    );
    assert_eq!(params, vec!["meeting", "%\"planning%", "open", "[[alice]]"]);

    let only = QueryBuilder::parse("status:open");
    assert_eq!(only.build_where_clause().0, "WHERE json_extract(fields, '$.status') = ?");
}
