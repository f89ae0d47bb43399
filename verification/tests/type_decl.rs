use raven::type_decl::parse_type_declaration;
use raven::value::FieldValue;

#[test]
fn test_parse_simple_type_decl() {
    let result = parse_type_declaration("::meeting(id=standup, time=09:00)", 5).unwrap();
    let decl = result.unwrap();

    assert_eq!(decl.name, "meeting");
    assert_eq!(decl.id, Some("standup".to_string()));
    assert_eq!(decl.line, 5);
}

#[test]
fn test_parse_type_with_refs() {
    let result = parse_type_declaration(
        "::meeting(id=standup, attendees=[[[people/alice]], [[people/bob]]])",
        1,
    )
    .unwrap();
    let decl = result.unwrap();

    assert_eq!(decl.name, "meeting");
    let attendees = decl.fields.get("attendees").unwrap();
    if let FieldValue::Array(arr) = attendees {
        assert_eq!(arr.len(), 2);
        assert_eq!(arr[0], FieldValue::Ref("people/alice".to_string()));
    } else {
        panic!("Expected array");
    }
}

#[test]
fn test_not_a_type_decl() {
    let result = parse_type_declaration("Some regular text", 1).unwrap();
    assert!(result.is_none());
}
