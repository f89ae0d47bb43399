use raven::schema::{FieldDefinition, FieldType, NamedField, NamedTrait, NamedType, Schema, TraitDefinition, TypeDefinition};
use raven::validator::{
    find_problem, problem_message, validate_field_value, validate_fields, Problem, RangeCheck,
    ValidationError,
};
use raven::value::{FieldMap, FieldValue};

fn definition(field_type: FieldType) -> FieldDefinition {
    FieldDefinition {
        field_type,
        required: false,
        default: None,
        values: None,
        target: None,
        min: None,
        max: None,
        derived: None,
        positional: false,
    }
}

#[test]
fn test_validate_required_field() {
    let mut field_defs = Vec::new();
    field_defs.push(NamedField {
        name: "name".to_string(),
        definition: FieldDefinition {
            field_type: FieldType::String,
            required: true,
            default: None,
            values: None,
            target: None,
            min: None,
            max: None,
            derived: None,
            positional: false,
        },
    });

    let fields = FieldMap::new();
    let schema = Schema::default();

    let errors = validate_fields(&fields, &field_defs, &schema, &vec![]);
    assert_eq!(errors.len(), 1);
    assert_eq!(errors[0].field, "name");
}

#[test]
fn test_validate_enum_field() {
    let mut field_defs = Vec::new();
    field_defs.push(NamedField {
        name: "status".to_string(),
        definition: FieldDefinition {
            field_type: FieldType::Enum,
            required: false,
            default: None,
            values: Some(vec!["active".to_string(), "done".to_string()]),
            target: None,
            min: None,
            max: None,
            derived: None,
            positional: false,
        },
    });

    let mut fields = FieldMap::new();
    fields.insert("status".to_string(), FieldValue::String("invalid".to_string()));

    let schema = Schema::default();

    let errors = validate_fields(&fields, &field_defs, &schema, &vec![RangeCheck::Within]);
    assert_eq!(errors.len(), 1);
}

#[test]
fn required_field_with_default_or_value_is_in_order() {
    let mut with_default = definition(FieldType::String);
    with_default.required = true;
    with_default.default = Some("\"x\"".to_string());
    let mut required = definition(FieldType::Number);
    required.required = true;
    let defs = vec![
        NamedField { name: "a".to_string(), definition: with_default },
        NamedField { name: "b".to_string(), definition: required },
    ];
    let mut fields = FieldMap::new();
    fields.insert("b".to_string(), FieldValue::Number("2".to_string()));
    fields.insert("unknown".to_string(), FieldValue::Null);
    fields.insert("id".to_string(), FieldValue::Bool(true));
    let errors = validate_fields(
        &fields,
        &defs,
        &Schema::default(),
        &vec![RangeCheck::Within, RangeCheck::Within, RangeCheck::Within],
    );
    assert!(errors.is_empty());
}

#[test]
fn errors_come_in_order_with_messages() {
    let mut number = definition(FieldType::Number);
    number.min = Some("1".to_string());
    number.max = Some("5".to_string());
    let mut missing = definition(FieldType::Bool);
    missing.required = true;
    let mut status = definition(FieldType::Enum);
    status.values = Some(vec!["todo".to_string(), "done".to_string()]);
    let defs = vec![
        NamedField { name: "n".to_string(), definition: number },
        NamedField { name: "flag".to_string(), definition: missing },
        NamedField { name: "status".to_string(), definition: status },
        NamedField { name: "tags".to_string(), definition: definition(FieldType::Number) },
    ];
    let mut fields = FieldMap::new();
    fields.insert("status".to_string(), FieldValue::String("open".to_string()));
    fields.insert("tags".to_string(), FieldValue::Array(vec![]));
    fields.insert("n".to_string(), FieldValue::Number("9".to_string()));
    let errors = validate_fields(
        &fields,
        &defs,
        &Schema::default(),
        &vec![RangeCheck::Within, RangeCheck::Within, RangeCheck::AboveMaximum],
    );
    let lines: Vec<String> = errors.iter().map(ValidationError::to_text).collect();
    assert_eq!(
        lines,
        vec![
            "Field 'flag': Required field is missing",
            "Field 'status': Invalid enum value 'open', expected one of: [\"todo\", \"done\"]",
            "Field 'n': Value 9 is above maximum 5",
        ]
    );
}

#[test]
fn every_type_has_its_values() {
    let s = FieldValue::String("x".to_string());
    let n = FieldValue::Number("1".to_string());
    let date = FieldValue::Date("2025-02-03".to_string());
    let datetime = FieldValue::Datetime("2025-02-03T10:00".to_string());
    let r = FieldValue::Ref("a".to_string());
    let b = FieldValue::Bool(true);
    let check = |t: FieldType, v: &FieldValue| validate_field_value(v, &definition(t), RangeCheck::Within);
    assert_eq!(check(FieldType::String, &s), Ok(()));
    assert_eq!(check(FieldType::String, &n), Err(Problem::ExpectedString));
    assert_eq!(check(FieldType::Number, &n), Ok(()));
    assert_eq!(check(FieldType::Number, &s), Err(Problem::ExpectedNumber));
    assert_eq!(check(FieldType::Bool, &b), Ok(()));
    assert_eq!(check(FieldType::Bool, &FieldValue::Null), Err(Problem::ExpectedBool));
    assert_eq!(check(FieldType::Ref, &r), Ok(()));
    assert_eq!(check(FieldType::Ref, &s), Ok(()));
    assert_eq!(check(FieldType::Ref, &b), Err(Problem::ExpectedRef));
    assert_eq!(check(FieldType::Date, &date), Ok(()));
    assert_eq!(check(FieldType::Date, &datetime), Err(Problem::ExpectedDate));
    assert_eq!(check(FieldType::Datetime, &datetime), Ok(()));
    assert_eq!(check(FieldType::Datetime, &date), Err(Problem::ExpectedDatetime));
    assert_eq!(check(FieldType::Enum, &s), Err(Problem::MissingEnumValues));
    assert_eq!(check(FieldType::Enum, &n), Err(Problem::ExpectedEnum));
    let strings = FieldValue::Array(vec![s.clone(), s.clone()]);
    let mixed = FieldValue::Array(vec![s.clone(), r.clone()]);
    let empty = FieldValue::Array(vec![]);
    assert_eq!(check(FieldType::StringArray, &strings), Ok(()));
    assert_eq!(check(FieldType::StringArray, &mixed), Err(Problem::ExpectedStrings));
    assert_eq!(check(FieldType::StringArray, &s), Err(Problem::ExpectedStrings));
    assert_eq!(check(FieldType::RefArray, &mixed), Ok(()));
    assert_eq!(check(FieldType::RefArray, &FieldValue::Array(vec![n.clone()])), Err(Problem::ExpectedRefs));
    assert_eq!(check(FieldType::NumberArray, &empty), Ok(()));
    assert_eq!(check(FieldType::NumberArray, &strings), Err(Problem::ExpectedNumbers));
    assert_eq!(check(FieldType::DateArray, &FieldValue::Array(vec![date.clone()])), Ok(()));
    assert_eq!(check(FieldType::DateArray, &strings), Err(Problem::ExpectedDates));
}

#[test]
fn strings_that_stand_for_dates() {
    let check = |t: FieldType, text: &str| {
        validate_field_value(&FieldValue::String(text.to_string()), &definition(t), RangeCheck::Within)
    };
    assert_eq!(check(FieldType::Date, "2025-02-03"), Ok(()));
    assert_eq!(check(FieldType::Date, "2025-02-30"), Err(Problem::InvalidDate));
    assert_eq!(check(FieldType::Date, "tomorrow"), Err(Problem::InvalidDate));
    assert_eq!(check(FieldType::Datetime, "2025-02-03T10:30"), Ok(()));
    assert_eq!(check(FieldType::Datetime, "2025-02-03T10:30:15"), Ok(()));
    assert_eq!(check(FieldType::Datetime, "2025-02-03T10:30:15+01:00"), Ok(()));
    assert_eq!(check(FieldType::Datetime, "2025-02-03"), Err(Problem::InvalidDatetime));
}

#[test]
fn number_bounds_come_from_the_caller() {
    let n = FieldValue::Number("0".to_string());
    let mut def = definition(FieldType::Number);
    def.min = Some("1".to_string());
    assert_eq!(validate_field_value(&n, &def, RangeCheck::BelowMinimum), Err(Problem::BelowMinimum));
    assert_eq!(validate_field_value(&n, &def, RangeCheck::AboveMaximum), Err(Problem::AboveMaximum));
    assert_eq!(problem_message(Problem::BelowMinimum, &n, &def), "Value 0 is below minimum 1");
    assert_eq!(
        find_problem(&FieldType::Date, &FieldValue::String("x".to_string()), &None, RangeCheck::Within, true, false),
        None
    );
    assert_eq!(
        find_problem(&FieldType::Datetime, &FieldValue::String("x".to_string()), &None, RangeCheck::Within, true, false),
        Some(Problem::InvalidDatetime)
    );
}

#[test]
fn schema_is_completed() {
    let schema = Schema::default();
    assert!(schema.has_type("page"));
    assert!(!schema.has_trait("task"));

    let custom = Schema {
        types: vec![NamedType {
            name: "person".to_string(),
            definition: TypeDefinition { fields: vec![], detect: None },
        }],
        traits: vec![
            NamedTrait { name: "remind".to_string(), definition: TraitDefinition { fields: vec![], cli: None } },
            NamedTrait { name: "task".to_string(), definition: TraitDefinition { fields: vec![], cli: None } },
            NamedTrait { name: "highlight".to_string(), definition: TraitDefinition { fields: vec![], cli: None } },
        ],
    }
    .complete();
    assert!(custom.has_type("person"));
    assert!(custom.has_type("page"));
    assert!(custom.has_trait("task"));
    let names: Vec<&str> = custom.traits.iter().map(|t| t.name.as_str()).collect();
    assert_eq!(names, vec!["remind", "task", "highlight"]);
    let cli = custom.traits[1].definition.cli.clone().unwrap();
    assert_eq!(cli.alias, Some("tasks".to_string()));
    assert_eq!(cli.default_query, Some("status:todo OR status:in_progress".to_string()));
    assert!(custom.traits[0].definition.cli.is_none());
    assert_eq!(custom.complete().types.len(), 2);
}
