use raven::coerce::{parse_array_items, parse_value, to_text};
use raven::type_decl::{parse_arguments, parse_type_declaration};
use raven::value::FieldValue;

fn s(x: &str) -> FieldValue {
    FieldValue::String(x.to_string())
}

fn n(x: &str) -> FieldValue {
    FieldValue::Number(x.to_string())
}

#[test]
fn coercion_rules_in_order() {
    assert_eq!(parse_value(""), FieldValue::Null);
    assert_eq!(parse_value("   "), FieldValue::Null);
    assert_eq!(parse_value(" [[people/alice]] "), FieldValue::Ref("people/alice".to_string()));
    assert_eq!(parse_value("[[]]"), FieldValue::Ref(String::new()));
    assert_eq!(parse_value("[a, b]"), FieldValue::Array(vec![s("a"), s("b")]));
    assert_eq!(parse_value("\"true\""), s("true"));
    assert_eq!(parse_value("\""), s("\""));
    assert_eq!(parse_value("\"\""), s(""));
    assert_eq!(parse_value("true"), FieldValue::Bool(true));
    assert_eq!(parse_value("false"), FieldValue::Bool(false));
    assert_eq!(parse_value("True"), s("True"));
    assert_eq!(parse_value("42"), n("42"));
    assert_eq!(parse_value("2025-02-03"), FieldValue::Date("2025-02-03".to_string()));
    assert_eq!(
        parse_value("2025-02-03T10:30"),
        FieldValue::Datetime("2025-02-03T10:30".to_string())
    );
    assert_eq!(parse_value("2025-02-03T10"), s("2025-02-03T10"));
    assert_eq!(parse_value("09:00"), s("09:00"));
    assert_eq!(parse_value("plain text"), s("plain text"));
}

#[test]
fn numbers_follow_the_float_grammar() {
    for text in [
        "0", "-1", "+1", "1.", ".5", "1.5", "1e5", "1E5", "1e-5", "1.5e+10", "-.5e3", "inf",
        "-inf", "+Infinity", "NaN", "nan", "007",
    ] {
        assert_eq!(parse_value(text), n(text), "{}", text);
        assert!(text.parse::<f64>().is_ok(), "{}", text);
    }
    for text in [".", "e5", "1e", "1e+", "1.5.2", "0x10", "1_000", "--1", "infin", "+", "1 2", "1,5"] {
        assert_eq!(parse_value(text), s(text), "{}", text);
        assert!(text.parse::<f64>().is_err(), "{}", text);
    }
}

#[test]
fn arrays_split_at_top_level_commas() {
    assert_eq!(parse_value("[]"), FieldValue::Array(vec![]));
    assert_eq!(parse_value("[ , ,]"), FieldValue::Array(vec![]));
    assert_eq!(
        parse_value("[1, \"a, b\", [x, y], [[r]], true]"),
        FieldValue::Array(vec![
            n("1"),
            s("a, b"),
            FieldValue::Array(vec![s("x"), s("y")]),
            FieldValue::Ref("r".to_string()),
            FieldValue::Bool(true),
        ])
    );
    assert_eq!(
        parse_value("[[[people/alice]], [[people/bob]]]"),
        FieldValue::Array(vec![
            FieldValue::Ref("people/alice".to_string()),
            FieldValue::Ref("people/bob".to_string()),
        ])
    );
    assert_eq!(
        parse_value("[[a]] [[b]]"),
        FieldValue::Array(vec![FieldValue::Array(vec![s("a]] [[b")])])
    );
    assert_eq!(parse_array_items("a,,b ,"), vec![s("a"), s("b")]);
    assert_eq!(parse_array_items(""), Vec::<FieldValue>::new());
}

#[test]
fn values_are_written_back_as_they_were_read() {
    for text in [
        "", "true", "false", "42", "-1.5e3", "2025-02-03", "2025-02-03T10:30:00", "plain text",
        "\"quoted\"", "09:00", "  padded  ", "\"true\"", "\"  spaces  \"",
    ] {
        let v = parse_value(text);
        assert_eq!(parse_value(&to_text(&v)), v, "{:?}", text);
    }
    assert_eq!(to_text(&s("a b")), "\"a b\"");
    assert_eq!(to_text(&FieldValue::Null), "");
    assert_eq!(to_text(&FieldValue::Bool(false)), "false");
    assert_eq!(to_text(&FieldValue::Ref("x".to_string())), "[[x]]");
    assert_eq!(
        to_text(&FieldValue::Array(vec![n("1"), s("a"), FieldValue::Array(vec![])])),
        "[1, \"a\", []]"
    );
}

#[test]
fn arguments_respect_quotes_and_brackets() {
    let f = parse_arguments("id=standup, title=\"a=b, c\", who=[x, y], n=3, empty=, =lost, flag");
    assert_eq!(f.len(), 6);
    assert_eq!(f.get("id"), Some(&s("standup")));
    assert_eq!(f.get("title"), Some(&s("a=b, c")));
    assert_eq!(f.get("who"), Some(&FieldValue::Array(vec![s("x"), s("y")])));
    assert_eq!(f.get("n"), Some(&n("3")));
    assert_eq!(f.get("empty"), Some(&FieldValue::Null));
    assert_eq!(f.get("flag"), Some(&FieldValue::Null));
    assert_eq!(f.get(""), None);
    assert!(parse_arguments("  ").is_empty());
    assert!(parse_arguments("").is_empty());
}

#[test]
fn later_arguments_replace_earlier_ones() {
    let f = parse_arguments("a=1, b=2, a=x=y");
    assert_eq!(f.len(), 2);
    assert_eq!(f.get("a"), Some(&s("x=y")));
    assert!(f.contains_key("b"));
    assert!(!f.contains_key("c"));
}

#[test]
fn declarations_need_the_full_shape() {
    for line in ["::", "::(a=1)", "::name", "::name(", "::name)", "::name(a) x", "::na-me(a)", "::name(a)(b)", ":: name(a)"] {
        let err = parse_type_declaration(line, 3).err().unwrap();
        assert_eq!(err.line, 3);
        assert_eq!(err.text, line);
        assert_eq!(err.message(), format!("Invalid type declaration syntax: {}", line));
    }
    for line in ["", ":name(a)", "text ::name(a)", "- ::name(a)"] {
        assert!(parse_type_declaration(line, 1).unwrap().is_none());
    }
    let d = parse_type_declaration("  ::my_type2 \t(a=1)  ", 8).unwrap().unwrap();
    assert_eq!(d.name, "my_type2");
    assert_eq!(d.id, None);
    assert_eq!(d.line, 8);
    assert_eq!(d.fields.get("a"), Some(&n("1")));
    let e = parse_type_declaration("::t()", 1).unwrap().unwrap();
    assert!(e.fields.is_empty());
    let w = parse_type_declaration("::t(id=2025-02-03)", 1).unwrap().unwrap();
    assert_eq!(w.id, Some("2025-02-03".to_string()));
    let x = parse_type_declaration("::t(id=7)", 1).unwrap().unwrap();
    assert_eq!(x.id, None);
}

#[test]
fn float_grammar_is_that_of_the_standard_library() {
    let alphabet = ['+', '-', '.', 'e', 'E', '0', '7', 'i', 'n', 'f', 'a', 'N', ' ', 'x'];
    let mut texts: Vec<String> = vec![String::new()];
    let mut last: Vec<String> = vec![String::new()];
    for _ in 0..5 {
        let mut next = Vec::new();
        for t in &last {
            for c in alphabet {
                let mut s = t.clone();
                s.push(c);
                next.push(s);
            }
        }
        texts.extend(next.iter().cloned());
        last = next;
    }
    for word in ["infinity", "INFINITY", "-Infinity", "+infinity", "infinit", "infinityy", "nan0", "١٢٣", "1e٣"] {
        texts.push(word.to_string());
    }
    for t in texts {
        let chars: Vec<char> = t.chars().collect();
        assert_eq!(raven::coerce::is_float(&chars), t.parse::<f64>().is_ok(), "{:?}", t);
    }
}
