use raven::refs::{extract_references, extract_tags_from_text};
use raven::traits::parse_trait_annotation;
use raven::type_decl::{parse_arguments, parse_type_declaration};
use regex::Regex;

/// Lines of ASCII text, many of them near the edges of the grammar.
fn samples() -> Vec<String> {
    let pieces = [
        "", " ", "\t", "-", "*", "@", "::", "(", ")", "[", "]", "[[", "]]", "|", "#", ",", "=",
        "a", "task", "due", "x_1", "7", "id=1", "\"q\"", "a b",
    ];
    let mut lines: Vec<String> = Vec::new();
    for a in pieces {
        for b in pieces {
            for c in pieces {
                lines.push(format!("{}{}{}", a, b, c));
            }
        }
    }
    for line in [
        "::meeting(id=standup, time=09:00)",
        "  ::meeting (id=standup)  ",
        "::meeting(id=standup) trailing",
        "::meeting(a=(b))",
        "- @task(due=2025-02-01) @highlight Fix this bug",
        "@a(b) @c (d) -@e(f *@g",
        "mail alice@example.com @real(x=1) rest",
        "See [[people/alice|Alice Chen]] and [[b]] and [[c|d|e]] and [[f||g]]",
        "[[a]][[b]] [[ c ]] [[d|]] [[|e]] [[f]",
        "#one (#two) [#three] x#four #5five #six-7_8 ##seven",
    ] {
        lines.push(line.to_string());
    }
    lines
}

#[test]
fn declarations_follow_their_pattern() {
    let pattern = Regex::new(r"^::([A-Za-z0-9_]+)\s*\(([^)]*)\)\s*$").unwrap();
    for line in samples() {
        let trimmed = line.trim();
        let parsed = parse_type_declaration(&line, 1);
        if !trimmed.starts_with("::") {
            assert!(matches!(parsed, Ok(None)), "{:?}", line);
            continue;
        }
        match pattern.captures(trimmed) {
            Some(caps) => {
                let d = parsed.ok().flatten().unwrap_or_else(|| panic!("{:?}", line));
                assert_eq!(d.name, &caps[1], "{:?}", line);
                let args = parse_arguments(&caps[2]);
                assert_eq!(d.fields.len(), args.len(), "{:?}", line);
                for i in 0..args.len() {
                    let entry = args.entry(i);
                    assert_eq!(d.fields.get(&entry.name), Some(&entry.value), "{:?}", line);
                }
            }
            None => assert!(parsed.is_err(), "{:?}", line),
        }
    }
}

#[test]
fn annotations_follow_their_pattern() {
    let pattern = Regex::new(r"(?:^|[\s\-\*])@([A-Za-z0-9_]+)(?:\s*\(([^)]*)\))?").unwrap();
    for line in samples() {
        let found = parse_trait_annotation(&line, 1);
        let expected: Vec<_> = pattern.captures_iter(&line).collect();
        assert_eq!(found.len(), expected.len(), "{:?}", line);
        for (t, caps) in found.iter().zip(expected.iter()) {
            let whole = caps.get(0).unwrap();
            assert_eq!(t.trait_name, &caps[1], "{:?}", line);
            assert_eq!(t.start_offset, whole.start(), "{:?}", line);
            assert_eq!(t.end_offset, whole.end(), "{:?}", line);
            assert_eq!(t.content, line[whole.end()..].trim(), "{:?}", line);
            let args = parse_arguments(caps.get(2).map_or("", |m| m.as_str()));
            assert_eq!(t.fields.len(), args.len(), "{:?}", line);
            for i in 0..args.len() {
                let entry = args.entry(i);
                assert_eq!(t.fields.get(&entry.name), Some(&entry.value), "{:?}", line);
            }
        }
    }
}

#[test]
fn references_follow_their_pattern() {
    let pattern = Regex::new(r"\[\[([^\[\]|]+)(?:\|([^\]]+))?\]\]").unwrap();
    for line in samples() {
        let found = extract_references(&line, 1);
        let expected: Vec<_> = pattern.captures_iter(&line).collect();
        assert_eq!(found.len(), expected.len(), "{:?}", line);
        for (r, caps) in found.iter().zip(expected.iter()) {
            let whole = caps.get(0).unwrap();
            assert_eq!(r.target, &caps[1], "{:?}", line);
            assert_eq!(r.display_text.as_deref(), caps.get(2).map(|m| m.as_str()), "{:?}", line);
            assert_eq!(r.start, whole.start(), "{:?}", line);
            assert_eq!(r.end, whole.end(), "{:?}", line);
        }
    }
}

#[test]
fn tags_follow_their_pattern() {
    let pattern = Regex::new(r"(?:^|[\s(\[])#([A-Za-z_\-][A-Za-z0-9_\-]*)").unwrap();
    for line in samples() {
        let found = extract_tags_from_text(&line);
        let mut expected: Vec<String> = Vec::new();
        let mut at = 0;
        while let Some(caps) = pattern.captures_at(&line, at) {
            let name = caps.get(1).unwrap();
            expected.push(name.as_str().to_string());
            at = name.end();
            if at >= line.len() {
                break;
            }
        }
        assert_eq!(found, expected, "{:?}", line);
    }
}
