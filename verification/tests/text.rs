use raven::text::{
    byte_length, byte_offset, char_width, decimal_chars, from_chars, is_whitespace, join_from,
    lines_of, to_chars, trim_slice,
};

fn all_chars() -> impl Iterator<Item = char> {
    (0..=0x10FFFFu32).filter_map(char::from_u32)
}

fn strings(alphabet: &[char], length: usize) -> Vec<String> {
    let mut all = vec![String::new()];
    let mut last = vec![String::new()];
    for _ in 0..length {
        let mut next = Vec::new();
        for t in &last {
            for c in alphabet {
                let mut s = t.clone();
                s.push(*c);
                next.push(s);
            }
        }
        all.extend(next.iter().cloned());
        last = next;
    }
    all
}

#[test]
fn whitespace_is_that_of_unicode() {
    for c in all_chars() {
        assert_eq!(is_whitespace(c), c.is_whitespace(), "{:?}", c);
    }
}

#[test]
fn widths_are_those_of_utf8() {
    for c in all_chars() {
        assert_eq!(char_width(c), c.len_utf8(), "{:?}", c);
    }
    assert_eq!(byte_length("aé‿𝄞"), 10);
    let chars: Vec<char> = "aé‿𝄞".chars().collect();
    assert_eq!(byte_offset(&chars, 0), 0);
    assert_eq!(byte_offset(&chars, 2), 3);
    assert_eq!(byte_offset(&chars, 4), 10);
}

#[test]
fn lines_are_those_of_the_standard_library() {
    for text in strings(&['a', '\n', '\r', ' '], 7) {
        let chars = to_chars(&text);
        let lines: Vec<String> = lines_of(&chars).iter().map(|l| from_chars(l)).collect();
        let expected: Vec<&str> = text.lines().collect();
        assert_eq!(lines, expected, "{:?}", text);
        let joined: String = join_from(&lines_of(&chars), 0).into_iter().collect();
        assert_eq!(joined, expected.join("\n"), "{:?}", text);
        if !expected.is_empty() {
            let rest: String = join_from(&lines_of(&chars), 1).into_iter().collect();
            assert_eq!(rest, expected[1..].join("\n"), "{:?}", text);
        }
    }
}

#[test]
fn trimming_is_that_of_the_standard_library() {
    for text in strings(&['a', ' ', '\t', '\u{a0}', '\u{3000}', '\n'], 5) {
        let chars = to_chars(&text);
        assert_eq!(from_chars(trim_slice(&chars)), text.trim(), "{:?}", text);
    }
}

#[test]
fn numerals() {
    for n in [0usize, 1, 9, 10, 11, 99, 100, 101, 12345, 1_000_000, usize::MAX] {
        let s: String = decimal_chars(n).into_iter().collect();
        assert_eq!(s, n.to_string());
    }
}
