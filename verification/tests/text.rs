use scrap_markdown::text::{chars_of, is_lex_le, string_of};

#[test]
fn characters_and_back() {
    let chars = chars_of("a#é\n見");
    assert_eq!(chars, vec!['a', '#', 'é', '\n', '見']);
    assert_eq!(string_of(&chars), "a#é\n見");
    assert_eq!(string_of(&chars_of("")), "");
}

#[test]
fn lexical_order_of_characters() {
    let le = |a: &str, b: &str| is_lex_le(&chars_of(a), &chars_of(b));
    assert!(le("", ""));
    assert!(le("", "a"));
    assert!(!le("a", ""));
    assert!(le("abc", "abc"));
    assert!(le("ab", "abc"));
    assert!(!le("abc", "ab"));
    assert!(le("abc", "abd"));
    assert!(!le("b", "abc"));
    assert!(le("10", "9"));
    assert!(le("2023-01-31T00:00:00", "2023-02-01T00:00:00"));
    assert!(le("z", "é"));
}

#[test]
fn lexical_order_agrees_with_the_order_of_strings() {
    let words = ["", "a", "ab", "b", "é", "見", "z", "2023-01-01T00:00:00", "2023-01-01"];
    for a in words {
        for b in words {
            assert_eq!(is_lex_le(&chars_of(a), &chars_of(b)), a <= b);
        }
    }
}
