use gitea_ci_autoscaler::text::{contains_text, decimal_text, parse_unsigned, same_text};

#[test]
fn numbers_in_decimal() {
    for n in [0u64, 9, 10, 120, 1_000_000_007, u64::MAX] {
        assert_eq!(decimal_text(n), format!("{n}"));
        assert_eq!(parse_unsigned(&decimal_text(n), u64::MAX), Some(n));
    }
}

#[test]
fn numbers_have_a_limit() {
    assert_eq!(parse_unsigned("300", 299), None);
    assert_eq!(parse_unsigned("299", 299), Some(299));
    assert_eq!(parse_unsigned("0", 0), Some(0));
    assert_eq!(parse_unsigned("1", 0), None);
}

#[test]
fn text_is_compared_by_its_characters() {
    assert!(same_text("linux", "linux"));
    assert!(!same_text("linux", "Linux"));
    assert!(!same_text("linux", "linux "));
}

#[test]
fn texts_are_found_whole() {
    let texts = vec!["one".to_string(), "two".to_string()];
    assert!(contains_text(&texts, "two"));
    assert!(!contains_text(&texts, "tw"));
    assert!(!contains_text(&[], ""));
}
