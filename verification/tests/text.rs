use cargo_udeps::text::{chars_of, normalize, precedes, same_text, split_assignment, text_ends_with, write_bool};

#[test]
fn hyphens_are_folded_to_underscores() {
    assert_eq!(normalize("left-pad"), "left_pad");
    assert_eq!(normalize("a-b-c"), "a_b_c");
    assert_eq!(normalize("--"), "__");
    assert_eq!(normalize("plain_name"), "plain_name");
    assert_eq!(normalize(""), "");
    assert_eq!(normalize("grüße-1"), "grüße_1");
    assert_eq!(normalize(&normalize("x-y")), normalize("x-y"));
}

#[test]
fn assignments_are_split_at_the_first_equals_sign() {
    assert_eq!(split_assignment("name=value"), Some(("name".to_string(), "value".to_string())));
    assert_eq!(split_assignment("a=b=c"), Some(("a".to_string(), "b".to_string())));
    assert_eq!(split_assignment("=b"), Some(("".to_string(), "b".to_string())));
    assert_eq!(split_assignment("a="), Some(("a".to_string(), "".to_string())));
    assert_eq!(split_assignment("="), Some(("".to_string(), "".to_string())));
    assert_eq!(split_assignment("a==b"), Some(("a".to_string(), "".to_string())));
    assert_eq!(split_assignment("näme=wért"), Some(("näme".to_string(), "wért".to_string())));
    assert_eq!(split_assignment("no-sign"), None);
    assert_eq!(split_assignment(""), None);
}

#[test]
fn texts_are_ordered_by_code_point() {
    assert!(precedes("a", "b"));
    assert!(!precedes("b", "a"));
    assert!(!precedes("a", "a"));
    assert!(precedes("", "a"));
    assert!(!precedes("a", ""));
    assert!(!precedes("", ""));
    assert!(precedes("ab", "abc"));
    assert!(precedes("abc", "abd"));
    assert!(precedes("Z", "a"));
    assert!(precedes("left-pad", "left_pad"));
    assert!(precedes("z", "é"));
    for (a, b) in [("serde", "serde_json"), ("a-b", "ab"), ("x", "é"), ("", "x"), ("same", "same")] {
        assert_eq!(precedes(a, b), a < b);
        assert_eq!(precedes(b, a), b < a);
    }
}

#[test]
fn suffixes_are_recognised() {
    assert!(text_ends_with("rlib", "lib"));
    assert!(text_ends_with("lib", "lib"));
    assert!(text_ends_with("lib", ""));
    assert!(text_ends_with("", ""));
    assert!(!text_ends_with("ib", "lib"));
    assert!(!text_ends_with("libs", "lib"));
    assert!(!text_ends_with("", "lib"));
    assert!(text_ends_with("größe", "ße"));
}

#[test]
fn texts_are_compared_and_taken_apart() {
    assert!(same_text("abc", "abc"));
    assert!(!same_text("abc", "abd"));
    assert!(!same_text("abc", "ab"));
    assert_eq!(chars_of("a→b"), vec!['a', '→', 'b']);
    assert!(chars_of("").is_empty());
    assert_eq!(write_bool(true), "true");
    assert_eq!(write_bool(false), "false");
}
