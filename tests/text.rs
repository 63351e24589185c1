use ant_colony::text::{same_text, split_pair};

#[test]
fn split_pair_cuts_at_first_equals() {
    assert_eq!(split_pair("north=Bar"), Some(("north".to_string(), "Bar".to_string())));
    assert_eq!(split_pair("a=b=c"), Some(("a".to_string(), "b=c".to_string())));
    assert_eq!(split_pair("=x"), Some((String::new(), "x".to_string())));
    assert_eq!(split_pair("nothing"), None);
}

#[test]
fn same_text_compares_characters() {
    assert!(same_text("abc", "abc"));
    assert!(!same_text("abc", "abd"));
    assert!(!same_text("abc", "ab"));
    assert!(same_text("", ""));
}
