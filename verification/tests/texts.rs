use flushy::text::{blanks, join_with, length, same_text};

#[test]
fn length_counts_characters() {
    assert_eq!(length(""), 0);
    assert_eq!(length("hello"), 5);
    assert_eq!(length("héllo wörld"), 11);
    assert_eq!(length("日本語"), 3);
}

#[test]
fn blanks_are_spaces() {
    assert_eq!(blanks(0), "");
    assert_eq!(blanks(1), " ");
    assert_eq!(blanks(5), "     ");
}

#[test]
fn same_text_compares_every_character() {
    assert!(same_text("", ""));
    assert!(same_text("flush", "flush"));
    assert!(!same_text("flush", "flusH"));
    assert!(!same_text("flush", "flush-hyphen"));
    assert!(!same_text("a", ""));
    assert!(same_text("é", "é"));
    assert!(!same_text("é", "e"));
}

#[test]
fn join_with_puts_the_separator_between() {
    let none: Vec<String> = vec![];
    assert_eq!(join_with(&none, '\n'), "");
    assert_eq!(join_with(&vec!["a".to_string()], '\n'), "a");
    assert_eq!(
        join_with(&vec!["a".to_string(), "".to_string(), "b c".to_string()], '\n'),
        "a\n\nb c"
    );
    assert_eq!(
        join_with(&vec!["a".to_string(), "b".to_string()], ' '),
        "a b"
    );
}
