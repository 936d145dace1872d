use caesar::word::{check_word, validate_word};
use caesar::Alphabet;

fn english() -> Alphabet {
    Alphabet::new("abcdefghijklmnopqrstuvwxyz")
}

fn turkish() -> Alphabet {
    Alphabet::new("abc\u{e7}defg\u{11f}h\u{131}ijklmno\u{f6}prs\u{15f}tu\u{fc}vyz")
}

#[test]
fn lowercase_word_is_accepted() {
    let a = english();
    assert_eq!(check_word("hello", &a), Some("hello".to_string()));
}

#[test]
fn uppercase_word_is_lowercased_then_accepted() {
    let a = english();
    assert_eq!(check_word("ABC", &a), Some("abc".to_string()));
    assert_eq!(check_word("MiXeD", &a), Some("mixed".to_string()));
}

#[test]
fn empty_word_is_rejected() {
    let a = english();
    assert_eq!(check_word("", &a), None);
}

#[test]
fn word_with_foreign_characters_is_rejected() {
    let a = english();
    assert_eq!(check_word("abc1", &a), None);
    assert_eq!(check_word("a b", &a), None);
    assert_eq!(check_word("caf\u{e9}", &a), None); // é
}

#[test]
fn turkish_letters_valid_only_in_turkish_alphabet() {
    let word = "\u{e7}ay"; // çay
    assert_eq!(check_word(word, &turkish()), Some(word.to_string()));
    assert_eq!(check_word(word, &english()), None);
}

#[test]
fn validate_word_checks_membership_without_lowercasing() {
    let a = english();
    assert!(validate_word("abc", &a));
    assert!(!validate_word("ABC", &a));
    assert!(!validate_word("", &a));
    assert!(!validate_word("ab cd", &a));
}
