use caesar::menu::{
    continue_choice, direction_choice, language_choice, operation_choice, Language,
};
use caesar::Direction;
use caesar::Operation;

#[test]
fn continue_menu_accepts_one_and_two() {
    assert_eq!(continue_choice(1), Some(true));
    assert_eq!(continue_choice(2), Some(false));
    assert_eq!(continue_choice(0), None);
    assert_eq!(continue_choice(3), None);
    assert_eq!(continue_choice(-1), None);
}

#[test]
fn operation_menu_accepts_one_and_two() {
    assert_eq!(operation_choice(1), Some(Operation::Cipher));
    assert_eq!(operation_choice(2), Some(Operation::Decipher));
    assert_eq!(operation_choice(7), None);
}

#[test]
fn language_menu_accepts_one_and_two() {
    assert_eq!(language_choice(1), Some(Language::Turkish));
    assert_eq!(language_choice(2), Some(Language::English));
    assert_eq!(language_choice(0), None);
}

#[test]
fn direction_menu_accepts_one_and_two() {
    assert_eq!(direction_choice(1), Some(Direction::Left));
    assert_eq!(direction_choice(2), Some(Direction::Right));
    assert_eq!(direction_choice(i32::MAX), None);
}
