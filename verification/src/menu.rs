//! The decision rules of the interactive driver: each numeric menu accepts 1
//! or 2, and anything else asks the operator again.

use vstd::prelude::*;

use crate::cipher::{Direction, Operation};

verus! {

/// Which of the two built-in alphabets the operator chose.
#[derive(Clone, Copy, Debug, PartialEq, Eq, Structural)]
pub enum Language {
    Turkish,
    English,
}

/// The continue-or-quit menu: 1 continues, 2 quits, anything else is invalid.
pub fn continue_choice(choice: i32) -> (r: Option<bool>)
    ensures
        choice == 1 ==> r == Some(true),
        choice == 2 ==> r == Some(false),
        choice != 1 && choice != 2 ==> r is None,
{
    if choice == 1 {
        Some(true)
    } else if choice == 2 {
        Some(false)
    } else {
        None
    }
}

/// The operation menu: 1 ciphers, 2 deciphers, anything else is invalid.
pub fn operation_choice(choice: i32) -> (r: Option<Operation>)
    ensures
        choice == 1 ==> r == Some(Operation::Cipher),
        choice == 2 ==> r == Some(Operation::Decipher),
        choice != 1 && choice != 2 ==> r is None,
{
    if choice == 1 {
        Some(Operation::Cipher)
    } else if choice == 2 {
        Some(Operation::Decipher)
    } else {
        None
    }
}

/// The language menu: 1 selects Turkish, 2 selects English, anything else is
/// invalid.
pub fn language_choice(choice: i32) -> (r: Option<Language>)
    ensures
        choice == 1 ==> r == Some(Language::Turkish),
        choice == 2 ==> r == Some(Language::English),
        choice != 1 && choice != 2 ==> r is None,
{
    if choice == 1 {
        Some(Language::Turkish)
    } else if choice == 2 {
        Some(Language::English)
    } else {
        None
    }
}

/// The direction menu: 1 shifts left, 2 shifts right, anything else is
/// invalid.
pub fn direction_choice(choice: i32) -> (r: Option<Direction>)
    ensures
        choice == 1 ==> r == Some(Direction::Left),
        choice == 2 ==> r == Some(Direction::Right),
        choice != 1 && choice != 2 ==> r is None,
{
    if choice == 1 {
        Some(Direction::Left)
    } else if choice == 2 {
        Some(Direction::Right)
    } else {
        None
    }
}

} // verus!
