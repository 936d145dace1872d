//! A verified Caesar-cipher library.
//!
//! An [`alphabet::Alphabet`] is an ordered sequence of characters; the cipher
//! rotates each character of a message by a signed shift amount within its
//! alphabet, in a chosen direction.  Characters outside the alphabet pass
//! through unchanged.

pub mod alphabet;
pub mod cipher;
pub mod laws;
pub mod menu;
pub mod word;

pub use alphabet::Alphabet;
pub use cipher::Direction;
pub use cipher::Operation;
