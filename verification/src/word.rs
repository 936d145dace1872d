//! Word preparation and validation: a word is lowercased, and accepted only
//! when it is non-empty and every character belongs to the chosen alphabet.

use vstd::prelude::*;

use crate::alphabet::Alphabet;

verus! {

/// The lowercase form of a character sequence, as `str::to_lowercase`
/// computes it.
pub uninterp spec fn lower_of(s: Seq<char>) -> Seq<char>;

/// Relies on str::to_lowercase: the result depends on the input characters
/// alone.
#[verifier::external_body]
pub(crate) fn lowercase(s: &str) -> (r: String)
    ensures
        r@ == lower_of(s@),
{
    s.to_lowercase()
}

/// Relies on String::push: it appends exactly the given character.
#[verifier::external_body]
pub(crate) fn push_char(s: &mut String, c: char)
    ensures
        final(s)@ == old(s)@.push(c),
{
    s.push(c)
}

/// A word is acceptable for an alphabet when it is non-empty and made of the
/// alphabet's characters alone.
pub open spec fn word_ok(a: Seq<char>, w: Seq<char>) -> bool {
    &&& w.len() > 0
    &&& forall|i: int| 0 <= i < w.len() ==> a.contains(w[i])
}

/// Decides whether `word` is non-empty and made of `alphabet`'s characters
/// alone.
pub fn validate_word(word: &str, alphabet: &Alphabet) -> (r: bool)
    ensures
        r == word_ok(alphabet.letters@, word@),
{
    let n: usize = word.unicode_len();
    if n == 0 {
        return false;
    }
    let mut i: usize = 0;
    while i < n
        invariant
            n == word@.len(),
            i <= n,
            forall|j: int| 0 <= j < i ==> alphabet.letters@.contains(word@[j]),
        decreases n - i,
    {
        let c = word.get_char(i);
        match alphabet.position_of(c) {
            Some(_) => {},
            None => {
                return false;
            },
        }
        i = i + 1;
    }
    true
}

/// Lowercases `word` and validates the result: `Some` holds the lowercase
/// word exactly when it is non-empty and lies within the alphabet, `None`
/// reports rejection.
pub fn check_word(word: &str, alphabet: &Alphabet) -> (r: Option<String>)
    ensures
        match r {
            Some(w) => w@ == lower_of(word@) && word_ok(alphabet.letters@, lower_of(word@)),
            None => !word_ok(alphabet.letters@, lower_of(word@)),
        },
{
    let lowered = lowercase(word);
    if validate_word(lowered.as_str(), alphabet) {
        Some(lowered)
    } else {
        None
    }
}

} // verus!
