//! The circular shift function and the two operations built on it.
//!
//! A shift moves every alphabet character of a message by the same signed
//! offset, modulo the alphabet length; characters outside the alphabet are
//! copied unchanged.  `Cipher` applies the shift as given, `Decipher` applies
//! the negated shift, so the two are exact inverses.

use vstd::arithmetic::div_mod::{
    lemma_add_mod_noop_right, lemma_mod_add_multiples_vanish, lemma_mod_bound, lemma_small_mod,
    lemma_sub_mod_noop_right,
};
use vstd::prelude::*;

use crate::alphabet::{pos_of, Alphabet};

verus! {

/// Which way a positive shift moves a character's position.
#[derive(Clone, Copy, Debug, PartialEq, Eq, Structural)]
pub enum Direction {
    Left,
    Right,
}

/// Forward or inverse application of a shift.
#[derive(Clone, Copy, Debug, PartialEq, Eq, Structural)]
pub enum Operation {
    Cipher,
    Decipher,
}

/// The signed position offset that a shift of `s` in direction `d` applies:
/// `Right` adds the shift amount, `Left` subtracts it.
pub open spec fn direction_delta(d: Direction, s: int) -> int {
    match d {
        Direction::Left => -s,
        Direction::Right => s,
    }
}

/// One character shifted by `delta` positions within alphabet `a`: a character
/// of the alphabet moves from its first position `p` to position
/// `(p + delta) mod |a|`; any other character is returned unchanged.
pub open spec fn shifted_char(a: Seq<char>, c: char, delta: int) -> char {
    if a.contains(c) {
        a[(pos_of(a, c) + delta) % (a.len() as int)]
    } else {
        c
    }
}

/// A whole message shifted character by character.
pub open spec fn shifted_seq(a: Seq<char>, m: Seq<char>, delta: int) -> Seq<char> {
    m.map_values(|c: char| shifted_char(a, c, delta))
}

/// Adding `off` to position `p` modulo `len` lands on the character that a
/// signed shift of `delta` selects, provided `off` and `delta` agree modulo
/// `len`.
proof fn lemma_offset_agrees(p: int, off: int, delta: int, len: int)
    requires
        0 < len,
        0 <= p < len,
        0 <= off < len,
        off % len == delta % len,
    ensures
        (p + off) % len == (p + delta) % len,
{
    lemma_add_mod_noop_right(p, off, len);
    lemma_add_mod_noop_right(p, delta, len);
}

/// Shifts every alphabet character of `message` by `shifting` positions in
/// direction `direction`, copying other characters unchanged.  Negative
/// shifts wrap via the Euclidean remainder, so any `i32` amount is accepted.
pub fn shift(message: String, shifting: i32, direction: Direction, alphabet: &Alphabet) -> (res:
    String)
    requires
        0 < alphabet.letters@.len() <= i32::MAX,
    ensures
        res@ == shifted_seq(
            alphabet.letters@,
            message@,
            direction_delta(direction, shifting as int),
        ),
{
    let ghost a: Seq<char> = alphabet.letters@;
    let ghost delta: int = direction_delta(direction, shifting as int);
    let len: usize = alphabet.len();
    let len_i32: i32 = len as i32;
    let normalized: i32 = match shifting.checked_rem_euclid(len_i32) {
        Some(r) => r,
        None => 0,  // unreachable: the divisor is positive and exceeds -1
    };
    proof {
        lemma_mod_bound(shifting as int, len as int);
    }
    let offset: usize = match direction {
        Direction::Right => normalized as usize,
        Direction::Left => if normalized == 0 {
            0
        } else {
            (len_i32 - normalized) as usize
        },
    };
    proof {
        match direction {
            Direction::Right => {
                lemma_small_mod(normalized as nat, len as nat);
            },
            Direction::Left => {
                // offset == (-shifting) mod len: adding len to the negated
                // normalized remainder does not change its residue.
                lemma_sub_mod_noop_right(0, shifting as int, len as int);
                if normalized != 0 {
                    lemma_mod_add_multiples_vanish(-(normalized as int), len as int);
                    lemma_small_mod((len - normalized) as nat, len as nat);
                } else {
                    lemma_small_mod(0, len as nat);
                }
            },
        }
        assert(0 <= offset < len);
        assert((offset as int) % (len as int) == delta % (len as int));
    }
    let s: &str = message.as_str();
    let n: usize = s.unicode_len();
    let mut out: String = String::new();
    let mut i: usize = 0;
    while i < n
        invariant
            0 < len == a.len() <= i32::MAX,
            a == alphabet.letters@,
            n == s@.len(),
            i <= n,
            0 <= offset < len,
            (offset as int) % (len as int) == delta % (len as int),
            out@ == shifted_seq(a, s@.take(i as int), delta),
        decreases n - i,
    {
        let c = s.get_char(i);
        match alphabet.position_of(c) {
            Some(p) => {
                let q: usize = (p + offset) % len;
                proof {
                    lemma_offset_agrees(p as int, offset as int, delta, len as int);
                    lemma_mod_bound(p + delta, len as int);
                }
                crate::word::push_char(&mut out, alphabet.char_at(q));
            },
            None => {
                crate::word::push_char(&mut out, c);
            },
        }
        proof {
            assert(out@ =~= shifted_seq(a, s@.take(i as int + 1), delta));
        }
        i = i + 1;
    }
    proof {
        assert(s@.take(n as int) =~= s@);
    }
    out
}

impl Operation {
    /// The signed position offset that this operation applies for a shift of
    /// `s` in direction `d`: `Cipher` uses the shift as given, `Decipher`
    /// negates it.
    pub open spec fn delta(self, d: Direction, s: int) -> int {
        match self {
            Operation::Cipher => direction_delta(d, s),
            Operation::Decipher => direction_delta(d, -s),
        }
    }

    /// Applies this operation to `message`.  Never fails: the `Result` shape
    /// only mirrors the operation interface, and the error variant is never
    /// produced.
    pub fn apply(&self, message: &str, shifting: i32, direction: Direction, alphabet: &Alphabet)
        -> (r: Result<String, String>)
        requires
            0 < alphabet.letters@.len() <= i32::MAX,
        ensures
            r is Ok,
            r matches Ok(out) ==> out@ == shifted_seq(
                alphabet.letters@,
                message@,
                self.delta(direction, shifting as int),
            ),
    {
        match self {
            Operation::Cipher => Ok(
                shift(message.to_owned(), shifting, direction, alphabet),
            ),
            Operation::Decipher => {
                // Negate the shift without ever computing `-shifting`, which
                // has no i32 value when `shifting` is i32::MIN.
                let len: usize = alphabet.len();
                let len_i32: i32 = len as i32;
                let normalized: i32 = match shifting.checked_rem_euclid(len_i32) {
                    Some(r) => r,
                    None => 0,  // unreachable: the divisor is positive and exceeds -1
                };
                proof {
                    lemma_mod_bound(shifting as int, len as int);
                }
                let negated: i32 = if normalized == 0 {
                    0
                } else {
                    len_i32 - normalized
                };
                proof {
                    lemma_sub_mod_noop_right(0, shifting as int, len as int);
                    if normalized != 0 {
                        lemma_mod_add_multiples_vanish(-(normalized as int), len as int);
                        lemma_small_mod((len - normalized) as nat, len as nat);
                    } else {
                        lemma_small_mod(0, len as nat);
                    }
                    assert((negated as int) % (len as int) == (-(shifting as int)) % (len as int));
                }
                let out = shift(message.to_owned(), negated, direction, alphabet);
                proof {
                    lemma_deltas_agree(
                        alphabet.letters@,
                        message@,
                        direction,
                        negated as int,
                        -(shifting as int),
                    );
                }
                Ok(out)
            },
        }
    }
}

/// Two shift amounts that agree modulo the alphabet length shift every
/// message alike, in either direction.
proof fn lemma_deltas_agree(a: Seq<char>, m: Seq<char>, d: Direction, s1: int, s2: int)
    requires
        0 < a.len(),
        s1 % (a.len() as int) == s2 % (a.len() as int),
    ensures
        shifted_seq(a, m, direction_delta(d, s1)) == shifted_seq(a, m, direction_delta(d, s2)),
{
    let len = a.len() as int;
    assert forall|i: int| 0 <= i < m.len() implies shifted_char(
        a,
        #[trigger] m[i],
        direction_delta(d, s1),
    ) == shifted_char(a, m[i], direction_delta(d, s2)) by {
        let c = m[i];
        if a.contains(c) {
            let p = pos_of(a, c);
            match d {
                Direction::Right => {
                    lemma_add_mod_noop_right(p, s1, len);
                    lemma_add_mod_noop_right(p, s2, len);
                },
                Direction::Left => {
                    lemma_sub_mod_noop_right(p, s1, len);
                    lemma_sub_mod_noop_right(p, s2, len);
                },
            }
        }
    }
    assert(shifted_seq(a, m, direction_delta(d, s1)) =~= shifted_seq(
        a,
        m,
        direction_delta(d, s2),
    ));
}

} // verus!
