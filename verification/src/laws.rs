//! The algebraic laws of the shift function: shift amounts act modulo the
//! alphabet length, ciphering and deciphering are exact inverses, whole-length
//! shifts are the identity, and characters outside the alphabet pass through.

use vstd::arithmetic::div_mod::{
    lemma_add_mod_noop_right, lemma_mod_bound, lemma_mod_multiples_vanish, lemma_small_mod,
    lemma_sub_mod_noop, lemma_sub_mod_noop_right,
};
use vstd::prelude::*;

use crate::alphabet::{distinct, lemma_pos_of_index, lemma_pos_of_properties, pos_of};
use crate::cipher::{direction_delta, shifted_char, shifted_seq, Direction, Operation};

verus! {

/// Normalizing the shift amount into `[0, |a|)` by the Euclidean remainder
/// before shifting gives the same result as shifting by the amount directly,
/// in either direction.
pub proof fn lemma_shift_normalized(a: Seq<char>, m: Seq<char>, s: int, d: Direction)
    requires
        0 < a.len(),
    ensures
        0 <= s % (a.len() as int) < a.len(),
        shifted_seq(a, m, direction_delta(d, s % (a.len() as int))) == shifted_seq(
            a,
            m,
            direction_delta(d, s),
        ),
{
    let len = a.len() as int;
    lemma_mod_bound(s, len);
    assert forall|i: int| 0 <= i < m.len() implies shifted_char(
        a,
        #[trigger] m[i],
        direction_delta(d, s % len),
    ) == shifted_char(a, m[i], direction_delta(d, s)) by {
        let c = m[i];
        if a.contains(c) {
            let p = pos_of(a, c);
            match d {
                Direction::Right => {
                    lemma_add_mod_noop_right(p, s, len);
                },
                Direction::Left => {
                    lemma_sub_mod_noop_right(p, s, len);
                },
            }
        }
    }
    assert(shifted_seq(a, m, direction_delta(d, s % len)) =~= shifted_seq(
        a,
        m,
        direction_delta(d, s),
    ));
}

/// One character shifted by `delta` and then by `-delta` within a
/// duplicate-free alphabet comes back unchanged.
pub proof fn lemma_char_round_trip(a: Seq<char>, c: char, delta: int)
    requires
        distinct(a),
        0 < a.len(),
    ensures
        shifted_char(a, shifted_char(a, c, delta), -delta) == c,
{
    let len = a.len() as int;
    if a.contains(c) {
        lemma_pos_of_properties(a, c);
        let p = pos_of(a, c);
        let q = (p + delta) % len;
        lemma_mod_bound(p + delta, len);
        let c2 = a[q];
        assert(a.contains(c2));
        lemma_pos_of_index(a, q);
        assert(pos_of(a, c2) == q);
        // (q - delta) % len recovers p: replace q by p + delta under the
        // remainder, and p is its own remainder.
        lemma_sub_mod_noop(p + delta, delta, len);
        assert(((p + delta) % len - delta % len) % len == p % len);
        lemma_sub_mod_noop_right(q, delta, len);
        assert((q - delta % len) % len == (q - delta) % len);
        assert((q - delta) % len == p) by {
            lemma_small_mod(p as nat, len as nat);
        }
        assert(shifted_char(a, c2, -delta) == a[p]);
    }
}

/// Ciphering a message and deciphering the result with the same shift amount
/// and direction restores the message, for every message over a
/// duplicate-free alphabet — and, by the pass-through rule, even for messages
/// that stray outside it.
pub proof fn lemma_round_trip(a: Seq<char>, m: Seq<char>, s: int, d: Direction)
    requires
        distinct(a),
        0 < a.len(),
    ensures
        shifted_seq(
            a,
            shifted_seq(a, m, Operation::Cipher.delta(d, s)),
            Operation::Decipher.delta(d, s),
        ) == m,
{
    let delta = direction_delta(d, s);
    let once = shifted_seq(a, m, delta);
    assert forall|i: int| 0 <= i < m.len() implies shifted_char(
        a,
        #[trigger] once[i],
        direction_delta(d, -s),
    ) == m[i] by {
        assert(once[i] == shifted_char(a, m[i], delta));
        assert(direction_delta(d, -s) == -delta);
        lemma_char_round_trip(a, m[i], delta);
    }
    assert(shifted_seq(a, once, direction_delta(d, -s)) =~= m);
}

/// Shifting by any whole number of alphabet lengths leaves every message
/// unchanged, in either direction.
pub proof fn lemma_shift_identity(a: Seq<char>, m: Seq<char>, k: int, d: Direction)
    requires
        0 < a.len(),
    ensures
        shifted_seq(a, m, direction_delta(d, k * (a.len() as int))) == m,
{
    let len = a.len() as int;
    let j: int = match d {
        Direction::Left => -k,
        Direction::Right => k,
    };
    assert(-(k * len) == (-k) * len) by (nonlinear_arith);
    assert(direction_delta(d, k * len) == j * len);
    assert forall|i: int| 0 <= i < m.len() implies shifted_char(
        a,
        #[trigger] m[i],
        j * len,
    ) == m[i] by {
        let c = m[i];
        if a.contains(c) {
            lemma_pos_of_properties(a, c);
            let p = pos_of(a, c);
            lemma_mod_multiples_vanish(j, p, len);
            assert((len * j + p) % len == p % len);
            assert(p + j * len == len * j + p) by (nonlinear_arith);
            lemma_small_mod(p as nat, len as nat);
        }
    }
    assert(shifted_seq(a, m, j * len) =~= m);
}

/// A character absent from the alphabet is copied unchanged by the shift
/// function, at every position of the message and for every shift amount.
pub proof fn lemma_pass_through(a: Seq<char>, m: Seq<char>, delta: int, i: int)
    requires
        0 <= i < m.len(),
        !a.contains(m[i]),
    ensures
        shifted_seq(a, m, delta).len() == m.len(),
        shifted_seq(a, m, delta)[i] == m[i],
{
}

} // verus!
