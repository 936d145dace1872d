//! An ordered alphabet of characters with positional lookup in both
//! directions: character at a position, and first position of a character.

use vstd::prelude::*;

verus! {

/// The position of the first occurrence of `c` in `a`.
///
/// Meaningful only when `a.contains(c)`; see [`lemma_pos_of_properties`].
pub open spec fn pos_of(a: Seq<char>, c: char) -> int
    decreases a.len(),
{
    if a.len() == 0 {
        0
    } else if a[0] == c {
        0
    } else {
        1 + pos_of(a.drop_first(), c)
    }
}

/// No character occurs twice in `a`.
pub open spec fn distinct(a: Seq<char>) -> bool {
    forall|i: int, j: int| 0 <= i < j < a.len() ==> a[i] != a[j]
}

/// When `c` occurs in `a`, `pos_of(a, c)` is a valid index, holds `c`, and is
/// the first such index.
pub proof fn lemma_pos_of_properties(a: Seq<char>, c: char)
    requires
        a.contains(c),
    ensures
        0 <= pos_of(a, c) < a.len(),
        a[pos_of(a, c)] == c,
        forall|j: int| 0 <= j < pos_of(a, c) ==> a[j] != c,
    decreases a.len(),
{
    if a.len() > 0 && a[0] != c {
        let tail = a.drop_first();
        let w = choose|i: int| 0 <= i < a.len() && a[i] == c;
        assert(tail[w - 1] == c);
        lemma_pos_of_properties(tail, c);
        assert forall|j: int| 0 <= j < pos_of(a, c) implies a[j] != c by {
            if j > 0 {
                assert(tail[j - 1] != c);
            }
        }
    }
}

/// A first occurrence at index `i` pins `pos_of` down to `i`.
pub proof fn lemma_pos_of_first_occurrence(a: Seq<char>, c: char, i: int)
    requires
        0 <= i < a.len(),
        a[i] == c,
        forall|j: int| 0 <= j < i ==> a[j] != c,
    ensures
        a.contains(c),
        pos_of(a, c) == i,
    decreases a.len(),
{
    assert(a.contains(c));
    if a[0] != c {
        let tail = a.drop_first();
        assert(tail[i - 1] == c);
        assert forall|j: int| 0 <= j < i - 1 implies tail[j] != c by {
            assert(a[j + 1] != c);
        }
        lemma_pos_of_first_occurrence(tail, c, i - 1);
    }
}

/// In a duplicate-free alphabet, the character at index `k` is found back at
/// index `k`.
pub proof fn lemma_pos_of_index(a: Seq<char>, k: int)
    requires
        distinct(a),
        0 <= k < a.len(),
    ensures
        a.contains(a[k]),
        pos_of(a, a[k]) == k,
{
    assert forall|j: int| 0 <= j < k implies a[j] != a[k] by {}
    lemma_pos_of_first_occurrence(a, a[k], k);
}

/// An ordered, immutable table of characters.  The cipher treats positions in
/// `letters` cyclically; a character's position is the first index at which it
/// occurs.
pub struct Alphabet {
    /// The characters of the alphabet, in cipher order.
    pub letters: Vec<char>,
}

impl Alphabet {
    /// The alphabet is well formed when no character occurs twice, so that
    /// positional lookup is the inverse of indexing.
    pub open spec fn wf(&self) -> bool {
        distinct(self.letters@)
    }

    /// Builds an alphabet from the characters of `letters`, in order.
    pub fn new(letters: &str) -> (r: Alphabet)
        ensures
            r.letters@ == letters@,
    {
        let n: usize = letters.unicode_len();
        let mut v: Vec<char> = Vec::new();
        let mut i: usize = 0;
        while i < n
            invariant
                n == letters@.len(),
                i <= n,
                v@ == letters@.take(i as int),
            decreases n - i,
        {
            let c = letters.get_char(i);
            v.push(c);
            proof {
                assert(v@ =~= letters@.take(i as int + 1));
            }
            i = i + 1;
        }
        proof {
            assert(v@ =~= letters@);
        }
        Alphabet { letters: v }
    }

    /// The number of characters in the alphabet.
    pub fn len(&self) -> (r: usize)
        ensures
            r == self.letters@.len(),
    {
        self.letters.len()
    }

    /// The character at position `i` of the alphabet.
    pub fn char_at(&self, i: usize) -> (r: char)
        requires
            i < self.letters@.len(),
        ensures
            r == self.letters@[i as int],
    {
        self.letters[i]
    }

    /// The first position of `c` in the alphabet, or `None` when `c` is not
    /// one of its characters.
    pub fn position_of(&self, c: char) -> (r: Option<usize>)
        ensures
            match r {
                Some(p) => {
                    &&& self.letters@.contains(c)
                    &&& p == pos_of(self.letters@, c)
                    &&& p < self.letters@.len()
                    &&& self.letters@[p as int] == c
                },
                None => !self.letters@.contains(c),
            },
    {
        let n: usize = self.letters.len();
        let mut i: usize = 0;
        while i < n
            invariant
                n == self.letters@.len(),
                i <= n,
                forall|j: int| 0 <= j < i ==> self.letters@[j] != c,
            decreases n - i,
        {
            if self.letters[i] == c {
                proof {
                    lemma_pos_of_first_occurrence(self.letters@, c, i as int);
                }
                return Some(i);
            }
            i = i + 1;
        }
        None
    }
}

} // verus!
