//! Serial numbers that never run out.
//!
//! A serial number is a natural number written in words of 64 bits, the
//! lowest word first. Taking the next one adds a word when all are full, so
//! there is always a next one, and it differs from every one before.

use vstd::prelude::*;

verus! {

/// The number that a sequence of words stands for, lowest word first.
pub open spec fn value(words: Seq<u64>) -> nat
    decreases words.len(),
{
    if words.len() == 0 {
        0
    } else {
        (words[0] + 0x1_0000_0000_0000_0000 * value(words.skip(1))) as nat
    }
}

/// The words of the next number.
pub open spec fn succ(words: Seq<u64>) -> Seq<u64>
    decreases words.len(),
{
    if words.len() == 0 {
        seq![1u64]
    } else if words[0] < u64::MAX {
        words.update(0, (words[0] + 1) as u64)
    } else {
        seq![0u64] + succ(words.skip(1))
    }
}

/// The next number is one more.
pub proof fn lemma_succ(words: Seq<u64>)
    ensures
        value(succ(words)) == value(words) + 1,
    decreases words.len(),
{
    let next = succ(words);
    if words.len() == 0 {
        assert(next.skip(1) =~= Seq::<u64>::empty());
        assert(value(next.skip(1)) == 0);
    } else if words[0] < u64::MAX {
        assert(next.skip(1) =~= words.skip(1));
    } else {
        lemma_succ(words.skip(1));
        assert(next.skip(1) =~= succ(words.skip(1)));
    }
}

/// Whether a number is written without a zero in front: its highest
/// word, if it has one, is not zero.
pub open spec fn is_canonical(words: Seq<u64>) -> bool {
    words.len() == 0 || words.last() != 0
}

/// The next number is written without a zero in front where the number
/// is.
pub proof fn lemma_succ_canonical(words: Seq<u64>)
    requires
        is_canonical(words),
    ensures
        is_canonical(succ(words)),
    decreases words.len(),
{
    if words.len() > 0 && words[0] == u64::MAX {
        let rest = words.skip(1);
        if rest.len() > 0 {
            assert(rest.last() == words.last());
        }
        lemma_succ_canonical(rest);
        let next = succ(words);
        assert(next.last() == succ(rest).last());
    }
}

/// A number with words that is written without a zero in front is not
/// zero.
pub proof fn lemma_positive(words: Seq<u64>)
    requires
        is_canonical(words),
        words.len() > 0,
    ensures
        value(words) > 0,
    decreases words.len(),
{
    let rest = words.skip(1);
    if rest.len() > 0 {
        assert(rest.last() == words.last());
        lemma_positive(rest);
    }
}

/// Two numbers that are written without a zero in front are the same
/// number only where they have the same words.
pub proof fn lemma_same_value(a: Seq<u64>, b: Seq<u64>)
    requires
        is_canonical(a),
        is_canonical(b),
        value(a) == value(b),
    ensures
        a == b,
    decreases a.len(),
{
    if a.len() == 0 {
        if b.len() > 0 {
            lemma_positive(b);
        }
        assert(a =~= b);
    } else {
        lemma_positive(a);
        if b.len() == 0 {
            assert(value(b) == 0);
        }
        let ra = a.skip(1);
        let rb = b.skip(1);
        if ra.len() > 0 {
            assert(ra.last() == a.last());
        }
        if rb.len() > 0 {
            assert(rb.last() == b.last());
        }
        lemma_same_value(ra, rb);
        assert(a =~= seq![a[0]] + ra);
        assert(b =~= seq![b[0]] + rb);
    }
}

/// A serial number.
#[derive(Debug, PartialEq, Eq)]
pub struct Serial {
    words: Vec<u64>,
}

impl View for Serial {
    type V = nat;

    closed spec fn view(&self) -> nat {
        value(self.words@)
    }
}

impl Serial {
    #[verifier::type_invariant]
    spec fn inv(self) -> bool {
        is_canonical(self.words@)
    }

    /// The serial number zero.
    pub fn zero() -> (out: Self)
        ensures
            out@ == 0,
    {
        Serial { words: Vec::new() }
    }

    /// The serial number `n`.
    pub fn nth(n: u64) -> (out: Self)
        ensures
            out@ == n,
    {
        let mut words: Vec<u64> = Vec::new();
        if n > 0 {
            words.push(n);
            proof {
                assert(words@ =~= seq![n]);
                assert(words@.skip(1) =~= Seq::<u64>::empty());
                assert(value(words@.skip(1)) == 0);
            }
        }
        Serial { words }
    }

    /// The serial number after this one.
    pub fn next(&self) -> (out: Self)
        ensures
            out@ == self@ + 1,
    {
        proof {
            use_type_invariant(self);
            lemma_succ(self.words@);
            lemma_succ_canonical(self.words@);
        }
        let mut words: Vec<u64> = Vec::new();
        let mut i: usize = 0;
        proof {
            assert(self.words@.skip(0) =~= self.words@);
            assert(words@ + succ(self.words@) =~= succ(self.words@));
        }
        while i < self.words.len() && self.words[i] == u64::MAX
            invariant
                i <= self.words.len(),
                words@.len() == i,
                succ(self.words@) == words@ + succ(self.words@.skip(i as int)),
            decreases self.words.len() - i,
        {
            let ghost before = words@;
            let ghost rest = self.words@.skip(i as int);
            words.push(0);
            proof {
                assert(rest[0] == self.words@[i as int]);
                assert(rest.skip(1) =~= self.words@.skip(i + 1));
                assert(words@ + succ(self.words@.skip(i + 1)) =~= before + (seq![0u64] + succ(
                    rest.skip(1),
                )));
            }
            i += 1;
        }
        if i == self.words.len() {
            let ghost before = words@;
            words.push(1);
            proof {
                assert(self.words@.skip(i as int) =~= Seq::<u64>::empty());
                assert(words@ =~= before + seq![1u64]);
            }
        } else {
            let ghost before = words@;
            let ghost rest = self.words@.skip(i as int);
            let ghost done = before + rest.update(0, (rest[0] + 1) as u64);
            proof {
                assert(rest[0] == self.words@[i as int]);
            }
            words.push(self.words[i] + 1);
            i += 1;
            proof {
                assert(words@ =~= done.take(i as int));
                assert forall|k: int| i <= k < self.words.len() implies done[k]
                    == self.words@[k] by {
                    assert(rest[k - (i - 1)] == self.words@[k]);
                }
            }
            while i < self.words.len()
                invariant
                    0 < i <= self.words.len(),
                    done.len() == self.words.len(),
                    words@ == done.take(i as int),
                    forall|k: int| i <= k < self.words.len() ==> done[k] == self.words@[k],
                decreases self.words.len() - i,
            {
                words.push(self.words[i]);
                i += 1;
                assert(words@ =~= done.take(i as int));
            }
            proof {
                assert(done.take(done.len() as int) =~= done);
            }
        }
        Serial { words }
    }

    /// A copy of the serial number.
    pub fn copy(&self) -> (out: Self)
        ensures
            out@ == self@,
    {
        proof {
            use_type_invariant(self);
        }
        let mut words: Vec<u64> = Vec::new();
        let mut i: usize = 0;
        while i < self.words.len()
            invariant
                i <= self.words.len(),
                words@ == self.words@.take(i as int),
            decreases self.words.len() - i,
        {
            words.push(self.words[i]);
            i += 1;
            assert(words@ =~= self.words@.take(i as int));
        }
        proof {
            assert(self.words@.take(self.words.len() as int) =~= self.words@);
        }
        Serial { words }
    }

    /// Whether two serial numbers are the same.
    pub fn same(&self, other: &Serial) -> (out: bool)
        ensures
            out == (self@ == other@),
    {
        proof {
            use_type_invariant(self);
            use_type_invariant(other);
            if self@ == other@ {
                lemma_same_value(self.words@, other.words@);
            }
        }
        if self.words.len() != other.words.len() {
            return false;
        }
        let mut i: usize = 0;
        while i < self.words.len()
            invariant
                i <= self.words.len(),
                self.words.len() == other.words.len(),
                self@ == other@ ==> self.words@ == other.words@,
                forall|k: int| 0 <= k < i ==> self.words@[k] == other.words@[k],
            decreases self.words.len() - i,
        {
            if self.words[i] != other.words[i] {
                return false;
            }
            i += 1;
        }
        proof {
            assert(self.words@ =~= other.words@);
        }
        true
    }
}

impl Clone for Serial {
    fn clone(&self) -> (out: Self)
        ensures
            out@ == self@,
    {
        self.copy()
    }
}

} // verus!
