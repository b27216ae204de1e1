//! Restartable sequence producers.
//!
//! A [`Producer`] yields elements one at a time, signals end of sequence by
//! returning `None`, and can be duplicated cheaply at its current position.
//! Duplication must reproduce the exact future output of the original, which
//! is what lets a cursor look ahead without buffering: it steps a duplicate
//! instead of storing elements.

use vstd::prelude::*;

verus! {

/// A forward-only, restartable sequence producer.
///
/// `remaining()` is the mathematical model: the sequence of elements this
/// producer will still yield, in order.
pub trait Producer: Sized {
    type Elem;

    /// The sequence of elements this producer will still yield, in order.
    spec fn remaining(&self) -> Seq<Self::Elem>;

    /// Yields the next element, or `None` once the sequence is exhausted.
    fn produce(&mut self) -> (r: Option<Self::Elem>)
        ensures
            old(self).remaining().len() > 0 ==> r == Some(old(self).remaining()[0])
                && final(self).remaining() == old(self).remaining().drop_first(),
            old(self).remaining().len() == 0 ==> r is None
                && final(self).remaining() == old(self).remaining(),
    ;

    /// Duplicates the producer at its current position: the copy yields
    /// exactly the same remaining elements as the original.
    fn duplicate(&self) -> (r: Self)
        ensures
            r.remaining() == self.remaining(),
    ;
}

/// The sequence of integers from `lo` to `hi`, both inclusive; empty when
/// `lo > hi`.
pub open spec fn int_range_seq(lo: u64, hi: u64) -> Seq<u64> {
    if lo > hi {
        Seq::empty()
    } else {
        Seq::new((hi - lo + 1) as nat, |i: int| (lo + i) as u64)
    }
}

/// A producer that yields the integers of an inclusive range in order.
pub struct IntRange {
    lo: u64,
    hi: u64,
    done: bool,
}

impl IntRange {
    /// Wraps the inclusive range `lo..=hi` (empty when `lo > hi`).
    pub fn new(lo: u64, hi: u64) -> (r: IntRange)
        ensures
            r.remaining() == int_range_seq(lo, hi),
    {
        IntRange { lo, hi, done: false }
    }
}

impl Producer for IntRange {
    type Elem = u64;

    closed spec fn remaining(&self) -> Seq<u64> {
        if self.done {
            Seq::empty()
        } else {
            int_range_seq(self.lo, self.hi)
        }
    }

    fn produce(&mut self) -> (r: Option<u64>) {
        if self.done || self.lo > self.hi {
            self.done = true;
            None
        } else {
            let v = self.lo;
            if self.lo == self.hi {
                self.done = true;
            } else {
                self.lo = self.lo + 1;
            }
            proof {
                assert(self.remaining() =~= old(self).remaining().drop_first());
            }
            Some(v)
        }
    }

    fn duplicate(&self) -> (r: IntRange) {
        IntRange { lo: self.lo, hi: self.hi, done: self.done }
    }
}

/// A producer that yields the characters of a text, in order.
pub struct CharSource {
    text: Vec<char>,
    pos: usize,
}

impl CharSource {
    /// Wraps the given characters; the producer yields them front to back.
    pub fn new(text: Vec<char>) -> (r: CharSource)
        ensures
            r.remaining() == text@,
    {
        let r = CharSource { text, pos: 0 };
        proof {
            assert(r.remaining() =~= r.text@);
        }
        r
    }
}

impl Producer for CharSource {
    type Elem = char;

    closed spec fn remaining(&self) -> Seq<char> {
        if self.pos <= self.text@.len() {
            self.text@.skip(self.pos as int)
        } else {
            Seq::empty()
        }
    }

    fn produce(&mut self) -> (r: Option<char>) {
        if self.pos < self.text.len() {
            let c = self.text[self.pos];
            self.pos = self.pos + 1;
            proof {
                assert(old(self).remaining()[0] == c);
                assert(self.remaining() =~= old(self).remaining().drop_first());
            }
            Some(c)
        } else {
            None
        }
    }

    fn duplicate(&self) -> (r: CharSource) {
        let copy = CharSource { text: self.text.clone(), pos: self.pos };
        proof {
            assert(copy.text@ =~= self.text@) by {
                assert forall|i: int| 0 <= i < self.text@.len() implies copy.text@[i]
                    == self.text@[i] by {
                    assert(vstd::pervasive::cloned::<char>(self.text@[i], copy.text@[i]));
                }
            }
        }
        copy
    }
}

} // verus!
