//! A lookahead-enabled sequence cursor.
//!
//! [`PeekingIter`] wraps a restartable sequence producer and lets a consumer
//! peek arbitrarily far ahead without losing its place, then either commit to
//! the peeked position or discard the lookahead. [`parser::Parser`] is the
//! same state machine specialized to character sequences, tracking line and
//! column as elements are committed.

use vstd::prelude::*;

pub mod parser;
pub mod producer;

use producer::Producer;

verus! {

/// The element a single peek yields when the cursor's base sequence is
/// `base` and `pos` elements have already been peeked: the next unpeeked
/// element, or `None` past the end.
pub open spec fn peek_outcome<T>(base: Seq<T>, pos: nat) -> Option<T> {
    if pos < base.len() {
        Some(base[pos as int])
    } else {
        None
    }
}

/// The lookahead position after a single peek: one further in, until the end
/// of the base sequence is reached.
pub open spec fn pos_after_peek<T>(base: Seq<T>, pos: nat) -> nat {
    if pos < base.len() {
        pos + 1
    } else {
        pos
    }
}

/// The lookahead position after `m` single peeks in a row from position
/// `pos`, with no commit in between.
pub open spec fn pos_after_peeks<T>(base: Seq<T>, pos: nat, m: nat) -> nat
    decreases m,
{
    if m == 0 {
        pos
    } else {
        pos_after_peek(base, pos_after_peeks(base, pos, (m - 1) as nat))
    }
}

/// Law: after `k` elements of a sequence `s` have been committed — the base
/// sequence is then `s.skip(k)`, as each commit drops exactly the first
/// element — a peek from the aligned cursor yields `s[k]` exactly when
/// `k < s.len()`, and end-of-sequence otherwise.
pub proof fn lemma_peek_after_commits<T>(s: Seq<T>, k: nat)
    requires
        k <= s.len(),
    ensures
        k < s.len() ==> s.skip(k as int).drop_first() == s.skip(k as int + 1),
        peek_outcome(s.skip(k as int), 0) == (
            if k < s.len() {
                Some(s[k as int])
            } else {
                None::<T>
            }
        ),
{
    if k < s.len() {
        assert(s.skip(k as int).drop_first() =~= s.skip(k as int + 1));
        assert(s.skip(k as int)[0] == s[k as int]);
    }
}

/// Law: peeks in a row, with no commit in between, walk forward one element
/// at a time: starting from lookahead position `k`, the peek taken after `j`
/// earlier peeks yields `s[k + j]` whenever that index is in range, so `m`
/// consecutive peeks yield `s[k]`, `s[k + 1]`, …, `s[k + m - 1]` in order.
pub proof fn lemma_repeated_peeks<T>(s: Seq<T>, k: nat, j: nat)
    requires
        k + j < s.len(),
    ensures
        pos_after_peeks(s, k, j) == k + j,
        peek_outcome(s, pos_after_peeks(s, k, j)) == Some(s[(k + j) as int]),
    decreases j,
{
    if j > 0 {
        lemma_repeated_peeks(s, k, (j - 1) as nat);
    }
}

/// The lookahead position after `m` peeks, in closed form: it moves forward
/// `m` steps but never past the end of the base sequence.
proof fn lemma_pos_after_peeks_value<T>(s: Seq<T>, k: nat, m: nat)
    requires
        k <= s.len(),
    ensures
        pos_after_peeks(s, k, m) == (
            if k + m <= s.len() {
                (k + m) as nat
            } else {
                s.len()
            }
        ),
    decreases m,
{
    if m > 0 {
        lemma_pos_after_peeks_value(s, k, (m - 1) as nat);
    }
}

/// Law: `peek_nth(n)` agrees with calling `peek` `n + 1` times and keeping
/// only the last outcome: from lookahead position `k`, the last of `n + 1`
/// single peeks yields `peek_outcome(s, k + n)` — exactly what `peek_nth(n)`
/// ensures — and leaves the lookahead position where `peek_nth(n)` leaves
/// it.
pub proof fn lemma_peek_nth_matches_repeated_peeks<T>(s: Seq<T>, k: nat, n: nat)
    requires
        k <= s.len(),
    ensures
        peek_outcome(s, pos_after_peeks(s, k, n)) == peek_outcome(s, (k + n) as nat),
        pos_after_peeks(s, k, (n + 1) as nat) == (
            if k + n + 1 <= s.len() {
                (k + n + 1) as nat
            } else {
                s.len()
            }
        ),
{
    lemma_pos_after_peeks_value(s, k, n);
    lemma_pos_after_peeks_value(s, k, (n + 1) as nat);
}

/// Law: committing right after `advance_to_peeked` yields exactly the next
/// element in peek order: with `k` elements peeked, `advance_to_peeked`
/// turns the base sequence into `s.skip(k)`, whose first element is the one
/// a peek at position `k` would have yielded — peeking, advancing and then
/// committing neither skips nor repeats an element.
pub proof fn lemma_advance_then_commit<T>(s: Seq<T>, k: nat)
    requires
        k <= s.len(),
    ensures
        peek_outcome(s.skip(k as int), 0) == peek_outcome(s, k),
{
    if k < s.len() {
        assert(s.skip(k as int)[0] == s[k as int]);
    }
}

/// A cursor over a restartable sequence producer that supports peeking
/// arbitrarily far ahead.
///
/// The base producer is the authoritative position; every committed element
/// comes from it. The lookahead producer, when present, is an independent
/// duplicate that has been stepped past the elements already peeked; it is
/// always at or ahead of the base, never behind it. No peeked element is
/// buffered: lookahead is re-derived by stepping the duplicate.
pub struct PeekingIter<P: Producer> {
    iter: P,
    peeking: Option<P>,
}

impl<P: Producer> PeekingIter<P> {
    /// The sequence of elements the base producer will still yield: all the
    /// not-yet-committed elements, in order.
    pub closed spec fn base(&self) -> Seq<P::Elem> {
        self.iter.remaining()
    }

    /// Whether a lookahead producer is active (the cursor has diverged).
    pub closed spec fn lookahead_active(&self) -> bool {
        self.peeking is Some
    }

    /// How many elements of the base sequence have already been peeked: the
    /// lead of the lookahead producer over the base producer. Zero when no
    /// lookahead is active.
    pub closed spec fn pos(&self) -> nat {
        match self.peeking {
            Some(q) => if q.remaining().len() <= self.iter.remaining().len() {
                (self.iter.remaining().len() - q.remaining().len()) as nat
            } else {
                0
            },
            None => 0,
        }
    }

    /// Well-formedness: the lookahead producer, when present, sits exactly
    /// `pos()` elements ahead of the base producer on the same sequence.
    pub closed spec fn wf(&self) -> bool {
        match self.peeking {
            Some(q) => q.remaining().len() <= self.iter.remaining().len()
                && q.remaining() == self.iter.remaining().skip(self.pos() as int),
            None => true,
        }
    }

    /// Wraps the given producer; the cursor starts aligned.
    pub fn new(iter: P) -> (r: Self)
        ensures
            r.wf(),
            !r.lookahead_active(),
            r.pos() == 0,
            r.base() == iter.remaining(),
    {
        PeekingIter { iter, peeking: None }
    }

    /// Commits one element: discards any lookahead and advances the base
    /// producer one step, returning its element or `None` at the end.
    pub fn next(&mut self) -> (r: Option<P::Elem>)
        requires
            old(self).wf(),
        ensures
            final(self).wf(),
            !final(self).lookahead_active(),
            final(self).pos() == 0,
            r == peek_outcome(old(self).base(), 0),
            old(self).base().len() > 0 ==> final(self).base() == old(self).base().drop_first(),
            old(self).base().len() == 0 ==> final(self).base() == old(self).base(),
    {
        self.peeking = None;
        self.iter.produce()
    }

    /// Peeks one element ahead: returns the next not-yet-peeked element (or
    /// `None` past the end) without advancing the base producer. The first
    /// peek after a commit or after creation duplicates the base producer;
    /// each further peek steps the duplicate one element further.
    pub fn peek(&mut self) -> (r: Option<P::Elem>)
        requires
            old(self).wf(),
        ensures
            final(self).wf(),
            final(self).lookahead_active(),
            final(self).base() == old(self).base(),
            r == peek_outcome(old(self).base(), old(self).pos()),
            final(self).pos() == pos_after_peek(old(self).base(), old(self).pos()),
    {
        if self.peeking.is_none() {
            let dup = self.iter.duplicate();
            self.peeking = Some(dup);
        }
        let mut q = self.peeking.take().unwrap();
        let r = q.produce();
        self.peeking = Some(q);
        proof {
            let b = old(self).base();
            let k = old(self).pos() as int;
            assert(b.skip(0) =~= b);
            if k < b.len() {
                assert(b.skip(k)[0] == b[k]);
                assert(b.skip(k).drop_first() =~= b.skip(k + 1));
            }
        }
        r
    }

    /// Peeks the element `n` positions past the next not-yet-peeked one, by
    /// peeking `n + 1` single steps and keeping the last outcome (`n == 0` is
    /// one plain peek). Returns `None` when the sequence is exhausted before
    /// index `n` is reached, or when `n + 1` would overflow (the cursor is
    /// then left untouched).
    pub fn peek_nth(&mut self, n: usize) -> (r: Option<P::Elem>)
        requires
            old(self).wf(),
        ensures
            final(self).wf(),
            final(self).base() == old(self).base(),
            n == usize::MAX ==> r is None
                && final(self).pos() == old(self).pos()
                && final(self).lookahead_active() == old(self).lookahead_active(),
            n < usize::MAX ==> r == peek_outcome(old(self).base(), (old(self).pos() + n) as nat),
            n < usize::MAX ==> final(self).lookahead_active(),
            n < usize::MAX ==> final(self).pos() == (
                if old(self).pos() + n + 1 <= old(self).base().len() {
                    (old(self).pos() + n + 1) as nat
                } else {
                    old(self).base().len()
                }
            ),
    {
        if n == usize::MAX {
            return None;
        }
        let mut count: usize = 0;
        let mut last: Option<P::Elem> = None;
        while count <= n
            invariant
                self.wf(),
                self.base() == old(self).base(),
                n < usize::MAX,
                count <= n + 1,
                self.pos() == (
                    if old(self).pos() + count <= old(self).base().len() {
                        (old(self).pos() + count) as nat
                    } else {
                        old(self).base().len()
                    }
                ),
                count > 0 ==> self.lookahead_active(),
                count == 0 ==> self.lookahead_active() == old(self).lookahead_active(),
                count > 0 ==> last == peek_outcome(
                    old(self).base(),
                    (old(self).pos() + count - 1) as nat,
                ),
            decreases n + 1 - count,
        {
            last = self.peek();
            count = count + 1;
        }
        last
    }

    /// Commits everything peeked so far: replaces the base producer with a
    /// duplicate of the lookahead producer, so that the peeked elements are
    /// consumed without being yielded again one by one. A no-op when no
    /// lookahead is active.
    pub fn advance_to_peeked(&mut self)
        requires
            old(self).wf(),
        ensures
            final(self).wf(),
            final(self).lookahead_active() == old(self).lookahead_active(),
            final(self).pos() == 0,
            old(self).lookahead_active() ==> final(self).base()
                == old(self).base().skip(old(self).pos() as int),
            !old(self).lookahead_active() ==> final(self).base() == old(self).base(),
    {
        match &self.peeking {
            Some(q) => {
                self.iter = q.duplicate();
                proof {
                    assert(self.iter.remaining().skip(0) =~= self.iter.remaining());
                }
            },
            None => {},
        }
    }

    /// Drops the lookahead producer, so that the next peek starts again from
    /// the base position. (Rewinding could equally re-synchronize the
    /// lookahead producer to the base instead of dropping it; the two
    /// policies cannot be told apart through the public operations, and this
    /// cursor deliberately picks the simpler one.)
    pub fn rewind_peeking(&mut self)
        ensures
            final(self).wf(),
            !final(self).lookahead_active(),
            final(self).pos() == 0,
            final(self).base() == old(self).base(),
    {
        self.peeking = None;
    }

    /// Commits and returns the maximal prefix of not-yet-committed elements
    /// that all satisfy `pred`, in order. The predicate is called exactly once
    /// per candidate, in sequence order, until the first rejection; the cursor
    /// is left aligned just past the accepted run, so that the next peek
    /// yields the first rejected element (or `None` at the end).
    pub fn next_while<F: Fn(&P::Elem) -> bool>(&mut self, pred: F) -> (r: Vec<P::Elem>)
        requires
            old(self).wf(),
            forall|i: int| 0 <= i < old(self).base().len() ==> call_requires(
                pred,
                (&old(self).base()[i],),
            ),
        ensures
            final(self).wf(),
            !final(self).lookahead_active(),
            final(self).pos() == 0,
            r@.len() <= old(self).base().len(),
            r@ == old(self).base().take(r@.len() as int),
            forall|i: int| 0 <= i < r@.len() ==> call_ensures(
                pred,
                (&old(self).base()[i],),
                true,
            ),
            r@.len() < old(self).base().len() ==> call_ensures(
                pred,
                (&old(self).base()[r@.len() as int],),
                false,
            ),
            final(self).base() == old(self).base().skip(r@.len() as int),
    {
        let mut result: Vec<P::Elem> = Vec::new();
        self.rewind_peeking();
        proof {
            assert(old(self).base().skip(0) =~= old(self).base());
            assert(old(self).base().take(0) =~= result@);
        }
        loop
            invariant_except_break
                !self.lookahead_active(),
            invariant
                self.wf(),
                result@.len() <= old(self).base().len(),
                result@ == old(self).base().take(result@.len() as int),
                self.base() == old(self).base().skip(result@.len() as int),
                forall|i: int| 0 <= i < old(self).base().len() ==> call_requires(
                    pred,
                    (&old(self).base()[i],),
                ),
                forall|i: int| 0 <= i < result@.len() ==> call_ensures(
                    pred,
                    (&old(self).base()[i],),
                    true,
                ),
            ensures
                self.wf(),
                result@.len() <= old(self).base().len(),
                result@ == old(self).base().take(result@.len() as int),
                self.base() == old(self).base().skip(result@.len() as int),
                forall|i: int| 0 <= i < result@.len() ==> call_ensures(
                    pred,
                    (&old(self).base()[i],),
                    true,
                ),
                result@.len() < old(self).base().len() ==> call_ensures(
                    pred,
                    (&old(self).base()[result@.len() as int],),
                    false,
                ),
            decreases self.base().len(),
        {
            let ghost prev = result@.len() as int;
            proof {
                if self.base().len() > 0 {
                    assert(self.base()[0] == old(self).base()[prev]);
                }
            }
            match self.peek() {
                None => {
                    break;
                },
                Some(x) => {
                    if pred(&x) {
                        result.push(x);
                        self.next();
                        proof {
                            assert(result@ =~= old(self).base().take(result@.len() as int));
                            assert(old(self).base().skip(prev).drop_first() =~= old(
                                self,
                            ).base().skip(prev + 1));
                        }
                    } else {
                        break;
                    }
                },
            }
        }
        self.rewind_peeking();
        result
    }

    /// Consumes the cursor, discarding any lookahead, and returns the base
    /// producer in its current position.
    pub fn into_inner(value: Self) -> (r: P)
        ensures
            r.remaining() == value.base(),
    {
        value.iter
    }
}

/// Law: wrapping a producer and unwrapping it with no operation in between
/// round-trips. `new` makes the cursor's base sequence the producer's
/// remaining sequence and `into_inner` returns a producer whose remaining
/// sequence is the base sequence, so the producer handed back yields exactly
/// the elements the wrapped one would have yielded.
pub proof fn lemma_wrap_unwrap_round_trip<P: Producer>(p: P, c: PeekingIter<P>, q: P)
    requires
        c.base() == p.remaining(),
        q.remaining() == c.base(),
    ensures
        q.remaining() == p.remaining(),
{
}

} // verus!
