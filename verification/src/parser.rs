//! Text lookahead cursor: the cursor state machine specialized to character
//! sequences, with line/column tracking.
//!
//! [`Parser`] follows the same dual-producer state machine as
//! [`PeekingIter`](crate::PeekingIter), and in addition tracks a 1-based line
//! number and a 0-based column number. Only committed characters move the
//! position: a committed newline increments the line and resets the column to
//! zero, every other committed character increments the column by one, and
//! peeked-but-uncommitted characters change nothing.

use vstd::prelude::*;

use crate::peek_outcome;
use crate::pos_after_peek;
use crate::producer::Producer;

verus! {

/// The line and column after committing the characters of `s`, one by one,
/// starting from line `line` and column `col`: a newline increments the line
/// and resets the column to zero, any other character increments the column.
pub open spec fn line_col_after(line: int, col: int, s: Seq<char>) -> (int, int)
    decreases s.len(),
{
    if s.len() == 0 {
        (line, col)
    } else {
        let (l0, c0) = line_col_after(line, col, s.drop_last());
        if s.last() == '\n' {
            (l0 + 1, 0)
        } else {
            (l0, c0 + 1)
        }
    }
}

/// Relies on `String::push`: appends exactly the one given character at the
/// end of the string.
#[verifier::external_body]
fn push_char(s: &mut String, c: char)
    ensures
        final(s)@ == old(s)@.push(c),
{
    s.push(c)
}

/// A lookahead cursor over a character producer, tracking the line and
/// column of the last committed character.
///
/// Line numbers start at 1, column numbers at 0; every character other than
/// a newline counts one column, whatever its display width.
pub struct Parser<P: Producer<Elem = char>> {
    iter: P,
    peeking: Option<P>,
    line: u16,
    col: u16,
}

impl<P: Producer<Elem = char>> Parser<P> {
    /// The sequence of characters the base producer will still yield: all
    /// the not-yet-committed characters, in order.
    pub closed spec fn base(&self) -> Seq<char> {
        self.iter.remaining()
    }

    /// Whether a lookahead producer is active (the cursor has diverged).
    pub closed spec fn lookahead_active(&self) -> bool {
        self.peeking is Some
    }

    /// How many characters of the base sequence have already been peeked.
    pub closed spec fn pos(&self) -> nat {
        match self.peeking {
            Some(q) => if q.remaining().len() <= self.iter.remaining().len() {
                (self.iter.remaining().len() - q.remaining().len()) as nat
            } else {
                0
            },
            None => 0,
        }
    }

    /// The current 1-based line number.
    pub closed spec fn cur_line(&self) -> u16 {
        self.line
    }

    /// The current 0-based column number.
    pub closed spec fn cur_col(&self) -> u16 {
        self.col
    }

    /// Well-formedness: the lookahead producer, when present, sits exactly
    /// `pos()` characters ahead of the base producer on the same sequence.
    pub closed spec fn wf(&self) -> bool {
        match self.peeking {
            Some(q) => q.remaining().len() <= self.iter.remaining().len()
                && q.remaining() == self.iter.remaining().skip(self.pos() as int),
            None => true,
        }
    }

    /// Wraps the given producer; the cursor starts aligned, at line 1 and
    /// column 0.
    pub fn new(iter: P) -> (r: Self)
        ensures
            r.wf(),
            !r.lookahead_active(),
            r.pos() == 0,
            r.base() == iter.remaining(),
            r.cur_line() == 1,
            r.cur_col() == 0,
    {
        Parser { iter, peeking: None, line: 1, col: 0 }
    }

    /// Commits one character: discards any lookahead, advances the base
    /// producer one step, and updates the line/column position accordingly.
    ///
    /// The counter the committed character advances must have room left;
    /// that is all the precondition asks beyond well-formedness.
    pub fn next(&mut self) -> (r: Option<char>)
        requires
            old(self).wf(),
            old(self).base().len() > 0 && old(self).base()[0] == '\n' ==> old(self).cur_line()
                < u16::MAX,
            old(self).base().len() > 0 && old(self).base()[0] != '\n' ==> old(self).cur_col()
                < u16::MAX,
        ensures
            final(self).wf(),
            !final(self).lookahead_active(),
            final(self).pos() == 0,
            r == peek_outcome(old(self).base(), 0),
            old(self).base().len() > 0 ==> final(self).base() == old(self).base().drop_first(),
            old(self).base().len() == 0 ==> final(self).base() == old(self).base()
                && final(self).cur_line() == old(self).cur_line()
                && final(self).cur_col() == old(self).cur_col(),
            old(self).base().len() > 0 && old(self).base()[0] == '\n' ==> final(self).cur_line()
                == old(self).cur_line() + 1 && final(self).cur_col() == 0,
            old(self).base().len() > 0 && old(self).base()[0] != '\n' ==> final(self).cur_line()
                == old(self).cur_line() && final(self).cur_col() == old(self).cur_col() + 1,
    {
        self.peeking = None;
        let next = self.iter.produce();
        match next {
            None => {},
            Some(c) => {
                if c == '\n' {
                    self.line = self.line + 1;
                    self.col = 0;
                } else {
                    self.col = self.col + 1;
                }
            },
        }
        next
    }

    /// Peeks one character ahead: returns the next not-yet-peeked character
    /// (or `None` past the end) without advancing the base producer and
    /// without touching the line/column position.
    pub fn peek(&mut self) -> (r: Option<char>)
        requires
            old(self).wf(),
        ensures
            final(self).wf(),
            final(self).lookahead_active(),
            final(self).base() == old(self).base(),
            final(self).cur_line() == old(self).cur_line(),
            final(self).cur_col() == old(self).cur_col(),
            r == peek_outcome(old(self).base(), old(self).pos()),
            final(self).pos() == pos_after_peek(old(self).base(), old(self).pos()),
    {
        if self.peeking.is_none() {
            let dup = self.iter.duplicate();
            self.peeking = Some(dup);
        }
        let mut q = self.peeking.take().unwrap();
        let r = q.produce();
        self.peeking = Some(q);
        proof {
            let b = old(self).base();
            let k = old(self).pos() as int;
            assert(b.skip(0) =~= b);
            if k < b.len() {
                assert(b.skip(k)[0] == b[k]);
                assert(b.skip(k).drop_first() =~= b.skip(k + 1));
            }
        }
        r
    }

    /// Peeks the character `n` positions past the next not-yet-peeked one,
    /// by peeking `n + 1` single steps and keeping the last outcome (`n == 0`
    /// is one plain peek). Returns `None` when the sequence is exhausted
    /// before index `n` is reached, or when `n + 1` would overflow (the
    /// cursor is then left untouched).
    pub fn peek_nth(&mut self, n: usize) -> (r: Option<char>)
        requires
            old(self).wf(),
        ensures
            final(self).wf(),
            final(self).base() == old(self).base(),
            final(self).cur_line() == old(self).cur_line(),
            final(self).cur_col() == old(self).cur_col(),
            n == usize::MAX ==> r is None
                && final(self).pos() == old(self).pos()
                && final(self).lookahead_active() == old(self).lookahead_active(),
            n < usize::MAX ==> r == peek_outcome(old(self).base(), (old(self).pos() + n) as nat),
            n < usize::MAX ==> final(self).lookahead_active(),
            n < usize::MAX ==> final(self).pos() == (
                if old(self).pos() + n + 1 <= old(self).base().len() {
                    (old(self).pos() + n + 1) as nat
                } else {
                    old(self).base().len()
                }
            ),
    {
        if n == usize::MAX {
            return None;
        }
        let mut count: usize = 0;
        let mut last: Option<char> = None;
        while count <= n
            invariant
                self.wf(),
                self.base() == old(self).base(),
                self.cur_line() == old(self).cur_line(),
                self.cur_col() == old(self).cur_col(),
                n < usize::MAX,
                count <= n + 1,
                self.pos() == (
                    if old(self).pos() + count <= old(self).base().len() {
                        (old(self).pos() + count) as nat
                    } else {
                        old(self).base().len()
                    }
                ),
                count > 0 ==> self.lookahead_active(),
                count == 0 ==> self.lookahead_active() == old(self).lookahead_active(),
                count > 0 ==> last == peek_outcome(
                    old(self).base(),
                    (old(self).pos() + count - 1) as nat,
                ),
            decreases n + 1 - count,
        {
            last = self.peek();
            count = count + 1;
        }
        last
    }

    /// Commits everything peeked so far: replaces the base producer with a
    /// duplicate of the lookahead producer. The line/column position does not
    /// move (the characters jumped over were never committed one by one). A
    /// no-op when no lookahead is active.
    pub fn advance_to_peeked(&mut self)
        requires
            old(self).wf(),
        ensures
            final(self).wf(),
            final(self).lookahead_active() == old(self).lookahead_active(),
            final(self).pos() == 0,
            final(self).cur_line() == old(self).cur_line(),
            final(self).cur_col() == old(self).cur_col(),
            old(self).lookahead_active() ==> final(self).base() == old(self).base().skip(
                old(self).pos() as int,
            ),
            !old(self).lookahead_active() ==> final(self).base() == old(self).base(),
    {
        match &self.peeking {
            Some(q) => {
                self.iter = q.duplicate();
                proof {
                    assert(self.iter.remaining().skip(0) =~= self.iter.remaining());
                }
            },
            None => {},
        }
    }

    /// Drops the lookahead producer, so that the next peek starts again from
    /// the base position. (Rewinding could equally re-synchronize the
    /// lookahead producer to the base instead of dropping it; the two
    /// policies cannot be told apart through the public operations, and this
    /// cursor deliberately picks the simpler one.)
    pub fn rewind_peeking(&mut self)
        ensures
            final(self).wf(),
            !final(self).lookahead_active(),
            final(self).pos() == 0,
            final(self).base() == old(self).base(),
            final(self).cur_line() == old(self).cur_line(),
            final(self).cur_col() == old(self).cur_col(),
    {
        self.peeking = None;
    }

    /// Commits and returns the maximal run of not-yet-committed characters
    /// that all satisfy `pred`, in order, as a contiguous text. The predicate
    /// is called exactly once per candidate, in sequence order, until the
    /// first rejection; the cursor is left aligned just past the accepted
    /// run, so that the next peek yields the first rejected character (or
    /// `None` at the end), and the line/column position reflects exactly the
    /// committed run.
    ///
    /// The precondition leaves the line and column counters enough room for
    /// the remaining sequence, since how much of it the predicate accepts is
    /// not known in advance; within that room, no counter can overflow.
    pub fn next_while<F: Fn(char) -> bool>(&mut self, pred: F) -> (r: String)
        requires
            old(self).wf(),
            old(self).cur_line() as int + old(self).base().len() <= u16::MAX as int,
            old(self).cur_col() as int + old(self).base().len() <= u16::MAX as int,
            forall|i: int| 0 <= i < old(self).base().len() ==> call_requires(
                pred,
                (old(self).base()[i],),
            ),
        ensures
            final(self).wf(),
            !final(self).lookahead_active(),
            final(self).pos() == 0,
            r@.len() <= old(self).base().len(),
            r@ == old(self).base().take(r@.len() as int),
            forall|i: int| 0 <= i < r@.len() ==> call_ensures(
                pred,
                (old(self).base()[i],),
                true,
            ),
            r@.len() < old(self).base().len() ==> call_ensures(
                pred,
                (old(self).base()[r@.len() as int],),
                false,
            ),
            final(self).base() == old(self).base().skip(r@.len() as int),
            (final(self).cur_line() as int, final(self).cur_col() as int) == line_col_after(
                old(self).cur_line() as int,
                old(self).cur_col() as int,
                old(self).base().take(r@.len() as int),
            ),
    {
        let mut result = String::new();
        self.rewind_peeking();
        proof {
            assert(old(self).base().skip(0) =~= old(self).base());
            assert(old(self).base().take(0) =~= result@);
        }
        loop
            invariant_except_break
                !self.lookahead_active(),
            invariant
                self.wf(),
                self.cur_line() as int + self.base().len() <= u16::MAX as int,
                self.cur_col() as int + self.base().len() <= u16::MAX as int,
                result@.len() <= old(self).base().len(),
                result@ == old(self).base().take(result@.len() as int),
                self.base() == old(self).base().skip(result@.len() as int),
                (self.cur_line() as int, self.cur_col() as int) == line_col_after(
                    old(self).cur_line() as int,
                    old(self).cur_col() as int,
                    old(self).base().take(result@.len() as int),
                ),
                forall|i: int| 0 <= i < old(self).base().len() ==> call_requires(
                    pred,
                    (old(self).base()[i],),
                ),
                forall|i: int| 0 <= i < result@.len() ==> call_ensures(
                    pred,
                    (old(self).base()[i],),
                    true,
                ),
            ensures
                self.wf(),
                result@.len() <= old(self).base().len(),
                result@ == old(self).base().take(result@.len() as int),
                self.base() == old(self).base().skip(result@.len() as int),
                (self.cur_line() as int, self.cur_col() as int) == line_col_after(
                    old(self).cur_line() as int,
                    old(self).cur_col() as int,
                    old(self).base().take(result@.len() as int),
                ),
                forall|i: int| 0 <= i < result@.len() ==> call_ensures(
                    pred,
                    (old(self).base()[i],),
                    true,
                ),
                result@.len() < old(self).base().len() ==> call_ensures(
                    pred,
                    (old(self).base()[result@.len() as int],),
                    false,
                ),
            decreases self.base().len(),
        {
            let ghost prev = result@.len() as int;
            proof {
                if self.base().len() > 0 {
                    assert(self.base()[0] == old(self).base()[prev]);
                }
            }
            match self.peek() {
                None => {
                    break;
                },
                Some(x) => {
                    if pred(x) {
                        push_char(&mut result, x);
                        self.next();
                        proof {
                            assert(result@ =~= old(self).base().take(result@.len() as int));
                            assert(old(self).base().take(prev + 1).drop_last() =~= old(
                                self,
                            ).base().take(prev));
                            assert(old(self).base().skip(prev).drop_first() =~= old(
                                self,
                            ).base().skip(prev + 1));
                        }
                    } else {
                        break;
                    }
                },
            }
        }
        self.rewind_peeking();
        result
    }

    /// Consumes the cursor, discarding any lookahead, and returns the base
    /// producer in its current position.
    pub fn into_inner(value: Self) -> (r: P)
        ensures
            r.remaining() == value.base(),
    {
        value.iter
    }

    /// Returns the 1-based line number of the position just past the last
    /// committed character.
    pub fn line(&self) -> (r: u16)
        ensures
            r == self.cur_line(),
    {
        self.line
    }

    /// Returns the 0-based column number of the position just past the last
    /// committed character; every character other than a newline counts one
    /// column.
    pub fn col(&self) -> (r: u16)
        ensures
            r == self.cur_col(),
    {
        self.col
    }
}

} // verus!
