//! The byte cursor that every decoder reads from.

use itertools::Itertools;
use vstd::prelude::*;
use vstd::slice::{slice_subrange, slice_to_vec};

verus! {

/// A cursor over the bytes of one input. It hands the bytes out front to
/// back and counts how many it has handed out; that count is the offset
/// reported with every decoding error.
pub struct Lexer {
    read_bytes: usize,
    bytes: Vec<u8>,
}

/// `Itertools::next_tuple` on an iterator over `rest`, asked for a pair,
/// together with the number of bytes that the iterator holds afterwards.
/// The pair is the first two bytes of `rest` where it holds at least two,
/// and the iterator is then two bytes further. Where `rest` holds fewer,
/// there is no pair and the iterator is used up: the call takes one byte
/// for each place of the pair, in order, until one is missing.
#[verifier::external_body]
fn leading_pair(rest: &[u8]) -> (taken: (Option<(u8, u8)>, usize))
    ensures
        taken.0 == (if rest@.len() >= 2 {
            Some((rest@[0], rest@[1]))
        } else {
            None
        }),
        taken.1 == (if rest@.len() >= 2 {
            rest@.len() - 2
        } else {
            0
        }),
{
    let mut bytes = rest.iter().copied();
    let pair = bytes.next_tuple();
    (pair, bytes.len())
}

impl Lexer {
    #[verifier::type_invariant]
    spec fn within_input(self) -> bool {
        self.read_bytes <= self.bytes@.len()
    }

    /// Every byte of the input, consumed or not.
    pub closed spec fn input(&self) -> Seq<u8> {
        self.bytes@
    }

    /// How many bytes have been consumed.
    pub closed spec fn position(&self) -> int {
        self.read_bytes as int
    }

    /// The number of bytes consumed is never negative.
    pub proof fn lemma_position_is_natural(&self)
        ensures
            0 <= self.position(),
    {
    }

    /// A cursor at the start of `bytes`.
    pub fn new(bytes: Vec<u8>) -> (lexer: Self)
        ensures
            lexer.input() == bytes@,
            lexer.position() == 0,
    {
        Lexer { read_bytes: 0, bytes }
    }

    /// The number of bytes consumed so far.
    pub fn bytes_read(&self) -> (n: u64)
        ensures
            n == self.position(),
            0 <= self.position() <= self.input().len(),
    {
        proof {
            use_type_invariant(self);
        }
        self.read_bytes as u64
    }

    /// Consumes and returns the next byte, or returns `None` and leaves the
    /// cursor where it is when the input is exhausted.
    pub fn next(&mut self) -> (byte: Option<u8>)
        ensures
            final(self).input() == old(self).input(),
            0 <= old(self).position() <= old(self).input().len(),
            byte == (if old(self).position() < old(self).input().len() {
                Some(old(self).input()[old(self).position()])
            } else {
                None
            }),
            final(self).position() == old(self).position() + (if byte.is_some() {
                1int
            } else {
                0int
            }),
    {
        proof {
            use_type_invariant(&*self);
        }
        if self.read_bytes < self.bytes.len() {
            let b: u8 = self.bytes[self.read_bytes];
            self.read_bytes = self.read_bytes + 1;
            Some(b)
        } else {
            None
        }
    }

    /// Consumes the next `n` bytes, or all that are left when fewer than `n`
    /// are, and returns them in order.
    pub fn take(&mut self, n: usize) -> (run: Vec<u8>)
        ensures
            final(self).input() == old(self).input(),
            0 <= old(self).position() <= final(self).position() <= old(self).input().len(),
            final(self).position() == (if old(self).position() + n <= old(self).input().len() {
                old(self).position() + n
            } else {
                old(self).input().len() as int
            }),
            run@ == old(self).input().subrange(old(self).position(), final(self).position()),
    {
        proof {
            use_type_invariant(&*self);
        }
        let start: usize = self.read_bytes;
        let left: usize = self.bytes.len() - start;
        let end: usize = if n <= left {
            start + n
        } else {
            self.bytes.len()
        };
        let run = slice_to_vec(slice_subrange(self.bytes.as_slice(), start, end));
        self.read_bytes = end;
        run
    }

    /// Consumes the next two bytes and returns them as a pair. Where fewer
    /// than two bytes are left, consumes those and returns `None`.
    pub fn next_tuple(&mut self) -> (pair: Option<(u8, u8)>)
        ensures
            final(self).input() == old(self).input(),
            0 <= old(self).position() <= final(self).position() <= old(self).input().len(),
            pair == (if old(self).position() + 2 <= old(self).input().len() {
                Some(
                    (
                        old(self).input()[old(self).position()],
                        old(self).input()[old(self).position() + 1],
                    ),
                )
            } else {
                None
            }),
            final(self).position() == (if pair.is_some() {
                old(self).position() + 2
            } else {
                old(self).input().len() as int
            }),
    {
        proof {
            use_type_invariant(&*self);
        }
        let start: usize = self.read_bytes;
        let (pair, left) = leading_pair(
            slice_subrange(self.bytes.as_slice(), start, self.bytes.len()),
        );
        self.read_bytes = self.bytes.len() - left;
        pair
    }

    /// The number of bytes that are left to be consumed. The cursor stays
    /// where it is.
    pub fn remaining(&self) -> (left: usize)
        ensures
            left == self.input().len() - self.position(),
            0 <= self.position() <= self.input().len(),
    {
        proof {
            use_type_invariant(self);
        }
        self.bytes.len() - self.read_bytes
    }
}

} // verus!
