//! The byte sources a decoding stream can read from.
//!
//! A source is any sequential, fallible byte producer. Its model is the
//! sequence of bytes it still has to offer; pulling a byte either hands out
//! the front of that sequence, reports exhaustion, or fails with an I/O
//! error that consumes nothing of the model.

use vstd::prelude::*;

verus! {

/// What one pull from a byte source yields: the next byte, exhaustion, or an
/// I/O failure.
pub enum NextByte {
    More(u8),
    End,
    Fail(std::io::Error),
}

/// A sequential, fallible byte producer. `remaining` is the model: the bytes
/// the source still has to offer, in order. Each byte is handed out exactly
/// once; an I/O failure consumes nothing of the model, and what a retry
/// after it yields is the source's own affair.
pub trait ByteSource {
    /// The bytes still to be offered. A source written outside the library
    /// inherits the empty model, of which `next_byte`'s contract lets it
    /// honestly report only exhaustion or failure; nothing is claimed about
    /// what such a source decodes to.
    open spec fn remaining(&self) -> Seq<u8> {
        Seq::<u8>::empty()
    }

    /// Whether the source promises never to fail. A source that does not say
    /// so is treated as fallible.
    open spec fn infallible(&self) -> bool {
        false
    }

    fn next_byte(&mut self) -> (r: NextByte)
        ensures
            match r {
                NextByte::More(b) => old(self).remaining().len() > 0 && b == old(
                    self,
                ).remaining()[0] && final (self).remaining() == old(self).remaining().drop_first(),
                NextByte::End => old(self).remaining().len() == 0 && final (self).remaining()
                    == old(self).remaining(),
                NextByte::Fail(_) => final (self).remaining() == old(self).remaining(),
            },
            old(self).infallible() ==> (!(r is Fail) && final (self).infallible()),
    ;
}

/// A byte source over bytes already in memory. It never fails.
pub struct SliceSource {
    bytes: Vec<u8>,
    pos: usize,
}

impl SliceSource {
    /// A source that yields exactly the given bytes, in order.
    pub fn new(bytes: Vec<u8>) -> (s: SliceSource)
        ensures
            s.remaining() == bytes@,
    {
        SliceSource { bytes, pos: 0 }
    }
}

impl ByteSource for SliceSource {
    closed spec fn remaining(&self) -> Seq<u8> {
        if self.pos <= self.bytes.len() {
            self.bytes@.skip(self.pos as int)
        } else {
            Seq::<u8>::empty()
        }
    }

    open spec fn infallible(&self) -> bool {
        true
    }

    fn next_byte(&mut self) -> (r: NextByte) {
        if self.pos < self.bytes.len() {
            let b = self.bytes[self.pos];
            self.pos = self.pos + 1;
            proof {
                assert(self.remaining() =~= old(self).remaining().drop_first());
            }
            NextByte::More(b)
        } else {
            NextByte::End
        }
    }
}

/// Relies on `std::io::Error::new` to build an I/O error value standing for
/// a failed read.
#[verifier::external_body]
fn fresh_io_error() -> std::io::Error {
    std::io::Error::new(std::io::ErrorKind::Other, "injected read failure")
}

/// A byte source over bytes in memory that reports one transient I/O failure
/// just before the byte at `fail_at` (if that position is reached), then
/// carries on. It exercises the error paths of a stream deterministically.
pub struct FaultySource {
    bytes: Vec<u8>,
    pos: usize,
    fail_at: usize,
    failed: bool,
}

impl FaultySource {
    /// A source that yields the given bytes but fails once, just before
    /// position `fail_at`.
    pub fn new(bytes: Vec<u8>, fail_at: usize) -> (s: FaultySource)
        ensures
            s.remaining() == bytes@,
    {
        FaultySource { bytes, pos: 0, fail_at, failed: false }
    }
}

impl ByteSource for FaultySource {
    closed spec fn remaining(&self) -> Seq<u8> {
        if self.pos <= self.bytes.len() {
            self.bytes@.skip(self.pos as int)
        } else {
            Seq::<u8>::empty()
        }
    }

    fn next_byte(&mut self) -> (r: NextByte) {
        if self.pos == self.fail_at && !self.failed {
            self.failed = true;
            NextByte::Fail(fresh_io_error())
        } else if self.pos < self.bytes.len() {
            let b = self.bytes[self.pos];
            self.pos = self.pos + 1;
            proof {
                assert(self.remaining() =~= old(self).remaining().drop_first());
            }
            NextByte::More(b)
        } else {
            NextByte::End
        }
    }
}

} // verus!
