//! The UTF-8 decoding stream: the state machine that turns a byte source
//! into a sequence of decoded units.

use vstd::prelude::*;

use crate::decode::Decoded;
use crate::decode::acc_value;
use crate::decode::cont_ok;
use crate::decode::decode_all;
use crate::decode::decode_step;
use crate::decode::lemma_acc_is_codepoint;
use crate::decode::lemma_step_consumes;
use crate::decode::lemma_step_scalar_valid;
use crate::decode::needed_len;
use crate::decode::scan_conts;
use crate::error::Error;
use crate::error::Utf8Error;
use crate::source::ByteSource;
use crate::source::NextByte;

verus! {

/// Accumulates one continuation byte into a running code point: shift the
/// value left six bits and OR in the low six bits of the byte.
pub fn acc_cont_byte(point: u32, byte: u8) -> (r: u32)
    ensures
        r == (point << 6) | ((byte & 0x3F) as u32),
{
    (point << 6) | ((byte & 0x3F) as u32)
}

/// Whether `b` is acceptable as the `idx`-th continuation byte (1-based) of
/// a sequence opened by `lead`.
fn cont_in_range(lead: u8, idx: usize, b: u8) -> (r: bool)
    ensures
        r == cont_ok(lead, idx as int, b),
{
    if idx == 1 {
        if lead == 0xE0 {
            0xA0 <= b && b <= 0xBF
        } else if lead == 0xED {
            0x80 <= b && b <= 0x9F
        } else if lead == 0xF0 {
            0x90 <= b && b <= 0xBF
        } else if lead == 0xF4 {
            0x80 <= b && b <= 0x8F
        } else {
            0x80 <= b && b <= 0xBF
        }
    } else {
        0x80 <= b && b <= 0xBF
    }
}

/// Relies on `char::from_u32`: every value below the surrogate range, and
/// every value from 0xE000 through 0x10FFFF, is the scalar value of exactly
/// one `char`, which `from_u32` returns.
#[verifier::external_body]
fn char_from_scalar(v: u32) -> (r: char)
    requires
        v < 0xD800 || (0xE000 <= v && v <= 0x10FFFF),
    ensures
        r as u32 == v,
{
    char::from_u32(v).unwrap()
}

/// A decoding stream over a byte source. Between steps it owns at most one
/// byte read ahead (the resynchronization slot), and it remembers whether
/// the input was legitimately exhausted.
pub struct Stream<S: ByteSource> {
    source: S,
    pending: Option<u8>,
    done: bool,
}

impl<S: ByteSource> View for Stream<S> {
    type V = Seq<u8>;

    /// The bytes the stream still has to decode: the pending byte, if any,
    /// followed by whatever the source still offers.
    closed spec fn view(&self) -> Seq<u8> {
        match self.pending {
            Some(b) => seq![b] + self.source.remaining(),
            None => self.source.remaining(),
        }
    }
}

impl<S: ByteSource> Stream<S> {
    /// Once the stream has signalled end-of-stream it stays exhausted: no
    /// byte is pending and the source has nothing left.
    pub open spec fn wf(&self) -> bool {
        self.is_done() ==> self@.len() == 0
    }

    /// Whether the stream has legitimately reached end-of-stream.
    pub closed spec fn is_done(&self) -> bool {
        self.done
    }

    /// Whether the stream's source promises never to fail. Such a stream
    /// never reports an I/O failure.
    pub closed spec fn infallible(&self) -> bool {
        self.source.infallible()
    }

    /// A stream over the given source, with nothing pending.
    pub fn new(source: S) -> (s: Stream<S>)
        ensures
            s.wf(),
            !s.is_done(),
            s@ == source.remaining(),
            s.infallible() == source.infallible(),
    {
        Stream { source, pending: None, done: false }
    }

    /// Produce the next decoded unit: a scalar value, a decode error, an I/O
    /// failure of the source, or end-of-stream (`None`).
    ///
    /// On any outcome but an I/O failure, the step performs exactly one
    /// decode step of the model: the unit returned and the bytes left over
    /// are those of `decode_step` on the bytes the stream had. After
    /// end-of-stream every further call yields end-of-stream again. After an
    /// I/O failure the bytes consumed for the interrupted attempt are
    /// discarded, and the stream remains usable.
    #[verifier::loop_isolation(false)]
    pub fn next(&mut self) -> (r: Option<Result<char, Error>>)
        requires
            old(self).wf(),
        ensures
            final (self).wf(),
            old(self).is_done() ==> r is None,
            old(self).infallible() ==> final (self).infallible(),
            match r {
                None => {
                    &&& old(self)@.len() == 0
                    &&& final (self)@ == old(self)@
                    &&& final (self).is_done()
                },
                Some(unit) => match unit {
                    Ok(c) => {
                        &&& old(self)@.len() > 0
                        &&& decode_step(old(self)@).0 == Decoded::Scalar(c)
                        &&& final (self)@ == decode_step(old(self)@).1
                        &&& !final (self).is_done()
                    },
                    Err(e) => match e {
                        Error::Utf8Error(ue) => {
                            &&& old(self)@.len() > 0
                            &&& ue.wf()
                            &&& decode_step(old(self)@).0 == Decoded::Malformed(ue@)
                            &&& final (self)@ == decode_step(old(self)@).1
                            &&& !final (self).is_done()
                        },
                        Error::IoError(_) => {
                            &&& !old(self).is_done()
                            &&& !old(self).infallible()
                            &&& !final (self).is_done()
                            &&& exists|k: int|
                                0 <= k <= old(self)@.len() && final (self)@ == #[trigger] old(
                                    self,
                                )@.skip(k)
                        },
                    },
                },
            },
    {
        if self.done {
            return None;
        }
        let ghost v0 = self@;
        let x: u8;
        let p = self.pending;
        match p {
            Some(b) => {
                x = b;
                self.pending = None;
                proof {
                    assert(self@ =~= v0.drop_first());
                }
            },
            None => {
                match self.source.next_byte() {
                    NextByte::More(b) => {
                        x = b;
                        proof {
                            assert(self@ =~= v0.drop_first());
                        }
                    },
                    NextByte::End => {
                        self.done = true;
                        return None;
                    },
                    NextByte::Fail(e) => {
                        proof {
                            assert(self@ =~= v0.skip(0));
                        }
                        return Some(Err(Error::IoError(e)));
                    },
                }
            },
        }
        // One byte of the view is consumed: it is the lead byte of this attempt.
        if x < 0x80 {
            return Some(Ok(x as char));
        }
        if x < 0xC2 || x > 0xF4 {
            let mut eb: Vec<u8> = Vec::new();
            eb.push(x);
            let ue = Utf8Error::from_bytes(eb);
            proof {
                assert(ue@ =~= seq![x]);
            }
            return Some(Err(Error::Utf8Error(ue)));
        }
        let n: usize = if x <= 0xDF {
            2
        } else if x <= 0xEF {
            3
        } else {
            4
        };
        let mut cp: u32 = if x <= 0xDF {
            (x & 0x1F) as u32
        } else if x <= 0xEF {
            (x & 0x0F) as u32
        } else {
            (x & 0x07) as u32
        };
        let mut taken: Vec<u8> = Vec::new();
        taken.push(x);
        let mut i: usize = 1;
        proof {
            assert(taken@ =~= v0.take(1));
        }
        while i < n
            invariant
                0xC2 <= x <= 0xF4,
                n == needed_len(x),
                2 <= n <= 4,
                1 <= i <= n,
                i <= v0.len(),
                v0.len() >= 1,
                v0[0] == x,
                !self.done,
                self.pending is None,
                self@ == v0.skip(i as int),
                old(self).infallible() ==> self.infallible(),
                taken@ == v0.take(i as int),
                cp == acc_value(v0, i as int),
                scan_conts(v0, n as int, 1) == scan_conts(v0, n as int, i as int),
                forall|j: int| 1 <= j < i ==> cont_ok(x, j, v0[j]),
            decreases n - i,
        {
            match self.source.next_byte() {
                NextByte::More(b) => {
                    proof {
                        assert(v0.skip(i as int)[0] == v0[i as int]);
                        assert(self@ =~= v0.skip(i as int + 1));
                    }
                    if !cont_in_range(x, i, b) {
                        self.pending = Some(b);
                        let ue = Utf8Error::from_bytes(taken);
                        proof {
                            assert(self@ =~= v0.skip(i as int));
                        }
                        return Some(Err(Error::Utf8Error(ue)));
                    }
                    cp = acc_cont_byte(cp, b);
                    taken.push(b);
                    proof {
                        assert(taken@ =~= v0.take(i as int + 1));
                    }
                    i = i + 1;
                },
                NextByte::End => {
                    proof {
                        assert(v0.skip(i as int).len() == 0);
                        assert(taken@ =~= v0);
                        assert(self@ =~= Seq::<u8>::empty());
                    }
                    let ue = Utf8Error::from_bytes(taken);
                    return Some(Err(Error::Utf8Error(ue)));
                },
                NextByte::Fail(e) => {
                    proof {
                        assert(self@ =~= v0.skip(i as int));
                    }
                    return Some(Err(Error::IoError(e)));
                },
            }
        }
        proof {
            lemma_acc_is_codepoint(v0);
            assert(decode_step(v0) == scan_conts(v0, n as int, 1));
            lemma_step_scalar_valid(v0);
        }
        let c = char_from_scalar(cp);
        proof {
            vstd::utf8::char_u32_cast(c, cp);
        }
        Some(Ok(c))
    }

    /// Decodes everything the stream has left and collects the units, in
    /// order: the whole-input form of `next`. At end-of-stream it returns
    /// one entry per decoded unit of the model; at an I/O failure it stops
    /// and hands the failure back instead.
    #[verifier::loop_isolation(false)]
    pub fn decode_to_end(&mut self) -> (r: Result<Vec<Result<char, Utf8Error>>, Error>)
        requires
            old(self).wf(),
        ensures
            final (self).wf(),
            old(self).infallible() ==> (r is Ok && final (self).infallible()),
            match r {
                Ok(units) => {
                    &&& units@.map_values(|u: Result<char, Utf8Error>| unit_of(u)) == decode_all(
                        old(self)@,
                    )
                    &&& final (self)@.len() == 0
                    &&& final (self).is_done()
                },
                Err(e) => e is IoError,
            },
    {
        let mut units: Vec<Result<char, Utf8Error>> = Vec::new();
        proof {
            assert(units@.map_values(|u: Result<char, Utf8Error>| unit_of(u)) =~= Seq::<
                Decoded,
            >::empty());
        }
        loop
            invariant
                self.wf(),
                old(self).infallible() ==> self.infallible(),
                decode_all(old(self)@) == units@.map_values(
                    |u: Result<char, Utf8Error>| unit_of(u),
                ) + decode_all(self@),
            decreases self@.len(),
        {
            let ghost pre = self@;
            let ghost done_units = units@.map_values(|u: Result<char, Utf8Error>| unit_of(u));
            match self.next() {
                None => {
                    proof {
                        assert(decode_all(pre) == Seq::<Decoded>::empty());
                        assert(units@.map_values(|u: Result<char, Utf8Error>| unit_of(u))
                            =~= decode_all(old(self)@));
                    }
                    return Ok(units);
                },
                Some(Ok(c)) => {
                    proof {
                        lemma_step_consumes(pre);
                    }
                    units.push(Ok(c));
                    proof {
                        assert(units@.map_values(|u: Result<char, Utf8Error>| unit_of(u))
                            =~= done_units.push(Decoded::Scalar(c)));
                        assert(decode_all(old(self)@) =~= units@.map_values(
                            |u: Result<char, Utf8Error>| unit_of(u),
                        ) + decode_all(self@));
                    }
                },
                Some(Err(Error::Utf8Error(e))) => {
                    proof {
                        lemma_step_consumes(pre);
                        assert(unit_of(Err::<char, Utf8Error>(e)) == Decoded::Malformed(e@));
                    }
                    units.push(Err(e));
                    proof {
                        assert(units@.map_values(|u: Result<char, Utf8Error>| unit_of(u))
                            =~= done_units.push(decode_step(pre).0));
                        assert(decode_all(old(self)@) =~= units@.map_values(
                            |u: Result<char, Utf8Error>| unit_of(u),
                        ) + decode_all(self@));
                    }
                },
                Some(Err(Error::IoError(e))) => {
                    return Err(Error::IoError(e));
                },
            }
        }
    }
}

/// The decoded unit that one collected entry stands for.
pub open spec fn unit_of(r: Result<char, Utf8Error>) -> Decoded {
    match r {
        Ok(c) => Decoded::Scalar(c),
        Err(e) => Decoded::Malformed(e@),
    }
}

} // verus!
