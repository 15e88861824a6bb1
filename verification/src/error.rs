//! Error values produced by the decoding stream.

use vstd::prelude::*;

verus! {

/// `std::io::Error` is carried through the library untouched: it is the
/// failure value handed over by a byte source and returned to the caller
/// as-is. Declared so that it can appear in signatures and fields.
#[verifier::external_type_specification]
#[verifier::external_body]
pub struct ExIoError(std::io::Error);

/// One failed decode attempt: the bytes, between one and three of them, that
/// were consumed for the attempt and found not to form a valid UTF-8
/// encoding. A byte that is replayed by the next decode step is never
/// included.
#[derive(Clone, Debug)]
pub struct Utf8Error {
    pub(crate) bytes: Vec<u8>,
}

impl View for Utf8Error {
    type V = Seq<u8>;

    closed spec fn view(&self) -> Seq<u8> {
        self.bytes@
    }
}

impl Utf8Error {
    /// The invariant of a decode error: it holds one to three invalid bytes.
    pub open spec fn wf(&self) -> bool {
        1 <= self@.len() <= 3
    }

    /// An error holding exactly the given invalid bytes.
    pub(crate) fn from_bytes(bytes: Vec<u8>) -> (e: Utf8Error)
        ensures
            e@ == bytes@,
    {
        Utf8Error { bytes }
    }

    /// The invalid bytes, in the order they were consumed.
    pub fn as_bytes(&self) -> (r: &[u8])
        ensures
            r@ == self@,
    {
        self.bytes.as_slice()
    }
}

impl PartialEq for Utf8Error {
    /// A decode error has no identity beyond its contents: two errors with
    /// equal byte sequences are equal.
    fn eq(&self, other: &Utf8Error) -> (r: bool) {
        if self.bytes.len() != other.bytes.len() {
            return false;
        }
        let mut i: usize = 0;
        while i < self.bytes.len()
            invariant
                i <= self.bytes.len(),
                self.bytes.len() == other.bytes.len(),
                forall|j: int| 0 <= j < i ==> self.bytes@[j] == other.bytes@[j],
            decreases self.bytes.len() - i,
        {
            if self.bytes[i] != other.bytes[i] {
                return false;
            }
            i = i + 1;
        }
        proof {
            assert(self.bytes@ =~= other.bytes@);
        }
        true
    }
}

impl vstd::std_specs::cmp::PartialEqSpecImpl for Utf8Error {
    open spec fn obeys_eq_spec() -> bool {
        true
    }

    open spec fn eq_spec(&self, other: &Utf8Error) -> bool {
        self@ == other@
    }
}

/// Everything a decode step can fail with: a malformed encoding, which is
/// local and recoverable, or an I/O failure of the underlying byte source,
/// which is propagated as-is.
#[derive(Debug)]
pub enum Error {
    Utf8Error(Utf8Error),
    IoError(std::io::Error),
}

} // verus!
