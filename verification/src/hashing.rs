use vstd::prelude::*;

use crate::bytes::extend_from;

verus! {

/// The 20-byte SHA-1 digest of a byte sequence. The algorithm itself is not
/// restated here; the name stands for what `sha1::Sha1::digest` returns,
/// which is a function of the input bytes alone.
pub uninterp spec fn sha1_of(s: Seq<u8>) -> Seq<u8>;

/// Relies on sha1::Sha1::digest (the RustCrypto one-shot API): the 20-byte
/// SHA-1 digest of exactly the input bytes.
#[verifier::external_body]
pub fn sha1_digest(data: &Vec<u8>) -> (r: Vec<u8>)
    ensures
        r@ == sha1_of(data@),
        r@.len() == 20,
{
    let d = <sha1::Sha1 as sha1::Digest>::digest(data.as_slice());
    d.as_slice().to_vec()
}

/// A write sink that records every byte passed through it and, when
/// finished, yields the SHA-1 digest of exactly those bytes together with
/// the bytes themselves.
///
/// The digest depends only on the concatenation of the writes: splitting a
/// byte sequence over several `write` calls never changes the result, as the
/// `write` contract (plain concatenation) shows.
pub struct HashWriter {
    buf: Vec<u8>,
}

impl View for HashWriter {
    type V = Seq<u8>;

    /// The bytes written so far.
    closed spec fn view(&self) -> Seq<u8> {
        self.buf@
    }
}

impl HashWriter {
    /// A fresh sink with nothing written.
    pub fn new() -> (r: HashWriter)
        ensures
            r@ == Seq::<u8>::empty(),
    {
        HashWriter { buf: Vec::new() }
    }

    /// Passes `data` through: the recorded byte sequence grows by exactly
    /// `data`, in order, with nothing else.
    pub fn write(&mut self, data: &Vec<u8>)
        ensures
            final(self)@ == old(self)@ + data@,
    {
        extend_from(&mut self.buf, data);
    }

    /// Finishes the stream: returns the SHA-1 digest over exactly the bytes
    /// that passed through, and those bytes, unchanged.
    pub fn finish(self) -> (r: (Vec<u8>, Vec<u8>))
        ensures
            r.0@ == sha1_of(self@),
            r.0@.len() == 20,
            r.1@ == self@,
    {
        let digest = sha1_digest(&self.buf);
        (digest, self.buf)
    }
}

} // verus!
