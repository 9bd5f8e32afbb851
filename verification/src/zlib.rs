use vstd::prelude::*;

verus! {

/// The zlib (DEFLATE) stream that the default-level encoder produces for a
/// byte sequence. The name stands for what `flate2`'s zlib encoder emits at
/// `Compression::default()`, which is a function of the input bytes alone.
pub uninterp spec fn zlib_of(s: Seq<u8>) -> Seq<u8>;

/// Relies on flate2::write::ZlibEncoder at Compression::default(): `new`,
/// `write_all` and `finish` emit the zlib stream of exactly the bytes
/// written. Writing into an in-memory buffer performs no fallible
/// input/output, so the calls cannot fail.
#[verifier::external_body]
pub fn zlib_compress(data: &Vec<u8>) -> (r: Vec<u8>)
    ensures
        r@ == zlib_of(data@),
{
    let mut enc = flate2::write::ZlibEncoder::new(Vec::new(), flate2::Compression::default());
    std::io::Write::write_all(&mut enc, data.as_slice()).expect("writing to memory cannot fail");
    enc.finish().expect("finishing an in-memory stream cannot fail")
}

/// Relies on flate2::read::ZlibDecoder with std::io::Read::read_to_end:
/// decoding a zlib stream yields back exactly the bytes it was encoded
/// from; a byte sequence that is not a well-formed zlib stream is reported
/// as an error, which this wrapper maps to `None`.
#[verifier::external_body]
pub fn zlib_decompress(data: &Vec<u8>) -> (r: Option<Vec<u8>>)
    ensures
        (r matches Some(v) ==> forall|s: Seq<u8>| data@ == zlib_of(s) ==> v@ == s),
        (r is None ==> forall|s: Seq<u8>| data@ != zlib_of(s)),
{
    let mut dec = flate2::read::ZlibDecoder::new(data.as_slice());
    let mut out = Vec::new();
    match std::io::Read::read_to_end(&mut dec, &mut out) {
        Ok(_) => Some(out),
        Err(_) => None,
    }
}

} // verus!
