use vstd::prelude::*;

use crate::bytes::lemma_idx_of_found;
use crate::codec::{
    canonical_bytes, encode_header, object_outcome_matches, parse_object, spec_parse_header,
    spec_parse_object, Object,
};
use crate::decimal::{
    dec_repr, is_digit, lemma_dec_repr_digits, lemma_dec_repr_value, spec_parse_size,
};
use crate::digest::Digest;
use crate::errors::StoreError;
use crate::hashing::{sha1_of, HashWriter};
use crate::kind::{
    kind_bytes, lemma_kind_bytes_text, lemma_kind_of_roundtrip, ObjectKind,
};
use crate::zlib::{zlib_compress, zlib_decompress, zlib_of};

verus! {

/// What the write path produces: the object's digest, and the compressed
/// bytes to persist at the digest-derived path.
pub struct StoredObject {
    pub digest: Digest,
    pub compressed: Vec<u8>,
}

/// The write path of the store: builds the canonical byte sequence
/// (`"<kind> <size>\0"` + content) exactly once, takes its SHA-1 as the
/// object's identity, and compresses that same sequence for disk.
///
/// The digest is over the canonical bytes, never over the compressed
/// bytes; it depends on the kind and content alone, so repeated calls on
/// equal input give equal hashes.
pub fn store_object(kind: ObjectKind, content: &Vec<u8>) -> (r: StoredObject)
    ensures
        r.digest@ == sha1_of(canonical_bytes(kind, content@)),
        r.digest.wf(),
        r.compressed@ == zlib_of(canonical_bytes(kind, content@)),
{
    let header = encode_header(kind, content.len());
    let mut sink = HashWriter::new();
    sink.write(&header);
    sink.write(content);
    proof {
        assert((Seq::<u8>::empty() + header@) + content@ =~= canonical_bytes(kind, content@));
    }
    let (digest_bytes, canonical) = sink.finish();
    let compressed = zlib_compress(&canonical);
    StoredObject { digest: Digest::from_bytes(digest_bytes), compressed }
}

/// The read path of the store, after the file bytes are in hand:
/// decompresses the on-disk bytes and parses the canonical sequence into a
/// typed object. A byte sequence that does not decompress is `Corrupt`;
/// whatever the canonical bytes hold is decided exactly by
/// `spec_parse_object`.
pub fn load_object(data: &Vec<u8>) -> (r: Result<Object, StoreError>)
    ensures
        forall|s: Seq<u8>| data@ == zlib_of(s) ==> object_outcome_matches(s, r),
        r matches Ok(o) ==> o.wf(),
        r matches Err(e) ==> (e == StoreError::Corrupt || e == StoreError::UnsupportedKind),
{
    let canonical = match zlib_decompress(data) {
        Some(v) => v,
        None => {
            return Err(StoreError::Corrupt);
        },
    };
    parse_object(&canonical)
}

/// Round trip: the canonical encoding of any kind and content parses back
/// to exactly that kind, that content, and the content's length as size.
/// Together with the contracts of `store_object` and `load_object` this
/// says that loading what was stored yields the stored object.
pub proof fn lemma_store_load_round_trip(k: ObjectKind, c: Seq<u8>)
    requires
        c.len() <= usize::MAX,
    ensures
        spec_parse_object(canonical_bytes(k, c)) == Ok::<(ObjectKind, Seq<u8>), StoreError>(
            (k, c),
        ),
{
    let kb = kind_bytes(k);
    let dd = dec_repr(c.len());
    let s = canonical_bytes(k, c);
    let klen: int = kb.len() as int;
    let hlen: int = kb.len() as int + 1 + dd.len() as int;
    lemma_kind_bytes_text(k);
    lemma_kind_of_roundtrip(k);
    lemma_dec_repr_digits(c.len());
    lemma_dec_repr_value(c.len());
    assert(s.len() == hlen + 1 + c.len());
    assert forall|m: int| 0 <= m < hlen implies s[m] != 0u8 by {
        if m < klen {
            assert(s[m] == kb[m]);
        } else if m == klen {
            assert(s[m] == 32u8);
        } else {
            assert(s[m] == dd[m - klen - 1]);
            assert(is_digit(dd[m - klen - 1]));
        }
    }
    assert(s[hlen] == 0u8);
    lemma_idx_of_found(s, 0, 0u8, hlen);
    let header = s.take(hlen);
    assert(header =~= kb + seq![32u8] + dd);
    assert forall|m: int| 0 <= m < klen implies header[m] != 32u8 by {
        assert(header[m] == kb[m]);
    }
    assert(header[klen] == 32u8);
    lemma_idx_of_found(header, 0, 32u8, klen);
    assert(header.take(klen) =~= kb);
    assert(header.skip(klen + 1) =~= dd);
    assert(spec_parse_size(dd) == Some(c.len() as int));
    assert(spec_parse_header(header) == Ok::<(ObjectKind, int), StoreError>(
        (k, c.len() as int),
    ));
    assert(s.skip(hlen + 1) =~= c);
}

/// Determinism: the digest of the write path is a function of the kind and
/// content alone, so the same object stored twice — in one process or in
/// two — gets the same hash.
pub proof fn lemma_store_deterministic(k: ObjectKind, c: Seq<u8>, d1: Seq<u8>, d2: Seq<u8>)
    requires
        d1 == sha1_of(canonical_bytes(k, c)),
        d2 == sha1_of(canonical_bytes(k, c)),
    ensures
        d1 == d2,
{
}

} // verus!
