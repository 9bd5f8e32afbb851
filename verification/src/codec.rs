use vstd::prelude::*;

use crate::bytes::{extend_from, find_byte, idx_of, lemma_idx_of, subvec};
use crate::decimal::{dec_repr, encode_dec, parse_size, spec_parse_size};
use crate::errors::StoreError;
use crate::kind::{kind_bytes, parse_kind, spec_kind_of, ObjectKind};

verus! {

/// The canonical object header: kind literal, one space, decimal size, NUL.
pub open spec fn header_bytes(k: ObjectKind, size: int) -> Seq<u8> {
    kind_bytes(k) + seq![32u8] + dec_repr(size as nat) + seq![0u8]
}

/// The canonical byte sequence of an object: header followed by the raw
/// content. This exact sequence is what gets hashed and what gets
/// compressed — never the compressed bytes.
pub open spec fn canonical_bytes(k: ObjectKind, content: Seq<u8>) -> Seq<u8> {
    header_bytes(k, content.len() as int) + content
}

/// Parses header text (the bytes before the NUL): splits at the first
/// space, matches the kind literal against the closed set, and reads the
/// decimal size. A missing space or a bad size field is `Corrupt`; an
/// unknown kind literal is `UnsupportedKind`.
pub open spec fn spec_parse_header(h: Seq<u8>) -> Result<(ObjectKind, int), StoreError> {
    let sp = idx_of(h, 0, 32u8);
    if sp == h.len() {
        Err(StoreError::Corrupt)
    } else {
        match spec_kind_of(h.take(sp)) {
            None => Err(StoreError::UnsupportedKind),
            Some(k) => match spec_parse_size(h.skip(sp + 1)) {
                None => Err(StoreError::Corrupt),
                Some(sz) => Ok((k, sz)),
            },
        }
    }
}

/// Parses a whole canonical byte sequence: header up to the first NUL, then
/// exactly the declared number of content bytes. A missing NUL or a content
/// length different from the declared size is `Corrupt`.
pub open spec fn spec_parse_object(s: Seq<u8>) -> Result<(ObjectKind, Seq<u8>), StoreError> {
    let n = idx_of(s, 0, 0u8);
    if n == s.len() {
        Err(StoreError::Corrupt)
    } else {
        match spec_parse_header(s.take(n)) {
            Err(e) => Err(e),
            Ok((k, sz)) => {
                let content = s.skip(n + 1);
                if content.len() == sz {
                    Ok((k, content))
                } else {
                    Err(StoreError::Corrupt)
                }
            },
        }
    }
}

/// A fully decoded object: its kind tag, its declared size, and its raw
/// content bytes.
#[derive(Debug)]
pub struct Object {
    pub kind: ObjectKind,
    pub size: usize,
    pub content: Vec<u8>,
}

impl Object {
    /// The declared size always equals the actual content length.
    pub open spec fn wf(&self) -> bool {
        self.size == self.content@.len()
    }
}

/// How an executable header-parse result must relate to the specification:
/// agreement case by case, error for error.
pub open spec fn header_outcome_matches(
    h: Seq<u8>,
    r: Result<(ObjectKind, usize), StoreError>,
) -> bool {
    match (spec_parse_header(h), r) {
        (Ok(p), Ok(q)) => p.0 == q.0 && p.1 == q.1 as int,
        (Err(e), Err(e2)) => e == e2,
        _ => false,
    }
}

/// How an executable object-parse result must relate to the specification.
pub open spec fn object_outcome_matches(s: Seq<u8>, r: Result<Object, StoreError>) -> bool {
    match (spec_parse_object(s), r) {
        (Ok(p), Ok(o)) => o.kind == p.0 && o.content@ == p.1 && o.size == p.1.len(),
        (Err(e), Err(e2)) => e == e2,
        _ => false,
    }
}

/// Unknown-kind rejection: a header whose literal before the space is
/// outside the closed kind set is refused as `UnsupportedKind` — the
/// remainder is never misread as content.
pub proof fn lemma_unknown_kind_rejected(h: Seq<u8>)
    requires
        idx_of(h, 0, 32u8) < h.len(),
        spec_kind_of(h.take(idx_of(h, 0, 32u8))) is None,
    ensures
        spec_parse_header(h) == Err::<(ObjectKind, int), StoreError>(StoreError::UnsupportedKind),
{
}

/// Builds the canonical header for an object of kind `kind` and declared
/// size `size`.
pub fn encode_header(kind: ObjectKind, size: usize) -> (r: Vec<u8>)
    ensures
        r@ == header_bytes(kind, size as int),
{
    let mut r = kind.literal_bytes();
    r.push(32);
    let digits = encode_dec(size);
    extend_from(&mut r, &digits);
    r.push(0);
    proof {
        assert(r@ =~= header_bytes(kind, size as int));
    }
    r
}

/// Builds the canonical byte sequence of an object: header plus content.
pub fn encode_object(kind: ObjectKind, content: &Vec<u8>) -> (r: Vec<u8>)
    ensures
        r@ == canonical_bytes(kind, content@),
{
    let mut r = encode_header(kind, content.len());
    extend_from(&mut r, content);
    proof {
        assert(r@ =~= canonical_bytes(kind, content@));
    }
    r
}

/// Parses the header text of an object (the bytes before the NUL) into its
/// kind and declared size, exactly as `spec_parse_header` says.
pub fn parse_object_header(header: &Vec<u8>) -> (r: Result<(ObjectKind, usize), StoreError>)
    ensures
        header_outcome_matches(header@, r),
{
    let sp = find_byte(header, 0, 32);
    proof {
        lemma_idx_of(header@, 0, 32);
    }
    if sp == header.len() {
        return Err(StoreError::Corrupt);
    }
    let kind_field = subvec(header, 0, sp);
    proof {
        assert(kind_field@ =~= header@.take(sp as int));
    }
    let k = match parse_kind(&kind_field) {
        Some(k) => k,
        None => {
            return Err(StoreError::UnsupportedKind);
        },
    };
    let size_field = subvec(header, sp + 1, header.len());
    proof {
        assert(size_field@ =~= header@.skip(sp as int + 1));
    }
    match parse_size(&size_field) {
        Some(sz) => Ok((k, sz)),
        None => Err(StoreError::Corrupt),
    }
}

/// Parses a whole canonical byte sequence into an object, exactly as
/// `spec_parse_object` says. Every returned object is well formed: its
/// declared size equals its content length.
pub fn parse_object(data: &Vec<u8>) -> (r: Result<Object, StoreError>)
    ensures
        object_outcome_matches(data@, r),
        r matches Ok(o) ==> o.wf(),
{
    let n = find_byte(data, 0, 0);
    proof {
        lemma_idx_of(data@, 0, 0);
    }
    if n == data.len() {
        return Err(StoreError::Corrupt);
    }
    let header = subvec(data, 0, n);
    proof {
        assert(header@ =~= data@.take(n as int));
    }
    let (k, sz) = match parse_object_header(&header) {
        Ok(p) => p,
        Err(e) => {
            return Err(e);
        },
    };
    let content = subvec(data, n + 1, data.len());
    proof {
        assert(content@ =~= data@.skip(n as int + 1));
    }
    if content.len() != sz {
        return Err(StoreError::Corrupt);
    }
    Ok(Object { kind: k, size: sz, content })
}

} // verus!
