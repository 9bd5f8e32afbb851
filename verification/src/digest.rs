use vstd::prelude::*;

use crate::bytes::subvec;

verus! {

/// The lowercase hex character for a nibble value.
pub open spec fn hex_digit(n: u8) -> char {
    if n < 10 {
        ((48 + n) as u8) as char
    } else {
        ((87 + n) as u8) as char
    }
}

/// Lowercase hex text of a byte sequence: two characters per byte, high
/// nibble first.
pub open spec fn hex_of(s: Seq<u8>) -> Seq<char>
    decreases s.len(),
{
    if s.len() == 0 {
        Seq::<char>::empty()
    } else {
        seq![hex_digit(s[0] / 16), hex_digit(s[0] % 16)] + hex_of(s.skip(1))
    }
}

/// Hex text is twice as long as the bytes it renders.
pub proof fn lemma_hex_of_len(s: Seq<u8>)
    ensures
        hex_of(s).len() == 2 * s.len(),
    decreases s.len(),
{
    if s.len() > 0 {
        lemma_hex_of_len(s.skip(1));
    }
}

/// The ASCII hex digit classes, as bytes.
pub open spec fn is_hex_byte(b: u8) -> bool {
    (48 <= b <= 57) || (97 <= b <= 102) || (65 <= b <= 70)
}

/// The nibble value of an ASCII hex digit byte.
pub open spec fn hex_byte_val(b: u8) -> u8 {
    if 48 <= b <= 57 {
        (b - 48) as u8
    } else if 97 <= b <= 102 {
        (b - 87) as u8
    } else {
        (b - 55) as u8
    }
}

/// The bytes denoted by ASCII hex text, two digits per byte.
pub open spec fn unhex(s: Seq<u8>) -> Seq<u8>
    decreases s.len(),
{
    if s.len() < 2 {
        Seq::<u8>::empty()
    } else {
        seq![(hex_byte_val(s[0]) * 16 + hex_byte_val(s[1])) as u8] + unhex(s.skip(2))
    }
}

/// Relies on hex::encode: lowercase hex text, two digits per byte, high
/// nibble first.
#[verifier::external_body]
fn hex_encode(data: &Vec<u8>) -> (r: String)
    ensures
        r@ == hex_of(data@),
{
    hex::encode(data.as_slice())
}

/// A 20-byte object digest: the SHA-1 identity of an object's canonical
/// bytes, rendered as 40 lowercase hex characters, and addressed on disk by
/// a two-character directory and a 38-character file name.
#[derive(Clone, Debug, PartialEq, Eq)]
pub struct Digest {
    pub bytes: Vec<u8>,
}

impl View for Digest {
    type V = Seq<u8>;

    open spec fn view(&self) -> Seq<u8> {
        self.bytes@
    }
}

impl Digest {
    /// A digest is exactly twenty raw bytes.
    pub open spec fn wf(&self) -> bool {
        self@.len() == 20
    }

    /// Wraps twenty raw bytes as a digest.
    pub fn from_bytes(bytes: Vec<u8>) -> (r: Digest)
        requires
            bytes@.len() == 20,
        ensures
            r@ == bytes@,
            r.wf(),
    {
        Digest { bytes }
    }

    /// The 40-character lowercase hex form of the digest.
    pub fn to_hex(&self) -> (r: String)
        ensures
            r@ == hex_of(self@),
            self.wf() ==> r@.len() == 40,
    {
        proof {
            lemma_hex_of_len(self@);
        }
        hex_encode(&self.bytes)
    }

    /// The storage subdirectory name: hex of the first byte, two characters.
    pub fn dir_name(&self) -> (r: String)
        requires
            self.wf(),
        ensures
            r@ == hex_of(self@.subrange(0, 1)),
            r@.len() == 2,
    {
        let head = subvec(&self.bytes, 0, 1);
        proof {
            lemma_hex_of_len(head@);
        }
        hex_encode(&head)
    }

    /// The storage file name: hex of the remaining nineteen bytes, 38
    /// characters.
    pub fn file_name(&self) -> (r: String)
        requires
            self.wf(),
        ensures
            r@ == hex_of(self@.subrange(1, 20)),
            r@.len() == 38,
    {
        let tail = subvec(&self.bytes, 1, 20);
        proof {
            lemma_hex_of_len(tail@);
        }
        hex_encode(&tail)
    }

    /// Decodes 40 ASCII hex digit bytes into a digest; rejects any other
    /// length and any non-hex byte.
    pub fn from_hex(h: &Vec<u8>) -> (r: Option<Digest>)
        ensures
            (r is Some <==> (h@.len() == 40 && forall|i: int|
                0 <= i < h@.len() ==> is_hex_byte(#[trigger] h@[i]))),
            (r matches Some(d) ==> d@ == unhex(h@) && d.wf()),
    {
        if h.len() != 40 {
            return None;
        }
        let mut out: Vec<u8> = Vec::new();
        let mut i: usize = 0;
        while i < 20
            invariant
                0 <= i <= 20,
                h@.len() == 40,
                out@.len() == i,
                forall|j: int| 0 <= j < 2 * i ==> is_hex_byte(#[trigger] h@[j]),
                out@ =~= unhex(h@.subrange(0, 2 * i as int)),
            decreases 20 - i,
        {
            let hi = h[2 * i];
            let lo = h[2 * i + 1];
            let hi_ok = (48 <= hi && hi <= 57) || (97 <= hi && hi <= 102) || (65 <= hi && hi
                <= 70);
            let lo_ok = (48 <= lo && lo <= 57) || (97 <= lo && lo <= 102) || (65 <= lo && lo
                <= 70);
            if !hi_ok || !lo_ok {
                return None;
            }
            let hv = if hi <= 57 {
                hi - 48
            } else if hi >= 97 {
                hi - 87
            } else {
                hi - 55
            };
            let lv = if lo <= 57 {
                lo - 48
            } else if lo >= 97 {
                lo - 87
            } else {
                lo - 55
            };
            out.push(hv * 16 + lv);
            proof {
                lemma_unhex_pair(h@.subrange(0, 2 * i as int), hi, lo);
                assert(h@.subrange(0, 2 * i as int) + seq![hi, lo] =~= h@.subrange(
                    0,
                    2 * (i + 1) as int,
                ));
                assert(out@ =~= unhex(h@.subrange(0, 2 * (i + 1) as int)));
            }
            i = i + 1;
        }
        proof {
            assert(h@.subrange(0, 40) =~= h@);
        }
        Some(Digest { bytes: out })
    }
}

/// Appending one hex pair appends one decoded byte.
proof fn lemma_unhex_pair(s: Seq<u8>, a: u8, b: u8)
    requires
        s.len() % 2 == 0,
        is_hex_byte(a),
        is_hex_byte(b),
    ensures
        unhex(s + seq![a, b]) == unhex(s).push((hex_byte_val(a) * 16 + hex_byte_val(b)) as u8),
    decreases s.len(),
{
    let t = s + seq![a, b];
    let xx = (hex_byte_val(a) * 16 + hex_byte_val(b)) as u8;
    if s.len() == 0 {
        assert(t.len() == 2);
        assert(t[0] == a && t[1] == b);
        assert(t.skip(2) =~= Seq::<u8>::empty());
        assert(unhex(t) == seq![xx] + unhex(t.skip(2)));
        assert(seq![xx] + Seq::<u8>::empty() =~= unhex(s).push(xx));
    } else {
        let x0 = (hex_byte_val(s[0]) * 16 + hex_byte_val(s[1])) as u8;
        lemma_unhex_pair(s.skip(2), a, b);
        assert(t.skip(2) =~= s.skip(2) + seq![a, b]);
        assert(t[0] == s[0] && t[1] == s[1]);
        assert(unhex(t) == seq![x0] + unhex(t.skip(2)));
        assert(unhex(t.skip(2)) == unhex(s.skip(2)).push(xx));
        assert(unhex(s) == seq![x0] + unhex(s.skip(2)));
        assert(seq![x0] + unhex(s.skip(2)).push(xx) =~= (seq![x0] + unhex(s.skip(2))).push(xx));
    }
}

} // verus!
