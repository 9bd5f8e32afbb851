use vstd::prelude::*;

verus! {

/// The closed set of object kinds this store recognizes.
///
/// Every object carries exactly one of these tags; a header whose kind
/// literal is outside this set is rejected, never guessed at.
#[derive(Clone, Copy, Debug, PartialEq, Eq, Structural)]
pub enum ObjectKind {
    Blob,
    Tree,
    Commit,
}

/// The ASCII kind literal that stands first in a canonical object header:
/// `blob`, `tree` or `commit`.
pub open spec fn kind_bytes(k: ObjectKind) -> Seq<u8> {
    match k {
        ObjectKind::Blob => seq![98u8, 108u8, 111u8, 98u8],
        ObjectKind::Tree => seq![116u8, 114u8, 101u8, 101u8],
        ObjectKind::Commit => seq![99u8, 111u8, 109u8, 109u8, 105u8, 116u8],
    }
}

/// The kind whose literal is exactly `s`, if any.
pub open spec fn spec_kind_of(s: Seq<u8>) -> Option<ObjectKind> {
    if s == kind_bytes(ObjectKind::Blob) {
        Some(ObjectKind::Blob)
    } else if s == kind_bytes(ObjectKind::Tree) {
        Some(ObjectKind::Tree)
    } else if s == kind_bytes(ObjectKind::Commit) {
        Some(ObjectKind::Commit)
    } else {
        None
    }
}

/// Every byte of a kind literal is a lowercase ASCII letter — in
/// particular never NUL, a space, or a digit.
pub proof fn lemma_kind_bytes_text(k: ObjectKind)
    ensures
        forall|i: int| 0 <= i < kind_bytes(k).len() ==> 97 <= #[trigger] kind_bytes(k)[i] <= 122,
{
}

/// Parsing a kind literal gives back the kind it was printed from.
pub proof fn lemma_kind_of_roundtrip(k: ObjectKind)
    ensures
        spec_kind_of(kind_bytes(k)) == Some(k),
{
    match k {
        ObjectKind::Blob => {
        },
        ObjectKind::Tree => {
            assert(kind_bytes(ObjectKind::Tree)[0] == 116u8);
            assert(kind_bytes(ObjectKind::Blob)[0] == 98u8);
        },
        ObjectKind::Commit => {
            assert(kind_bytes(ObjectKind::Commit).len() == 6);
            assert(kind_bytes(ObjectKind::Blob).len() == 4);
            assert(kind_bytes(ObjectKind::Tree).len() == 4);
        },
    }
}

impl ObjectKind {
    /// The kind literal as bytes, e.g. `blob` for `Blob`.
    pub fn literal_bytes(&self) -> (r: Vec<u8>)
        ensures
            r@ == kind_bytes(*self),
    {
        let mut r: Vec<u8> = Vec::new();
        match self {
            ObjectKind::Blob => {
                r.push(98);
                r.push(108);
                r.push(111);
                r.push(98);
            },
            ObjectKind::Tree => {
                r.push(116);
                r.push(114);
                r.push(101);
                r.push(101);
            },
            ObjectKind::Commit => {
                r.push(99);
                r.push(111);
                r.push(109);
                r.push(109);
                r.push(105);
                r.push(116);
            },
        }
        proof {
            assert(r@ =~= kind_bytes(*self));
        }
        r
    }

    /// The kind literal as text, for display.
    pub fn name(&self) -> (r: String)
        ensures
            r@.len() > 0,
    {
        match self {
            ObjectKind::Blob => {
                proof {
                    reveal_strlit("blob");
                }
                String::from_str("blob")
            },
            ObjectKind::Tree => {
                proof {
                    reveal_strlit("tree");
                }
                String::from_str("tree")
            },
            ObjectKind::Commit => {
                proof {
                    reveal_strlit("commit");
                }
                String::from_str("commit")
            },
        }
    }
}

/// Parses a kind literal: returns the kind whose literal is exactly `s`.
pub fn parse_kind(s: &Vec<u8>) -> (r: Option<ObjectKind>)
    ensures
        r == spec_kind_of(s@),
{
    if s.len() == 4 {
        if s[0] == 98 && s[1] == 108 && s[2] == 111 && s[3] == 98 {
            proof {
                assert(s@ =~= kind_bytes(ObjectKind::Blob));
            }
            return Some(ObjectKind::Blob);
        }
        if s[0] == 116 && s[1] == 114 && s[2] == 101 && s[3] == 101 {
            proof {
                assert(s@ =~= kind_bytes(ObjectKind::Tree));
            }
            return Some(ObjectKind::Tree);
        }
        return None;
    }
    if s.len() == 6 {
        if s[0] == 99 && s[1] == 111 && s[2] == 109 && s[3] == 109 && s[4] == 105 && s[5] == 116 {
            proof {
                assert(s@ =~= kind_bytes(ObjectKind::Commit));
            }
            return Some(ObjectKind::Commit);
        }
        return None;
    }
    None
}

} // verus!
