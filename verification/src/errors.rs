use vstd::prelude::*;

verus! {

/// The failure taxonomy of the object store.
///
/// `NotFound` and `Io` arise only at the filesystem boundary; the decoding
/// layer itself reports `Corrupt` (bad stream, garbled header, size or
/// entry-layout mismatch), `UnsupportedKind` (a kind literal outside the
/// closed set) and `Encoding` (non-text bytes where text is required).
#[derive(Clone, Copy, Debug, PartialEq, Eq, Structural)]
pub enum StoreError {
    NotFound,
    Corrupt,
    UnsupportedKind,
    Io,
    Encoding,
}

impl StoreError {
    /// A short human-readable name for the error.
    pub fn describe(&self) -> (r: String)
        ensures
            r@.len() > 0,
    {
        match self {
            StoreError::NotFound => {
                proof {
                    reveal_strlit("object not found");
                }
                String::from_str("object not found")
            },
            StoreError::Corrupt => {
                proof {
                    reveal_strlit("corrupt object");
                }
                String::from_str("corrupt object")
            },
            StoreError::UnsupportedKind => {
                proof {
                    reveal_strlit("unsupported object kind");
                }
                String::from_str("unsupported object kind")
            },
            StoreError::Io => {
                proof {
                    reveal_strlit("input/output failure");
                }
                String::from_str("input/output failure")
            },
            StoreError::Encoding => {
                proof {
                    reveal_strlit("non-text bytes where text is required");
                }
                String::from_str("non-text bytes where text is required")
            },
        }
    }
}

} // verus!
