use vstd::prelude::*;

use crate::bytes::{find_byte, idx_of, lemma_idx_of, lemma_idx_of_found, subvec, extend_from};
use crate::digest::Digest;
use crate::errors::StoreError;

verus! {

/// Printable ASCII: what the mode and name fields of a tree entry may
/// hold. Anything else is an `Encoding` error.
pub open spec fn is_text_byte(b: u8) -> bool {
    32 <= b <= 126
}

/// All bytes of `s` in `[i, j)` are text.
pub open spec fn text_run(s: Seq<u8>, i: int, j: int) -> bool {
    forall|m: int| i <= m < j ==> is_text_byte(#[trigger] s[m])
}

/// The mathematical shape of one tree entry: mode text, name text, and the
/// 20 raw bytes of the child digest.
#[verifier::ext_equal]
pub ghost struct EntryModel {
    pub mode: Seq<u8>,
    pub name: Seq<u8>,
    pub id: Seq<u8>,
}

/// What a well-formed entry looks like: a non-empty mode of text bytes
/// without spaces, a name of text bytes (text excludes NUL), and a 20-byte
/// child digest. Decoding only ever produces such entries, and encoding
/// requires them.
pub open spec fn entry_wf(e: EntryModel) -> bool {
    &&& e.mode.len() > 0
    &&& forall|i: int|
        0 <= i < e.mode.len() ==> is_text_byte(#[trigger] e.mode[i]) && e.mode[i] != 32
    &&& forall|i: int| 0 <= i < e.name.len() ==> is_text_byte(#[trigger] e.name[i])
    &&& e.id.len() == 20
}

/// One decoded directory entry: mode (uninterpreted text, e.g. `40000` or
/// `100644`), name, and the child object's digest. Entries keep their
/// encoded order; nothing reorders or deduplicates them.
#[derive(Debug)]
pub struct TreeEntry {
    pub mode: Vec<u8>,
    pub name: Vec<u8>,
    pub id: Digest,
}

impl View for TreeEntry {
    type V = EntryModel;

    open spec fn view(&self) -> EntryModel {
        EntryModel { mode: self.mode@, name: self.name@, id: self.id@ }
    }
}

/// The models of a sequence of entries.
pub open spec fn entries_view(vs: Seq<TreeEntry>) -> Seq<EntryModel> {
    vs.map_values(|t: TreeEntry| t@)
}

/// The encoding of one entry: `<mode> <name>\0<20 raw digest bytes>`.
pub open spec fn encode_entry_bytes(e: EntryModel) -> Seq<u8> {
    e.mode + seq![32u8] + e.name + seq![0u8] + e.id
}

/// The encoding of a whole tree: the entries' encodings, concatenated in
/// order. This is exactly the content of a tree object.
pub open spec fn encode_tree_bytes(es: Seq<EntryModel>) -> Seq<u8>
    decreases es.len(),
{
    if es.len() == 0 {
        Seq::<u8>::empty()
    } else {
        encode_entry_bytes(es[0]) + encode_tree_bytes(es.skip(1))
    }
}

/// Decoding tree content from position `i`: either the input is exhausted
/// (the only valid termination), or one entry — mode up to the first
/// space, name up to the first NUL, then exactly 20 digest bytes — is read
/// and decoding continues after it. A missing space, an empty mode, a
/// missing NUL or fewer than 20 trailing bytes is `Corrupt`; a non-text
/// byte in mode or name is `Encoding`.
pub open spec fn spec_decode_tree(s: Seq<u8>, i: int) -> Result<Seq<EntryModel>, StoreError>
    decreases s.len() - i when 0 <= i <= s.len()
{
    if i == s.len() {
        Ok(Seq::<EntryModel>::empty())
    } else {
        let sp = idx_of(s, i, 32u8);
        if sp == s.len() {
            Err(StoreError::Corrupt)
        } else if sp == i {
            Err(StoreError::Corrupt)
        } else if !text_run(s, i, sp) {
            Err(StoreError::Encoding)
        } else {
            let nl = idx_of(s, sp + 1, 0u8);
            if nl == s.len() {
                Err(StoreError::Corrupt)
            } else if !text_run(s, sp + 1, nl) {
                Err(StoreError::Encoding)
            } else if !(i <= sp && sp + 1 <= nl && nl + 21 <= s.len()) {
                Err(StoreError::Corrupt)
            } else {
                match spec_decode_tree(s, nl + 21) {
                    Err(e) => Err(e),
                    Ok(rest) => Ok(
                        seq![
                            EntryModel {
                                mode: s.subrange(i, sp),
                                name: s.subrange(sp + 1, nl),
                                id: s.subrange(nl + 1, nl + 21),
                            },
                        ] + rest,
                    ),
                }
            }
        }
    }
}

/// Prepends already-decoded entries to the outcome of decoding the rest.
pub open spec fn prepend_entries(
    prefix: Seq<EntryModel>,
    r: Result<Seq<EntryModel>, StoreError>,
) -> Result<Seq<EntryModel>, StoreError> {
    match r {
        Ok(rest) => Ok(prefix + rest),
        Err(e) => Err(e),
    }
}

/// How an executable decode result must relate to the specification.
pub open spec fn tree_outcome_matches(s: Seq<u8>, r: Result<Vec<TreeEntry>, StoreError>) -> bool {
    match (spec_decode_tree(s, 0), r) {
        (Ok(es), Ok(v)) => entries_view(v@) == es,
        (Err(e), Err(e2)) => e == e2,
        _ => false,
    }
}

/// Checks that every byte is printable ASCII.
fn all_text(v: &Vec<u8>) -> (b: bool)
    ensures
        b == (forall|m: int| 0 <= m < v@.len() ==> is_text_byte(#[trigger] v@[m])),
{
    let mut i: usize = 0;
    while i < v.len()
        invariant
            0 <= i <= v@.len(),
            forall|m: int| 0 <= m < i ==> is_text_byte(#[trigger] v@[m]),
        decreases v@.len() - i,
    {
        let b = v[i];
        if b < 32 || b > 126 {
            proof {
                assert(!is_text_byte(v@[i as int]));
            }
            return false;
        }
        i = i + 1;
    }
    true
}

/// Decodes a tree object's content into its ordered entries, exactly as
/// `spec_decode_tree` says: encoded order is kept, the only valid
/// termination is running out of bytes at an entry boundary, and every
/// truncated or malformed entry is an error, never a silent short read.
/// Every returned entry is well formed.
pub fn decode_tree(content: &Vec<u8>) -> (r: Result<Vec<TreeEntry>, StoreError>)
    ensures
        tree_outcome_matches(content@, r),
        r matches Ok(v) ==> forall|j: int|
            0 <= j < v@.len() ==> entry_wf(#[trigger] v@[j]@) && v@[j].id.wf(),
{
    let ghost s = content@;
    let mut out: Vec<TreeEntry> = Vec::new();
    let mut i: usize = 0;
    while i < content.len()
        invariant
            0 <= i <= s.len(),
            s == content@,
            spec_decode_tree(s, 0) == prepend_entries(
                entries_view(out@),
                spec_decode_tree(s, i as int),
            ),
            forall|j: int| 0 <= j < out@.len() ==> entry_wf(#[trigger] out@[j]@) && out@[j].id.wf(),
        decreases s.len() - i,
    {
        let ghost i0 = i as int;
        let sp = find_byte(content, i, 32);
        proof {
            lemma_idx_of(s, i0, 32u8);
        }
        if sp == content.len() {
            return Err(StoreError::Corrupt);
        }
        if sp == i {
            return Err(StoreError::Corrupt);
        }
        let mode = subvec(content, i, sp);
        proof {
            assert(mode@ =~= s.subrange(i0, sp as int));
        }
        if !all_text(&mode) {
            proof {
                let m = choose|m: int| 0 <= m < mode@.len() && !is_text_byte(mode@[m]);
                assert(s[i0 + m] == mode@[m]);
                assert(!text_run(s, i0, sp as int));
            }
            return Err(StoreError::Encoding);
        }
        proof {
            assert forall|m: int| i0 <= m < sp as int implies is_text_byte(#[trigger] s[m]) by {
                assert(s[m] == mode@[m - i0]);
            }
        }
        let nl = find_byte(content, sp + 1, 0);
        proof {
            lemma_idx_of(s, sp as int + 1, 0u8);
        }
        if nl == content.len() {
            return Err(StoreError::Corrupt);
        }
        let name = subvec(content, sp + 1, nl);
        proof {
            assert(name@ =~= s.subrange(sp as int + 1, nl as int));
        }
        if !all_text(&name) {
            proof {
                let m = choose|m: int| 0 <= m < name@.len() && !is_text_byte(name@[m]);
                assert(s[sp as int + 1 + m] == name@[m]);
                assert(!text_run(s, sp as int + 1, nl as int));
            }
            return Err(StoreError::Encoding);
        }
        proof {
            assert forall|m: int| sp as int + 1 <= m < nl as int implies is_text_byte(
                #[trigger] s[m],
            ) by {
                assert(s[m] == name@[m - (sp as int + 1)]);
            }
        }
        if content.len() - nl - 1 < 20 {
            proof {
                assert(!(i0 <= sp as int && sp as int + 1 <= nl as int && nl as int + 21
                    <= s.len()));
            }
            return Err(StoreError::Corrupt);
        }
        let id_bytes = subvec(content, nl + 1, nl + 21);
        proof {
            assert(id_bytes@ =~= s.subrange(nl as int + 1, nl as int + 21));
        }
        let entry = TreeEntry { mode, name, id: Digest::from_bytes(id_bytes) };
        let ghost out0 = out@;
        out.push(entry);
        i = nl + 21;
        proof {
            let em = EntryModel {
                mode: s.subrange(i0, sp as int),
                name: s.subrange(sp as int + 1, nl as int),
                id: s.subrange(nl as int + 1, nl as int + 21),
            };
            assert(out@ == out0.push(entry));
            assert(entry@ =~~= em);
            assert(entries_view(out@) =~= entries_view(out0).push(em));
            assert(spec_decode_tree(s, i0) == (match spec_decode_tree(s, nl as int + 21) {
                Err(e) => Err::<Seq<EntryModel>, StoreError>(e),
                Ok(rest) => Ok::<Seq<EntryModel>, StoreError>(seq![em] + rest),
            }));
            let r2 = spec_decode_tree(s, i as int);
            if r2 is Ok {
                let rest = r2->Ok_0;
                assert(entries_view(out0) + (seq![em] + rest) =~= entries_view(out@) + rest);
            }
        }
    }
    proof {
        assert(spec_decode_tree(s, i as int) == Ok::<Seq<EntryModel>, StoreError>(
            Seq::<EntryModel>::empty(),
        ));
        assert(entries_view(out@) + Seq::<EntryModel>::empty() =~= entries_view(out@));
    }
    Ok(out)
}

/// Appending one entry to a tree appends its encoding.
proof fn lemma_encode_tree_snoc(es: Seq<EntryModel>, e: EntryModel)
    ensures
        encode_tree_bytes(es.push(e)) == encode_tree_bytes(es) + encode_entry_bytes(e),
    decreases es.len(),
{
    if es.len() == 0 {
        assert(es.push(e)[0] == e);
        assert(es.push(e).skip(1) =~= Seq::<EntryModel>::empty());
        assert(encode_tree_bytes(es.push(e)) == encode_entry_bytes(e) + encode_tree_bytes(
            Seq::<EntryModel>::empty(),
        ));
        assert(encode_entry_bytes(e) + Seq::<u8>::empty() =~= Seq::<u8>::empty()
            + encode_entry_bytes(e));
    } else {
        lemma_encode_tree_snoc(es.skip(1), e);
        assert(es.push(e)[0] == es[0]);
        assert(es.push(e).skip(1) =~= es.skip(1).push(e));
        assert(encode_tree_bytes(es.push(e)) == encode_entry_bytes(es[0]) + (encode_tree_bytes(
            es.skip(1),
        ) + encode_entry_bytes(e)));
        assert(encode_entry_bytes(es[0]) + (encode_tree_bytes(es.skip(1)) + encode_entry_bytes(e))
            =~= (encode_entry_bytes(es[0]) + encode_tree_bytes(es.skip(1))) + encode_entry_bytes(
            e,
        ));
    }
}

/// Encodes entries in order, exactly as `encode_tree_bytes` says.
pub fn encode_tree(entries: &Vec<TreeEntry>) -> (r: Vec<u8>)
    requires
        forall|j: int| 0 <= j < entries@.len() ==> entry_wf(#[trigger] entries@[j]@),
    ensures
        r@ == encode_tree_bytes(entries_view(entries@)),
{
    let ghost evs = entries_view(entries@);
    let mut r: Vec<u8> = Vec::new();
    let mut ix: usize = 0;
    while ix < entries.len()
        invariant
            0 <= ix <= entries@.len(),
            evs == entries_view(entries@),
            forall|j: int| 0 <= j < entries@.len() ==> entry_wf(#[trigger] entries@[j]@),
            r@ == encode_tree_bytes(evs.take(ix as int)),
        decreases entries@.len() - ix,
    {
        let e = &entries[ix];
        extend_from(&mut r, &e.mode);
        r.push(32);
        extend_from(&mut r, &e.name);
        r.push(0);
        extend_from(&mut r, &e.id.bytes);
        proof {
            lemma_encode_tree_snoc(evs.take(ix as int), evs[ix as int]);
            assert(evs.take(ix as int).push(evs[ix as int]) =~= evs.take(ix as int + 1));
            assert(r@ =~= encode_tree_bytes(evs.take(ix as int)) + encode_entry_bytes(
                evs[ix as int],
            ));
        }
        ix = ix + 1;
    }
    proof {
        assert(evs.take(entries@.len() as int) =~= evs);
    }
    r
}

/// The encoding of a non-empty tree starts with its first entry's
/// encoding, which is at least 23 bytes (a mode byte, the space, the NUL,
/// and 20 digest bytes).
proof fn lemma_encode_tree_min_len(es: Seq<EntryModel>)
    requires
        es.len() > 0,
        entry_wf(es[0]),
    ensures
        encode_tree_bytes(es).len() >= encode_entry_bytes(es[0]).len(),
        encode_entry_bytes(es[0]).len() >= 23,
        encode_entry_bytes(es[0]).len() == es[0].mode.len() + 1 + es[0].name.len() + 21,
{
}

/// Truncation detection: a tree encoding whose final entry is missing
/// between one and all twenty trailing digest bytes decodes to `Corrupt`,
/// never to a silently shortened listing.
pub proof fn lemma_tree_truncation(es: Seq<EntryModel>, k: int)
    requires
        es.len() > 0,
        forall|j: int| 0 <= j < es.len() ==> entry_wf(#[trigger] es[j]),
        1 <= k <= 20,
    ensures
        encode_tree_bytes(es).len() >= k,
        spec_decode_tree(encode_tree_bytes(es).take(encode_tree_bytes(es).len() - k), 0)
            == Err::<Seq<EntryModel>, StoreError>(StoreError::Corrupt),
{
    lemma_encode_tree_min_len(es);
    let t = encode_tree_bytes(es).take(encode_tree_bytes(es).len() - k);
    assert(t.skip(0) =~= t);
    lemma_decode_truncated(t, 0, es, k);
}

/// Generalized truncation: if the bytes of `s` from `i` on are the
/// encoding of the non-empty `es` short of `k` final digest bytes,
/// decoding from `i` reports `Corrupt`.
#[verifier::rlimit(60)]
proof fn lemma_decode_truncated(s: Seq<u8>, i: int, es: Seq<EntryModel>, k: int)
    requires
        0 <= i <= s.len(),
        es.len() > 0,
        forall|j: int| 0 <= j < es.len() ==> entry_wf(#[trigger] es[j]),
        1 <= k <= 20,
        k <= encode_tree_bytes(es).len(),
        s.skip(i) == encode_tree_bytes(es).take(encode_tree_bytes(es).len() - k),
    ensures
        spec_decode_tree(s, i) == Err::<Seq<EntryModel>, StoreError>(StoreError::Corrupt),
    decreases es.len(),
{
    let e = es[0];
    let enc = encode_entry_bytes(e);
    let full = encode_tree_bytes(es);
    let rest = encode_tree_bytes(es.skip(1));
    assert(full == enc + rest);
    let ml = e.mode.len() as int;
    let nlen = e.name.len() as int;
    let sp = i + ml;
    let nul = sp + 1 + nlen;
    let tlen = full.len() - k;
    lemma_encode_tree_min_len(es);
    assert(0 <= tlen <= full.len());
    assert(s.skip(i).len() == s.len() - i);
    assert(full.take(tlen).len() == tlen);
    assert(s.len() == i + tlen);
    if es.len() == 1 {
        assert(es.skip(1) =~= Seq::<EntryModel>::empty());
        assert(rest.len() == 0);
        assert(tlen == enc.len() - k);
        assert(enc.len() == ml + 1 + nlen + 21);
        assert forall|m: int| i <= m < i + tlen implies s[m] == enc[m - i] by {
            assert(s.skip(i)[m - i] == s[m]);
            assert(full.take(tlen)[m - i] == full[m - i]);
        }
        assert(s[sp] == 32u8);
        assert forall|m: int| i <= m < sp implies s[m] != 32u8 by {
            assert(s[m] == e.mode[m - i]);
        }
        lemma_idx_of_found(s, i, 32u8, sp);
        assert forall|m: int| i <= m < sp implies is_text_byte(#[trigger] s[m]) by {
            assert(s[m] == e.mode[m - i]);
        }
        assert(s[nul] == 0u8);
        assert forall|m: int| sp + 1 <= m < nul implies s[m] != 0u8 by {
            assert(s[m] == e.name[m - (sp + 1)]);
            assert(is_text_byte(e.name[m - (sp + 1)]));
        }
        lemma_idx_of_found(s, sp + 1, 0u8, nul);
        assert forall|m: int| sp + 1 <= m < nul implies is_text_byte(#[trigger] s[m]) by {
            assert(s[m] == e.name[m - (sp + 1)]);
        }
        // the trailing digest bytes are short by exactly k
        assert(s.len() == nul + 21 - k);
        assert(!(i <= sp && sp + 1 <= nul && nul + 21 <= s.len()));
    } else {
        lemma_encode_tree_min_len(es.skip(1));
        assert(es.skip(1)[0] == es[1]);
        assert(rest.len() >= 23);
        assert(tlen >= enc.len() + 3);
        let next = nul + 21;
        assert(next - i == enc.len());
        assert forall|m: int| i <= m < i + enc.len() implies s[m] == enc[m - i] by {
            assert(s.skip(i)[m - i] == s[m]);
            assert(full.take(tlen)[m - i] == full[m - i]);
        }
        assert(s[sp] == 32u8);
        assert forall|m: int| i <= m < sp implies s[m] != 32u8 by {
            assert(s[m] == e.mode[m - i]);
        }
        lemma_idx_of_found(s, i, 32u8, sp);
        assert forall|m: int| i <= m < sp implies is_text_byte(#[trigger] s[m]) by {
            assert(s[m] == e.mode[m - i]);
        }
        assert(s[nul] == 0u8);
        assert forall|m: int| sp + 1 <= m < nul implies s[m] != 0u8 by {
            assert(s[m] == e.name[m - (sp + 1)]);
            assert(is_text_byte(e.name[m - (sp + 1)]));
        }
        lemma_idx_of_found(s, sp + 1, 0u8, nul);
        assert forall|m: int| sp + 1 <= m < nul implies is_text_byte(#[trigger] s[m]) by {
            assert(s[m] == e.name[m - (sp + 1)]);
        }
        // the remainder is the encoding of the remaining entries, still
        // short by k
        assert(s.skip(next) =~= rest.take(rest.len() - k)) by {
            assert forall|m: int| 0 <= m < s.len() - next implies s.skip(next)[m] == rest.take(
                rest.len() - k,
            )[m] by {
                assert(s.skip(next)[m] == s[next + m]);
                assert(s.skip(i)[next + m - i] == s[next + m]);
                assert(full.take(tlen)[next + m - i] == full[enc.len() + m]);
                assert((enc + rest)[enc.len() + m] == rest[m]);
            }
        }
        assert forall|j: int| 0 <= j < es.skip(1).len() implies entry_wf(
            #[trigger] es.skip(1)[j],
        ) by {
            assert(es.skip(1)[j] == es[j + 1]);
        }
        lemma_decode_truncated(s, next, es.skip(1), k);
    }
}

/// Tree symmetry: decoding the encoding of any well-formed entries gives
/// back exactly those entries, in order, with identical mode, name and
/// child digest.
pub proof fn lemma_tree_round_trip(es: Seq<EntryModel>)
    requires
        forall|j: int| 0 <= j < es.len() ==> entry_wf(#[trigger] es[j]),
    ensures
        spec_decode_tree(encode_tree_bytes(es), 0) == Ok::<Seq<EntryModel>, StoreError>(es),
{
    assert(encode_tree_bytes(es).skip(0) =~= encode_tree_bytes(es));
    lemma_decode_encoded_suffix(encode_tree_bytes(es), 0, es);
}

/// Generalized round trip: if the bytes of `s` from `i` on are exactly the
/// encoding of `es`, decoding from `i` yields `es`.
#[verifier::rlimit(60)]
proof fn lemma_decode_encoded_suffix(s: Seq<u8>, i: int, es: Seq<EntryModel>)
    requires
        0 <= i <= s.len(),
        s.skip(i) == encode_tree_bytes(es),
        forall|j: int| 0 <= j < es.len() ==> entry_wf(#[trigger] es[j]),
    ensures
        spec_decode_tree(s, i) == Ok::<Seq<EntryModel>, StoreError>(es),
    decreases es.len(),
{
    if es.len() == 0 {
        assert(s.skip(i).len() == 0);
        assert(i == s.len());
        assert(es =~= Seq::<EntryModel>::empty());
    } else {
        let e = es[0];
        let enc = encode_entry_bytes(e);
        let rest = encode_tree_bytes(es.skip(1));
        assert(encode_tree_bytes(es) == enc + rest);
        let ml = e.mode.len() as int;
        let nl_ = e.name.len() as int;
        let sp = i + ml;
        let nul = sp + 1 + nl_;
        let next = nul + 21;
        assert(s.len() == i + enc.len() + rest.len());
        assert(next <= s.len());
        assert forall|m: int| i <= m < next implies s[m] == enc[m - i] by {
            assert(s.skip(i)[m - i] == s[m]);
        }
        // the first space after i closes the mode field
        assert(s[sp] == 32u8);
        assert forall|m: int| i <= m < sp implies s[m] != 32u8 by {
            assert(s[m] == e.mode[m - i]);
        }
        lemma_idx_of_found(s, i, 32u8, sp);
        // the first NUL after the space closes the name field
        assert(s[nul] == 0u8);
        assert forall|m: int| sp + 1 <= m < nul implies s[m] != 0u8 by {
            assert(s[m] == e.name[m - (sp + 1)]);
            assert(is_text_byte(e.name[m - (sp + 1)]));
        }
        lemma_idx_of_found(s, sp + 1, 0u8, nul);
        // both fields are text
        assert forall|m: int| i <= m < sp implies is_text_byte(#[trigger] s[m]) by {
            assert(s[m] == e.mode[m - i]);
        }
        assert forall|m: int| sp + 1 <= m < nul implies is_text_byte(#[trigger] s[m]) by {
            assert(s[m] == e.name[m - (sp + 1)]);
        }
        // the decoded fields are exactly the entry's fields
        assert(s.subrange(i, sp) =~= e.mode);
        assert(s.subrange(sp + 1, nul) =~= e.name);
        assert(s.subrange(nul + 1, nul + 21) =~= e.id);
        let em = EntryModel {
            mode: s.subrange(i, sp),
            name: s.subrange(sp + 1, nul),
            id: s.subrange(nul + 1, nul + 21),
        };
        assert(em =~~= e);
        // the remainder is the encoding of the remaining entries
        assert(s.skip(next) =~= rest) by {
            assert forall|m: int| 0 <= m < s.len() - next implies s.skip(next)[m] == rest[m] by {
                assert(s.skip(next)[m] == s[next + m]);
                assert(s.skip(i)[next + m - i] == s[next + m]);
                assert((enc + rest)[next + m - i] == rest[m]);
            }
        }
        lemma_decode_encoded_suffix(s, next, es.skip(1));
        assert(seq![e] + es.skip(1) =~= es);
    }
}

} // verus!
