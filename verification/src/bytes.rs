use vstd::prelude::*;

verus! {

/// The index of the first occurrence of `b` in `s` at or after `i`;
/// `s.len()` when there is none.
pub open spec fn idx_of(s: Seq<u8>, i: int, b: u8) -> int
    decreases s.len() - i when 0 <= i <= s.len()
{
    if i >= s.len() {
        s.len() as int
    } else if s[i] == b {
        i
    } else {
        idx_of(s, i + 1, b)
    }
}

/// What `idx_of` returns: an in-range index that hits `b` first, or the
/// length when `b` does not occur.
pub proof fn lemma_idx_of(s: Seq<u8>, i: int, b: u8)
    requires
        0 <= i <= s.len(),
    ensures
        i <= idx_of(s, i, b) <= s.len(),
        idx_of(s, i, b) < s.len() ==> s[idx_of(s, i, b)] == b,
        forall|j: int| i <= j < idx_of(s, i, b) ==> s[j] != b,
    decreases s.len() - i,
{
    if i < s.len() && s[i] != b {
        lemma_idx_of(s, i + 1, b);
    }
}

/// `idx_of` finds exactly the index whose earlier positions all miss `b`.
pub proof fn lemma_idx_of_found(s: Seq<u8>, i: int, b: u8, j: int)
    requires
        0 <= i <= j < s.len(),
        s[j] == b,
        forall|m: int| i <= m < j ==> s[m] != b,
    ensures
        idx_of(s, i, b) == j,
    decreases j - i,
{
    if i < j {
        lemma_idx_of_found(s, i + 1, b, j);
    }
}

/// Scans for the first occurrence of `b` at or after `from`.
pub fn find_byte(v: &Vec<u8>, from: usize, b: u8) -> (r: usize)
    requires
        from <= v@.len(),
    ensures
        r == idx_of(v@, from as int, b),
{
    let mut i: usize = from;
    while i < v.len()
        invariant
            from <= i <= v@.len(),
            idx_of(v@, from as int, b) == idx_of(v@, i as int, b),
        decreases v@.len() - i,
    {
        if v[i] == b {
            return i;
        }
        i = i + 1;
    }
    i
}

/// Copies the bytes of `v` from `from` (inclusive) to `to` (exclusive).
pub fn subvec(v: &Vec<u8>, from: usize, to: usize) -> (r: Vec<u8>)
    requires
        from <= to <= v@.len(),
    ensures
        r@ == v@.subrange(from as int, to as int),
{
    let mut r: Vec<u8> = Vec::new();
    let mut i: usize = from;
    while i < to
        invariant
            from <= i <= to <= v@.len(),
            r@ =~= v@.subrange(from as int, i as int),
        decreases to - i,
    {
        r.push(v[i]);
        i = i + 1;
        proof {
            assert(r@ =~= v@.subrange(from as int, i as int));
        }
    }
    proof {
        assert(r@ =~= v@.subrange(from as int, to as int));
    }
    r
}

/// Appends all of `src` to `dst`.
pub fn extend_from(dst: &mut Vec<u8>, src: &Vec<u8>)
    ensures
        final(dst)@ == old(dst)@ + src@,
{
    let mut i: usize = 0;
    while i < src.len()
        invariant
            0 <= i <= src@.len(),
            dst@ =~= old(dst)@ + src@.subrange(0, i as int),
        decreases src@.len() - i,
    {
        dst.push(src[i]);
        i = i + 1;
        proof {
            assert(dst@ =~= old(dst)@ + src@.subrange(0, i as int));
        }
    }
    proof {
        assert(dst@ =~= old(dst)@ + src@);
    }
}

} // verus!
