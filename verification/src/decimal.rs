use vstd::prelude::*;

verus! {

/// ASCII decimal digits, as they appear in an object header's size field.
pub open spec fn is_digit(b: u8) -> bool {
    48 <= b <= 57
}

pub open spec fn all_digits(s: Seq<u8>) -> bool {
    forall|i: int| 0 <= i < s.len() ==> is_digit(#[trigger] s[i])
}

/// The value of a sequence of ASCII digits, most significant first.
pub open spec fn digits_value(s: Seq<u8>) -> nat
    decreases s.len(),
{
    if s.len() == 0 {
        0
    } else {
        digits_value(s.drop_last()) * 10 + (s.last() - 48) as nat
    }
}

/// The canonical ASCII decimal representation of `n`: no sign, no leading
/// zeros (except for `0` itself).
pub open spec fn dec_repr(n: nat) -> Seq<u8>
    decreases n,
{
    if n < 10 {
        seq![(48 + n) as u8]
    } else {
        dec_repr(n / 10).push((48 + n % 10) as u8)
    }
}

/// A size field parses when it is non-empty, all digits, and its value fits
/// the machine's size type.
pub open spec fn spec_parse_size(s: Seq<u8>) -> Option<int> {
    if s.len() == 0 || !all_digits(s) {
        None
    } else if digits_value(s) > usize::MAX {
        None
    } else {
        Some(digits_value(s) as int)
    }
}

pub proof fn lemma_dec_repr_digits(n: nat)
    ensures
        dec_repr(n).len() > 0,
        all_digits(dec_repr(n)),
    decreases n,
{
    if n >= 10 {
        lemma_dec_repr_digits(n / 10);
        assert forall|i: int| 0 <= i < dec_repr(n).len() implies is_digit(#[trigger] dec_repr(n)[i]) by {
            if i < dec_repr(n / 10).len() {
                assert(dec_repr(n)[i] == dec_repr(n / 10)[i]);
            }
        }
    }
}

/// Parsing inverts printing: the decimal representation of `n` evaluates
/// back to `n`.
pub proof fn lemma_dec_repr_value(n: nat)
    ensures
        digits_value(dec_repr(n)) == n,
    decreases n,
{
    if n < 10 {
        let s1 = dec_repr(n);
        assert(s1 == seq![(48 + n) as u8]);
        assert(s1.len() == 1);
        assert(s1.last() == (48 + n) as u8);
        assert(s1.drop_last() =~= Seq::<u8>::empty());
        assert(digits_value(s1) == digits_value(s1.drop_last()) * 10 + (s1.last() - 48) as nat);
        assert(digits_value(Seq::<u8>::empty()) == 0);
        assert(((48 + n) as u8 - 48) as nat == n);
    } else {
        lemma_dec_repr_value(n / 10);
        assert(dec_repr(n).drop_last() =~= dec_repr(n / 10));
        assert(dec_repr(n).last() == (48 + n % 10) as u8);
        assert(digits_value(dec_repr(n)) == (n / 10) * 10 + ((48 + n % 10) as u8 - 48) as nat);
        assert(((48 + n % 10) as u8 - 48) as nat == n % 10);
        assert((n / 10) * 10 + n % 10 == n);
    }
}

/// A digit appended multiplies the value by ten and adds the digit.
pub proof fn lemma_digits_value_push(s: Seq<u8>, b: u8)
    ensures
        digits_value(s.push(b)) == digits_value(s) * 10 + (b - 48) as nat,
{
    assert(s.push(b).drop_last() =~= s);
    assert(s.push(b).last() == b);
}

/// The value of a digit string never shrinks as the string grows.
pub proof fn lemma_digits_value_prefix_le(s: Seq<u8>, i: int, j: int)
    requires
        0 <= i <= j <= s.len(),
    ensures
        digits_value(s.subrange(0, i)) <= digits_value(s.subrange(0, j)),
    decreases j - i,
{
    if i < j {
        lemma_digits_value_prefix_le(s, i, j - 1);
        let p = s.subrange(0, j - 1);
        assert(s.subrange(0, j).drop_last() =~= p);
        assert(digits_value(s.subrange(0, j)) == digits_value(p) * 10 + (s[j - 1] - 48) as nat);
        assert(digits_value(p) <= digits_value(p) * 10) by (nonlinear_arith);
    }
}

/// Prints `n` in decimal, matching `dec_repr` exactly.
pub fn encode_dec(n: usize) -> (r: Vec<u8>)
    ensures
        r@ == dec_repr(n as nat),
    decreases n,
{
    if n < 10 {
        let mut r: Vec<u8> = Vec::new();
        r.push(48 + n as u8);
        proof {
            assert(r@ =~= dec_repr(n as nat));
        }
        r
    } else {
        let mut r = encode_dec(n / 10);
        r.push(48 + (n % 10) as u8);
        proof {
            assert(r@ =~= dec_repr(n as nat));
        }
        r
    }
}

/// Parses an ASCII decimal size field: rejects an empty field, a non-digit
/// byte, and a value above the machine's size limit, exactly as
/// `spec_parse_size` says.
pub fn parse_size(s: &Vec<u8>) -> (r: Option<usize>)
    ensures
        (r matches Some(v) ==> spec_parse_size(s@) == Some(v as int)),
        (r is None ==> spec_parse_size(s@) is None),
{
    if s.len() == 0 {
        return None;
    }
    let mut acc: usize = 0;
    let mut i: usize = 0;
    while i < s.len()
        invariant
            0 <= i <= s@.len(),
            all_digits(s@.subrange(0, i as int)),
            acc == digits_value(s@.subrange(0, i as int)),
        decreases s@.len() - i,
    {
        let b = s[i];
        if b < 48 || b > 57 {
            proof {
                assert(!is_digit(s@[i as int]));
            }
            return None;
        }
        let d = (b - 48) as usize;
        if acc > (usize::MAX - d) / 10 {
            proof {
                let p = s@.subrange(0, i as int);
                lemma_digits_value_push(p, b);
                assert(p.push(b) =~= s@.subrange(0, i as int + 1));
                assert(acc * 10 + d > usize::MAX) by (nonlinear_arith)
                    requires
                        acc > (usize::MAX - d) / 10,
                        d < 10,
                ;
                lemma_digits_value_prefix_le(s@, i as int + 1, s@.len() as int);
                assert(s@.subrange(0, s@.len() as int) =~= s@);
                assert(digits_value(s@) > usize::MAX);
            }
            return None;
        }
        proof {
            let p = s@.subrange(0, i as int);
            lemma_digits_value_push(p, b);
            assert(p.push(b) =~= s@.subrange(0, i as int + 1));
            assert(acc * 10 + d <= usize::MAX) by (nonlinear_arith)
                requires
                    acc <= (usize::MAX - d) / 10,
                    d < 10,
            ;
        }
        acc = acc * 10 + d;
        i = i + 1;
    }
    proof {
        assert(s@.subrange(0, s@.len() as int) =~= s@);
    }
    Some(acc)
}

} // verus!
