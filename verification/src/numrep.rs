use vstd::prelude::*;

verus! {

/// ASCII decimal digits of `n`, most significant first, with no leading
/// zeros (just `"0"` for zero).
pub open spec fn dec_digits_of(n: nat) -> Seq<u8>
    decreases n,
{
    if n < 10 {
        seq![(48 + n) as u8]
    } else {
        dec_digits_of(n / 10).push((48 + n % 10) as u8)
    }
}

/// Is `b` an ASCII decimal digit?
pub open spec fn is_dec_digit(b: u8) -> bool {
    48 <= b <= 57
}

/// Numeric value of a digit string, most significant first.
pub open spec fn dec_value_of(s: Seq<u8>) -> nat
    decreases s.len(),
{
    if s.len() == 0 {
        0
    } else {
        dec_value_of(s.drop_last()) * 10 + (if s.last() >= 48 {
            (s.last() - 48) as nat
        } else {
            0
        })
    }
}

/// `dec_digits_of` produces at least one byte, all of them digits.
pub proof fn lemma_dec_digits_are_digits(n: nat)
    ensures
        dec_digits_of(n).len() >= 1,
        forall|i: int| 0 <= i < dec_digits_of(n).len() ==> is_dec_digit(#[trigger] dec_digits_of(n)[i]),
    decreases n,
{
    if n >= 10 {
        lemma_dec_digits_are_digits(n / 10);
    }
}

/// Reading the digits of `n` back as a number gives `n`.
pub proof fn lemma_dec_roundtrip(n: nat)
    ensures
        dec_value_of(dec_digits_of(n)) == n,
    decreases n,
{
    if n < 10 {
        let s = dec_digits_of(n);
        assert(s =~= seq![(48 + n) as u8]);
        assert(s.drop_last() =~= Seq::<u8>::empty());
        assert(s.last() == (48 + n) as u8);
        assert(dec_value_of(s.drop_last()) == 0);
        assert(dec_value_of(s) == 0 * 10 + ((48 + n) as u8 - 48) as nat);
        assert(((48 + n) as u8 - 48) as nat == n);
    } else {
        lemma_dec_roundtrip(n / 10);
        let s = dec_digits_of(n);
        assert(s =~= dec_digits_of(n / 10).push((48 + n % 10) as u8));
        assert(s.drop_last() =~= dec_digits_of(n / 10));
        assert(s.last() == (48 + n % 10) as u8);
        assert(s.len() == dec_digits_of(n / 10).len() + 1 >= 1);
        assert(dec_value_of(s) == dec_value_of(s.drop_last()) * 10 + ((48 + n % 10) as u8
            - 48) as nat);
        assert(dec_value_of(s) == (n / 10) * 10 + n % 10);
        assert(n / 10 * 10 + n % 10 == n) by (nonlinear_arith);
    }
}

/// The decimal digits of `n`, most significant first.
pub fn u64_to_dec(n: u64) -> (r: Vec<u8>)
    ensures
        r@ == dec_digits_of(n as nat),
    decreases n,
{
    if n < 10 {
        let mut v: Vec<u8> = Vec::new();
        v.push((48 + n) as u8);
        proof {
            assert(v@ =~= dec_digits_of(n as nat));
        }
        v
    } else {
        let mut v = u64_to_dec(n / 10);
        v.push((48 + n % 10) as u8);
        proof {
            assert(v@ =~= dec_digits_of(n as nat));
        }
        v
    }
}

} // verus!
