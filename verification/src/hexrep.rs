use vstd::prelude::*;

verus! {

/// The lower-case ASCII hex digit for a value below 16.
pub open spec fn hex_digit(n: u8) -> u8 {
    if n < 10 {
        (48 + n) as u8
    } else {
        (87 + n) as u8
    }
}

/// Lower-case hex encoding of a byte string: two digits per byte.
pub open spec fn hex_bytes_of(s: Seq<u8>) -> Seq<u8>
    decreases s.len(),
{
    if s.len() == 0 {
        Seq::empty()
    } else {
        seq![hex_digit(s[0] / 16), hex_digit(s[0] % 16)] + hex_bytes_of(s.drop_first())
    }
}

/// Hex encodings are twice as long as their input and pure ASCII.
pub proof fn lemma_hex_bytes_shape(s: Seq<u8>)
    ensures
        hex_bytes_of(s).len() == 2 * s.len(),
        forall|i: int|
            0 <= i < hex_bytes_of(s).len() ==> 48 <= #[trigger] hex_bytes_of(s)[i] < 123,
    decreases s.len(),
{
    if s.len() > 0 {
        lemma_hex_bytes_shape(s.drop_first());
    }
}

/// Lower-case hex encoding, two digits per byte.
pub fn hex_encode(v: &Vec<u8>) -> (r: Vec<u8>)
    ensures
        r@ == hex_bytes_of(v@),
{
    let mut r: Vec<u8> = Vec::new();
    let mut i: usize = 0;
    proof {
        assert(v@.skip(0) =~= v@);
    }
    while i < v.len()
        invariant
            0 <= i <= v@.len(),
            hex_bytes_of(v@) == r@ + hex_bytes_of(v@.skip(i as int)),
        decreases v@.len() - i,
    {
        let b = v[i];
        let hi = b / 16;
        let lo = b % 16;
        r.push(if hi < 10 {
            48 + hi
        } else {
            87 + hi
        });
        r.push(if lo < 10 {
            48 + lo
        } else {
            87 + lo
        });
        proof {
            assert(v@.skip(i as int).drop_first() =~= v@.skip(i + 1));
            assert(v@.skip(i as int)[0] == v@[i as int]);
            assert(hex_bytes_of(v@.skip(i as int)) == seq![
                hex_digit(b / 16),
                hex_digit(b % 16),
            ] + hex_bytes_of(v@.skip(i + 1)));
            assert(hex_bytes_of(v@) =~= r@ + hex_bytes_of(v@.skip(i + 1)));
        }
        i = i + 1;
    }
    proof {
        assert(v@.skip(v@.len() as int) =~= Seq::<u8>::empty());
        assert(hex_bytes_of(v@) =~= r@);
    }
    r
}

} // verus!
