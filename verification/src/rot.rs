use vstd::prelude::*;

verus! {

/// ASCII code points that bound the two alphabets.
pub const UPPER_A: u8 = 65;
pub const UPPER_M: u8 = 77;
pub const UPPER_N: u8 = 78;
pub const UPPER_Z: u8 = 90;
pub const LOWER_A: u8 = 97;
pub const LOWER_M: u8 = 109;
pub const LOWER_N: u8 = 110;
pub const LOWER_Z: u8 = 122;

/// One step of the reversible letter rotation: an ASCII letter moves 13
/// positions within its case's alphabet; every other byte is unchanged.
pub open spec fn rot_byte(b: u8) -> u8 {
    if UPPER_A <= b && b <= UPPER_M {
        (b + 13) as u8
    } else if UPPER_N <= b && b <= UPPER_Z {
        (b - 13) as u8
    } else if LOWER_A <= b && b <= LOWER_M {
        (b + 13) as u8
    } else if LOWER_N <= b && b <= LOWER_Z {
        (b - 13) as u8
    } else {
        b
    }
}

/// The rotation applied to every byte of a text.
pub open spec fn rot_seq(s: Seq<u8>) -> Seq<u8> {
    Seq::new(s.len(), |i: int| rot_byte(s[i]))
}

/// The rotation is its own inverse: decoding an encoded text (or encoding a
/// decoded one) yields the original, for every byte string.
pub proof fn lemma_rot_involutive(s: Seq<u8>)
    ensures
        rot_seq(rot_seq(s)) == s,
{
    assert(rot_seq(rot_seq(s)) =~= s);
}

/// Applies the case-preserving 13-position alphabetic rotation to a text.
pub fn rot13(v: &[u8]) -> (r: Vec<u8>)
    ensures
        r@ == rot_seq(v@),
{
    let mut r: Vec<u8> = Vec::new();
    let n = v.len();
    for i in 0..n
        invariant
            n == v@.len(),
            r@ =~= rot_seq(v@).take(i as int),
    {
        let b = v[i];
        let t: u8 = if UPPER_A <= b && b <= UPPER_M {
            b + 13
        } else if UPPER_N <= b && b <= UPPER_Z {
            b - 13
        } else if LOWER_A <= b && b <= LOWER_M {
            b + 13
        } else if LOWER_N <= b && b <= LOWER_Z {
            b - 13
        } else {
            b
        };
        r.push(t);
        assert(r@ =~= rot_seq(v@).take(i + 1));
    }
    assert(rot_seq(v@).take(n as int) =~= rot_seq(v@));
    r
}

} // verus!
