//! The 128-bit word.
use vstd::prelude::*;

use crate::types::Word;

verus! {

impl Word for u128 {
    open spec fn spec_bytes() -> nat {
        16
    }

    open spec fn spec_modulus() -> nat {
        u128::MAX as nat + 1
    }

    open spec fn as_int(self) -> int {
        self as int
    }

    open spec fn spec_zero() -> Self {
        0u128
    }

    open spec fn spec_p() -> Self {
        0x9e3779b97f4a7c15f39cc0605cedc835u128
    }

    open spec fn spec_q() -> Self {
        0xb7e151628aed2a6abf7158809cf4f3c7u128
    }

    open spec fn spec_from_u8(v: u8) -> Self {
        v as u128
    }

    open spec fn wadd(self, o: Self) -> Self {
        if self + o > u128::MAX {
            (self + o - (u128::MAX + 1)) as u128
        } else {
            (self + o) as u128
        }
    }

    open spec fn wsub(self, o: Self) -> Self {
        if self - o < 0 {
            (self - o + (u128::MAX + 1)) as u128
        } else {
            (self - o) as u128
        }
    }

    open spec fn wxor(self, o: Self) -> Self {
        self ^ o
    }

    open spec fn rotl(self, s: Self) -> Self {
        let sh = s % 128;
        if sh == 0 {
            self
        } else {
            (self << sh) | (self >> (128 - sh) as u128)
        }
    }

    open spec fn rotr(self, s: Self) -> Self {
        let sh = s % 128;
        if sh == 0 {
            self
        } else {
            (self >> sh) | (self << (128 - sh) as u128)
        }
    }

    open spec fn le_bytes(self) -> Seq<u8> {
        seq![
            (self & 0xff) as u8,
            ((self >> 8) & 0xff) as u8,
            ((self >> 16) & 0xff) as u8,
            ((self >> 24) & 0xff) as u8,
            ((self >> 32) & 0xff) as u8,
            ((self >> 40) & 0xff) as u8,
            ((self >> 48) & 0xff) as u8,
            ((self >> 56) & 0xff) as u8,
            ((self >> 64) & 0xff) as u8,
            ((self >> 72) & 0xff) as u8,
            ((self >> 80) & 0xff) as u8,
            ((self >> 88) & 0xff) as u8,
            ((self >> 96) & 0xff) as u8,
            ((self >> 104) & 0xff) as u8,
            ((self >> 112) & 0xff) as u8,
            ((self >> 120) & 0xff) as u8,
        ]
    }

    open spec fn word_of_le(s: Seq<u8>) -> Self {
        (s[0] as u128) | ((s[1] as u128) << 8) | ((s[2] as u128) << 16) | ((s[3] as u128) << 24) | ((s[4] as u128) << 32) | ((s[5] as u128) << 40) | ((s[6] as u128) << 48) | ((s[7] as u128) << 56) | ((s[8] as u128) << 64) | ((s[9] as u128) << 72) | ((s[10] as u128) << 80) | ((s[11] as u128) << 88) | ((s[12] as u128) << 96) | ((s[13] as u128) << 104) | ((s[14] as u128) << 112) | ((s[15] as u128) << 120)
    }

    proof fn lemma_word_facts() {
        assert forall|x: u128, y: u128| (#[trigger] x.wadd(y)).as_int() == (x.as_int()
            + y.as_int()) % (Self::spec_modulus() as int) by {
            assert(x.wadd(y) as int == (x + y) % (u128::MAX + 1)) by (bit_vector);
        }
    }

    proof fn lemma_add_sub_cancel(self, o: Self) {
        assert(self.wadd(o).wsub(o) == self) by (bit_vector);
    }

    proof fn lemma_xor_cancel(self, o: Self) {
        assert((self ^ o) ^ o == self) by (bit_vector);
    }

    #[verifier::rlimit(100)]
    proof fn lemma_rot_cancel(self, s: Self) {
        assert(self.rotl(s).rotr(s) == self) by (bit_vector);
    }

    proof fn lemma_le_round_trip(self) {
        let s = self.le_bytes();
        let b0 = (self & 0xff) as u8;
        let b1 = ((self >> 8) & 0xff) as u8;
        let b2 = ((self >> 16) & 0xff) as u8;
        let b3 = ((self >> 24) & 0xff) as u8;
        let b4 = ((self >> 32) & 0xff) as u8;
        let b5 = ((self >> 40) & 0xff) as u8;
        let b6 = ((self >> 48) & 0xff) as u8;
        let b7 = ((self >> 56) & 0xff) as u8;
        let b8 = ((self >> 64) & 0xff) as u8;
        let b9 = ((self >> 72) & 0xff) as u8;
        let b10 = ((self >> 80) & 0xff) as u8;
        let b11 = ((self >> 88) & 0xff) as u8;
        let b12 = ((self >> 96) & 0xff) as u8;
        let b13 = ((self >> 104) & 0xff) as u8;
        let b14 = ((self >> 112) & 0xff) as u8;
        let b15 = ((self >> 120) & 0xff) as u8;
        assert((b0 as u128) | ((b1 as u128) << 8) | ((b2 as u128) << 16) | ((b3 as u128) << 24) | ((b4 as u128) << 32) | ((b5 as u128) << 40) | ((b6 as u128) << 48) | ((b7 as u128) << 56) | ((b8 as u128) << 64) | ((b9 as u128) << 72) | ((b10 as u128) << 80) | ((b11 as u128) << 88) | ((b12 as u128) << 96) | ((b13 as u128) << 104) | ((b14 as u128) << 112) | ((b15 as u128) << 120) == self) by (bit_vector)
            requires
                b0 == (self & 0xff) as u8,
                b1 == ((self >> 8) & 0xff) as u8,
                b2 == ((self >> 16) & 0xff) as u8,
                b3 == ((self >> 24) & 0xff) as u8,
                b4 == ((self >> 32) & 0xff) as u8,
                b5 == ((self >> 40) & 0xff) as u8,
                b6 == ((self >> 48) & 0xff) as u8,
                b7 == ((self >> 56) & 0xff) as u8,
                b8 == ((self >> 64) & 0xff) as u8,
                b9 == ((self >> 72) & 0xff) as u8,
                b10 == ((self >> 80) & 0xff) as u8,
                b11 == ((self >> 88) & 0xff) as u8,
                b12 == ((self >> 96) & 0xff) as u8,
                b13 == ((self >> 104) & 0xff) as u8,
                b14 == ((self >> 112) & 0xff) as u8,
                b15 == ((self >> 120) & 0xff) as u8,
        ;
        assert(Self::word_of_le(s) == (s[0] as u128) | ((s[1] as u128) << 8) | ((s[2] as u128) << 16) | ((s[3] as u128) << 24) | ((s[4] as u128) << 32) | ((s[5] as u128) << 40) | ((s[6] as u128) << 48) | ((s[7] as u128) << 56) | ((s[8] as u128) << 64) | ((s[9] as u128) << 72) | ((s[10] as u128) << 80) | ((s[11] as u128) << 88) | ((s[12] as u128) << 96) | ((s[13] as u128) << 104) | ((s[14] as u128) << 112) | ((s[15] as u128) << 120));
    }

    proof fn lemma_of_le_round_trip(s: Seq<u8>) {
        let b0 = s[0];
        let b1 = s[1];
        let b2 = s[2];
        let b3 = s[3];
        let b4 = s[4];
        let b5 = s[5];
        let b6 = s[6];
        let b7 = s[7];
        let b8 = s[8];
        let b9 = s[9];
        let b10 = s[10];
        let b11 = s[11];
        let b12 = s[12];
        let b13 = s[13];
        let b14 = s[14];
        let b15 = s[15];
        let x = Self::word_of_le(s);
        assert(x == (b0 as u128) | ((b1 as u128) << 8) | ((b2 as u128) << 16) | ((b3 as u128) << 24) | ((b4 as u128) << 32) | ((b5 as u128) << 40) | ((b6 as u128) << 48) | ((b7 as u128) << 56) | ((b8 as u128) << 64) | ((b9 as u128) << 72) | ((b10 as u128) << 80) | ((b11 as u128) << 88) | ((b12 as u128) << 96) | ((b13 as u128) << 104) | ((b14 as u128) << 112) | ((b15 as u128) << 120));
        assert((x & 0xff) as u8 == b0 && ((x >> 8) & 0xff) as u8 == b1 && ((x >> 16) & 0xff) as u8 == b2 && ((x >> 24) & 0xff) as u8 == b3 && ((x >> 32) & 0xff) as u8 == b4 && ((x >> 40) & 0xff) as u8 == b5 && ((x >> 48) & 0xff) as u8 == b6 && ((x >> 56) & 0xff) as u8 == b7 && ((x >> 64) & 0xff) as u8 == b8 && ((x >> 72) & 0xff) as u8 == b9 && ((x >> 80) & 0xff) as u8 == b10 && ((x >> 88) & 0xff) as u8 == b11 && ((x >> 96) & 0xff) as u8 == b12 && ((x >> 104) & 0xff) as u8 == b13 && ((x >> 112) & 0xff) as u8 == b14 && ((x >> 120) & 0xff) as u8 == b15) by (bit_vector)
            requires
                x == (b0 as u128) | ((b1 as u128) << 8) | ((b2 as u128) << 16) | ((b3 as u128) << 24) | ((b4 as u128) << 32) | ((b5 as u128) << 40) | ((b6 as u128) << 48) | ((b7 as u128) << 56) | ((b8 as u128) << 64) | ((b9 as u128) << 72) | ((b10 as u128) << 80) | ((b11 as u128) << 88) | ((b12 as u128) << 96) | ((b13 as u128) << 104) | ((b14 as u128) << 112) | ((b15 as u128) << 120),
        ;
        assert(x.le_bytes() =~= s);
    }

    fn bytes() -> usize {
        16
    }

    fn zero() -> Self {
        0
    }

    fn p() -> Self {
        0x9e3779b97f4a7c15f39cc0605cedc835
    }

    fn q() -> Self {
        0xb7e151628aed2a6abf7158809cf4f3c7
    }

    fn from_u8(val: u8) -> Self {
        val as u128
    }

    fn from_bytes_slice(slice: &[u8]) -> Option<Self> {
        if slice.len() != 16 {
            return None;
        }
        Some((slice[0] as u128) | ((slice[1] as u128) << 8u128) | ((slice[2] as u128) << 16u128) | ((slice[3] as u128) << 24u128) | ((slice[4] as u128) << 32u128) | ((slice[5] as u128) << 40u128) | ((slice[6] as u128) << 48u128) | ((slice[7] as u128) << 56u128) | ((slice[8] as u128) << 64u128) | ((slice[9] as u128) << 72u128) | ((slice[10] as u128) << 80u128) | ((slice[11] as u128) << 88u128) | ((slice[12] as u128) << 96u128) | ((slice[13] as u128) << 104u128) | ((slice[14] as u128) << 112u128) | ((slice[15] as u128) << 120u128))
    }

    fn to_bytes_slice(&self) -> Vec<u8> {
        let x = *self;
        proof {
            assert((x & 0xff) < 256 && ((x >> 8) & 0xff) < 256 && ((x >> 16) & 0xff) < 256 && ((x >> 24) & 0xff) < 256 && ((x >> 32) & 0xff) < 256 && ((x >> 40) & 0xff) < 256 && ((x >> 48) & 0xff) < 256 && ((x >> 56) & 0xff) < 256 && ((x >> 64) & 0xff) < 256 && ((x >> 72) & 0xff) < 256 && ((x >> 80) & 0xff) < 256 && ((x >> 88) & 0xff) < 256 && ((x >> 96) & 0xff) < 256 && ((x >> 104) & 0xff) < 256 && ((x >> 112) & 0xff) < 256 && ((x >> 120) & 0xff) < 256) by (bit_vector);
        }
        let mut v: Vec<u8> = Vec::new();
        v.push((x & 0xff) as u8);
        v.push(((x >> 8) & 0xff) as u8);
        v.push(((x >> 16) & 0xff) as u8);
        v.push(((x >> 24) & 0xff) as u8);
        v.push(((x >> 32) & 0xff) as u8);
        v.push(((x >> 40) & 0xff) as u8);
        v.push(((x >> 48) & 0xff) as u8);
        v.push(((x >> 56) & 0xff) as u8);
        v.push(((x >> 64) & 0xff) as u8);
        v.push(((x >> 72) & 0xff) as u8);
        v.push(((x >> 80) & 0xff) as u8);
        v.push(((x >> 88) & 0xff) as u8);
        v.push(((x >> 96) & 0xff) as u8);
        v.push(((x >> 104) & 0xff) as u8);
        v.push(((x >> 112) & 0xff) as u8);
        v.push(((x >> 120) & 0xff) as u8);
        proof {
            assert(v@ =~= x.le_bytes());
        }
        v
    }

    fn wrapping_add(self, val: Self) -> Self {
        u128::wrapping_add(self, val)
    }

    fn wrapping_sub(self, val: Self) -> Self {
        u128::wrapping_sub(self, val)
    }

    fn xor(self, val: Self) -> Self {
        self ^ val
    }

    fn rotate_left(self, bits: Self) -> Self {
        let sh = bits % 128;
        if sh == 0 {
            self
        } else {
            (self << sh) | (self >> (128 - sh))
        }
    }

    fn rotate_right(self, bits: Self) -> Self {
        let sh = bits % 128;
        if sh == 0 {
            self
        } else {
            (self >> sh) | (self << (128 - sh))
        }
    }

    fn random() -> Self {
        random_u128()
    }
}

/// Relies on rand::random: a uniformly random value; nothing is promised
/// of the result.
#[verifier::external_body]
fn random_u128() -> u128 {
    rand::random()
}

} // verus!
