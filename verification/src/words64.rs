//! The 64-bit word.
use vstd::prelude::*;

use crate::types::Word;

verus! {

impl Word for u64 {
    open spec fn spec_bytes() -> nat {
        8
    }

    open spec fn spec_modulus() -> nat {
        0x1_0000_0000_0000_0000
    }

    open spec fn as_int(self) -> int {
        self as int
    }

    open spec fn spec_zero() -> Self {
        0u64
    }

    open spec fn spec_p() -> Self {
        0xb7e151628aed2a6bu64
    }

    open spec fn spec_q() -> Self {
        0x9e3779b97f4a7c15u64
    }

    open spec fn spec_from_u8(v: u8) -> Self {
        v as u64
    }

    open spec fn wadd(self, o: Self) -> Self {
        if self + o > u64::MAX {
            (self + o - 0x1_0000_0000_0000_0000) as u64
        } else {
            (self + o) as u64
        }
    }

    open spec fn wsub(self, o: Self) -> Self {
        if self - o < 0 {
            (self - o + 0x1_0000_0000_0000_0000) as u64
        } else {
            (self - o) as u64
        }
    }

    open spec fn wxor(self, o: Self) -> Self {
        self ^ o
    }

    open spec fn rotl(self, s: Self) -> Self {
        let sh = s % 64;
        if sh == 0 {
            self
        } else {
            (self << sh) | (self >> (64 - sh) as u64)
        }
    }

    open spec fn rotr(self, s: Self) -> Self {
        let sh = s % 64;
        if sh == 0 {
            self
        } else {
            (self >> sh) | (self << (64 - sh) as u64)
        }
    }

    open spec fn le_bytes(self) -> Seq<u8> {
        seq![
            (self & 0xff) as u8,
            ((self >> 8) & 0xff) as u8,
            ((self >> 16) & 0xff) as u8,
            ((self >> 24) & 0xff) as u8,
            ((self >> 32) & 0xff) as u8,
            ((self >> 40) & 0xff) as u8,
            ((self >> 48) & 0xff) as u8,
            ((self >> 56) & 0xff) as u8,
        ]
    }

    open spec fn word_of_le(s: Seq<u8>) -> Self {
        (s[0] as u64) | ((s[1] as u64) << 8) | ((s[2] as u64) << 16) | ((s[3] as u64) << 24) | ((s[4] as u64) << 32) | ((s[5] as u64) << 40) | ((s[6] as u64) << 48) | ((s[7] as u64) << 56)
    }

    proof fn lemma_word_facts() {
        assert forall|x: u64, y: u64| (#[trigger] x.wadd(y)).as_int() == (x.as_int()
            + y.as_int()) % (Self::spec_modulus() as int) by {
            assert(x.wadd(y) as int == (x + y) % 0x1_0000_0000_0000_0000) by (bit_vector);
        }
    }

    proof fn lemma_add_sub_cancel(self, o: Self) {
        assert(self.wadd(o).wsub(o) == self) by (bit_vector);
    }

    proof fn lemma_xor_cancel(self, o: Self) {
        assert((self ^ o) ^ o == self) by (bit_vector);
    }

    proof fn lemma_rot_cancel(self, s: Self) {
        assert(self.rotl(s).rotr(s) == self) by (bit_vector);
    }

    proof fn lemma_le_round_trip(self) {
        let s = self.le_bytes();
        let b0 = (self & 0xff) as u8;
        let b1 = ((self >> 8) & 0xff) as u8;
        let b2 = ((self >> 16) & 0xff) as u8;
        let b3 = ((self >> 24) & 0xff) as u8;
        let b4 = ((self >> 32) & 0xff) as u8;
        let b5 = ((self >> 40) & 0xff) as u8;
        let b6 = ((self >> 48) & 0xff) as u8;
        let b7 = ((self >> 56) & 0xff) as u8;
        assert((b0 as u64) | ((b1 as u64) << 8) | ((b2 as u64) << 16) | ((b3 as u64) << 24) | ((b4 as u64) << 32) | ((b5 as u64) << 40) | ((b6 as u64) << 48) | ((b7 as u64) << 56) == self) by (bit_vector)
            requires
                b0 == (self & 0xff) as u8,
                b1 == ((self >> 8) & 0xff) as u8,
                b2 == ((self >> 16) & 0xff) as u8,
                b3 == ((self >> 24) & 0xff) as u8,
                b4 == ((self >> 32) & 0xff) as u8,
                b5 == ((self >> 40) & 0xff) as u8,
                b6 == ((self >> 48) & 0xff) as u8,
                b7 == ((self >> 56) & 0xff) as u8,
        ;
        assert(Self::word_of_le(s) == (s[0] as u64) | ((s[1] as u64) << 8) | ((s[2] as u64) << 16) | ((s[3] as u64) << 24) | ((s[4] as u64) << 32) | ((s[5] as u64) << 40) | ((s[6] as u64) << 48) | ((s[7] as u64) << 56));
    }

    proof fn lemma_of_le_round_trip(s: Seq<u8>) {
        let b0 = s[0];
        let b1 = s[1];
        let b2 = s[2];
        let b3 = s[3];
        let b4 = s[4];
        let b5 = s[5];
        let b6 = s[6];
        let b7 = s[7];
        let x = Self::word_of_le(s);
        assert(x == (b0 as u64) | ((b1 as u64) << 8) | ((b2 as u64) << 16) | ((b3 as u64) << 24) | ((b4 as u64) << 32) | ((b5 as u64) << 40) | ((b6 as u64) << 48) | ((b7 as u64) << 56));
        assert((x & 0xff) as u8 == b0 && ((x >> 8) & 0xff) as u8 == b1 && ((x >> 16) & 0xff) as u8 == b2 && ((x >> 24) & 0xff) as u8 == b3 && ((x >> 32) & 0xff) as u8 == b4 && ((x >> 40) & 0xff) as u8 == b5 && ((x >> 48) & 0xff) as u8 == b6 && ((x >> 56) & 0xff) as u8 == b7) by (bit_vector)
            requires
                x == (b0 as u64) | ((b1 as u64) << 8) | ((b2 as u64) << 16) | ((b3 as u64) << 24) | ((b4 as u64) << 32) | ((b5 as u64) << 40) | ((b6 as u64) << 48) | ((b7 as u64) << 56),
        ;
        assert(x.le_bytes() =~= s);
    }

    fn bytes() -> usize {
        8
    }

    fn zero() -> Self {
        0
    }

    fn p() -> Self {
        0xb7e151628aed2a6b
    }

    fn q() -> Self {
        0x9e3779b97f4a7c15
    }

    fn from_u8(val: u8) -> Self {
        val as u64
    }

    fn from_bytes_slice(slice: &[u8]) -> Option<Self> {
        if slice.len() != 8 {
            return None;
        }
        Some((slice[0] as u64) | ((slice[1] as u64) << 8u64) | ((slice[2] as u64) << 16u64) | ((slice[3] as u64) << 24u64) | ((slice[4] as u64) << 32u64) | ((slice[5] as u64) << 40u64) | ((slice[6] as u64) << 48u64) | ((slice[7] as u64) << 56u64))
    }

    fn to_bytes_slice(&self) -> Vec<u8> {
        let x = *self;
        proof {
            assert((x & 0xff) < 256 && ((x >> 8) & 0xff) < 256 && ((x >> 16) & 0xff) < 256 && ((x >> 24) & 0xff) < 256 && ((x >> 32) & 0xff) < 256 && ((x >> 40) & 0xff) < 256 && ((x >> 48) & 0xff) < 256 && ((x >> 56) & 0xff) < 256) by (bit_vector);
        }
        let mut v: Vec<u8> = Vec::new();
        v.push((x & 0xff) as u8);
        v.push(((x >> 8) & 0xff) as u8);
        v.push(((x >> 16) & 0xff) as u8);
        v.push(((x >> 24) & 0xff) as u8);
        v.push(((x >> 32) & 0xff) as u8);
        v.push(((x >> 40) & 0xff) as u8);
        v.push(((x >> 48) & 0xff) as u8);
        v.push(((x >> 56) & 0xff) as u8);
        proof {
            assert(v@ =~= x.le_bytes());
        }
        v
    }

    fn wrapping_add(self, val: Self) -> Self {
        u64::wrapping_add(self, val)
    }

    fn wrapping_sub(self, val: Self) -> Self {
        u64::wrapping_sub(self, val)
    }

    fn xor(self, val: Self) -> Self {
        self ^ val
    }

    fn rotate_left(self, bits: Self) -> Self {
        let sh = bits % 64;
        if sh == 0 {
            self
        } else {
            (self << sh) | (self >> (64 - sh))
        }
    }

    fn rotate_right(self, bits: Self) -> Self {
        let sh = bits % 64;
        if sh == 0 {
            self
        } else {
            (self >> sh) | (self << (64 - sh))
        }
    }

    fn random() -> Self {
        random_u64()
    }
}

/// Relies on rand::random: a uniformly random value; nothing is promised
/// of the result.
#[verifier::external_body]
fn random_u64() -> u64 {
    rand::random()
}

} // verus!
