//! The 32-bit word.
use vstd::prelude::*;

use crate::types::Word;

verus! {

impl Word for u32 {
    open spec fn spec_bytes() -> nat {
        4
    }

    open spec fn spec_modulus() -> nat {
        0x1_0000_0000
    }

    open spec fn as_int(self) -> int {
        self as int
    }

    open spec fn spec_zero() -> Self {
        0u32
    }

    open spec fn spec_p() -> Self {
        0xb7e15163u32
    }

    open spec fn spec_q() -> Self {
        0x9e3779b9u32
    }

    open spec fn spec_from_u8(v: u8) -> Self {
        v as u32
    }

    open spec fn wadd(self, o: Self) -> Self {
        if self + o > u32::MAX {
            (self + o - 0x1_0000_0000) as u32
        } else {
            (self + o) as u32
        }
    }

    open spec fn wsub(self, o: Self) -> Self {
        if self - o < 0 {
            (self - o + 0x1_0000_0000) as u32
        } else {
            (self - o) as u32
        }
    }

    open spec fn wxor(self, o: Self) -> Self {
        self ^ o
    }

    open spec fn rotl(self, s: Self) -> Self {
        let sh = s % 32;
        if sh == 0 {
            self
        } else {
            (self << sh) | (self >> (32 - sh) as u32)
        }
    }

    open spec fn rotr(self, s: Self) -> Self {
        let sh = s % 32;
        if sh == 0 {
            self
        } else {
            (self >> sh) | (self << (32 - sh) as u32)
        }
    }

    open spec fn le_bytes(self) -> Seq<u8> {
        seq![
            (self & 0xff) as u8,
            ((self >> 8) & 0xff) as u8,
            ((self >> 16) & 0xff) as u8,
            ((self >> 24) & 0xff) as u8,
        ]
    }

    open spec fn word_of_le(s: Seq<u8>) -> Self {
        (s[0] as u32) | ((s[1] as u32) << 8) | ((s[2] as u32) << 16) | ((s[3] as u32) << 24)
    }

    proof fn lemma_word_facts() {
        assert forall|x: u32, y: u32| (#[trigger] x.wadd(y)).as_int() == (x.as_int()
            + y.as_int()) % (Self::spec_modulus() as int) by {
            assert(x.wadd(y) as int == (x + y) % 0x1_0000_0000) by (bit_vector);
        }
    }

    proof fn lemma_add_sub_cancel(self, o: Self) {
        assert(self.wadd(o).wsub(o) == self) by (bit_vector);
    }

    proof fn lemma_xor_cancel(self, o: Self) {
        assert((self ^ o) ^ o == self) by (bit_vector);
    }

    proof fn lemma_rot_cancel(self, s: Self) {
        assert(self.rotl(s).rotr(s) == self) by (bit_vector);
    }

    proof fn lemma_le_round_trip(self) {
        let s = self.le_bytes();
        let b0 = (self & 0xff) as u8;
        let b1 = ((self >> 8) & 0xff) as u8;
        let b2 = ((self >> 16) & 0xff) as u8;
        let b3 = ((self >> 24) & 0xff) as u8;
        assert((b0 as u32) | ((b1 as u32) << 8) | ((b2 as u32) << 16) | ((b3 as u32) << 24)
            == self) by (bit_vector)
            requires
                b0 == (self & 0xff) as u8,
                b1 == ((self >> 8) & 0xff) as u8,
                b2 == ((self >> 16) & 0xff) as u8,
                b3 == ((self >> 24) & 0xff) as u8,
        ;
    }

    proof fn lemma_of_le_round_trip(s: Seq<u8>) {
        let b0 = s[0];
        let b1 = s[1];
        let b2 = s[2];
        let b3 = s[3];
        let x = Self::word_of_le(s);
        assert(x == (b0 as u32) | ((b1 as u32) << 8) | ((b2 as u32) << 16) | ((b3 as u32) << 24));
        assert((x & 0xff) as u8 == b0 && ((x >> 8) & 0xff) as u8 == b1 && ((x >> 16) & 0xff) as u8 == b2 && ((x >> 24) & 0xff) as u8 == b3) by (bit_vector)
            requires
                x == (b0 as u32) | ((b1 as u32) << 8) | ((b2 as u32) << 16) | ((b3 as u32) << 24),
        ;
        assert(x.le_bytes() =~= s);
    }

    fn bytes() -> usize {
        4
    }

    fn zero() -> Self {
        0
    }

    fn p() -> Self {
        0xb7e15163
    }

    fn q() -> Self {
        0x9e3779b9
    }

    fn from_u8(val: u8) -> Self {
        val as u32
    }

    fn from_bytes_slice(slice: &[u8]) -> Option<Self> {
        if slice.len() != 4 {
            return None;
        }
        Some(
            (slice[0] as u32) | ((slice[1] as u32) << 8u32) | ((slice[2] as u32) << 16u32) | (
            (slice[3] as u32) << 24u32),
        )
    }

    fn to_bytes_slice(&self) -> Vec<u8> {
        let x = *self;
        proof {
            assert((x & 0xff) < 256 && ((x >> 8) & 0xff) < 256 && ((x >> 16) & 0xff) < 256 && ((x
                >> 24) & 0xff) < 256) by (bit_vector);
        }
        let mut v: Vec<u8> = Vec::new();
        v.push((x & 0xff) as u8);
        v.push(((x >> 8) & 0xff) as u8);
        v.push(((x >> 16) & 0xff) as u8);
        v.push(((x >> 24) & 0xff) as u8);
        proof {
            assert(v@ =~= x.le_bytes());
        }
        v
    }

    fn wrapping_add(self, val: Self) -> Self {
        u32::wrapping_add(self, val)
    }

    fn wrapping_sub(self, val: Self) -> Self {
        u32::wrapping_sub(self, val)
    }

    fn xor(self, val: Self) -> Self {
        self ^ val
    }

    fn rotate_left(self, bits: Self) -> Self {
        let sh = bits % 32;
        if sh == 0 {
            self
        } else {
            (self << sh) | (self >> (32 - sh))
        }
    }

    fn rotate_right(self, bits: Self) -> Self {
        let sh = bits % 32;
        if sh == 0 {
            self
        } else {
            (self >> sh) | (self << (32 - sh))
        }
    }

    fn random() -> Self {
        random_u32()
    }
}

/// Relies on rand::random: a uniformly random value; nothing is promised
/// of the result.
#[verifier::external_body]
fn random_u32() -> u32 {
    rand::random()
}

} // verus!
