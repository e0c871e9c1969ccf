//! The word abstraction that every supported width implements, and the
//! parametric version descriptor.
use vstd::prelude::*;
use vstd::string::StringExecFns;

verus! {

/// A fixed-width unsigned machine word, the cipher's native unit.
///
/// Two words form one block. Every operation the cipher needs is paired
/// with a spec-level model (`spec_*`), and the algebraic facts that the
/// round transform's inverse rests on are proof obligations of each
/// implementation, so that the mode layer and the round-trip laws hold
/// for every width alike.
pub trait Word: Sized + Copy {
    /// Number of bytes in one word.
    spec fn spec_bytes() -> nat;

    /// One more than the largest value a word can hold.
    spec fn spec_modulus() -> nat;

    /// The word's value as a mathematical integer.
    spec fn as_int(self) -> int;

    /// The zero word.
    spec fn spec_zero() -> Self;

    /// Width-specific magic constant P of the key schedule.
    spec fn spec_p() -> Self;

    /// Width-specific magic constant Q of the key schedule.
    spec fn spec_q() -> Self;

    /// An 8-bit value carried into the word.
    spec fn spec_from_u8(v: u8) -> Self;

    /// Wraparound addition.
    spec fn wadd(self, o: Self) -> Self;

    /// Wraparound subtraction.
    spec fn wsub(self, o: Self) -> Self;

    /// Bitwise exclusive or.
    spec fn wxor(self, o: Self) -> Self;

    /// Rotation left by another word's value, reduced modulo the bit width.
    spec fn rotl(self, s: Self) -> Self;

    /// Rotation right by another word's value, reduced modulo the bit width.
    spec fn rotr(self, s: Self) -> Self;

    /// Little-endian serialization: `spec_bytes()` bytes, least significant
    /// first.
    spec fn le_bytes(self) -> Seq<u8>;

    /// Little-endian deserialization of `spec_bytes()` bytes.
    spec fn word_of_le(s: Seq<u8>) -> Self;

    /// Static facts every width provides: byte-width bounds, the integer
    /// model of values and of wraparound addition, and its injectivity.
    proof fn lemma_word_facts()
        ensures
            1 <= Self::spec_bytes() <= 16,
            Self::spec_modulus() >= 2,
            Self::spec_zero().as_int() == 0,
            forall|x: Self| 0 <= #[trigger] x.as_int() < Self::spec_modulus(),
            forall|x: Self, y: Self| x.as_int() == y.as_int() ==> x == y,
            forall|x: Self, y: Self| (#[trigger] x.wadd(y)).as_int() == (x.as_int()
                + y.as_int()) % (Self::spec_modulus() as int),
            forall|v: u8| (#[trigger] Self::spec_from_u8(v)).as_int() == v as int,
    ;

    /// Subtracting a word undoes adding it.
    proof fn lemma_add_sub_cancel(self, o: Self)
        ensures
            self.wadd(o).wsub(o) == self,
    ;

    /// Xoring a word twice gives the original back.
    proof fn lemma_xor_cancel(self, o: Self)
        ensures
            self.wxor(o).wxor(o) == self,
    ;

    /// Rotating right undoes rotating left by the same amount.
    proof fn lemma_rot_cancel(self, s: Self)
        ensures
            self.rotl(s).rotr(s) == self,
    ;

    /// Serialization round trip, and the length of the byte form.
    proof fn lemma_le_round_trip(self)
        ensures
            self.le_bytes().len() == Self::spec_bytes(),
            Self::word_of_le(self.le_bytes()) == self,
    ;

    /// Deserialization round trip: every byte sequence of the right length
    /// is the serialization of the word it decodes to.
    proof fn lemma_of_le_round_trip(s: Seq<u8>)
        requires
            s.len() == Self::spec_bytes(),
        ensures
            Self::word_of_le(s).le_bytes() == s,
    ;

    /// Number of bytes in this word.
    fn bytes() -> (r: usize)
        ensures
            r == Self::spec_bytes(),
    ;

    /// The zero word.
    fn zero() -> (r: Self)
        ensures
            r == Self::spec_zero(),
    ;

    /// Magic constant P used to seed the key schedule.
    fn p() -> (r: Self)
        ensures
            r == Self::spec_p(),
    ;

    /// Magic constant Q mixed into the key schedule.
    fn q() -> (r: Self)
        ensures
            r == Self::spec_q(),
    ;

    /// Cast an 8-bit value to this word type.
    fn from_u8(val: u8) -> (r: Self)
        ensures
            r == Self::spec_from_u8(val),
    ;

    /// Parse this word from a little-endian byte slice of length
    /// `spec_bytes()`; any other length gives `None`.
    fn from_bytes_slice(slice: &[u8]) -> (r: Option<Self>)
        ensures
            slice@.len() == Self::spec_bytes() ==> r == Some(Self::word_of_le(slice@)),
            slice@.len() != Self::spec_bytes() ==> r is None,
    ;

    /// Serialize this word to little-endian bytes.
    fn to_bytes_slice(&self) -> (r: Vec<u8>)
        ensures
            r@ == self.le_bytes(),
    ;

    /// Wraparound addition.
    fn wrapping_add(self, val: Self) -> (r: Self)
        ensures
            r == self.wadd(val),
    ;

    /// Wraparound subtraction.
    fn wrapping_sub(self, val: Self) -> (r: Self)
        ensures
            r == self.wsub(val),
    ;

    /// Bitwise exclusive or.
    fn xor(self, val: Self) -> (r: Self)
        ensures
            r == self.wxor(val),
    ;

    /// Left rotation by another word's value modulo the bit width.
    fn rotate_left(self, bits: Self) -> (r: Self)
        ensures
            r == self.rotl(bits),
    ;

    /// Right rotation by another word's value modulo the bit width.
    fn rotate_right(self, bits: Self) -> (r: Self)
        ensures
            r == self.rotr(bits),
    ;

    /// A uniformly random word. Nothing is promised of the value.
    fn random() -> Self;
}

// ---------------------------------------------------------------------
// The parametric version descriptor.
// ---------------------------------------------------------------------
/// The character for one decimal digit.
pub open spec fn digit_char(d: nat) -> char {
    if d == 0 {
        '0'
    } else if d == 1 {
        '1'
    } else if d == 2 {
        '2'
    } else if d == 3 {
        '3'
    } else if d == 4 {
        '4'
    } else if d == 5 {
        '5'
    } else if d == 6 {
        '6'
    } else if d == 7 {
        '7'
    } else if d == 8 {
        '8'
    } else {
        '9'
    }
}

/// The decimal digits of `n`, most significant first, no leading zeros.
pub open spec fn dec_chars(n: nat) -> Seq<char>
    decreases n,
{
    if n < 10 {
        seq![digit_char(n)]
    } else {
        dec_chars(n / 10) + seq![digit_char(n % 10)]
    }
}

/// The rendered version string for a four-byte parameter vector
/// `[algorithm, word bits, rounds, key bytes]`.
pub open spec fn version_chars(params: Seq<u8>) -> Seq<char> {
    seq!['R', 'C', '5', '-', 'v'] + dec_chars(params[0] as nat) + seq!['/'] + dec_chars(
        params[1] as nat,
    ) + seq!['/'] + dec_chars(params[2] as nat) + seq!['/'] + dec_chars(params[3] as nat)
}

fn digit_str(d: u8) -> (r: &'static str)
    requires
        d < 10,
    ensures
        r@ == seq![digit_char(d as nat)],
{
    proof {
        reveal_strlit("0");
        reveal_strlit("1");
        reveal_strlit("2");
        reveal_strlit("3");
        reveal_strlit("4");
        reveal_strlit("5");
        reveal_strlit("6");
        reveal_strlit("7");
        reveal_strlit("8");
        reveal_strlit("9");
    }
    let r = if d == 0 {
        "0"
    } else if d == 1 {
        "1"
    } else if d == 2 {
        "2"
    } else if d == 3 {
        "3"
    } else if d == 4 {
        "4"
    } else if d == 5 {
        "5"
    } else if d == 6 {
        "6"
    } else if d == 7 {
        "7"
    } else if d == 8 {
        "8"
    } else {
        "9"
    };
    proof {
        assert(r@ =~= seq![digit_char(d as nat)]);
    }
    r
}

fn push_decimal(s: &mut String, n: u8)
    ensures
        final(s)@ == old(s)@ + dec_chars(n as nat),
{
    proof {
        reveal_with_fuel(dec_chars, 4);
        let ni = n as int;
        vstd::arithmetic::div_mod::lemma_fundamental_div_mod(ni, 10);
        vstd::arithmetic::div_mod::lemma_mod_division_less_than_divisor(ni, 10);
        vstd::arithmetic::div_mod::lemma_fundamental_div_mod(ni / 10, 10);
        vstd::arithmetic::div_mod::lemma_mod_division_less_than_divisor(ni / 10, 10);
        vstd::arithmetic::div_mod::lemma_div_denominator(ni, 10, 10);
    }
    if n >= 100 {
        proof {
            assert(dec_chars(n as nat) =~= seq![
                digit_char((n / 100) as nat),
                digit_char(((n / 10) % 10) as nat),
                digit_char((n % 10) as nat),
            ]);
        }
        s.append(digit_str(n / 100));
        s.append(digit_str((n / 10) % 10));
        s.append(digit_str(n % 10));
        assert(final(s)@ =~= old(s)@ + dec_chars(n as nat));
    } else if n >= 10 {
        proof {
            assert(dec_chars(n as nat) =~= seq![
                digit_char((n / 10) as nat),
                digit_char((n % 10) as nat),
            ]);
        }
        s.append(digit_str(n / 10));
        s.append(digit_str(n % 10));
        assert(final(s)@ =~= old(s)@ + dec_chars(n as nat));
    } else {
        s.append(digit_str(n));
        assert(final(s)@ =~= old(s)@ + dec_chars(n as nat));
    }
}

/// The RC5 parametric version: an ordered four-byte parameter vector
/// `(algorithm, word bits, rounds, key length in bytes)`, rendered as
/// the string `RC5-v{algorithm}/{word_bits}/{rounds}/{key_bytes}`.
pub struct Version(Vec<u8>);

impl View for Version {
    type V = Seq<u8>;

    closed spec fn view(&self) -> Seq<u8> {
        self.0@
    }
}

impl Version {
    /// Construct a `Version` from its four-byte parameter vector.
    pub fn from_parametric_vector(params: Vec<u8>) -> (r: Self)
        requires
            params@.len() == 4,
        ensures
            r@ == params@,
    {
        Version(params)
    }

    /// Render the version string `RC5-vA/B/C/D` from the four parameters.
    pub fn version(&self) -> (r: String)
        requires
            self@.len() == 4,
        ensures
            r@ == version_chars(self@),
    {
        let mut s = String::from_str("RC5-v");
        proof {
            reveal_strlit("RC5-v");
            reveal_strlit("/");
            assert(s@ =~= seq!['R', 'C', '5', '-', 'v']);
        }
        push_decimal(&mut s, self.0[0]);
        s.append("/");
        push_decimal(&mut s, self.0[1]);
        s.append("/");
        push_decimal(&mut s, self.0[2]);
        s.append("/");
        push_decimal(&mut s, self.0[3]);
        proof {
            assert(s@ =~= version_chars(self@));
        }
        s
    }
}

} // verus!
