//! A parametric implementation of the RC5 block cipher, generic over the
//! machine word width (16, 32, 64 or 128 bits), with ECB, CBC and CTR modes
//! of operation and PKCS#7 padding.
use vstd::prelude::*;

pub mod hexparse;
pub mod modes;
pub mod rc5;
pub mod stream;
pub mod types;
pub mod utils;
pub mod words128;
pub mod words16;
pub mod words32;
pub mod words64;

use crate::stream::{blocks_of_stream, pair_of, pairs_of, stream_of_blocks};
use crate::types::Word;

pub use crate::modes::OperationMode;
pub use crate::rc5::{RC5ControlBlock, RC5Key};
pub use crate::types::Version;
pub use crate::utils::{pkcs7, random_iv, random_nonce_and_counter};

verus! {

/// A core trait that any block cipher must implement to work with
/// [`Cipher`].
///
/// Beside the executable operations, an implementation provides their
/// spec-level models (`spec_enc`, `spec_dec`) and the proof that
/// decryption inverts encryption, which the mode layer's round-trip laws
/// rest on.
pub trait BlockCipher<W: Word>: Sized {
    /// The implementation's internal consistency: for RC5, that the
    /// S-table is the expansion of the raw key under the round count.
    spec fn wf(&self) -> bool;

    /// The single-block encryption function.
    spec fn spec_enc(&self, pt: (W, W)) -> (W, W);

    /// The single-block decryption function.
    spec fn spec_dec(&self, ct: (W, W)) -> (W, W);

    /// The characters of the version tag.
    spec fn spec_version(&self) -> Seq<char>;

    /// Decryption inverts encryption on every single block.
    proof fn lemma_enc_dec(&self, pt: (W, W))
        requires
            self.wf(),
        ensures
            self.spec_dec(self.spec_enc(pt)) == pt,
    ;

    /// Human-readable version tag, mostly a parametric version.
    fn control_block_version(&self) -> (r: String)
        requires
            self.wf(),
        ensures
            r@ == self.spec_version(),
    ;

    /// Base block size in bytes: always two words.
    fn block_size(&self) -> (r: usize)
        ensures
            r == 2 * W::spec_bytes(),
    ;

    /// Word size in bytes.
    fn word_size(&self) -> (r: usize)
        ensures
            r == W::spec_bytes(),
    ;

    /// Split a byte stream into whole two-word blocks, in order; a
    /// trailing chunk shorter than one block is dropped.
    fn generate_blocks(&self, pt: Vec<u8>) -> (r: Vec<[W; 2]>)
        ensures
            pairs_of(r@) == blocks_of_stream::<W>(pt@),
    ;

    /// Serialize blocks back into a byte stream, each word little-endian.
    fn generate_bytes_stream(&self, blocks: Vec<[W; 2]>) -> (r: Vec<u8>)
        ensures
            r@ == stream_of_blocks::<W>(pairs_of(blocks@)),
    ;

    /// Raw encryption of a single block.
    fn encrypt(&self, pt: [W; 2]) -> (r: [W; 2])
        requires
            self.wf(),
        ensures
            pair_of(r) == self.spec_enc(pair_of(pt)),
    ;

    /// Raw decryption of a single block.
    fn decrypt(&self, ct: [W; 2]) -> (r: [W; 2])
        requires
            self.wf(),
        ensures
            pair_of(r) == self.spec_dec(pair_of(ct)),
    ;
}

/// Errors returned by the cipher as reasons for a failed operation.
#[derive(Debug, Clone, Copy, PartialEq, Eq, Structural)]
pub enum Reason {
    /// Word size mis-match.
    WordSize,
    /// Invalid PKCS#7 padding. Every padding failure maps to this one
    /// value, with no distinguishing detail, so that a caller cannot
    /// learn which check failed (padding-oracle hardening).
    Padding,
    /// The key is longer than the supported maximum.
    KeyTooLong { current: usize, supported: usize },
    /// The key is empty.
    InvalidKey,
    /// The round count is out of bounds.
    InvalidRounds(usize),
    /// A hex string could not be parsed.
    ParseHex,
    /// An IV hex string decoded to other than one block of bytes.
    IVinvalid(usize),
    /// A nonce or counter hex string decoded to other than one word of bytes.
    NonceInvalid(usize),
}

} // verus!
// ---------------------------------------------------------------------
// The cipher facade.
// ---------------------------------------------------------------------
use crate::hexparse::{decode_hex, hex_bytes, is_valid_hex};
use crate::modes::{
    cbc_dec_spec, cbc_decrypt, cbc_enc_spec, cbc_encrypt, ctr_decrypt, ctr_encrypt, ctr_spec,
    ecb_dec_spec, ecb_decrypt, ecb_enc_spec, ecb_encrypt,
};
use crate::rc5::key_error;
use crate::stream::{lemma_blocks_of_stream_round_trip, lemma_stream_of_blocks_round_trip};
use crate::utils::{lemma_pad_aligned, lemma_pad_unpad, pad_spec, unpad_spec};

verus! {

/// The byte stream that encryption produces for a mode and plaintext:
/// the block-aligned modes pad first and serialize the encrypted
/// blocks; the counter mode streams over the raw bytes.
pub open spec fn cipher_encrypt_spec<B: BlockCipher<W>, W: Word>(
    cb: &B,
    mode: OperationMode<W>,
    pt: Seq<u8>,
) -> Seq<u8> {
    match mode {
        OperationMode::ECB => stream_of_blocks::<W>(
            ecb_enc_spec(cb, blocks_of_stream::<W>(pad_spec(pt, 2 * W::spec_bytes()))),
        ),
        OperationMode::CBC { iv } => stream_of_blocks::<W>(
            cbc_enc_spec(cb, pair_of(iv), blocks_of_stream::<W>(pad_spec(pt, 2 * W::spec_bytes()))),
        ),
        OperationMode::CTR { nonce_and_counter } => ctr_spec(cb, pair_of(nonce_and_counter), pt),
    }
}

/// The plaintext that decryption recovers for a mode and ciphertext, or
/// `None` when the block-aligned modes find invalid padding.
pub open spec fn cipher_decrypt_spec<B: BlockCipher<W>, W: Word>(
    cb: &B,
    mode: OperationMode<W>,
    ct: Seq<u8>,
) -> Option<Seq<u8>> {
    match mode {
        OperationMode::ECB => unpad_spec(
            stream_of_blocks::<W>(ecb_dec_spec(cb, blocks_of_stream::<W>(ct))),
            2 * W::spec_bytes(),
        ),
        OperationMode::CBC { iv } => unpad_spec(
            stream_of_blocks::<W>(cbc_dec_spec(cb, pair_of(iv), blocks_of_stream::<W>(ct))),
            2 * W::spec_bytes(),
        ),
        OperationMode::CTR { nonce_and_counter } => Some(
            ctr_spec(cb, pair_of(nonce_and_counter), ct),
        ),
    }
}

/// A high-level cipher wrapper around a block cipher's control block:
/// byte-stream handling, padding, and operation-mode dispatch.
pub struct Cipher<B, W> where W: Word, B: BlockCipher<W> {
    block: B,
    _marker: core::marker::PhantomData<W>,
}

impl<B, W> Cipher<B, W> where W: Word, B: BlockCipher<W> {
    /// The wrapped control block.
    pub closed spec fn spec_block(&self) -> B {
        self.block
    }

    /// The cipher is as well formed as its control block.
    pub open spec fn wf(&self) -> bool {
        self.spec_block().wf()
    }

    /// Create a new `Cipher` wrapping the given block-cipher instance.
    pub fn new(block: B) -> (r: Self)
        ensures
            r.spec_block() == block,
    {
        Cipher { block, _marker: core::marker::PhantomData }
    }

    /// Encrypt plaintext bytes under the selected operation mode.
    ///
    /// ECB and CBC pad the plaintext to whole blocks first; CTR streams
    /// over the raw bytes, whatever their length. Encryption never
    /// fails for inputs the machine can hold.
    pub fn encrypt(&self, pt: &[u8], mode: OperationMode<W>) -> (r: Result<Vec<u8>, Reason>)
        requires
            self.wf(),
            pt@.len() + 2 * W::spec_bytes() <= usize::MAX,
        ensures
            r matches Ok(ct) && ct@ == cipher_encrypt_spec(&self.spec_block(), mode, pt@),
    {
        proof {
            W::lemma_word_facts();
        }
        let mut pt_vec = vstd::slice::slice_to_vec(pt);
        match mode {
            OperationMode::ECB => {
                let bs = self.block.block_size();
                if let Err(e) = pkcs7(&mut pt_vec, bs, true) {
                    return Err(e);
                }
                let pt_blocks = self.block.generate_blocks(pt_vec);
                let ct_blocks = ecb_encrypt(&self.block, pt_blocks);
                Ok(self.block.generate_bytes_stream(ct_blocks))
            },
            OperationMode::CBC { iv } => {
                let bs = self.block.block_size();
                if let Err(e) = pkcs7(&mut pt_vec, bs, true) {
                    return Err(e);
                }
                let pt_blocks = self.block.generate_blocks(pt_vec);
                let ct_blocks = cbc_encrypt(&self.block, iv, pt_blocks);
                Ok(self.block.generate_bytes_stream(ct_blocks))
            },
            OperationMode::CTR { nonce_and_counter } => {
                Ok(ctr_encrypt(&self.block, nonce_and_counter, pt_vec.as_slice()))
            },
        }
    }

    /// Decrypt ciphertext bytes under the selected operation mode.
    ///
    /// ECB and CBC validate and strip the padding after decrypting, and
    /// fail with the single [`Reason::Padding`] error when it is
    /// invalid; CTR repeats the keystream operation and never fails.
    pub fn decrypt(&self, ct: &[u8], mode: OperationMode<W>) -> (r: Result<Vec<u8>, Reason>)
        requires
            self.wf(),
        ensures
            ({
                match cipher_decrypt_spec(&self.spec_block(), mode, ct@) {
                    Some(s) => r matches Ok(v) && v@ == s,
                    None => r == Err::<Vec<u8>, Reason>(Reason::Padding),
                }
            }),
    {
        proof {
            W::lemma_word_facts();
        }
        let ct_vec = vstd::slice::slice_to_vec(ct);
        match mode {
            OperationMode::ECB => {
                let ct_blocks = self.block.generate_blocks(ct_vec);
                let bs = self.block.block_size();
                let pt_blocks = ecb_decrypt(&self.block, ct_blocks);
                let mut pt_bytes = self.block.generate_bytes_stream(pt_blocks);
                match pkcs7(&mut pt_bytes, bs, false) {
                    Ok(_) => Ok(pt_bytes),
                    Err(e) => Err(e),
                }
            },
            OperationMode::CBC { iv } => {
                let ct_blocks = self.block.generate_blocks(ct_vec);
                let bs = self.block.block_size();
                let pt_blocks = cbc_decrypt(&self.block, iv, ct_blocks);
                let mut pt_bytes = self.block.generate_bytes_stream(pt_blocks);
                match pkcs7(&mut pt_bytes, bs, false) {
                    Ok(_) => Ok(pt_bytes),
                    Err(e) => Err(e),
                }
            },
            OperationMode::CTR { nonce_and_counter } => {
                Ok(ctr_decrypt(&self.block, nonce_and_counter, ct_vec.as_slice()))
            },
        }
    }

    /// Parse an IV from a hex-encoded string, validating that it
    /// decodes to exactly one block of bytes.
    pub fn parse_iv_from_hex(&self, iv_hex: &str) -> (r: Result<[W; 2], Reason>)
        ensures
            !is_valid_hex(iv_hex@) ==> r == Err::<[W; 2], Reason>(Reason::ParseHex),
            is_valid_hex(iv_hex@) && hex_bytes(iv_hex@).len() != 2 * W::spec_bytes() ==> r == Err::<
                [W; 2],
                Reason,
            >(Reason::IVinvalid((2 * W::spec_bytes()) as usize)),
            is_valid_hex(iv_hex@) && hex_bytes(iv_hex@).len() == 2 * W::spec_bytes() ==> (
            r matches Ok(b) && pair_of(b) == (
                W::word_of_le(hex_bytes(iv_hex@).subrange(0, W::spec_bytes() as int)),
                W::word_of_le(
                    hex_bytes(iv_hex@).subrange(
                        W::spec_bytes() as int,
                        2 * W::spec_bytes() as int,
                    ),
                ),
            )),
    {
        proof {
            W::lemma_word_facts();
        }
        let iv_bytes = match decode_hex(iv_hex) {
            Ok(v) => v,
            Err(e) => {
                return Err(e);
            },
        };
        let bs = self.block.block_size();
        if iv_bytes.len() != bs {
            return Err(Reason::IVinvalid(bs));
        }
        let ghost bytes = iv_bytes@;
        let blocks = self.block.generate_blocks(iv_bytes);
        proof {
            let wb = W::spec_bytes() as int;
            assert(bytes.skip(2 * wb) =~= Seq::<u8>::empty());
            assert(blocks_of_stream::<W>(bytes.skip(2 * wb)) =~= Seq::<(W, W)>::empty());
            assert(blocks_of_stream::<W>(bytes) =~= seq![
                (
                    W::word_of_le(bytes.subrange(0, wb)),
                    W::word_of_le(bytes.subrange(wb, 2 * wb)),
                ),
            ]);
            assert(pairs_of(blocks@).len() == 1);
            assert(pair_of(blocks@[0]) == pairs_of(blocks@)[0]);
        }
        Ok(blocks[0])
    }

    /// Parse a nonce and a counter from their hex-encoded strings, each
    /// of which must decode to exactly one word of bytes; together they
    /// form the CTR mode's starting block.
    pub fn parse_nonce_counter_from_hex(&self, nonce_hex: &str, counter_hex: &str) -> (r: Result<
        [W; 2],
        Reason,
    >)
        ensures
            !is_valid_hex(nonce_hex@) ==> r == Err::<[W; 2], Reason>(Reason::ParseHex),
            is_valid_hex(nonce_hex@) && !is_valid_hex(counter_hex@) ==> r == Err::<[W; 2], Reason>(
                Reason::ParseHex,
            ),
            is_valid_hex(nonce_hex@) && is_valid_hex(counter_hex@) && (hex_bytes(nonce_hex@).len()
                != W::spec_bytes() || hex_bytes(counter_hex@).len() != W::spec_bytes()) ==> r
                == Err::<[W; 2], Reason>(Reason::NonceInvalid(W::spec_bytes() as usize)),
            is_valid_hex(nonce_hex@) && is_valid_hex(counter_hex@) && hex_bytes(nonce_hex@).len()
                == W::spec_bytes() && hex_bytes(counter_hex@).len() == W::spec_bytes() ==> (
            r matches Ok(b) && pair_of(b) == (
                W::word_of_le(hex_bytes(nonce_hex@)),
                W::word_of_le(hex_bytes(counter_hex@)),
            )),
    {
        proof {
            W::lemma_word_facts();
        }
        let mut nonce_bytes = match decode_hex(nonce_hex) {
            Ok(v) => v,
            Err(e) => {
                return Err(e);
            },
        };
        let counter_bytes = match decode_hex(counter_hex) {
            Ok(v) => v,
            Err(e) => {
                return Err(e);
            },
        };
        let ws = self.block.word_size();
        if nonce_bytes.len() != ws || counter_bytes.len() != ws {
            return Err(Reason::NonceInvalid(ws));
        }
        let ghost nb = nonce_bytes@;
        let ghost cb = counter_bytes@;
        let mut rest = counter_bytes;
        nonce_bytes.append(&mut rest);
        let ghost bytes = nonce_bytes@;
        let blocks = self.block.generate_blocks(nonce_bytes);
        proof {
            let wb = W::spec_bytes() as int;
            assert(bytes.skip(2 * wb) =~= Seq::<u8>::empty());
            assert(blocks_of_stream::<W>(bytes.skip(2 * wb)) =~= Seq::<(W, W)>::empty());
            assert(bytes.subrange(0, wb) =~= nb);
            assert(bytes.subrange(wb, 2 * wb) =~= cb);
            assert(blocks_of_stream::<W>(bytes) =~= seq![
                (W::word_of_le(nb), W::word_of_le(cb)),
            ]);
            assert(pairs_of(blocks@).len() == 1);
            assert(pair_of(blocks@[0]) == pairs_of(blocks@)[0]);
        }
        Ok(blocks[0])
    }

    /// Immutable access to the control block underlying the cipher.
    pub fn control_block(&self) -> (r: &B)
        ensures
            *r == self.spec_block(),
    {
        &self.block
    }
}

/// An RC5 cipher over a word width.
pub type RC5Cipher<W> = Cipher<RC5ControlBlock<W>, W>;

/// Construct a new RC5 cipher from a raw key and round count, with the
/// same rejections as the control block's constructor.
pub fn rc5_cipher<W: Word>(key: &[u8], rounds: usize) -> (r: Result<RC5Cipher<W>, Reason>)
    ensures
        ({
            match r {
                Ok(c) => 1 <= key@.len() <= 255 && rounds <= 255 && c.wf()
                    && c.spec_block().spec_raw_key() == key@ && c.spec_block().spec_rounds()
                    == rounds,
                Err(e) => !(1 <= key@.len() <= 255 && rounds <= 255) && e == key_error(
                    key@.len(),
                    rounds as nat,
                ),
            }
        }),
{
    let control_block = match RC5ControlBlock::<W>::new(key, rounds) {
        Ok(cb) => cb,
        Err(e) => {
            return Err(e);
        },
    };
    Ok(Cipher::new(control_block))
}

/// Law: for every well-formed control block, every mode (the same IV or
/// nonce on both sides) and every byte message -- any length for CTR,
/// any length for ECB and CBC too, the empty message included --
/// decryption recovers exactly the encrypted message.
pub proof fn lemma_cipher_round_trip<B: BlockCipher<W>, W: Word>(
    cb: &B,
    mode: OperationMode<W>,
    pt: Seq<u8>,
)
    requires
        cb.wf(),
    ensures
        cipher_decrypt_spec(cb, mode, cipher_encrypt_spec(cb, mode, pt)) == Some(pt),
{
    W::lemma_word_facts();
    let bs = 2 * W::spec_bytes();
    match mode {
        OperationMode::ECB => {
            let padded = pad_spec(pt, bs);
            let blocks = blocks_of_stream::<W>(padded);
            let enc = ecb_enc_spec(cb, blocks);
            lemma_stream_of_blocks_round_trip::<W>(enc);
            crate::modes::lemma_ecb_round_trip(cb, blocks);
            lemma_pad_aligned(pt, bs);
            lemma_blocks_of_stream_round_trip::<W>(padded);
            lemma_pad_unpad(pt, bs);
        },
        OperationMode::CBC { iv } => {
            let padded = pad_spec(pt, bs);
            let blocks = blocks_of_stream::<W>(padded);
            let enc = cbc_enc_spec(cb, pair_of(iv), blocks);
            lemma_stream_of_blocks_round_trip::<W>(enc);
            crate::modes::lemma_cbc_round_trip(cb, pair_of(iv), blocks);
            lemma_pad_aligned(pt, bs);
            lemma_blocks_of_stream_round_trip::<W>(padded);
            lemma_pad_unpad(pt, bs);
        },
        OperationMode::CTR { nonce_and_counter } => {
            crate::modes::lemma_ctr_round_trip(cb, pair_of(nonce_and_counter), pt);
        },
    }
}

/// Law: the whole encryption pipeline is deterministic. Two well-formed
/// control blocks built from the same raw key and round count produce
/// byte-identical ciphertext streams for every mode and every message.
pub proof fn lemma_encrypt_deterministic<W: Word>(
    cb1: &RC5ControlBlock<W>,
    cb2: &RC5ControlBlock<W>,
    mode: OperationMode<W>,
    pt: Seq<u8>,
)
    requires
        cb1.wf(),
        cb2.wf(),
        cb1.spec_raw_key() == cb2.spec_raw_key(),
        cb1.spec_rounds() == cb2.spec_rounds(),
    ensures
        cipher_encrypt_spec(cb1, mode, pt) == cipher_encrypt_spec(cb2, mode, pt),
{
    assert forall|b: (W, W)| #[trigger] cb1.spec_enc(b) == cb2.spec_enc(b) by {
        crate::rc5::lemma_determinism(*cb1, *cb2, b);
    }
    let bs = 2 * W::spec_bytes();
    match mode {
        OperationMode::ECB => {
            crate::modes::lemma_ecb_enc_congruence(
                cb1,
                cb2,
                blocks_of_stream::<W>(pad_spec(pt, bs)),
            );
        },
        OperationMode::CBC { iv } => {
            crate::modes::lemma_cbc_enc_congruence(
                cb1,
                cb2,
                pair_of(iv),
                blocks_of_stream::<W>(pad_spec(pt, bs)),
            );
        },
        OperationMode::CTR { nonce_and_counter } => {
            crate::modes::lemma_ctr_congruence(cb1, cb2, pair_of(nonce_and_counter), pt);
        },
    }
}

} // verus!
