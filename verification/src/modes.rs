//! Modes of operation composing the single-block transform over longer
//! inputs: ECB, CBC and CTR.
use vstd::prelude::*;

use crate::stream::{block_bytes, pair_of, pairs_of};
use crate::types::Word;
use crate::BlockCipher;

verus! {

/// Modes of operation for a block cipher.
///
/// ECB encrypts each block independently: identical plaintext blocks
/// yield identical ciphertext blocks, so it is unsuitable where that
/// pattern must stay hidden. CBC chains blocks through an
/// initialization vector. CTR turns the cipher into a keystream over an
/// incrementing counter block and needs no padding.
pub enum OperationMode<W: Word> {
    /// Electronic Codebook: encrypt or decrypt each block independently.
    ECB,
    /// Cipher Block Chaining, seeded by an initialization vector.
    CBC { iv: [W; 2] },
    /// Counter: a nonce with a counter that steps once per keystream
    /// block.
    CTR { nonce_and_counter: [W; 2] },
}

// ---------------------------------------------------------------------
// ECB
// ---------------------------------------------------------------------
/// ECB encryption: the block encryption mapped over the sequence.
pub open spec fn ecb_enc_spec<C: BlockCipher<W>, W: Word>(cb: &C, blocks: Seq<(W, W)>) -> Seq<
    (W, W),
> {
    blocks.map_values(|b: (W, W)| cb.spec_enc(b))
}

/// ECB decryption: the block decryption mapped over the sequence.
pub open spec fn ecb_dec_spec<C: BlockCipher<W>, W: Word>(cb: &C, blocks: Seq<(W, W)>) -> Seq<
    (W, W),
> {
    blocks.map_values(|b: (W, W)| cb.spec_dec(b))
}

/// Encrypt a sequence of blocks in ECB mode.
pub fn ecb_encrypt<C: BlockCipher<W>, W: Word>(control_block: &C, input_blocks: Vec<[W; 2]>) -> (r:
    Vec<[W; 2]>)
    requires
        control_block.wf(),
    ensures
        pairs_of(r@) == ecb_enc_spec(control_block, pairs_of(input_blocks@)),
{
    let mut out: Vec<[W; 2]> = Vec::new();
    let mut k: usize = 0;
    while k < input_blocks.len()
        invariant
            k <= input_blocks@.len(),
            out@.len() == k,
            control_block.wf(),
            forall|q: int|
                0 <= q < k ==> pair_of(#[trigger] out@[q]) == control_block.spec_enc(
                    pair_of(input_blocks@[q]),
                ),
        decreases input_blocks@.len() - k,
    {
        let ct = control_block.encrypt(input_blocks[k]);
        out.push(ct);
        k = k + 1;
    }
    proof {
        assert(pairs_of(out@) =~= ecb_enc_spec(control_block, pairs_of(input_blocks@)));
    }
    out
}

/// Decrypt a sequence of blocks in ECB mode.
pub fn ecb_decrypt<C: BlockCipher<W>, W: Word>(control_block: &C, input_blocks: Vec<[W; 2]>) -> (r:
    Vec<[W; 2]>)
    requires
        control_block.wf(),
    ensures
        pairs_of(r@) == ecb_dec_spec(control_block, pairs_of(input_blocks@)),
{
    let mut out: Vec<[W; 2]> = Vec::new();
    let mut k: usize = 0;
    while k < input_blocks.len()
        invariant
            k <= input_blocks@.len(),
            out@.len() == k,
            control_block.wf(),
            forall|q: int|
                0 <= q < k ==> pair_of(#[trigger] out@[q]) == control_block.spec_dec(
                    pair_of(input_blocks@[q]),
                ),
        decreases input_blocks@.len() - k,
    {
        let pt = control_block.decrypt(input_blocks[k]);
        out.push(pt);
        k = k + 1;
    }
    proof {
        assert(pairs_of(out@) =~= ecb_dec_spec(control_block, pairs_of(input_blocks@)));
    }
    out
}

/// Law: ECB decryption inverts ECB encryption, block by block.
pub proof fn lemma_ecb_round_trip<C: BlockCipher<W>, W: Word>(cb: &C, blocks: Seq<(W, W)>)
    requires
        cb.wf(),
    ensures
        ecb_dec_spec(cb, ecb_enc_spec(cb, blocks)) == blocks,
{
    let enc = ecb_enc_spec(cb, blocks);
    assert forall|q: int| 0 <= q < blocks.len() implies ecb_dec_spec(cb, enc)[q] == blocks[q] by {
        cb.lemma_enc_dec(blocks[q]);
    }
    assert(ecb_dec_spec(cb, enc) =~= blocks);
}

// ---------------------------------------------------------------------
// CBC
// ---------------------------------------------------------------------
/// Element-wise xor of two blocks.
pub open spec fn xor_pair<W: Word>(x: (W, W), y: (W, W)) -> (W, W) {
    (x.0.wxor(y.0), x.1.wxor(y.1))
}

/// CBC encryption: xor each plaintext block into the previous
/// ciphertext block (the IV at the start), encrypt, and chain on the
/// emitted ciphertext.
pub open spec fn cbc_enc_spec<C: BlockCipher<W>, W: Word>(
    cb: &C,
    prev: (W, W),
    blocks: Seq<(W, W)>,
) -> Seq<(W, W)>
    decreases blocks.len(),
{
    if blocks.len() == 0 {
        seq![]
    } else {
        let ct = cb.spec_enc(xor_pair(blocks[0], prev));
        seq![ct] + cbc_enc_spec(cb, ct, blocks.drop_first())
    }
}

/// CBC decryption: decrypt each ciphertext block, xor with the previous
/// ciphertext block (the IV at the start), and chain on the original
/// ciphertext block -- not the decrypted value.
pub open spec fn cbc_dec_spec<C: BlockCipher<W>, W: Word>(
    cb: &C,
    prev: (W, W),
    blocks: Seq<(W, W)>,
) -> Seq<(W, W)>
    decreases blocks.len(),
{
    if blocks.len() == 0 {
        seq![]
    } else {
        let pt = xor_pair(cb.spec_dec(blocks[0]), prev);
        seq![pt] + cbc_dec_spec(cb, blocks[0], blocks.drop_first())
    }
}

/// Encrypt a sequence of blocks in CBC mode.
pub fn cbc_encrypt<C: BlockCipher<W>, W: Word>(
    control_block: &C,
    iv: [W; 2],
    input_blocks: Vec<[W; 2]>,
) -> (r: Vec<[W; 2]>)
    requires
        control_block.wf(),
    ensures
        pairs_of(r@) == cbc_enc_spec(control_block, pair_of(iv), pairs_of(input_blocks@)),
{
    let mut prev = iv;
    let mut out: Vec<[W; 2]> = Vec::new();
    let mut k: usize = 0;
    proof {
        assert(pairs_of(input_blocks@).skip(0) =~= pairs_of(input_blocks@));
        assert(pairs_of(out@) =~= Seq::<(W, W)>::empty());
    }
    while k < input_blocks.len()
        invariant
            k <= input_blocks@.len(),
            control_block.wf(),
            cbc_enc_spec(control_block, pair_of(iv), pairs_of(input_blocks@)) == pairs_of(out@)
                + cbc_enc_spec(control_block, pair_of(prev), pairs_of(input_blocks@).skip(k as int)),
        decreases input_blocks@.len() - k,
    {
        let ghost prev_out = out@;
        let ghost old_prev = pair_of(prev);
        let ghost suffix = pairs_of(input_blocks@).skip(k as int);
        let x0 = input_blocks[k][0].xor(prev[0]);
        let x1 = input_blocks[k][1].xor(prev[1]);
        let ct = control_block.encrypt([x0, x1]);
        out.push(ct);
        prev = ct;
        k = k + 1;
        proof {
            assert(suffix[0] == pair_of(input_blocks@[k - 1]));
            assert(pair_of([x0, x1]) == (x0, x1));
            assert((x0, x1) == xor_pair(suffix[0], old_prev));
            assert(suffix.drop_first() =~= pairs_of(input_blocks@).skip(k as int));
            assert(pairs_of(out@) =~= prev_out.map_values(|b: [W; 2]| pair_of(b)).push(
                pair_of(ct),
            ));
            assert(pairs_of(out@) + cbc_enc_spec(
                control_block,
                pair_of(prev),
                pairs_of(input_blocks@).skip(k as int),
            ) =~= pairs_of(prev_out) + cbc_enc_spec(control_block, old_prev, suffix));
        }
    }
    proof {
        assert(pairs_of(input_blocks@).skip(k as int) =~= Seq::<(W, W)>::empty());
        assert(pairs_of(out@) + cbc_enc_spec(
            control_block,
            pair_of(prev),
            Seq::<(W, W)>::empty(),
        ) =~= pairs_of(out@));
    }
    out
}

/// Decrypt a sequence of blocks in CBC mode.
pub fn cbc_decrypt<C: BlockCipher<W>, W: Word>(
    control_block: &C,
    iv: [W; 2],
    input_blocks: Vec<[W; 2]>,
) -> (r: Vec<[W; 2]>)
    requires
        control_block.wf(),
    ensures
        pairs_of(r@) == cbc_dec_spec(control_block, pair_of(iv), pairs_of(input_blocks@)),
{
    let mut prev = iv;
    let mut out: Vec<[W; 2]> = Vec::new();
    let mut k: usize = 0;
    proof {
        assert(pairs_of(input_blocks@).skip(0) =~= pairs_of(input_blocks@));
        assert(pairs_of(out@) =~= Seq::<(W, W)>::empty());
    }
    while k < input_blocks.len()
        invariant
            k <= input_blocks@.len(),
            control_block.wf(),
            cbc_dec_spec(control_block, pair_of(iv), pairs_of(input_blocks@)) == pairs_of(out@)
                + cbc_dec_spec(control_block, pair_of(prev), pairs_of(input_blocks@).skip(k as int)),
        decreases input_blocks@.len() - k,
    {
        let ghost prev_out = out@;
        let ghost old_prev = pair_of(prev);
        let ghost suffix = pairs_of(input_blocks@).skip(k as int);
        let decrypted = control_block.decrypt(input_blocks[k]);
        let p0 = decrypted[0].xor(prev[0]);
        let p1 = decrypted[1].xor(prev[1]);
        out.push([p0, p1]);
        prev = input_blocks[k];
        k = k + 1;
        proof {
            assert(suffix[0] == pair_of(input_blocks@[k - 1]));
            assert(pair_of([p0, p1]) == (p0, p1));
            assert((p0, p1) == xor_pair(control_block.spec_dec(suffix[0]), old_prev));
            assert(pair_of(prev) == suffix[0]);
            assert(suffix.drop_first() =~= pairs_of(input_blocks@).skip(k as int));
            assert(pairs_of(out@) =~= prev_out.map_values(|b: [W; 2]| pair_of(b)).push(
                pair_of([p0, p1]),
            ));
            assert(pairs_of(out@) + cbc_dec_spec(
                control_block,
                pair_of(prev),
                pairs_of(input_blocks@).skip(k as int),
            ) =~= pairs_of(prev_out) + cbc_dec_spec(control_block, old_prev, suffix));
        }
    }
    proof {
        assert(pairs_of(input_blocks@).skip(k as int) =~= Seq::<(W, W)>::empty());
        assert(pairs_of(out@) + cbc_dec_spec(
            control_block,
            pair_of(prev),
            Seq::<(W, W)>::empty(),
        ) =~= pairs_of(out@));
    }
    out
}

/// Law: CBC decryption with the same IV inverts CBC encryption.
pub proof fn lemma_cbc_round_trip<C: BlockCipher<W>, W: Word>(cb: &C, prev: (W, W), blocks: Seq<(W, W)>)
    requires
        cb.wf(),
    ensures
        cbc_dec_spec(cb, prev, cbc_enc_spec(cb, prev, blocks)) == blocks,
    decreases blocks.len(),
{
    if blocks.len() > 0 {
        let x = xor_pair(blocks[0], prev);
        let ct = cb.spec_enc(x);
        cb.lemma_enc_dec(x);
        blocks[0].0.lemma_xor_cancel(prev.0);
        blocks[0].1.lemma_xor_cancel(prev.1);
        lemma_cbc_round_trip(cb, ct, blocks.drop_first());
        let enc = cbc_enc_spec(cb, prev, blocks);
        assert(enc.drop_first() =~= cbc_enc_spec(cb, ct, blocks.drop_first()));
        assert(cbc_dec_spec(cb, prev, enc) =~= blocks);
    }
}

// ---------------------------------------------------------------------
// CTR
// ---------------------------------------------------------------------
/// The counter block after one keystream block: the nonce word is kept,
/// the counter word steps by one with wraparound.
pub open spec fn ctr_next<W: Word>(nc: (W, W)) -> (W, W) {
    (nc.0, nc.1.wadd(W::spec_from_u8(1)))
}

/// The CTR keystream applied to a byte stream of any length: encrypt the
/// counter block, xor its serialized bytes against the next chunk (the
/// final chunk may be shorter than one block), and step the counter.
/// Encryption and decryption are this same operation.
pub open spec fn ctr_spec<C: BlockCipher<W>, W: Word>(cb: &C, nc: (W, W), input: Seq<u8>) -> Seq<
    u8,
>
    decreases input.len(),
    when W::spec_bytes() >= 1
{
    if input.len() == 0 {
        seq![]
    } else {
        let bs = 2 * W::spec_bytes() as int;
        let n = if input.len() < bs {
            input.len() as int
        } else {
            bs
        };
        let ks = block_bytes(cb.spec_enc(nc));
        Seq::new(n as nat, |i: int| input[i] ^ ks[i]) + ctr_spec(cb, ctr_next(nc), input.skip(n))
    }
}

/// Encrypt a byte stream in CTR mode; the output has the input's length.
pub fn ctr_encrypt<C: BlockCipher<W>, W: Word>(
    control_block: &C,
    nonce_and_counter: [W; 2],
    input_stream: &[u8],
) -> (r: Vec<u8>)
    requires
        control_block.wf(),
    ensures
        r@ == ctr_spec(control_block, pair_of(nonce_and_counter), input_stream@),
{
    proof {
        W::lemma_word_facts();
    }
    let wb = W::bytes();
    let bs = 2 * wb;
    let mut nc = nonce_and_counter;
    let mut ciphered_stream: Vec<u8> = Vec::new();
    let mut pos: usize = 0;
    let total = input_stream.len();
    proof {
        assert(input_stream@.skip(0) =~= input_stream@);
        assert(ciphered_stream@ =~= Seq::<u8>::empty());
        assert(total == input_stream@.len());
    }
    while pos < input_stream.len()
        invariant
            control_block.wf(),
            wb == W::spec_bytes(),
            1 <= wb <= 16,
            bs == 2 * wb,
            pos <= input_stream@.len(),
            input_stream@.len() <= usize::MAX,
            ctr_spec(control_block, pair_of(nonce_and_counter), input_stream@)
                == ciphered_stream@ + ctr_spec(
                control_block,
                pair_of(nc),
                input_stream@.skip(pos as int),
            ),
        decreases input_stream@.len() - pos,
    {
        let ghost prev_stream = ciphered_stream@;
        let ghost old_nc = pair_of(nc);
        let ghost tail = input_stream@.skip(pos as int);
        let n = if input_stream.len() - pos < bs {
            input_stream.len() - pos
        } else {
            bs
        };
        let encrypted = control_block.encrypt(nc);
        let mut key_stream = encrypted[0].to_bytes_slice();
        let mut high_half = encrypted[1].to_bytes_slice();
        key_stream.append(&mut high_half);
        proof {
            pair_of(encrypted).0.lemma_le_round_trip();
            pair_of(encrypted).1.lemma_le_round_trip();
            assert(key_stream@ =~= block_bytes(control_block.spec_enc(old_nc)));
            assert(key_stream@.len() == bs);
        }
        let mut q: usize = 0;
        while q < n
            invariant
                q <= n,
                n <= bs,
                pos + n <= input_stream@.len(),
                input_stream@.len() <= usize::MAX,
                key_stream@.len() == bs,
                ciphered_stream@ == prev_stream + Seq::new(
                    q as nat,
                    |i: int| input_stream@[pos + i] ^ key_stream@[i],
                ),
            decreases n - q,
        {
            let ghost before = ciphered_stream@;
            ciphered_stream.push(input_stream[pos + q] ^ key_stream[q]);
            q = q + 1;
            proof {
                assert(ciphered_stream@ =~= prev_stream + Seq::new(
                    q as nat,
                    |i: int| input_stream@[pos + i] ^ key_stream@[i],
                ));
            }
        }
        let nonce = nc[0];
        let counter = nc[1].wrapping_add(W::from_u8(1));
        nc = [nonce, counter];
        pos = pos + n;
        proof {
            assert(pair_of(nc) == ctr_next(old_nc));
            assert(tail.skip(n as int) =~= input_stream@.skip(pos as int));
            assert(Seq::new(n as nat, |i: int| tail[i] ^ block_bytes(
                control_block.spec_enc(old_nc),
            )[i]) =~= Seq::new(n as nat, |i: int| input_stream@[pos - n + i] ^ key_stream@[i]));
            assert(ctr_spec(control_block, old_nc, tail) == Seq::new(
                n as nat,
                |i: int| tail[i] ^ block_bytes(control_block.spec_enc(old_nc))[i],
            ) + ctr_spec(control_block, pair_of(nc), input_stream@.skip(pos as int)));
            assert(ciphered_stream@ + ctr_spec(
                control_block,
                pair_of(nc),
                input_stream@.skip(pos as int),
            ) =~= prev_stream + ctr_spec(control_block, old_nc, tail));
        }
    }
    proof {
        assert(input_stream@.skip(pos as int) =~= Seq::<u8>::empty());
        assert(ciphered_stream@ + ctr_spec(
            control_block,
            pair_of(nc),
            Seq::<u8>::empty(),
        ) =~= ciphered_stream@);
    }
    ciphered_stream
}

/// Decrypt a byte stream in CTR mode: the identical operation to
/// encryption, repeated with the same parameters.
pub fn ctr_decrypt<C: BlockCipher<W>, W: Word>(
    control_block: &C,
    nonce_and_counter: [W; 2],
    input_stream: &[u8],
) -> (r: Vec<u8>)
    requires
        control_block.wf(),
    ensures
        r@ == ctr_spec(control_block, pair_of(nonce_and_counter), input_stream@),
{
    ctr_encrypt(control_block, nonce_and_counter, input_stream)
}

/// The CTR keystream preserves the input's length.
pub proof fn lemma_ctr_spec_len<C: BlockCipher<W>, W: Word>(cb: &C, nc: (W, W), input: Seq<u8>)
    ensures
        ctr_spec(cb, nc, input).len() == input.len(),
    decreases input.len(),
{
    W::lemma_word_facts();
    if input.len() > 0 {
        let bs = 2 * W::spec_bytes() as int;
        let n = if input.len() < bs {
            input.len() as int
        } else {
            bs
        };
        lemma_ctr_spec_len(cb, ctr_next(nc), input.skip(n));
    }
}

proof fn lemma_u8_xor_cancel()
    by (bit_vector)
    ensures
        forall|a: u8, k: u8| #[trigger] ((a ^ k) ^ k) == a,
{
}

/// Law: applying the CTR operation twice with the same nonce and counter
/// gives the original stream back, for streams of any length.
pub proof fn lemma_ctr_round_trip<C: BlockCipher<W>, W: Word>(cb: &C, nc: (W, W), input: Seq<u8>)
    requires
        cb.wf(),
    ensures
        ctr_spec(cb, nc, ctr_spec(cb, nc, input)) == input,
    decreases input.len(),
{
    W::lemma_word_facts();
    lemma_u8_xor_cancel();
    if input.len() > 0 {
        let bs = 2 * W::spec_bytes() as int;
        let n = if input.len() < bs {
            input.len() as int
        } else {
            bs
        };
        let ks = block_bytes(cb.spec_enc(nc));
        let once = ctr_spec(cb, nc, input);
        let chunk = Seq::new(n as nat, |i: int| input[i] ^ ks[i]);
        lemma_ctr_spec_len(cb, ctr_next(nc), input.skip(n));
        assert(once.len() == input.len());
        assert(once.skip(n) =~= ctr_spec(cb, ctr_next(nc), input.skip(n)));
        lemma_ctr_round_trip(cb, ctr_next(nc), input.skip(n));
        assert(Seq::new(n as nat, |i: int| once[i] ^ ks[i]) =~= input.take(n));
        assert(ctr_spec(cb, nc, once) =~= input.take(n) + input.skip(n));
        assert(input.take(n) + input.skip(n) =~= input);
    }
}

/// Law: between successive keystream blocks only the last word of the
/// counter block changes. The nonce word is untouched; the counter word
/// steps by one modulo the word's range, and so wraps from the word's
/// maximum value back to zero.
pub proof fn lemma_ctr_counter_increment<W: Word>(nc: (W, W))
    ensures
        ctr_next::<W>(nc).0 == nc.0,
        ctr_next::<W>(nc).1.as_int() == (nc.1.as_int() + 1) % (W::spec_modulus() as int),
        nc.1.as_int() == W::spec_modulus() - 1 ==> ctr_next::<W>(nc).1 == W::spec_zero(),
{
    W::lemma_word_facts();
    let next = ctr_next::<W>(nc);
    assert(next.1.as_int() == (nc.1.as_int() + W::spec_from_u8(1).as_int()) % (
    W::spec_modulus() as int));
    if nc.1.as_int() == W::spec_modulus() - 1 {
        vstd::arithmetic::div_mod::lemma_mod_self_0(W::spec_modulus() as int);
        assert(next.1.as_int() == 0);
        assert(next.1 == W::spec_zero());
    }
}

/// Two control blocks whose block encryptions agree pointwise produce
/// the same ECB encryption of every block sequence.
pub proof fn lemma_ecb_enc_congruence<C: BlockCipher<W>, W: Word>(
    cb1: &C,
    cb2: &C,
    blocks: Seq<(W, W)>,
)
    requires
        forall|b: (W, W)| #[trigger] cb1.spec_enc(b) == cb2.spec_enc(b),
    ensures
        ecb_enc_spec(cb1, blocks) == ecb_enc_spec(cb2, blocks),
{
    assert(ecb_enc_spec(cb1, blocks) =~= ecb_enc_spec(cb2, blocks));
}

/// Two control blocks whose block encryptions agree pointwise produce
/// the same CBC encryption of every block sequence under every IV.
pub proof fn lemma_cbc_enc_congruence<C: BlockCipher<W>, W: Word>(
    cb1: &C,
    cb2: &C,
    prev: (W, W),
    blocks: Seq<(W, W)>,
)
    requires
        forall|b: (W, W)| #[trigger] cb1.spec_enc(b) == cb2.spec_enc(b),
    ensures
        cbc_enc_spec(cb1, prev, blocks) == cbc_enc_spec(cb2, prev, blocks),
    decreases blocks.len(),
{
    if blocks.len() > 0 {
        let ct = cb1.spec_enc(xor_pair(blocks[0], prev));
        lemma_cbc_enc_congruence(cb1, cb2, ct, blocks.drop_first());
    }
}

/// Two control blocks whose block encryptions agree pointwise produce
/// the same CTR stream for every counter block and input.
pub proof fn lemma_ctr_congruence<C: BlockCipher<W>, W: Word>(
    cb1: &C,
    cb2: &C,
    nc: (W, W),
    input: Seq<u8>,
)
    requires
        forall|b: (W, W)| #[trigger] cb1.spec_enc(b) == cb2.spec_enc(b),
    ensures
        ctr_spec(cb1, nc, input) == ctr_spec(cb2, nc, input),
    decreases input.len(),
{
    W::lemma_word_facts();
    if input.len() > 0 {
        let bs = 2 * W::spec_bytes() as int;
        let n = if input.len() < bs {
            input.len() as int
        } else {
            bs
        };
        lemma_ctr_congruence(cb1, cb2, ctr_next(nc), input.skip(n));
    }
}

} // verus!
