//! The RC5 control block: key expansion, and the single-block round
//! transform with its inverse.
use vstd::prelude::*;

use vstd::pervasive::VecAdditionalExecFns;
use vstd::slice::slice_subrange;

use crate::stream::{blocks_of_stream, pair_of, pairs_of, stream_of_blocks};
use crate::types::{version_chars, Version, Word};
use crate::BlockCipher;
use crate::Reason;

verus! {

// ---------------------------------------------------------------------
// The round transform, at the specification level.
// ---------------------------------------------------------------------
/// One encryption round `r` (1-based) over the running block `ab`.
pub open spec fn enc_round<W: Word>(s: Seq<W>, r: nat, ab: (W, W)) -> (W, W) {
    let a = ab.0.wxor(ab.1).rotl(ab.1).wadd(s[2 * r as int]);
    let b = ab.1.wxor(a).rotl(a).wadd(s[2 * r as int + 1]);
    (a, b)
}

/// The first `r` encryption rounds applied to `ab`.
pub open spec fn enc_rounds<W: Word>(s: Seq<W>, r: nat, ab: (W, W)) -> (W, W)
    decreases r,
{
    if r == 0 {
        ab
    } else {
        enc_round(s, r, enc_rounds(s, (r - 1) as nat, ab))
    }
}

/// Single-block encryption: whiten both words with `s[0]`, `s[1]`, then
/// run all rounds.
pub open spec fn enc_block<W: Word>(s: Seq<W>, rounds: nat, pt: (W, W)) -> (W, W) {
    enc_rounds(s, rounds, (pt.0.wadd(s[0]), pt.1.wadd(s[1])))
}

/// The inverse of round `r`: undo the second word first, with the first
/// word still in its post-round state, then undo the first word.
pub open spec fn dec_round<W: Word>(s: Seq<W>, r: nat, ab: (W, W)) -> (W, W) {
    let b = ab.1.wsub(s[2 * r as int + 1]).rotr(ab.0).wxor(ab.0);
    let a = ab.0.wsub(s[2 * r as int]).rotr(b).wxor(b);
    (a, b)
}

/// Undo rounds `r` down to 1.
pub open spec fn dec_rounds<W: Word>(s: Seq<W>, r: nat, ab: (W, W)) -> (W, W)
    decreases r,
{
    if r == 0 {
        ab
    } else {
        dec_rounds(s, (r - 1) as nat, dec_round(s, r, ab))
    }
}

/// Single-block decryption: undo all rounds, then strip the whitening.
pub open spec fn dec_block<W: Word>(s: Seq<W>, rounds: nat, ct: (W, W)) -> (W, W) {
    let ab = dec_rounds(s, rounds, ct);
    (ab.0.wsub(s[0]), ab.1.wsub(s[1]))
}

proof fn lemma_rounds_round_trip<W: Word>(s: Seq<W>, r: nat, ab: (W, W))
    ensures
        dec_rounds(s, r, enc_rounds(s, r, ab)) == ab,
    decreases r,
{
    if r > 0 {
        let prev = enc_rounds(s, (r - 1) as nat, ab);
        let pa = prev.0;
        let pb = prev.1;
        let a = pa.wxor(pb).rotl(pb).wadd(s[2 * r as int]);
        let b = pb.wxor(a).rotl(a).wadd(s[2 * r as int + 1]);
        pb.wxor(a).rotl(a).lemma_add_sub_cancel(s[2 * r as int + 1]);
        pb.wxor(a).lemma_rot_cancel(a);
        pb.lemma_xor_cancel(a);
        assert(dec_round(s, r, (a, b)).1 == pb);
        pa.wxor(pb).rotl(pb).lemma_add_sub_cancel(s[2 * r as int]);
        pa.wxor(pb).lemma_rot_cancel(pb);
        pa.lemma_xor_cancel(pb);
        assert(dec_round(s, r, (a, b)).0 == pa);
        lemma_rounds_round_trip(s, (r - 1) as nat, ab);
    }
}

/// Decrypting an encrypted block gives the plaintext back, for every
/// S-table, every round count (zero included) and every width.
pub proof fn lemma_block_round_trip<W: Word>(s: Seq<W>, rounds: nat, pt: (W, W))
    ensures
        dec_block(s, rounds, enc_block(s, rounds, pt)) == pt,
{
    lemma_rounds_round_trip(s, rounds, (pt.0.wadd(s[0]), pt.1.wadd(s[1])));
    pt.0.lemma_add_sub_cancel(s[0]);
    pt.1.lemma_add_sub_cancel(s[1]);
}

// ---------------------------------------------------------------------
// The key schedule, at the specification level.
// ---------------------------------------------------------------------
/// How many words the raw key packs into; a zero-length key is clamped
/// to one byte for sizing, as the schedule defines (unreachable through
/// the public boundary, which rejects empty keys).
pub open spec fn key_word_count<W: Word>(key_len: nat) -> nat {
    let kl = if key_len == 0 {
        1nat
    } else {
        key_len
    };
    ((kl + W::spec_bytes() - 1) / W::spec_bytes() as int) as nat
}

/// Fold key byte `index` into its word: rotate the word left by eight
/// bits and add the byte.
pub open spec fn pack_step<W: Word>(kw: Seq<W>, key: Seq<u8>, index: int) -> Seq<W> {
    let ix = index / W::spec_bytes() as int;
    kw.update(ix, kw[ix].rotl(W::spec_from_u8(8)).wadd(W::spec_from_u8(key[index])))
}

/// The key words after the last `k` key bytes (walked from the highest
/// index down) have been folded in, starting from all-zero words.
pub open spec fn packed_words_rec<W: Word>(key: Seq<u8>, k: nat) -> Seq<W>
    decreases k,
{
    if k == 0 {
        Seq::new(key_word_count::<W>(key.len()), |i| W::spec_zero())
    } else {
        pack_step(packed_words_rec(key, (k - 1) as nat), key, key.len() - k)
    }
}

/// All key bytes packed little-endian into words.
pub open spec fn packed_key_words<W: Word>(key: Seq<u8>) -> Seq<W> {
    packed_words_rec(key, key.len())
}

/// The S-table seeded with `P` and arithmetic steps of `Q`, before mixing.
pub open spec fn s_init_rec<W: Word>(n: nat) -> Seq<W>
    decreases n,
{
    if n == 0 {
        Seq::empty()
    } else if n == 1 {
        seq![W::spec_p()]
    } else {
        let prev = s_init_rec::<W>((n - 1) as nat);
        prev.push(prev[n - 2].wadd(W::spec_q()))
    }
}

/// The running state of the key-mixing loop.
pub struct MixState<W> {
    /// The S-table being mixed.
    pub s: Seq<W>,
    /// The packed key words, used as scratch.
    pub kw: Seq<W>,
    /// Index into the S-table, cyclic.
    pub i: nat,
    /// Index into the key words, cyclic.
    pub j: nat,
    /// First running accumulator.
    pub a: W,
    /// Second running accumulator.
    pub b: W,
}

/// One iteration of the mixing loop.
pub open spec fn mix_step<W: Word>(st: MixState<W>) -> MixState<W> {
    let a = st.s[st.i as int].wadd(st.a).wadd(st.b).rotl(W::spec_from_u8(3));
    let b = st.kw[st.j as int].wadd(a).wadd(st.b).rotl(a.wadd(st.b));
    MixState {
        s: st.s.update(st.i as int, a),
        kw: st.kw.update(st.j as int, b),
        i: ((st.i as int + 1) % st.s.len() as int) as nat,
        j: ((st.j as int + 1) % st.kw.len() as int) as nat,
        a,
        b,
    }
}

/// `n` iterations of the mixing loop.
pub open spec fn mix_rec<W: Word>(st: MixState<W>, n: nat) -> MixState<W>
    decreases n,
{
    if n == 0 {
        st
    } else {
        mix_step(mix_rec(st, (n - 1) as nat))
    }
}

/// The expanded S-table for a raw key and round count: the seeded table
/// after `3 * max(table size, key word count)` mixing iterations.
pub open spec fn expand_key_spec<W: Word>(key: Seq<u8>, rounds: nat) -> Seq<W> {
    let t = 2 * (rounds + 1);
    let c = key_word_count::<W>(key.len());
    let iters = 3 * (if t > c {
        t
    } else {
        c
    });
    let init = MixState {
        s: s_init_rec::<W>(t),
        kw: packed_key_words::<W>(key),
        i: 0nat,
        j: 0nat,
        a: W::spec_zero(),
        b: W::spec_zero(),
    };
    mix_rec(init, iters).s
}

proof fn lemma_pack_index_bound(index: int, kl: int, wb: int)
    requires
        0 <= index < kl,
        1 <= wb,
    ensures
        index / wb < (kl + wb - 1) / wb,
        (kl + wb - 1) / wb >= 1,
        (kl + wb - 1) / wb <= kl,
{
    let el = (kl + wb - 1) / wb;
    vstd::arithmetic::div_mod::lemma_fundamental_div_mod(kl + wb - 1, wb);
    vstd::arithmetic::div_mod::lemma_mod_division_less_than_divisor(kl + wb - 1, wb);
    assert(wb * el >= kl);
    vstd::arithmetic::div_mod::lemma_multiply_divide_lt(index, wb, el);
    vstd::arithmetic::div_mod::lemma_div_is_ordered(wb, kl + wb - 1, wb);
    vstd::arithmetic::div_mod::lemma_div_basics(wb);
    vstd::arithmetic::div_mod::lemma_div_is_ordered_by_denominator(kl + wb - 1, 1, wb);
    vstd::arithmetic::div_mod::lemma_div_basics(kl + wb - 1);
    assert(el <= kl) by (nonlinear_arith)
        requires
            wb * el <= kl + wb - 1,
            el >= 1,
            wb >= 1,
            kl >= 1,
    ;
}

/// Expand a raw key into the S-table. The schedule packs the key bytes
/// into words, seeds the table from the magic constants, and mixes both
/// with the rotating accumulators.
pub fn expand_key<W: Word>(key: &[u8], rounds: usize) -> (r: Vec<W>)
    requires
        1 <= key@.len() <= 255,
        rounds <= 255,
    ensures
        r@ == expand_key_spec::<W>(key@, rounds as nat),
        r@.len() == 2 * (rounds + 1),
{
    proof {
        W::lemma_word_facts();
    }
    let word_bytes = W::bytes();
    let key_length = if key.len() == 0 {
        1
    } else {
        key.len()
    };
    let expanded_length = (key_length + word_bytes - 1) / word_bytes;
    proof {
        lemma_pack_index_bound(0, key_length as int, word_bytes as int);
    }

    // Pack the raw bytes into a list of words, little-endian: walk the
    // key from its last byte to its first, rotating each target word
    // left by eight bits and adding the byte.
    let mut key_words: Vec<W> = Vec::new();
    while key_words.len() < expanded_length
        invariant
            key_words@.len() <= expanded_length,
            forall|q: int| 0 <= q < key_words@.len() ==> key_words@[q] == W::spec_zero(),
        decreases expanded_length - key_words@.len(),
    {
        key_words.push(W::zero());
    }
    proof {
        assert(expanded_length == key_word_count::<W>(key@.len()));
        assert(key_words@ =~= packed_words_rec::<W>(key@, 0));
    }

    let mut index = key_length;
    while index > 0
        invariant
            1 <= key_length <= 255,
            key_length == key@.len(),
            index <= key_length,
            word_bytes == W::spec_bytes(),
            1 <= word_bytes <= 16,
            expanded_length == key_word_count::<W>(key@.len()),
            key_words@.len() == expanded_length,
            key_words@ == packed_words_rec::<W>(key@, (key_length - index) as nat),
        decreases index,
    {
        index = index - 1;
        let ix = index / word_bytes;
        proof {
            lemma_pack_index_bound(index as int, key_length as int, word_bytes as int);
        }
        let folded = key_words[ix].rotate_left(W::from_u8(8)).wrapping_add(
            W::from_u8(key[index]),
        );
        key_words.set(ix, folded);
        proof {
            assert(key_words@ == pack_step::<W>(
                packed_words_rec::<W>(key@, (key_length - index - 1) as nat),
                key@,
                index as int,
            ));
        }
    }

    // Seed the S-table with P and arithmetic steps of Q.
    let table_size = 2 * (rounds + 1);
    let mut s_table: Vec<W> = Vec::new();
    s_table.push(W::p());
    let mut i: usize = 1;
    while i < table_size
        invariant
            1 <= i <= table_size,
            table_size == 2 * (rounds + 1),
            rounds <= 255,
            s_table@.len() == i,
            s_table@ == s_init_rec::<W>(i as nat),
        decreases table_size - i,
    {
        let prev = s_table[i - 1];
        s_table.push(prev.wrapping_add(W::q()));
        i = i + 1;
    }

    // Mix the key words into the table with the rotating accumulators.
    let iters = 3 * (if table_size > expanded_length {
        table_size
    } else {
        expanded_length
    });
    let ghost init_state = MixState::<W> {
        s: s_table@,
        kw: key_words@,
        i: 0nat,
        j: 0nat,
        a: W::spec_zero(),
        b: W::spec_zero(),
    };
    let mut i: usize = 0;
    let mut j: usize = 0;
    let mut a = W::zero();
    let mut b = W::zero();
    let mut n: usize = 0;
    while n < iters
        invariant
            n <= iters,
            iters <= 3 * 512,
            table_size == 2 * (rounds + 1),
            rounds <= 255,
            expanded_length >= 1,
            expanded_length <= 255,
            s_table@.len() == table_size,
            key_words@.len() == expanded_length,
            i < table_size,
            j < expanded_length,
            ({
                let st = mix_rec::<W>(init_state, n as nat);
                s_table@ == st.s && key_words@ == st.kw && i == st.i && j == st.j && a == st.a
                    && b == st.b
            }),
        decreases iters - n,
    {
        let a_new = s_table[i].wrapping_add(a).wrapping_add(b).rotate_left(W::from_u8(3));
        let b_new = key_words[j].wrapping_add(a_new).wrapping_add(b).rotate_left(
            a_new.wrapping_add(b),
        );
        s_table.set(i, a_new);
        key_words.set(j, b_new);
        a = a_new;
        b = b_new;
        i = (i + 1) % table_size;
        j = (j + 1) % expanded_length;
        n = n + 1;
        proof {
            assert(mix_rec::<W>(init_state, n as nat) == mix_step(
                mix_rec::<W>(init_state, (n - 1) as nat),
            ));
        }
    }
    s_table
}

// ---------------------------------------------------------------------
// The key and control block.
// ---------------------------------------------------------------------
/// The exact error for a rejected (key, rounds) pair, in the order the
/// checks run: an empty key, then an over-long key, then an out-of-range
/// round count.
pub open spec fn key_error(key_len: nat, rounds: nat) -> Reason {
    if key_len == 0 {
        Reason::InvalidKey
    } else if key_len > 255 {
        Reason::KeyTooLong { current: key_len as usize, supported: 255 }
    } else {
        Reason::InvalidRounds(rounds as usize)
    }
}

/// The RC5 key container: the raw key bytes and their expanded S-table.
pub struct RC5Key<W: Word> {
    raw_key: Vec<u8>,
    s_table: Vec<W>,
}

impl<W: Word> RC5Key<W> {
    /// The raw key bytes.
    pub closed spec fn spec_raw(&self) -> Seq<u8> {
        self.raw_key@
    }

    /// The expanded S-table.
    pub closed spec fn spec_s_table(&self) -> Seq<W> {
        self.s_table@
    }

    /// A key is well formed under a round count when its S-table is the
    /// key schedule's expansion of its raw bytes.
    pub open spec fn wf(&self, rounds: nat) -> bool {
        &&& 1 <= self.spec_raw().len() <= 255
        &&& self.spec_s_table() == expand_key_spec::<W>(self.spec_raw(), rounds)
        &&& self.spec_s_table().len() == 2 * (rounds + 1)
    }

    /// Create an RC5 key from raw bytes, rejecting an empty key, a key
    /// over 255 bytes, and a round count over 255 -- at construction,
    /// never later.
    pub fn from_raw(raw: &[u8], rounds: usize) -> (r: Result<Self, Reason>)
        ensures
            ({
                match r {
                    Ok(k) => 1 <= raw@.len() <= 255 && rounds <= 255 && k.wf(rounds as nat)
                        && k.spec_raw() == raw@,
                    Err(e) => !(1 <= raw@.len() <= 255 && rounds <= 255) && e == key_error(
                        raw@.len(),
                        rounds as nat,
                    ),
                }
            }),
    {
        if raw.len() == 0 {
            return Err(Reason::InvalidKey);
        }
        if raw.len() > 255 {
            return Err(Reason::KeyTooLong { current: raw.len(), supported: 255 });
        }
        if rounds > 255 {
            return Err(Reason::InvalidRounds(rounds));
        }
        Ok(RC5Key { s_table: expand_key::<W>(raw, rounds), raw_key: vstd::slice::slice_to_vec(raw) })
    }

    /// The raw key's length in bytes.
    pub fn raw_len(&self) -> (r: usize)
        ensures
            r == self.spec_raw().len(),
    {
        self.raw_key.len()
    }
}

/// The RC5 control block: the expanded key, the round count, and the
/// derived version descriptor. It is the unit of cryptographic identity:
/// two control blocks with the same key bytes and round count encrypt
/// identically.
pub struct RC5ControlBlock<W: Word> {
    version: Version,
    key: RC5Key<W>,
    rounds: usize,
}

impl<W: Word> RC5ControlBlock<W> {
    /// The expanded S-table.
    pub closed spec fn spec_s(&self) -> Seq<W> {
        self.key.spec_s_table()
    }

    /// The configured round count.
    pub closed spec fn spec_rounds(&self) -> nat {
        self.rounds as nat
    }

    /// The raw key bytes.
    pub closed spec fn spec_raw_key(&self) -> Seq<u8> {
        self.key.spec_raw()
    }

    /// The four version parameters.
    pub closed spec fn spec_params(&self) -> Seq<u8> {
        self.version@
    }

    /// Create a control block from a raw key and round count; the inputs
    /// rejected by [`RC5Key::from_raw`] are rejected here with the same
    /// errors.
    pub fn new(key: &[u8], rounds: usize) -> (r: Result<Self, Reason>)
        ensures
            ({
                match r {
                    Ok(cb) => 1 <= key@.len() <= 255 && rounds <= 255 && cb.wf()
                        && cb.spec_raw_key() == key@ && cb.spec_rounds() == rounds,
                    Err(e) => !(1 <= key@.len() <= 255 && rounds <= 255) && e == key_error(
                        key@.len(),
                        rounds as nat,
                    ),
                }
            }),
    {
        proof {
            W::lemma_word_facts();
        }
        let key = match RC5Key::<W>::from_raw(key, rounds) {
            Ok(k) => k,
            Err(e) => {
                return Err(e);
            },
        };
        let word_bytes = W::bytes();
        let mut params: Vec<u8> = Vec::new();
        params.push(1u8);
        params.push((word_bytes * 8) as u8);
        params.push(rounds as u8);
        params.push(key.raw_len() as u8);
        proof {
            assert(params@ =~= seq![
                1u8,
                (W::spec_bytes() * 8) as u8,
                rounds as u8,
                key.spec_raw().len() as u8,
            ]);
        }
        Ok(
            RC5ControlBlock {
                rounds,
                version: Version::from_parametric_vector(params),
                key,
            },
        )
    }

    /// The expanded S-table used for the round keys.
    pub fn s_table(&self) -> (r: &[W])
        ensures
            r@ == self.spec_s(),
    {
        self.key.s_table.as_slice()
    }

    /// The configured number of rounds.
    pub fn rounds(&self) -> (r: usize)
        ensures
            r == self.spec_rounds(),
    {
        self.rounds
    }

    /// The parametric version string, e.g. `RC5-v1/32/12/16`.
    pub fn parametric_version(&self) -> (r: String)
        requires
            self.wf(),
        ensures
            r@ == version_chars(self.spec_params()),
    {
        self.version.version()
    }
}

impl<W: Word> BlockCipher<W> for RC5ControlBlock<W> {
    /// The S-table is the expansion of the raw key, and the version
    /// parameters describe the block.
    open spec fn wf(&self) -> bool {
        &&& 1 <= self.spec_raw_key().len() <= 255
        &&& self.spec_rounds() <= 255
        &&& self.spec_s() == expand_key_spec::<W>(self.spec_raw_key(), self.spec_rounds())
        &&& self.spec_s().len() == 2 * (self.spec_rounds() + 1)
        &&& self.spec_params() == seq![
            1u8,
            (W::spec_bytes() * 8) as u8,
            self.spec_rounds() as u8,
            self.spec_raw_key().len() as u8,
        ]
    }

    open spec fn spec_enc(&self, pt: (W, W)) -> (W, W) {
        enc_block(self.spec_s(), self.spec_rounds(), pt)
    }

    open spec fn spec_dec(&self, ct: (W, W)) -> (W, W) {
        dec_block(self.spec_s(), self.spec_rounds(), ct)
    }

    open spec fn spec_version(&self) -> Seq<char> {
        version_chars(self.spec_params())
    }

    proof fn lemma_enc_dec(&self, pt: (W, W)) {
        lemma_block_round_trip::<W>(self.spec_s(), self.spec_rounds(), pt);
    }

    fn control_block_version(&self) -> (r: String) {
        self.parametric_version()
    }

    fn block_size(&self) -> (r: usize) {
        proof {
            W::lemma_word_facts();
        }
        2 * W::bytes()
    }

    fn word_size(&self) -> (r: usize) {
        W::bytes()
    }

    fn generate_blocks(&self, pt: Vec<u8>) -> (r: Vec<[W; 2]>) {
        proof {
            W::lemma_word_facts();
        }
        let wb = W::bytes();
        let bs = 2 * wb;
        let mut blocks: Vec<[W; 2]> = Vec::new();
        let mut pos: usize = 0;
        proof {
            assert(pt@.skip(0) =~= pt@);
            assert(pairs_of(blocks@) =~= Seq::<(W, W)>::empty());
        }
        while bs <= pt.len() - pos
        invariant
                wb == W::spec_bytes(),
                1 <= wb <= 16,
                bs == 2 * wb,
                pos <= pt@.len(),
                blocks_of_stream::<W>(pt@) == pairs_of(blocks@) + blocks_of_stream::<W>(
                    pt@.skip(pos as int),
                ),
            decreases pt@.len() - pos,
        {
            let ghost prev_blocks = blocks@;
            let ghost tail = pt@.skip(pos as int);
            let w0 = W::from_bytes_slice(slice_subrange(pt.as_slice(), pos, pos + wb)).unwrap();
            let w1 = W::from_bytes_slice(
                slice_subrange(pt.as_slice(), pos + wb, pos + bs),
            ).unwrap();
            blocks.push([w0, w1]);
            pos = pos + bs;
            proof {
                assert(tail.subrange(0, wb as int) =~= pt@.subrange(
                    pos - bs,
                    pos - bs + wb,
                ));
                assert(tail.subrange(wb as int, 2 * wb as int) =~= pt@.subrange(
                    pos - bs + wb,
                    pos as int,
                ));
                assert(tail.skip(bs as int) =~= pt@.skip(pos as int));
                assert(blocks_of_stream::<W>(tail) == seq![(w0, w1)] + blocks_of_stream::<W>(
                    pt@.skip(pos as int),
                ));
                assert(pairs_of(blocks@) =~= prev_blocks.map_values(
                    |b: [W; 2]| pair_of(b),
                ).push(pair_of([w0, w1])));
                assert(pair_of([w0, w1]) == (w0, w1));
                assert(pairs_of(blocks@) + blocks_of_stream::<W>(pt@.skip(pos as int))
                    =~= pairs_of(prev_blocks) + blocks_of_stream::<W>(tail));
            }
        }
        proof {
            assert(pt@.skip(pos as int).len() < bs);
            assert(blocks_of_stream::<W>(pt@.skip(pos as int)) =~= Seq::<(W, W)>::empty());
            assert(pairs_of(blocks@) =~= blocks_of_stream::<W>(pt@));
        }
        blocks
    }

    fn generate_bytes_stream(&self, blocks: Vec<[W; 2]>) -> (r: Vec<u8>) {
        let mut stream: Vec<u8> = Vec::new();
        let mut k: usize = 0;
        proof {
            assert(pairs_of(blocks@).skip(0) =~= pairs_of(blocks@));
        }
        while k < blocks.len()
            invariant
                k <= blocks@.len(),
                stream_of_blocks::<W>(pairs_of(blocks@)) == stream@ + stream_of_blocks::<W>(
                    pairs_of(blocks@).skip(k as int),
                ),
            decreases blocks@.len() - k,
        {
            let ghost prev_stream = stream@;
            let ghost suffix = pairs_of(blocks@).skip(k as int);
            let b = blocks[k];
            let mut v0 = b[0].to_bytes_slice();
            let mut v1 = b[1].to_bytes_slice();
            stream.append(&mut v0);
            stream.append(&mut v1);
            k = k + 1;
            proof {
                assert(suffix[0] == pairs_of(blocks@)[k - 1]);
                assert(suffix[0] == pair_of(blocks@[k - 1]));
                assert(suffix.drop_first() =~= pairs_of(blocks@).skip(k as int));
                assert(stream_of_blocks::<W>(suffix) == crate::stream::block_bytes(suffix[0])
                    + stream_of_blocks::<W>(pairs_of(blocks@).skip(k as int)));
                assert(stream@ =~= prev_stream + crate::stream::block_bytes(suffix[0]));
                assert(stream@ + stream_of_blocks::<W>(pairs_of(blocks@).skip(k as int))
                    =~= prev_stream + stream_of_blocks::<W>(suffix));
            }
        }
        proof {
            assert(pairs_of(blocks@).skip(k as int) =~= Seq::<(W, W)>::empty());
            assert(stream@ =~= stream_of_blocks::<W>(pairs_of(blocks@)));
        }
        stream
    }

    fn encrypt(&self, pt: [W; 2]) -> (r: [W; 2]) {
        let expanded_key = self.s_table();
        let mut word_a = pt[0];
        let mut word_b = pt[1];
        word_a = word_a.wrapping_add(expanded_key[0]);
        word_b = word_b.wrapping_add(expanded_key[1]);
        let ghost init = (pt[0].wadd(self.spec_s()[0]), pt[1].wadd(self.spec_s()[1]));
        let rounds = self.rounds();
        let mut r_i: usize = 1;
        while r_i <= rounds
            invariant
                1 <= r_i <= rounds + 1,
                rounds <= 255,
                rounds == self.spec_rounds(),
                expanded_key@ == self.spec_s(),
                expanded_key@.len() == 2 * (rounds + 1),
                (word_a, word_b) == enc_rounds(self.spec_s(), (r_i - 1) as nat, init),
            decreases rounds + 1 - r_i,
        {
            word_a = (word_a.xor(word_b)).rotate_left(word_b).wrapping_add(
                expanded_key[2 * r_i],
            );
            word_b = (word_b.xor(word_a)).rotate_left(word_a).wrapping_add(
                expanded_key[2 * r_i + 1],
            );
            r_i = r_i + 1;
        }
        [word_a, word_b]
    }

    fn decrypt(&self, ct: [W; 2]) -> (r: [W; 2]) {
        let expanded_key = self.s_table();
        let mut word_a = ct[0];
        let mut word_b = ct[1];
        let ghost ct_pair = (ct[0], ct[1]);
        let rounds = self.rounds();
        let mut r_i: usize = rounds;
        while r_i >= 1
            invariant
                r_i <= rounds,
                rounds <= 255,
                rounds == self.spec_rounds(),
                expanded_key@ == self.spec_s(),
                expanded_key@.len() == 2 * (rounds + 1),
                dec_rounds(self.spec_s(), rounds as nat, ct_pair) == dec_rounds(
                    self.spec_s(),
                    r_i as nat,
                    (word_a, word_b),
                ),
            decreases r_i,
        {
            word_b = (word_b.wrapping_sub(expanded_key[2 * r_i + 1]).rotate_right(word_a)).xor(
                word_a,
            );
            word_a = (word_a.wrapping_sub(expanded_key[2 * r_i]).rotate_right(word_b)).xor(
                word_b,
            );
            r_i = r_i - 1;
        }
        word_b = word_b.wrapping_sub(expanded_key[1]);
        word_a = word_a.wrapping_sub(expanded_key[0]);
        [word_a, word_b]
    }
}

/// Law: the key schedule and the block transform are pure functions of
/// (key, rounds). Two well-formed control blocks built from the same raw
/// key bytes and round count have identical S-tables, and encrypt every
/// plaintext block to the same ciphertext.
pub proof fn lemma_determinism<W: Word>(
    cb1: RC5ControlBlock<W>,
    cb2: RC5ControlBlock<W>,
    pt: (W, W),
)
    requires
        cb1.wf(),
        cb2.wf(),
        cb1.spec_raw_key() == cb2.spec_raw_key(),
        cb1.spec_rounds() == cb2.spec_rounds(),
    ensures
        cb1.spec_s() == cb2.spec_s(),
        cb1.spec_enc(pt) == cb2.spec_enc(pt),
{
}

} // verus!
