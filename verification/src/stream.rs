//! Conversion between byte streams and two-word blocks.
//!
//! A block serializes as `word[0] || word[1]`, each word little-endian.
//! A byte stream is consumed in chunks of one block size; a trailing
//! partial chunk is ignored by the block view (block-aligned modes pad
//! first, and the counter mode never uses the block view).
use vstd::prelude::*;

use crate::types::Word;

verus! {

/// The two words of a block, as a pair.
pub open spec fn pair_of<W>(b: [W; 2]) -> (W, W) {
    (b[0], b[1])
}

/// The blocks of a sequence of two-word arrays, as pairs.
pub open spec fn pairs_of<W>(s: Seq<[W; 2]>) -> Seq<(W, W)> {
    s.map_values(|b: [W; 2]| pair_of(b))
}

/// The serialization of one block: both words, little-endian, in order.
pub open spec fn block_bytes<W: Word>(b: (W, W)) -> Seq<u8> {
    b.0.le_bytes() + b.1.le_bytes()
}

/// The whole blocks of a byte stream, in order; a trailing chunk shorter
/// than one block is dropped.
pub open spec fn blocks_of_stream<W: Word>(bytes: Seq<u8>) -> Seq<(W, W)>
    decreases bytes.len(),
    when W::spec_bytes() >= 1
{
    let wb = W::spec_bytes() as int;
    if bytes.len() < 2 * wb {
        seq![]
    } else {
        seq![
            (
                W::word_of_le(bytes.subrange(0, wb)),
                W::word_of_le(bytes.subrange(wb, 2 * wb)),
            ),
        ] + blocks_of_stream::<W>(bytes.skip(2 * wb))
    }
}

/// The byte stream of a sequence of blocks.
pub open spec fn stream_of_blocks<W: Word>(blocks: Seq<(W, W)>) -> Seq<u8>
    decreases blocks.len(),
{
    if blocks.len() == 0 {
        seq![]
    } else {
        block_bytes(blocks[0]) + stream_of_blocks::<W>(blocks.drop_first())
    }
}

/// Serializing blocks and cutting the stream back into blocks gives the
/// original blocks, and the stream holds exactly one block size of bytes
/// per block.
pub proof fn lemma_stream_of_blocks_round_trip<W: Word>(blocks: Seq<(W, W)>)
    ensures
        stream_of_blocks::<W>(blocks).len() == blocks.len() * 2 * W::spec_bytes(),
        blocks_of_stream::<W>(stream_of_blocks::<W>(blocks)) == blocks,
    decreases blocks.len(),
{
    W::lemma_word_facts();
    let wb = W::spec_bytes() as int;
    if blocks.len() == 0 {
        assert(blocks.len() * 2 * W::spec_bytes() == 0) by (nonlinear_arith)
            requires
                blocks.len() == 0,
        ;
    } else {
        let hd = blocks[0];
        let rest = blocks.drop_first();
        hd.0.lemma_le_round_trip();
        hd.1.lemma_le_round_trip();
        lemma_stream_of_blocks_round_trip::<W>(rest);
        let s = stream_of_blocks::<W>(blocks);
        assert(s == block_bytes(hd) + stream_of_blocks::<W>(rest));
        assert(s.len() == 2 * wb + rest.len() * 2 * wb);
        assert(s.len() == blocks.len() * 2 * W::spec_bytes()) by (nonlinear_arith)
            requires
                s.len() == 2 * wb + rest.len() * 2 * wb,
                blocks.len() == rest.len() + 1,
                wb == W::spec_bytes(),
        ;
        assert(s.subrange(0, wb) =~= hd.0.le_bytes());
        assert(s.subrange(wb, 2 * wb) =~= hd.1.le_bytes());
        assert(s.skip(2 * wb) =~= stream_of_blocks::<W>(rest));
        assert(blocks_of_stream::<W>(s) =~= blocks);
    }
}

/// Cutting a block-aligned stream into blocks and serializing them again
/// gives the original stream.
pub proof fn lemma_blocks_of_stream_round_trip<W: Word>(bytes: Seq<u8>)
    requires
        bytes.len() as int % (2 * W::spec_bytes() as int) == 0,
    ensures
        stream_of_blocks::<W>(blocks_of_stream::<W>(bytes)) == bytes,
    decreases bytes.len(),
{
    W::lemma_word_facts();
    let wb = W::spec_bytes() as int;
    if bytes.len() < 2 * wb {
        assert(bytes.len() == 0) by {
            if bytes.len() != 0 {
                assert(0 < bytes.len() < 2 * wb);
                assert(bytes.len() as int % (2 * wb) == bytes.len() as int) by (nonlinear_arith)
                    requires
                        0 < bytes.len(),
                        bytes.len() < 2 * wb,
                ;
            }
        }
        assert(bytes =~= stream_of_blocks::<W>(blocks_of_stream::<W>(bytes)));
    } else {
        let tail = bytes.skip(2 * wb);
        assert(tail.len() as int % (2 * wb) == 0) by (nonlinear_arith)
            requires
                bytes.len() as int % (2 * wb) == 0,
                tail.len() as int == bytes.len() - 2 * wb,
                wb >= 1,
        ;
        lemma_blocks_of_stream_round_trip::<W>(tail);
        W::lemma_of_le_round_trip(bytes.subrange(0, wb));
        W::lemma_of_le_round_trip(bytes.subrange(wb, 2 * wb));
        let blocks = blocks_of_stream::<W>(bytes);
        assert(blocks[0].0.le_bytes() == bytes.subrange(0, wb));
        assert(blocks[0].1.le_bytes() == bytes.subrange(wb, 2 * wb));
        assert(blocks.drop_first() =~= blocks_of_stream::<W>(tail));
        assert(stream_of_blocks::<W>(blocks) =~= bytes);
    }
}

} // verus!
