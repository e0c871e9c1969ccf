//! PKCS#7 padding and the random IV / nonce generators.
use vstd::prelude::*;

use crate::types::Word;
use crate::Reason;

verus! {

/// The buffer with PKCS#7 padding appended: `bs - (len % bs)` bytes when
/// the length is not block-aligned, else one full block of `bs` bytes,
/// each byte equal to the pad count.
pub open spec fn pad_spec(data: Seq<u8>, bs: nat) -> Seq<u8> {
    let rem = data.len() % bs;
    let pad_count = if rem > 0 {
        (bs - rem) as nat
    } else {
        bs
    };
    data + Seq::new(pad_count, |i: int| pad_count as u8)
}

/// The buffer with valid PKCS#7 padding removed, or `None` when the
/// padding is invalid for any reason: an empty or misaligned buffer, a
/// pad count of zero or above the block size, or inconsistent trailing
/// bytes. All failures collapse into the one `None`.
pub open spec fn unpad_spec(data: Seq<u8>, bs: nat) -> Option<Seq<u8>> {
    if data.len() == 0 || data.len() as int % bs as int != 0 {
        None
    } else {
        let p = data.last() as nat;
        if p == 0 || p > bs {
            None
        } else if exists|i: int| data.len() - p <= i < data.len() && data[i] != data.last() {
            None
        } else {
            Some(data.take(data.len() - p as int))
        }
    }
}

/// Law: the padded buffer's length is a whole number of blocks.
pub proof fn lemma_pad_aligned(data: Seq<u8>, bs: nat)
    requires
        1 <= bs,
    ensures
        pad_spec(data, bs).len() as int % bs as int == 0,
{
    let rem = data.len() % bs;
    let pad_count = if rem > 0 {
        (bs - rem) as nat
    } else {
        bs
    };
    vstd::arithmetic::div_mod::lemma_fundamental_div_mod(data.len() as int, bs as int);
    assert((data.len() + pad_count) as int % bs as int == 0) by (nonlinear_arith)
        requires
            1 <= bs,
            rem == data.len() as int % bs as int,
            pad_count == if rem > 0 {
                (bs - rem) as int
            } else {
                bs as int
            },
            data.len() as int == bs as int * (data.len() as int / bs as int) + rem,
    ;
}

/// Law: removing the padding that padding added gives the original
/// buffer back, for every buffer and every block size up to 255 (the
/// largest pad count a byte can carry).
pub proof fn lemma_pad_unpad(data: Seq<u8>, bs: nat)
    requires
        1 <= bs <= 255,
    ensures
        unpad_spec(pad_spec(data, bs), bs) == Some(data),
{
    let rem = data.len() % bs;
    let pad_count = if rem > 0 {
        (bs - rem) as nat
    } else {
        bs
    };
    let padded = pad_spec(data, bs);
    assert(padded.len() == data.len() + pad_count);
    lemma_pad_aligned(data, bs);
    assert(padded.last() == pad_count as u8);
    assert(padded.last() as nat == pad_count);
    assert(forall|i: int|
        padded.len() - pad_count <= i < padded.len() ==> padded[i] == padded.last());
    assert(padded.take(padded.len() - pad_count as int) =~= data);
}

/// Apply or remove PKCS#7 padding on the buffer in place.
///
/// With `pad` true the padding bytes are appended and the original
/// length's remainder modulo the block size is returned; this cannot
/// fail. With `pad` false the padding is validated and removed and the
/// pad count returned; every invalid padding yields the single
/// [`Reason::Padding`] error, with no distinguishing detail, and leaves
/// the buffer unchanged.
pub fn pkcs7(buf: &mut Vec<u8>, bs: usize, pad: bool) -> (r: Result<usize, Reason>)
    requires
        1 <= bs <= 255,
        pad ==> old(buf)@.len() + bs <= usize::MAX,
    ensures
        pad ==> r == Ok::<usize, Reason>((old(buf)@.len() % bs as nat) as usize) && final(buf)@
            == pad_spec(old(buf)@, bs as nat),
        !pad ==> match unpad_spec(old(buf)@, bs as nat) {
            Some(rest) => final(buf)@ == rest && r == Ok::<usize, Reason>(
                (old(buf)@.len() - rest.len()) as usize,
            ),
            None => final(buf)@ == old(buf)@ && r == Err::<usize, Reason>(Reason::Padding),
        },
{
    if pad {
        let rem = buf.len() % bs;
        let pad_count = if rem > 0 {
            bs - rem
        } else {
            bs
        };
        let mut q: usize = 0;
        while q < pad_count
            invariant
                q <= pad_count,
                pad_count <= 255,
                pad_count + old(buf)@.len() <= usize::MAX,
                buf@ == old(buf)@ + Seq::new(q as nat, |i: int| pad_count as u8),
            decreases pad_count - q,
        {
            buf.push(pad_count as u8);
            q = q + 1;
            proof {
                assert(buf@ =~= old(buf)@ + Seq::new(q as nat, |i: int| pad_count as u8));
            }
        }
        proof {
            assert(buf@ =~= pad_spec(old(buf)@, bs as nat));
        }
        return Ok(rem);
    }

    let len = buf.len();

    // Return the same error for every failing check, so that a caller
    // cannot learn which one failed (padding-oracle hardening).
    if len == 0 || len % bs != 0 {
        return Err(Reason::Padding);
    }

    let pad_len = buf[len - 1] as usize;

    if pad_len == 0 || pad_len > bs {
        return Err(Reason::Padding);
    }

    proof {
        if len < bs {
            vstd::arithmetic::div_mod::lemma_small_mod(len as nat, bs as nat);
        }
    }
    let mut q: usize = len - pad_len;
    while q < len
        invariant
            !pad,
            1 <= bs <= 255,
            len as int % bs as int == 0,
            len - pad_len <= q <= len,
            len == buf@.len(),
            1 <= pad_len <= bs,
            pad_len == buf@.last() as usize,
            buf@ == old(buf)@,
            forall|i: int| len - pad_len <= i < q ==> buf@[i] == buf@.last(),
        decreases len - q,
    {
        if buf[q] as usize != pad_len {
            proof {
                assert(buf@[q as int] != buf@.last());
            }
            return Err(Reason::Padding);
        }
        q = q + 1;
    }

    let padding = len - pad_len;
    buf.truncate(padding);
    proof {
        assert(buf@ =~= unpad_spec(old(buf)@, bs as nat).unwrap());
    }
    Ok(pad_len)
}

/// Generate a pseudo-random IV block. Nothing is promised of the words.
pub fn random_iv<W: Word>() -> [W; 2] {
    [W::random(), W::random()]
}

/// Generate a block whose first word is a pseudo-random nonce and whose
/// last word -- the counter -- is zero, ready for CTR mode.
pub fn random_nonce_and_counter<W: Word>() -> (r: [W; 2])
    ensures
        r[1] == W::spec_zero(),
{
    [W::random(), W::zero()]
}

} // verus!
