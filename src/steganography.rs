//! Least-significant-bit embedding of a message into the channel bytes of an
//! image, and its extraction. A message is framed as a 4-byte big-endian
//! length followed by its bytes; each channel byte carries one bit, most
//! significant bit first.

use vstd::arithmetic::power2::{lemma_pow2_unfold, pow2};
use crate::text::push_all;
use vstd::prelude::*;

verus! {

/// Settings of the embed command: a message or a file to hide.
pub struct EmbedArgs {
    pub input: String,
    pub output: Option<String>,
    pub message: Option<String>,
    pub file: Option<String>,
}

/// Settings of the extract command.
pub struct ExtractArgs {
    pub input: String,
    pub output: Option<String>,
}

#[derive(Clone, Copy, Debug, PartialEq, Eq, Structural)]
pub enum StegoError {
    /// The message does not fit in the image, or its length in 32 bits.
    TooLarge,
    /// The image has fewer than 32 channel bytes, too few for a length.
    TooSmall,
    /// The length read from the image is more than the image holds.
    ExceedsCapacity,
}

/// Bit `i` of `data`, counting from the most significant bit of the first byte.
pub open spec fn bit_at(data: Seq<u8>, i: int) -> u8 {
    ((data[i / 8] >> ((7 - i % 8) as u8)) & 1u8) as u8
}

/// The channel bytes after hiding `data` in the low bits of the first
/// `8 * data.len()` of them.
pub open spec fn embedded(buf: Seq<u8>, data: Seq<u8>) -> Seq<u8> {
    Seq::new(
        buf.len(),
        |i: int|
            if i < 8 * data.len() {
                ((buf[i] & 0xFEu8) | bit_at(data, i)) as u8
            } else {
                buf[i]
            },
    )
}

/// The number written by the low bits of `k` channel bytes from `at`, most
/// significant first.
pub open spec fn low_bits(buf: Seq<u8>, at: int, k: nat) -> int
    decreases k,
{
    if k == 0 {
        0
    } else {
        low_bits(buf, at, (k - 1) as nat) * 2 + (buf[at + k - 1] % 2) as int
    }
}

/// The message hidden in `buf`, or why there is none.
pub open spec fn extracted(buf: Seq<u8>) -> Result<Seq<u8>, StegoError> {
    if buf.len() < 32 {
        Err(StegoError::TooSmall)
    } else {
        let n = low_bits(buf, 0, 32);
        if 32 + n * 8 > buf.len() {
            Err(StegoError::ExceedsCapacity)
        } else {
            Ok(Seq::new(n as nat, |j: int| low_bits(buf, 32 + 8 * j, 8) as u8))
        }
    }
}

/// A message with its 4-byte big-endian length in front.
pub open spec fn framed(payload: Seq<u8>) -> Seq<u8> {
    let n = payload.len();
    seq![
        ((n / 0x1000000) % 256) as u8,
        ((n / 0x10000) % 256) as u8,
        ((n / 0x100) % 256) as u8,
        (n % 256) as u8,
    ] + payload
}

proof fn lemma_low_bits_bound(buf: Seq<u8>, at: int, k: nat)
    ensures
        0 <= low_bits(buf, at, k) < pow2(k),
    decreases k,
{
    if k > 0 {
        lemma_low_bits_bound(buf, at, (k - 1) as nat);
        lemma_pow2_unfold(k);
    } else {
        assert(pow2(0) == 1) by {
            vstd::arithmetic::power2::lemma2_to64();
        }
    }
}

/// Puts the 4-byte big-endian length in front of a message.
pub fn frame_message(payload: &[u8]) -> (r: Result<Vec<u8>, StegoError>)
    ensures
        payload@.len() > u32::MAX ==> r == Err::<Vec<u8>, StegoError>(StegoError::TooLarge),
        payload@.len() <= u32::MAX ==> r is Ok && r->Ok_0@ == framed(payload@),
{
    if payload.len() > u32::MAX as usize {
        return Err(StegoError::TooLarge);
    }
    let n = payload.len();
    let mut out: Vec<u8> = Vec::new();
    out.push(((n / 0x1000000) % 256) as u8);
    out.push(((n / 0x10000) % 256) as u8);
    out.push(((n / 0x100) % 256) as u8);
    out.push((n % 256) as u8);
    push_all(&mut out, payload);
    assert(out@ =~= framed(payload@));
    Ok(out)
}

/// Hides `data` in the low bits of the channel bytes, one bit per byte.
/// The buffer is left as it was when `data` does not fit.
pub fn embed_data(buffer: &mut Vec<u8>, data: &[u8]) -> (r: Result<(), StegoError>)
    ensures
        r is Ok <==> 8 * data@.len() <= old(buffer)@.len(),
        r is Ok ==> final(buffer)@ == embedded(old(buffer)@, data@),
        r is Err ==> r == Err::<(), StegoError>(StegoError::TooLarge) && final(buffer)@ == old(
            buffer,
        )@,
{
    let capacity = buffer.len();
    if data.len() > capacity / 8 {
        return Err(StegoError::TooLarge);
    }
    let required = data.len() * 8;
    let mut idx: usize = 0;
    while idx < required
        invariant
            required == 8 * data@.len(),
            required <= buffer@.len(),
            buffer@.len() == old(buffer)@.len(),
            idx <= required,
            forall|i: int|
                0 <= i < buffer@.len() ==> #[trigger] buffer@[i] == (if i < idx {
                    ((old(buffer)@[i] & 0xFEu8) | bit_at(data@, i)) as u8
                } else {
                    old(buffer)@[i]
                }),
        decreases required - idx,
    {
        let byte = data[idx / 8];
        let shift = (7 - idx % 8) as u8;
        let bit = (byte >> shift) & 1;
        let org = buffer[idx];
        buffer.set(idx, (org & 0xFE) | bit);
        idx = idx + 1;
    }
    assert(buffer@ =~= embedded(old(buffer)@, data@));
    Ok(())
}

fn read_bits(buf: &[u8], at: usize, k: usize) -> (r: u64)
    requires
        k <= 32,
        at + k <= buf@.len(),
    ensures
        r as int == low_bits(buf@, at as int, k as nat),
{
    let blen = buf.len();
    let mut val: u64 = 0;
    let mut j: usize = 0;
    while j < k
        invariant
            blen == buf@.len(),
            k <= 32,
            at + k <= buf@.len(),
            j <= k,
            val as int == low_bits(buf@, at as int, j as nat),
        decreases k - j,
    {
        proof {
            lemma_low_bits_bound(buf@, at as int, j as nat);
            vstd::arithmetic::power2::lemma_pow2_strictly_increases(j as nat, 32);
            vstd::arithmetic::power2::lemma2_to64();
        }
        let b = buf[at + j];
        let low = b & 1;
        assert(low == b % 2) by (bit_vector)
            requires
                low == b & 1,
        ;
        val = val * 2 + low as u64;
        j = j + 1;
    }
    val
}

/// Reads back a message hidden by `embed_data` after `frame_message`.
pub fn extract_data(buffer: &[u8]) -> (r: Result<Vec<u8>, StegoError>)
    ensures
        match extracted(buffer@) {
            Ok(m) => r is Ok && r->Ok_0@ == m,
            Err(e) => r == Err::<Vec<u8>, StegoError>(e),
        },
{
    if buffer.len() < 32 {
        return Err(StegoError::TooSmall);
    }
    let n = read_bits(buffer, 0, 32);
    if n > ((buffer.len() - 32) / 8) as u64 {
        return Err(StegoError::ExceedsCapacity);
    }
    let n = n as usize;
    let blen = buffer.len();
    let mut out: Vec<u8> = Vec::new();
    let mut j: usize = 0;
    while j < n
        invariant
            blen == buffer@.len(),
            32 + 8 * n <= buffer@.len(),
            j <= n,
            out@.len() == j,
            forall|i: int|
                0 <= i < j ==> #[trigger] out@[i] == low_bits(buffer@, 32 + 8 * i, 8) as u8,
        decreases n - j,
    {
        let v = read_bits(buffer, 32 + 8 * j, 8);
        proof {
            lemma_low_bits_bound(buffer@, 32 + 8 * j, 8);
            vstd::arithmetic::power2::lemma2_to64();
        }
        out.push(v as u8);
        j = j + 1;
    }
    assert(out@ =~= extracted(buffer@)->Ok_0);
    Ok(out)
}

} // verus!
