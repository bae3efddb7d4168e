use vstd::prelude::*;
use crate::bytes::{be_at, read_be_i16};
use crate::error::AiffError;

verus! {

/// The signed value of a two's-complement integer of `bits` bits whose
/// unsigned reading is `u`.
pub open spec fn signed(u: int, bits: nat) -> int {
    if u >= vstd::arithmetic::power2::pow2((bits - 1) as nat) {
        u - vstd::arithmetic::power2::pow2(bits)
    } else {
        u
    }
}

/// Bit depths that decode byte by byte.
pub open spec fn supported_bit_depth(bit_depth: int) -> bool {
    bit_depth == 8 || bit_depth == 16 || bit_depth == 24 || bit_depth == 32
}

/// The Q15 value of the sample of `bytes_per_sample` bytes at position `p`:
/// its normalised amplitude times 32768, truncated toward minus infinity.
/// Samples wider than 16 bits keep their upper 16 bits; 8-bit samples are
/// scaled up by 256.
pub open spec fn sample_q15(d: Seq<u8>, p: int, bytes_per_sample: int) -> int {
    if bytes_per_sample == 1 {
        signed(d[p] as int, 8) * 256
    } else {
        signed(be_at(d, p, 2), 16)
    }
}

/// The number of complete frames of `channels` samples in the bytes of `d`
/// from `start`.
pub open spec fn frame_count(d: Seq<u8>, start: int, channels: int, bytes_per_sample: int) -> int {
    (d.len() - start) / (channels * bytes_per_sample)
}

/// `left`, `right` and `interleaved` hold the samples of every complete
/// frame of `channels` samples of `bytes_per_sample` bytes in `d` from `start`:
/// `interleaved` all of them in order, `left` the first of each frame and
/// `right` the last (the same sample, for one channel).
pub open spec fn decoded_from(
    left: Seq<i16>,
    right: Seq<i16>,
    interleaved: Seq<i16>,
    d: Seq<u8>,
    start: int,
    channels: int,
    bytes_per_sample: int,
) -> bool {
    let n = frame_count(d, start, channels, bytes_per_sample);
    &&& left.len() == n
    &&& right.len() == n
    &&& interleaved.len() == n * channels
    &&& forall|j: int| 0 <= j < n * channels ==> #[trigger] interleaved[j] as int
        == sample_q15(d, start + j * bytes_per_sample, bytes_per_sample)
    &&& forall|i: int| 0 <= i < n ==> #[trigger] left[i] == interleaved[i * channels]
    &&& forall|i: int| 0 <= i < n ==> #[trigger] right[i] == interleaved[i * channels + channels - 1]
}

/// Decoded channel buffers. For one channel, `right` and `interleaved`
/// repeat `left`; for two, `interleaved` alternates left and right.
pub struct Channels {
    pub left: Vec<i16>,
    pub right: Vec<i16>,
    pub interleaved: Vec<i16>,
}

/// The sample of `bytes_per_sample` bytes at `pos`, in Q15.
fn read_sample(data: &[u8], pos: usize, bytes_per_sample: usize) -> (r: i16)
    requires
        1 <= bytes_per_sample <= 4,
        pos + bytes_per_sample <= data@.len(),
    ensures
        r as int == sample_q15(data@, pos as int, bytes_per_sample as int),
{
    proof {
        vstd::arithmetic::power2::lemma2_to64();
    }
    if bytes_per_sample == 1 {
        let b = data[pos];
        if b >= 128 {
            (b as i16 - 256) * 256
        } else {
            b as i16 * 256
        }
    } else {
        read_be_i16(data, pos)
    }
}

/// Decodes the big-endian PCM bytes of `data` from `start` to the end into
/// Q15 samples. A trailing partial frame is dropped.
pub fn decode_pcm(data: &[u8], start: usize, num_channels: u16, bit_depth: u16) -> (r: Result<Channels, AiffError>)
    requires
        start <= data@.len(),
    ensures
        num_channels != 1 && num_channels != 2 ==> r == Err::<Channels, AiffError>(AiffError::UnsupportedChannelLayout),
        (num_channels == 1 || num_channels == 2) && !supported_bit_depth(bit_depth as int)
            ==> r == Err::<Channels, AiffError>(AiffError::UnsupportedBitDepth),
        (num_channels == 1 || num_channels == 2) && supported_bit_depth(bit_depth as int) ==> r is Ok,
        r is Ok ==> decoded_from(r->Ok_0.left@, r->Ok_0.right@, r->Ok_0.interleaved@, data@, start as int,
            num_channels as int, bit_depth as int / 8),
{
    if num_channels != 1 && num_channels != 2 {
        return Err(AiffError::UnsupportedChannelLayout);
    }
    if bit_depth != 8 && bit_depth != 16 && bit_depth != 24 && bit_depth != 32 {
        return Err(AiffError::UnsupportedBitDepth);
    }
    let bps: usize = (bit_depth / 8) as usize;
    let ch: usize = num_channels as usize;
    assert(1 <= bps <= 4 && 1 <= ch <= 2);
    let frame: usize = ch * bps;
    let len: usize = data.len();
    let n: usize = (len - start) / frame;
    let ghost d = data@;
    let mut left: Vec<i16> = Vec::new();
    let mut right: Vec<i16> = Vec::new();
    let mut interleaved: Vec<i16> = Vec::new();
    let mut i: usize = 0;
    let mut pos: usize = start;
    proof {
        assert(n * frame <= data@.len() - start) by (nonlinear_arith)
            requires n == (data@.len() - start) / (frame as int), frame > 0, data@.len() >= start;
    }
    while i < n
        invariant
            bps == bit_depth / 8,
            1 <= bps <= 4,
            ch == num_channels,
            ch == 1 || ch == 2,
            frame == ch * bps,
            n == frame_count(d, start as int, ch as int, bps as int),
            n * frame <= d.len() - start,
            d == data@,
            len == d.len(),
            i <= n,
            pos == start + i * frame,
            left@.len() == i,
            right@.len() == i,
            interleaved@.len() == i * ch,
            forall|j: int| 0 <= j < i * ch ==> #[trigger] interleaved@[j] as int
                == sample_q15(d, start + j * bps, bps as int),
            forall|k: int| 0 <= k < i ==> #[trigger] left@[k] == interleaved@[k * ch],
            forall|k: int| 0 <= k < i ==> #[trigger] right@[k] == interleaved@[k * ch + ch - 1],
        decreases n - i,
    {
        proof {
            assert(pos + frame <= start + n * frame) by (nonlinear_arith)
                requires pos == start + i * frame, i < n, frame >= 0;
            assert(bps <= frame) by (nonlinear_arith)
                requires frame == ch * bps, ch >= 1, bps >= 0;
            assert(pos + frame <= data@.len());
            assert(i * ch + ch == (i + 1) * ch) by (nonlinear_arith);
            assert(start + (i * ch) * bps == pos) by (nonlinear_arith)
                requires pos == start + i * frame, frame == ch * bps;
        }
        let l = read_sample(data, pos, bps);
        left.push(l);
        interleaved.push(l);
        if ch == 2 {
            let r = read_sample(data, pos + bps, bps);
            proof {
                assert(start + (i * ch + 1) * bps == pos + bps) by (nonlinear_arith)
                    requires pos == start + i * frame, frame == ch * bps;
            }
            right.push(r);
            interleaved.push(r);
        } else {
            right.push(l);
        }
        proof {
            assert(pos + frame == start + (i + 1) * frame) by (nonlinear_arith)
                requires pos == start + i * frame;
        }
        pos = pos + frame;
        i = i + 1;
    }
    Ok(Channels { left, right, interleaved })
}

} // verus!
