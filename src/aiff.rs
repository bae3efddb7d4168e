use vstd::prelude::*;
use crate::bytes::{be_at, read_be_u16, read_be_u32};
use crate::error::{AiffError, ChunkId};
use crate::extended::{extended_at, extended_fields};
use crate::pcm::{decode_pcm, decoded_from, supported_bit_depth};

verus! {

/// A decoded AIFF container. Samples are Q15: `value / 32768` is the
/// normalised amplitude.
#[derive(Debug)]
pub struct AiffData {
    /// Size of the container, the 8 bytes of the `FORM` header included.
    pub file_size_bytes: u32,
    pub num_channels: u16,
    pub num_sample_frames: u32,
    pub bit_depth: u16,
    pub sample_rate_hz: u32,
    /// Empty when the container has no `NAME` chunk.
    pub track_name: String,
    /// `num_sample_frames / sample_rate_hz`, in whole seconds.
    pub track_length_s: u16,
    pub sound_offset_bytes: u16,
    pub sound_block_size_bytes: u16,
    pub left_channel_audio: Vec<i16>,
    pub right_channel_audio: Vec<i16>,
    pub interleaved_audio: Vec<i16>,
}

impl AiffData {
    /// What every decoded container satisfies: one or two channels, channel
    /// buffers of equal length, a positive sample rate, and an interleaved
    /// buffer of one sample per channel per frame.
    pub open spec fn wf(&self) -> bool {
        &&& self.num_channels == 1 || self.num_channels == 2
        &&& self.left_channel_audio@.len() == self.right_channel_audio@.len()
        &&& self.interleaved_audio@.len() == self.left_channel_audio@.len() * self.num_channels
        &&& self.sample_rate_hz > 0
    }

    /// Tests `wf`.
    pub fn is_well_formed(&self) -> (r: bool)
        ensures
            r == self.wf(),
    {
        let n = self.left_channel_audio.len();
        let interleaved_ok = if self.num_channels == 1 {
            self.interleaved_audio.len() == n
        } else if self.num_channels == 2 {
            self.interleaved_audio.len() as u128 == 2 * (n as u128)
        } else {
            false
        };
        interleaved_ok && self.right_channel_audio.len() == n && self.sample_rate_hz > 0
    }
}

/// Splitting `interleaved` into its even and odd positions gives `left`
/// and `right`.
pub open spec fn deinterleaves(interleaved: Seq<i16>, left: Seq<i16>, right: Seq<i16>) -> bool {
    &&& interleaved.len() == 2 * left.len()
    &&& right.len() == left.len()
    &&& forall|i: int| 0 <= i < left.len() ==> #[trigger] interleaved[2 * i] == left[i]
    &&& forall|i: int| 0 <= i < left.len() ==> #[trigger] interleaved[2 * i + 1] == right[i]
}

/// Whether the four bytes of `d` at `p` are the tag `t0 t1 t2 t3`.
pub open spec fn has_tag(d: Seq<u8>, p: int, t0: u8, t1: u8, t2: u8, t3: u8) -> bool {
    &&& 0 <= p && p + 4 <= d.len()
    &&& d[p] == t0 && d[p + 1] == t1 && d[p + 2] == t2 && d[p + 3] == t3
}

/// The container starts with `FORM`.
pub open spec fn has_form(d: Seq<u8>) -> bool {
    has_tag(d, 0, 0x46, 0x4F, 0x52, 0x4D)
}

/// The form type is `AIFF`.
pub open spec fn has_aiff(d: Seq<u8>) -> bool {
    has_tag(d, 8, 0x41, 0x49, 0x46, 0x46)
}

/// A `NAME` chunk follows the form type.
pub open spec fn has_name(d: Seq<u8>) -> bool {
    has_tag(d, 12, 0x4E, 0x41, 0x4D, 0x45)
}

/// The `COMM` tag stands where the common chunk must start.
pub open spec fn has_comm(d: Seq<u8>) -> bool {
    has_tag(d, comm_pos(d), 0x43, 0x4F, 0x4D, 0x4D)
}

/// The `SSND` tag stands where the sound chunk must start.
pub open spec fn has_ssnd(d: Seq<u8>) -> bool {
    has_tag(d, ssnd_pos(d), 0x53, 0x53, 0x4E, 0x44)
}

/// Length of the track name, when a `NAME` chunk follows the form type.
pub open spec fn name_len(d: Seq<u8>) -> int {
    be_at(d, 16, 4)
}

/// Position of the `COMM` chunk: right after the form type, or after the
/// `NAME` chunk when there is one.
pub open spec fn comm_pos(d: Seq<u8>) -> int {
    if has_name(d) { 20 + name_len(d) } else { 12 }
}

/// Position of the `SSND` chunk, right after the 26 bytes of `COMM`.
pub open spec fn ssnd_pos(d: Seq<u8>) -> int {
    comm_pos(d) + 26
}

/// Sample rate in whole Hz, from the extended float of the `COMM` chunk.
pub open spec fn rate_of(d: Seq<u8>) -> int {
    extended_fields(d, comm_pos(d) + 16).truncated()
}

/// Where the PCM bytes start: after the 12 bytes of the `SSND` header and
/// the offset it declares, but not past the end.
pub open spec fn pcm_start(d: Seq<u8>) -> int {
    let p = ssnd_pos(d) + 12 + be_at(d, ssnd_pos(d) + 8, 2);
    if p > d.len() { d.len() as int } else { p }
}

/// The error of the container's header, if any, in the order in which the
/// header is read.
pub open spec fn header_error(d: Seq<u8>) -> Option<AiffError> {
    let c = comm_pos(d);
    let s = ssnd_pos(d);
    if d.len() < 4 {
        Some(AiffError::UnexpectedEnd)
    } else if !has_form(d) {
        Some(AiffError::MalformedContainer)
    } else if d.len() < 8 {
        Some(AiffError::UnexpectedEnd)
    } else if be_at(d, 4, 4) > u32::MAX - 8 {
        Some(AiffError::MalformedContainer)
    } else if d.len() < 12 {
        Some(AiffError::UnexpectedEnd)
    } else if !has_aiff(d) {
        Some(AiffError::UnsupportedFormat)
    } else if has_name(d) && (d.len() < 20 || d.len() < 20 + name_len(d)) {
        Some(AiffError::UnexpectedEnd)
    } else if d.len() < c + 4 {
        Some(AiffError::UnexpectedEnd)
    } else if !has_comm(d) {
        Some(AiffError::MissingChunk(ChunkId::Comm))
    } else if d.len() < c + 8 {
        Some(AiffError::UnexpectedEnd)
    } else if be_at(d, c + 4, 4) != 18 {
        Some(AiffError::UnexpectedChunkSize)
    } else if d.len() < c + 26 {
        Some(AiffError::UnexpectedEnd)
    } else if rate_of(d) == 0 {
        Some(AiffError::InvalidSampleRate)
    } else if d.len() < s + 4 {
        Some(AiffError::UnexpectedEnd)
    } else if !has_ssnd(d) {
        Some(AiffError::MissingChunk(ChunkId::Ssnd))
    } else if d.len() < s + 12 {
        Some(AiffError::UnexpectedEnd)
    } else {
        None
    }
}

/// Channel count declared in the `COMM` chunk.
pub open spec fn channels_of(d: Seq<u8>) -> int {
    be_at(d, comm_pos(d) + 8, 2)
}

/// Bit depth declared in the `COMM` chunk.
pub open spec fn bit_depth_of(d: Seq<u8>) -> int {
    be_at(d, comm_pos(d) + 14, 2)
}

/// The track name that `read_aiff` reports for a container with a `NAME` chunk.
pub uninterp spec fn lossy_utf8(bytes: Seq<u8>) -> Seq<char>;

/// Relies on `String::from_utf8_lossy`: the text of `len` bytes from `pos`,
/// with each invalid sequence replaced; a function of the bytes alone.
#[verifier::external_body]
fn text_at(data: &[u8], pos: usize, len: usize) -> (r: String)
    requires
        pos + len <= data@.len(),
    ensures
        r@ == lossy_utf8(data@.subrange(pos as int, pos + len)),
{
    String::from_utf8_lossy(&data[pos..pos + len]).into_owned()
}

/// Whether the four bytes at `pos` are the tag `t0 t1 t2 t3`.
fn tag_at(data: &[u8], pos: usize, t0: u8, t1: u8, t2: u8, t3: u8) -> (r: bool)
    requires
        pos + 4 <= data@.len(),
    ensures
        r == has_tag(data@, pos as int, t0, t1, t2, t3),
{
    data[pos] == t0 && data[pos + 1] == t1 && data[pos + 2] == t2 && data[pos + 3] == t3
}

/// Decodes an AIFF container held in memory: the `FORM` header with form
/// type `AIFF`, an optional `NAME` chunk, the `COMM` chunk and the `SSND`
/// chunk, whose bytes after its offset are the PCM data.
pub fn read_aiff(data: &[u8]) -> (r: Result<AiffData, AiffError>)
    ensures
        header_error(data@) is Some ==> r == Err::<AiffData, AiffError>(header_error(data@)->0),
        header_error(data@) is None && channels_of(data@) != 1 && channels_of(data@) != 2
            ==> r == Err::<AiffData, AiffError>(AiffError::UnsupportedChannelLayout),
        header_error(data@) is None && (channels_of(data@) == 1 || channels_of(data@) == 2)
            && !supported_bit_depth(bit_depth_of(data@))
            ==> r == Err::<AiffData, AiffError>(AiffError::UnsupportedBitDepth),
        header_error(data@) is None && (channels_of(data@) == 1 || channels_of(data@) == 2)
            && supported_bit_depth(bit_depth_of(data@)) ==> r is Ok,
        r is Ok ==> ({
            let a = r->Ok_0;
            let d = data@;
            let c = comm_pos(d);
            &&& a.wf()
            &&& a.file_size_bytes == be_at(d, 4, 4) + 8
            &&& a.num_channels == channels_of(d)
            &&& a.num_sample_frames == be_at(d, c + 10, 4)
            &&& a.bit_depth == bit_depth_of(d)
            &&& a.sample_rate_hz == rate_of(d)
            &&& a.track_length_s == (a.num_sample_frames / a.sample_rate_hz) % 0x10000
            &&& a.track_name@ == if has_name(d) { lossy_utf8(d.subrange(20, 20 + name_len(d))) } else { Seq::empty() }
            &&& a.sound_offset_bytes == be_at(d, ssnd_pos(d) + 8, 2)
            &&& a.sound_block_size_bytes == be_at(d, ssnd_pos(d) + 10, 2)
            &&& decoded_from(a.left_channel_audio@, a.right_channel_audio@, a.interleaved_audio@, d,
                pcm_start(d), a.num_channels as int, a.bit_depth as int / 8)
            &&& a.num_channels == 1 ==> a.right_channel_audio@ == a.left_channel_audio@
                && a.interleaved_audio@ == a.left_channel_audio@
            &&& a.num_channels == 2 ==> deinterleaves(a.interleaved_audio@, a.left_channel_audio@, a.right_channel_audio@)
        }),
{
    let len = data.len();
    if len < 4 {
        return Err(AiffError::UnexpectedEnd);
    }
    if !tag_at(data, 0, 0x46, 0x4F, 0x52, 0x4D) {
        return Err(AiffError::MalformedContainer);
    }
    if len < 8 {
        return Err(AiffError::UnexpectedEnd);
    }
    let form_size = read_be_u32(data, 4);
    if form_size > u32::MAX - 8 {
        return Err(AiffError::MalformedContainer);
    }
    if len < 12 {
        return Err(AiffError::UnexpectedEnd);
    }
    if !tag_at(data, 8, 0x41, 0x49, 0x46, 0x46) {
        return Err(AiffError::UnsupportedFormat);
    }
    let mut track_name = String::new();
    let mut c: usize = 12;
    if len >= 16 && tag_at(data, 12, 0x4E, 0x41, 0x4D, 0x45) {
        if len < 20 {
            return Err(AiffError::UnexpectedEnd);
        }
        let name_len = read_be_u32(data, 16) as usize;
        if len - 20 < name_len {
            return Err(AiffError::UnexpectedEnd);
        }
        track_name = text_at(data, 20, name_len);
        c = 20 + name_len;
    }
    assert(c == comm_pos(data@));
    if len - c < 4 {
        return Err(AiffError::UnexpectedEnd);
    }
    if !tag_at(data, c, 0x43, 0x4F, 0x4D, 0x4D) {
        return Err(AiffError::MissingChunk(ChunkId::Comm));
    }
    if len - c < 8 {
        return Err(AiffError::UnexpectedEnd);
    }
    if read_be_u32(data, c + 4) != 18 {
        return Err(AiffError::UnexpectedChunkSize);
    }
    if len - c < 26 {
        return Err(AiffError::UnexpectedEnd);
    }
    let num_channels = read_be_u16(data, c + 8);
    let num_sample_frames = read_be_u32(data, c + 10);
    let bit_depth = read_be_u16(data, c + 14);
    let sample_rate_hz = extended_at(data, c + 16).to_u32_saturating();
    if sample_rate_hz == 0 {
        return Err(AiffError::InvalidSampleRate);
    }
    let s = c + 26;
    if len - s < 4 {
        return Err(AiffError::UnexpectedEnd);
    }
    if !tag_at(data, s, 0x53, 0x53, 0x4E, 0x44) {
        return Err(AiffError::MissingChunk(ChunkId::Ssnd));
    }
    if len - s < 12 {
        return Err(AiffError::UnexpectedEnd);
    }
    let sound_offset_bytes = read_be_u16(data, s + 8);
    let sound_block_size_bytes = read_be_u16(data, s + 10);
    let skip = s + 12;
    let start: usize = if len - skip < sound_offset_bytes as usize { len } else { skip + sound_offset_bytes as usize };
    let channels = match decode_pcm(data, start, num_channels, bit_depth) {
        Ok(ch) => ch,
        Err(e) => {
            return Err(e);
        },
    };
    proof {
        let n = channels.left@.len();
        if num_channels == 1 {
            assert forall|i: int| 0 <= i < n implies channels.left@[i] == channels.interleaved@[i] by {
                assert(channels.left@[i] == channels.interleaved@[i * 1]);
            }
            assert(channels.right@ =~= channels.left@);
            assert(channels.interleaved@ =~= channels.left@);
        } else {
            assert forall|i: int| 0 <= i < n implies #[trigger] channels.interleaved@[2 * i] == channels.left@[i]
                && channels.interleaved@[2 * i + 1] == channels.right@[i] by {
                assert(channels.left@[i] == channels.interleaved@[i * 2]);
                assert(channels.right@[i] == channels.interleaved@[i * 2 + 2 - 1]);
            }
        }
    }
    let track_length_s = ((num_sample_frames / sample_rate_hz) % 0x10000) as u16;
    Ok(AiffData {
        file_size_bytes: form_size + 8,
        num_channels,
        num_sample_frames,
        bit_depth,
        sample_rate_hz,
        track_name,
        track_length_s,
        sound_offset_bytes,
        sound_block_size_bytes,
        left_channel_audio: channels.left,
        right_channel_audio: channels.right,
        interleaved_audio: channels.interleaved,
    })
}

} // verus!
