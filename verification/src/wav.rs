//! Recording to a 24-bit WAV file: the header, the sample data, and the sizes that are
//! filled in at the end.

use vstd::prelude::*;

use crate::frame::{has_frames, law_packed_samples, pack_frames, packed};
use crate::proto::{law_le_round_trip, le_byte, le_bytes};
use crate::{BYTES_PER_SAMP, FRAME_BYTES};

verus! {

/// Bytes of the header.
pub const WAV_HEADER_LEN: usize = 44;

/// Where the header holds the size of what follows it.
pub const RIFF_SIZE_AT: u64 = 4;

/// Where the header holds the size of the sample data.
pub const DATA_SIZE_AT: u64 = 40;

/// A 16-bit number as two bytes, the least significant first.
pub open spec fn le16(n: int) -> Seq<u8> {
    seq![(n % 0x100) as u8, (n / 0x100) as u8]
}

/// The header of a file of 24-bit PCM with `ch` channels, sizes still zero.
pub open spec fn header_of(rate: u32, ch: u16) -> Seq<u8> {
    seq![0x52u8, 0x49, 0x46, 0x46] + le_bytes(0) + seq![0x57u8, 0x41, 0x56, 0x45] + seq![
        0x66u8,
        0x6d,
        0x74,
        0x20,
    ] + le_bytes(16) + le16(1) + le16(ch as int) + le_bytes(rate) + le_bytes(
        (rate * ch * BYTES_PER_SAMP) as u32,
    ) + le16(ch * BYTES_PER_SAMP) + le16(24) + seq![0x64u8, 0x61, 0x74, 0x61] + le_bytes(0)
}

/// The byte rate and the size of a frame fit their fields.
pub open spec fn header_fits(rate: u32, ch: u16) -> bool {
    &&& rate * ch * BYTES_PER_SAMP <= u32::MAX
    &&& ch * BYTES_PER_SAMP <= u16::MAX
}

/// Appends a 32-bit number, the least significant byte first.
fn push_le32(out: &mut Vec<u8>, n: u32)
    ensures
        final(out)@ == old(out)@ + le_bytes(n),
{
    out.push((n % 0x100) as u8);
    out.push((n / 0x100 % 0x100) as u8);
    out.push((n / 0x1_0000 % 0x100) as u8);
    out.push((n / 0x100_0000) as u8);
    assert(out@ =~= old(out)@ + le_bytes(n));
}

/// Appends a 16-bit number, the least significant byte first.
fn push_le16(out: &mut Vec<u8>, n: u16)
    ensures
        final(out)@ == old(out)@ + le16(n as int),
{
    out.push((n % 0x100) as u8);
    out.push((n / 0x100) as u8);
    assert(out@ =~= old(out)@ + le16(n as int));
}

/// Appends a four-character code.
fn push_code(out: &mut Vec<u8>, a: u8, b: u8, c: u8, d: u8)
    ensures
        final(out)@ == old(out)@ + seq![a, b, c, d],
{
    out.push(a);
    out.push(b);
    out.push(c);
    out.push(d);
    assert(out@ =~= old(out)@ + seq![a, b, c, d]);
}

/// The header of a file of 24-bit PCM with `ch` channels, sizes still zero.
pub fn wav_header(rate: u32, ch: u16) -> (h: Vec<u8>)
    requires
        header_fits(rate, ch),
    ensures
        h@ == header_of(rate, ch),
        h@.len() == WAV_HEADER_LEN,
{
    assert(0 <= rate * ch) by (nonlinear_arith);
    assert(rate * ch <= u32::MAX);
    let mut h: Vec<u8> = Vec::with_capacity(WAV_HEADER_LEN);
    push_code(&mut h, 0x52, 0x49, 0x46, 0x46);
    push_le32(&mut h, 0);
    push_code(&mut h, 0x57, 0x41, 0x56, 0x45);
    push_code(&mut h, 0x66, 0x6d, 0x74, 0x20);
    push_le32(&mut h, 16);
    push_le16(&mut h, 1);
    push_le16(&mut h, ch);
    push_le32(&mut h, rate);
    push_le32(&mut h, rate * ch as u32 * 3);
    push_le16(&mut h, ch * 3);
    push_le16(&mut h, 24);
    push_code(&mut h, 0x64, 0x61, 0x74, 0x61);
    push_le32(&mut h, 0);
    h
}

// ---------------------------------- recording -------------------------------

/// What was recorded.
#[verifier::ext_equal]
pub struct RecordingView {
    /// Frames to record.
    pub target: nat,
    /// Frames recorded.
    pub written: nat,
    /// Bytes of sample data.
    pub data_bytes: nat,
}

impl RecordingView {
    /// `frames` frames were recorded.
    pub open spec fn grown(self, frames: nat) -> RecordingView {
        RecordingView {
            target: self.target,
            written: self.written + frames,
            data_bytes: self.data_bytes + frames * FRAME_BYTES as nat,
        }
    }

    /// The bytes are those of the frames.
    pub open spec fn wf(self) -> bool {
        self.data_bytes == self.written * FRAME_BYTES as nat
    }
}

/// A recording in progress.
pub struct Recording {
    target: u64,
    written: u64,
    data_bytes: u32,
}

impl View for Recording {
    type V = RecordingView;

    closed spec fn view(&self) -> RecordingView {
        RecordingView {
            target: self.target as nat,
            written: self.written as nat,
            data_bytes: self.data_bytes as nat,
        }
    }
}

impl Recording {
    /// A recording of `target` frames.
    pub fn new(target: u64) -> (r: Recording)
        ensures
            r@ == (RecordingView { target: target as nat, written: 0, data_bytes: 0 }),
            r@.wf(),
    {
        Recording { target, written: 0, data_bytes: 0 }
    }

    /// Frames recorded.
    pub fn written(&self) -> (n: u64)
        ensures
            n == self@.written,
    {
        self.written
    }

    /// Takes captured frames. Returns the bytes to append to the file, and whether the
    /// recording is complete.
    pub fn on_frames(&mut self, planar: &[Vec<i32>], frames: usize) -> (r: (Vec<u8>, bool))
        requires
            old(self)@.wf(),
            has_frames(planar@, frames as int),
            old(self)@.data_bytes + frames * FRAME_BYTES <= u32::MAX,
        ensures
            r.0@ == packed(planar@, frames as nat),
            r.1 == (final(self)@.written >= final(self)@.target),
            final(self)@ == old(self)@.grown(frames as nat),
            final(self)@.wf(),
    {
        let mut buf: Vec<u8> = Vec::new();
        pack_frames(&mut buf, planar, frames);
        assert(buf@ =~= packed(planar@, frames as nat));
        self.data_bytes = self.data_bytes + (frames * FRAME_BYTES) as u32;
        self.written = self.written + frames as u64;
        (buf, self.written >= self.target)
    }

    /// The sizes to fill into the header: that of what follows it, and that of the data.
    pub fn sizes(&self) -> (r: (Vec<u8>, Vec<u8>))
        requires
            self@.data_bytes + 36 <= u32::MAX,
        ensures
            r.0@ == le_bytes((self@.data_bytes + 36) as u32),
            r.1@ == le_bytes(self@.data_bytes as u32),
    {
        let mut riff: Vec<u8> = Vec::with_capacity(4);
        push_le32(&mut riff, self.data_bytes + 36);
        let mut data: Vec<u8> = Vec::with_capacity(4);
        push_le32(&mut data, self.data_bytes);
        assert(riff@ =~= le_bytes((self@.data_bytes + 36) as u32));
        assert(data@ =~= le_bytes(self@.data_bytes as u32));
        (riff, data)
    }
}

// ----------------------------------- laws -----------------------------------

/// The sizes of a finished file are right: the first covers everything behind it, the second
/// the sample data, which are whole frames.
pub proof fn law_file_sizes(r: RecordingView, rate: u32, ch: u16, data: Seq<u8>)
    requires
        r.wf(),
        data.len() == r.data_bytes,
    ensures
        (header_of(rate, ch) + data).len() == 8 + (36 + r.data_bytes),
        (header_of(rate, ch) + data).len() == WAV_HEADER_LEN + r.written * FRAME_BYTES,
{
}

/// The fields of the header read back to what was recorded, the least significant byte first:
/// at 22 the channels, at 24 the rate, at 28 the bytes of a second, at 32 those of a frame, at
/// 34 the bits of a sample. The codes and the fixed numbers stand where players look for them,
/// and both sizes are still zero.
pub proof fn law_header_fields(rate: u32, ch: u16, h: Vec<u8>)
    requires
        rate * ch * 3 <= 4294967295,
        ch * 3 <= 65535,
        call_ensures(wav_header, (rate, ch), h),
    ensures
        h@.len() == 44,
        h@[22] + 256 * h@[23] == ch,
        h@[24] + 256 * h@[25] + 65536 * h@[26] + 16777216 * h@[27] == rate,
        h@[28] + 256 * h@[29] + 65536 * h@[30] + 16777216 * h@[31] == rate * ch * 3,
        h@[32] + 256 * h@[33] == ch * 3,
        h@[34] + 256 * h@[35] == 24,
        h@[16] + 256 * h@[17] + 65536 * h@[18] + 16777216 * h@[19] == 16,
        h@[20] + 256 * h@[21] == 1,
        h@.subrange(0, 4) == seq![0x52u8, 0x49, 0x46, 0x46],
        h@.subrange(8, 12) == seq![0x57u8, 0x41, 0x56, 0x45],
        h@.subrange(12, 16) == seq![0x66u8, 0x6d, 0x74, 0x20],
        h@.subrange(36, 40) == seq![0x64u8, 0x61, 0x74, 0x61],
        forall|i: int| 4 <= i < 8 ==> #[trigger] h@[i] == 0,
        forall|i: int| 40 <= i < 44 ==> #[trigger] h@[i] == 0,
{
    assert(0 <= rate * ch * 3) by (nonlinear_arith);
    law_le_round_trip(rate);
    law_le_round_trip((rate * ch * 3) as u32);
    law_le_round_trip(16);
    assert(h@.subrange(0, 4) =~= seq![0x52u8, 0x49, 0x46, 0x46]);
    assert(h@.subrange(8, 12) =~= seq![0x57u8, 0x41, 0x56, 0x45]);
    assert(h@.subrange(12, 16) =~= seq![0x66u8, 0x6d, 0x74, 0x20]);
    assert(h@.subrange(36, 40) =~= seq![0x64u8, 0x61, 0x74, 0x61]);
}

/// Which rates and channel counts a header has room for.
pub proof fn law_header_room(rate: u32, ch: u16)
    ensures
        header_fits(rate, ch) <==> rate * ch * 3 <= 4294967295 && ch * 3 <= 65535,
{
}

/// What a recording makes of captured frames: sample `c` of frame `i` is written as three bytes
/// from `18 * i + 3 * c` on, the least significant first, which read back to the low 24 bits of
/// the sample; the counts grow by the frames and by eighteen bytes for each of them; and it is
/// complete as soon as the frames asked for are there.
pub proof fn law_recording_grows(planar: &[Vec<i32>], frames: usize)
    requires
        has_frames(planar@, frames as int),
    ensures
        forall|rec: &mut Recording, r: (Vec<u8>, bool)| #[trigger]
            call_ensures(Recording::on_frames, (rec, planar, frames), r) ==> {
                &&& (*final(rec))@.target == (*rec)@.target
                &&& (*final(rec))@.written == (*rec)@.written + frames
                &&& (*final(rec))@.data_bytes == (*rec)@.data_bytes + 18 * frames
                &&& r.1 <==> (*rec)@.written + frames >= (*rec)@.target
                &&& r.0@.len() == 18 * frames
                &&& forall|i: int, c: int|
                    #![trigger planar@[c]@[i]]
                    0 <= i < frames && 0 <= c < 6 ==> {
                        let at = 18 * i + 3 * c;
                        r.0@[at] + 256 * r.0@[at + 1] + 65536 * r.0@[at + 2] == planar@[c]@[i]
                            % 16777216
                    }
            },
{
    law_packed_samples(planar@, frames as nat);
}

/// A recording begins with nothing, and says how many frames it has.
pub proof fn law_recording_starts(target: u64, rec: Recording, n: u64)
    requires
        call_ensures(Recording::new, (target,), rec),
        call_ensures(Recording::written, (&rec,), n),
    ensures
        rec@.target == target,
        rec@.data_bytes == 0,
        n == 0,
{
}

/// The sizes that are filled in at the end read back, the least significant byte first, to the
/// bytes of the data, and to that and the 36 bytes of header that follow the first size.
pub proof fn law_sizes_filled_in(rec: Recording, r: (Vec<u8>, Vec<u8>))
    requires
        rec@.data_bytes + 36 <= 4294967295,
        call_ensures(Recording::sizes, (&rec,), r),
    ensures
        r.0@.len() == 4,
        r.1@.len() == 4,
        r.1@[0] + 256 * r.1@[1] + 65536 * r.1@[2] + 16777216 * r.1@[3] == rec@.data_bytes,
        r.0@[0] + 256 * r.0@[1] + 65536 * r.0@[2] + 16777216 * r.0@[3] == rec@.data_bytes + 36,
        RIFF_SIZE_AT == 4,
        DATA_SIZE_AT == 40,
{
    law_le_round_trip(rec@.data_bytes as u32);
    law_le_round_trip((rec@.data_bytes + 36) as u32);
}

} // verus!
