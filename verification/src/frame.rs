//! 24-bit little-endian samples and the tightly packed six-channel frames of the
//! isochronous endpoints.
//!
//! On the wire a frame is `CHANNELS` samples of `BYTES_PER_SAMP` bytes, channel after
//! channel. In memory audio is planar: one `Vec<i32>` per channel, samples sign-extended.

use vstd::prelude::*;

use crate::{BYTES_PER_SAMP, CHANNELS, FRAME_BYTES};

verus! {

/// One isochronous packet: its raw wire bytes, and whether the controller reported it
/// completed.
pub struct IsoPacket {
    pub data: Vec<u8>,
    pub ok: bool,
}

/// What an isochronous packet holds, as a mathematical value.
#[verifier::ext_equal]
pub struct PacketView {
    pub data: Seq<u8>,
    pub ok: bool,
}

impl View for IsoPacket {
    type V = PacketView;

    open spec fn view(&self) -> PacketView {
        PacketView { data: self.data@, ok: self.ok }
    }
}

// ------------------------------- one sample --------------------------------

/// The signed 24-bit little-endian number in the three bytes of `b` from `off` on.
pub open spec fn s24_at(b: Seq<u8>, off: int) -> int {
    let v = b[off] + 0x100 * b[off + 1] + 0x1_0000 * b[off + 2];
    if v >= 0x80_0000 {
        v - 0x100_0000
    } else {
        v
    }
}

/// Byte `j` (0 is the least significant) of the two's complement form of `s`.
pub open spec fn sample_byte(s: int, j: int) -> u8 {
    if j == 0 {
        (s % 0x100) as u8
    } else if j == 1 {
        (s / 0x100 % 0x100) as u8
    } else {
        (s / 0x1_0000 % 0x100) as u8
    }
}

/// `s` reduced to a signed 24-bit number: the value that three bytes of `s` stand for.
pub open spec fn wrap24(s: int) -> int {
    (s + 0x80_0000) % 0x100_0000 - 0x80_0000
}

/// Reads the sample in the first three bytes of `b`, sign-extended.
pub fn s24le(b: &[u8]) -> (s: i32)
    requires
        b@.len() >= 3,
    ensures
        s == s24_at(b@, 0),
{
    let b0: u32 = b[0] as u32;
    let b1: u32 = b[1] as u32;
    let b2: u32 = b[2] as u32;
    let v: u32 = b0 | (b1 << 8) | (b2 << 16);
    assert(v == b0 + 0x100 * b1 + 0x1_0000 * b2) by (bit_vector)
        requires
            v == b0 | (b1 << 8) | (b2 << 16),
            b0 < 0x100,
            b1 < 0x100,
            b2 < 0x100,
    ;
    if v >= 0x80_0000 {
        v as i32 - 0x100_0000
    } else {
        v as i32
    }
}

/// Appends the three bytes of the sample `s`; what does not fit 24 bits is cut off.
pub fn put_s24le(out: &mut Vec<u8>, s: i32)
    ensures
        final(out)@ == old(out)@ + seq![
            sample_byte(s as int, 0),
            sample_byte(s as int, 1),
            sample_byte(s as int, 2),
        ],
{
    let s1: i32 = s >> 8;
    let s2: i32 = s >> 16;
    assert(s1 == s / 0x100 && s2 == s / 0x1_0000) by (bit_vector)
        requires
            s1 == s >> 8,
            s2 == s >> 16,
    ;
    assert(s & 0xff == s % 0x100 && 0 <= s & 0xff < 0x100) by (bit_vector);
    assert(s1 & 0xff == s1 % 0x100 && 0 <= s1 & 0xff < 0x100) by (bit_vector);
    assert(s2 & 0xff == s2 % 0x100 && 0 <= s2 & 0xff < 0x100) by (bit_vector);
    out.push((s & 0xff) as u8);
    out.push((s1 & 0xff) as u8);
    out.push((s2 & 0xff) as u8);
}

/// The base-256 digits of a number, above three of them the rest.
proof fn lemma_digits(b0: int, b1: int, b2: int, q: int)
    requires
        0 <= b0 < 0x100,
        0 <= b1 < 0x100,
        0 <= b2 < 0x100,
    ensures
        ({
            let v = b0 + 0x100 * b1 + 0x1_0000 * b2 + 0x100_0000 * q;
            &&& v % 0x100 == b0
            &&& v / 0x100 % 0x100 == b1
            &&& v / 0x1_0000 % 0x100 == b2
            &&& v / 0x100_0000 == q
        }),
{
    let v = b0 + 0x100 * b1 + 0x1_0000 * b2 + 0x100_0000 * q;
    let v1 = b1 + 0x100 * b2 + 0x1_0000 * q;
    let v2 = b2 + 0x100 * q;
    assert(v == b0 + 0x100 * v1);
    assert(v / 0x100 == v1 && v % 0x100 == b0);
    assert(v1 == b1 + 0x100 * v2);
    assert(v1 % 0x100 == b1);
    assert(v == (b0 + 0x100 * b1) + 0x1_0000 * v2);
    assert(v / 0x1_0000 == v2);
    assert(v2 % 0x100 == b2);
    assert(v == (b0 + 0x100 * b1 + 0x1_0000 * b2) + 0x100_0000 * q);
}

/// Reading back the three bytes written for `s` gives `s`, reduced to 24 bits; a sample
/// that fits 24 bits comes back unchanged.
pub proof fn law_sample_round_trip(b: Seq<u8>, off: int, s: int)
    requires
        0 <= off,
        off + 3 <= b.len(),
        forall|j: int| 0 <= j < 3 ==> b[off + j] == #[trigger] sample_byte(s, j),
    ensures
        s24_at(b, off) == wrap24(s),
        -0x80_0000 <= s < 0x80_0000 ==> s24_at(b, off) == s,
{
    assert(b[off + 0] == sample_byte(s, 0));
    assert(b[off + 1] == sample_byte(s, 1));
    assert(b[off + 2] == sample_byte(s, 2));
    let s1 = s / 0x100;
    let s2 = s1 / 0x100;
    let b0 = s % 0x100;
    let b1 = s1 % 0x100;
    let b2 = s2 % 0x100;
    let q = s2 / 0x100;
    assert(s == b0 + 0x100 * b1 + 0x1_0000 * b2 + 0x100_0000 * q);
    lemma_digits(b0, b1, b2, q);
    assert(b[off] == b0 && b[off + 1] == b1 && b[off + 2] == b2);
    let v = b0 + 0x100 * b1 + 0x1_0000 * b2;
    assert(0 <= v < 0x100_0000);
    if v >= 0x80_0000 {
        assert(s + 0x80_0000 == (v - 0x80_0000) + 0x100_0000 * (q + 1));
        assert((s + 0x80_0000) % 0x100_0000 == v - 0x80_0000);
    } else {
        assert(s + 0x80_0000 == (v + 0x80_0000) + 0x100_0000 * q);
        assert((s + 0x80_0000) % 0x100_0000 == v + 0x80_0000);
    }
}

/// Writing back a sample that was read gives the same three bytes.
pub proof fn law_sample_bytes_round_trip(b: Seq<u8>, off: int, j: int)
    requires
        0 <= off,
        off + 3 <= b.len(),
        0 <= j < 3,
    ensures
        sample_byte(s24_at(b, off), j) == b[off + j],
{
    let v = b[off] + 0x100 * b[off + 1] + 0x1_0000 * b[off + 2];
    let q: int = if v >= 0x80_0000 {
        -1
    } else {
        0
    };
    lemma_digits(b[off] as int, b[off + 1] as int, b[off + 2] as int, q);
    assert(s24_at(b, off) == v + 0x100_0000 * q);
    if j == 0 {
    } else if j == 1 {
    } else {
        assert(j == 2);
    }
}

// ------------------------------- playback (OUT) -----------------------------

/// The wire bytes of the first `nf` frames of `planar`.
pub open spec fn packed(planar: Seq<Vec<i32>>, nf: nat) -> Seq<u8> {
    Seq::new(
        nf * FRAME_BYTES as nat,
        |k: int|
            sample_byte(
                planar[k % (FRAME_BYTES as int) / (BYTES_PER_SAMP as int)]@[k / (FRAME_BYTES as int)] as int,
                k % (BYTES_PER_SAMP as int),
            ),
    )
}

/// `planar` has every channel, each with at least `nf` samples.
pub open spec fn has_frames(planar: Seq<Vec<i32>>, nf: int) -> bool {
    &&& planar.len() >= CHANNELS
    &&& forall|c: int| 0 <= c < CHANNELS ==> nf <= (#[trigger] planar[c])@.len()
}

/// `planar` is exactly the channels, each with at least `nf` samples: what a callback that is
/// asked for `nf` frames finds.
pub open spec fn has_room(planar: Seq<Vec<i32>>, nf: int) -> bool {
    planar.len() == CHANNELS && has_frames(planar, nf)
}

/// `planar` is exactly the channels, none shorter than the first.
pub open spec fn level(planar: Seq<Vec<i32>>) -> bool {
    &&& planar.len() == CHANNELS
    &&& forall|c: int| 0 <= c < CHANNELS ==> planar[0]@.len() <= (#[trigger] planar[c])@.len()
}

/// Whether a callback that is asked for `nf` frames finds room for them in `planar`.
pub fn fits_room(planar: &[Vec<i32>], nf: usize) -> (r: bool)
    ensures
        r == has_room(planar@, nf as int),
{
    if planar.len() != CHANNELS {
        return false;
    }
    let mut c: usize = 0;
    while c < CHANNELS
        invariant
            c <= CHANNELS,
            planar@.len() == CHANNELS,
            forall|d: int| 0 <= d < c ==> nf <= (#[trigger] planar@[d])@.len(),
        decreases CHANNELS - c,
    {
        if planar[c].len() < nf {
            return false;
        }
        c = c + 1;
    }
    true
}

/// Whether no channel of `planar` is shorter than the first.
pub fn is_level(planar: &[Vec<i32>]) -> (r: bool)
    ensures
        r == level(planar@),
{
    if planar.len() != CHANNELS {
        return false;
    }
    fits_room(planar, planar[0].len())
}

/// `planar` is exactly the channels, without a sample.
pub open spec fn unfilled(planar: Seq<Vec<i32>>) -> bool {
    &&& planar.len() == CHANNELS
    &&& forall|c: int| 0 <= c < CHANNELS ==> (#[trigger] planar[c])@.len() == 0
}

/// Appends the first `nf` frames of `planar` to `data`, interleaved.
pub fn pack_frames(data: &mut Vec<u8>, planar: &[Vec<i32>], nf: usize)
    requires
        has_frames(planar@, nf as int),
    ensures
        final(data)@ == old(data)@ + packed(planar@, nf as nat),
{
    let ghost start = data@;
    let ghost all = packed(planar@, nf as nat);
    let mut i: usize = 0;
    while i < nf
        invariant
            i <= nf,
            has_frames(planar@, nf as int),
            all == packed(planar@, nf as nat),
            data@ == start + all.take(i * FRAME_BYTES),
        decreases nf - i,
    {
        let mut c: usize = 0;
        while c < CHANNELS
            invariant
                i < nf,
                c <= CHANNELS,
                has_frames(planar@, nf as int),
                all == packed(planar@, nf as nat),
                data@ == start + all.take(i * FRAME_BYTES + c * BYTES_PER_SAMP),
            decreases CHANNELS - c,
        {
            let ghost at = i * FRAME_BYTES + c * BYTES_PER_SAMP;
            let ghost before = data@;
            assert(i <= planar@[c as int]@.len());
            let s: i32 = planar[c][i];
            put_s24le(data, s);
            proof {
                assert forall|j: int| 0 <= j < 3 implies #[trigger] all[at + j] == sample_byte(
                    s as int,
                    j,
                ) by {
                    let k = at + j;
                    assert(k / 18 == i);
                    assert(k % 18 == c * 3 + j);
                    assert(k % 18 / 3 == c);
                    assert(k % 3 == j);
                }
                assert(all[at + 0] == sample_byte(s as int, 0));
                assert(all[at + 1] == sample_byte(s as int, 1));
                assert(all[at + 2] == sample_byte(s as int, 2));
                assert(data@ =~= start + all.take(at + 3));
            }
            c = c + 1;
        }
        i = i + 1;
    }
    proof {
        assert(all.take(nf * FRAME_BYTES) =~= all);
    }
}

// ------------------------------- capture (IN) -------------------------------

/// Sample of channel `c` in frame `f` of the packet bytes `data`.
pub open spec fn wire_sample(data: Seq<u8>, f: int, c: int) -> int {
    s24_at(data, f * FRAME_BYTES + c * BYTES_PER_SAMP)
}

/// Whole frames in a packet; a packet that did not complete has none.
pub open spec fn packet_frames(p: PacketView) -> nat {
    if p.ok {
        p.data.len() / FRAME_BYTES as nat
    } else {
        0
    }
}

/// The frames of a packet, in order; a frame is one sample per channel.
pub open spec fn frames_of(p: PacketView) -> Seq<Seq<int>> {
    Seq::new(
        packet_frames(p),
        |f: int| Seq::new(CHANNELS as nat, |c: int| wire_sample(p.data, f, c)),
    )
}

/// The frames that a transfer captured: those of its packets, one packet after the other.
pub open spec fn captured(packets: Seq<PacketView>) -> Seq<Seq<int>>
    decreases packets.len(),
{
    if packets.len() == 0 {
        Seq::empty()
    } else {
        captured(packets.drop_last()) + frames_of(packets.last())
    }
}

/// The planar buffer `planar` begins with exactly these frames.
pub open spec fn holds(planar: Seq<Vec<i32>>, frames: Seq<Seq<int>>) -> bool {
    &&& planar.len() == CHANNELS
    &&& forall|c: int| 0 <= c < CHANNELS ==> (#[trigger] planar[c])@.len() >= frames.len()
    &&& forall|c: int, f: int|
        #![trigger planar[c]@[f]]
        0 <= c < CHANNELS && 0 <= f < frames.len() ==> planar[c]@[f] == frames[f][c]
}

/// `after` is `before` with its first `n` frames overwritten: each channel grew to at least
/// `n` samples, and what lies behind them is as it was.
pub open spec fn overwritten(before: Seq<Vec<i32>>, after: Seq<Vec<i32>>, n: int) -> bool {
    &&& after.len() == before.len()
    &&& forall|c: int|
        0 <= c < before.len() ==> (#[trigger] after[c])@.len() == if before[c]@.len() < n {
            n
        } else {
            before[c]@.len() as int
        }
    &&& forall|c: int, f: int|
        #![trigger after[c]@[f]]
        0 <= c < before.len() && n <= f < after[c]@.len() ==> after[c]@[f] == before[c]@[f]
}

/// The packets of a transfer, as mathematical values.
pub open spec fn views(packets: Seq<IsoPacket>) -> Seq<PacketView> {
    Seq::new(packets.len(), |i: int| packets[i]@)
}

/// One more packet adds its frames at the end.
pub proof fn lemma_captured_step(packets: Seq<PacketView>, k: int)
    requires
        0 <= k < packets.len(),
    ensures
        captured(packets.take(k + 1)) == captured(packets.take(k)) + frames_of(packets[k]),
{
    assert(packets.take(k + 1).drop_last() =~= packets.take(k));
}

/// The first packets of a transfer hold no more frames than all of them.
pub proof fn lemma_captured_prefix(packets: Seq<PacketView>, k: int)
    requires
        0 <= k <= packets.len(),
    ensures
        captured(packets.take(k)).len() <= captured(packets).len(),
    decreases packets.len() - k,
{
    if k < packets.len() {
        lemma_captured_step(packets, k);
        lemma_captured_prefix(packets, k + 1);
    } else {
        assert(packets.take(k) =~= packets);
    }
}

/// Whether the frames of these packets can be counted.
pub fn is_countable(packets: &[IsoPacket]) -> (r: bool)
    ensures
        r == (captured(views(packets@)).len() <= usize::MAX),
{
    let ghost all = views(packets@);
    let mut total: usize = 0;
    let mut k: usize = 0;
    assert(captured(all.take(0)) =~= Seq::empty());
    while k < packets.len()
        invariant
            k <= packets@.len(),
            all == views(packets@),
            total == captured(all.take(k as int)).len(),
        decreases packets@.len() - k,
    {
        proof {
            lemma_captured_step(all, k as int);
            lemma_captured_prefix(all, k + 1);
        }
        if packets[k].ok {
            match total.checked_add(packets[k].data.len() / FRAME_BYTES) {
                Some(n) => {
                    total = n;
                },
                None => {
                    return false;
                },
            }
        }
        k = k + 1;
    }
    assert(all.take(k as int) =~= all);
    true
}

/// Six empty channels.
pub fn empty_planar() -> (planar: Vec<Vec<i32>>)
    ensures
        planar@.len() == CHANNELS,
        forall|c: int| 0 <= c < CHANNELS ==> (#[trigger] planar@[c])@.len() == 0,
{
    let mut planar: Vec<Vec<i32>> = Vec::with_capacity(CHANNELS);
    let mut c: usize = 0;
    while c < CHANNELS
        invariant
            c <= CHANNELS,
            planar@.len() == c,
            forall|d: int| 0 <= d < c ==> (#[trigger] planar@[d])@.len() == 0,
        decreases CHANNELS - c,
    {
        planar.push(Vec::new());
        c = c + 1;
    }
    planar
}

/// Makes every channel at least `n` samples long; new samples are zero.
pub fn grow(planar: &mut Vec<Vec<i32>>, n: usize)
    requires
        old(planar)@.len() == CHANNELS,
    ensures
        overwritten(old(planar)@, final(planar)@, n as int),
        forall|c: int, f: int|
            #![trigger final(planar)@[c]@[f]]
            0 <= c < CHANNELS && 0 <= f < final(planar)@[c]@.len() ==> final(planar)@[c]@[f] == if f
                < old(planar)@[c]@.len() {
                old(planar)@[c]@[f]
            } else {
                0
            },
{
    let ghost before = planar@;
    let mut c: usize = 0;
    while c < CHANNELS
        invariant
            c <= CHANNELS,
            before.len() == CHANNELS,
            planar@.len() == CHANNELS,
            forall|d: int| c <= d < CHANNELS ==> planar@[d] == before[d],
            forall|d: int|
                0 <= d < c ==> (#[trigger] planar@[d])@.len() == if before[d]@.len() < n {
                    n as int
                } else {
                    before[d]@.len() as int
                },
            forall|d: int, f: int|
                #![trigger planar@[d]@[f]]
                0 <= d < c && 0 <= f < planar@[d]@.len() ==> planar@[d]@[f] == if f
                    < before[d]@.len() {
                    before[d]@[f]
                } else {
                    0
                },
        decreases CHANNELS - c,
    {
        if planar[c].len() < n {
            let ghost row = planar@[c as int]@;
            planar[c].resize(n, 0);
            proof {
                assert forall|f: int| 0 <= f < row.len() implies planar@[c as int]@[f] == row[f] by {
                    assert(planar@[c as int]@.subrange(0, row.len() as int)[f] == row[f]);
                }
            }
        }
        c = c + 1;
    }
}

/// Decodes `nf` frames of `data` from byte `from` on, into the frames of `planar` from
/// `at` on.
pub fn unpack_frames(planar: &mut Vec<Vec<i32>>, data: &[u8], from: usize, nf: usize, at: usize)
    requires
        old(planar)@.len() == CHANNELS,
        has_frames(old(planar)@, at + nf),
        from + nf * FRAME_BYTES <= data@.len(),
    ensures
        final(planar)@.len() == CHANNELS,
        forall|c: int|
            0 <= c < CHANNELS ==> (#[trigger] final(planar)@[c])@.len() == old(planar)@[c]@.len(),
        forall|c: int, f: int|
            #![trigger final(planar)@[c]@[f]]
            0 <= c < CHANNELS && 0 <= f < final(planar)@[c]@.len() ==> final(planar)@[c]@[f] == if at
                <= f < at + nf {
                s24_at(data@, from + (f - at) * FRAME_BYTES + c * BYTES_PER_SAMP)
            } else {
                old(planar)@[c]@[f] as int
            },
{
    let ghost before = planar@;
    let mut i: usize = 0;
    while i < nf
        invariant
            i <= nf,
            before.len() == CHANNELS,
            has_frames(before, at + nf),
            from + nf * FRAME_BYTES <= data@.len(),
            planar@.len() == CHANNELS,
            forall|c: int| 0 <= c < CHANNELS ==> (#[trigger] planar@[c])@.len() == before[c]@.len(),
            forall|c: int, f: int|
                #![trigger planar@[c]@[f]]
                0 <= c < CHANNELS && 0 <= f < planar@[c]@.len() ==> planar@[c]@[f] == if at <= f < at
                    + i {
                    s24_at(data@, from + (f - at) * FRAME_BYTES + c * BYTES_PER_SAMP)
                } else {
                    before[c]@[f] as int
                },
        decreases nf - i,
    {
        let mut c: usize = 0;
        while c < CHANNELS
            invariant
                i < nf,
                c <= CHANNELS,
                before.len() == CHANNELS,
                has_frames(before, at + nf),
                from + nf * FRAME_BYTES <= data@.len(),
                planar@.len() == CHANNELS,
                forall|d: int|
                    0 <= d < CHANNELS ==> (#[trigger] planar@[d])@.len() == before[d]@.len(),
                forall|d: int, f: int|
                    #![trigger planar@[d]@[f]]
                    0 <= d < CHANNELS && 0 <= f < planar@[d]@.len() ==> planar@[d]@[f] == if at <= f
                        < at + i || (f == at + i && d < c) {
                        s24_at(data@, from + (f - at) * FRAME_BYTES + d * BYTES_PER_SAMP)
                    } else {
                        before[d]@[f] as int
                    },
            decreases CHANNELS - c,
        {
            assert(at + nf <= before[c as int]@.len());
            assert(planar@[c as int].len() == before[c as int]@.len());
            assert(data.len() == data@.len());
            let off: usize = from + i * FRAME_BYTES + c * BYTES_PER_SAMP;
            let s: i32 = s24le(vstd::slice::slice_subrange(data, off, off + BYTES_PER_SAMP));
            assert(s == s24_at(data@, off as int));
            planar[c][at + i] = s;
            c = c + 1;
        }
        i = i + 1;
    }
}

/// Decodes the packets of one capture transfer to the front of `planar`, growing it as
/// needed, and returns how many frames they held.
pub fn deinterleave(planar: &mut Vec<Vec<i32>>, packets: &[IsoPacket]) -> (total: usize)
    requires
        old(planar)@.len() == CHANNELS,
        captured(views(packets@)).len() <= usize::MAX,
    ensures
        total == captured(views(packets@)).len(),
        holds(final(planar)@, captured(views(packets@))),
        overwritten(old(planar)@, final(planar)@, total as int),
        total == 0 ==> final(planar)@ == old(planar)@,
{
    let ghost all = views(packets@);
    let ghost before = planar@;
    let mut total: usize = 0;
    let mut k: usize = 0;
    assert(captured(all.take(0)) =~= Seq::empty());
    while k < packets.len()
        invariant
            k <= packets@.len(),
            all == views(packets@),
            captured(all).len() <= usize::MAX,
            total == captured(all.take(k as int)).len(),
        decreases packets@.len() - k,
    {
        proof {
            lemma_captured_step(all, k as int);
            lemma_captured_prefix(all, k + 1);
        }
        if packets[k].ok {
            total = total + packets[k].data.len() / FRAME_BYTES;
        }
        k = k + 1;
    }
    assert(all.take(k as int) =~= all);
    if total == 0 {
        return 0;
    }
    grow(planar, total);
    let ghost grown = planar@;
    let mut f: usize = 0;
    k = 0;
    while k < packets.len()
        invariant
            k <= packets@.len(),
            all == views(packets@),
            total == captured(all).len(),
            f == captured(all.take(k as int)).len(),
            f <= total,
            grown.len() == CHANNELS,
            planar@.len() == CHANNELS,
            forall|c: int|
                0 <= c < CHANNELS ==> (#[trigger] planar@[c])@.len() == grown[c]@.len()
                    && planar@[c]@.len() >= total,
            forall|c: int, g: int|
                #![trigger planar@[c]@[g]]
                0 <= c < CHANNELS && 0 <= g < planar@[c]@.len() ==> planar@[c]@[g] == if g < f {
                    captured(all.take(k as int))[g][c]
                } else {
                    grown[c]@[g] as int
                },
        decreases packets@.len() - k,
    {
        proof {
            lemma_captured_step(all, k as int);
            lemma_captured_prefix(all, k + 1);
        }
        if packets[k].ok {
            let nf: usize = packets[k].data.len() / FRAME_BYTES;
            unpack_frames(planar, packets[k].data.as_slice(), 0, nf, f);
            f = f + nf;
        }
        k = k + 1;
    }
    assert(all.take(k as int) =~= all);
    total
}

// ----------------------------------- laws -----------------------------------

/// A captured sample is a signed 24-bit number.
pub proof fn law_captured_samples_fit(packets: Seq<PacketView>, f: int, c: int)
    requires
        0 <= f < captured(packets).len(),
        0 <= c < CHANNELS,
    ensures
        -0x80_0000 <= captured(packets)[f][c] < 0x80_0000,
    decreases packets.len(),
{
    let front = captured(packets.drop_last());
    if f < front.len() {
        law_captured_samples_fit(packets.drop_last(), f, c);
    }
}

/// A packet of packed frames, captured again, gives back every sample, reduced to 24 bits;
/// samples that fit 24 bits come back unchanged.
pub proof fn law_frames_round_trip(planar: Seq<Vec<i32>>, nf: nat)
    requires
        has_frames(planar, nf as int),
    ensures
        ({
            let frames = frames_of(PacketView { data: packed(planar, nf), ok: true });
            &&& frames.len() == nf
            &&& forall|f: int, c: int|
                #![trigger frames[f][c]]
                0 <= f < nf && 0 <= c < CHANNELS ==> {
                    &&& frames[f][c] == wrap24(planar[c]@[f] as int)
                    &&& -0x80_0000 <= planar[c]@[f] < 0x80_0000 ==> frames[f][c] == planar[c]@[f]
                }
        }),
{
    let data = packed(planar, nf);
    let frames = frames_of(PacketView { data: data, ok: true });
    assert(data.len() == nf * 18);
    assert(data.len() / 18 == nf);
    assert forall|f: int, c: int|
        #![trigger frames[f][c]]
        0 <= f < nf && 0 <= c < CHANNELS implies {
        &&& frames[f][c] == wrap24(planar[c]@[f] as int)
        &&& -0x80_0000 <= planar[c]@[f] < 0x80_0000 ==> frames[f][c] == planar[c]@[f]
    } by {
        let off = f * 18 + c * 3;
        let s = planar[c]@[f] as int;
        assert forall|j: int| 0 <= j < 3 implies data[off + j] == #[trigger] sample_byte(s, j) by {
            let k = off + j;
            assert(k / 18 == f);
            assert(k % 18 == c * 3 + j);
            assert(k % 18 / 3 == c);
            assert(k % 3 == j);
        }
        law_sample_round_trip(data, off, s);
    }
}

/// Packing the frames that were captured from a packet gives back its bytes, up to its last
/// whole frame.
pub proof fn law_capture_repack(planar: Seq<Vec<i32>>, data: Seq<u8>)
    requires
        holds(planar, frames_of(PacketView { data: data, ok: true })),
    ensures
        packed(planar, data.len() / FRAME_BYTES as nat) == data.take(
            data.len() / FRAME_BYTES as nat * FRAME_BYTES,
        ),
{
    let nf = data.len() / 18;
    let frames = frames_of(PacketView { data: data, ok: true });
    let out = packed(planar, nf);
    assert forall|k: int| 0 <= k < nf * 18 implies out[k] == data[k] by {
        let f = k / 18;
        let c = k % 18 / 3;
        let j = k % 3;
        assert(0 <= f < nf && 0 <= c < 6 && 0 <= j < 3);
        assert(k == f * 18 + c * 3 + j);
        assert(planar[c]@[f] == frames[f][c]);
        law_sample_bytes_round_trip(data, f * 18 + c * 3, j);
    }
    assert(out =~= data.take((nf * 18) as int));
}

/// A sample that is read is the signed 24-bit number whose three bytes were given, the least
/// significant first.
pub proof fn law_sample_read(b: &[u8], s: i32)
    requires
        b@.len() >= 3,
        call_ensures(s24le, (b,), s),
    ensures
        -8388608 <= s < 8388608,
        s == b@[0] + 256 * b@[1] + 65536 * b@[2] || s == b@[0] + 256 * b@[1] + 65536 * b@[2]
            - 16777216,
{
}

/// A sample is written behind what is there, as three bytes that give back its low 24 bits, the
/// least significant first.
pub proof fn law_sample_written(s: i32)
    ensures
        forall|out: &mut Vec<u8>| #[trigger]
            call_ensures(put_s24le, (out, s), ()) ==> {
                let n = (*out)@.len() as int;
                let all = (*final(out))@;
                &&& all.len() == n + 3
                &&& all.take(n) == (*out)@
                &&& all[n] + 256 * all[n + 1] + 65536 * all[n + 2] == s % 16777216
            },
{
    lemma_sample_sum(s as int);
    assert forall|out: &mut Vec<u8>| #[trigger] call_ensures(put_s24le, (out, s), ()) implies {
        let n = (*out)@.len() as int;
        let all = (*final(out))@;
        &&& all.len() == n + 3
        &&& all.take(n) == (*out)@
        &&& all[n] + 256 * all[n + 1] + 65536 * all[n + 2] == s % 16777216
    } by {
        let n = (*out)@.len() as int;
        let all = (*final(out))@;
        assert(all.take(n) =~= (*out)@);
        assert(all[n] == sample_byte(s as int, 0));
        assert(all[n + 1] == sample_byte(s as int, 1));
        assert(all[n + 2] == sample_byte(s as int, 2));
    }
}

/// The three bytes of a sample add up to its low 24 bits.
proof fn lemma_sample_sum(s: int)
    ensures
        sample_byte(s, 0) + 256 * sample_byte(s, 1) + 65536 * sample_byte(s, 2) == s % 16777216,
{
    let s1 = s / 0x100;
    let s2 = s1 / 0x100;
    let b0 = s % 0x100;
    let b1 = s1 % 0x100;
    let b2 = s2 % 0x100;
    let q = s2 / 0x100;
    assert(s == b0 + 0x100 * b1 + 0x1_0000 * b2 + 0x100_0000 * q);
    lemma_digits(b0, b1, b2, q);
    let v = b0 + 0x100 * b1 + 0x1_0000 * b2;
    assert(0 <= v < 0x100_0000);
    assert(s % 0x100_0000 == v);
}

/// Frames are packed tightly: frame `i` takes eighteen bytes from `18 * i` on, and in it channel
/// `c` the three from `3 * c` on, which give back the low 24 bits of the sample.
pub proof fn law_packed_samples(planar: Seq<Vec<i32>>, nf: nat)
    ensures
        packed(planar, nf).len() == 18 * nf,
        forall|i: int, c: int|
            #![trigger planar[c]@[i]]
            0 <= i < nf && 0 <= c < 6 ==> {
                let at = 18 * i + 3 * c;
                packed(planar, nf)[at] + 256 * packed(planar, nf)[at + 1] + 65536 * packed(
                    planar,
                    nf,
                )[at + 2] == planar[c]@[i] % 16777216
            },
{
    let all = packed(planar, nf);
    assert forall|i: int, c: int|
        #![trigger planar[c]@[i]]
        0 <= i < nf && 0 <= c < 6 implies {
        let at = 18 * i + 3 * c;
        all[at] + 256 * all[at + 1] + 65536 * all[at + 2] == planar[c]@[i] % 16777216
    } by {
        let at = 18 * i + 3 * c;
        let s = planar[c]@[i] as int;
        assert forall|j: int| 0 <= j < 3 implies #[trigger] all[at + j] == sample_byte(s, j) by {
            let k = at + j;
            assert(k / 18 == i);
            assert(k % 18 == c * 3 + j);
            assert(k % 18 / 3 == c);
            assert(k % 3 == j);
        }
        assert(all[at + 0] == sample_byte(s, 0));
        lemma_sample_sum(s);
    }
}

/// What `pack_frames` appends: the frames, tightly packed, behind what is there.
pub proof fn law_frames_appended(planar: &[Vec<i32>], nf: usize)
    requires
        has_frames(planar@, nf as int),
    ensures
        forall|data: &mut Vec<u8>| #[trigger]
            call_ensures(pack_frames, (data, planar, nf), ()) ==> {
                let n = (*data)@.len() as int;
                let all = (*final(data))@;
                &&& all.len() == n + 18 * nf
                &&& all.take(n) == (*data)@
                &&& forall|i: int, c: int|
                    #![trigger planar@[c]@[i]]
                    0 <= i < nf && 0 <= c < 6 ==> {
                        let at = n + 18 * i + 3 * c;
                        all[at] + 256 * all[at + 1] + 65536 * all[at + 2] == planar@[c]@[i]
                            % 16777216
                    }
            },
{
    law_packed_samples(planar@, nf as nat);
    assert forall|data: &mut Vec<u8>| #[trigger]
        call_ensures(pack_frames, (data, planar, nf), ()) implies {
        let n = (*data)@.len() as int;
        let all = (*final(data))@;
        &&& all.len() == n + 18 * nf
        &&& all.take(n) == (*data)@
        &&& forall|i: int, c: int|
            #![trigger planar@[c]@[i]]
            0 <= i < nf && 0 <= c < 6 ==> {
                let at = n + 18 * i + 3 * c;
                all[at] + 256 * all[at + 1] + 65536 * all[at + 2] == planar@[c]@[i] % 16777216
            }
    } by {
        lemma_behind((*data)@, packed(planar@, nf as nat), planar@, nf as int);
    }
}

/// Samples that stand in `tail` stand behind what is before it.
proof fn lemma_behind(head: Seq<u8>, tail: Seq<u8>, planar: Seq<Vec<i32>>, nf: int)
    requires
        tail.len() == 18 * nf,
        forall|i: int, c: int|
            #![trigger planar[c]@[i]]
            0 <= i < nf && 0 <= c < 6 ==> {
                let at = 18 * i + 3 * c;
                tail[at] + 256 * tail[at + 1] + 65536 * tail[at + 2] == planar[c]@[i] % 16777216
            },
    ensures
        ({
            let n = head.len() as int;
            let all = head + tail;
            &&& all.take(n) == head
            &&& forall|i: int, c: int|
                #![trigger planar[c]@[i]]
                0 <= i < nf && 0 <= c < 6 ==> {
                    let at = n + 18 * i + 3 * c;
                    all[at] + 256 * all[at + 1] + 65536 * all[at + 2] == planar[c]@[i] % 16777216
                }
        }),
{
    let n = head.len() as int;
    let all = head + tail;
    assert(all.take(n) =~= head);
    assert forall|i: int, c: int|
        #![trigger planar[c]@[i]]
        0 <= i < nf && 0 <= c < 6 implies {
        let at = n + 18 * i + 3 * c;
        all[at] + 256 * all[at + 1] + 65536 * all[at + 2] == planar[c]@[i] % 16777216
    } by {
        let k = 18 * i + 3 * c;
        assert(all[n + k] == tail[k]);
        assert(all[n + k + 1] == tail[k + 1]);
        assert(all[n + k + 2] == tail[k + 2]);
    }
}

/// Samples that stand in a part of some bytes stand in them, behind what is before it.
proof fn lemma_inside(all: Seq<u8>, off: int, part: Seq<u8>, planar: Seq<Vec<i32>>, nf: int)
    requires
        0 <= off,
        off + part.len() <= all.len(),
        all.subrange(off, off + part.len()) == part,
        part.len() == 18 * nf,
        forall|i: int, c: int|
            #![trigger planar[c]@[i]]
            0 <= i < nf && 0 <= c < 6 ==> {
                let at = 18 * i + 3 * c;
                part[at] + 256 * part[at + 1] + 65536 * part[at + 2] == planar[c]@[i] % 16777216
            },
    ensures
        forall|i: int, c: int|
            #![trigger planar[c]@[i]]
            0 <= i < nf && 0 <= c < 6 ==> {
                let at = off + 18 * i + 3 * c;
                all[at] + 256 * all[at + 1] + 65536 * all[at + 2] == planar[c]@[i] % 16777216
            },
{
    assert forall|i: int, c: int|
        #![trigger planar[c]@[i]]
        0 <= i < nf && 0 <= c < 6 implies {
        let at = off + 18 * i + 3 * c;
        all[at] + 256 * all[at + 1] + 65536 * all[at + 2] == planar[c]@[i] % 16777216
    } by {
        let k = 18 * i + 3 * c;
        let cut = all.subrange(off, off + part.len());
        assert(cut[k] == all[off + k]);
        assert(cut[k + 1] == all[off + k + 1]);
        assert(cut[k + 2] == all[off + k + 2]);
    }
}

/// Where packed frames lie in some bytes, their samples do.
pub proof fn lemma_packed_inside(all: Seq<u8>, off: int, planar: Seq<Vec<i32>>, nf: nat)
    requires
        0 <= off,
        off + 18 * nf <= all.len(),
        all.subrange(off, off + 18 * nf) == packed(planar, nf),
    ensures
        forall|i: int, c: int|
            #![trigger planar[c]@[i]]
            0 <= i < nf && 0 <= c < 6 ==> {
                let at = off + 18 * i + 3 * c;
                all[at] + 256 * all[at + 1] + 65536 * all[at + 2] == planar[c]@[i] % 16777216
            },
{
    law_packed_samples(planar, nf);
    lemma_inside(all, off, packed(planar, nf), planar, nf as int);
}

/// What one packet captures: its whole frames, or nothing where it did not complete. Channel `c`
/// of frame `f` is the signed number in the three bytes from `18 * f + 3 * c` on.
pub proof fn law_packet_captured(p: PacketView)
    ensures
        captured(seq![p]).len() == if p.ok {
            p.data.len() / 18
        } else {
            0
        },
        forall|f: int, c: int|
            #![trigger captured(seq![p])[f][c]]
            0 <= f < captured(seq![p]).len() && 0 <= c < 6 ==> {
                let at = 18 * f + 3 * c;
                let v = p.data[at] + 256 * p.data[at + 1] + 65536 * p.data[at + 2];
                &&& captured(seq![p])[f].len() == 6
                &&& captured(seq![p])[f][c] == if v < 8388608 {
                    v
                } else {
                    v - 16777216
                }
            },
{
    assert(seq![p].drop_last() =~= Seq::empty());
    assert(captured(Seq::empty()) =~= Seq::empty());
    assert(captured(seq![p]) =~= frames_of(p));
}

/// Packets are captured one after the other: nothing is lost, repeated or moved between them.
pub proof fn law_captured_in_order(first: Seq<PacketView>, rest: Seq<PacketView>)
    ensures
        captured(first + rest) == captured(first) + captured(rest),
        captured(Seq::<PacketView>::empty()).len() == 0,
    decreases rest.len(),
{
    if rest.len() == 0 {
        assert(first + rest =~= first);
        assert(captured(first + rest) =~= captured(first) + captured(rest));
    } else {
        law_captured_in_order(first, rest.drop_last());
        assert((first + rest).drop_last() =~= first + rest.drop_last());
        assert((first + rest).last() == rest.last());
        assert(captured(first + rest) =~= captured(first) + captured(rest));
    }
}

/// Where the frames of a packet come to stand: those of packet `k` begin behind the frames of
/// the packets before it.
pub proof fn law_captured_position(packets: Seq<PacketView>, k: int, f: int)
    requires
        0 <= k < packets.len(),
        packets[k].ok,
        0 <= f < packets[k].data.len() / 18,
    ensures
        captured(packets.take(k)).len() + f < captured(packets).len(),
        captured(packets)[captured(packets.take(k)).len() + f] == captured(seq![packets[k]])[f],
{
    let head = packets.take(k);
    let one = seq![packets[k]];
    let tail = packets.skip(k + 1);
    law_captured_in_order(head + one, tail);
    law_captured_in_order(head, one);
    law_packet_captured(packets[k]);
    assert(packets =~= head + one + tail);
}

/// What `deinterleave` does: sample `f` of channel `c` becomes channel `c` of captured frame `f`;
/// a channel that is too short grows to fit, and what lies behind the frames stays.
pub proof fn law_deinterleave(packets: &[IsoPacket])
    requires
        captured(views(packets@)).len() <= usize::MAX,
    ensures
        forall|planar: &mut Vec<Vec<i32>>, total: usize|
            (*planar)@.len() == 6 && #[trigger] call_ensures(deinterleave, (planar, packets), total)
                ==> {
                let frames = captured(views(packets@));
                let before = (*planar)@;
                let after = (*final(planar))@;
                &&& total == frames.len()
                &&& after.len() == 6
                &&& forall|c: int|
                    0 <= c < 6 ==> (#[trigger] after[c])@.len() == if before[c]@.len() < total {
                        total as int
                    } else {
                        before[c]@.len() as int
                    }
                &&& forall|c: int, f: int|
                    #![trigger after[c]@[f]]
                    0 <= c < 6 && 0 <= f < after[c]@.len() ==> after[c]@[f] == if f < total {
                        frames[f][c]
                    } else {
                        before[c]@[f] as int
                    }
            },
{
}

/// The packets that are captured are those that were given, each with its bytes and with whether
/// it completed.
pub proof fn law_packets_viewed(packets: Seq<IsoPacket>, k: int)
    requires
        0 <= k < packets.len(),
    ensures
        views(packets).len() == packets.len(),
        views(packets)[k].data == packets[k].data@,
        views(packets)[k].ok == packets[k].ok,
{
}

/// What `unpack_frames` does: frame `at + i` becomes the signed samples in the eighteen bytes
/// from `from + 18 * i` on, channel by channel; every other sample stays.
pub proof fn law_frames_unpacked(data: &[u8], from: usize, nf: usize, at: usize)
    requires
        from + nf * 18 <= data@.len(),
    ensures
        forall|planar: &mut Vec<Vec<i32>>|
            (*planar)@.len() == 6 && #[trigger] call_ensures(
                unpack_frames,
                (planar, data, from, nf, at),
                (),
            ) ==> {
                let before = (*planar)@;
                let after = (*final(planar))@;
                &&& after.len() == 6
                &&& forall|c: int|
                    0 <= c < 6 ==> (#[trigger] after[c])@.len() == before[c]@.len()
                &&& forall|c: int, f: int|
                    #![trigger after[c]@[f]]
                    0 <= c < 6 && 0 <= f < after[c]@.len() ==> {
                        let k = from + 18 * (f - at) + 3 * c;
                        let v = data@[k] + 256 * data@[k + 1] + 65536 * data@[k + 2];
                        after[c]@[f] == if f < at || f >= at + nf {
                            before[c]@[f] as int
                        } else if v < 8388608 {
                            v
                        } else {
                            v - 16777216
                        }
                    }
            },
{
}

/// What `grow` does: channels that are too short get zeros at their end, and nothing else
/// changes. A new buffer is six channels without a sample.
pub proof fn law_buffers_grow(n: usize, empty: Vec<Vec<i32>>)
    requires
        call_ensures(empty_planar, (), empty),
    ensures
        empty@.len() == 6,
        forall|c: int| 0 <= c < 6 ==> (#[trigger] empty@[c])@.len() == 0,
        forall|planar: &mut Vec<Vec<i32>>|
            (*planar)@.len() == 6 && #[trigger] call_ensures(grow, (planar, n), ()) ==> {
                let before = (*planar)@;
                let after = (*final(planar))@;
                &&& after.len() == 6
                &&& forall|c: int|
                    0 <= c < 6 ==> (#[trigger] after[c])@.len() == if before[c]@.len() < n {
                        n as int
                    } else {
                        before[c]@.len() as int
                    }
                &&& forall|c: int, f: int|
                    #![trigger after[c]@[f]]
                    0 <= c < 6 && 0 <= f < after[c]@.len() ==> after[c]@[f] == if f
                        < before[c]@.len() {
                        before[c]@[f]
                    } else {
                        0
                    }
            },
{
}

/// What the words about buffers mean: `planar` holds frames where it is six channels and sample
/// `f` of channel `c` is channel `c` of frame `f`; it is level where no channel is shorter than
/// the first; there is room for `nf` frames where every channel is at least that long.
pub proof fn law_buffer_words(planar: Seq<Vec<i32>>, frames: Seq<Seq<int>>, nf: int)
    ensures
        holds(planar, frames) <==> planar.len() == 6 && (forall|c: int|
            0 <= c < 6 ==> (#[trigger] planar[c])@.len() >= frames.len()) && (forall|
            c: int,
            f: int,
        |
            #![trigger planar[c]@[f]]
            0 <= c < 6 && 0 <= f < frames.len() ==> planar[c]@[f] == frames[f][c]),
        level(planar) <==> planar.len() == 6 && forall|c: int|
            0 <= c < 6 ==> (#[trigger] planar[c])@.len() >= planar[0]@.len(),
        has_room(planar, nf) <==> planar.len() == 6 && has_frames(planar, nf),
        has_frames(planar, nf) <==> planar.len() >= 6 && forall|c: int|
            0 <= c < 6 ==> (#[trigger] planar[c])@.len() >= nf,
        unfilled(planar) <==> planar.len() == 6 && forall|c: int|
            0 <= c < 6 ==> (#[trigger] planar[c])@.len() == 0,
{
}

/// What it means that the first `n` frames were overwritten: no channel was cut, and nothing
/// behind those frames changed.
pub proof fn law_overwritten_words(before: Seq<Vec<i32>>, after: Seq<Vec<i32>>, n: int)
    requires
        overwritten(before, after, n),
    ensures
        after.len() == before.len(),
        forall|c: int|
            0 <= c < before.len() ==> (#[trigger] after[c])@.len() == if before[c]@.len() < n {
                n
            } else {
                before[c]@.len() as int
            },
        forall|c: int, f: int|
            #![trigger after[c]@[f]]
            0 <= c < before.len() && n <= f < before[c]@.len() ==> after[c]@[f] == before[c]@[f],
{
}

/// What the tests of buffers and packets answer.
pub proof fn law_buffer_tests(
    planar: &[Vec<i32>],
    nf: usize,
    packets: &[IsoPacket],
    r: (bool, bool, bool),
)
    requires
        call_ensures(fits_room, (planar, nf), r.0),
        call_ensures(is_level, (planar,), r.1),
        call_ensures(is_countable, (packets,), r.2),
    ensures
        r.0 <==> planar@.len() == 6 && forall|c: int|
            0 <= c < 6 ==> (#[trigger] planar@[c])@.len() >= nf,
        r.1 <==> planar@.len() == 6 && forall|c: int|
            0 <= c < 6 ==> (#[trigger] planar@[c])@.len() >= planar@[0]@.len(),
        r.2 <==> captured(views(packets@)).len() <= usize::MAX,
{
}

} // verus!
