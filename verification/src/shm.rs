//! The shared-memory segment between the daemon and the audio plugin: its layout, its
//! header, and the two rings in it.
//!
//! Samples lie in the rings as 32-bit floats; here only their places are decided.

use vstd::prelude::*;

use crate::frame::has_frames;
use crate::proto::{law_le_round_trip, le_byte, le_bytes, le_number};
use crate::stream::threaded;
use crate::CHANNELS;

verus! {

/// First word of a segment: `ASL3`.
pub const MAGIC: u32 = 0x334C_5341;

/// Layout version.
pub const VERSION: u32 = 2;

/// Frames in one ring, a power of two.
pub const RING_FRAMES: u64 = 32768;

/// Mask that reduces a cursor to a place in the ring.
pub const RING_MASK: u64 = 32767;

/// Samples in one ring.
pub const RING_SAMPLES: usize = 196608;

/// Bytes of the segment.
pub const SEGMENT_BYTES: usize = 1572944;

// ---------------------------------- layout ----------------------------------

/// A field of a C struct.
pub struct Field {
    pub size: nat,
    pub align: nat,
}

/// A 32-bit field.
pub open spec fn word() -> Field {
    Field { size: 4, align: 4 }
}

/// A 64-bit field.
pub open spec fn wide() -> Field {
    Field { size: 8, align: 8 }
}

/// A ring of 32-bit samples.
pub open spec fn ring() -> Field {
    Field { size: 4 * RING_SAMPLES as nat, align: 4 }
}

/// The fields of the segment, in order: magic, version, channels, sample rate, device
/// present; heartbeat, capture write and read cursor, playback write and read cursor; the
/// capture and the playback ring; the clock anchor; client activity.
pub open spec fn fields() -> Seq<Field> {
    seq![
        word(),
        word(),
        word(),
        word(),
        word(),
        wide(),
        wide(),
        wide(),
        wide(),
        wide(),
        ring(),
        ring(),
        wide(),
        word(),
    ]
}

/// The next multiple of `align` from `off` on.
pub open spec fn aligned(off: int, align: nat) -> int {
    (off + align - 1) / (align as int) * align
}

/// Where field `k` of a C struct lies: behind the one before it, aligned.
pub open spec fn field_offset(fields: Seq<Field>, k: int) -> int
    decreases k,
{
    if k <= 0 {
        0
    } else {
        aligned(field_offset(fields, k - 1) + fields[k - 1].size, fields[k].align)
    }
}

/// The size of the segment as C lays it out; its strictest alignment is that of 64 bits.
pub open spec fn segment_size() -> int {
    aligned(field_offset(fields(), 13) + fields()[13].size, 8)
}

/// Where the fields of the segment lie. Client activity comes last, so that the offsets of
/// all others are those of the version before.
pub proof fn lemma_layout()
    ensures
        field_offset(fields(), 0) == 0,
        field_offset(fields(), 1) == 4,
        field_offset(fields(), 2) == 8,
        field_offset(fields(), 3) == 12,
        field_offset(fields(), 4) == 16,
        field_offset(fields(), 5) == 24,
        field_offset(fields(), 6) == 32,
        field_offset(fields(), 7) == 40,
        field_offset(fields(), 8) == 48,
        field_offset(fields(), 9) == 56,
        field_offset(fields(), 10) == 64,
        field_offset(fields(), 11) == 64 + 4 * RING_SAMPLES,
        field_offset(fields(), 12) == 64 + 2 * RING_SAMPLES * 4,
        field_offset(fields(), 13) == 1572936,
        segment_size() == 64 + 2 * RING_SAMPLES * 4 + 16,
        segment_size() == SEGMENT_BYTES,
{
    let f = fields();
    assert(f[0] == word() && f[1] == word() && f[2] == word() && f[3] == word() && f[4] == word());
    assert(f[5] == wide() && f[6] == wide() && f[7] == wide() && f[8] == wide() && f[9] == wide());
    assert(f[10] == ring() && f[11] == ring() && f[12] == wide() && f[13] == word());
    assert(field_offset(f, 0) == 0);
    assert(field_offset(f, 1) == aligned(4, 4) == 4);
    assert(field_offset(f, 2) == aligned(8, 4) == 8);
    assert(field_offset(f, 3) == aligned(12, 4) == 12);
    assert(field_offset(f, 4) == aligned(16, 4) == 16);
    assert(field_offset(f, 5) == aligned(20, 8) == 24);
    assert(field_offset(f, 6) == aligned(32, 8) == 32);
    assert(field_offset(f, 7) == aligned(40, 8) == 40);
    assert(field_offset(f, 8) == aligned(48, 8) == 48);
    assert(field_offset(f, 9) == aligned(56, 8) == 56);
    assert(field_offset(f, 10) == aligned(64, 4) == 64);
    assert(field_offset(f, 11) == aligned(786496, 4) == 786496);
    assert(field_offset(f, 12) == aligned(1572928, 8) == 1572928);
    assert(field_offset(f, 13) == aligned(1572936, 4) == 1572936);
}

/// Whether a struct of `size` bytes has the size of the segment.
pub fn assert_layout(size: usize) -> (ok: bool)
    ensures
        ok == (size == segment_size()),
{
    proof {
        lemma_layout();
    }
    size == SEGMENT_BYTES
}

// ---------------------------------- segment ---------------------------------

/// Whether a segment that is there already has to be removed: its size could not be had, or
/// is not that of the segment. One of the right size stays, since the plugin may have mapped
/// it.
pub fn is_stale(stat_ok: bool, size: i64) -> (r: bool)
    ensures
        r == (!stat_ok || size != segment_size()),
{
    proof {
        lemma_layout();
    }
    !stat_ok || size != SEGMENT_BYTES as i64
}

/// Whether a segment has to be given its size.
pub fn must_grow(stat_ok: bool, size: i64) -> (r: bool)
    ensures
        r == (stat_ok && 0 <= size < segment_size()),
{
    proof {
        lemma_layout();
    }
    stat_ok && 0 <= size && size < SEGMENT_BYTES as i64
}

/// The bytes belong to a segment of this layout, by their first two words. Words lie in the
/// segment with the least significant byte first.
pub open spec fn is_ready(bytes: Seq<u8>) -> bool {
    le_number(bytes, 0) == MAGIC && le_number(bytes, 4) == VERSION
}

/// A new segment: magic, version and channels, everything else zero.
pub open spec fn fresh_segment() -> Seq<u8> {
    le_bytes(MAGIC) + le_bytes(VERSION) + le_bytes(CHANNELS as u32) + Seq::new(
        (SEGMENT_BYTES - 12) as nat,
        |i: int| 0u8,
    )
}

/// The bytes of a segment once it was initialised.
pub open spec fn initialised(bytes: Seq<u8>) -> Seq<u8> {
    if is_ready(bytes) {
        bytes
    } else {
        fresh_segment()
    }
}

/// Byte `j` of a word.
fn word_byte(n: u32, j: usize) -> (b: u8)
    requires
        j < 4,
    ensures
        b == le_byte(n, j as int),
{
    if j == 0 {
        (n % 0x100) as u8
    } else if j == 1 {
        (n / 0x100 % 0x100) as u8
    } else if j == 2 {
        (n / 0x1_0000 % 0x100) as u8
    } else {
        (n / 0x100_0000) as u8
    }
}

/// Whether the word at `off` is `n`.
fn is_word(bytes: &[u8], off: usize, n: u32) -> (r: bool)
    requires
        off + 4 <= bytes@.len(),
    ensures
        r == (le_number(bytes@, off as int) == n),
{
    let low: u32 = bytes[off] as u32 + 0x100 * bytes[off + 1] as u32;
    let high: u32 = bytes[off + 2] as u32 + 0x100 * bytes[off + 3] as u32;
    low + 0x1_0000 * high == n
}

/// Initialises a segment that is not of this layout: it is cleared and gets its header. One
/// that is stays as it is. Returns whether it was cleared.
pub fn init_header(bytes: &mut [u8]) -> (cleared: bool)
    requires
        old(bytes)@.len() == SEGMENT_BYTES,
    ensures
        cleared == !is_ready(old(bytes)@),
        final(bytes)@ == initialised(old(bytes)@),
{
    assert(bytes.len() == bytes@.len());
    if is_word(bytes, 0, MAGIC) && is_word(bytes, 4, VERSION) {
        return false;
    }
    let mut i: usize = 0;
    while i < SEGMENT_BYTES
        invariant
            i <= SEGMENT_BYTES,
            bytes@.len() == SEGMENT_BYTES,
            forall|k: int| 0 <= k < i ==> bytes@[k] == fresh_segment()[k],
        decreases SEGMENT_BYTES - i,
    {
        let b: u8 = if i < 4 {
            word_byte(MAGIC, i)
        } else if i < 8 {
            word_byte(VERSION, i - 4)
        } else if i < 12 {
            word_byte(CHANNELS as u32, i - 8)
        } else {
            0
        };
        bytes[i] = b;
        i = i + 1;
    }
    assert(bytes@ =~= fresh_segment());
    true
}

// ----------------------------------- rings ----------------------------------

/// Where the samples of the frame at cursor position `at` begin in a ring.
pub open spec fn ring_index(at: int) -> int {
    at % (RING_FRAMES as int) * CHANNELS
}

/// Where the samples of frame `i` behind the cursor begin in a ring.
pub fn slot(cursor: u64, i: usize) -> (base: usize)
    requires
        cursor + i <= u64::MAX,
    ensures
        base == ring_index(cursor + i),
        base + CHANNELS <= RING_SAMPLES,
{
    let at: u64 = cursor + i as u64;
    assert(at & 32767 == at % 32768) by (bit_vector);
    (at & RING_MASK) as usize * CHANNELS
}

/// Channel `c` of frame `i` is one of the samples of `frames` frames.
pub open spec fn is_sample(i: int, c: int, frames: int) -> bool {
    0 <= i < frames && 0 <= c < CHANNELS
}

/// Channel `c` of frame `i` was handed on, as sample `v` for the place `at`: frame by frame,
/// and in a frame by channels, so that the states on the way are `states`.
pub open spec fn is_put<S>(
    cursor: u64,
    planar: Seq<Vec<i32>>,
    states: Seq<S>,
    i: int,
    c: int,
    state: S,
    at: usize,
    v: i32,
    left: S,
) -> bool {
    &&& state == states[CHANNELS * i + c]
    &&& at == ring_index(cursor + i) + c
    &&& v == planar[c]@[i]
    &&& left == states[CHANNELS * i + c + 1]
}

/// Hands the samples of the first `frames` frames of `planar` to `put`, with their places in
/// the ring behind the cursor, each once and in their order, and returns the cursor behind
/// them. `put` is handed its own state.
pub fn write_ring<S, W>(
    cursor: u64,
    planar: &[Vec<i32>],
    frames: usize,
    state: &mut S,
    put: &W,
) -> (next: u64) where W: Fn(&mut S, usize, i32)
    requires
        cursor + frames <= u64::MAX,
        has_frames(planar@, frames as int),
        forall|s: &mut S, at: usize, v: i32|
            at < RING_SAMPLES ==> #[trigger] call_requires(*put, (s, at, v)),
    ensures
        next == cursor + frames,
        exists|states: Seq<S>|
            {
                &&& #[trigger] threaded(
                    *old(state),
                    states,
                    *final(state),
                    CHANNELS as nat * frames as nat,
                )
                &&& forall|i: int, c: int| #[trigger]
                    is_sample(i, c, frames as int) ==> exists|s: &mut S, at: usize, v: i32|
                        {
                            &&& #[trigger] call_ensures(*put, (s, at, v), ())
                            &&& is_put(cursor, planar@, states, i, c, *s, at, v, *final(s))
                        }
            },
{
    let ghost mut states: Seq<S> = seq![*state];
    let mut i: usize = 0;
    while i < frames
        invariant
            i <= frames,
            cursor + frames <= u64::MAX,
            has_frames(planar@, frames as int),
            forall|s: &mut S, at: usize, v: i32|
                at < RING_SAMPLES ==> #[trigger] call_requires(*put, (s, at, v)),
            threaded(*old(state), states, *state, CHANNELS as nat * i as nat),
            forall|k: int, d: int| #[trigger]
                is_sample(k, d, frames as int) && k < i ==> exists|s: &mut S, at: usize, v: i32|
                    {
                        &&& #[trigger] call_ensures(*put, (s, at, v), ())
                        &&& is_put(cursor, planar@, states, k, d, *s, at, v, *final(s))
                    },
        decreases frames - i,
    {
        let base: usize = slot(cursor, i);
        let mut c: usize = 0;
        while c < CHANNELS
            invariant
                i < frames,
                c <= CHANNELS,
                base == ring_index(cursor + i),
                base + CHANNELS <= RING_SAMPLES,
                has_frames(planar@, frames as int),
                forall|s: &mut S, at: usize, v: i32|
                    at < RING_SAMPLES ==> #[trigger] call_requires(*put, (s, at, v)),
                threaded(*old(state), states, *state, CHANNELS as nat * i as nat + c as nat),
                forall|k: int, d: int| #[trigger]
                    is_sample(k, d, frames as int) && (k < i || (k == i && d < c)) ==> exists|
                        s: &mut S,
                        at: usize,
                        v: i32,
                    |
                        {
                            &&& #[trigger] call_ensures(*put, (s, at, v), ())
                            &&& is_put(cursor, planar@, states, k, d, *s, at, v, *final(s))
                        },
            decreases CHANNELS - c,
        {
            assert(frames <= planar@[c as int]@.len());
            let ghost before = states;
            put(state, base + c, planar[c][i]);
            proof {
                states = states.push(*state);
                assert(forall|j: int| 0 <= j < before.len() ==> states[j] == before[j]);
                assert forall|k: int, d: int| #[trigger]
                    is_sample(k, d, frames as int) && (k < i || (k == i && d <= c)) implies exists|
                    s: &mut S,
                    at: usize,
                    v: i32,
                |
                    {
                        &&& #[trigger] call_ensures(*put, (s, at, v), ())
                        &&& is_put(cursor, planar@, states, k, d, *s, at, v, *final(s))
                    } by {
                    if k < i || d < c {
                        let (s, at, v) = choose|s: &mut S, at: usize, v: i32|
                            {
                                &&& #[trigger] call_ensures(*put, (s, at, v), ())
                                &&& is_put(cursor, planar@, before, k, d, *s, at, v, *final(s))
                            };
                        assert(is_put(cursor, planar@, states, k, d, *s, at, v, *final(s)));
                    }
                }
            }
            c = c + 1;
        }
        i = i + 1;
    }
    cursor + frames as u64
}

/// Fills the first `frames` frames of `planar`: from the ring behind the cursor, by `get`,
/// as long as there are `avail` frames, then with silence.
pub fn read_ring<R>(
    cursor: u64,
    avail: u64,
    planar: &mut [Vec<i32>],
    frames: usize,
    get: &R,
) where R: Fn(usize) -> i32
    requires
        cursor + avail <= u64::MAX,
        has_frames(old(planar)@, frames as int),
        forall|at: usize| at < RING_SAMPLES ==> call_requires(*get, (at,)),
    ensures
        final(planar)@.len() == old(planar)@.len(),
        forall|c: int|
            0 <= c < old(planar)@.len() ==> (#[trigger] final(planar)@[c])@.len() == old(
                planar,
            )@[c]@.len(),
        forall|i: int, c: int|
            #![trigger final(planar)@[c]@[i]]
            0 <= i < frames && 0 <= c < CHANNELS ==> if i < avail {
                call_ensures(
                    *get,
                    ((ring_index(cursor + i) + c) as usize,),
                    final(planar)@[c]@[i],
                )
            } else {
                final(planar)@[c]@[i] == 0
            },
        forall|i: int, c: int|
            #![trigger final(planar)@[c]@[i]]
            0 <= c < old(planar)@.len() && 0 <= i < final(planar)@[c]@.len() && (i >= frames || c
                >= CHANNELS) ==> final(planar)@[c]@[i] == old(planar)@[c]@[i],
{
    let ghost before = planar@;
    let mut i: usize = 0;
    while i < frames
        invariant
            i <= frames,
            cursor + avail <= u64::MAX,
            before == old(planar)@,
            has_frames(before, frames as int),
            forall|at: usize| at < RING_SAMPLES ==> call_requires(*get, (at,)),
            planar@.len() == before.len(),
            forall|c: int|
                0 <= c < before.len() ==> (#[trigger] planar@[c])@.len() == before[c]@.len(),
            forall|k: int, c: int|
                #![trigger planar@[c]@[k]]
                0 <= k < i && 0 <= c < CHANNELS ==> if k < avail {
                    call_ensures(
                        *get,
                        ((ring_index(cursor + k) + c) as usize,),
                        planar@[c]@[k],
                    )
                } else {
                    planar@[c]@[k] == 0
                },
            forall|k: int, c: int|
                #![trigger planar@[c]@[k]]
                0 <= c < before.len() && 0 <= k < planar@[c]@.len() && (k >= i || c >= CHANNELS)
                    ==> planar@[c]@[k] == before[c]@[k],
        decreases frames - i,
    {
        let live: bool = (i as u64) < avail;
        let base: usize = if live {
            slot(cursor, i)
        } else {
            0
        };
        let mut c: usize = 0;
        while c < CHANNELS
            invariant
                i < frames,
                c <= CHANNELS,
                live == (i < avail),
                live ==> base == ring_index(cursor + i),
                base + CHANNELS <= RING_SAMPLES,
                before == old(planar)@,
                has_frames(before, frames as int),
                forall|at: usize| at < RING_SAMPLES ==> call_requires(*get, (at,)),
                planar@.len() == before.len(),
                forall|d: int|
                    0 <= d < before.len() ==> (#[trigger] planar@[d])@.len() == before[d]@.len(),
                forall|k: int, d: int|
                    #![trigger planar@[d]@[k]]
                    0 <= k <= i && 0 <= d < CHANNELS && (k < i || d < c) ==> if k < avail {
                        call_ensures(
                            *get,
                            ((ring_index(cursor + k) + d) as usize,),
                            planar@[d]@[k],
                        )
                    } else {
                        planar@[d]@[k] == 0
                    },
                forall|k: int, d: int|
                    #![trigger planar@[d]@[k]]
                    0 <= d < before.len() && 0 <= k < planar@[d]@.len() && (k > i || d >= CHANNELS
                        || (k == i && d >= c)) ==> planar@[d]@[k] == before[d]@[k],
            decreases CHANNELS - c,
        {
            assert(frames <= before[c as int]@.len());
            let s: i32 = if live {
                get(base + c)
            } else {
                0
            };
            planar[c][i] = s;
            c = c + 1;
        }
        i = i + 1;
    }
}

// ----------------------------------- laws -----------------------------------

/// Frames that lie less than a ring apart never share a place in it.
pub proof fn law_slots_differ(a: int, b: int, c: int, d: int)
    requires
        0 <= a < b < a + RING_FRAMES,
        0 <= c < CHANNELS,
        0 <= d < CHANNELS,
    ensures
        ring_index(a) + c != ring_index(b) + d,
        0 <= ring_index(a) + c < RING_SAMPLES,
{
    let m = a % 32768;
    let n = b % 32768;
    assert(m != n);
}

/// Byte `i` lies in field `k` of the segment.
pub open spec fn in_field(k: int, i: int) -> bool {
    field_offset(fields(), k) <= i < field_offset(fields(), k) + fields()[k].size
}

/// A segment that was cleared holds magic, version and the channel count; every other field,
/// that is the rate, the flags, the heartbeat, the cursors, both rings and the clock anchor, is
/// zero.
pub proof fn law_cleared_segment(bytes: Seq<u8>)
    requires
        bytes.len() == SEGMENT_BYTES,
        !is_ready(bytes),
    ensures
        initialised(bytes).len() == SEGMENT_BYTES,
        le_number(initialised(bytes), field_offset(fields(), 0)) == MAGIC,
        le_number(initialised(bytes), field_offset(fields(), 1)) == VERSION,
        le_number(initialised(bytes), field_offset(fields(), 2)) == CHANNELS,
        forall|k: int, i: int|
            3 <= k < fields().len() && #[trigger] in_field(k, i) ==> 0 <= i < SEGMENT_BYTES
                && initialised(bytes)[i] == 0,
{
    lemma_layout();
    law_le_round_trip(MAGIC);
    law_le_round_trip(VERSION);
    law_le_round_trip(CHANNELS as u32);
    let f = fresh_segment();
    assert(f[0] == le_byte(MAGIC, 0) && f[1] == le_byte(MAGIC, 1) && f[2] == le_byte(MAGIC, 2)
        && f[3] == le_byte(MAGIC, 3));
    assert(f[4] == le_byte(VERSION, 0) && f[5] == le_byte(VERSION, 1) && f[6] == le_byte(
        VERSION,
        2,
    ) && f[7] == le_byte(VERSION, 3));
    let n = CHANNELS as u32;
    assert(f[8] == le_byte(n, 0) && f[9] == le_byte(n, 1) && f[10] == le_byte(n, 2) && f[11]
        == le_byte(n, 3));
    assert forall|k: int, i: int|
        3 <= k < fields().len() && #[trigger] in_field(k, i) implies 0 <= i < SEGMENT_BYTES
        && initialised(bytes)[i] == 0 by {
        lemma_field_inside(k);
    }
}

/// Behind the channel count, every field lies inside the segment.
proof fn lemma_field_inside(k: int)
    requires
        3 <= k < fields().len(),
    ensures
        12 <= field_offset(fields(), k),
        field_offset(fields(), k) + fields()[k].size <= SEGMENT_BYTES,
{
    lemma_layout();
    assert(fields().len() == 14);
    let f = fields();
    assert(f[3] == word() && f[4] == word());
    assert(f[5] == wide() && f[6] == wide() && f[7] == wide() && f[8] == wide() && f[9] == wide());
    assert(f[10] == ring() && f[11] == ring() && f[12] == wide() && f[13] == word());
}

/// A segment is initialised once: whatever is written behind magic and version afterwards,
/// initialising it again changes nothing.
pub proof fn law_initialised_once(bytes: Seq<u8>, later: Seq<u8>)
    requires
        bytes.len() == SEGMENT_BYTES,
        later.len() == SEGMENT_BYTES,
        forall|i: int| 0 <= i < 8 ==> #[trigger] later[i] == initialised(bytes)[i],
    ensures
        is_ready(initialised(bytes)),
        is_ready(later),
        initialised(later) == later,
{
    if !is_ready(bytes) {
        law_cleared_segment(bytes);
        lemma_layout();
    }
    let f = initialised(bytes);
    assert(later[0] == f[0] && later[1] == f[1] && later[2] == f[2] && later[3] == f[3]);
    assert(later[4] == f[4] && later[5] == f[5] && later[6] == f[6] && later[7] == f[7]);
}

/// Only a segment of 1572944 bytes has the layout that the plugin maps. One that is there with
/// another size, or of unknown size, is removed; one that is smaller is given its size.
pub proof fn law_segment_sizes(
    size: usize,
    stat_ok: bool,
    found: i64,
    ok: bool,
    stale: bool,
    grows: bool,
)
    requires
        call_ensures(assert_layout, (size,), ok),
        call_ensures(is_stale, (stat_ok, found), stale),
        call_ensures(must_grow, (stat_ok, found), grows),
    ensures
        ok <==> size == 1572944,
        stale <==> !stat_ok || found != 1572944,
        grows <==> stat_ok && 0 <= found < 1572944,
{
    lemma_layout();
}

/// What initialising a segment does to its bytes. Where it begins with `ASL3` and the version 2,
/// it stays as it is. Else it begins with those and the six channels, each as four bytes with
/// the least significant first, and every other byte is zero.
pub proof fn law_header_written()
    ensures
        forall|bytes: &mut [u8], cleared: bool|
            (*bytes)@.len() == 1572944 && #[trigger] call_ensures(init_header, (bytes,), cleared)
                ==> {
                let before = (*bytes)@;
                let after = (*final(bytes))@;
                let ready = before.take(8) == seq![0x41u8, 0x53, 0x4c, 0x33, 2, 0, 0, 0];
                &&& cleared <==> !ready
                &&& ready ==> after == before
                &&& !ready ==> {
                    &&& after.len() == 1572944
                    &&& after.take(12) == seq![0x41u8, 0x53, 0x4c, 0x33, 2, 0, 0, 0, 6, 0, 0, 0]
                    &&& forall|i: int| 12 <= i < 1572944 ==> #[trigger] after[i] == 0
                }
            },
{
    let head = seq![0x41u8, 0x53, 0x4c, 0x33, 2, 0, 0, 0];
    assert forall|bytes: &mut [u8], cleared: bool|
        (*bytes)@.len() == 1572944 && #[trigger] call_ensures(init_header, (bytes,), cleared)
        implies {
        let before = (*bytes)@;
        let after = (*final(bytes))@;
        let ready = before.take(8) == head;
        &&& cleared <==> !ready
        &&& ready ==> after == before
        &&& !ready ==> {
            &&& after.len() == 1572944
            &&& after.take(12) == seq![0x41u8, 0x53, 0x4c, 0x33, 2, 0, 0, 0, 6, 0, 0, 0]
            &&& forall|i: int| 12 <= i < 1572944 ==> #[trigger] after[i] == 0
        }
    } by {
        let before = (*bytes)@;
        let after = (*final(bytes))@;
        if is_ready(before) {
            assert(before.take(8) =~= head);
        } else if before.take(8) == head {
            let t = before.take(8);
            assert(t[0] == before[0] && t[1] == before[1] && t[2] == before[2] && t[3]
                == before[3]);
            assert(t[4] == before[4] && t[5] == before[5] && t[6] == before[6] && t[7]
                == before[7]);
        }
        if !is_ready(before) {
            assert(after.take(12) =~= seq![0x41u8, 0x53, 0x4c, 0x33, 2, 0, 0, 0, 6, 0, 0, 0]);
        }
    }
}

/// The ring has 32768 frames of six samples: a frame lies at its cursor, reduced by that, so
/// that frames a whole ring apart share a place, and frames that follow each other lie side by
/// side unless the ring begins anew.
pub proof fn law_ring_places(cursor: u64, i: usize, base: usize)
    requires
        cursor + i <= u64::MAX,
        call_ensures(slot, (cursor, i), base),
    ensures
        base % 6 == 0,
        base / 6 == (cursor + i) % 32768,
        base + 6 <= 196608,
        ring_index(cursor + i) == base,
        ring_index(cursor + i + 32768) == base,
        base + 6 < 196608 ==> ring_index(cursor + i + 1) == base + 6,
        base + 6 == 196608 ==> ring_index(cursor + i + 1) == 0,
        RING_MASK == 32767,
{
}

/// What writing to a ring does: the samples are handed on frame by frame and in a frame by
/// channels, each once, sample `c` of frame `i` for the place of cursor `cursor + i` and that
/// channel; no other call is made, and the cursor moves by the frames.
pub proof fn law_ring_written<S, W: Fn(&mut S, usize, i32)>(
    cursor: u64,
    planar: &[Vec<i32>],
    frames: usize,
    put: &W,
)
    ensures
        forall|state: &mut S, next: u64| #[trigger]
            call_ensures(write_ring::<S, W>, (cursor, planar, frames, state, put), next) ==> {
                &&& next == cursor + frames
                &&& exists|states: Seq<S>|
                    {
                        &&& #[trigger] states.len() == 6 * frames + 1
                        &&& states[0] == *state
                        &&& states[6 * frames] == *final(state)
                        &&& forall|i: int, c: int| #[trigger]
                            is_sample(i, c, frames as int) ==> exists|s: &mut S, at: usize, v: i32|
                                {
                                    &&& #[trigger] call_ensures(*put, (s, at, v), ())
                                    &&& *s == states[6 * i + c]
                                    &&& at == (cursor + i) % 32768 * 6 + c
                                    &&& v == planar@[c]@[i]
                                    &&& *final(s) == states[6 * i + c + 1]
                                }
                    }
            },
{
    assert forall|state: &mut S, next: u64| #[trigger]
        call_ensures(write_ring::<S, W>, (cursor, planar, frames, state, put), next) implies {
        &&& next == cursor + frames
        &&& exists|states: Seq<S>|
            {
                &&& #[trigger] states.len() == 6 * frames + 1
                &&& states[0] == *state
                &&& states[6 * frames] == *final(state)
                &&& forall|i: int, c: int| #[trigger]
                    is_sample(i, c, frames as int) ==> exists|s: &mut S, at: usize, v: i32|
                        {
                            &&& #[trigger] call_ensures(*put, (s, at, v), ())
                            &&& *s == states[6 * i + c]
                            &&& at == (cursor + i) % 32768 * 6 + c
                            &&& v == planar@[c]@[i]
                            &&& *final(s) == states[6 * i + c + 1]
                        }
            }
    } by {
        let states = choose|states: Seq<S>|
            {
                &&& #[trigger] threaded(
                    *state,
                    states,
                    *final(state),
                    CHANNELS as nat * frames as nat,
                )
                &&& forall|i: int, c: int| #[trigger]
                    is_sample(i, c, frames as int) ==> exists|s: &mut S, at: usize, v: i32|
                        {
                            &&& #[trigger] call_ensures(*put, (s, at, v), ())
                            &&& is_put(cursor, planar@, states, i, c, *s, at, v, *final(s))
                        }
            };
        assert(states.len() == 6 * frames + 1);
        assert forall|i: int, c: int| #[trigger]
            is_sample(i, c, frames as int) implies exists|s: &mut S, at: usize, v: i32|
            {
                &&& #[trigger] call_ensures(*put, (s, at, v), ())
                &&& *s == states[6 * i + c]
                &&& at == (cursor + i) % 32768 * 6 + c
                &&& v == planar@[c]@[i]
                &&& *final(s) == states[6 * i + c + 1]
            } by {
            let (s, at, v) = choose|s: &mut S, at: usize, v: i32|
                {
                    &&& #[trigger] call_ensures(*put, (s, at, v), ())
                    &&& is_put(cursor, planar@, states, i, c, *s, at, v, *final(s))
                };
            assert(call_ensures(*put, (s, at, v), ()));
        }
    }
}

/// The samples of some frames are the six channels of each of them.
pub proof fn law_samples_of_frames(i: int, c: int, frames: int)
    ensures
        is_sample(i, c, frames) <==> 0 <= i < frames && 0 <= c < 6,
{
}

/// What reading from a ring does: as long as there are frames, sample `c` of frame `i` is what
/// stands at the place of cursor `cursor + i` and that channel; the rest of the frames is
/// silence, and nothing else is touched.
pub proof fn law_ring_read<R: Fn(usize) -> i32>(cursor: u64, avail: u64, frames: usize, get: &R)
    ensures
        forall|planar: &mut [Vec<i32>]| #[trigger]
            call_ensures(read_ring::<R>, (cursor, avail, planar, frames, get), ()) ==> {
                let before = (*planar)@;
                let after = (*final(planar))@;
                &&& after.len() == before.len()
                &&& forall|c: int|
                    0 <= c < before.len() ==> (#[trigger] after[c])@.len() == before[c]@.len()
                &&& forall|i: int, c: int|
                    #![trigger after[c]@[i]]
                    0 <= i < frames && i < avail && 0 <= c < 6 ==> call_ensures(
                        *get,
                        (((cursor + i) % 32768 * 6 + c) as usize,),
                        after[c]@[i],
                    )
                &&& forall|i: int, c: int|
                    #![trigger after[c]@[i]]
                    avail <= i < frames && 0 <= c < 6 ==> after[c]@[i] == 0
                &&& forall|i: int, c: int|
                    #![trigger after[c]@[i]]
                    0 <= c < before.len() && 0 <= i < before[c]@.len() && (i >= frames || c >= 6)
                        ==> after[c]@[i] == before[c]@[i]
            },
{
}

/// What is written to a ring is there to be read. Where `put` stores each sample at its place in
/// the memory of the ring, then, of up to a whole ring of frames, the place of every frame and
/// channel holds that sample in the end: no sample lands on another.
pub proof fn law_ring_keeps_what_is_written<S, W: Fn(&mut S, usize, i32)>(
    cursor: u64,
    planar: &[Vec<i32>],
    frames: usize,
    put: &W,
    memory: spec_fn(S) -> Seq<i32>,
)
    requires
        frames <= 32768,
        forall|s: &mut S, at: usize, v: i32| #[trigger]
            call_ensures(*put, (s, at, v), ()) ==> memory(*final(s)) == memory(*s).update(
                at as int,
                v,
            ),
    ensures
        forall|state: &mut S, next: u64|
            memory(*state).len() == 196608 && #[trigger] call_ensures(
                write_ring::<S, W>,
                (cursor, planar, frames, state, put),
                next,
            ) ==> forall|i: int, c: int| #[trigger]
                is_sample(i, c, frames as int) ==> memory(*final(state))[(cursor + i) % 32768 * 6
                    + c] == planar@[c]@[i],
{
    law_ring_written::<S, W>(cursor, planar, frames, put);
    assert forall|state: &mut S, next: u64|
        memory(*state).len() == 196608 && #[trigger] call_ensures(
            write_ring::<S, W>,
            (cursor, planar, frames, state, put),
            next,
        ) implies forall|i: int, c: int| #[trigger]
        is_sample(i, c, frames as int) ==> memory(*final(state))[(cursor + i) % 32768 * 6 + c]
            == planar@[c]@[i] by {
        let states = choose|states: Seq<S>|
            {
                &&& #[trigger] states.len() == 6 * frames + 1
                &&& states[0] == *state
                &&& states[6 * frames] == *final(state)
                &&& forall|i: int, c: int| #[trigger]
                    is_sample(i, c, frames as int) ==> exists|s: &mut S, at: usize, v: i32|
                        {
                            &&& #[trigger] call_ensures(*put, (s, at, v), ())
                            &&& *s == states[6 * i + c]
                            &&& at == (cursor + i) % 32768 * 6 + c
                            &&& v == planar@[c]@[i]
                            &&& *final(s) == states[6 * i + c + 1]
                        }
            };
        let mems = Seq::new(states.len(), |j: int| memory(states[j]));
        assert forall|j: int| 0 <= j < 6 * frames implies #[trigger] mems[j + 1] == mems[j].update(
            (cursor + j / 6) % 32768 * 6 + j % 6,
            planar@[j % 6]@[j / 6],
        ) by {
            assert(is_sample(j / 6, j % 6, frames as int));
            assert(6 * (j / 6) + j % 6 == j);
            let (s, at, v) = choose|s: &mut S, at: usize, v: i32|
                {
                    &&& #[trigger] call_ensures(*put, (s, at, v), ())
                    &&& *s == states[6 * (j / 6) + j % 6]
                    &&& at == (cursor + j / 6) % 32768 * 6 + j % 6
                    &&& v == planar@[j % 6]@[j / 6]
                    &&& *final(s) == states[6 * (j / 6) + j % 6 + 1]
                };
            assert(call_ensures(*put, (s, at, v), ()));
        }
        lemma_writes(mems, cursor as int, planar@, frames as int, 6 * frames);
        assert forall|i: int, c: int| #[trigger] is_sample(i, c, frames as int) implies memory(
            *final(state),
        )[(cursor + i) % 32768 * 6 + c] == planar@[c]@[i] by {
            let j = 6 * i + c;
            assert(j / 6 == i && j % 6 == c);
            assert(0 <= j < 6 * frames);
            assert(was_written(mems[6 * frames], cursor as int, planar@, j));
        }
    }
}

/// Sample `j` of the frames stands at its place.
pub open spec fn was_written(mem: Seq<i32>, cursor: int, planar: Seq<Vec<i32>>, j: int) -> bool {
    mem[(cursor + j / 6) % 32768 * 6 + j % 6] == planar[j % 6]@[j / 6]
}

/// After `m` writes, the first `m` samples stand at their places.
proof fn lemma_writes(
    mems: Seq<Seq<i32>>,
    cursor: int,
    planar: Seq<Vec<i32>>,
    frames: int,
    m: int,
)
    requires
        0 <= cursor,
        0 <= frames <= 32768,
        mems.len() == 6 * frames + 1,
        mems[0].len() == 196608,
        0 <= m <= 6 * frames,
        forall|j: int|
            0 <= j < 6 * frames ==> #[trigger] mems[j + 1] == mems[j].update(
                (cursor + j / 6) % 32768 * 6 + j % 6,
                planar[j % 6]@[j / 6],
            ),
    ensures
        mems[m].len() == 196608,
        forall|j: int| 0 <= j < m ==> #[trigger] was_written(mems[m], cursor, planar, j),
    decreases m,
{
    if m > 0 {
        let k = m - 1;
        lemma_writes(mems, cursor, planar, frames, k);
        let at = (cursor + k / 6) % 32768 * 6 + k % 6;
        assert(mems[k + 1] == mems[k].update(at, planar[k % 6]@[k / 6]));
        assert(0 <= at < 196608);
        assert forall|j: int| 0 <= j < m implies #[trigger] was_written(
            mems[m],
            cursor,
            planar,
            j,
        ) by {
            if j < k {
                assert(was_written(mems[k], cursor, planar, j));
                let other = (cursor + j / 6) % 32768 * 6 + j % 6;
                if j / 6 == k / 6 {
                    assert(j % 6 != k % 6);
                } else {
                    law_slots_differ(cursor + j / 6, cursor + k / 6, j % 6, k % 6);
                }
                assert(other != at);
                assert(0 <= other < 196608);
            }
        }
    }
}

} // verus!
