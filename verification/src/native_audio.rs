//! Full-duplex streaming from a fixed pool of transfers, each of which is resubmitted from
//! its own completion callback.
//!
//! The OUT endpoint takes its clock from the IN endpoint: the frame counts of the capture
//! packets are mirrored onto the playback packets, in order.

use std::collections::VecDeque;

use vstd::prelude::*;
use vstd::string::*;

use crate::error::{fails, Error, ErrorView, UsbError};
use crate::frame::{
    captured, empty_planar, frames_of, grow, has_room, holds, law_captured_position,
    law_packet_captured, lemma_captured_prefix, lemma_captured_step, overwritten, pack_frames,
    packed, packet_frames, unfilled, unpack_frames, PacketView,
};
use crate::pacing::{
    can_pace, law_pacing_continues, lemma_step, next_size, paced_phase, paced_size,
};
use crate::proto::{
    bad_rate_text, be_bytes, build_report, encode_rate, encode_set_controls, report_of,
    supported_rate, CMD_SET_CONTROLS, CMD_SET_RATE,
};
use crate::pipeline::{handed, moved};
use crate::stream::{
    found, is_carried, law_transfer_packets, law_transfer_samples, lemma_offsets_grow, made,
    packet_lengths, packet_offset, resized, threaded, transfer_bytes,
};
use crate::text::decimal;
use crate::transfer::{cancelled, completed, is_cancelled, is_completed, PacketDesc};
use crate::{
    CHANNELS, EP_HID_IN, EP_HID_OUT, FRAME_BYTES, HID_REPORT_LEN, IF_CAPTURE, IF_HID, IF_PLAYBACK,
    ISO_PKTS, PID, PKT_LEN, VID,
};

verus! {

/// Transfers per direction.
pub const NUM: usize = 8;

/// Most frames in one packet.
pub const MAX_PACKET_FRAMES: usize = 7;

/// Bytes in the buffer of one transfer.
pub const BUFFER_LEN: usize = 2016;

/// Longest feedback backlog: beyond it the latency would grow if playback lags.
pub const FEEDBACK_MAX: usize = 32;

/// Tries to resubmit one transfer.
pub const RESUBMIT_TRIES: u32 = 8;

/// Frame counts of the packets of one transfer.
pub type Counts = [u8; ISO_PKTS];

// ---------------------------------- capture ---------------------------------

/// Bytes of a packet that lie in its slot.
pub open spec fn slot_bytes(d: PacketDesc) -> int {
    if d.actual_length <= PKT_LEN {
        d.actual_length as int
    } else {
        PKT_LEN as int
    }
}

/// The packets of a capture transfer: each lies in a slot of `PKT_LEN` bytes.
pub open spec fn slots(buf: Seq<u8>, descs: Seq<PacketDesc>) -> Seq<PacketView> {
    Seq::new(
        descs.len(),
        |k: int|
            PacketView {
                data: buf.subrange(k * PKT_LEN, k * PKT_LEN + slot_bytes(descs[k])),
                ok: descs[k].status == completed(),
            },
    )
}

/// What a capture transfer can bring: there is a slot for every packet, and the frames of
/// every completed one fit its slot.
pub open spec fn slots_fit(len: nat, descs: Seq<PacketDesc>) -> bool {
    &&& descs.len() * PKT_LEN <= len
    &&& forall|k: int|
        0 <= k < descs.len() && (#[trigger] descs[k]).status == completed()
            ==> descs[k].actual_length / (FRAME_BYTES as u32) <= MAX_PACKET_FRAMES
}

/// Whether a capture transfer of `len` bytes is one that a device can bring.
pub fn fits_slots(len: usize, descs: &[PacketDesc]) -> (r: bool)
    ensures
        r == slots_fit(len as nat, descs@),
{
    if descs.len() > len / PKT_LEN {
        return false;
    }
    let mut k: usize = 0;
    while k < descs.len()
        invariant
            k <= descs@.len(),
            descs@.len() * PKT_LEN <= len,
            forall|i: int|
                0 <= i < k && (#[trigger] descs@[i]).status == completed()
                    ==> descs@[i].actual_length / (FRAME_BYTES as u32) <= MAX_PACKET_FRAMES,
        decreases descs@.len() - k,
    {
        if is_completed(descs[k].status) && descs[k].actual_length as usize / FRAME_BYTES
            > MAX_PACKET_FRAMES {
            return false;
        }
        k = k + 1;
    }
    true
}

/// Frame counts of the packets of a capture transfer; a packet that is missing or did not
/// complete counts as empty.
pub open spec fn counts_of(packets: Seq<PacketView>) -> Seq<u8> {
    Seq::new(
        ISO_PKTS as nat,
        |k: int|
            if k < packets.len() {
                packet_frames(packets[k]) as u8
            } else {
                0
            },
    )
}

/// Frames in a completed packet.
fn frames_in(d: &PacketDesc) -> (nf: usize)
    requires
        d.status == completed() ==> d.actual_length / (FRAME_BYTES as u32) <= MAX_PACKET_FRAMES,
    ensures
        d.status == completed() ==> nf == d.actual_length / FRAME_BYTES as u32,
        d.status != completed() ==> nf == 0,
        nf <= MAX_PACKET_FRAMES,
{
    if is_completed(d.status) {
        d.actual_length as usize / FRAME_BYTES
    } else {
        0
    }
}

/// Frame counts of the packets of a capture transfer, and the frames in all of them.
fn count_frames(buf: &[u8], descs: &[PacketDesc]) -> (r: (Counts, usize))
    requires
        slots_fit(buf@.len(), descs@),
    ensures
        r.0@ == counts_of(slots(buf@, descs@)),
        r.1 == captured(slots(buf@, descs@)).len(),
        r.1 <= MAX_PACKET_FRAMES * descs@.len(),
{
    let ghost all = slots(buf@, descs@);
    let mut sizes: Counts = [0u8; ISO_PKTS];
    let mut total: usize = 0;
    let mut p: usize = 0;
    assert(captured(all.take(0)) =~= Seq::empty());
    while p < descs.len()
        invariant
            p <= descs@.len(),
            all == slots(buf@, descs@),
            slots_fit(buf@.len(), descs@),
            total == captured(all.take(p as int)).len(),
            total <= MAX_PACKET_FRAMES * p,
            forall|k: int|
                0 <= k < ISO_PKTS ==> #[trigger] sizes@[k] == if k < p {
                    counts_of(all)[k]
                } else {
                    0
                },
        decreases descs@.len() - p,
    {
        proof {
            lemma_captured_step(all, p as int);
            assert(descs@[p as int].status == completed() ==> all[p as int].data.len()
                == slot_bytes(descs@[p as int]));
            assert(descs.len() == descs@.len());
            assert(buf.len() == buf@.len());
        }
        let nf: usize = frames_in(&descs[p]);
        if p < ISO_PKTS {
            sizes[p] = nf as u8;
        }
        total = total + nf;
        p = p + 1;
    }
    proof {
        assert(all.take(p as int) =~= all);
        assert(sizes@ =~= counts_of(all));
    }
    (sizes, total)
}

/// Decodes the packets of a capture transfer to the front of `planar`.
fn decode_slots(planar: &mut Vec<Vec<i32>>, buf: &[u8], descs: &[PacketDesc], total: usize)
    requires
        old(planar)@.len() == CHANNELS,
        slots_fit(buf@.len(), descs@),
        total == captured(slots(buf@, descs@)).len(),
    ensures
        holds(final(planar)@, captured(slots(buf@, descs@))),
        overwritten(old(planar)@, final(planar)@, total as int),
{
    let ghost all = slots(buf@, descs@);
    grow(planar, total);
    let ghost grown_to = planar@;
    let mut f: usize = 0;
    let mut p: usize = 0;
    assert(captured(all.take(0)) =~= Seq::empty());
    while p < descs.len()
        invariant
            p <= descs@.len(),
            all == slots(buf@, descs@),
            slots_fit(buf@.len(), descs@),
            total == captured(all).len(),
            f == captured(all.take(p as int)).len(),
            f <= total,
            grown_to.len() == CHANNELS,
            planar@.len() == CHANNELS,
            forall|c: int|
                0 <= c < CHANNELS ==> (#[trigger] planar@[c])@.len() == grown_to[c]@.len()
                    && planar@[c]@.len() >= total,
            forall|c: int, g: int|
                #![trigger planar@[c]@[g]]
                0 <= c < CHANNELS && 0 <= g < planar@[c]@.len() ==> planar@[c]@[g] == if g < f {
                    captured(all.take(p as int))[g][c]
                } else {
                    grown_to[c]@[g] as int
                },
        decreases descs@.len() - p,
    {
        proof {
            lemma_captured_step(all, p as int);
            lemma_captured_prefix(all, p + 1);
            assert(descs@[p as int].status == completed() ==> all[p as int].data.len()
                == slot_bytes(descs@[p as int]));
            assert(descs.len() == descs@.len());
            assert(buf.len() == buf@.len());
        }
        if is_completed(descs[p].status) {
            let nf: usize = frames_in(&descs[p]);
            let at: usize = p * PKT_LEN;
            let ghost before = planar@;
            unpack_frames(planar, buf, at, nf, f);
            proof {
                let one = all[p as int];
                assert forall|c: int, g: int|
                    0 <= c < CHANNELS && f <= g < f + nf implies #[trigger] planar@[c]@[g]
                    == captured(all.take(p + 1))[g][c] by {
                    let i = g - f;
                    assert(captured(all.take(p + 1))[g] == frames_of(one)[i]);
                    let off = i * FRAME_BYTES + c * 3;
                    assert(one.data[off] == buf@[at + off]);
                    assert(one.data[off + 1] == buf@[at + off + 1]);
                    assert(one.data[off + 2] == buf@[at + off + 2]);
                }
            }
            f = f + nf;
        }
        p = p + 1;
    }
    assert(all.take(p as int) =~= all);
}

// ---------------------------------- playback --------------------------------

/// A row of samples, at least `n` long: shorter ones are zero-filled.
pub open spec fn lengthened(row: Seq<i32>, n: nat) -> Seq<i32> {
    if row.len() < n {
        resized(row, n)
    } else {
        row
    }
}

/// `after` is `before` with every channel at least `n` samples long.
pub open spec fn grown(before: Seq<Vec<i32>>, after: Seq<Vec<i32>>, n: nat) -> bool {
    &&& after.len() == before.len()
    &&& forall|c: int|
        0 <= c < before.len() ==> (#[trigger] after[c])@ == lengthened(before[c]@, n)
}

/// A packet of `n` frames found `before`: where it carries frames, the callback was handed
/// `given`, grown to fit them, and left `left`; where it carries none, the buffer stayed.
pub open spec fn passed(
    before: Seq<Vec<i32>>,
    given: Seq<Vec<i32>>,
    left: Seq<Vec<i32>>,
    n: nat,
) -> bool {
    if n > 0 {
        grown(before, given, n)
    } else {
        given == before && left == before
    }
}

/// The buffers of successive packets: packet `k` finds what packet `k - 1` left. Where it
/// carries frames, the callback is handed `ins[k]`, grown to fit them, and leaves `outs[k]`.
pub open spec fn passed_on(
    first: Seq<Vec<i32>>,
    ins: Seq<Seq<Vec<i32>>>,
    outs: Seq<Seq<Vec<i32>>>,
    counts: Seq<usize>,
    last: Seq<Vec<i32>>,
) -> bool {
    &&& ins.len() == outs.len()
    &&& last == if outs.len() == 0 {
        first
    } else {
        outs.last()
    }
    &&& forall|k: int|
        0 <= k < ins.len() ==> passed(
            found(first, outs, k),
            #[trigger] ins[k],
            outs[k],
            counts[k] as nat,
        )
}

/// The state of the callback over the packets: one that carries no frame leaves it alone.
pub open spec fn skips_empty<S>(states: Seq<S>, counts: Seq<usize>) -> bool {
    forall|k: int|
        0 <= k < states.len() - 1 && counts[k] == 0 ==> #[trigger] states[k + 1] == states[k]
}

/// The callback for packet `k`: with its state `state` it was handed `before` and asked for
/// `n` frames, and left `left` and `after`.
pub open spec fn filled<S>(
    ins: Seq<Seq<Vec<i32>>>,
    outs: Seq<Seq<Vec<i32>>>,
    states: Seq<S>,
    counts: Seq<usize>,
    k: int,
    state: S,
    before: Seq<Vec<i32>>,
    n: usize,
    left: S,
    after: Seq<Vec<i32>>,
) -> bool {
    &&& state == states[k]
    &&& before == ins[k]
    &&& n == counts[k]
    &&& left == states[k + 1]
    &&& after == outs[k]
}

/// Some packet carries a frame.
pub open spec fn any_frame(counts: Seq<u8>) -> bool {
    exists|k: int| 0 <= k < counts.len() && counts[k] > 0
}

/// Frames of a packet at the nominal rate, at least one and at most what fits.
pub open spec fn clamped(n: int) -> int {
    if n < 1 {
        1
    } else if n > MAX_PACKET_FRAMES {
        MAX_PACKET_FRAMES as int
    } else {
        n
    }
}

/// Frame counts of the next OUT transfer: the oldest feedback, where it has a frame, else
/// the nominal rate.
pub open spec fn out_counts(rate: u32, phase: u32, fb: Seq<Seq<u8>>) -> Seq<usize> {
    Seq::new(
        ISO_PKTS as nat,
        |k: int|
            if fb.len() > 0 && any_frame(fb[0]) {
                fb[0][k] as usize
            } else {
                clamped(paced_size(rate as int, phase as int, k)) as usize
            },
    )
}

/// The pacing accumulator behind an OUT transfer.
pub open spec fn out_phase(rate: u32, phase: u32, fb: Seq<Seq<u8>>) -> int {
    if fb.len() > 0 && any_frame(fb[0]) {
        phase as int
    } else {
        paced_phase(rate as int, phase as int, ISO_PKTS as int)
    }
}

/// The feedback queue without its oldest entry.
pub open spec fn shortened(fb: Seq<Seq<u8>>) -> Seq<Seq<u8>> {
    if fb.len() > 0 {
        fb.drop_first()
    } else {
        fb
    }
}

/// There is a count for every packet, and none says more frames than fit.
pub open spec fn counts_fit(counts: Seq<u8>) -> bool {
    &&& counts.len() == ISO_PKTS
    &&& forall|k: int| 0 <= k < ISO_PKTS ==> #[trigger] counts[k] <= MAX_PACKET_FRAMES
}

/// What waits in the feedback queue, oldest first.
pub open spec fn backlog(fb: Seq<Counts>) -> Seq<Seq<u8>> {
    Seq::new(fb.len(), |i: int| fb[i]@)
}

/// Every entry of the feedback queue is one that a transfer can carry.
pub open spec fn backlog_fits(fb: Seq<Seq<u8>>) -> bool {
    forall|i: int| 0 <= i < fb.len() ==> counts_fit(#[trigger] fb[i])
}

/// Takes the frame counts of the next OUT transfer off the feedback queue, or paces them.
fn take_counts(rate: u32, phase: &mut u32, fb: &mut VecDeque<Counts>) -> (counts: Vec<usize>)
    requires
        can_pace(rate, *old(phase)),
        backlog_fits(backlog(old(fb)@)),
    ensures
        counts@ == out_counts(rate, *old(phase), backlog(old(fb)@)),
        forall|k: int| 0 <= k < ISO_PKTS ==> #[trigger] counts@[k] <= MAX_PACKET_FRAMES,
        backlog(final(fb)@) == shortened(backlog(old(fb)@)),
        *final(phase) == out_phase(rate, *old(phase), backlog(old(fb)@)),
        can_pace(rate, *final(phase)),
{
    let ghost queue = backlog(fb@);
    let ghost all = out_counts(rate, *old(phase), queue);
    let mut counts: Vec<usize> = Vec::with_capacity(ISO_PKTS);
    let mut total: usize = 0;
    if let Some(oldest) = fb.pop_front() {
        assert(oldest@ == queue[0]);
        assert(counts_fit(queue[0]));
        assert(backlog(fb@) =~= queue.drop_first());
        let mut p: usize = 0;
        while p < ISO_PKTS
            invariant
                p <= ISO_PKTS,
                counts_fit(oldest@),
                counts@.len() == p,
                forall|k: int| 0 <= k < p ==> #[trigger] counts@[k] == oldest@[k],
                total <= p * MAX_PACKET_FRAMES,
                total > 0 <==> exists|k: int| 0 <= k < p && oldest@[k] > 0,
            decreases ISO_PKTS - p,
        {
            assert(oldest@[p as int] <= MAX_PACKET_FRAMES);
            counts.push(oldest[p] as usize);
            total = total + oldest[p] as usize;
            p = p + 1;
        }
        proof {
            if total > 0 {
                assert(any_frame(oldest@));
                assert(counts@ =~= all);
            }
        }
    }
    if total == 0 {
        counts = Vec::with_capacity(ISO_PKTS);
        let ghost start = *phase;
        let mut p: usize = 0;
        assert(start + 0 * rate == start);
        while p < ISO_PKTS
            invariant
                p <= ISO_PKTS,
                can_pace(rate, *phase),
                start < 8000,
                *phase == paced_phase(rate as int, start as int, p as int),
                counts@.len() == p,
                forall|k: int|
                    0 <= k < p ==> #[trigger] counts@[k] == clamped(
                        paced_size(rate as int, start as int, k),
                    ),
            decreases ISO_PKTS - p,
        {
            proof {
                lemma_step(rate as int, start as int, p as int);
            }
            let n: usize = next_size(rate, phase);
            let nf: usize = if n < 1 {
                1
            } else if n > MAX_PACKET_FRAMES {
                MAX_PACKET_FRAMES
            } else {
                n
            };
            counts.push(nf);
            p = p + 1;
        }
        assert(counts@ =~= all);
    }
    counts
}

/// Makes every channel at least `n` samples long.
fn lengthen(planar: &mut Vec<Vec<i32>>, n: usize)
    requires
        old(planar)@.len() == CHANNELS,
    ensures
        grown(old(planar)@, final(planar)@, n as nat),
{
    let ghost before = planar@;
    grow(planar, n);
    assert forall|c: int| 0 <= c < CHANNELS implies (#[trigger] planar@[c])@ == lengthened(
        before[c]@,
        n as nat,
    ) by {
        assert(planar@[c]@ =~= lengthened(before[c]@, n as nat));
    }
}

/// One call of `fill` on the whole buffer.
fn ask<S, P>(planar: &mut Vec<Vec<i32>>, nf: usize, state: &mut S, fill: &P) where
    P: Fn(&mut S, &mut [Vec<i32>], usize),

    requires
        has_room(old(planar)@, nf as int),
        forall|s: &mut S, p: &mut [Vec<i32>], n: usize|
            has_room((*p)@, n as int) ==> #[trigger] call_requires(*fill, (s, p, n)),
    ensures
        exists|s: &mut S, p: &mut [Vec<i32>]|
            {
                &&& #[trigger] call_ensures(*fill, (s, p, nf), ())
                &&& *s == *old(state)
                &&& (*p)@ == old(planar)@
                &&& *final(s) == *final(state)
                &&& (*final(p))@ == final(planar)@
            },
{
    fill(state, planar.as_mut_slice(), nf)
}

/// The bytes of an OUT transfer, and the lengths of its packets.
pub struct OutTransfer {
    pub data: Vec<u8>,
    pub lens: Vec<u32>,
}

/// Asks `fill` for the frames of every packet that carries any, and packs what it leaves in
/// `planar`.
fn fill_counts<S, P>(
    counts: &[usize],
    planar: &mut Vec<Vec<i32>>,
    state: &mut S,
    fill: &P,
) -> (t: OutTransfer) where P: Fn(&mut S, &mut [Vec<i32>], usize)
    requires
        old(planar)@.len() == CHANNELS,
        forall|k: int| 0 <= k < counts@.len() ==> #[trigger] counts@[k] <= MAX_PACKET_FRAMES,
        forall|s: &mut S, p: &mut [Vec<i32>], n: usize|
            has_room((*p)@, n as int) ==> #[trigger] call_requires(*fill, (s, p, n)),
        forall|s: &mut S, p: &mut [Vec<i32>], n: usize|
            has_room((*p)@, n as int) && #[trigger] call_ensures(*fill, (s, p, n), ())
                ==> has_room((*final(p))@, n as int),
    ensures
        final(planar)@.len() == CHANNELS,
        t.lens@ == packet_lengths(counts@),
        exists|ins: Seq<Seq<Vec<i32>>>, outs: Seq<Seq<Vec<i32>>>, states: Seq<S>|
            {
                &&& #[trigger] passed_on(old(planar)@, ins, outs, counts@, final(planar)@)
                &&& #[trigger] threaded(*old(state), states, *final(state), ins.len())
                &&& skips_empty(states, counts@)
                &&& ins.len() == counts@.len()
                &&& t.data@ == transfer_bytes(outs, counts@)
                &&& forall|k: int| #[trigger]
                    made(ins, k) ==> counts@[k] > 0 ==> exists|
                        s: &mut S,
                        p: &mut [Vec<i32>],
                        n: usize,
                    |
                        {
                            &&& #[trigger] call_ensures(*fill, (s, p, n), ())
                            &&& filled(
                                ins,
                                outs,
                                states,
                                counts@,
                                k,
                                *s,
                                (*p)@,
                                n,
                                *final(s),
                                (*final(p))@,
                            )
                        }
            },
{
    let ghost first = planar@;
    let ghost mut ins: Seq<Seq<Vec<i32>>> = Seq::empty();
    let ghost mut outs: Seq<Seq<Vec<i32>>> = Seq::empty();
    let ghost mut states: Seq<S> = seq![*state];
    let mut data: Vec<u8> = Vec::new();
    let mut lens: Vec<u32> = Vec::with_capacity(counts.len());
    let mut k: usize = 0;
    while k < counts.len()
        invariant
            k <= counts@.len(),
            first == old(planar)@,
            planar@.len() == CHANNELS,
            forall|i: int| 0 <= i < counts@.len() ==> #[trigger] counts@[i] <= MAX_PACKET_FRAMES,
            forall|s: &mut S, p: &mut [Vec<i32>], n: usize|
                has_room((*p)@, n as int) ==> #[trigger] call_requires(*fill, (s, p, n)),
            forall|s: &mut S, p: &mut [Vec<i32>], n: usize|
                has_room((*p)@, n as int) && #[trigger] call_ensures(*fill, (s, p, n), ())
                    ==> has_room((*final(p))@, n as int),
            ins.len() == k,
            passed_on(first, ins, outs, counts@, planar@),
            threaded(*old(state), states, *state, ins.len()),
            skips_empty(states, counts@),
            forall|i: int| #[trigger]
                made(ins, i) ==> counts@[i] > 0 ==> exists|s: &mut S, p: &mut [Vec<i32>], n: usize|
                    {
                        &&& #[trigger] call_ensures(*fill, (s, p, n), ())
                        &&& filled(
                            ins,
                            outs,
                            states,
                            counts@,
                            i,
                            *s,
                            (*p)@,
                            n,
                            *final(s),
                            (*final(p))@,
                        )
                    },
            data@ == transfer_bytes(outs, counts@),
            lens@ == packet_lengths(counts@).take(k as int),
        decreases counts@.len() - k,
    {
        let nf: usize = counts[k];
        assert(counts@[k as int] <= MAX_PACKET_FRAMES);
        let ghost before = planar@;
        let ghost ins_before = ins;
        let ghost outs_before = outs;
        let ghost states_before = states;
        if nf > 0 {
            lengthen(planar, nf);
            let ghost given = planar@;
            ask(planar, nf, state, fill);
            proof {
                ins = ins.push(given);
                outs = outs.push(planar@);
            }
            pack_frames(&mut data, planar.as_slice(), nf);
        } else {
            proof {
                ins = ins.push(planar@);
                outs = outs.push(planar@);
                assert(packed(planar@, 0) =~= Seq::empty());
            }
        }
        lens.push((nf * FRAME_BYTES) as u32);
        proof {
            states = states.push(*state);
            assert(forall|i: int| 0 <= i <= k ==> states[i] == states_before[i]);
            assert(threaded(*old(state), states, *state, ins.len()));
            assert forall|i: int| 0 <= i < states.len() - 1 && counts@[i] == 0 implies
                #[trigger] states[i + 1] == states[i] by {
                if i < k {
                    assert(states_before[i + 1] == states_before[i]);
                }
            }
            assert(outs.drop_last() =~= outs_before);
            assert forall|i: int| 0 <= i < ins.len() implies passed(
                found(first, outs, i),
                #[trigger] ins[i],
                outs[i],
                counts@[i] as nat,
            ) by {
                assert(found(first, outs, i) == found(first, outs_before, i));
                if i < k {
                    assert(ins[i] == ins_before[i] && outs[i] == outs_before[i]);
                } else {
                    assert(found(first, outs, i) == before);
                }
            }
            assert(passed_on(first, ins, outs, counts@, planar@));
            assert forall|i: int| #[trigger] made(ins, i) implies i == k || made(
                ins_before,
                i,
            ) by {}
            assert(packet_lengths(counts@).take(k + 1) =~= packet_lengths(counts@).take(
                k as int,
            ).push((nf * FRAME_BYTES) as u32));
        }
        k = k + 1;
    }
    assert(packet_lengths(counts@).take(k as int) =~= packet_lengths(counts@));
    OutTransfer { data, lens }
}

// ------------------------------ the running stream ---------------------------

/// The direction of a transfer.
#[derive(Debug, Clone, Copy, PartialEq, Eq, Structural)]
pub enum Direction {
    In,
    Out,
}

/// What whoever runs the stream does next.
#[derive(Debug, Clone, Copy, PartialEq, Eq, Structural)]
pub enum RunStep {
    /// Prepare a transfer and submit it.
    Submit(Direction),
    /// Handle events, in which transfers come back.
    Events,
    /// Cancel every transfer that was submitted.
    Cancel,
    /// Free the transfers: the stream has ended.
    Finish,
}

/// What a running stream knows, apart from its sample buffers.
#[verifier::ext_equal]
pub struct AudioView {
    /// Transfers are resubmitted when they complete.
    pub running: bool,
    /// Transfers that libusb holds.
    pub in_flight: nat,
    /// Transfers that were submitted at the start.
    pub primed: nat,
    /// A transfer could not be submitted at the start.
    pub failed: bool,
    /// The nominal rate.
    pub rate: u32,
    /// The pacing accumulator.
    pub phase: u32,
    /// Frame counts of capture transfers that wait for an OUT transfer, oldest first.
    pub fb: Seq<Seq<u8>>,
}

impl AudioView {
    /// The state before anything is submitted.
    pub open spec fn fresh(rate: u32) -> AudioView {
        AudioView {
            running: true,
            in_flight: 0,
            primed: 0,
            failed: false,
            rate,
            phase: 0,
            fb: Seq::empty(),
        }
    }

    /// One transfer less is in flight.
    pub open spec fn retired(self) -> AudioView {
        AudioView { in_flight: (self.in_flight - 1) as nat, ..self }
    }

    /// A transfer at the start was submitted, or could not be.
    pub open spec fn primed_with(self, rc: i32) -> AudioView {
        if rc == 0 {
            AudioView { in_flight: self.in_flight + 1, primed: self.primed + 1, ..self }
        } else {
            AudioView { failed: true, ..self }
        }
    }

    /// Frame counts of the next OUT transfer.
    pub open spec fn due(self) -> Seq<usize> {
        out_counts(self.rate, self.phase, self.fb)
    }

    /// An OUT transfer was built.
    pub open spec fn built(self) -> AudioView {
        AudioView {
            phase: out_phase(self.rate, self.phase, self.fb) as u32,
            fb: shortened(self.fb),
            ..self
        }
    }

    /// Whether a transfer that came back with this status is given up.
    pub open spec fn gives_up(self, status: i32) -> bool {
        !self.running || status == cancelled()
    }

    /// The frame counts of a capture transfer joined the queue, where it had frames and the
    /// queue had room.
    pub open spec fn fed(self, packets: Seq<PacketView>) -> AudioView {
        if captured(packets).len() > 0 && self.fb.len() < FEEDBACK_MAX {
            AudioView { fb: self.fb.push(counts_of(packets)), ..self }
        } else {
            self
        }
    }

    /// What to do next: transfers are submitted first, those of the capture direction before
    /// the others.
    pub open spec fn step(self, stop: bool) -> RunStep {
        if self.running {
            if !self.failed && self.primed < NUM {
                RunStep::Submit(Direction::In)
            } else if !self.failed && self.primed < 2 * NUM {
                RunStep::Submit(Direction::Out)
            } else if !self.failed && !stop && self.in_flight > 0 {
                RunStep::Events
            } else {
                RunStep::Cancel
            }
        } else if self.in_flight > 0 {
            RunStep::Events
        } else {
            RunStep::Finish
        }
    }
}

/// The state of a full-duplex stream.
pub struct AudioState {
    running: bool,
    in_flight: usize,
    primed: usize,
    failed: bool,
    rate: u32,
    phase: u32,
    fb: VecDeque<Counts>,
    cap_planar: Vec<Vec<i32>>,
    play_planar: Vec<Vec<i32>>,
}

impl View for AudioState {
    type V = AudioView;

    closed spec fn view(&self) -> AudioView {
        AudioView {
            running: self.running,
            in_flight: self.in_flight as nat,
            primed: self.primed as nat,
            failed: self.failed,
            rate: self.rate,
            phase: self.phase,
            fb: backlog(self.fb@),
        }
    }
}

impl AudioState {
    /// The buffer that the capture callback is handed.
    pub closed spec fn captured_planar(&self) -> Seq<Vec<i32>> {
        self.cap_planar@
    }

    /// The buffer that the playback callback fills.
    pub closed spec fn planar(&self) -> Seq<Vec<i32>> {
        self.play_planar@
    }

    /// No more transfers are in flight than were submitted at the start, the feedback
    /// backlog is bounded, and every entry of it fits a transfer.
    pub open spec fn wf(&self) -> bool {
        &&& self@.in_flight <= self@.primed <= 2 * NUM
        &&& can_pace(self@.rate, self@.phase)
        &&& self@.fb.len() <= FEEDBACK_MAX
        &&& backlog_fits(self@.fb)
        &&& self.captured_planar().len() == CHANNELS
        &&& self.planar().len() == CHANNELS
    }

    /// A stream at this nominal rate, with nothing submitted yet.
    pub fn new(rate: u32) -> (s: AudioState)
        requires
            can_pace(rate, 0),
        ensures
            s.wf(),
            s@ == AudioView::fresh(rate),
            unfilled(s.planar()),
            unfilled(s.captured_planar()),
    {
        let s: AudioState = AudioState {
            running: true,
            in_flight: 0,
            primed: 0,
            failed: false,
            rate,
            phase: 0,
            fb: VecDeque::new(),
            cap_planar: empty_planar(),
            play_planar: empty_planar(),
        };
        assert(s@.fb =~= Seq::empty());
        s
    }

    // -------------------------------- the start ------------------------------

    /// Takes what submitting a transfer at the start returned.
    pub fn submitted(&mut self, rc: i32)
        requires
            old(self).wf(),
            old(self)@.primed < 2 * NUM,
        ensures
            final(self).wf(),
            final(self)@ == old(self)@.primed_with(rc),
            final(self).planar() == old(self).planar(),
            final(self).captured_planar() == old(self).captured_planar(),
    {
        if rc == 0 {
            self.in_flight = self.in_flight + 1;
            self.primed = self.primed + 1;
        } else {
            self.failed = true;
        }
    }

    // -------------------------------- the run --------------------------------

    /// What to do next; `stop` says whether the caller wants the stream to end. Transfers are
    /// submitted, then events are handled until the stream is to end, the pool has run empty
    /// or the start has failed; then everything is cancelled, and events are handled until
    /// libusb holds no transfer any more.
    pub fn next_step(&mut self, stop: bool) -> (step: RunStep)
        ensures
            step == old(self)@.step(stop),
            final(self)@ == if step is Cancel {
                AudioView { running: false, ..old(self)@ }
            } else {
                old(self)@
            },
            final(self).planar() == old(self).planar(),
            final(self).captured_planar() == old(self).captured_planar(),
    {
        if self.running {
            if !self.failed && self.primed < NUM {
                RunStep::Submit(Direction::In)
            } else if !self.failed && self.primed < 2 * NUM {
                RunStep::Submit(Direction::Out)
            } else if !self.failed && !stop && self.in_flight > 0 {
                RunStep::Events
            } else {
                self.running = false;
                RunStep::Cancel
            }
        } else if self.in_flight > 0 {
            RunStep::Events
        } else {
            RunStep::Finish
        }
    }

    /// Takes a capture transfer that came back. Its frames go to `on_cap` in one call, with its
    /// own state, and its frame counts to the feedback queue; without a frame there is no call.
    /// Returns whether to resubmit it.
    pub fn on_capture<S, C>(
        &mut self,
        status: i32,
        buf: &[u8],
        descs: &[PacketDesc],
        state: &mut S,
        on_cap: &C,
    ) -> (again: bool) where C: Fn(&mut S, &[Vec<i32>], usize)
        requires
            old(self).wf(),
            old(self)@.in_flight > 0,
            slots_fit(buf@.len(), descs@),
            forall|s: &mut S, p: &[Vec<i32>], n: usize|
                has_room(p@, n as int) ==> #[trigger] call_requires(*on_cap, (s, p, n)),
        ensures
            final(self).wf(),
            final(self).planar() == old(self).planar(),
            again == !old(self)@.gives_up(status),
            !again ==> {
                &&& *final(state) == *old(state)
                &&& final(self)@ == old(self)@.retired()
                &&& final(self).captured_planar() == old(self).captured_planar()
            },
            again ==> {
                let packets = slots(buf@, descs@);
                &&& final(self)@ == old(self)@.fed(packets)
                &&& captured(packets).len() == 0 ==> {
                    &&& *final(state) == *old(state)
                    &&& final(self).captured_planar() == old(self).captured_planar()
                }
                &&& holds(final(self).captured_planar(), captured(packets))
                &&& overwritten(
                    old(self).captured_planar(),
                    final(self).captured_planar(),
                    captured(packets).len() as int,
                )
                &&& captured(packets).len() > 0 ==> exists|s: &mut S, p: &[Vec<i32>], n: usize|
                    {
                        &&& #[trigger] call_ensures(*on_cap, (s, p, n), ())
                        &&& handed(
                            p@,
                            n,
                            final(self).captured_planar(),
                            captured(packets).len(),
                        )
                        &&& moved(*s, *final(s), *old(state), *final(state))
                    }
            },
    {
        if !self.running || is_cancelled(status) {
            self.in_flight = self.in_flight - 1;
            return false;
        }
        let (sizes, total) = count_frames(buf, descs);
        let ghost packets = slots(buf@, descs@);
        if total > 0 {
            decode_slots(&mut self.cap_planar, buf, descs, total);
            on_cap(state, self.cap_planar.as_slice(), total);
            let ghost before = self@.fb;
            if self.fb.len() < FEEDBACK_MAX {
                self.fb.push_back(sizes);
                proof {
                    lemma_counts_fit(buf@, descs@);
                    assert(self@.fb =~= before.push(sizes@));
                }
            }
        } else {
            assert(captured(packets) =~= Seq::empty());
        }
        true
    }

    /// Builds one OUT transfer from what `fill`, which is handed its own state, supplies: it is
    /// asked once for each packet that carries a frame. The transfer is never empty.
    pub fn build_out<S, P>(&mut self, state: &mut S, fill: &P) -> (t: OutTransfer) where
        P: Fn(&mut S, &mut [Vec<i32>], usize),

        requires
            old(self).wf(),
            forall|s: &mut S, p: &mut [Vec<i32>], n: usize|
                has_room((*p)@, n as int) ==> #[trigger] call_requires(*fill, (s, p, n)),
            forall|s: &mut S, p: &mut [Vec<i32>], n: usize|
                has_room((*p)@, n as int) && #[trigger] call_ensures(*fill, (s, p, n), ())
                    ==> has_room((*final(p))@, n as int),
        ensures
            final(self).wf(),
            final(self)@ == old(self)@.built(),
            final(self).captured_planar() == old(self).captured_planar(),
            t.lens@ == packet_lengths(old(self)@.due()),
            exists|ins: Seq<Seq<Vec<i32>>>, outs: Seq<Seq<Vec<i32>>>, states: Seq<S>|
                {
                    &&& #[trigger] passed_on(
                        old(self).planar(),
                        ins,
                        outs,
                        old(self)@.due(),
                        final(self).planar(),
                    )
                    &&& #[trigger] threaded(*old(state), states, *final(state), ins.len())
                    &&& skips_empty(states, old(self)@.due())
                    &&& ins.len() == ISO_PKTS
                    &&& t.data@ == transfer_bytes(outs, old(self)@.due())
                    &&& forall|k: int| #[trigger]
                        made(ins, k) ==> old(self)@.due()[k] > 0 ==> exists|
                            s: &mut S,
                            p: &mut [Vec<i32>],
                            n: usize,
                        |
                            {
                                &&& #[trigger] call_ensures(*fill, (s, p, n), ())
                                &&& filled(
                                    ins,
                                    outs,
                                    states,
                                    old(self)@.due(),
                                    k,
                                    *s,
                                    (*p)@,
                                    n,
                                    *final(s),
                                    (*final(p))@,
                                )
                            }
                },
    {
        let counts: Vec<usize> = take_counts(self.rate, &mut self.phase, &mut self.fb);
        let t: OutTransfer = fill_counts(counts.as_slice(), &mut self.play_planar, state, fill);
        proof {
            assert(self.planar().len() == CHANNELS);
            assert(counts@ == old(self)@.due());
            assert(self@.fb =~= shortened(old(self)@.fb));
        }
        t
    }

    /// Takes a playback transfer that came back: the transfer to fill it with and resubmit,
    /// or `None` where it is given up.
    pub fn on_playback<S, P>(&mut self, status: i32, state: &mut S, fill: &P) -> (r: Option<
        OutTransfer,
    >) where
        P: Fn(&mut S, &mut [Vec<i32>], usize),

        requires
            old(self).wf(),
            old(self)@.in_flight > 0,
            forall|s: &mut S, p: &mut [Vec<i32>], n: usize|
                has_room((*p)@, n as int) ==> #[trigger] call_requires(*fill, (s, p, n)),
            forall|s: &mut S, p: &mut [Vec<i32>], n: usize|
                has_room((*p)@, n as int) && #[trigger] call_ensures(*fill, (s, p, n), ())
                    ==> has_room((*final(p))@, n as int),
        ensures
            final(self).wf(),
            final(self).captured_planar() == old(self).captured_planar(),
            r is None <==> old(self)@.gives_up(status),
            r is None ==> {
                &&& *final(state) == *old(state)
                &&& final(self)@ == old(self)@.retired()
                &&& final(self).planar() == old(self).planar()
            },
            r is Some ==> final(self)@ == old(self)@.built(),
            r is Some ==> r->0.lens@ == packet_lengths(old(self)@.due()),
            r is Some ==> exists|ins: Seq<Seq<Vec<i32>>>, outs: Seq<Seq<Vec<i32>>>, states: Seq<S>|
                {
                    &&& #[trigger] passed_on(
                        old(self).planar(),
                        ins,
                        outs,
                        old(self)@.due(),
                        final(self).planar(),
                    )
                    &&& #[trigger] threaded(*old(state), states, *final(state), ins.len())
                    &&& skips_empty(states, old(self)@.due())
                    &&& ins.len() == ISO_PKTS
                    &&& r->0.data@ == transfer_bytes(outs, old(self)@.due())
                    &&& forall|k: int| #[trigger]
                        made(ins, k) ==> old(self)@.due()[k] > 0 ==> exists|
                            s: &mut S,
                            p: &mut [Vec<i32>],
                            n: usize,
                        |
                            {
                                &&& #[trigger] call_ensures(*fill, (s, p, n), ())
                                &&& filled(
                                    ins,
                                    outs,
                                    states,
                                    old(self)@.due(),
                                    k,
                                    *s,
                                    (*p)@,
                                    n,
                                    *final(s),
                                    (*final(p))@,
                                )
                            }
                },
    {
        if !self.running || is_cancelled(status) {
            self.in_flight = self.in_flight - 1;
            return None;
        }
        Some(self.build_out(state, fill))
    }

    /// Takes whether a transfer could be resubmitted.
    pub fn resubmitted(&mut self, ok: bool)
        requires
            old(self).wf(),
            old(self)@.in_flight > 0,
        ensures
            final(self).wf(),
            final(self)@ == if ok {
                old(self)@
            } else {
                old(self)@.retired()
            },
            final(self).planar() == old(self).planar(),
            final(self).captured_planar() == old(self).captured_planar(),
    {
        if !ok {
            self.in_flight = self.in_flight - 1;
        }
    }

    // -------------------------------- the end --------------------------------

    /// How the stream ended.
    pub fn outcome(&self) -> (r: Result<(), Error>)
        ensures
            r is Ok <==> !self@.failed,
            r is Err ==> fails(r, ErrorView::Transport("iso submit failed at startup"@)),
    {
        if self.failed {
            Err(Error::Transport("iso submit failed at startup".to_string()))
        } else {
            Ok(())
        }
    }
}

/// Submits a transfer, and tries again where that fails, `RESUBMIT_TRIES` times in all.
/// `submit` is handed its own state, and returns 0 where it succeeds.
pub fn resubmit<S, F>(state: &mut S, submit: &F) -> (ok: bool) where F: Fn(&mut S) -> i32
    requires
        forall|s: &mut S| #[trigger] call_requires(*submit, (s,)),
    ensures
        exists|rcs: Seq<i32>, states: Seq<S>|
            {
                &&& #[trigger] tried(rcs, ok)
                &&& #[trigger] threaded(*old(state), states, *final(state), rcs.len())
                &&& forall|k: int| #[trigger]
                    has_try(rcs, k) ==> exists|s: &mut S, rc: i32|
                        {
                            &&& #[trigger] call_ensures(*submit, (s,), rc)
                            &&& is_try(rcs, states, k, *s, rc, *final(s))
                        }
            },
{
    let ghost mut rcs: Seq<i32> = Seq::empty();
    let ghost mut states: Seq<S> = seq![*state];
    let mut tries: u32 = 0;
    while tries < RESUBMIT_TRIES
        invariant
            tries <= RESUBMIT_TRIES,
            forall|s: &mut S| #[trigger] call_requires(*submit, (s,)),
            rcs.len() == tries,
            forall|k: int| 0 <= k < rcs.len() ==> rcs[k] != 0,
            threaded(*old(state), states, *state, rcs.len()),
            forall|k: int| #[trigger]
                has_try(rcs, k) ==> exists|s: &mut S, rc: i32|
                    {
                        &&& #[trigger] call_ensures(*submit, (s,), rc)
                        &&& is_try(rcs, states, k, *s, rc, *final(s))
                    },
        decreases RESUBMIT_TRIES - tries,
    {
        let ghost rcs_before = rcs;
        let ghost states_before = states;
        let rc: i32 = submit(state);
        proof {
            rcs = rcs.push(rc);
            states = states.push(*state);
            assert(forall|i: int| 0 <= i <= tries ==> states[i] == states_before[i]);
            assert(threaded(*old(state), states, *state, rcs.len()));
            assert forall|i: int| #[trigger] has_try(rcs, i) implies i == tries || has_try(
                rcs_before,
                i,
            ) by {}
        }
        if rc == 0 {
            assert(tried(rcs, true));
            return true;
        }
        tries = tries + 1;
    }
    assert(tried(rcs, false));
    false
}

/// There was a try `k`.
pub open spec fn has_try(rcs: Seq<i32>, k: int) -> bool {
    0 <= k < rcs.len()
}

/// Try `k` found the state `state`, returned `rc` and left the state `left`.
pub open spec fn is_try<S>(
    rcs: Seq<i32>,
    states: Seq<S>,
    k: int,
    state: S,
    rc: i32,
    left: S,
) -> bool {
    &&& state == states[k]
    &&& rc == rcs[k]
    &&& left == states[k + 1]
}

/// The results of the tries to submit a transfer: it succeeded with the last one, or none of
/// as many as are allowed did.
pub open spec fn tried(rcs: Seq<i32>, ok: bool) -> bool {
    &&& rcs.len() <= RESUBMIT_TRIES
    &&& has_try(rcs, rcs.len() - 1)
    &&& forall|k: int| 0 <= k < rcs.len() - 1 ==> rcs[k] != 0
    &&& ok <==> rcs.last() == 0
    &&& !ok ==> rcs.len() == RESUBMIT_TRIES
}

// ------------------------------- the device ---------------------------------

/// The two reports that configure the device before it streams: the sample clock is set, and
/// output routing, which is off after power-up, is enabled.
pub fn config_reports(hz: u32) -> (r: Result<
    ([u8; HID_REPORT_LEN], [u8; HID_REPORT_LEN]),
    Error,
>)
    ensures
        r is Ok <==> supported_rate(hz),
        r is Ok ==> {
            &&& r->Ok_0.0@ == report_of(CMD_SET_RATE, 1, be_bytes(hz as int))
            &&& r->Ok_0.1@ == report_of(CMD_SET_CONTROLS, 2, seq![8u8, 1u8, 1u8])
        },
        r is Err ==> fails(r, ErrorView::Param(bad_rate_text(hz))),
{
    let be: [u8; 2] = match encode_rate(hz) {
        Ok(be) => be,
        Err(e) => return Err(e),
    };
    let on: [u8; 1] = [1u8];
    let controls: Vec<u8> = match encode_set_controls(8, &on) {
        Ok(controls) => controls,
        Err(e) => return Err(e),
    };
    assert(controls@ =~= seq![8u8, 1u8, 1u8]);
    match (
        build_report(CMD_SET_RATE, 1, &be),
        build_report(CMD_SET_CONTROLS, 2, controls.as_slice()),
    ) {
        (Ok(rate), Ok(routing)) => Ok((rate, routing)),
        (Err(e), _) => Err(e),
        (_, Err(e)) => Err(e),
    }
}

/// How long a configuration report or its reply may take, in milliseconds.
pub const CONFIG_TIMEOUT_MS: u64 = 250;

/// Where the configuration of the device stands: what is done next.
#[derive(Debug, Clone, Copy, PartialEq, Eq, Structural)]
pub enum ConfigStage {
    /// The control interface is claimed.
    Claim,
    /// The sample rate is sent.
    Rate,
    /// The reply to it is read.
    RateReply,
    /// Output routing is sent.
    Routing,
    /// The reply to it is read.
    RoutingReply,
    /// The control interface is released.
    Release,
    /// Nothing is left to do.
    Done,
}

/// One step of the configuration.
pub enum ConfigStep {
    /// Claim this interface.
    Claim(u8),
    /// Write this report to the endpoint.
    Write { endpoint: u8, report: [u8; HID_REPORT_LEN], timeout_ms: u64 },
    /// Read a reply from the endpoint, and forget it.
    Drain { endpoint: u8, len: usize, timeout_ms: u64 },
    /// Release this interface.
    Release(u8),
    /// The configuration has ended.
    Done,
}

/// The configuration of the device, as a mathematical value.
#[verifier::ext_equal]
pub struct ConfigView {
    /// The sample rate to set.
    pub hz: u32,
    /// What is done next.
    pub stage: ConfigStage,
    /// What failed.
    pub error: Option<ErrorView>,
}

impl ConfigView {
    /// The configuration at its start.
    pub open spec fn fresh(hz: u32) -> ConfigView {
        ConfigView { hz, stage: ConfigStage::Claim, error: None }
    }

    /// The configuration goes on.
    pub open spec fn at(self, stage: ConfigStage) -> ConfigView {
        ConfigView { stage, ..self }
    }

    /// The configuration goes on to `stage` with an error.
    pub open spec fn failing(self, e: ErrorView, stage: ConfigStage) -> ConfigView {
        ConfigView { hz: self.hz, stage, error: Some(e) }
    }

    /// The configuration after its step was done, or failed: without the interface there is
    /// nothing to do; a report that cannot be sent ends the configuration; a reply that does
    /// not come, and a release that fails, do not matter.
    pub open spec fn advanced(self, failed: Option<UsbError>) -> ConfigView {
        match self.stage {
            ConfigStage::Claim => match failed {
                Some(e) => self.failing(ErrorView::Access(e), ConfigStage::Done),
                None => if supported_rate(self.hz) {
                    self.at(ConfigStage::Rate)
                } else {
                    self.failing(ErrorView::Param(bad_rate_text(self.hz)), ConfigStage::Release)
                },
            },
            ConfigStage::Rate => match failed {
                Some(e) => self.failing(ErrorView::Io(e), ConfigStage::Release),
                None => self.at(ConfigStage::RateReply),
            },
            ConfigStage::RateReply => self.at(ConfigStage::Routing),
            ConfigStage::Routing => match failed {
                Some(e) => self.failing(ErrorView::Io(e), ConfigStage::Release),
                None => self.at(ConfigStage::RoutingReply),
            },
            ConfigStage::RoutingReply => self.at(ConfigStage::Release),
            ConfigStage::Release => self.at(ConfigStage::Done),
            ConfigStage::Done => self,
        }
    }

    /// `step` is what to do at this stage.
    pub open spec fn asks(self, step: ConfigStep) -> bool {
        match self.stage {
            ConfigStage::Claim => step == ConfigStep::Claim(IF_HID),
            ConfigStage::Rate => writes(
                step,
                report_of(CMD_SET_RATE, 1, be_bytes(self.hz as int)),
            ),
            ConfigStage::Routing => writes(
                step,
                report_of(CMD_SET_CONTROLS, 2, seq![8u8, 1u8, 1u8]),
            ),
            ConfigStage::RateReply | ConfigStage::RoutingReply => step == (ConfigStep::Drain {
                endpoint: EP_HID_IN,
                len: HID_REPORT_LEN,
                timeout_ms: CONFIG_TIMEOUT_MS,
            }),
            ConfigStage::Release => step == ConfigStep::Release(IF_HID),
            ConfigStage::Done => step == ConfigStep::Done,
        }
    }
}

/// The step writes this report.
pub open spec fn writes(step: ConfigStep, report: Seq<u8>) -> bool {
    &&& step is Write
    &&& step->Write_endpoint == EP_HID_OUT
    &&& step->report@ == report
    &&& step->Write_timeout_ms == CONFIG_TIMEOUT_MS
}

/// The configuration of the device over its control interface, which is claimed for this only.
pub struct Configuration {
    hz: u32,
    stage: ConfigStage,
    error: Option<Error>,
}

impl View for Configuration {
    type V = ConfigView;

    closed spec fn view(&self) -> ConfigView {
        ConfigView {
            hz: self.hz,
            stage: self.stage,
            error: match self.error {
                Some(e) => Some(e@),
                None => None,
            },
        }
    }
}

impl Configuration {
    /// Reports are sent only for a rate that the device has.
    pub open spec fn wf(&self) -> bool {
        self@.stage is Rate || self@.stage is RateReply || self@.stage is Routing
            || self@.stage is RoutingReply ==> supported_rate(self@.hz)
    }

    /// The configuration for this sample rate.
    pub fn new(hz: u32) -> (c: Configuration)
        ensures
            c.wf(),
            c@ == ConfigView::fresh(hz),
    {
        Configuration { hz, stage: ConfigStage::Claim, error: None }
    }

    /// What to do next.
    pub fn step(&self) -> (step: ConfigStep)
        requires
            self.wf(),
        ensures
            self@.asks(step),
    {
        match self.stage {
            ConfigStage::Claim => ConfigStep::Claim(IF_HID),
            ConfigStage::Rate => match config_reports(self.hz) {
                Ok((report, _)) => ConfigStep::Write {
                    endpoint: EP_HID_OUT,
                    report,
                    timeout_ms: CONFIG_TIMEOUT_MS,
                },
                Err(_) => ConfigStep::Done,
            },
            ConfigStage::Routing => match config_reports(self.hz) {
                Ok((_, report)) => ConfigStep::Write {
                    endpoint: EP_HID_OUT,
                    report,
                    timeout_ms: CONFIG_TIMEOUT_MS,
                },
                Err(_) => ConfigStep::Done,
            },
            ConfigStage::RateReply | ConfigStage::RoutingReply => ConfigStep::Drain {
                endpoint: EP_HID_IN,
                len: HID_REPORT_LEN,
                timeout_ms: CONFIG_TIMEOUT_MS,
            },
            ConfigStage::Release => ConfigStep::Release(IF_HID),
            ConfigStage::Done => ConfigStep::Done,
        }
    }

    /// Takes how the step went: `failed` is its error, where it failed.
    pub fn advance(&mut self, failed: Option<UsbError>)
        requires
            old(self).wf(),
        ensures
            final(self).wf(),
            final(self)@ == old(self)@.advanced(failed),
    {
        match self.stage {
            ConfigStage::Claim => match failed {
                Some(e) => {
                    self.error = Some(Error::Access(e));
                    self.stage = ConfigStage::Done;
                },
                None => match config_reports(self.hz) {
                    Ok(_) => {
                        self.stage = ConfigStage::Rate;
                    },
                    Err(e) => {
                        self.error = Some(e);
                        self.stage = ConfigStage::Release;
                    },
                },
            },
            ConfigStage::Rate => match failed {
                Some(e) => {
                    self.error = Some(Error::Io(e));
                    self.stage = ConfigStage::Release;
                },
                None => {
                    self.stage = ConfigStage::RateReply;
                },
            },
            ConfigStage::RateReply => {
                self.stage = ConfigStage::Routing;
            },
            ConfigStage::Routing => match failed {
                Some(e) => {
                    self.error = Some(Error::Io(e));
                    self.stage = ConfigStage::Release;
                },
                None => {
                    self.stage = ConfigStage::RoutingReply;
                },
            },
            ConfigStage::RoutingReply => {
                self.stage = ConfigStage::Release;
            },
            ConfigStage::Release => {
                self.stage = ConfigStage::Done;
            },
            ConfigStage::Done => {},
        }
    }

    /// How the configuration ended.
    pub fn outcome(self) -> (r: Result<(), Error>)
        ensures
            match self@.error {
                Some(e) => fails(r, e),
                None => r is Ok,
            },
    {
        match self.error {
            Some(e) => Err(e),
            None => Ok(()),
        }
    }
}

/// One thing to do around a run of the stream.
#[derive(Debug, Clone, Copy, PartialEq, Eq, Structural)]
pub enum RunAction {
    /// Configure the device.
    Configure,
    /// Select an alternate setting.
    SelectAlt { iface: u8, alt: u8 },
    /// Give the calling thread a real-time priority.
    RealTime,
}

/// What is done before the first transfer, in order. The device is configured before the
/// isochronous endpoints go live.
pub open spec fn start_actions() -> Seq<RunAction> {
    seq![
        RunAction::Configure,
        RunAction::SelectAlt { iface: IF_CAPTURE, alt: 1 },
        RunAction::SelectAlt { iface: IF_PLAYBACK, alt: 1 },
        RunAction::RealTime,
    ]
}

/// What is done when the stream has finished, in order; it does not matter whether it
/// succeeds.
pub open spec fn end_actions() -> Seq<RunAction> {
    seq![
        RunAction::SelectAlt { iface: IF_CAPTURE, alt: 0 },
        RunAction::SelectAlt { iface: IF_PLAYBACK, alt: 0 },
    ]
}

/// What to do before the first transfer, in order.
pub fn start_plan() -> (plan: Vec<RunAction>)
    ensures
        plan@ == start_actions(),
{
    vec![
        RunAction::Configure,
        RunAction::SelectAlt { iface: IF_CAPTURE, alt: 1 },
        RunAction::SelectAlt { iface: IF_PLAYBACK, alt: 1 },
        RunAction::RealTime,
    ]
}

/// What to do when the stream has finished, in order.
pub fn end_plan() -> (plan: Vec<RunAction>)
    ensures
        plan@ == end_actions(),
{
    vec![
        RunAction::SelectAlt { iface: IF_CAPTURE, alt: 0 },
        RunAction::SelectAlt { iface: IF_PLAYBACK, alt: 0 },
    ]
}

/// The error with which a run ends when an action at its start fails: a device that could not
/// be configured is streamed to all the same.
pub fn start_failure(action: RunAction, e: Error) -> (r: Option<Error>)
    ensures
        r == if action is SelectAlt {
            Some(e)
        } else {
            None::<Error>
        },
{
    match action {
        RunAction::SelectAlt { .. } => Some(e),
        _ => None,
    }
}

/// A device on the bus, as enumeration shows it.
#[derive(Debug, Clone, Copy)]
pub struct Attached {
    pub bus: u8,
    pub address: u8,
    /// Vendor and product id, where the descriptor could be read.
    pub ids: Option<(u16, u16)>,
}

/// Whether `d` is the SL 3 at this bus address.
pub open spec fn is_ours(d: Attached, bus: u8, address: u8) -> bool {
    d.bus == bus && d.address == address && d.ids == Some((VID, PID))
}

/// Whether the device that was opened at this bus address is still attached, given the
/// devices on the bus. Where they cannot be listed it counts as attached.
pub fn is_present(listed: Option<&[Attached]>, bus: u8, address: u8) -> (r: bool)
    ensures
        listed is None ==> r,
        listed is Some ==> r == exists|i: int|
            0 <= i < listed->0@.len() && is_ours(#[trigger] listed->0@[i], bus, address),
{
    let list: &[Attached] = match listed {
        Some(list) => list,
        None => return true,
    };
    let mut i: usize = 0;
    while i < list.len()
        invariant
            i <= list@.len(),
            listed == Some(list),
            forall|k: int| 0 <= k < i ==> !is_ours(#[trigger] list@[k], bus, address),
        decreases list@.len() - i,
    {
        let d: Attached = list[i];
        if d.bus == bus && d.address == address {
            match d.ids {
                Some((vid, pid)) => {
                    if vid == VID && pid == PID {
                        assert(is_ours(listed->0@[i as int], bus, address));
                        return true;
                    }
                },
                None => {},
            }
        }
        i = i + 1;
    }
    false
}

// ----------------------------------- laws -----------------------------------

/// The control interface is given back: the configuration ends only by releasing it, or where
/// it could not be claimed.
pub proof fn law_configuration_releases(c: ConfigView, failed: Option<UsbError>)
    requires
        c.stage !is Done,
        c.advanced(failed).stage is Done,
    ensures
        c.stage is Release || (c.stage is Claim && failed is Some),
{
}

/// Every configuration report that goes out is followed by reading its reply, and output
/// routing is sent only after the rate and its reply.
pub proof fn law_configuration_drains(c: ConfigView, failed: Option<UsbError>)
    ensures
        c.stage is Rate && failed is None ==> c.advanced(failed).stage is RateReply,
        c.stage is Routing && failed is None ==> c.advanced(failed).stage is RoutingReply,
        c.advanced(failed).stage is Routing ==> c.stage is RateReply,
        c.advanced(failed).stage is RateReply ==> c.stage is Rate && failed is None,
{
}

/// The end of a run makes idle every interface that its start brought up.
pub proof fn law_end_undoes_start(i: int)
    requires
        0 <= i < start_actions().len(),
        start_actions()[i] is SelectAlt,
    ensures
        end_actions().contains(
            RunAction::SelectAlt { iface: start_actions()[i]->iface, alt: 0 },
        ),
{
    assert(end_actions()[0] == RunAction::SelectAlt { iface: IF_CAPTURE, alt: 0 });
    assert(end_actions()[1] == RunAction::SelectAlt { iface: IF_PLAYBACK, alt: 0 });
}

/// An OUT transfer is never empty, and always fits its buffer.
pub proof fn law_transfer_size(
    rate: u32,
    phase: u32,
    fb: Seq<Seq<u8>>,
    bufs: Seq<Seq<Vec<i32>>>,
)
    requires
        can_pace(rate, phase),
        backlog_fits(fb),
        bufs.len() == ISO_PKTS,
    ensures
        0 < transfer_bytes(bufs, out_counts(rate, phase, fb)).len() <= BUFFER_LEN,
        BUFFER_LEN == 16 * 126,
        forall|k: int|
            0 <= k < ISO_PKTS ==> #[trigger] packet_lengths(out_counts(rate, phase, fb))[k]
                <= PKT_LEN,
{
    let counts = out_counts(rate, phase, fb);
    let lens = packet_lengths(counts);
    assert(fb.len() > 0 ==> counts_fit(fb[0]));
    assert forall|k: int| 0 <= k < ISO_PKTS implies #[trigger] counts[k] <= MAX_PACKET_FRAMES by {
        if fb.len() > 0 && any_frame(fb[0]) {
            assert(fb[0][k] <= MAX_PACKET_FRAMES);
        }
    }
    assert forall|k: int| 0 <= k < ISO_PKTS implies #[trigger] lens[k] <= PKT_LEN by {
        assert(counts[k] <= MAX_PACKET_FRAMES);
    }
    law_transfer_packets(bufs, counts);
    let k: int = if fb.len() > 0 && any_frame(fb[0]) {
        choose|k: int| 0 <= k < fb[0].len() && fb[0][k] > 0
    } else {
        0
    };
    assert(0 <= k < ISO_PKTS && counts[k] > 0);
    assert(lens[k] > 0);
    lemma_offsets_grow(lens, k, k);
    lemma_offsets_grow(lens, k + 1, ISO_PKTS as int);
    lemma_offset_bound(lens, ISO_PKTS as int);
}

/// Packets of at most `PKT_LEN` bytes end within as many slots.
proof fn lemma_offset_bound(lens: Seq<u32>, k: int)
    requires
        0 <= k <= lens.len(),
        forall|i: int| 0 <= i < lens.len() ==> #[trigger] lens[i] <= PKT_LEN,
    ensures
        packet_offset(lens, k) <= k * PKT_LEN,
    decreases k,
{
    if k > 0 {
        lemma_offset_bound(lens, k - 1);
    }
}

/// The device clock drives playback: the OUT transfer that is built from the counts of a
/// capture transfer carries, packet by packet, as many frames as that one brought.
pub proof fn law_playback_follows_capture(
    rate: u32,
    phase: u32,
    fb: Seq<Seq<u8>>,
    buf: Seq<u8>,
    descs: Seq<PacketDesc>,
)
    requires
        slots_fit(buf.len(), descs),
        descs.len() == ISO_PKTS,
        captured(slots(buf, descs)).len() > 0,
        fb.len() > 0,
        fb[0] == counts_of(slots(buf, descs)),
    ensures
        forall|k: int|
            0 <= k < ISO_PKTS ==> #[trigger] out_counts(rate, phase, fb)[k] == packet_frames(
                slots(buf, descs)[k],
            ),
        out_phase(rate, phase, fb) == phase,
{
    let packets = slots(buf, descs);
    lemma_counts_fit(buf, descs);
    lemma_some_packet(packets);
    let k = choose|k: int| 0 <= k < packets.len() && packet_frames(#[trigger] packets[k]) > 0;
    assert forall|i: int| 0 <= i < ISO_PKTS implies counts_of(packets)[i] == packet_frames(
        #[trigger] packets[i],
    ) by {
        assert(descs[i].status == completed() ==> packets[i].data.len() == slot_bytes(descs[i]));
    }
    assert(counts_of(packets)[k] == packet_frames(packets[k]));
    assert(any_frame(fb[0]));
    assert forall|i: int| 0 <= i < ISO_PKTS implies #[trigger] out_counts(rate, phase, fb)[i]
        == packet_frames(packets[i]) by {
        assert(counts_of(packets)[i] == packet_frames(packets[i]));
    }
}

/// What happens to a running stream.
pub enum AudioEvent {
    /// A transfer at the start was submitted, or could not be.
    Submitted(i32),
    /// It was asked for the next step.
    Stepped { stop: bool },
    /// A capture transfer came back.
    Captured { status: i32, packets: Seq<PacketView> },
    /// A playback transfer was built at the start.
    Built,
    /// A playback transfer came back.
    Played { status: i32 },
    /// A transfer was resubmitted, or could not be.
    Resubmitted { ok: bool },
}

impl AudioView {
    /// The state after an event.
    pub open spec fn after(self, event: AudioEvent) -> AudioView {
        match event {
            AudioEvent::Submitted(rc) => self.primed_with(rc),
            AudioEvent::Stepped { stop } => if self.step(stop) is Cancel {
                AudioView { running: false, ..self }
            } else {
                self
            },
            AudioEvent::Captured { status, packets } => if self.gives_up(status) {
                self.retired()
            } else {
                self.fed(packets)
            },
            AudioEvent::Built => self.built(),
            AudioEvent::Played { status } => if self.gives_up(status) {
                self.retired()
            } else {
                self.built()
            },
            AudioEvent::Resubmitted { ok } => if ok {
                self
            } else {
                self.retired()
            },
        }
    }

    /// Whether an event brings frames that playback can follow.
    pub open spec fn hears(self, event: AudioEvent) -> bool {
        match event {
            AudioEvent::Captured { status, packets } => !self.gives_up(status) && captured(
                packets,
            ).len() > 0,
            _ => false,
        }
    }

    /// Whether an event builds a playback transfer.
    pub open spec fn builds(self, event: AudioEvent) -> bool {
        match event {
            AudioEvent::Built => true,
            AudioEvent::Played { status } => !self.gives_up(status),
            _ => false,
        }
    }
}

/// A new stream after these events.
pub open spec fn after_events(rate: u32, events: Seq<AudioEvent>) -> AudioView
    decreases events.len(),
{
    if events.len() == 0 {
        AudioView::fresh(rate)
    } else {
        after_events(rate, events.drop_last()).after(events.last())
    }
}

/// The frame counts that joined the queue: of capture transfers with a frame, that came when
/// fewer than `FEEDBACK_MAX` were unused.
pub open spec fn joined(rate: u32, events: Seq<AudioEvent>) -> Seq<Seq<u8>>
    decreases events.len(),
{
    if events.len() == 0 {
        Seq::empty()
    } else {
        let front = events.drop_last();
        let before = joined(rate, front);
        if after_events(rate, front).hears(events.last()) && before.len() - used(rate, front)
            < FEEDBACK_MAX {
            before.push(counts_of(events.last()->packets))
        } else {
            before
        }
    }
}

/// How many of the frame counts that joined were taken by playback transfers.
pub open spec fn used(rate: u32, events: Seq<AudioEvent>) -> nat
    decreases events.len(),
{
    if events.len() == 0 {
        0
    } else {
        let front = events.drop_last();
        let before = used(rate, front);
        if after_events(rate, front).builds(events.last()) && before < joined(rate, front).len() {
            before + 1
        } else {
            before
        }
    }
}

/// The next playback transfer would have the frame counts of a capture transfer.
pub open spec fn follows(rate: u32, events: Seq<AudioEvent>) -> bool {
    let all = joined(rate, events);
    let u = used(rate, events);
    u < all.len() && any_frame(all[u as int])
}

/// How many playback transfers were paced at the nominal rate.
pub open spec fn unfed(rate: u32, events: Seq<AudioEvent>) -> nat
    decreases events.len(),
{
    if events.len() == 0 {
        0
    } else {
        let front = events.drop_last();
        let before = unfed(rate, front);
        if after_events(rate, front).builds(events.last()) && !follows(rate, front) {
            before + 1
        } else {
            before
        }
    }
}

/// The queue is what joined and was not taken; the accumulator has moved for the transfers
/// that were paced at the nominal rate.
proof fn lemma_after_events(rate: u32, events: Seq<AudioEvent>)
    ensures
        used(rate, events) <= joined(rate, events).len() <= used(rate, events) + FEEDBACK_MAX,
        after_events(rate, events).rate == rate,
        after_events(rate, events).fb == joined(rate, events).skip(used(rate, events) as int),
        after_events(rate, events).phase == paced_phase(
            rate as int,
            0,
            unfed(rate, events) * ISO_PKTS,
        ),
    decreases events.len(),
{
    if events.len() == 0 {
        assert(joined(rate, events).skip(0) =~= Seq::empty());
        assert(0 * rate == 0);
    } else {
        let front = events.drop_last();
        let event = events.last();
        lemma_after_events(rate, front);
        let before = after_events(rate, front);
        let all = joined(rate, front);
        let u = used(rate, front);
        if before.hears(event) {
            let counts = counts_of(event->packets);
            if all.len() - u < FEEDBACK_MAX {
                assert(all.push(counts).skip(u as int) =~= all.skip(u as int).push(counts));
            }
        }
        if before.builds(event) {
            if u < all.len() {
                assert(all.skip(u as int).drop_first() =~= all.skip((u + 1) as int));
            }
            if !follows(rate, front) {
                let n = unfed(rate, front);
                law_pacing_continues(rate as int, 0, (n * ISO_PKTS) as int, ISO_PKTS as int);
                assert(n * ISO_PKTS + ISO_PKTS == (n + 1) * ISO_PKTS);
            }
        }
    }
}

/// Implicit feedback over the life of a stream, after any events: the next playback transfer
/// has the frame counts of the oldest capture transfer that was not taken yet, each being
/// taken at most once and in order; where all are taken, or none of those counts says a
/// frame, it is paced at the nominal rate, as if only the transfers that were so paced had
/// been sent.
pub proof fn law_feedback_in_order(rate: u32, events: Seq<AudioEvent>, next: AudioEvent)
    ensures
        ({
            let view = after_events(rate, events);
            let all = joined(rate, events);
            let u = used(rate, events);
            &&& u <= all.len() <= u + FEEDBACK_MAX
            &&& view.phase == paced_phase(rate as int, 0, unfed(rate, events) * ISO_PKTS)
            &&& view.due().len() == ISO_PKTS
            &&& follows(rate, events) ==> forall|k: int|
                0 <= k < ISO_PKTS ==> #[trigger] view.due()[k] == all[u as int][k]
            &&& !follows(rate, events) ==> forall|k: int|
                0 <= k < ISO_PKTS ==> #[trigger] view.due()[k] == clamped(
                    paced_size(rate as int, view.phase as int, k),
                )
            &&& used(rate, events.push(next)) == if view.builds(next) && u < all.len() {
                u + 1
            } else {
                u
            }
            &&& joined(rate, events.push(next)) == if view.hears(next) && all.len() - u
                < FEEDBACK_MAX {
                all.push(counts_of(next->packets))
            } else {
                all
            }
        }),
{
    lemma_after_events(rate, events);
    assert(events.push(next).drop_last() =~= events);
}

/// Where frames were captured, some packet brought one.
proof fn lemma_some_packet(packets: Seq<PacketView>)
    requires
        captured(packets).len() > 0,
    ensures
        exists|k: int| 0 <= k < packets.len() && packet_frames(#[trigger] packets[k]) > 0,
    decreases packets.len(),
{
    if packet_frames(packets.last()) > 0 {
        assert(packets[packets.len() - 1] == packets.last());
    } else {
        lemma_some_packet(packets.drop_last());
        let k = choose|k: int|
            0 <= k < packets.drop_last().len() && packet_frames(#[trigger] packets.drop_last()[k])
                > 0;
        assert(packet_frames(packets[k]) > 0);
    }
}

/// Nothing is freed while libusb holds it: the stream finishes only when no transfer is in
/// flight, and after everything was cancelled.
pub proof fn law_finish_is_safe(view: AudioView, stop: bool)
    requires
        view.step(stop) == RunStep::Finish,
    ensures
        view.in_flight == 0,
        !view.running,
{
}

/// Once the stream was cancelled, every transfer that comes back is given up, whatever its
/// status, so that none is in flight in the end; nothing is submitted or cancelled again.
pub proof fn law_cancelled_stream_drains(view: AudioView, status: i32, stop: bool)
    requires
        !view.running,
    ensures
        view.gives_up(status),
        view.in_flight > 0 ==> view.retired().in_flight == view.in_flight - 1,
        !view.retired().running,
        view.step(stop) == if view.in_flight > 0 {
            RunStep::Events
        } else {
            RunStep::Finish
        },
{
}

/// A stream that runs into an error at the start, or whose transfers are all lost, ends.
pub proof fn law_lost_stream_ends(view: AudioView)
    requires
        view.running,
        view.failed || (view.primed == 2 * NUM && view.in_flight == 0),
    ensures
        view.step(false) == RunStep::Cancel,
{
}

/// The counts of a capture transfer fit a playback transfer.
proof fn lemma_counts_fit(buf: Seq<u8>, descs: Seq<PacketDesc>)
    requires
        slots_fit(buf.len(), descs),
    ensures
        counts_fit(counts_of(slots(buf, descs))),
{
    let packets = slots(buf, descs);
    assert forall|k: int| 0 <= k < ISO_PKTS implies #[trigger] counts_of(packets)[k]
        <= MAX_PACKET_FRAMES by {
        if k < packets.len() {
            assert(descs[k].status == completed() ==> packets[k].data.len()
                == slot_bytes(descs[k]));
        }
    }
}

// What a stream does, in terms of what it is handed.

/// Every packet of a capture transfer is read from its own slot: byte `i` of packet `k` is byte
/// `126 * k + i` of the buffer, for as many bytes as the packet brought and its slot holds, and it
/// counts exactly where its status is 0.
pub proof fn law_packet_slots(buf: Seq<u8>, descs: Seq<PacketDesc>, k: int)
    requires
        0 <= k < descs.len(),
        126 * descs.len() <= buf.len(),
    ensures
        slots(buf, descs).len() == descs.len(),
        slots(buf, descs)[k].ok <==> descs[k].status == 0,
        slots(buf, descs)[k].data.len() == if descs[k].actual_length < 126 {
            descs[k].actual_length as int
        } else {
            126
        },
        forall|i: int|
            0 <= i < slots(buf, descs)[k].data.len() ==> #[trigger] slots(buf, descs)[k].data[i]
                == buf[126 * k + i],
{
}

/// A buffer in which packets were laid, one per slot, gives all of their frames back, in order
/// and each once.
pub proof fn law_slots_give_back(buf: Seq<u8>, descs: Seq<PacketDesc>, sent: Seq<PacketView>)
    requires
        sent.len() == descs.len(),
        126 * descs.len() <= buf.len(),
        forall|k: int|
            0 <= k < sent.len() ==> {
                &&& (#[trigger] sent[k]).data.len() <= 126
                &&& descs[k].actual_length == sent[k].data.len()
                &&& descs[k].status == 0 <==> sent[k].ok
            },
        forall|k: int, i: int|
            #![trigger sent[k].data[i]]
            0 <= k < sent.len() && 0 <= i < sent[k].data.len() ==> buf[126 * k + i]
                == sent[k].data[i],
    ensures
        slots(buf, descs) == sent,
        captured(slots(buf, descs)) == captured(sent),
{
    let found = slots(buf, descs);
    assert forall|k: int| 0 <= k < sent.len() implies #[trigger] found[k] == sent[k] by {
        law_packet_slots(buf, descs, k);
        assert(sent[k].data.len() <= 126);
        assert forall|i: int| 0 <= i < sent[k].data.len() implies found[k].data[i]
            == sent[k].data[i] by {
            assert(buf[126 * k + i] == sent[k].data[i]);
        }
        assert(found[k].data =~= sent[k].data);
    }
    assert(found =~= sent);
}

/// What is captured of a transfer: channel `c` of frame `f` of a completed packet `k` is the
/// signed number in the three bytes from `126 * k + 18 * f + 3 * c` of the buffer on, and stands
/// behind the frames of the packets before it.
pub proof fn law_capture_from_slot(
    buf: Seq<u8>,
    descs: Seq<PacketDesc>,
    k: int,
    f: int,
    c: int,
)
    requires
        126 * descs.len() <= buf.len(),
        0 <= k < descs.len(),
        descs[k].status == 0,
        descs[k].actual_length <= 126,
        0 <= f < descs[k].actual_length / 18,
        0 <= c < 6,
    ensures
        ({
            let packets = slots(buf, descs);
            let before = captured(packets.take(k)).len();
            let at = 126 * k + 18 * f + 3 * c;
            let v = buf[at] + 256 * buf[at + 1] + 65536 * buf[at + 2];
            &&& before + f < captured(packets).len()
            &&& captured(packets)[before + f][c] == if v < 8388608 {
                v
            } else {
                v - 16777216
            }
        }),
{
    let packets = slots(buf, descs);
    let one = packets[k];
    law_packet_slots(buf, descs, k);
    law_captured_position(packets, k, f);
    law_packet_captured(one);
    let j = 18 * f + 3 * c;
    assert(captured(seq![one])[f][c] == captured(packets)[captured(packets.take(k)).len() + f][c]);
    assert(one.data[j] == buf[126 * k + j]);
    assert(one.data[j + 1] == buf[126 * k + (j + 1)]);
    assert(one.data[j + 2] == buf[126 * k + (j + 2)]);
}

/// Where every packet of a transfer brings `n` frames, as at 48000 with six, frame `f` of packet
/// `k` is frame `n * k + f` of what is captured: nothing is lost or repeated.
pub proof fn law_even_captures(buf: Seq<u8>, descs: Seq<PacketDesc>, n: nat, k: int)
    requires
        126 * descs.len() <= buf.len(),
        0 <= k <= descs.len(),
        n <= 7,
        forall|j: int|
            0 <= j < descs.len() ==> (#[trigger] descs[j]).status == 0 && descs[j].actual_length
                == 18 * n,
    ensures
        captured(slots(buf, descs).take(k)).len() == n * k,
        captured(slots(buf, descs)).len() == n * descs.len(),
{
    lemma_even_prefix(buf, descs, n, k);
    lemma_even_prefix(buf, descs, n, descs.len() as int);
    assert(slots(buf, descs).take(descs.len() as int) =~= slots(buf, descs));
}

/// The first packets of such a transfer.
proof fn lemma_even_prefix(buf: Seq<u8>, descs: Seq<PacketDesc>, n: nat, k: int)
    requires
        126 * descs.len() <= buf.len(),
        0 <= k <= descs.len(),
        n <= 7,
        forall|j: int|
            0 <= j < descs.len() ==> (#[trigger] descs[j]).status == 0 && descs[j].actual_length
                == 18 * n,
    ensures
        captured(slots(buf, descs).take(k)).len() == n * k,
    decreases k,
{
    let packets = slots(buf, descs);
    if k > 0 {
        lemma_even_prefix(buf, descs, n, k - 1);
        lemma_captured_step(packets, k - 1);
        law_packet_slots(buf, descs, k - 1);
        law_packet_captured(packets[k - 1]);
        assert(descs[k - 1].actual_length == 18 * n);
        assert(frames_of(packets[k - 1]).len() == n);
        assert(n * k == n * (k - 1) + n) by (nonlinear_arith);
    } else {
        assert(captured(packets.take(0)) =~= Seq::empty());
        assert(n * 0 == 0);
    }
}

/// Which transfers a device can bring: a slot of 126 bytes for every packet, and at most seven
/// frames in every one that completed.
pub proof fn law_slots_tested(len: usize, descs: &[PacketDesc], r: bool)
    requires
        call_ensures(fits_slots, (len, descs), r),
    ensures
        r <==> 126 * descs@.len() <= len && forall|k: int|
            0 <= k < descs@.len() && (#[trigger] descs@[k]).status == 0
                ==> descs@[k].actual_length / 18 <= 7,
        r == slots_fit(len as nat, descs@),
{
}

/// The frame counts of a capture transfer: of each of 16 packets its whole frames, where it
/// completed, and 0 where it did not or there is none.
pub proof fn law_capture_counts(buf: Seq<u8>, descs: Seq<PacketDesc>, k: int)
    requires
        slots_fit(buf.len(), descs),
        0 <= k < 16,
    ensures
        counts_of(slots(buf, descs)).len() == 16,
        k < descs.len() && descs[k].status == 0 ==> counts_of(slots(buf, descs))[k]
            == descs[k].actual_length / 18,
        k >= descs.len() || descs[k].status != 0 ==> counts_of(slots(buf, descs))[k] == 0,
{
    if k < descs.len() {
        law_packet_slots(buf, descs, k);
        if descs[k].status == 0 {
            assert(descs[k].actual_length / 18 <= 7);
        }
    }
}

/// What a capture transfer does. On a stream that was cancelled, or where the transfer was, it is
/// given up and nothing else happens. Else it is submitted again, its samples stand in the buffer
/// of the stream, sample `f` of channel `c` being channel `c` of captured frame `f`, and its frame
/// counts feed the clock; without a frame the callback is left alone.
pub proof fn law_capture_turns<S, C: Fn(&mut S, &[Vec<i32>], usize)>(
    status: i32,
    buf: &[u8],
    descs: &[PacketDesc],
    on_cap: &C,
)
    ensures
        forall|a: &mut AudioState, state: &mut S, again: bool| #[trigger]
            call_ensures(
                AudioState::on_capture::<S, C>,
                (a, status, buf, descs, state, on_cap),
                again,
            ) && (*a)@.in_flight > 0 ==> {
                let frames = captured(slots(buf@, descs@));
                &&& again <==> (*a)@.running && status != 3
                &&& (*final(a)).planar() == (*a).planar()
                &&& !again ==> {
                    &&& *final(state) == *state
                    &&& (*final(a))@.in_flight == (*a)@.in_flight - 1
                    &&& (*final(a))@.fb == (*a)@.fb
                    &&& (*final(a)).captured_planar() == (*a).captured_planar()
                }
                &&& again ==> {
                    &&& (*final(a))@.in_flight == (*a)@.in_flight
                    &&& frames.len() == 0 ==> *final(state) == *state
                    &&& frames.len() > 0 && (*a)@.fb.len() < 32 ==> (*final(a))@.fb == (*a)@.fb.push(
                        counts_of(slots(buf@, descs@)),
                    )
                    &&& frames.len() == 0 || (*a)@.fb.len() >= 32 ==> (*final(a))@.fb == (*a)@.fb
                    &&& forall|c: int, f: int|
                        #![trigger (*final(a)).captured_planar()[c]@[f]]
                        0 <= c < 6 && 0 <= f < frames.len() ==> frames[f][c]
                            == (*final(a)).captured_planar()[c]@[f]
                }
                &&& (*final(a))@.running == (*a)@.running
                &&& (*final(a))@.failed == (*a)@.failed
                &&& (*final(a))@.primed == (*a)@.primed
                &&& (*final(a))@.rate == (*a)@.rate
                &&& (*final(a))@.phase == (*a)@.phase
            },
{
}

/// What the words about the one call of a capture callback, and about those of a playback
/// callback, mean: packet `k` finds what the one before it left. Where it carries frames, the
/// callback is handed that with every channel long enough, zeros added, is asked for the frames of
/// the packet, and what it leaves is what the next packet finds; its state moves on. Where it
/// carries none, buffer and state stay.
pub proof fn law_packet_words<S>(
    first: Seq<Vec<i32>>,
    ins: Seq<Seq<Vec<i32>>>,
    outs: Seq<Seq<Vec<i32>>>,
    counts: Seq<usize>,
    last: Seq<Vec<i32>>,
    states: Seq<S>,
    k: int,
    state: S,
    given: Seq<Vec<i32>>,
    n: usize,
    left: S,
    after: Seq<Vec<i32>>,
)
    requires
        passed_on(first, ins, outs, counts, last),
        skips_empty(states, counts),
        states.len() == ins.len() + 1,
        first.len() == 6,
        0 <= k < ins.len(),
    ensures
        outs.len() == ins.len(),
        last == outs[ins.len() - 1],
        ({
            let before = if k == 0 {
                first
            } else {
                outs[k - 1]
            };
            &&& counts[k] == 0 ==> ins[k] == before && outs[k] == before && states[k + 1]
                == states[k]
            &&& counts[k] > 0 ==> ins[k].len() == before.len() && forall|c: int|
                0 <= c < before.len() ==> {
                    &&& (#[trigger] ins[k][c])@.len() == if before[c]@.len() < counts[k] {
                        counts[k] as int
                    } else {
                        before[c]@.len() as int
                    }
                    &&& forall|i: int|
                        0 <= i < ins[k][c]@.len() ==> #[trigger] ins[k][c]@[i] == if i
                            < before[c]@.len() {
                            before[c]@[i]
                        } else {
                            0
                        }
                }
        }),
        filled(ins, outs, states, counts, k, state, given, n, left, after) <==> {
            &&& state == states[k]
            &&& given == ins[k]
            &&& n == counts[k]
            &&& left == states[k + 1]
            &&& after == outs[k]
        },
{
    let before = found(first, outs, k);
    assert(passed(before, ins[k], outs[k], counts[k] as nat));
    if counts[k] == 0 {
        assert(states[k + 1] == states[k]);
    } else {
        assert forall|c: int| 0 <= c < before.len() implies {
            &&& (#[trigger] ins[k][c])@.len() == if before[c]@.len() < counts[k] {
                counts[k] as int
            } else {
                before[c]@.len() as int
            }
            &&& forall|i: int|
                0 <= i < ins[k][c]@.len() ==> #[trigger] ins[k][c]@[i] == if i < before[c]@.len() {
                    before[c]@[i]
                } else {
                    0
                }
        } by {
            assert(ins[k][c]@ == lengthened(before[c]@, counts[k] as nat));
        }
    }
}

/// How many frames the packets of the next playback transfer carry. Where feedback waits, and it
/// counts a frame at all, as many as the oldest says, packet by packet, with the accumulator
/// untouched. Else what is due at the nominal rate, but at least one and at most seven each, and
/// the accumulator moves by 16 packets. The oldest feedback is gone either way.
pub proof fn law_playback_counts(view: AudioView)
    requires
        view.phase < 8000,
    ensures
        ({
            let follows = view.fb.len() > 0 && exists|k: int|
                0 <= k < view.fb[0].len() && #[trigger] view.fb[0][k] > 0;
            &&& view.due().len() == 16
            &&& follows ==> {
                &&& forall|k: int| 0 <= k < 16 ==> #[trigger] view.due()[k] == view.fb[0][k]
                &&& view.built().phase == view.phase
            }
            &&& !follows ==> {
                &&& forall|k: int|
                    0 <= k < 16 ==> {
                        let n = (view.phase + (k + 1) * view.rate) / 8000 - (view.phase + k
                            * view.rate) / 8000;
                        #[trigger] view.due()[k] == if n < 1 {
                            1
                        } else if n > 7 {
                            7
                        } else {
                            n
                        }
                    }
                &&& view.built().phase == (view.phase + 16 * view.rate) % 8000
            }
            &&& view.fb.len() > 0 ==> view.built().fb == view.fb.skip(1)
            &&& view.fb.len() == 0 ==> view.built().fb.len() == 0
            &&& view.built().running == view.running
            &&& view.built().in_flight == view.in_flight
            &&& view.built().primed == view.primed
            &&& view.built().failed == view.failed
            &&& view.built().rate == view.rate
        }),
{
    if view.fb.len() > 0 {
        assert(view.fb.drop_first() =~= view.fb.skip(1));
        if exists|k: int| 0 <= k < view.fb[0].len() && #[trigger] view.fb[0][k] > 0 {
            assert(any_frame(view.fb[0]));
        }
    }
    lemma_step(view.rate as int, view.phase as int, 0);
}

/// What a playback transfer that came back leads to: on a stream that was cancelled, or where the
/// transfer was, it is given up; else the next one is built, of eighteen bytes for every frame of
/// every packet, and nothing else of the stream changes.
pub proof fn law_playback_turns<S, P: Fn(&mut S, &mut [Vec<i32>], usize)>(status: i32, fill: &P)
    ensures
        forall|a: &mut AudioState, state: &mut S, r: Option<OutTransfer>| #[trigger]
            call_ensures(AudioState::on_playback::<S, P>, (a, status, state, fill), r)
                && (*a)@.in_flight > 0 ==> {
                &&& r is Some <==> (*a)@.running && status != 3
                &&& (*final(a)).captured_planar() == (*a).captured_planar()
                &&& r is None ==> {
                    &&& *final(state) == *state
                    &&& (*final(a))@.in_flight == (*a)@.in_flight - 1
                    &&& (*final(a))@.fb == (*a)@.fb
                    &&& (*final(a))@.phase == (*a)@.phase
                }
                &&& r is Some ==> {
                    &&& (*final(a))@ == (*a)@.built()
                    &&& r->0.lens@.len() == 16
                    &&& forall|k: int|
                        0 <= k < 16 ==> #[trigger] r->0.lens@[k] == ((*a)@.due()[k] * 18) as u32
                }
            },
        forall|a: &mut AudioState, state: &mut S, t: OutTransfer| #[trigger]
            call_ensures(AudioState::build_out::<S, P>, (a, state, fill), t) ==> {
                &&& (*final(a))@ == (*a)@.built()
                &&& t.lens@.len() == 16
                &&& forall|k: int|
                    0 <= k < 16 ==> #[trigger] t.lens@[k] == ((*a)@.due()[k] * 18) as u32
            },
{
}

/// How a stream begins, and how its transfers are counted: one that was submitted at the start is
/// one more in flight, one that could not be makes the start fail, and one that could not be
/// submitted again is lost. The stream ends well unless its start failed.
pub proof fn law_transfers_counted(rate: u32, new: AudioState, rc: i32, ok: bool)
    requires
        call_ensures(AudioState::new, (rate,), new),
    ensures
        new@.running && !new@.failed && new@.in_flight == 0 && new@.primed == 0,
        new@.rate == rate && new@.phase == 0 && new@.fb.len() == 0,
        new.planar().len() == 6 && new.captured_planar().len() == 6,
        forall|c: int| 0 <= c < 6 ==> (#[trigger] new.planar()[c])@.len() == 0,
        forall|c: int| 0 <= c < 6 ==> (#[trigger] new.captured_planar()[c])@.len() == 0,
        forall|a: &mut AudioState| #[trigger]
            call_ensures(AudioState::submitted, (a, rc), ()) ==> {
                &&& rc == 0 ==> (*final(a))@.in_flight == (*a)@.in_flight + 1
                    && (*final(a))@.primed == (*a)@.primed + 1 && (*final(a))@.failed
                    == (*a)@.failed
                &&& rc != 0 ==> (*final(a))@.in_flight == (*a)@.in_flight && (*final(a))@.primed
                    == (*a)@.primed && (*final(a))@.failed
                &&& (*final(a))@.running == (*a)@.running
                &&& (*final(a))@.rate == (*a)@.rate
                &&& (*final(a))@.phase == (*a)@.phase
                &&& (*final(a))@.fb == (*a)@.fb
            },
        forall|a: &mut AudioState| #[trigger]
            call_ensures(AudioState::resubmitted, (a, ok), ()) && (*a)@.in_flight > 0 ==> {
                &&& (*final(a))@.in_flight == if ok {
                    (*a)@.in_flight as int
                } else {
                    (*a)@.in_flight - 1
                }
                &&& (*final(a))@.running == (*a)@.running
                &&& (*final(a))@.failed == (*a)@.failed
                &&& (*final(a))@.primed == (*a)@.primed
                &&& (*final(a))@.rate == (*a)@.rate
                &&& (*final(a))@.phase == (*a)@.phase
                &&& (*final(a))@.fb == (*a)@.fb
            },
        forall|a: AudioState, r: Result<(), Error>| #[trigger]
            call_ensures(AudioState::outcome, (&a,), r) ==> {
                &&& r is Ok <==> !a@.failed
                &&& r is Err ==> r->Err_0 is Transport && r->Err_0->Transport_0@
                    == "iso submit failed at startup"@
            },
{
}

/// What is done next with a stream. While it runs, eight capture transfers are submitted, then
/// eight playback transfers; then events are handled as long as nobody asks to stop and a transfer
/// is in flight; else, and where the start failed, everything is cancelled, and it runs no more.
/// Then events are handled until nothing is in flight, and it finishes.
pub proof fn law_run_steps(stop: bool)
    ensures
        forall|a: &mut AudioState, step: RunStep| #[trigger]
            call_ensures(AudioState::next_step, (a, stop), step) ==> {
                let v = (*a)@;
                let starts = v.running && !v.failed && v.primed < 16;
                let goes_on = v.running && !v.failed && v.primed >= 16 && !stop && v.in_flight > 0;
                &&& starts && v.primed < 8 ==> step == RunStep::Submit(Direction::In)
                &&& starts && v.primed >= 8 ==> step == RunStep::Submit(Direction::Out)
                &&& step is Submit <==> starts
                &&& step is Events <==> goes_on || (!v.running && v.in_flight > 0)
                &&& step is Cancel <==> v.running && !starts && !goes_on
                &&& step is Finish <==> !v.running && v.in_flight == 0
                &&& (*final(a))@.running <==> v.running && step !is Cancel
                &&& (*final(a))@.in_flight == v.in_flight
                &&& (*final(a))@.primed == v.primed
                &&& (*final(a))@.failed == v.failed
                &&& (*final(a))@.rate == v.rate
                &&& (*final(a))@.phase == v.phase
                &&& (*final(a))@.fb == v.fb
                &&& (*final(a)).planar() == (*a).planar()
                &&& (*final(a)).captured_planar() == (*a).captured_planar()
            },
{
}

/// How a transfer is submitted again: it is tried until a try returns 0, and at most eight times.
pub proof fn law_tries<S>(
    rcs: Seq<i32>,
    ok: bool,
    states: Seq<S>,
    k: int,
    state: S,
    rc: i32,
    left: S,
)
    requires
        tried(rcs, ok),
    ensures
        1 <= rcs.len() <= 8,
        ok <==> rcs[rcs.len() - 1] == 0,
        !ok ==> rcs.len() == 8,
        forall|j: int| 0 <= j < rcs.len() - 1 ==> #[trigger] rcs[j] != 0,
        has_try(rcs, k) <==> 0 <= k < rcs.len(),
        is_try(rcs, states, k, state, rc, left) <==> state == states[k] && rc == rcs[k] && left
            == states[k + 1],
{
}

/// Which reports configure the device: the first sets the rate, numbered 1, with the rate as two
/// bytes, the most significant first; the second, numbered 2, sets register 8, the output, to 1.
/// Both are zero behind that. A rate that the device does not have is refused.
pub proof fn law_configuration_reports(
    hz: u32,
    rate: [u8; HID_REPORT_LEN],
    routing: [u8; HID_REPORT_LEN],
    r: Result<([u8; HID_REPORT_LEN], [u8; HID_REPORT_LEN]), Error>,
)
    requires
        call_ensures(config_reports, (hz,), r),
        r is Ok ==> r->Ok_0 == (rate, routing),
    ensures
        r is Ok <==> hz == 44100 || hz == 48000,
        r is Err ==> r->Err_0 is Param && r->Err_0->Param_0@ == "unsupported sample rate "@
            + decimal(hz as nat),
        r is Ok ==> {
            &&& rate@.subrange(0, 5) == seq![0x31u8, 1, 0, 0, 0]
            &&& 256 * rate@[5] + rate@[6] == hz
            &&& forall|i: int| 7 <= i < 64 ==> #[trigger] rate@[i] == 0
            &&& routing@.subrange(0, 8) == seq![0x33u8, 2, 0, 0, 0, 8, 1, 1]
            &&& forall|i: int| 8 <= i < 64 ==> #[trigger] routing@[i] == 0
        },
{
    if r is Ok {
        assert(rate@ == report_of(CMD_SET_RATE, 1, be_bytes(hz as int)));
        assert(routing@ == report_of(CMD_SET_CONTROLS, 2, seq![8u8, 1u8, 1u8]));
        assert(rate@.subrange(0, 5) =~= seq![0x31u8, 1, 0, 0, 0]);
        assert(routing@.subrange(0, 8) =~= seq![0x33u8, 2, 0, 0, 0, 8, 1, 1]);
        assert(rate@[5] == (hz / 0x100) as u8);
        assert(rate@[6] == (hz % 0x100) as u8);
    }
}

/// What each stage of the configuration does: interface 3 is claimed and in the end released; the
/// two reports are written to endpoint 1, and after each of them 64 bytes are read from 0x81; all
/// of that within 250 milliseconds.
pub proof fn law_configuration_steps(c: Configuration, step: ConfigStep)
    requires
        c.wf(),
        call_ensures(Configuration::step, (&c,), step),
    ensures
        c@.stage is Claim ==> step == ConfigStep::Claim(3),
        c@.stage is Release ==> step == ConfigStep::Release(3),
        c@.stage is Done <==> step is Done,
        c@.stage is Rate || c@.stage is Routing ==> {
            &&& step is Write
            &&& step->Write_endpoint == 1
            &&& step->Write_timeout_ms == 250
            &&& step->report@.len() == 64
        },
        c@.stage is Rate ==> {
            &&& step->report@[0] == 0x31
            &&& step->report@[1] == 1
            &&& 256 * step->report@[5] + step->report@[6] == c@.hz
        },
        c@.stage is Routing ==> {
            &&& step->report@[0] == 0x33
            &&& step->report@[1] == 2
            &&& step->report@.subrange(5, 8) == seq![8u8, 1, 1]
        },
        c@.stage is RateReply || c@.stage is RoutingReply ==> {
            &&& step is Drain
            &&& step->Drain_endpoint == 0x81
            &&& step->len == 64
            &&& step->Drain_timeout_ms == 250
        },
{
    if c@.stage is Rate {
        let r = report_of(CMD_SET_RATE, 1, be_bytes(c@.hz as int));
        assert(r[5] == (c@.hz / 0x100) as u8);
        assert(r[6] == (c@.hz % 0x100) as u8);
    }
    if c@.stage is Routing {
        let r = report_of(CMD_SET_CONTROLS, 2, seq![8u8, 1u8, 1u8]);
        assert(r.subrange(5, 8) =~= seq![8u8, 1, 1]);
    }
}

/// How the configuration goes on. A claim that fails ends it; a rate that the device does not
/// have, and a report that cannot be written, leave only the release; a reply that does not come
/// and a release that fails change nothing. What failed first is how it ends.
pub proof fn law_configuration_order(hz: u32, new: Configuration, failed: Option<UsbError>)
    requires
        call_ensures(Configuration::new, (hz,), new),
    ensures
        new@.stage is Claim && new@.hz == hz && new@.error is None,
        forall|c: &mut Configuration| #[trigger]
            call_ensures(Configuration::advance, (c, failed), ()) ==> {
                let v = (*c)@;
                let w = (*final(c))@;
                let has_rate = v.hz == 44100 || v.hz == 48000;
                &&& w.hz == v.hz
                &&& v.stage is Claim ==> {
                    &&& failed is Some ==> w.stage is Done && w.error == Some(
                        ErrorView::Access(failed->0),
                    )
                    &&& failed is None && has_rate ==> w.stage is Rate && w.error == v.error
                    &&& failed is None && !has_rate ==> w.stage is Release && w.error == Some(
                        ErrorView::Param("unsupported sample rate "@ + decimal(v.hz as nat)),
                    )
                }
                &&& v.stage is Rate || v.stage is Routing ==> {
                    &&& failed is Some ==> w.stage is Release && w.error == Some(
                        ErrorView::Io(failed->0),
                    )
                    &&& failed is None ==> w.error == v.error
                }
                &&& v.stage is Rate && failed is None ==> w.stage is RateReply
                &&& v.stage is Routing && failed is None ==> w.stage is RoutingReply
                &&& v.stage is RateReply ==> w.stage is Routing && w.error == v.error
                &&& v.stage is RoutingReply ==> w.stage is Release && w.error == v.error
                &&& v.stage is Release || v.stage is Done ==> w.stage is Done && w.error == v.error
            },
        forall|c: Configuration, r: Result<(), Error>| #[trigger]
            call_ensures(Configuration::outcome, (c,), r) ==> {
                &&& r is Ok <==> c@.error is None
                &&& r is Err ==> r->Err_0@ == c@.error->0
            },
{
}

/// What is done around a run: the device is configured, setting 1 of interfaces 2 and 1 is
/// selected, and the thread gets its priority; in the end setting 0 of both is. Only a setting
/// that cannot be selected ends a run before it starts.
pub proof fn law_run_plans(
    before: Vec<RunAction>,
    after: Vec<RunAction>,
    action: RunAction,
    e: Error,
    r: Option<Error>,
)
    requires
        call_ensures(start_plan, (), before),
        call_ensures(end_plan, (), after),
        call_ensures(start_failure, (action, e), r),
    ensures
        before@.len() == 4,
        before@[0] is Configure,
        before@[1] == (RunAction::SelectAlt { iface: 2, alt: 1 }),
        before@[2] == (RunAction::SelectAlt { iface: 1, alt: 1 }),
        before@[3] is RealTime,
        after@.len() == 2,
        after@[0] == (RunAction::SelectAlt { iface: 2, alt: 0 }),
        after@[1] == (RunAction::SelectAlt { iface: 1, alt: 0 }),
        r is Some <==> action is SelectAlt,
        r is Some ==> r->0 == e,
{
}

/// When a device counts as attached: where the bus cannot be listed, and where one of the listed
/// devices has its bus, its address and the ids of an SL 3.
pub proof fn law_presence(listed: Option<&[Attached]>, bus: u8, address: u8, r: bool)
    requires
        call_ensures(is_present, (listed, bus, address), r),
    ensures
        listed is None ==> r,
        listed is Some && r ==> exists|i: int|
            0 <= i < listed->0@.len() && {
                let d = #[trigger] listed->0@[i];
                d.bus == bus && d.address == address && d.ids == Some((0x1CC5u16, 1u16))
            },
        listed is Some && !r ==> forall|i: int|
            0 <= i < listed->0@.len() ==> {
                let d = #[trigger] listed->0@[i];
                d.bus != bus || d.address != address || d.ids != Some((0x1CC5u16, 1u16))
            },
{
    if listed is Some && !r {
        assert forall|i: int| 0 <= i < listed->0@.len() implies {
            let d = #[trigger] listed->0@[i];
            d.bus != bus || d.address != address || d.ids != Some((0x1CC5u16, 1u16))
        } by {
            assert(!is_ours(listed->0@[i], bus, address));
        }
    }
}

/// What a stream is after one more event: what the calls that take the events leave, and that a
/// new stream has used and queued nothing.
pub proof fn law_audio_history(
    rate: u32,
    events: Seq<AudioEvent>,
    rc: i32,
    stop: bool,
    ok: bool,
    status: i32,
    packets: Seq<PacketView>,
)
    ensures
        after_events(rate, Seq::empty()) == AudioView::fresh(rate),
        ({
            let v = after_events(rate, events);
            let gone = !v.running || status == 3;
            let played = AudioEvent::Played { status };
            let captured_now = AudioEvent::Captured { status, packets };
            let lost = AudioView { in_flight: (v.in_flight - 1) as nat, ..v };
            &&& after_events(rate, events.push(AudioEvent::Built)) == v.built()
            &&& after_events(rate, events.push(played)) == if gone {
                lost
            } else {
                v.built()
            }
            &&& after_events(rate, events.push(captured_now)) == if gone {
                lost
            } else if captured(packets).len() > 0 && v.fb.len() < 32 {
                AudioView { fb: v.fb.push(counts_of(packets)), ..v }
            } else {
                v
            }
            &&& after_events(rate, events.push(AudioEvent::Resubmitted { ok })) == if ok {
                v
            } else {
                lost
            }
            &&& v.builds(played) <==> !gone
            &&& v.builds(AudioEvent::Built)
            &&& !v.builds(captured_now)
            &&& v.hears(captured_now) <==> !gone && captured(packets).len() > 0
            &&& !v.hears(played)
            &&& !v.hears(AudioEvent::Built)
        }),
        joined(rate, Seq::empty()).len() == 0,
        used(rate, Seq::empty()) == 0,
        unfed(rate, Seq::empty()) == 0,
        follows(rate, events) <==> used(rate, events) < joined(rate, events).len() && exists|k: int|
            0 <= k < joined(rate, events)[used(rate, events) as int].len() && #[trigger] joined(
                rate,
                events,
            )[used(rate, events) as int][k] > 0,
{
    let played = AudioEvent::Played { status };
    let captured_now = AudioEvent::Captured { status, packets };
    let again = AudioEvent::Resubmitted { ok };
    assert(events.push(AudioEvent::Built).drop_last() =~= events);
    assert(events.push(played).drop_last() =~= events);
    assert(events.push(captured_now).drop_last() =~= events);
    assert(events.push(again).drop_last() =~= events);
    assert(events.push(AudioEvent::Built).last() == AudioEvent::Built);
    assert(events.push(played).last() == played);
    assert(events.push(captured_now).last() == captured_now);
    assert(events.push(again).last() == again);
    assert(after_events(rate, Seq::empty()) == AudioView::fresh(rate));
}

/// What a playback callback supplies is what is sent. Let `sample` say what it leaves, from a
/// state, for each channel and frame that it is asked for. Then frame `f` of packet `k` holds,
/// channel by channel, the low 24 bits of what it left from the state that packet `k` found, the
/// states being those of one call for every packet that carries a frame, in order.
pub proof fn law_filled_is_sent<S, P: Fn(&mut S, &mut [Vec<i32>], usize)>(
    fill: &P,
    sample: spec_fn(S, int, int) -> i32,
)
    requires
        forall|s: &mut S, p: &mut [Vec<i32>], n: usize, c: int, i: int|
            #![trigger call_ensures(*fill, (s, p, n), ()), sample(*s, c, i)]
            call_ensures(*fill, (s, p, n), ()) && 0 <= c < 6 && 0 <= i < n ==> sample(*s, c, i)
                == (*final(p))@[c]@[i],
    ensures
        forall|a: &mut AudioState, state: &mut S, t: OutTransfer|
            can_pace((*a)@.rate, (*a)@.phase) && backlog_fits((*a)@.fb) && #[trigger] call_ensures(
                AudioState::build_out::<S, P>,
                (a, state, fill),
                t,
            ) ==> t.lens@.len() == 16 && exists|states: Seq<S>|
                {
                    &&& #[trigger] states.len() == 16 + 1
                    &&& states[0] == *state
                    &&& states[16 as int] == *final(state)
                    &&& forall|k: int, f: int, c: int| #[trigger]
                        is_carried((*a)@.due(), k, f, c) ==> {
                            let at = packet_offset(t.lens@, k) + 18 * f + 3 * c;
                            &&& 0 <= at
                            &&& at + 2 < t.data@.len()
                            &&& t.data@[at] + 256 * t.data@[at + 1] + 65536 * t.data@[at + 2] == sample(
                                states[k],
                                c,
                                f,
                            ) % 16777216
                        }
                },
{
    assert forall|a: &mut AudioState, state: &mut S, t: OutTransfer|
        can_pace((*a)@.rate, (*a)@.phase) && backlog_fits((*a)@.fb) && #[trigger] call_ensures(
            AudioState::build_out::<S, P>,
            (a, state, fill),
            t,
        ) implies t.lens@.len() == 16 && exists|states: Seq<S>|
            {
                &&& #[trigger] states.len() == 16 + 1
                &&& states[0] == *state
                &&& states[16 as int] == *final(state)
                &&& forall|k: int, f: int, c: int| #[trigger]
                    is_carried((*a)@.due(), k, f, c) ==> {
                        let at = packet_offset(t.lens@, k) + 18 * f + 3 * c;
                        &&& 0 <= at
                        &&& at + 2 < t.data@.len()
                        &&& t.data@[at] + 256 * t.data@[at + 1] + 65536 * t.data@[at + 2] == sample(
                            states[k],
                            c,
                            f,
                        ) % 16777216
                    }
            } by {
        let sizes = (*a)@.due();
        assert forall|k: int| 0 <= k < sizes.len() implies #[trigger] sizes[k] * 18
            <= 4294967295 by {
            if (*a)@.fb.len() > 0 {
                assert(counts_fit((*a)@.fb[0]));
                assert((*a)@.fb[0][k] <= MAX_PACKET_FRAMES);
            }
        }
        let (ins, outs, states) = choose|
            ins: Seq<Seq<Vec<i32>>>,
            outs: Seq<Seq<Vec<i32>>>,
            states: Seq<S>,
        |
            {
                &&& #[trigger] passed_on((*a).planar(), ins, outs, sizes, (*final(a)).planar())
                &&& #[trigger] threaded(*state, states, *final(state), ins.len())
                &&& ins.len() == 16
                &&& forall|k: int| #[trigger]
                    made(ins, k) ==> sizes[k] > 0 ==> exists|
                        s: &mut S,
                        p: &mut [Vec<i32>],
                        n: usize,
                    |
                        {
                            &&& #[trigger] call_ensures(*fill, (s, p, n), ())
                            &&& filled(
                                ins,
                                outs,
                                states,
                                sizes,
                                k,
                                *s,
                                (*p)@,
                                n,
                                *final(s),
                                (*final(p))@,
                            )
                        }
                &&& t.data@ == transfer_bytes(outs, sizes)
                &&& t.lens@ == packet_lengths(sizes)
            };
        assert(passed_on((*a).planar(), ins, outs, sizes, (*final(a)).planar()));
        assert(states.len() == 16 + 1);
        assert(states[0] == *state);
        assert(states[16] == *final(state));
        assert(packet_lengths(sizes).len() == 16);
        assert forall|k: int, f: int, c: int| #[trigger] is_carried(sizes, k, f, c) implies {
            let at = packet_offset(t.lens@, k) + 18 * f + 3 * c;
            &&& 0 <= at
            &&& at + 2 < t.data@.len()
            &&& t.data@[at] + 256 * t.data@[at + 1] + 65536 * t.data@[at + 2] == sample(
                states[k],
                c,
                f,
            ) % 16777216
        } by {
            law_transfer_samples(outs, sizes, k);
            assert(made(ins, k));
            assert(outs[k][c]@[f] == sample(states[k], c, f));
        }
    }
}

/// How often a transfer is submitted again: from its own state `submit` is called until it
/// returns 0, and at most eight times, each call finding what the one before it left; and there is
/// no other call.
pub proof fn law_resubmitted<S, F: Fn(&mut S) -> i32>(submit: &F)
    ensures
        forall|state: &mut S, ok: bool| #[trigger]
            call_ensures(resubmit::<S, F>, (state, submit), ok) ==> exists|
                rcs: Seq<i32>,
                states: Seq<S>,
            |
                {
                    &&& 1 <= #[trigger] rcs.len() <= 8
                    &&& #[trigger] states.len() == rcs.len() + 1
                    &&& states[0] == *state
                    &&& states[rcs.len() as int] == *final(state)
                    &&& ok <==> rcs[rcs.len() - 1] == 0
                    &&& !ok ==> rcs.len() == 8
                    &&& forall|k: int| #[trigger]
                        has_try(rcs, k) ==> (k < rcs.len() - 1 ==> rcs[k] != 0) && exists|
                            s: &mut S,
                            rc: i32,
                        |
                            {
                                &&& #[trigger] call_ensures(*submit, (s,), rc)
                                &&& *s == states[k]
                                &&& rc == rcs[k]
                                &&& *final(s) == states[k + 1]
                            }
                },
{
    assert forall|state: &mut S, ok: bool| #[trigger]
        call_ensures(resubmit::<S, F>, (state, submit), ok) implies exists|
        rcs: Seq<i32>,
        states: Seq<S>,
    |
        {
            &&& 1 <= #[trigger] rcs.len() <= 8
            &&& #[trigger] states.len() == rcs.len() + 1
            &&& states[0] == *state
            &&& states[rcs.len() as int] == *final(state)
            &&& ok <==> rcs[rcs.len() - 1] == 0
            &&& !ok ==> rcs.len() == 8
            &&& forall|k: int| #[trigger]
                has_try(rcs, k) ==> (k < rcs.len() - 1 ==> rcs[k] != 0) && exists|
                    s: &mut S,
                    rc: i32,
                |
                    {
                        &&& #[trigger] call_ensures(*submit, (s,), rc)
                        &&& *s == states[k]
                        &&& rc == rcs[k]
                        &&& *final(s) == states[k + 1]
                    }
        } by {
        let (rcs, states) = choose|rcs: Seq<i32>, states: Seq<S>|
            {
                &&& #[trigger] tried(rcs, ok)
                &&& #[trigger] threaded(*state, states, *final(state), rcs.len())
                &&& forall|k: int| #[trigger]
                    has_try(rcs, k) ==> exists|s: &mut S, rc: i32|
                        {
                            &&& #[trigger] call_ensures(*submit, (s,), rc)
                            &&& is_try(rcs, states, k, *s, rc, *final(s))
                        }
            };
        assert(tried(rcs, ok));
        assert(states.len() == rcs.len() + 1);
        assert forall|k: int| #[trigger] has_try(rcs, k) implies (k < rcs.len() - 1 ==> rcs[k]
            != 0) && exists|s: &mut S, rc: i32|
            {
                &&& #[trigger] call_ensures(*submit, (s,), rc)
                &&& *s == states[k]
                &&& rc == rcs[k]
                &&& *final(s) == states[k + 1]
            } by {
            let (s, rc) = choose|s: &mut S, rc: i32|
                {
                    &&& #[trigger] call_ensures(*submit, (s,), rc)
                    &&& is_try(rcs, states, k, *s, rc, *final(s))
                };
            assert(call_ensures(*submit, (s,), rc));
        }
    }
}

/// What a capture transfer brings is delivered in one call, which is handed the state of the
/// callback, the number of frames, and six channels of which sample `f` of channel `c` is channel
/// `c` of captured frame `f`.
pub proof fn law_captured_is_delivered<S, C: Fn(&mut S, &[Vec<i32>], usize)>(
    status: i32,
    buf: &[u8],
    descs: &[PacketDesc],
    on_cap: &C,
)
    requires
        captured(slots(buf@, descs@)).len() > 0,
        status != 3,
    ensures
        forall|a: &mut AudioState, state: &mut S, again: bool|
            (*a)@.running && #[trigger] call_ensures(
                AudioState::on_capture::<S, C>,
                (a, status, buf, descs, state, on_cap),
                again,
            ) ==> {
                let frames = captured(slots(buf@, descs@));
                exists|s: &mut S, p: &[Vec<i32>], n: usize|
                    {
                        &&& #[trigger] call_ensures(*on_cap, (s, p, n), ())
                        &&& *s == *state
                        &&& *final(s) == *final(state)
                        &&& n == frames.len()
                        &&& p@.len() == 6
                        &&& forall|c: int, f: int|
                            #![trigger p@[c]@[f]]
                            0 <= c < 6 && 0 <= f < frames.len() ==> p@[c]@[f] == frames[f][c]
                    }
            },
{
    let frames = captured(slots(buf@, descs@));
    assert forall|a: &mut AudioState, state: &mut S, again: bool|
        (*a)@.running && #[trigger] call_ensures(
            AudioState::on_capture::<S, C>,
            (a, status, buf, descs, state, on_cap),
            again,
        ) implies exists|s: &mut S, p: &[Vec<i32>], n: usize|
            {
                &&& #[trigger] call_ensures(*on_cap, (s, p, n), ())
                &&& *s == *state
                &&& *final(s) == *final(state)
                &&& n == frames.len()
                &&& p@.len() == 6
                &&& forall|c: int, f: int|
                    #![trigger p@[c]@[f]]
                    0 <= c < 6 && 0 <= f < frames.len() ==> p@[c]@[f] == frames[f][c]
            } by {
        let (s, p, n) = choose|s: &mut S, p: &[Vec<i32>], n: usize|
            {
                &&& #[trigger] call_ensures(*on_cap, (s, p, n), ())
                &&& handed(p@, n, (*final(a)).captured_planar(), frames.len())
                &&& moved(*s, *final(s), *state, *final(state))
            };
        assert(call_ensures(*on_cap, (s, p, n), ()));
        assert(holds((*final(a)).captured_planar(), frames));
    }
}

} // verus!
