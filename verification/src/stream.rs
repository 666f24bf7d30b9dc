//! Isochronous streaming: building OUT transfers, and the decisions of the capture,
//! playback and full-duplex loops that keep several transfers in flight.

use std::collections::VecDeque;

use vstd::prelude::*;

use crate::frame::{
    captured, frames_of, has_frames, has_room, is_countable, law_frames_round_trip,
    lemma_packed_inside, level, pack_frames, packed, packet_frames, views, wrap24, IsoPacket,
    PacketView,
};
use crate::pacing::{
    can_pace, law_packet_near_average, nominal_sizes, paced_phase, paced_size, sum,
};
use crate::{CHANNELS, FRAME_BYTES, ISO_PKTS};

verus! {

// --------------------------- building OUT transfers --------------------------

/// `s` cut or zero-filled to `n` samples.
pub open spec fn resized(s: Seq<i32>, n: nat) -> Seq<i32> {
    Seq::new(
        n,
        |i: int|
            if i < s.len() {
                s[i]
            } else {
                0
            },
    )
}

/// The buffer `after` is what a fill callback for `nf` frames is handed when `before` was
/// there: where the first channel is too short, every channel is resized.
pub open spec fn prepared(before: Seq<Vec<i32>>, after: Seq<Vec<i32>>, nf: int) -> bool {
    &&& after.len() == before.len()
    &&& if before[0]@.len() < nf {
        forall|c: int|
            0 <= c < CHANNELS ==> (#[trigger] after[c])@ == resized(before[c]@, nf as nat)
    } else {
        after == before
    }
}

/// What call `k` found: the buffer at the start, or what the call before it left.
pub open spec fn found(
    first: Seq<Vec<i32>>,
    outs: Seq<Seq<Vec<i32>>>,
    k: int,
) -> Seq<Vec<i32>> {
    if k == 0 {
        first
    } else {
        outs[k - 1]
    }
}

/// The buffers of successive calls: call `k` is handed `ins[k]`, which is what call `k - 1`
/// left, prepared, and leaves `outs[k]`; in the end `last` is there.
pub open spec fn handed_on(
    first: Seq<Vec<i32>>,
    ins: Seq<Seq<Vec<i32>>>,
    outs: Seq<Seq<Vec<i32>>>,
    sizes: Seq<usize>,
    last: Seq<Vec<i32>>,
) -> bool {
    &&& ins.len() == outs.len()
    &&& last == if outs.len() == 0 {
        first
    } else {
        outs.last()
    }
    &&& forall|k: int|
        0 <= k < ins.len() ==> prepared(
            found(first, outs, k),
            #[trigger] ins[k],
            sizes[k] as int,
        )
}

/// There was a call `k`.
pub open spec fn made(ins: Seq<Seq<Vec<i32>>>, k: int) -> bool {
    0 <= k < ins.len()
}

/// The state of a callback over successive calls, and no others: `states[k]` is what call `k`
/// found, `states[k + 1]` what it left.
pub open spec fn threaded<S>(first: S, states: Seq<S>, last: S, calls: nat) -> bool {
    &&& states.len() == calls + 1
    &&& states[0] == first
    &&& states.last() == last
}

/// Call `k` of a fill callback: with its state `state` it was handed `before` and asked for
/// `n` frames, left `left` and `after`, and answered `stop`. Only the last call may ask to
/// stop, and does so where `stopped`.
pub open spec fn is_call<S>(
    ins: Seq<Seq<Vec<i32>>>,
    outs: Seq<Seq<Vec<i32>>>,
    states: Seq<S>,
    sizes: Seq<usize>,
    stopped: bool,
    k: int,
    state: S,
    before: Seq<Vec<i32>>,
    n: usize,
    left: S,
    after: Seq<Vec<i32>>,
    stop: bool,
) -> bool {
    &&& state == states[k]
    &&& before == ins[k]
    &&& n == sizes[k]
    &&& left == states[k + 1]
    &&& after == outs[k]
    &&& stop == (stopped && k == ins.len() - 1)
}

/// The bytes of a transfer whose packet `k` carries the first `sizes[k]` frames of
/// `bufs[k]`.
pub open spec fn transfer_bytes(bufs: Seq<Seq<Vec<i32>>>, sizes: Seq<usize>) -> Seq<u8>
    decreases bufs.len(),
{
    if bufs.len() == 0 {
        Seq::empty()
    } else {
        transfer_bytes(bufs.drop_last(), sizes) + packed(
            bufs.last(),
            sizes[bufs.len() - 1] as nat,
        )
    }
}

/// The packet lengths of a transfer with these frame counts.
pub open spec fn packet_lengths(sizes: Seq<usize>) -> Seq<u32> {
    Seq::new(sizes.len(), |k: int| (sizes[k] * FRAME_BYTES) as u32)
}

/// Resizes every channel to `nf` samples where the first one is shorter.
pub fn prepare(planar: &mut Vec<Vec<i32>>, nf: usize)
    requires
        old(planar)@.len() == CHANNELS,
    ensures
        prepared(old(planar)@, final(planar)@, nf as int),
{
    let ghost before = planar@;
    if planar[0].len() < nf {
        let mut c: usize = 0;
        while c < CHANNELS
            invariant
                c <= CHANNELS,
                before.len() == CHANNELS,
                planar@.len() == CHANNELS,
                forall|d: int| c <= d < CHANNELS ==> planar@[d] == before[d],
                forall|d: int|
                    0 <= d < c ==> (#[trigger] planar@[d])@ == resized(before[d]@, nf as nat),
            decreases CHANNELS - c,
        {
            let ghost row = planar@[c as int]@;
            planar[c].resize(nf, 0);
            proof {
                let now = planar@[c as int]@;
                if row.len() < nf {
                    assert forall|i: int| 0 <= i < nf implies now[i] == resized(
                        row,
                        nf as nat,
                    )[i] by {
                        if i < row.len() {
                            assert(now.subrange(0, row.len() as int)[i] == row[i]);
                        }
                    }
                }
                assert(now =~= resized(row, nf as nat));
            }
            c = c + 1;
        }
    }
}

/// A level buffer that was prepared is level, and has room.
proof fn lemma_prepared(before: Seq<Vec<i32>>, after: Seq<Vec<i32>>, nf: int)
    requires
        level(before),
        0 <= nf,
        prepared(before, after, nf),
    ensures
        level(after),
        has_room(after, nf),
{
    if before[0]@.len() < nf {
        assert forall|c: int| 0 <= c < CHANNELS implies (#[trigger] after[c])@.len() == nf by {
            assert(after[c]@ == resized(before[c]@, nf as nat));
        }
    }
}

/// One call of `fill` on the whole buffer.
fn ask<S, F>(planar: &mut Vec<Vec<i32>>, nf: usize, state: &mut S, fill: &F) -> (stop:
    bool) where
    F: Fn(&mut S, &mut [Vec<i32>], usize) -> bool,

    requires
        level(old(planar)@),
        has_room(old(planar)@, nf as int),
        forall|s: &mut S, p: &mut [Vec<i32>], n: usize|
            level((*p)@) && has_room((*p)@, n as int) ==> #[trigger] call_requires(
                *fill,
                (s, p, n),
            ),
    ensures
        exists|s: &mut S, p: &mut [Vec<i32>]|
            {
                &&& #[trigger] call_ensures(*fill, (s, p, nf), stop)
                &&& *s == *old(state)
                &&& (*p)@ == old(planar)@
                &&& *final(s) == *final(state)
                &&& (*final(p))@ == final(planar)@
            },
{
    fill(state, planar.as_mut_slice(), nf)
}

/// Asks `fill` for `sizes[k]` frames per packet `k` and packs what it leaves in `planar`.
/// Returns the transfer's bytes and its packet lengths, or, once `fill` returns `true`, how
/// many times it was asked. `fill` is handed its own state, which it may change.
pub fn fill_packets<S, F>(
    sizes: &[usize],
    planar: &mut Vec<Vec<i32>>,
    state: &mut S,
    fill: &F,
) -> (r: Result<(Vec<u8>, Vec<u32>), usize>) where F: Fn(&mut S, &mut [Vec<i32>], usize) -> bool
    requires
        level(old(planar)@),
        forall|k: int| 0 <= k < sizes@.len() ==> #[trigger] sizes@[k] * FRAME_BYTES <= u32::MAX,
        forall|s: &mut S, p: &mut [Vec<i32>], n: usize|
            level((*p)@) && has_room((*p)@, n as int) ==> #[trigger] call_requires(
                *fill,
                (s, p, n),
            ),
        forall|s: &mut S, p: &mut [Vec<i32>], n: usize, stop: bool|
            level((*p)@) && has_room((*p)@, n as int) && #[trigger] call_ensures(
                *fill,
                (s, p, n),
                stop,
            ) ==> stop || (level((*final(p))@) && has_room((*final(p))@, n as int)),
    ensures
        r is Ok ==> level(final(planar)@),
        exists|ins: Seq<Seq<Vec<i32>>>, outs: Seq<Seq<Vec<i32>>>, states: Seq<S>|
            {
                &&& #[trigger] handed_on(old(planar)@, ins, outs, sizes@, final(planar)@)
                &&& #[trigger] threaded(*old(state), states, *final(state), ins.len())
                &&& ins.len() <= sizes@.len()
                &&& forall|k: int|
                    #[trigger] made(ins, k) ==> exists|
                        s: &mut S,
                        p: &mut [Vec<i32>],
                        n: usize,
                        stop: bool,
                    |
                        {
                            &&& #[trigger] call_ensures(*fill, (s, p, n), stop)
                            &&& is_call(
                                ins,
                                outs,
                                states,
                                sizes@,
                                r is Err,
                                k,
                                *s,
                                (*p)@,
                                n,
                                *final(s),
                                (*final(p))@,
                                stop,
                            )
                        }
                &&& match r {
                    Ok((data, lens)) => {
                        &&& ins.len() == sizes@.len()
                        &&& data@ == transfer_bytes(outs, sizes@)
                        &&& lens@ == packet_lengths(sizes@)
                    },
                    Err(asked) => ins.len() == asked && made(ins, asked - 1),
                }
            },
{
    let ghost first = planar@;
    let ghost mut ins: Seq<Seq<Vec<i32>>> = Seq::empty();
    let ghost mut outs: Seq<Seq<Vec<i32>>> = Seq::empty();
    let ghost mut states: Seq<S> = seq![*state];
    let mut data: Vec<u8> = Vec::new();
    let mut lens: Vec<u32> = Vec::with_capacity(sizes.len());
    let mut k: usize = 0;
    while k < sizes.len()
        invariant
            k <= sizes@.len(),
            first == old(planar)@,
            level(planar@),
            forall|i: int| 0 <= i < sizes@.len() ==> #[trigger] sizes@[i] * FRAME_BYTES <= u32::MAX,
            forall|s: &mut S, p: &mut [Vec<i32>], n: usize|
                level((*p)@) && has_room((*p)@, n as int) ==> #[trigger] call_requires(
                    *fill,
                    (s, p, n),
                ),
            forall|s: &mut S, p: &mut [Vec<i32>], n: usize, stop: bool|
                level((*p)@) && has_room((*p)@, n as int) && #[trigger] call_ensures(
                    *fill,
                    (s, p, n),
                    stop,
                ) ==> stop || (level((*final(p))@) && has_room((*final(p))@, n as int)),
            ins.len() == k,
            handed_on(first, ins, outs, sizes@, planar@),
            threaded(*old(state), states, *state, ins.len()),
            forall|i: int|
                #[trigger] made(ins, i) ==> exists|
                    s: &mut S,
                    p: &mut [Vec<i32>],
                    n: usize,
                    stop: bool,
                |
                    {
                        &&& #[trigger] call_ensures(*fill, (s, p, n), stop)
                        &&& is_call(
                            ins,
                            outs,
                            states,
                            sizes@,
                            false,
                            i,
                            *s,
                            (*p)@,
                            n,
                            *final(s),
                            (*final(p))@,
                            stop,
                        )
                    },
            data@ == transfer_bytes(outs, sizes@),
            lens@ == packet_lengths(sizes@).take(k as int),
        decreases sizes@.len() - k,
    {
        let nf: usize = sizes[k];
        let ghost before = planar@;
        prepare(planar, nf);
        let ghost given = planar@;
        proof {
            lemma_prepared(before, given, nf as int);
        }
        let ghost ins_before = ins;
        let ghost outs_before = outs;
        let ghost states_before = states;
        let stop: bool = ask(planar, nf, state, fill);
        proof {
            ins = ins.push(given);
            outs = outs.push(planar@);
            states = states.push(*state);
            assert forall|i: int| 0 <= i < ins.len() implies prepared(
                found(first, outs, i),
                #[trigger] ins[i],
                sizes@[i] as int,
            ) by {
                assert(found(first, outs, i) == found(first, outs_before, i));
                if i < k {
                    assert(ins[i] == ins_before[i]);
                }
            }
            assert(handed_on(first, ins, outs, sizes@, planar@));
            assert forall|i: int| #[trigger] made(ins, i) implies i == k || made(
                ins_before,
                i,
            ) by {}
            assert(forall|i: int| 0 <= i <= k ==> states[i] == states_before[i]);
            assert(threaded(*old(state), states, *state, ins.len()));
        }
        if stop {
            return Err(k + 1);
        }
        pack_frames(&mut data, planar.as_slice(), nf);
        lens.push((nf * FRAME_BYTES) as u32);
        proof {
            assert(outs.drop_last() =~= outs_before);
            assert(packet_lengths(sizes@).take(k + 1) =~= packet_lengths(sizes@).take(
                k as int,
            ).push((nf * FRAME_BYTES) as u32));
        }
        k = k + 1;
    }
    assert(packet_lengths(sizes@).take(k as int) =~= packet_lengths(sizes@));
    Ok((data, lens))
}

/// The frame counts of one transfer at the nominal rate.
pub open spec fn nominal(rate: u32, phase: u32) -> Seq<usize> {
    Seq::new(ISO_PKTS as nat, |k: int| paced_size(rate as int, phase as int, k) as usize)
}

/// Builds one OUT transfer at the nominal rate from what `fill`, which is handed its own state,
/// supplies: it is asked once for each packet. Returns `None` if it asked to stop, which ends
/// the calls; the pacing accumulator has then moved for the packets that were asked for.
pub fn build_out<S, F>(
    rate: u32,
    phase: &mut u32,
    planar: &mut Vec<Vec<i32>>,
    state: &mut S,
    fill: &F,
) -> (r: Option<(Vec<u8>, Vec<u32>)>) where F: Fn(&mut S, &mut [Vec<i32>], usize) -> bool
    requires
        can_pace(rate, *old(phase)),
        level(old(planar)@),
        forall|s: &mut S, p: &mut [Vec<i32>], n: usize|
            level((*p)@) && has_room((*p)@, n as int) ==> #[trigger] call_requires(
                *fill,
                (s, p, n),
            ),
        forall|s: &mut S, p: &mut [Vec<i32>], n: usize, stop: bool|
            level((*p)@) && has_room((*p)@, n as int) && #[trigger] call_ensures(
                *fill,
                (s, p, n),
                stop,
            ) ==> stop || (level((*final(p))@) && has_room((*final(p))@, n as int)),
    ensures
        can_pace(rate, *final(phase)),
        r is Some ==> level(final(planar)@),
        exists|ins: Seq<Seq<Vec<i32>>>, outs: Seq<Seq<Vec<i32>>>, states: Seq<S>|
            {
                &&& #[trigger] handed_on(
                    old(planar)@,
                    ins,
                    outs,
                    nominal(rate, *old(phase)),
                    final(planar)@,
                )
                &&& #[trigger] threaded(*old(state), states, *final(state), ins.len())
                &&& ins.len() <= ISO_PKTS
                &&& forall|k: int|
                    #[trigger] made(ins, k) ==> exists|
                        s: &mut S,
                        p: &mut [Vec<i32>],
                        n: usize,
                        stop: bool,
                    |
                        {
                            &&& #[trigger] call_ensures(*fill, (s, p, n), stop)
                            &&& is_call(
                                ins,
                                outs,
                                states,
                                nominal(rate, *old(phase)),
                                r is None,
                                k,
                                *s,
                                (*p)@,
                                n,
                                *final(s),
                                (*final(p))@,
                                stop,
                            )
                        }
                &&& *final(phase) == paced_phase(rate as int, *old(phase) as int, ins.len() as int)
                &&& match r {
                    Some((data, lens)) => {
                        &&& ins.len() == ISO_PKTS
                        &&& made(ins, 0)
                        &&& data@ == transfer_bytes(outs, nominal(rate, *old(phase)))
                        &&& lens@ == packet_lengths(nominal(rate, *old(phase)))
                    },
                    None => made(ins, 0) && made(ins, ins.len() - 1),
                }
            },
{
    let mut ahead: u32 = *phase;
    let sizes: Vec<usize> = nominal_sizes(rate, &mut ahead, ISO_PKTS);
    proof {
        assert(sizes@ =~= nominal(rate, *old(phase)));
        assert forall|k: int| 0 <= k < sizes@.len() implies #[trigger] sizes@[k] * FRAME_BYTES
            <= u32::MAX by {
            law_packet_near_average(rate as int, *old(phase) as int, k);
        }
    }
    match fill_packets(sizes.as_slice(), planar, state, fill) {
        Ok(transfer) => {
            *phase = ahead;
            Some(transfer)
        },
        Err(asked) => {
            let _ = nominal_sizes(rate, phase, asked);
            None
        },
    }
}

// ---------------------------- implicit feedback -----------------------------

/// Frames in each packet of a capture transfer, in order: the clock of the OUT endpoint.
pub open spec fn feedback(packets: Seq<PacketView>) -> Seq<u32> {
    Seq::new(packets.len(), |k: int| packet_frames(packets[k]) as u32)
}

/// The packet lengths fit the 32 bits in which USB stacks count them.
pub open spec fn sane(packets: Seq<PacketView>) -> bool {
    &&& forall|k: int| 0 <= k < packets.len() ==> (#[trigger] packets[k]).data.len() <= u32::MAX
    &&& captured(packets).len() <= usize::MAX
}

/// Whether the packets of a transfer are such as a USB stack can bring.
pub fn is_sane(packets: &[IsoPacket]) -> (r: bool)
    ensures
        r == sane(views(packets@)),
{
    let mut k: usize = 0;
    while k < packets.len()
        invariant
            k <= packets@.len(),
            forall|i: int|
                0 <= i < k ==> (#[trigger] views(packets@)[i]).data.len() <= u32::MAX,
        decreases packets@.len() - k,
    {
        assert(views(packets@)[k as int].data.len() == packets@[k as int].data@.len());
        if packets[k].data.len() > u32::MAX as usize {
            return false;
        }
        k = k + 1;
    }
    is_countable(packets)
}

/// Frame counts that an OUT transfer can carry: the byte length of each packet fits 32 bits.
pub open spec fn carriable(counts: Seq<u32>) -> bool {
    forall|k: int| 0 <= k < counts.len() ==> #[trigger] counts[k] * FRAME_BYTES <= u32::MAX
}

/// What waits in the feedback queue, oldest first.
pub open spec fn queued(fb: Seq<Vec<u32>>) -> Seq<Seq<u32>> {
    Seq::new(fb.len(), |i: int| fb[i]@)
}

/// Every entry of the feedback queue can be carried.
pub open spec fn all_carriable(fb: Seq<Seq<u32>>) -> bool {
    forall|i: int| 0 <= i < fb.len() ==> carriable(#[trigger] fb[i])
}

/// Frame counts of the next OUT transfer: the oldest feedback where there is any, else the
/// nominal rate.
pub open spec fn next_counts(rate: u32, phase: u32, fb: Seq<Seq<u32>>) -> Seq<usize> {
    if fb.len() > 0 {
        Seq::new(fb[0].len(), |k: int| fb[0][k] as usize)
    } else {
        nominal(rate, phase)
    }
}

/// Frame counts of the packets of a capture transfer; a packet that did not complete counts
/// as empty.
pub fn feedback_of(packets: &[IsoPacket]) -> (counts: Vec<u32>)
    requires
        sane(views(packets@)),
    ensures
        counts@ == feedback(views(packets@)),
        carriable(counts@),
{
    let mut counts: Vec<u32> = Vec::with_capacity(packets.len());
    let mut k: usize = 0;
    while k < packets.len()
        invariant
            k <= packets@.len(),
            sane(views(packets@)),
            counts@ == feedback(views(packets@)).take(k as int),
            carriable(counts@),
        decreases packets@.len() - k,
    {
        assert(views(packets@)[k as int] == packets@[k as int]@);
        let n: u32 = if packets[k].ok {
            (packets[k].data.len() / FRAME_BYTES) as u32
        } else {
            0
        };
        let ghost before = counts@;
        counts.push(n);
        assert(counts@ =~= feedback(views(packets@)).take(k + 1));
        k = k + 1;
    }
    assert(counts@ =~= feedback(views(packets@)));
    counts
}

/// Takes the frame counts of the next OUT transfer off the feedback queue, or paces them
/// where the queue is empty.
pub fn next_sizes(rate: u32, phase: &mut u32, fb: &mut VecDeque<Vec<u32>>) -> (sizes: Vec<usize>)
    requires
        can_pace(rate, *old(phase)),
    ensures
        sizes@ == next_counts(rate, *old(phase), queued(old(fb)@)),
        can_pace(rate, *final(phase)),
        old(fb)@.len() > 0 ==> final(fb)@ == old(fb)@.drop_first() && *final(phase) == *old(phase),
        old(fb)@.len() == 0 ==> final(fb)@ == old(fb)@ && *final(phase) == paced_phase(
            rate as int,
            *old(phase) as int,
            ISO_PKTS as int,
        ),
{
    match fb.pop_front() {
        Some(counts) => {
            let mut sizes: Vec<usize> = Vec::with_capacity(counts.len());
            let mut k: usize = 0;
            let ghost all = next_counts(rate, *old(phase), queued(old(fb)@));
            while k < counts.len()
                invariant
                    k <= counts@.len(),
                    all.len() == counts@.len(),
                    forall|i: int| 0 <= i < all.len() ==> all[i] == counts@[i] as usize,
                    sizes@ == all.take(k as int),
                decreases counts@.len() - k,
            {
                sizes.push(counts[k] as usize);
                k = k + 1;
                assert(sizes@ =~= all.take(k as int));
            }
            assert(sizes@ =~= all);
            sizes
        },
        None => {
            let sizes: Vec<usize> = nominal_sizes(rate, phase, ISO_PKTS);
            assert(sizes@ =~= nominal(rate, *old(phase)));
            sizes
        },
    }
}

/// Builds one OUT transfer from what `fill`, which is handed its own state, supplies, with the
/// frame counts of the oldest feedback, or of the nominal rate where there is none: it is asked
/// once for each packet, an empty one too. Returns `None` if it asked to stop, which ends the
/// calls.
pub fn build_out_fb<S, F>(
    rate: u32,
    phase: &mut u32,
    fb: &mut VecDeque<Vec<u32>>,
    planar: &mut Vec<Vec<i32>>,
    state: &mut S,
    fill: &F,
) -> (r: Option<(Vec<u8>, Vec<u32>)>) where F: Fn(&mut S, &mut [Vec<i32>], usize) -> bool
    requires
        can_pace(rate, *old(phase)),
        all_carriable(queued(old(fb)@)),
        level(old(planar)@),
        forall|s: &mut S, p: &mut [Vec<i32>], n: usize|
            level((*p)@) && has_room((*p)@, n as int) ==> #[trigger] call_requires(
                *fill,
                (s, p, n),
            ),
        forall|s: &mut S, p: &mut [Vec<i32>], n: usize, stop: bool|
            level((*p)@) && has_room((*p)@, n as int) && #[trigger] call_ensures(
                *fill,
                (s, p, n),
                stop,
            ) ==> stop || (level((*final(p))@) && has_room((*final(p))@, n as int)),
    ensures
        can_pace(rate, *final(phase)),
        old(fb)@.len() > 0 ==> final(fb)@ == old(fb)@.drop_first() && *final(phase) == *old(phase),
        old(fb)@.len() == 0 ==> final(fb)@ == old(fb)@ && *final(phase) == paced_phase(
            rate as int,
            *old(phase) as int,
            ISO_PKTS as int,
        ),
        r is Some ==> level(final(planar)@),
        exists|ins: Seq<Seq<Vec<i32>>>, outs: Seq<Seq<Vec<i32>>>, states: Seq<S>|
            {
                &&& #[trigger] handed_on(
                    old(planar)@,
                    ins,
                    outs,
                    next_counts(rate, *old(phase), queued(old(fb)@)),
                    final(planar)@,
                )
                &&& #[trigger] threaded(*old(state), states, *final(state), ins.len())
                &&& ins.len() <= next_counts(rate, *old(phase), queued(old(fb)@)).len()
                &&& forall|k: int| #[trigger]
                    made(ins, k) ==> exists|s: &mut S, p: &mut [Vec<i32>], n: usize, stop: bool|
                        {
                            &&& #[trigger] call_ensures(*fill, (s, p, n), stop)
                            &&& is_call(
                                ins,
                                outs,
                                states,
                                next_counts(rate, *old(phase), queued(old(fb)@)),
                                r is None,
                                k,
                                *s,
                                (*p)@,
                                n,
                                *final(s),
                                (*final(p))@,
                                stop,
                            )
                        }
                &&& match r {
                    Some((data, lens)) => {
                        &&& ins.len() == next_counts(rate, *old(phase), queued(old(fb)@)).len()
                        &&& data@ == transfer_bytes(
                            outs,
                            next_counts(rate, *old(phase), queued(old(fb)@)),
                        )
                        &&& lens@ == packet_lengths(
                            next_counts(rate, *old(phase), queued(old(fb)@)),
                        )
                    },
                    None => made(ins, 0) && made(ins, ins.len() - 1),
                }
            },
{
    let sizes: Vec<usize> = next_sizes(rate, phase, fb);
    proof {
        assert forall|k: int| 0 <= k < sizes@.len() implies #[trigger] sizes@[k] * FRAME_BYTES
            <= u32::MAX by {
            if old(fb)@.len() > 0 {
                assert(carriable(queued(old(fb)@)[0]));
                assert(queued(old(fb)@)[0][k] * FRAME_BYTES <= u32::MAX);
            } else {
                law_packet_near_average(rate as int, *old(phase) as int, k);
            }
        }
    }
    fill_packets(sizes.as_slice(), planar, state, fill).ok()
}

// ----------------------------------- laws -----------------------------------

/// A callback finds in its state every call that was made, and none besides: a tally that
/// call `k` raises by `steps[k]` stands higher by all of them together, and one that each call
/// raises by one stands higher by the number of calls.
pub proof fn law_calls_are_counted<S>(
    first: S,
    states: Seq<S>,
    last: S,
    calls: nat,
    tally: spec_fn(S) -> int,
    steps: Seq<int>,
)
    requires
        threaded(first, states, last, calls),
        steps.len() == calls,
        forall|k: int|
            0 <= k < calls ==> tally(#[trigger] states[k + 1]) == tally(states[k]) + steps[k],
    ensures
        tally(last) == tally(first) + sum(steps),
        (forall|k: int| 0 <= k < calls ==> steps[k] == 1) ==> sum(steps) == calls,
    decreases calls,
{
    if calls > 0 {
        let before = (calls - 1) as nat;
        assert forall|k: int| 0 <= k < before implies tally(
            #[trigger] states.drop_last()[k + 1],
        ) == tally(states.drop_last()[k]) + steps.drop_last()[k] by {
            assert(tally(states[k + 1]) == tally(states[k]) + steps[k]);
        }
        assert(states[before as int + 1] == last);
        law_calls_are_counted(
            first,
            states.drop_last(),
            states[before as int],
            before,
            tally,
            steps.drop_last(),
        );
    }
}

/// Where packet `k` starts in a transfer with these packet lengths.
pub open spec fn packet_offset(lens: Seq<u32>, k: int) -> int
    decreases k,
{
    if k <= 0 {
        0
    } else {
        packet_offset(lens, k - 1) + lens[k - 1]
    }
}

/// The packets of a transfer: its bytes, cut at these lengths.
pub open spec fn cut(data: Seq<u8>, lens: Seq<u32>) -> Seq<PacketView> {
    Seq::new(
        lens.len(),
        |k: int|
            PacketView {
                data: data.subrange(packet_offset(lens, k), packet_offset(lens, k) + lens[k]),
                ok: true,
            },
    )
}

/// The packet lengths of an OUT transfer add up to its bytes, and cutting the bytes there
/// gives, packet by packet, the frames that the callback supplied for it.
pub proof fn law_transfer_packets(bufs: Seq<Seq<Vec<i32>>>, sizes: Seq<usize>)
    requires
        bufs.len() <= sizes.len(),
        forall|k: int| 0 <= k < sizes.len() ==> #[trigger] sizes[k] * FRAME_BYTES <= u32::MAX,
    ensures
        packet_offset(packet_lengths(sizes), bufs.len() as int) == transfer_bytes(
            bufs,
            sizes,
        ).len(),
        forall|k: int|
            0 <= k < bufs.len() ==> #[trigger] cut(
                transfer_bytes(bufs, sizes),
                packet_lengths(sizes),
            )[k].data == packed(bufs[k], sizes[k] as nat),
    decreases bufs.len(),
{
    let lens = packet_lengths(sizes);
    if bufs.len() > 0 {
        let m = bufs.len() - 1;
        let front = bufs.drop_last();
        law_transfer_packets(front, sizes);
        let head = transfer_bytes(front, sizes);
        let all = transfer_bytes(bufs, sizes);
        let tail = packed(bufs.last(), sizes[m] as nat);
        assert(sizes[m] * FRAME_BYTES <= u32::MAX);
        assert(lens[m] == tail.len());
        assert forall|k: int| 0 <= k < bufs.len() implies #[trigger] cut(all, lens)[k].data
            == packed(bufs[k], sizes[k] as nat) by {
            lemma_offsets_grow(lens, k, m);
            if k < m {
                lemma_offsets_grow(lens, k + 1, m);
                assert(cut(head, lens)[k].data == packed(bufs[k], sizes[k] as nat));
                assert(cut(all, lens)[k].data =~= cut(head, lens)[k].data);
            } else {
                assert(cut(all, lens)[k].data =~= tail);
            }
        }
    }
}

/// Packets start inside the transfer, one after the other.
pub proof fn lemma_offsets_grow(lens: Seq<u32>, k: int, m: int)
    requires
        k <= m,
    ensures
        0 <= packet_offset(lens, k) <= packet_offset(lens, m),
    decreases m,
{
    if m > 0 {
        if k < m {
            lemma_offsets_grow(lens, k, m - 1);
        } else {
            lemma_offsets_grow(lens, m - 1, m - 1);
        }
    }
}

/// An OUT transfer that comes back as a capture transfer has the frame counts with which it
/// was built, and holds every sample that the callback supplied, reduced to 24 bits; samples
/// that fit 24 bits are unchanged.
pub proof fn law_transfer_round_trip(bufs: Seq<Seq<Vec<i32>>>, sizes: Seq<usize>)
    requires
        bufs.len() == sizes.len(),
        forall|k: int| 0 <= k < sizes.len() ==> #[trigger] sizes[k] * FRAME_BYTES <= u32::MAX,
        forall|k: int| 0 <= k < bufs.len() ==> has_frames(#[trigger] bufs[k], sizes[k] as int),
    ensures
        ({
            let packets = cut(transfer_bytes(bufs, sizes), packet_lengths(sizes));
            &&& packets.len() == sizes.len()
            &&& forall|k: int|
                0 <= k < sizes.len() ==> #[trigger] feedback(packets)[k] == sizes[k]
            &&& forall|k: int, f: int, c: int|
                #![trigger frames_of(packets[k])[f][c]]
                0 <= k < sizes.len() && 0 <= f < sizes[k] && 0 <= c < CHANNELS ==> {
                    &&& frames_of(packets[k])[f][c] == wrap24(bufs[k][c]@[f] as int)
                    &&& -0x80_0000 <= bufs[k][c]@[f] < 0x80_0000 ==> frames_of(packets[k])[f][c]
                        == bufs[k][c]@[f]
                }
        }),
{
    let data = transfer_bytes(bufs, sizes);
    let lens = packet_lengths(sizes);
    let packets = cut(data, lens);
    law_transfer_packets(bufs, sizes);
    assert forall|k: int| 0 <= k < sizes.len() implies #[trigger] feedback(packets)[k]
        == sizes[k] by {
        assert(sizes[k] * FRAME_BYTES <= u32::MAX);
        assert(packets[k].data == packed(bufs[k], sizes[k] as nat));
        law_frames_round_trip(bufs[k], sizes[k] as nat);
    }
    assert forall|k: int, f: int, c: int|
        #![trigger frames_of(packets[k])[f][c]]
        0 <= k < sizes.len() && 0 <= f < sizes[k] && 0 <= c < CHANNELS implies {
        &&& frames_of(packets[k])[f][c] == wrap24(bufs[k][c]@[f] as int)
        &&& -0x80_0000 <= bufs[k][c]@[f] < 0x80_0000 ==> frames_of(packets[k])[f][c]
            == bufs[k][c]@[f]
    } by {
        assert(packets[k].data == packed(bufs[k], sizes[k] as nat));
        assert(packets[k] == PacketView { data: packed(bufs[k], sizes[k] as nat), ok: true });
        law_frames_round_trip(bufs[k], sizes[k] as nat);
    }
}

/// The samples of each channel.
pub open spec fn rows(planar: Seq<Vec<i32>>) -> Seq<Seq<i32>> {
    Seq::new(planar.len(), |c: int| planar[c]@)
}

/// All samples are zero.
pub open spec fn silent(planar: Seq<Vec<i32>>) -> bool {
    forall|c: int, i: int|
        #![trigger planar[c]@[i]]
        0 <= c < planar.len() && 0 <= i < planar[c]@.len() ==> planar[c]@[i] == 0
}

/// A callback that writes nothing plays what the buffer holds: from a silent one, such as the
/// empty one of a new stream, the transfer is silent, and the buffer stays so.
pub proof fn law_untouched_transfer_is_silent(
    first: Seq<Vec<i32>>,
    ins: Seq<Seq<Vec<i32>>>,
    outs: Seq<Seq<Vec<i32>>>,
    sizes: Seq<usize>,
    last: Seq<Vec<i32>>,
)
    requires
        level(first),
        silent(first),
        ins.len() <= sizes.len(),
        handed_on(first, ins, outs, sizes, last),
        forall|k: int| #[trigger] made(ins, k) ==> rows(outs[k]) == rows(ins[k]),
    ensures
        level(last),
        silent(last),
        forall|i: int|
            0 <= i < transfer_bytes(outs, sizes).len() ==> #[trigger] transfer_bytes(outs, sizes)[i]
                == 0,
    decreases ins.len(),
{
    if ins.len() > 0 {
        let m = ins.len() - 1;
        let front_ins = ins.drop_last();
        let front_outs = outs.drop_last();
        let before = found(first, outs, m);
        assert forall|k: int| 0 <= k < front_ins.len() implies prepared(
            found(first, front_outs, k),
            #[trigger] front_ins[k],
            sizes[k] as int,
        ) by {
            assert(front_ins[k] == ins[k]);
        }
        assert forall|k: int| #[trigger] made(front_ins, k) implies rows(front_outs[k]) == rows(
            front_ins[k],
        ) by {
            assert(made(ins, k));
        }
        assert(handed_on(first, front_ins, front_outs, sizes, before));
        law_untouched_transfer_is_silent(first, front_ins, front_outs, sizes, before);
        assert(prepared(before, ins[m], sizes[m] as int));
        lemma_prepared(before, ins[m], sizes[m] as int);
        assert(made(ins, m));
        assert(rows(outs[m]).len() == rows(ins[m]).len());
        assert forall|c: int| 0 <= c < CHANNELS implies (#[trigger] outs[m][c])@ == ins[m][c]@ by {
            assert(rows(outs[m])[c] == rows(ins[m])[c]);
        }
        assert forall|c: int, i: int|
            #![trigger outs[m][c]@[i]]
            0 <= c < CHANNELS && 0 <= i < outs[m][c]@.len() implies outs[m][c]@[i] == 0 by {
            assert(outs[m][c]@ == ins[m][c]@);
            if before[0]@.len() < sizes[m] {
                assert(ins[m][c]@ == resized(before[c]@, sizes[m] as nat));
                if i < before[c]@.len() {
                    assert(before[c]@[i] == 0);
                }
            } else {
                assert(before[c]@[i] == 0);
            }
        }
        let tail = packed(outs[m], sizes[m] as nat);
        assert forall|i: int| 0 <= i < tail.len() implies #[trigger] tail[i] == 0 by {
            let c = i % 18 / 3;
            let f = i / 18;
            assert(0 <= c < 6 && 0 <= f < sizes[m]);
            assert(sizes[m] <= ins[m][c]@.len());
            assert(outs[m][c]@ == ins[m][c]@);
            assert(outs[m][c]@[f] == 0);
        }
        assert(outs.last() == outs[m]);
        let all = transfer_bytes(outs, sizes);
        assert(all == transfer_bytes(front_outs, sizes) + tail);
    }
}

/// Buffers with the same samples are prepared alike.
proof fn lemma_prepared_alike(
    before1: Seq<Vec<i32>>,
    after1: Seq<Vec<i32>>,
    before2: Seq<Vec<i32>>,
    after2: Seq<Vec<i32>>,
    nf: int,
)
    requires
        level(before1),
        level(before2),
        rows(before1) == rows(before2),
        prepared(before1, after1, nf),
        prepared(before2, after2, nf),
    ensures
        rows(after1) == rows(after2),
{
    assert(rows(before1)[0] == rows(before2)[0]);
    assert forall|c: int| 0 <= c < CHANNELS implies #[trigger] rows(after1)[c] == rows(
        after2,
    )[c] by {
        assert(rows(before1)[c] == rows(before2)[c]);
        if before1[0]@.len() < nf {
            assert(after1[c]@ == resized(before1[c]@, nf as nat));
            assert(after2[c]@ == resized(before2[c]@, nf as nat));
        }
    }
    assert(rows(after1) =~= rows(after2));
}

/// Two runs from the same buffer and state, with a callback that its state and what it is
/// handed determine, go alike.
proof fn lemma_runs_alike<S, V, F: Fn(&mut S, &mut [Vec<i32>], usize) -> bool>(
    fill: F,
    seen: spec_fn(S) -> V,
    sizes: Seq<usize>,
    first: Seq<Vec<i32>>,
    state: S,
    ins1: Seq<Seq<Vec<i32>>>,
    outs1: Seq<Seq<Vec<i32>>>,
    last1: Seq<Vec<i32>>,
    states1: Seq<S>,
    left1: S,
    stopped1: bool,
    ins2: Seq<Seq<Vec<i32>>>,
    outs2: Seq<Seq<Vec<i32>>>,
    last2: Seq<Vec<i32>>,
    states2: Seq<S>,
    left2: S,
    stopped2: bool,
    k: int,
)
    requires
        level(first),
        forall|s: &mut S, p: &mut [Vec<i32>], n: usize, stop: bool|
            level((*p)@) && has_room((*p)@, n as int) && #[trigger] call_ensures(
                fill,
                (s, p, n),
                stop,
            ) ==> stop || (level((*final(p))@) && has_room((*final(p))@, n as int)),
        forall|
            s: &mut S,
            t: &mut S,
            p: &mut [Vec<i32>],
            q: &mut [Vec<i32>],
            n: usize,
            x: bool,
            y: bool,
        |
            seen(*s) == seen(*t) && rows((*p)@) == rows((*q)@) && #[trigger] call_ensures(
                fill,
                (s, p, n),
                x,
            ) && #[trigger] call_ensures(fill, (t, q, n), y) ==> {
                &&& x == y
                &&& seen(*final(s)) == seen(*final(t))
                &&& rows((*final(p))@) == rows((*final(q))@)
            },
        handed_on(first, ins1, outs1, sizes, last1),
        threaded(state, states1, left1, ins1.len()),
        forall|k: int| #[trigger]
            made(ins1, k) ==> exists|s: &mut S, p: &mut [Vec<i32>], n: usize, stop: bool|
                {
                    &&& #[trigger] call_ensures(fill, (s, p, n), stop)
                    &&& is_call(
                        ins1,
                        outs1,
                        states1,
                        sizes,
                        stopped1,
                        k,
                        *s,
                        (*p)@,
                        n,
                        *final(s),
                        (*final(p))@,
                        stop,
                    )
                },
        if stopped1 {
            made(ins1, ins1.len() - 1) && ins1.len() <= sizes.len()
        } else {
            ins1.len() == sizes.len()
        },
        handed_on(first, ins2, outs2, sizes, last2),
        threaded(state, states2, left2, ins2.len()),
        forall|k: int| #[trigger]
            made(ins2, k) ==> exists|s: &mut S, p: &mut [Vec<i32>], n: usize, stop: bool|
                {
                    &&& #[trigger] call_ensures(fill, (s, p, n), stop)
                    &&& is_call(
                        ins2,
                        outs2,
                        states2,
                        sizes,
                        stopped2,
                        k,
                        *s,
                        (*p)@,
                        n,
                        *final(s),
                        (*final(p))@,
                        stop,
                    )
                },
        if stopped2 {
            made(ins2, ins2.len() - 1) && ins2.len() <= sizes.len()
        } else {
            ins2.len() == sizes.len()
        },
        0 <= k <= ins1.len(),
        k <= ins2.len(),
    ensures
        forall|j: int|
            0 <= j < k ==> {
                &&& rows(#[trigger] outs1[j]) == rows(outs2[j])
                &&& seen(states1[j + 1]) == seen(states2[j + 1])
                &&& (stopped1 && j == ins1.len() - 1) == (stopped2 && j == ins2.len() - 1)
            },
        k == 0 || (stopped1 && k == ins1.len()) || level(found(first, outs1, k)),
        k == 0 || (stopped2 && k == ins2.len()) || level(found(first, outs2, k)),
    decreases k,
{
    if k > 0 {
        let j = k - 1;
        lemma_runs_alike(
            fill,
            seen,
            sizes,
            first,
            state,
            ins1,
            outs1,
            last1,
            states1,
            left1,
            stopped1,
            ins2,
            outs2,
            last2,
            states2,
            left2,
            stopped2,
            j,
        );
        let before1 = found(first, outs1, j);
        let before2 = found(first, outs2, j);
        if j > 0 {
            assert(rows(outs1[j - 1]) == rows(outs2[j - 1]));
            assert(seen(states1[j - 1 + 1]) == seen(states2[j - 1 + 1]));
        }
        assert(seen(states1[j]) == seen(states2[j]));
        assert(level(before1) && level(before2));
        assert(prepared(before1, ins1[j], sizes[j] as int));
        assert(prepared(before2, ins2[j], sizes[j] as int));
        lemma_prepared(before1, ins1[j], sizes[j] as int);
        lemma_prepared(before2, ins2[j], sizes[j] as int);
        lemma_prepared_alike(before1, ins1[j], before2, ins2[j], sizes[j] as int);
        assert(rows(ins1[j]) == rows(ins2[j]));
        assert(made(ins1, j));
        assert(made(ins2, j));
        assert(rows(outs1[j]) == rows(outs2[j]));
        assert(seen(states1[j + 1]) == seen(states2[j + 1]));
        assert((stopped1 && j == ins1.len() - 1) == (stopped2 && j == ins2.len() - 1));
        assert forall|i: int| 0 <= i < k implies {
            &&& rows(#[trigger] outs1[i]) == rows(outs2[i])
            &&& seen(states1[i + 1]) == seen(states2[i + 1])
            &&& (stopped1 && i == ins1.len() - 1) == (stopped2 && i == ins2.len() - 1)
        } by {
            assert(rows(outs1[i]) == rows(outs2[i]));
        }
    }
}

/// Packets with the same samples have the same bytes.
proof fn lemma_bytes_alike(
    bufs1: Seq<Seq<Vec<i32>>>,
    bufs2: Seq<Seq<Vec<i32>>>,
    sizes: Seq<usize>,
)
    requires
        bufs1.len() == bufs2.len(),
        forall|k: int|
            0 <= k < bufs1.len() ==> rows(#[trigger] bufs1[k]) == rows(bufs2[k])
                && bufs1[k].len() == CHANNELS,
    ensures
        transfer_bytes(bufs1, sizes) == transfer_bytes(bufs2, sizes),
    decreases bufs1.len(),
{
    if bufs1.len() > 0 {
        let m = bufs1.len() - 1;
        assert forall|k: int| 0 <= k < m implies rows(#[trigger] bufs1.drop_last()[k]) == rows(
            bufs2.drop_last()[k],
        ) && bufs1.drop_last()[k].len() == CHANNELS by {
            assert(rows(bufs1[k]) == rows(bufs2[k]));
        }
        lemma_bytes_alike(bufs1.drop_last(), bufs2.drop_last(), sizes);
        assert(rows(bufs1[m]) == rows(bufs2[m]));
        assert(rows(bufs1[m]).len() == rows(bufs2[m]).len());
        let nf = sizes[m] as nat;
        assert forall|i: int| 0 <= i < nf * 18 implies packed(bufs1[m], nf)[i] == packed(
            bufs2[m],
            nf,
        )[i] by {
            let c = i % 18 / 3;
            assert(0 <= c < 6);
            assert(rows(bufs1[m])[c] == rows(bufs2[m])[c]);
            assert(bufs1[m][c]@ == bufs2[m][c]@);
        }
        assert(packed(bufs1[m], nf) =~= packed(bufs2[m], nf));
    }
}

/// Without feedback, a transfer that is built with a feedback queue is the one that is built
/// at the nominal rate. Let the first run be that of `build_out`, the second that of
/// `build_out_fb` on an empty queue, from the same buffer, accumulator and callback state and
/// with the same callback, which is determined by what it has `seen` of its state and what it
/// is handed. Then either both are stopped or both give the same bytes and packet lengths, and
/// leave the same accumulator; the callback is left in a state in which it has seen the same.
pub proof fn law_no_feedback_is_nominal<S, V, F: Fn(&mut S, &mut [Vec<i32>], usize) -> bool>(
    fill: F,
    seen: spec_fn(S) -> V,
    rate: u32,
    phase: u32,
    first: Seq<Vec<i32>>,
    state: S,
    ins1: Seq<Seq<Vec<i32>>>,
    outs1: Seq<Seq<Vec<i32>>>,
    last1: Seq<Vec<i32>>,
    states1: Seq<S>,
    left1: S,
    stopped1: bool,
    ins2: Seq<Seq<Vec<i32>>>,
    outs2: Seq<Seq<Vec<i32>>>,
    last2: Seq<Vec<i32>>,
    states2: Seq<S>,
    left2: S,
    stopped2: bool,
)
    requires
        level(first),
        forall|s: &mut S, p: &mut [Vec<i32>], n: usize, stop: bool|
            level((*p)@) && has_room((*p)@, n as int) && #[trigger] call_ensures(
                fill,
                (s, p, n),
                stop,
            ) ==> stop || (level((*final(p))@) && has_room((*final(p))@, n as int)),
        forall|
            s: &mut S,
            t: &mut S,
            p: &mut [Vec<i32>],
            q: &mut [Vec<i32>],
            n: usize,
            x: bool,
            y: bool,
        |
            seen(*s) == seen(*t) && rows((*p)@) == rows((*q)@) && #[trigger] call_ensures(
                fill,
                (s, p, n),
                x,
            ) && #[trigger] call_ensures(fill, (t, q, n), y) ==> {
                &&& x == y
                &&& seen(*final(s)) == seen(*final(t))
                &&& rows((*final(p))@) == rows((*final(q))@)
            },
        handed_on(first, ins1, outs1, nominal(rate, phase), last1),
        threaded(state, states1, left1, ins1.len()),
        forall|k: int| #[trigger]
            made(ins1, k) ==> exists|s: &mut S, p: &mut [Vec<i32>], n: usize, stop: bool|
                {
                    &&& #[trigger] call_ensures(fill, (s, p, n), stop)
                    &&& is_call(
                        ins1,
                        outs1,
                        states1,
                        nominal(rate, phase),
                        stopped1,
                        k,
                        *s,
                        (*p)@,
                        n,
                        *final(s),
                        (*final(p))@,
                        stop,
                    )
                },
        if stopped1 {
            made(ins1, ins1.len() - 1) && ins1.len() <= nominal(rate, phase).len()
        } else {
            ins1.len() == nominal(rate, phase).len()
        },
        handed_on(first, ins2, outs2, next_counts(rate, phase, Seq::empty()), last2),
        threaded(state, states2, left2, ins2.len()),
        forall|k: int| #[trigger]
            made(ins2, k) ==> exists|s: &mut S, p: &mut [Vec<i32>], n: usize, stop: bool|
                {
                    &&& #[trigger] call_ensures(fill, (s, p, n), stop)
                    &&& is_call(
                        ins2,
                        outs2,
                        states2,
                        next_counts(rate, phase, Seq::empty()),
                        stopped2,
                        k,
                        *s,
                        (*p)@,
                        n,
                        *final(s),
                        (*final(p))@,
                        stop,
                    )
                },
        if stopped2 {
            made(ins2, ins2.len() - 1) && ins2.len() <= next_counts(rate, phase, Seq::empty()).len()
        } else {
            ins2.len() == next_counts(rate, phase, Seq::empty()).len()
        },
    ensures
        next_counts(rate, phase, Seq::empty()) == nominal(rate, phase),
        stopped1 == stopped2,
        ins1.len() == ins2.len(),
        seen(left1) == seen(left2),
        packet_lengths(nominal(rate, phase)) == packet_lengths(
            next_counts(rate, phase, Seq::empty()),
        ),
        !stopped1 ==> transfer_bytes(outs1, nominal(rate, phase)) == transfer_bytes(
            outs2,
            next_counts(rate, phase, Seq::empty()),
        ),
        !stopped1 ==> paced_phase(rate as int, phase as int, ins1.len() as int) == paced_phase(
            rate as int,
            phase as int,
            ISO_PKTS as int,
        ),
{
    let sizes = nominal(rate, phase);
    assert(next_counts(rate, phase, Seq::empty()) == sizes);
    let k: int = if ins1.len() <= ins2.len() {
        ins1.len() as int
    } else {
        ins2.len() as int
    };
    lemma_runs_alike(
        fill,
        seen,
        sizes,
        first,
        state,
        ins1,
        outs1,
        last1,
        states1,
        left1,
        stopped1,
        ins2,
        outs2,
        last2,
        states2,
        left2,
        stopped2,
        k,
    );
    assert(k > 0);
    assert(rows(outs1[k - 1]) == rows(outs2[k - 1]));
    assert(seen(states1[k - 1 + 1]) == seen(states2[k - 1 + 1]));
    if !stopped1 {
        assert forall|j: int| 0 <= j < outs1.len() implies rows(#[trigger] outs1[j]) == rows(
            outs2[j],
        ) && outs1[j].len() == CHANNELS by {
            lemma_runs_alike(
                fill,
                seen,
                sizes,
                first,
                state,
                ins1,
                outs1,
                last1,
                states1,
                left1,
                stopped1,
                ins2,
                outs2,
                last2,
                states2,
                left2,
                stopped2,
                j + 1,
            );
            assert(found(first, outs1, j + 1) == outs1[j]);
        }
        lemma_bytes_alike(outs1, outs2, sizes);
    }
}

/// Implicit feedback: the OUT transfer built from the feedback of a capture transfer has as
/// many packets, and each carries as many frames as its counterpart brought.
pub proof fn law_out_mirrors_in(rate: u32, phase: u32, packets: Seq<PacketView>, fb: Seq<Seq<u32>>)
    requires
        sane(packets),
        fb.len() > 0,
        fb[0] == feedback(packets),
    ensures
        ({
            let lens = packet_lengths(next_counts(rate, phase, fb));
            &&& lens.len() == packets.len()
            &&& forall|k: int|
                0 <= k < packets.len() ==> #[trigger] lens[k] == packet_frames(packets[k])
                    * FRAME_BYTES
        }),
{
    let sizes = next_counts(rate, phase, fb);
    let lens = packet_lengths(sizes);
    assert forall|k: int| 0 <= k < packets.len() implies #[trigger] lens[k] == packet_frames(
        packets[k],
    ) * FRAME_BYTES by {
        assert(packets[k].data.len() <= u32::MAX);
        assert(packet_frames(packets[k]) * 18 <= u32::MAX);
        assert(sizes[k] == packet_frames(packets[k]));
    }
}

/// What `prepare` does: where the first channel has room for the frames, nothing; else every
/// channel is made exactly as long as the frames, keeping its samples and with zeros behind them.
pub proof fn law_prepared(nf: usize)
    ensures
        forall|planar: &mut Vec<Vec<i32>>|
            (*planar)@.len() == 6 && #[trigger] call_ensures(prepare, (planar, nf), ()) ==> {
                let before = (*planar)@;
                let after = (*final(planar))@;
                &&& after.len() == 6
                &&& before[0]@.len() >= nf ==> after == before
                &&& before[0]@.len() < nf ==> forall|c: int|
                    0 <= c < 6 ==> {
                        &&& (#[trigger] after[c])@.len() == nf
                        &&& forall|i: int|
                            0 <= i < nf ==> #[trigger] after[c]@[i] == if i < before[c]@.len() {
                                before[c]@[i]
                            } else {
                                0
                            }
                    }
            },
{
}

/// What the words about one call of a callback mean: it found the state and the buffer that were
/// handed to it, was asked for the frames of its packet, left what the next call finds, and
/// answered stop only as the last call, and then exactly where the calls were stopped.
pub proof fn law_call_words<S>(
    ins: Seq<Seq<Vec<i32>>>,
    outs: Seq<Seq<Vec<i32>>>,
    states: Seq<S>,
    sizes: Seq<usize>,
    stopped: bool,
    k: int,
    state: S,
    before: Seq<Vec<i32>>,
    n: usize,
    left: S,
    after: Seq<Vec<i32>>,
    stop: bool,
)
    ensures
        made(ins, k) <==> 0 <= k < ins.len(),
        is_call(ins, outs, states, sizes, stopped, k, state, before, n, left, after, stop) ==> {
            &&& state == states[k]
            &&& before == ins[k]
            &&& n == sizes[k]
            &&& left == states[k + 1]
            &&& after == outs[k]
            &&& k < ins.len() - 1 ==> !stop
            &&& k == ins.len() - 1 ==> stop == stopped
        },
{
}

/// What the words about successive calls mean: the first call finds the state and the buffer of
/// the start, each later one what the one before it left, and the end has what the last one left.
/// A buffer is handed on as it is, or, where its first channel is too short for the frames, with
/// every channel made as long as they are.
pub proof fn law_run_words<S>(
    first: Seq<Vec<i32>>,
    ins: Seq<Seq<Vec<i32>>>,
    outs: Seq<Seq<Vec<i32>>>,
    sizes: Seq<usize>,
    last: Seq<Vec<i32>>,
    start: S,
    states: Seq<S>,
    end: S,
    calls: nat,
    k: int,
)
    requires
        handed_on(first, ins, outs, sizes, last),
        threaded(start, states, end, calls),
    ensures
        states.len() == calls + 1,
        states[0] == start,
        states[calls as int] == end,
        outs.len() == ins.len(),
        ins.len() == 0 ==> last == first,
        ins.len() > 0 ==> last == outs[ins.len() - 1],
        0 <= k < ins.len() ==> {
            let before = if k == 0 {
                first
            } else {
                outs[k - 1]
            };
            &&& ins[k].len() == before.len()
            &&& before[0]@.len() >= sizes[k] ==> ins[k] == before
            &&& before[0]@.len() < sizes[k] ==> forall|c: int|
                0 <= c < 6 ==> {
                    &&& (#[trigger] ins[k][c])@.len() == sizes[k]
                    &&& forall|i: int|
                        0 <= i < sizes[k] ==> #[trigger] ins[k][c]@[i] == if i < before[c]@.len() {
                            before[c]@[i]
                        } else {
                            0
                        }
                }
        },
{
    if 0 <= k < ins.len() {
        let before = found(first, outs, k);
        assert(prepared(before, ins[k], sizes[k] as int));
        if before[0]@.len() < sizes[k] {
            assert forall|c: int| 0 <= c < 6 implies {
                &&& (#[trigger] ins[k][c])@.len() == sizes[k]
                &&& forall|i: int|
                    0 <= i < sizes[k] ==> #[trigger] ins[k][c]@[i] == if i < before[c]@.len() {
                        before[c]@[i]
                    } else {
                        0
                    }
            } by {
                assert(ins[k][c]@ == resized(before[c]@, sizes[k] as nat));
            }
        }
    }
}

/// How long an OUT transfer is: eighteen bytes for every frame of every packet, each packet
/// beginning where the one before it ends, and no other bytes.
pub proof fn law_transfer_lengths(bufs: Seq<Seq<Vec<i32>>>, sizes: Seq<usize>, k: int)
    requires
        bufs.len() == sizes.len(),
        forall|k: int| 0 <= k < sizes.len() ==> #[trigger] sizes[k] * 18 <= 4294967295,
        0 <= k < sizes.len(),
    ensures
        packet_lengths(sizes).len() == sizes.len(),
        packet_lengths(sizes)[k] == 18 * sizes[k],
        packet_offset(packet_lengths(sizes), 0) == 0,
        packet_offset(packet_lengths(sizes), k + 1) == packet_offset(packet_lengths(sizes), k) + 18
            * sizes[k],
        transfer_bytes(bufs, sizes).len() == packet_offset(
            packet_lengths(sizes),
            sizes.len() as int,
        ),
{
    law_transfer_packets(bufs, sizes);
    assert(sizes[k] * 18 <= 4294967295);
}

/// What a packet of an OUT transfer holds: sample `f` of channel `c` that the callback left for
/// packet `k` takes the three bytes from `18 * f + 3 * c` of the packet on, which give back its
/// low 24 bits.
pub proof fn law_transfer_samples(bufs: Seq<Seq<Vec<i32>>>, sizes: Seq<usize>, k: int)
    requires
        bufs.len() == sizes.len(),
        forall|k: int| 0 <= k < sizes.len() ==> #[trigger] sizes[k] * 18 <= 4294967295,
        0 <= k < sizes.len(),
    ensures
        ({
            let off = packet_offset(packet_lengths(sizes), k);
            let all = transfer_bytes(bufs, sizes);
            &&& 0 <= off
            &&& off + 18 * sizes[k] <= all.len()
            &&& forall|f: int, c: int|
                #![trigger bufs[k][c]@[f]]
                0 <= f < sizes[k] && 0 <= c < 6 ==> {
                    let at = off + 18 * f + 3 * c;
                    all[at] + 256 * all[at + 1] + 65536 * all[at + 2] == bufs[k][c]@[f] % 16777216
                }
        }),
{
    let lens = packet_lengths(sizes);
    let all = transfer_bytes(bufs, sizes);
    law_transfer_packets(bufs, sizes);
    assert(cut(all, lens)[k].data == packed(bufs[k], sizes[k] as nat));
    lemma_offsets_grow(lens, 0, k);
    lemma_offsets_grow(lens, k + 1, sizes.len() as int);
    assert(sizes[k] * 18 <= 4294967295);
    assert(lens[k] == 18 * sizes[k]);
    assert(packet_offset(lens, k + 1) == packet_offset(lens, k) + lens[k]);
    lemma_packed_inside(all, packet_offset(lens, k), bufs[k], sizes[k] as nat);
}

/// A transfer that is cut at its packet lengths gives its bytes back, packet by packet.
pub proof fn law_cut(data: Seq<u8>, lens: Seq<u32>, k: int)
    requires
        0 <= k < lens.len(),
        packet_offset(lens, lens.len() as int) <= data.len(),
    ensures
        cut(data, lens).len() == lens.len(),
        cut(data, lens)[k].ok,
        cut(data, lens)[k].data.len() == lens[k],
        forall|i: int|
            0 <= i < lens[k] ==> #[trigger] cut(data, lens)[k].data[i] == data[packet_offset(lens, k)
                + i],
{
    lemma_offsets_grow(lens, 0, k);
    lemma_offsets_grow(lens, k + 1, lens.len() as int);
}

/// A transfer at the nominal rate has 16 packets, of which packet `k` carries what becomes due
/// between the times of `k` and of `k + 1` packets.
pub proof fn law_nominal_transfer(rate: u32, phase: u32)
    requires
        phase < 8000,
    ensures
        nominal(rate, phase).len() == 16,
        forall|k: int|
            0 <= k < 16 ==> #[trigger] nominal(rate, phase)[k] == (phase + (k + 1) * rate) / 8000 - (
            phase + k * rate) / 8000,
{
    assert forall|k: int| 0 <= k < 16 implies #[trigger] nominal(rate, phase)[k] == (phase + (k + 1)
        * rate) / 8000 - (phase + k * rate) / 8000 by {
        law_packet_near_average(rate as int, phase as int, k);
    }
}

/// What building a transfer at the nominal rate leads to. It has 16 packets, of eighteen bytes
/// for every frame that is due, and as many bytes as those lengths say; the accumulator then
/// stands where 16 packets leave it.
pub proof fn law_built_at_nominal_rate<S, F: Fn(&mut S, &mut [Vec<i32>], usize) -> bool>(
    rate: u32,
    fill: &F,
)
    ensures
        forall|
            phase: &mut u32,
            planar: &mut Vec<Vec<i32>>,
            state: &mut S,
            data: Vec<u8>,
            lens: Vec<u32>,
        |
            can_pace(rate, *phase) && #[trigger] call_ensures(
                build_out::<S, F>,
                (rate, phase, planar, state, fill),
                Some((data, lens)),
            ) ==> {
                &&& *final(phase) == (*phase + 16 * rate) % 8000
                &&& lens@.len() == 16
                &&& data@.len() == packet_offset(lens@, 16)
                &&& forall|k: int|
                    0 <= k < 16 ==> #[trigger] lens@[k] == 18 * ((*phase + (k + 1) * rate) / 8000 - (
                    *phase + k * rate) / 8000)
            },
{
    assert forall|
        phase: &mut u32,
        planar: &mut Vec<Vec<i32>>,
        state: &mut S,
        data: Vec<u8>,
        lens: Vec<u32>,
    |
        can_pace(rate, *phase) && #[trigger] call_ensures(
            build_out::<S, F>,
            (rate, phase, planar, state, fill),
            Some((data, lens)),
        ) implies {
        &&& *final(phase) == (*phase + 16 * rate) % 8000
        &&& lens@.len() == 16
        &&& data@.len() == packet_offset(lens@, 16)
        &&& forall|k: int|
            0 <= k < 16 ==> #[trigger] lens@[k] == 18 * ((*phase + (k + 1) * rate) / 8000 - (*phase
                + k * rate) / 8000)
    } by {
        let sizes = nominal(rate, *phase);
        law_nominal_transfer(rate, *phase);
        assert forall|k: int| 0 <= k < sizes.len() implies #[trigger] sizes[k] * FRAME_BYTES
            <= u32::MAX by {
            law_packet_near_average(rate as int, *phase as int, k);
        }
        assert forall|k: int| 0 <= k < 16 implies #[trigger] lens@[k] == 18 * ((*phase + (k + 1)
            * rate) / 8000 - (*phase + k * rate) / 8000) by {
            assert(sizes[k] * FRAME_BYTES <= u32::MAX);
        }
        assert forall|bufs: Seq<Seq<Vec<i32>>>| bufs.len() == 16 implies (#[trigger] transfer_bytes(
            bufs,
            sizes,
        )).len() == packet_offset(lens@, 16) by {
            law_transfer_packets(bufs, sizes);
        }
    }
}

/// The clock of a capture transfer is how many whole frames each of its packets brought; one that
/// did not complete brought none.
pub proof fn law_feedback_counts(packets: &[IsoPacket], counts: Vec<u32>, fits: bool)
    requires
        call_ensures(is_sane, (packets,), fits),
        fits,
        call_ensures(feedback_of, (packets,), counts),
    ensures
        counts@.len() == packets@.len(),
        forall|k: int|
            0 <= k < packets@.len() ==> #[trigger] counts@[k] == if packets@[k].ok {
                packets@[k].data@.len() / 18
            } else {
                0
            },
{
    assert forall|k: int| 0 <= k < packets@.len() implies #[trigger] counts@[k] == if packets@[k].ok {
        packets@[k].data@.len() / 18
    } else {
        0
    } by {
        assert(views(packets@)[k] == packets@[k]@);
        assert(views(packets@)[k].data.len() <= u32::MAX);
    }
}

/// Which captures streams take: those whose packets are counted in 32 bits, and whose frames can
/// be counted.
pub proof fn law_sane_captures(packets: &[IsoPacket], r: bool)
    requires
        call_ensures(is_sane, (packets,), r),
    ensures
        r <==> captured(views(packets@)).len() <= usize::MAX && forall|k: int|
            0 <= k < packets@.len() ==> (#[trigger] packets@[k]).data@.len() <= 4294967295,
{
    let all = views(packets@);
    if sane(all) {
        assert forall|k: int| 0 <= k < packets@.len() implies (
        #[trigger] packets@[k]).data@.len() <= 4294967295 by {
            assert(all[k].data.len() <= u32::MAX);
        }
    }
    if forall|k: int|
        0 <= k < packets@.len() ==> (#[trigger] packets@[k]).data@.len() <= 4294967295 {
        assert forall|k: int| 0 <= k < all.len() implies (#[trigger] all[k]).data.len()
            <= u32::MAX by {
            assert(packets@[k].data@.len() <= 4294967295);
        }
    }
}

/// Which frame counts a transfer has: those of the oldest feedback, which is then gone, with the
/// accumulator untouched; where there is none, those of 16 packets at the nominal rate, by which
/// the accumulator moves.
pub proof fn law_oldest_feedback_first(rate: u32)
    ensures
        forall|phase: &mut u32, fb: &mut VecDeque<Vec<u32>>, sizes: Vec<usize>|
            can_pace(rate, *phase) && #[trigger] call_ensures(next_sizes, (rate, phase, fb), sizes)
                ==> {
                &&& (*fb)@.len() > 0 ==> {
                    &&& sizes@.len() == (*fb)@[0]@.len()
                    &&& forall|k: int|
                        0 <= k < sizes@.len() ==> #[trigger] sizes@[k] == (*fb)@[0]@[k]
                    &&& (*final(fb))@ == (*fb)@.skip(1)
                    &&& *final(phase) == *phase
                }
                &&& (*fb)@.len() == 0 ==> {
                    &&& sizes@.len() == 16
                    &&& forall|k: int|
                        0 <= k < 16 ==> #[trigger] sizes@[k] == (*phase + (k + 1) * rate) / 8000 - (
                        *phase + k * rate) / 8000
                    &&& (*final(fb))@.len() == 0
                    &&& *final(phase) == (*phase + 16 * rate) % 8000
                }
            },
{
    assert forall|phase: &mut u32, fb: &mut VecDeque<Vec<u32>>, sizes: Vec<usize>|
        can_pace(rate, *phase) && #[trigger] call_ensures(next_sizes, (rate, phase, fb), sizes)
        implies {
        &&& (*fb)@.len() > 0 ==> {
            &&& sizes@.len() == (*fb)@[0]@.len()
            &&& forall|k: int| 0 <= k < sizes@.len() ==> #[trigger] sizes@[k] == (*fb)@[0]@[k]
            &&& (*final(fb))@ == (*fb)@.skip(1)
            &&& *final(phase) == *phase
        }
        &&& (*fb)@.len() == 0 ==> {
            &&& sizes@.len() == 16
            &&& forall|k: int|
                0 <= k < 16 ==> #[trigger] sizes@[k] == (*phase + (k + 1) * rate) / 8000 - (*phase + k
                    * rate) / 8000
            &&& (*final(fb))@.len() == 0
            &&& *final(phase) == (*phase + 16 * rate) % 8000
        }
    } by {
        law_nominal_transfer(rate, *phase);
        if (*fb)@.len() > 0 {
            assert((*fb)@.drop_first() =~= (*fb)@.skip(1));
        }
    }
}

/// Which frame counts the next transfer has, stated of the queue.
pub proof fn law_next_counts(rate: u32, phase: u32, fb: Seq<Vec<u32>>)
    requires
        phase < 8000,
    ensures
        fb.len() > 0 ==> {
            let counts = next_counts(rate, phase, queued(fb));
            &&& counts.len() == fb[0]@.len()
            &&& forall|k: int| 0 <= k < counts.len() ==> #[trigger] counts[k] == fb[0]@[k]
        },
        fb.len() == 0 ==> {
            let counts = next_counts(rate, phase, queued(fb));
            &&& counts.len() == 16
            &&& forall|k: int|
                0 <= k < 16 ==> #[trigger] counts[k] == (phase + (k + 1) * rate) / 8000 - (phase + k
                    * rate) / 8000
        },
        queued(fb).len() == fb.len(),
        forall|i: int| 0 <= i < fb.len() ==> #[trigger] queued(fb)[i] == fb[i]@,
        all_carriable(queued(fb)) <==> forall|i: int, k: int|
            #![trigger fb[i]@[k]]
            0 <= i < fb.len() && 0 <= k < fb[i]@.len() ==> fb[i]@[k] * 18 <= 4294967295,
{
    law_nominal_transfer(rate, phase);
    let q = queued(fb);
    if all_carriable(q) {
        assert forall|i: int, k: int|
            #![trigger fb[i]@[k]]
            0 <= i < fb.len() && 0 <= k < fb[i]@.len() implies fb[i]@[k] * 18 <= 4294967295 by {
            assert(carriable(q[i]));
            assert(q[i][k] * FRAME_BYTES <= u32::MAX);
        }
    }
    if forall|i: int, k: int|
        #![trigger fb[i]@[k]]
        0 <= i < fb.len() && 0 <= k < fb[i]@.len() ==> fb[i]@[k] * 18 <= 4294967295 {
        assert forall|i: int| 0 <= i < q.len() implies carriable(#[trigger] q[i]) by {
            assert forall|k: int| 0 <= k < q[i].len() implies #[trigger] q[i][k] * FRAME_BYTES
                <= u32::MAX by {
                assert(fb[i]@[k] * 18 <= 4294967295);
            }
        }
    }
}

/// What the words about samples mean: the rows of a buffer are its channels, and it is silent
/// where every sample of every channel is zero.
pub proof fn law_row_words(planar: Seq<Vec<i32>>)
    ensures
        rows(planar).len() == planar.len(),
        forall|c: int| 0 <= c < planar.len() ==> #[trigger] rows(planar)[c] == planar[c]@,
        silent(planar) <==> forall|c: int, i: int|
            #![trigger planar[c]@[i]]
            0 <= c < planar.len() && 0 <= i < planar[c]@.len() ==> planar[c]@[i] == 0,
{
}

/// Channel `c` of frame `f` of packet `k` is carried by a transfer with these frame counts.
pub open spec fn is_carried(sizes: Seq<usize>, k: int, f: int, c: int) -> bool {
    0 <= k < sizes.len() && 0 <= f < sizes[k] && 0 <= c < 6
}

/// A transfer carries six channels of every frame that its packets count.
pub proof fn law_carried(sizes: Seq<usize>, k: int, f: int, c: int)
    ensures
        is_carried(sizes, k, f, c) <==> 0 <= k < sizes.len() && 0 <= f < sizes[k] && 0 <= c < 6,
{
}

/// What the calls of a callback supplied for the packets of a transfer is what it holds.
pub proof fn lemma_filled_is_sent<S, F: Fn(&mut S, &mut [Vec<i32>], usize) -> bool>(
    fill: F,
    sample: spec_fn(S, int, int) -> i32,
    ins: Seq<Seq<Vec<i32>>>,
    outs: Seq<Seq<Vec<i32>>>,
    states: Seq<S>,
    sizes: Seq<usize>,
)
    requires
        outs.len() == sizes.len(),
        ins.len() == sizes.len(),
        forall|k: int| 0 <= k < sizes.len() ==> #[trigger] sizes[k] * 18 <= 4294967295,
        forall|s: &mut S, p: &mut [Vec<i32>], n: usize, stop: bool, c: int, i: int|
            #![trigger call_ensures(fill, (s, p, n), stop), sample(*s, c, i)]
            call_ensures(fill, (s, p, n), stop) && 0 <= c < 6 && 0 <= i < n ==> sample(*s, c, i)
                == (*final(p))@[c]@[i],
        forall|k: int| #[trigger]
            made(ins, k) ==> exists|s: &mut S, p: &mut [Vec<i32>], n: usize, stop: bool|
                {
                    &&& #[trigger] call_ensures(fill, (s, p, n), stop)
                    &&& is_call(
                        ins,
                        outs,
                        states,
                        sizes,
                        false,
                        k,
                        *s,
                        (*p)@,
                        n,
                        *final(s),
                        (*final(p))@,
                        stop,
                    )
                },
    ensures
        forall|k: int, f: int, c: int| #[trigger]
            is_carried(sizes, k, f, c) ==> {
                let all = transfer_bytes(outs, sizes);
                let at = packet_offset(packet_lengths(sizes), k) + 18 * f + 3 * c;
                &&& 0 <= at
                &&& at + 2 < all.len()
                &&& all[at] + 256 * all[at + 1] + 65536 * all[at + 2] == sample(states[k], c, f)
                    % 16777216
            },
{
    let all = transfer_bytes(outs, sizes);
    assert forall|k: int, f: int, c: int| #[trigger] is_carried(sizes, k, f, c) implies {
        let at = packet_offset(packet_lengths(sizes), k) + 18 * f + 3 * c;
        &&& 0 <= at
        &&& at + 2 < all.len()
        &&& all[at] + 256 * all[at + 1] + 65536 * all[at + 2] == sample(states[k], c, f) % 16777216
    } by {
        law_transfer_samples(outs, sizes, k);
        assert(made(ins, k));
        assert(outs[k][c]@[f] == sample(states[k], c, f));
    }
}

/// What a callback supplies is what is sent. Let `sample` say what it leaves, from a state, for
/// each channel and frame that it is asked for. Then frame `f` of packet `k` holds, channel by
/// channel, the low 24 bits of what it left from the state in which it was asked for packet `k`,
/// the states being those of one call per packet, from the first on, in order.
pub proof fn law_filled_is_sent<S, F: Fn(&mut S, &mut [Vec<i32>], usize) -> bool>(
    sizes: &[usize],
    fill: &F,
    sample: spec_fn(S, int, int) -> i32,
)
    requires
        forall|k: int| 0 <= k < sizes@.len() ==> #[trigger] sizes@[k] * 18 <= 4294967295,
        forall|s: &mut S, p: &mut [Vec<i32>], n: usize, stop: bool, c: int, i: int|
            #![trigger call_ensures(*fill, (s, p, n), stop), sample(*s, c, i)]
            call_ensures(*fill, (s, p, n), stop) && 0 <= c < 6 && 0 <= i < n ==> sample(*s, c, i)
                == (*final(p))@[c]@[i],
    ensures
        forall|planar: &mut Vec<Vec<i32>>, state: &mut S, data: Vec<u8>, lens: Vec<u32>| #[trigger]
            call_ensures(
                fill_packets::<S, F>,
                (sizes, planar, state, fill),
                Ok::<(Vec<u8>, Vec<u32>), usize>((data, lens)),
            ) ==> lens@.len() == sizes@.len() && exists|states: Seq<S>|
                {
                    &&& #[trigger] states.len() == sizes@.len() + 1
                    &&& states[0] == *state
                    &&& states[sizes@.len() as int] == *final(state)
                    &&& forall|k: int, f: int, c: int| #[trigger]
                        is_carried(sizes@, k, f, c) ==> {
                            let at = packet_offset(lens@, k) + 18 * f + 3 * c;
                            &&& 0 <= at
                            &&& at + 2 < data@.len()
                            &&& data@[at] + 256 * data@[at + 1] + 65536 * data@[at + 2] == sample(
                                states[k],
                                c,
                                f,
                            ) % 16777216
                        }
                },
{
    assert forall|planar: &mut Vec<Vec<i32>>, state: &mut S, data: Vec<u8>, lens: Vec<u32>|
        #[trigger] call_ensures(
            fill_packets::<S, F>,
            (sizes, planar, state, fill),
            Ok::<(Vec<u8>, Vec<u32>), usize>((data, lens)),
        ) implies lens@.len() == sizes@.len() && exists|states: Seq<S>|
            {
                &&& #[trigger] states.len() == sizes@.len() + 1
                &&& states[0] == *state
                &&& states[sizes@.len() as int] == *final(state)
                &&& forall|k: int, f: int, c: int| #[trigger]
                    is_carried(sizes@, k, f, c) ==> {
                        let at = packet_offset(lens@, k) + 18 * f + 3 * c;
                        &&& 0 <= at
                        &&& at + 2 < data@.len()
                        &&& data@[at] + 256 * data@[at + 1] + 65536 * data@[at + 2] == sample(
                            states[k],
                            c,
                            f,
                        ) % 16777216
                    }
            } by {
        let (ins, outs, states) = choose|
            ins: Seq<Seq<Vec<i32>>>,
            outs: Seq<Seq<Vec<i32>>>,
            states: Seq<S>,
        |
            {
                &&& #[trigger] handed_on((*planar)@, ins, outs, sizes@, (*final(planar))@)
                &&& #[trigger] threaded(*state, states, *final(state), ins.len())
                &&& ins.len() == sizes@.len()
                &&& forall|k: int| #[trigger]
                    made(ins, k) ==> exists|s: &mut S, p: &mut [Vec<i32>], n: usize, stop: bool|
                        {
                            &&& #[trigger] call_ensures(*fill, (s, p, n), stop)
                            &&& is_call(
                                ins,
                                outs,
                                states,
                                sizes@,
                                false,
                                k,
                                *s,
                                (*p)@,
                                n,
                                *final(s),
                                (*final(p))@,
                                stop,
                            )
                        }
                &&& data@ == transfer_bytes(outs, sizes@)
                &&& lens@ == packet_lengths(sizes@)
            };
        assert(handed_on((*planar)@, ins, outs, sizes@, (*final(planar))@));
        lemma_filled_is_sent::<S, F>(*fill, sample, ins, outs, states, sizes@);
        assert(states.len() == sizes@.len() + 1);
        assert(states[0] == *state);
        assert(states[sizes@.len() as int] == *final(state));
        assert(packet_lengths(sizes@).len() == sizes@.len());
    }
}

/// The same of a transfer at the nominal rate.
pub proof fn law_filled_is_sent_at_nominal_rate<
    S,
    F: Fn(&mut S, &mut [Vec<i32>], usize) -> bool,
>(rate: u32, fill: &F, sample: spec_fn(S, int, int) -> i32)
    requires
        forall|s: &mut S, p: &mut [Vec<i32>], n: usize, stop: bool, c: int, i: int|
            #![trigger call_ensures(*fill, (s, p, n), stop), sample(*s, c, i)]
            call_ensures(*fill, (s, p, n), stop) && 0 <= c < 6 && 0 <= i < n ==> sample(*s, c, i)
                == (*final(p))@[c]@[i],
    ensures
        forall|
            phase: &mut u32,
            planar: &mut Vec<Vec<i32>>,
            state: &mut S,
            data: Vec<u8>,
            lens: Vec<u32>,
        |
            can_pace(rate, *phase) && #[trigger] call_ensures(
                build_out::<S, F>,
                (rate, phase, planar, state, fill),
                Some((data, lens)),
            ) ==> lens@.len() == 16 && exists|states: Seq<S>|
                {
                    &&& #[trigger] states.len() == 16 + 1
                    &&& states[0] == *state
                    &&& states[16 as int] == *final(state)
                    &&& forall|k: int, f: int, c: int| #[trigger]
                        is_carried(nominal(rate, *phase), k, f, c) ==> {
                            let at = packet_offset(lens@, k) + 18 * f + 3 * c;
                            &&& 0 <= at
                            &&& at + 2 < data@.len()
                            &&& data@[at] + 256 * data@[at + 1] + 65536 * data@[at + 2] == sample(
                                states[k],
                                c,
                                f,
                            ) % 16777216
                        }
                },
{
    assert forall|
        phase: &mut u32,
        planar: &mut Vec<Vec<i32>>,
        state: &mut S,
        data: Vec<u8>,
        lens: Vec<u32>,
    |
        can_pace(rate, *phase) && #[trigger] call_ensures(
            build_out::<S, F>,
            (rate, phase, planar, state, fill),
            Some((data, lens)),
        ) implies lens@.len() == 16 && exists|states: Seq<S>|
            {
                &&& #[trigger] states.len() == 16 + 1
                &&& states[0] == *state
                &&& states[16 as int] == *final(state)
                &&& forall|k: int, f: int, c: int| #[trigger]
                    is_carried(nominal(rate, *phase), k, f, c) ==> {
                        let at = packet_offset(lens@, k) + 18 * f + 3 * c;
                        &&& 0 <= at
                        &&& at + 2 < data@.len()
                        &&& data@[at] + 256 * data@[at + 1] + 65536 * data@[at + 2] == sample(
                            states[k],
                            c,
                            f,
                        ) % 16777216
                    }
            } by {
        let sizes = nominal(rate, *phase);
        assert forall|k: int| 0 <= k < sizes.len() implies #[trigger] sizes[k] * 18
            <= 4294967295 by {
            law_packet_near_average(rate as int, *phase as int, k);
        }
        let (ins, outs, states) = choose|
            ins: Seq<Seq<Vec<i32>>>,
            outs: Seq<Seq<Vec<i32>>>,
            states: Seq<S>,
        |
            {
                &&& #[trigger] handed_on((*planar)@, ins, outs, sizes, (*final(planar))@)
                &&& #[trigger] threaded(*state, states, *final(state), ins.len())
                &&& ins.len() == sizes.len()
                &&& forall|k: int| #[trigger]
                    made(ins, k) ==> exists|s: &mut S, p: &mut [Vec<i32>], n: usize, stop: bool|
                        {
                            &&& #[trigger] call_ensures(*fill, (s, p, n), stop)
                            &&& is_call(
                                ins,
                                outs,
                                states,
                                sizes,
                                false,
                                k,
                                *s,
                                (*p)@,
                                n,
                                *final(s),
                                (*final(p))@,
                                stop,
                            )
                        }
                &&& data@ == transfer_bytes(outs, sizes)
                &&& lens@ == packet_lengths(sizes)
            };
        assert(handed_on((*planar)@, ins, outs, sizes, (*final(planar))@));
        lemma_filled_is_sent::<S, F>(*fill, sample, ins, outs, states, sizes);
        assert(states.len() == sizes.len() + 1);
        assert(states[0] == *state);
        assert(states[sizes.len() as int] == *final(state));
        assert(packet_lengths(sizes).len() == sizes.len());
    }
}

/// The same of a transfer whose frame counts are the oldest feedback.
pub proof fn law_filled_is_sent_by_feedback<S, F: Fn(&mut S, &mut [Vec<i32>], usize) -> bool>(
    rate: u32,
    fill: &F,
    sample: spec_fn(S, int, int) -> i32,
)
    requires
        forall|s: &mut S, p: &mut [Vec<i32>], n: usize, stop: bool, c: int, i: int|
            #![trigger call_ensures(*fill, (s, p, n), stop), sample(*s, c, i)]
            call_ensures(*fill, (s, p, n), stop) && 0 <= c < 6 && 0 <= i < n ==> sample(*s, c, i)
                == (*final(p))@[c]@[i],
    ensures
        forall|
            phase: &mut u32,
            fb: &mut VecDeque<Vec<u32>>,
            planar: &mut Vec<Vec<i32>>,
            state: &mut S,
            data: Vec<u8>,
            lens: Vec<u32>,
        |
            (*fb)@.len() > 0 && all_carriable(queued((*fb)@)) && #[trigger] call_ensures(
                build_out_fb::<S, F>,
                (rate, phase, fb, planar, state, fill),
                Some((data, lens)),
            ) ==> lens@.len() == (*fb)@[0]@.len() && (*final(fb))@ == (*fb)@.skip(1)
                && *final(phase) == *phase && exists|states: Seq<S>|
                {
                    &&& #[trigger] states.len() == (*fb)@[0]@.len() + 1
                    &&& states[0] == *state
                    &&& states[(*fb)@[0]@.len() as int] == *final(state)
                    &&& forall|k: int, f: int, c: int| #[trigger]
                        is_carried(next_counts(rate, *phase, queued((*fb)@)), k, f, c) ==> {
                            let at = packet_offset(lens@, k) + 18 * f + 3 * c;
                            &&& 0 <= at
                            &&& at + 2 < data@.len()
                            &&& data@[at] + 256 * data@[at + 1] + 65536 * data@[at + 2] == sample(
                                states[k],
                                c,
                                f,
                            ) % 16777216
                        }
                },
{
    assert forall|
        phase: &mut u32,
        fb: &mut VecDeque<Vec<u32>>,
        planar: &mut Vec<Vec<i32>>,
        state: &mut S,
        data: Vec<u8>,
        lens: Vec<u32>,
    |
        (*fb)@.len() > 0 && all_carriable(queued((*fb)@)) && #[trigger] call_ensures(
            build_out_fb::<S, F>,
            (rate, phase, fb, planar, state, fill),
            Some((data, lens)),
        ) implies lens@.len() == (*fb)@[0]@.len() && (*final(fb))@ == (*fb)@.skip(1)
        && *final(phase) == *phase && exists|states: Seq<S>|
            {
                &&& #[trigger] states.len() == (*fb)@[0]@.len() + 1
                &&& states[0] == *state
                &&& states[(*fb)@[0]@.len() as int] == *final(state)
                &&& forall|k: int, f: int, c: int| #[trigger]
                    is_carried(next_counts(rate, *phase, queued((*fb)@)), k, f, c) ==> {
                        let at = packet_offset(lens@, k) + 18 * f + 3 * c;
                        &&& 0 <= at
                        &&& at + 2 < data@.len()
                        &&& data@[at] + 256 * data@[at + 1] + 65536 * data@[at + 2] == sample(
                            states[k],
                            c,
                            f,
                        ) % 16777216
                    }
            } by {
        let sizes = next_counts(rate, *phase, queued((*fb)@));
        assert((*fb)@.drop_first() =~= (*fb)@.skip(1));
        assert(sizes.len() == (*fb)@[0]@.len());
        assert forall|k: int| 0 <= k < sizes.len() implies #[trigger] sizes[k] * 18
            <= 4294967295 by {
            assert(carriable(queued((*fb)@)[0]));
            assert(queued((*fb)@)[0][k] * FRAME_BYTES <= u32::MAX);
        }
        let (ins, outs, states) = choose|
            ins: Seq<Seq<Vec<i32>>>,
            outs: Seq<Seq<Vec<i32>>>,
            states: Seq<S>,
        |
            {
                &&& #[trigger] handed_on((*planar)@, ins, outs, sizes, (*final(planar))@)
                &&& #[trigger] threaded(*state, states, *final(state), ins.len())
                &&& ins.len() == sizes.len()
                &&& forall|k: int| #[trigger]
                    made(ins, k) ==> exists|s: &mut S, p: &mut [Vec<i32>], n: usize, stop: bool|
                        {
                            &&& #[trigger] call_ensures(*fill, (s, p, n), stop)
                            &&& is_call(
                                ins,
                                outs,
                                states,
                                sizes,
                                false,
                                k,
                                *s,
                                (*p)@,
                                n,
                                *final(s),
                                (*final(p))@,
                                stop,
                            )
                        }
                &&& data@ == transfer_bytes(outs, sizes)
                &&& lens@ == packet_lengths(sizes)
            };
        assert(handed_on((*planar)@, ins, outs, sizes, (*final(planar))@));
        lemma_filled_is_sent::<S, F>(*fill, sample, ins, outs, states, sizes);
        assert(states.len() == sizes.len() + 1);
        assert(states[0] == *state);
        assert(states[sizes.len() as int] == *final(state));
        assert(packet_lengths(sizes).len() == sizes.len());
    }
}

} // verus!
