//! The browser side: endpoint numbers, and the interleaved arrays that JavaScript callbacks
//! take and return.

use vstd::prelude::*;

use crate::frame::has_frames;
use crate::CHANNELS;

verus! {

/// The number of an endpoint, which WebUSB takes in place of its address: the low four bits.
pub fn ep_num(ep: u8) -> (n: u8)
    ensures
        n == ep % 16,
{
    assert(ep & 0x0f == ep % 16) by (bit_vector);
    ep & 0x0f
}

/// The samples of the first `frames` frames, frame after frame.
pub open spec fn interleaved(planar: Seq<Vec<i32>>, frames: nat) -> Seq<i32> {
    Seq::new(
        frames * CHANNELS as nat,
        |k: int| planar[k % (CHANNELS as int)]@[k / (CHANNELS as int)],
    )
}

/// Interleaves the first `frames` frames of `planar`.
pub fn interleave(planar: &[Vec<i32>], frames: usize) -> (out: Vec<i32>)
    requires
        has_frames(planar@, frames as int),
    ensures
        out@ == interleaved(planar@, frames as nat),
{
    let ghost all = interleaved(planar@, frames as nat);
    let mut out: Vec<i32> = Vec::new();
    let mut i: usize = 0;
    while i < frames
        invariant
            i <= frames,
            has_frames(planar@, frames as int),
            all == interleaved(planar@, frames as nat),
            out@ == all.take(i * CHANNELS),
        decreases frames - i,
    {
        let mut c: usize = 0;
        while c < CHANNELS
            invariant
                i < frames,
                c <= CHANNELS,
                has_frames(planar@, frames as int),
                all == interleaved(planar@, frames as nat),
                out@ == all.take(i * CHANNELS + c),
            decreases CHANNELS - c,
        {
            assert(frames <= planar@[c as int]@.len());
            let ghost k = i * CHANNELS + c;
            assert(k / 6 == i && k % 6 == c);
            out.push(planar[c][i]);
            c = c + 1;
            assert(out@ =~= all.take(k + 1));
        }
        i = i + 1;
    }
    assert(all.take(frames * CHANNELS) =~= all);
    out
}

/// The buffer `after` is `before` with its first `frames` frames replaced by interleaved
/// samples; samples that are missing are silence.
pub open spec fn spread_over(
    before: Seq<Vec<i32>>,
    after: Seq<Vec<i32>>,
    frames: int,
    samples: Seq<i32>,
) -> bool {
    &&& after.len() == before.len()
    &&& forall|c: int|
        0 <= c < before.len() ==> (#[trigger] after[c])@.len() == before[c]@.len()
    &&& forall|i: int, c: int|
        #![trigger after[c]@[i]]
        0 <= i < frames && 0 <= c < CHANNELS ==> after[c]@[i] == if i * CHANNELS + c
            < samples.len() {
            samples[i * CHANNELS + c]
        } else {
            0
        }
    &&& forall|i: int, c: int|
        #![trigger after[c]@[i]]
        0 <= c < before.len() && 0 <= i < after[c]@.len() && (i >= frames || c >= CHANNELS)
            ==> after[c]@[i] == before[c]@[i]
}

/// Distributes interleaved samples to the first `frames` frames of `planar`; samples that
/// are missing are silence.
pub fn spread(planar: &mut [Vec<i32>], frames: usize, samples: &[i32])
    requires
        has_frames(old(planar)@, frames as int),
    ensures
        spread_over(old(planar)@, final(planar)@, frames as int, samples@),
{
    let ghost before = planar@;
    let mut i: usize = 0;
    let mut k: usize = 0;
    while i < frames
        invariant
            i <= frames,
            k == if i * CHANNELS < samples@.len() {
                (i * CHANNELS) as int
            } else {
                samples@.len() as int
            },
            has_frames(before, frames as int),
            planar@.len() == before.len(),
            forall|c: int|
                0 <= c < before.len() ==> (#[trigger] planar@[c])@.len() == before[c]@.len(),
            forall|j: int, c: int|
                #![trigger planar@[c]@[j]]
                0 <= j < i && 0 <= c < CHANNELS ==> planar@[c]@[j] == if j * CHANNELS + c
                    < samples@.len() {
                    samples@[j * CHANNELS + c]
                } else {
                    0
                },
            forall|j: int, c: int|
                #![trigger planar@[c]@[j]]
                0 <= c < before.len() && 0 <= j < planar@[c]@.len() && (j >= i || c >= CHANNELS)
                    ==> planar@[c]@[j] == before[c]@[j],
        decreases frames - i,
    {
        let mut c: usize = 0;
        while c < CHANNELS
            invariant
                i < frames,
                c <= CHANNELS,
                k == if i * CHANNELS + c < samples@.len() {
                    i * CHANNELS + c
                } else {
                    samples@.len() as int
                },
                has_frames(before, frames as int),
                planar@.len() == before.len(),
                forall|d: int|
                    0 <= d < before.len() ==> (#[trigger] planar@[d])@.len() == before[d]@.len(),
                forall|j: int, d: int|
                    #![trigger planar@[d]@[j]]
                    0 <= j <= i && 0 <= d < CHANNELS && (j < i || d < c) ==> planar@[d]@[j] == if j
                        * CHANNELS + d < samples@.len() {
                        samples@[j * CHANNELS + d]
                    } else {
                        0
                    },
                forall|j: int, d: int|
                    #![trigger planar@[d]@[j]]
                    0 <= d < before.len() && 0 <= j < planar@[d]@.len() && (j > i || d >= CHANNELS
                        || (j == i && d >= c)) ==> planar@[d]@[j] == before[d]@[j],
            decreases CHANNELS - c,
        {
            assert(frames <= before[c as int]@.len());
            let s: i32 = if k < samples.len() {
                samples[k]
            } else {
                0
            };
            planar[c][i] = s;
            if k < samples.len() {
                k = k + 1;
            }
            c = c + 1;
        }
        i = i + 1;
    }
}

/// Takes what a playback callback returned for `frames` frames: samples, which are played, or
/// something else (`None`), which stops the stream. Returns whether it stops; `requested` says
/// whether it was asked to.
pub fn take_samples(
    planar: &mut [Vec<i32>],
    frames: usize,
    samples: Option<&[i32]>,
    requested: bool,
) -> (stop: bool)
    requires
        has_frames(old(planar)@, frames as int),
    ensures
        samples is None ==> stop && final(planar)@ == old(planar)@,
        samples is Some ==> {
            &&& stop == requested
            &&& spread_over(old(planar)@, final(planar)@, frames as int, samples->0@)
        },
{
    match samples {
        Some(given) => {
            spread(planar, frames, given);
            requested
        },
        None => true,
    }
}

/// Whether a stream stops when a capture callback returned: its answer counts, where it
/// threw (`None`) it stops, and so does a request to stop.
pub fn stops(requested: bool, answer: Option<bool>) -> (r: bool)
    ensures
        r == (requested || answer != Some(false)),
{
    let answered: bool = match answer {
        Some(truthy) => truthy,
        None => true,
    };
    requested || answered
}

// ----------------------------------- laws -----------------------------------

/// Spreading what was interleaved gives every sample back.
pub proof fn law_interleave_round_trip(planar: Seq<Vec<i32>>, frames: nat, i: int, c: int)
    requires
        has_frames(planar, frames as int),
        0 <= i < frames,
        0 <= c < CHANNELS,
    ensures
        i * CHANNELS + c < interleaved(planar, frames).len(),
        interleaved(planar, frames)[i * CHANNELS + c] == planar[c]@[i],
{
    let k = i * CHANNELS + c;
    assert(k / 6 == i && k % 6 == c);
}

/// The number of an endpoint is its address without the direction.
pub proof fn law_endpoint_numbers(ep: u8, n: u8)
    requires
        call_ensures(ep_num, (ep,), n),
    ensures
        n < 16,
        n == ep & 0x0f,
{
    assert(ep & 0x0f == ep % 16) by (bit_vector);
}

/// What `interleave` gives: six samples for every frame, of which number `6 * i + c` is sample
/// `i` of channel `c`.
pub proof fn law_interleaved(planar: &[Vec<i32>], frames: usize, out: Vec<i32>)
    requires
        has_frames(planar@, frames as int),
        call_ensures(interleave, (planar, frames), out),
    ensures
        out@.len() == 6 * frames,
        forall|i: int, c: int|
            #![trigger planar@[c]@[i]]
            0 <= i < frames && 0 <= c < 6 ==> out@[6 * i + c] == planar@[c]@[i],
{
    assert forall|i: int, c: int|
        #![trigger planar@[c]@[i]]
        0 <= i < frames && 0 <= c < 6 implies out@[6 * i + c] == planar@[c]@[i] by {
        law_interleave_round_trip(planar@, frames as nat, i, c);
    }
}

/// What `spread` does: sample `i` of channel `c` becomes number `6 * i + c` of those given, or
/// silence where there are not as many; nothing else changes.
pub proof fn law_spread(frames: usize, samples: &[i32])
    ensures
        forall|planar: &mut [Vec<i32>]| #[trigger]
            call_ensures(spread, (planar, frames, samples), ()) ==> {
                let before = (*planar)@;
                let after = (*final(planar))@;
                &&& after.len() == before.len()
                &&& forall|c: int|
                    0 <= c < before.len() ==> (#[trigger] after[c])@.len() == before[c]@.len()
                &&& forall|i: int, c: int|
                    #![trigger after[c]@[i]]
                    0 <= i < frames && 0 <= c < 6 ==> after[c]@[i] == if 6 * i + c < samples@.len() {
                        samples@[6 * i + c]
                    } else {
                        0
                    }
                &&& forall|i: int, c: int|
                    #![trigger after[c]@[i]]
                    0 <= c < before.len() && 0 <= i < before[c]@.len() && (i >= frames || c >= 6)
                        ==> after[c]@[i] == before[c]@[i]
            },
{
}

/// What a playback callback returns is played as `spread` lays it out, and the stream stops where
/// it was asked to; where it returns no samples, the stream stops and the buffer stays.
pub proof fn law_samples_taken(frames: usize, samples: Option<&[i32]>, requested: bool)
    ensures
        forall|planar: &mut [Vec<i32>], stop: bool| #[trigger]
            call_ensures(take_samples, (planar, frames, samples, requested), stop) ==> {
                let before = (*planar)@;
                let after = (*final(planar))@;
                &&& stop <==> requested || samples is None
                &&& samples is None ==> after == before
                &&& samples is Some ==> {
                    &&& after.len() == before.len()
                    &&& forall|c: int|
                        0 <= c < before.len() ==> (#[trigger] after[c])@.len() == before[c]@.len()
                    &&& forall|i: int, c: int|
                        #![trigger after[c]@[i]]
                        0 <= i < frames && 0 <= c < 6 ==> after[c]@[i] == if 6 * i + c
                            < samples->0@.len() {
                            samples->0@[6 * i + c]
                        } else {
                            0
                        }
                    &&& forall|i: int, c: int|
                        #![trigger after[c]@[i]]
                        0 <= c < before.len() && 0 <= i < before[c]@.len() && (i >= frames || c >= 6)
                            ==> after[c]@[i] == before[c]@[i]
                }
            },
{
}

/// A capture stream stops where it was asked to, where the callback says so, and where the
/// callback threw; else it goes on.
pub proof fn law_stops(requested: bool, answer: Option<bool>, r: bool)
    requires
        call_ensures(stops, (requested, answer), r),
    ensures
        requested ==> r,
        answer is None ==> r,
        answer == Some(true) ==> r,
        !requested && answer == Some(false) ==> !r,
{
}

/// What is interleaved and then spread over a buffer is there again, sample for sample.
pub proof fn law_spread_undoes_interleave(planar: &[Vec<i32>], frames: usize, flat: Vec<i32>)
    requires
        has_frames(planar@, frames as int),
        call_ensures(interleave, (planar, frames), flat),
    ensures
        forall|back: &mut [Vec<i32>], samples: &[i32]|
            samples@ == flat@ && #[trigger] call_ensures(spread, (back, frames, samples), ()) ==> {
                let after = (*final(back))@;
                forall|i: int, c: int|
                    #![trigger after[c]@[i]]
                    0 <= i < frames && 0 <= c < 6 ==> after[c]@[i] == planar@[c]@[i]
            },
{
    law_interleaved(planar, frames, flat);
    assert forall|back: &mut [Vec<i32>], samples: &[i32]|
        samples@ == flat@ && #[trigger] call_ensures(spread, (back, frames, samples), ()) implies {
        let after = (*final(back))@;
        forall|i: int, c: int|
            #![trigger after[c]@[i]]
            0 <= i < frames && 0 <= c < 6 ==> after[c]@[i] == planar@[c]@[i]
    } by {
        law_spread(frames, samples);
        let after = (*final(back))@;
        assert forall|i: int, c: int|
            #![trigger after[c]@[i]]
            0 <= i < frames && 0 <= c < 6 implies after[c]@[i] == planar@[c]@[i] by {
            assert(flat@[6 * i + c] == planar@[c]@[i]);
        }
    }
}

} // verus!
