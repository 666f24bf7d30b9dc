//! The loops that keep isochronous transfers in flight, as state machines: what completes
//! goes in, what to submit next comes out.

use std::collections::VecDeque;

use vstd::prelude::*;

use crate::error::{fails, Error, ErrorView};
use crate::frame::{
    captured, deinterleave, empty_planar, has_room, holds, level, overwritten, unfilled, views,
    IsoPacket,
};
use crate::pacing::{
    can_pace, law_packet_near_average, law_pacing_continues, law_pacing_never_drifts, paced_phase,
    paced_size, paced_sizes, sum,
};
use crate::stream::{
    all_carriable, build_out, build_out_fb, carriable, feedback, feedback_of, handed_on, is_call,
    is_carried, law_nominal_transfer, lemma_filled_is_sent, made, next_counts, nominal,
    packet_lengths, packet_offset, queued, sane, threaded, transfer_bytes,
};
use crate::{
    CHANNELS, EP_CAPTURE, EP_PLAYBACK, FRAME_BYTES, IF_CAPTURE, IF_PLAYBACK, ISO_PKTS,
    PACKETS_PER_SEC, PKT_LEN,
};

verus! {

/// Transfers kept in flight in each direction.
pub const NUM_TRANSFERS: usize = 32;

/// Longest feedback backlog.
pub const FB_MAX: usize = 128;

/// Consecutive transfer errors that a capture or full-duplex stream tolerates.
pub const MAX_ERR_STREAK: u32 = 24;

/// Rate at which playback is paced when none was set.
pub const DEFAULT_RATE: u32 = 48000;

// ------------------------------ alternate settings ---------------------------

/// The kinds of stream.
#[derive(Debug, Clone, Copy, PartialEq, Eq, Structural)]
pub enum StreamKind {
    Capture,
    Playback,
    Duplex,
}

/// The interfaces that a stream uses, in the order in which it starts them.
pub open spec fn interfaces(kind: StreamKind) -> Seq<u8> {
    match kind {
        StreamKind::Capture => seq![IF_CAPTURE],
        StreamKind::Playback => seq![IF_PLAYBACK],
        StreamKind::Duplex => seq![IF_CAPTURE, IF_PLAYBACK],
    }
}

/// `(interface, alternate setting)` for each of the interfaces.
pub open spec fn with_alt(ifaces: Seq<u8>, alt: u8) -> Seq<(u8, u8)> {
    Seq::new(ifaces.len(), |i: int| (ifaces[i], alt))
}

/// The alternate settings to select, in order, before a stream starts.
pub fn open_alts(kind: StreamKind) -> (alts: Vec<(u8, u8)>)
    ensures
        alts@ == with_alt(interfaces(kind), 1),
{
    match kind {
        StreamKind::Capture => vec![(IF_CAPTURE, 1)],
        StreamKind::Playback => vec![(IF_PLAYBACK, 1)],
        StreamKind::Duplex => vec![(IF_CAPTURE, 1), (IF_PLAYBACK, 1)],
    }
}

/// The alternate settings to select, in order, after a stream ended.
pub fn close_alts(kind: StreamKind) -> (alts: Vec<(u8, u8)>)
    ensures
        alts@ == with_alt(interfaces(kind).reverse(), 0),
{
    match kind {
        StreamKind::Capture => vec![(IF_CAPTURE, 0)],
        StreamKind::Playback => vec![(IF_PLAYBACK, 0)],
        StreamKind::Duplex => vec![(IF_PLAYBACK, 0), (IF_CAPTURE, 0)],
    }
}

/// The packet lengths that a capture transfer asks for.
pub fn request_lengths() -> (lens: Vec<u32>)
    ensures
        lens@ == Seq::new(ISO_PKTS as nat, |k: int| PKT_LEN as u32),
{
    let mut lens: Vec<u32> = Vec::with_capacity(ISO_PKTS);
    let mut k: usize = 0;
    while k < ISO_PKTS
        invariant
            k <= ISO_PKTS,
            lens@ == Seq::new(k as nat, |i: int| PKT_LEN as u32),
        decreases ISO_PKTS - k,
    {
        lens.push(PKT_LEN as u32);
        k = k + 1;
        assert(lens@ =~= Seq::new(k as nat, |i: int| PKT_LEN as u32));
    }
    lens
}

/// The rate at which to pace: the one that was set, where one was.
pub open spec fn pacing_rate_of(cached: u32) -> u32 {
    if cached != 0 {
        cached
    } else {
        DEFAULT_RATE
    }
}

/// The rate at which to pace, given the rate last set on the handle (0 for none).
pub fn pacing_rate(cached: u32) -> (rate: u32)
    ensures
        rate == pacing_rate_of(cached),
{
    if cached != 0 {
        cached
    } else {
        DEFAULT_RATE
    }
}

// ------------------------------ transfers in flight --------------------------

/// What a stream knows of its transfers.
#[verifier::ext_equal]
pub struct PoolState {
    /// Transfers submitted and not yet completed.
    pub in_flight: nat,
    /// A callback asked to stop: nothing more is submitted.
    pub stop: bool,
    /// Errors since the last transfer that succeeded.
    pub streak: nat,
    /// Errors in a row that are tolerated.
    pub tolerance: nat,
}

impl PoolState {
    /// The state when the first `in_flight` transfers were submitted.
    pub open spec fn fresh(in_flight: nat, tolerance: nat) -> PoolState {
        PoolState { in_flight, stop: false, streak: 0, tolerance }
    }

    /// One more transfer is in flight.
    pub open spec fn submitted(self) -> PoolState {
        PoolState { in_flight: self.in_flight + 1, ..self }
    }

    /// One transfer came back.
    pub open spec fn completed(self, failed: bool) -> PoolState {
        PoolState {
            in_flight: (self.in_flight - 1) as nat,
            streak: if failed {
                self.streak + 1
            } else {
                0
            },
            ..self
        }
    }

    /// More errors came in a row than are tolerated.
    pub open spec fn gave_up(self) -> bool {
        self.streak > self.tolerance
    }

    /// A callback answered.
    pub open spec fn answered(self, stop: bool) -> PoolState {
        PoolState { stop: self.stop || stop, ..self }
    }

    /// A playback transfer was asked for: it is submitted, or the callback stopped.
    pub open spec fn built(self, some: bool) -> PoolState {
        if some {
            self.submitted()
        } else {
            self.answered(true)
        }
    }

    /// The same transfer slot is used again, unless the stream is stopping.
    pub open spec fn refilled(self) -> PoolState {
        if self.stop {
            self
        } else {
            self.submitted()
        }
    }
}

/// Counts the transfers in flight, and the errors.
pub struct Pool {
    in_flight: usize,
    stop: bool,
    streak: u32,
    tolerance: u32,
}

impl View for Pool {
    type V = PoolState;

    closed spec fn view(&self) -> PoolState {
        PoolState {
            in_flight: self.in_flight as nat,
            stop: self.stop,
            streak: self.streak as nat,
            tolerance: self.tolerance as nat,
        }
    }
}

impl Pool {
    /// A pool with this many transfers in flight.
    pub fn new(in_flight: usize, tolerance: u32) -> (p: Pool)
        ensures
            p@ == PoolState::fresh(in_flight as nat, tolerance as nat),
    {
        Pool { in_flight, stop: false, streak: 0, tolerance }
    }

    /// A transfer was submitted.
    pub fn submitted(&mut self)
        requires
            old(self)@.in_flight < usize::MAX,
        ensures
            final(self)@ == old(self)@.submitted(),
    {
        self.in_flight = self.in_flight + 1;
    }

    /// A transfer came back; says whether the stream is to give up.
    pub fn completed(&mut self, failed: bool) -> (gave_up: bool)
        requires
            old(self)@.in_flight > 0,
            old(self)@.streak < u32::MAX,
        ensures
            final(self)@ == old(self)@.completed(failed),
            gave_up == final(self)@.gave_up(),
    {
        self.in_flight = self.in_flight - 1;
        if failed {
            self.streak = self.streak + 1;
        } else {
            self.streak = 0;
        }
        self.streak > self.tolerance
    }

    /// A callback answered.
    pub fn answered(&mut self, stop: bool)
        ensures
            final(self)@ == old(self)@.answered(stop),
    {
        if stop {
            self.stop = true;
        }
    }

    /// Whether a callback asked to stop.
    pub fn stopping(&self) -> (stop: bool)
        ensures
            stop == self@.stop,
    {
        self.stop
    }

    /// Whether a transfer is in flight.
    pub fn running(&self) -> (r: bool)
        ensures
            r == (self@.in_flight > 0),
    {
        self.in_flight > 0
    }
}

/// What to do while a stream starts.
#[derive(Debug, Clone, Copy, PartialEq, Eq, Structural)]
pub enum StartStep {
    /// Submit a capture transfer.
    SubmitIn,
    /// Build a playback transfer and, unless the callback stops, submit it.
    BuildOut,
    /// The stream has started: wait for transfers to come back.
    Run,
}

/// What to do when a capture transfer came back.
pub enum InStep {
    /// Submit the next one.
    Submit,
    /// Submit nothing: the stream is stopping.
    Hold,
    /// End the stream with this error.
    Abort(Error),
}

/// What to do when a playback transfer came back.
pub enum OutStep {
    /// Build the next one and submit it.
    Build,
    /// Submit nothing: the stream is stopping.
    Hold,
    /// End the stream with this error.
    Abort(Error),
}

/// The step that follows from the pool when a capture transfer came back with `res`.
pub open spec fn in_step<T>(pool: PoolState, res: Result<T, Error>, step: InStep) -> bool {
    match step {
        InStep::Submit => !pool.gave_up() && !pool.stop,
        InStep::Hold => !pool.gave_up() && pool.stop,
        InStep::Abort(e) => pool.gave_up() && res is Err && res->Err_0 == e,
    }
}

/// The step that follows from the pool when a playback transfer came back with `res`.
pub open spec fn out_step(pool: PoolState, res: Result<(), Error>, step: OutStep) -> bool {
    match step {
        OutStep::Build => !pool.gave_up() && !pool.stop,
        OutStep::Hold => !pool.gave_up() && pool.stop,
        OutStep::Abort(e) => pool.gave_up() && res is Err && res->Err_0 == e,
    }
}

/// The pool after a capture transfer came back and the callback, where there was something
/// to hand to it, answered `stop`.
pub open spec fn after_in(before: PoolState, failed: bool, stop: bool) -> PoolState {
    let done = before.completed(failed).answered(stop);
    if done.gave_up() {
        done
    } else {
        done.refilled()
    }
}

/// The pool after a playback transfer came back and the callback, where it was asked for the
/// next one, answered `stop`.
pub open spec fn after_out(before: PoolState, failed: bool, stop: bool) -> PoolState {
    let done = before.completed(failed);
    if done.gave_up() || done.stop {
        done
    } else {
        done.built(!stop)
    }
}

/// The callback was handed the buffer `given` and the frame count `n`: the stream's buffer,
/// and the frames that the transfer held.
pub open spec fn handed(
    given: Seq<Vec<i32>>,
    n: usize,
    planar: Seq<Vec<i32>>,
    frames: nat,
) -> bool {
    &&& given == planar
    &&& n == frames
}

/// The one call of the callback found its state as `before` and left it as `after`.
pub open spec fn moved<S>(found: S, left: S, before: S, after: S) -> bool {
    found == before && left == after
}

/// The pool went on from `before` to `after` when the callback answered `stop`.
pub open spec fn heard(before: PoolState, stop: bool, after: PoolState) -> bool {
    after == after_in(before, false, stop)
}

/// Decodes the packets of a capture transfer and hands the frames to `on_frames`, unless
/// there are none. Returns what it answered.
fn deliver<S, F>(
    planar: &mut Vec<Vec<i32>>,
    packets: &[IsoPacket],
    state: &mut S,
    on_frames: &F,
) -> (stop: bool) where F: Fn(&mut S, &[Vec<i32>], usize) -> bool
    requires
        old(planar)@.len() == CHANNELS,
        captured(views(packets@)).len() <= usize::MAX,
        forall|s: &mut S, p: &[Vec<i32>], n: usize|
            has_room(p@, n as int) ==> #[trigger] call_requires(*on_frames, (s, p, n)),
    ensures
        final(planar)@.len() == CHANNELS,
        holds(final(planar)@, captured(views(packets@))),
        overwritten(old(planar)@, final(planar)@, captured(views(packets@)).len() as int),
        captured(views(packets@)).len() == 0 ==> {
            &&& !stop
            &&& final(planar)@ == old(planar)@
            &&& *final(state) == *old(state)
        },
        captured(views(packets@)).len() > 0 ==> exists|s: &mut S, p: &[Vec<i32>], n: usize|
            {
                &&& #[trigger] call_ensures(*on_frames, (s, p, n), stop)
                &&& handed(p@, n, final(planar)@, captured(views(packets@)).len())
                &&& moved(*s, *final(s), *old(state), *final(state))
            },
{
    let total: usize = deinterleave(planar, packets);
    if total > 0 {
        on_frames(state, planar.as_slice(), total)
    } else {
        false
    }
}

// ---------------------------------- capture ---------------------------------

/// A running capture stream.
pub struct CaptureStream {
    pool: Pool,
    to_submit: usize,
    planar: Vec<Vec<i32>>,
}

impl CaptureStream {
    /// The transfers of this stream.
    pub closed spec fn pool(&self) -> PoolState {
        self.pool@
    }

    /// Transfers that are still to be submitted at the start.
    pub closed spec fn to_submit(&self) -> nat {
        self.to_submit as nat
    }

    /// The buffer that the callback is handed.
    pub closed spec fn planar(&self) -> Seq<Vec<i32>> {
        self.planar@
    }

    /// The stream has not given up, and at most `NUM_TRANSFERS` transfers are in flight.
    pub open spec fn wf(&self) -> bool {
        &&& self.pool().in_flight + self.to_submit() <= NUM_TRANSFERS
        &&& self.pool().tolerance == MAX_ERR_STREAK
        &&& !self.pool().gave_up()
        &&& self.planar().len() == CHANNELS
    }

    /// Starts a stream on a handle that owns the audio interfaces; `start_step` says what to
    /// submit.
    pub fn start(has_audio: bool) -> (r: Result<CaptureStream, Error>)
        ensures
            r is Ok <==> has_audio,
            r is Ok ==> {
                &&& r->Ok_0.wf()
                &&& r->Ok_0.pool() == PoolState::fresh(0, MAX_ERR_STREAK as nat)
                &&& r->Ok_0.to_submit() == NUM_TRANSFERS
                &&& unfilled(r->Ok_0.planar())
            },
            r is Err ==> fails(r, ErrorView::State("handle has no audio interfaces"@)),
    {
        if !has_audio {
            return Err(Error::State("handle has no audio interfaces"));
        }
        Ok(
            CaptureStream {
                pool: Pool::new(0, MAX_ERR_STREAK),
                to_submit: NUM_TRANSFERS,
                planar: empty_planar(),
            },
        )
    }

    /// What to do next while the stream starts: `NUM_TRANSFERS` transfers are submitted.
    pub fn start_step(&mut self) -> (step: StartStep)
        requires
            old(self).wf(),
        ensures
            final(self).wf(),
            final(self).planar() == old(self).planar(),
            if old(self).to_submit() > 0 {
                &&& step == StartStep::SubmitIn
                &&& final(self).to_submit() == old(self).to_submit() - 1
                &&& final(self).pool() == old(self).pool().submitted()
            } else {
                &&& step == StartStep::Run
                &&& final(self).to_submit() == 0
                &&& final(self).pool() == old(self).pool()
            },
    {
        if self.to_submit > 0 {
            self.to_submit = self.to_submit - 1;
            self.pool.submitted();
            StartStep::SubmitIn
        } else {
            StartStep::Run
        }
    }

    /// Whether a transfer is in flight; once none is, the stream has ended.
    pub fn running(&self) -> (r: bool)
        ensures
            r == (self.pool().in_flight > 0),
    {
        self.pool.running()
    }

    /// Takes a capture transfer that came back. The frames that it holds go to `on_frames` in
    /// one call, with its own state, and its answer `true` stops the stream; it is not called
    /// where there is no frame. An error is tolerated up to `MAX_ERR_STREAK` times in a row.
    pub fn on_in<S, F>(
        &mut self,
        res: Result<Vec<IsoPacket>, Error>,
        state: &mut S,
        on_frames: &F,
    ) -> (step: InStep) where F: Fn(&mut S, &[Vec<i32>], usize) -> bool
        requires
            old(self).wf(),
            old(self).to_submit() == 0,
            old(self).pool().in_flight > 0,
            res is Ok ==> captured(views(res->Ok_0@)).len() <= usize::MAX,
            forall|s: &mut S, p: &[Vec<i32>], n: usize|
                has_room(p@, n as int) ==> #[trigger] call_requires(*on_frames, (s, p, n)),
        ensures
            in_step(final(self).pool(), res, step),
            step !is Abort ==> final(self).wf(),
            final(self).to_submit() == 0,
            match res {
                Ok(packets) => {
                    let frames = captured(views(packets@));
                    &&& holds(final(self).planar(), frames)
                    &&& overwritten(old(self).planar(), final(self).planar(), frames.len() as int)
                    &&& frames.len() == 0 ==> {
                        &&& *final(state) == *old(state)
                        &&& final(self).pool() == after_in(old(self).pool(), false, false)
                    }
                    &&& frames.len() > 0 ==> exists|s: &mut S, p: &[Vec<i32>], n: usize, stop: bool|
                        {
                            &&& #[trigger] call_ensures(*on_frames, (s, p, n), stop)
                            &&& handed(p@, n, final(self).planar(), frames.len())
                            &&& moved(*s, *final(s), *old(state), *final(state))
                            &&& heard(old(self).pool(), stop, final(self).pool())
                        }
                },
                Err(_) => {
                    &&& *final(state) == *old(state)
                    &&& final(self).planar() == old(self).planar()
                    &&& final(self).pool() == after_in(old(self).pool(), true, false)
                },
            },
    {
        match res {
            Ok(packets) => {
                let _ = self.pool.completed(false);
                let stop: bool = deliver(&mut self.planar, packets.as_slice(), state, on_frames);
                self.pool.answered(stop);
            },
            Err(e) => {
                if self.pool.completed(true) {
                    return InStep::Abort(e);
                }
            },
        }
        if self.pool.stopping() {
            InStep::Hold
        } else {
            self.pool.submitted();
            InStep::Submit
        }
    }
}

// ---------------------------------- playback --------------------------------

/// A running playback stream, paced at the nominal rate.
pub struct PlaybackStream {
    pool: Pool,
    to_build: usize,
    rate: u32,
    phase: u32,
    planar: Vec<Vec<i32>>,
}

impl PlaybackStream {
    /// The transfers of this stream.
    pub closed spec fn pool(&self) -> PoolState {
        self.pool@
    }

    /// Transfers that are still to be built at the start.
    pub closed spec fn to_build(&self) -> nat {
        self.to_build as nat
    }

    /// The stream has not started yet: a transfer is to be built, and no callback stopped.
    pub open spec fn starting(&self) -> bool {
        self.to_build() > 0 && !self.pool().stop
    }

    /// The sample rate.
    pub closed spec fn rate(&self) -> u32 {
        self.rate
    }

    /// The pacing accumulator.
    pub closed spec fn phase(&self) -> u32 {
        self.phase
    }

    /// The buffer that the callback fills.
    pub closed spec fn planar(&self) -> Seq<Vec<i32>> {
        self.planar@
    }

    /// Frame counts of the next transfer.
    pub open spec fn due(&self) -> Seq<usize> {
        nominal(self.rate(), self.phase())
    }

    /// The stream has not given up, and at most `NUM_TRANSFERS` transfers are in flight. No
    /// error is tolerated.
    pub open spec fn wf(&self) -> bool {
        &&& self.pool().in_flight + self.to_build() <= NUM_TRANSFERS
        &&& self.pool().tolerance == 0
        &&& !self.pool().gave_up()
        &&& can_pace(self.rate(), self.phase())
        &&& !self.pool().stop ==> level(self.planar())
    }

    /// Starts a stream on a handle that owns the audio interfaces, paced at the rate last
    /// set on it; `start_step` says what to submit.
    pub fn start(has_audio: bool, cached_rate: u32) -> (r: Result<PlaybackStream, Error>)
        requires
            has_audio ==> can_pace(pacing_rate_of(cached_rate), 0),
        ensures
            r is Ok <==> has_audio,
            r is Ok ==> {
                &&& r->Ok_0.wf()
                &&& r->Ok_0.pool() == PoolState::fresh(0, 0)
                &&& r->Ok_0.rate() == pacing_rate_of(cached_rate)
                &&& r->Ok_0.phase() == 0
                &&& r->Ok_0.to_build() == NUM_TRANSFERS
                &&& unfilled(r->Ok_0.planar())
            },
            r is Err ==> fails(r, ErrorView::State("handle has no audio interfaces"@)),
    {
        if !has_audio {
            return Err(Error::State("handle has no audio interfaces"));
        }
        Ok(
            PlaybackStream {
                pool: Pool::new(0, 0),
                to_build: NUM_TRANSFERS,
                rate: pacing_rate(cached_rate),
                phase: 0,
                planar: empty_planar(),
            },
        )
    }

    /// What to do next while the stream starts: up to `NUM_TRANSFERS` transfers are built,
    /// fewer where the callback stops.
    pub fn start_step(&mut self) -> (step: StartStep)
        requires
            old(self).wf(),
        ensures
            final(self).wf(),
            final(self).pool() == old(self).pool(),
            final(self).rate() == old(self).rate(),
            final(self).phase() == old(self).phase(),
            final(self).planar() == old(self).planar(),
            if old(self).starting() {
                &&& step == StartStep::BuildOut
                &&& final(self).to_build() == old(self).to_build() - 1
            } else {
                &&& step == StartStep::Run
                &&& final(self).to_build() == old(self).to_build()
            },
    {
        if self.to_build > 0 && !self.pool.stopping() {
            self.to_build = self.to_build - 1;
            StartStep::BuildOut
        } else {
            StartStep::Run
        }
    }

    /// Whether a transfer is in flight; once none is, the stream has ended.
    pub fn running(&self) -> (r: bool)
        ensures
            r == (self.pool().in_flight > 0),
    {
        self.pool.running()
    }

    /// Builds the next transfer from what `fill`, which is handed its own state, supplies, for
    /// the caller to submit. `None` if `fill` asked to stop, which stops the stream.
    pub fn next_out<S, F>(&mut self, state: &mut S, fill: &F) -> (r: Option<
        (Vec<u8>, Vec<u32>),
    >) where
        F: Fn(&mut S, &mut [Vec<i32>], usize) -> bool,

        requires
            old(self).wf(),
            !old(self).pool().stop,
            old(self).pool().in_flight + old(self).to_build() < NUM_TRANSFERS,
            forall|s: &mut S, p: &mut [Vec<i32>], n: usize|
                level((*p)@) && has_room((*p)@, n as int) ==> #[trigger] call_requires(
                    *fill,
                    (s, p, n),
                ),
            forall|s: &mut S, p: &mut [Vec<i32>], n: usize, stop: bool|
                level((*p)@) && has_room((*p)@, n as int) && #[trigger] call_ensures(
                    *fill,
                    (s, p, n),
                    stop,
                ) ==> stop || (level((*final(p))@) && has_room((*final(p))@, n as int)),
        ensures
            final(self).wf(),
            final(self).to_build() == old(self).to_build(),
            final(self).rate() == old(self).rate(),
            final(self).pool() == old(self).pool().built(r is Some),
            exists|ins: Seq<Seq<Vec<i32>>>, outs: Seq<Seq<Vec<i32>>>, states: Seq<S>|
                {
                    &&& #[trigger] handed_on(
                        old(self).planar(),
                        ins,
                        outs,
                        old(self).due(),
                        final(self).planar(),
                    )
                    &&& #[trigger] threaded(*old(state), states, *final(state), ins.len())
                    &&& ins.len() <= old(self).due().len()
                    &&& forall|k: int| #[trigger]
                        made(ins, k) ==> exists|s: &mut S, p: &mut [Vec<i32>], n: usize, stop: bool|
                            {
                                &&& #[trigger] call_ensures(*fill, (s, p, n), stop)
                                &&& is_call(
                                    ins,
                                    outs,
                                    states,
                                    old(self).due(),
                                    r is None,
                                    k,
                                    *s,
                                    (*p)@,
                                    n,
                                    *final(s),
                                    (*final(p))@,
                                    stop,
                                )
                            }
                    &&& final(self).phase() == paced_phase(
                        old(self).rate() as int,
                        old(self).phase() as int,
                        ins.len() as int,
                    )
                    &&& match r {
                        Some((data, lens)) => {
                            &&& ins.len() == old(self).due().len()
                            &&& data@ == transfer_bytes(outs, old(self).due())
                            &&& lens@ == packet_lengths(old(self).due())
                        },
                        None => made(ins, 0) && made(ins, ins.len() - 1),
                    }
                },
    {
        let r: Option<(Vec<u8>, Vec<u32>)> = build_out(
            self.rate,
            &mut self.phase,
            &mut self.planar,
            state,
            fill,
        );
        match &r {
            Some(_) => self.pool.submitted(),
            None => self.pool.answered(true),
        }
        assert(old(self).due() == nominal(old(self).rate, old(self).phase));
        assert(self.planar() == self.planar@);
        r
    }

    /// Takes a playback transfer that came back; an error ends the stream.
    pub fn on_out(&mut self, res: Result<(), Error>) -> (step: OutStep)
        requires
            old(self).wf(),
            !old(self).starting(),
            old(self).pool().in_flight > 0,
        ensures
            final(self).to_build() == old(self).to_build(),
            final(self).pool() == old(self).pool().completed(res is Err),
            out_step(final(self).pool(), res, step),
            step is Abort <==> res is Err,
            step !is Abort ==> final(self).wf(),
            final(self).rate() == old(self).rate(),
            final(self).phase() == old(self).phase(),
            final(self).planar() == old(self).planar(),
    {
        match res {
            Ok(()) => {
                let _ = self.pool.completed(false);
            },
            Err(e) => {
                let _ = self.pool.completed(true);
                return OutStep::Abort(e);
            },
        }
        if self.pool.stopping() {
            OutStep::Hold
        } else {
            OutStep::Build
        }
    }
}

// -------------------------------- full duplex -------------------------------

/// Some packet brought a frame.
pub open spec fn counts_a_frame(counts: Seq<u32>) -> bool {
    exists|k: int| 0 <= k < counts.len() && counts[k] > 0
}

/// The queue after feedback came in: it joins the queue unless it counts no frame at all or
/// the queue is full.
pub open spec fn fed(queue: Seq<Seq<u32>>, counts: Seq<u32>) -> Seq<Seq<u32>> {
    if queue.len() < FB_MAX && counts_a_frame(counts) {
        queue.push(counts)
    } else {
        queue
    }
}

/// Whether some packet carried a frame.
fn any_frames(counts: &Vec<u32>) -> (r: bool)
    ensures
        r == counts_a_frame(counts@),
{
    let mut k: usize = 0;
    while k < counts.len()
        invariant
            k <= counts@.len(),
            forall|i: int| 0 <= i < k ==> counts@[i] == 0,
        decreases counts@.len() - k,
    {
        if counts[k] > 0 {
            return true;
        }
        k = k + 1;
    }
    false
}

/// What paces the playback of a full-duplex stream.
#[verifier::ext_equal]
pub struct PaceState {
    /// The pacing accumulator.
    pub phase: u32,
    /// The feedback that waits for a playback transfer, oldest first.
    pub queue: Seq<Seq<u32>>,
}

impl PaceState {
    /// The state of a new stream.
    pub open spec fn fresh() -> PaceState {
        PaceState { phase: 0, queue: Seq::empty() }
    }

    /// A capture transfer brought these frame counts.
    pub open spec fn fed(self, counts: Seq<u32>) -> PaceState {
        PaceState { phase: self.phase, queue: fed(self.queue, counts) }
    }

    /// A playback transfer was asked for: it takes the oldest feedback off the queue, or, where
    /// there is none, moves the accumulator.
    pub open spec fn taken(self, rate: u32) -> PaceState {
        if self.queue.len() > 0 {
            PaceState { phase: self.phase, queue: self.queue.drop_first() }
        } else {
            PaceState {
                phase: paced_phase(rate as int, self.phase as int, ISO_PKTS as int) as u32,
                queue: self.queue,
            }
        }
    }

    /// Frame counts of the next playback transfer.
    pub open spec fn due(self, rate: u32) -> Seq<usize> {
        next_counts(rate, self.phase, self.queue)
    }
}

/// A running full-duplex stream: capture is read once, for its audio and as the clock of
/// playback.
pub struct DuplexStream {
    pool: Pool,
    to_submit: usize,
    to_build: usize,
    rate: u32,
    phase: u32,
    fb: VecDeque<Vec<u32>>,
    cap_planar: Vec<Vec<i32>>,
    play_planar: Vec<Vec<i32>>,
}

impl DuplexStream {
    /// The transfers of this stream, of both directions.
    pub closed spec fn pool(&self) -> PoolState {
        self.pool@
    }

    /// The sample rate.
    pub closed spec fn rate(&self) -> u32 {
        self.rate
    }

    /// What paces playback.
    pub closed spec fn pace(&self) -> PaceState {
        PaceState { phase: self.phase, queue: queued(self.fb@) }
    }

    /// Capture transfers that are still to be submitted at the start.
    pub closed spec fn to_submit(&self) -> nat {
        self.to_submit as nat
    }

    /// Playback transfers that are still to be built at the start.
    pub closed spec fn to_build(&self) -> nat {
        self.to_build as nat
    }

    /// The stream has not started yet.
    pub open spec fn starting(&self) -> bool {
        self.to_submit() > 0 || (self.to_build() > 0 && !self.pool().stop)
    }

    /// The buffer that the capture callback is handed.
    pub closed spec fn captured_planar(&self) -> Seq<Vec<i32>> {
        self.cap_planar@
    }

    /// The buffer that the playback callback fills.
    pub closed spec fn planar(&self) -> Seq<Vec<i32>> {
        self.play_planar@
    }

    /// Frame counts of the next playback transfer.
    pub open spec fn due(&self) -> Seq<usize> {
        self.pace().due(self.rate())
    }

    /// The stream has not given up, at most `NUM_TRANSFERS` transfers per direction are in
    /// flight, and the feedback backlog is bounded. There is no feedback before the stream has
    /// started.
    pub open spec fn wf(&self) -> bool {
        &&& self.pool().in_flight + self.to_submit() + self.to_build() <= 2 * NUM_TRANSFERS
        &&& self.pool().tolerance == MAX_ERR_STREAK
        &&& !self.pool().gave_up()
        &&& can_pace(self.rate(), self.pace().phase)
        &&& self.pace().queue.len() <= FB_MAX
        &&& all_carriable(self.pace().queue)
        &&& self.starting() ==> self.pace().queue.len() == 0
        &&& self.captured_planar().len() == CHANNELS
        &&& !self.pool().stop ==> level(self.planar())
    }

    /// Starts a stream on a handle that owns the audio interfaces, paced at the rate last
    /// set on it until feedback comes; `start_step` says what to submit.
    pub fn start(has_audio: bool, cached_rate: u32) -> (r: Result<DuplexStream, Error>)
        requires
            has_audio ==> can_pace(pacing_rate_of(cached_rate), 0),
        ensures
            r is Ok <==> has_audio,
            r is Ok ==> {
                &&& r->Ok_0.wf()
                &&& r->Ok_0.pool() == PoolState::fresh(0, MAX_ERR_STREAK as nat)
                &&& r->Ok_0.to_submit() == NUM_TRANSFERS
                &&& r->Ok_0.to_build() == NUM_TRANSFERS
                &&& r->Ok_0.rate() == pacing_rate_of(cached_rate)
                &&& r->Ok_0.pace() == PaceState::fresh()
                &&& unfilled(r->Ok_0.planar())
                &&& unfilled(r->Ok_0.captured_planar())
            },
            r is Err ==> fails(r, ErrorView::State("handle has no audio interfaces"@)),
    {
        if !has_audio {
            return Err(Error::State("handle has no audio interfaces"));
        }
        let s: DuplexStream = DuplexStream {
            pool: Pool::new(0, MAX_ERR_STREAK),
            to_submit: NUM_TRANSFERS,
            to_build: NUM_TRANSFERS,
            rate: pacing_rate(cached_rate),
            phase: 0,
            fb: VecDeque::new(),
            cap_planar: empty_planar(),
            play_planar: empty_planar(),
        };
        assert(s.pace() =~= PaceState::fresh());
        Ok(s)
    }

    /// What to do next while the stream starts: `NUM_TRANSFERS` capture transfers are
    /// submitted, then up to as many playback transfers built, fewer where the callback stops.
    pub fn start_step(&mut self) -> (step: StartStep)
        requires
            old(self).wf(),
        ensures
            final(self).wf(),
            final(self).rate() == old(self).rate(),
            final(self).pace() == old(self).pace(),
            final(self).planar() == old(self).planar(),
            final(self).captured_planar() == old(self).captured_planar(),
            if old(self).to_submit() > 0 {
                &&& step == StartStep::SubmitIn
                &&& final(self).to_submit() == old(self).to_submit() - 1
                &&& final(self).to_build() == old(self).to_build()
                &&& final(self).pool() == old(self).pool().submitted()
            } else if old(self).starting() {
                &&& step == StartStep::BuildOut
                &&& final(self).to_submit() == 0
                &&& final(self).to_build() == old(self).to_build() - 1
                &&& final(self).pool() == old(self).pool()
            } else {
                &&& step == StartStep::Run
                &&& final(self).to_submit() == 0
                &&& final(self).to_build() == old(self).to_build()
                &&& final(self).pool() == old(self).pool()
            },
    {
        if self.to_submit > 0 {
            self.to_submit = self.to_submit - 1;
            self.pool.submitted();
            StartStep::SubmitIn
        } else if self.to_build > 0 && !self.pool.stopping() {
            self.to_build = self.to_build - 1;
            StartStep::BuildOut
        } else {
            StartStep::Run
        }
    }

    /// Whether a transfer is in flight; once none is, the stream has ended.
    pub fn running(&self) -> (r: bool)
        ensures
            r == (self.pool().in_flight > 0),
    {
        self.pool.running()
    }

    /// Takes a capture transfer that came back. The frames that it holds go to `on_cap` in one
    /// call, with its own state, and its answer `true` stops the stream; it is not called where
    /// there is no frame. The frame counts go to the feedback queue.
    pub fn on_in<S, F>(
        &mut self,
        res: Result<Vec<IsoPacket>, Error>,
        state: &mut S,
        on_cap: &F,
    ) -> (step: InStep) where F: Fn(&mut S, &[Vec<i32>], usize) -> bool
        requires
            old(self).wf(),
            !old(self).starting(),
            old(self).pool().in_flight > 0,
            res is Ok ==> sane(views(res->Ok_0@)),
            forall|s: &mut S, p: &[Vec<i32>], n: usize|
                has_room(p@, n as int) ==> #[trigger] call_requires(*on_cap, (s, p, n)),
        ensures
            in_step(final(self).pool(), res, step),
            step !is Abort ==> final(self).wf(),
            final(self).to_submit() == old(self).to_submit(),
            final(self).to_build() == old(self).to_build(),
            final(self).rate() == old(self).rate(),
            final(self).planar() == old(self).planar(),
            match res {
                Ok(packets) => {
                    let frames = captured(views(packets@));
                    &&& final(self).pace() == old(self).pace().fed(feedback(views(packets@)))
                    &&& holds(final(self).captured_planar(), frames)
                    &&& overwritten(
                        old(self).captured_planar(),
                        final(self).captured_planar(),
                        frames.len() as int,
                    )
                    &&& frames.len() == 0 ==> {
                        &&& *final(state) == *old(state)
                        &&& final(self).pool() == after_in(old(self).pool(), false, false)
                    }
                    &&& frames.len() > 0 ==> exists|s: &mut S, p: &[Vec<i32>], n: usize, stop: bool|
                        {
                            &&& #[trigger] call_ensures(*on_cap, (s, p, n), stop)
                            &&& handed(p@, n, final(self).captured_planar(), frames.len())
                            &&& moved(*s, *final(s), *old(state), *final(state))
                            &&& heard(old(self).pool(), stop, final(self).pool())
                        }
                },
                Err(_) => {
                    &&& *final(state) == *old(state)
                    &&& final(self).pace() == old(self).pace()
                    &&& final(self).captured_planar() == old(self).captured_planar()
                    &&& final(self).pool() == after_in(old(self).pool(), true, false)
                },
            },
    {
        match res {
            Ok(packets) => {
                let _ = self.pool.completed(false);
                let counts: Vec<u32> = feedback_of(packets.as_slice());
                let stop: bool = deliver(&mut self.cap_planar, packets.as_slice(), state, on_cap);
                self.pool.answered(stop);
                let ghost before = self.pace().queue;
                if any_frames(&counts) && self.fb.len() < FB_MAX {
                    self.fb.push_back(counts);
                    assert(self.pace().queue =~= before.push(counts@));
                }
            },
            Err(e) => {
                if self.pool.completed(true) {
                    return InStep::Abort(e);
                }
            },
        }
        if self.pool.stopping() {
            InStep::Hold
        } else {
            self.pool.submitted();
            InStep::Submit
        }
    }

    /// Builds the next playback transfer from what `fill` supplies, for the caller to
    /// submit: with the frame counts of the oldest feedback where there is any. `None` if
    /// `fill` asked to stop, which stops the stream.
    pub fn next_out<S, F>(&mut self, state: &mut S, fill: &F) -> (r: Option<
        (Vec<u8>, Vec<u32>),
    >) where
        F: Fn(&mut S, &mut [Vec<i32>], usize) -> bool,

        requires
            old(self).wf(),
            !old(self).pool().stop,
            old(self).pool().in_flight + old(self).to_submit() + old(self).to_build() < 2
                * NUM_TRANSFERS,
            forall|s: &mut S, p: &mut [Vec<i32>], n: usize|
                level((*p)@) && has_room((*p)@, n as int) ==> #[trigger] call_requires(
                    *fill,
                    (s, p, n),
                ),
            forall|s: &mut S, p: &mut [Vec<i32>], n: usize, stop: bool|
                level((*p)@) && has_room((*p)@, n as int) && #[trigger] call_ensures(
                    *fill,
                    (s, p, n),
                    stop,
                ) ==> stop || (level((*final(p))@) && has_room((*final(p))@, n as int)),
        ensures
            final(self).wf(),
            final(self).rate() == old(self).rate(),
            final(self).captured_planar() == old(self).captured_planar(),
            final(self).pool() == old(self).pool().built(r is Some),
            final(self).to_submit() == old(self).to_submit(),
            final(self).to_build() == old(self).to_build(),
            final(self).pace() == old(self).pace().taken(old(self).rate()),
            exists|ins: Seq<Seq<Vec<i32>>>, outs: Seq<Seq<Vec<i32>>>, states: Seq<S>|
                {
                    &&& #[trigger] handed_on(
                        old(self).planar(),
                        ins,
                        outs,
                        old(self).due(),
                        final(self).planar(),
                    )
                    &&& #[trigger] threaded(*old(state), states, *final(state), ins.len())
                    &&& ins.len() <= old(self).due().len()
                    &&& forall|k: int| #[trigger]
                        made(ins, k) ==> exists|s: &mut S, p: &mut [Vec<i32>], n: usize, stop: bool|
                            {
                                &&& #[trigger] call_ensures(*fill, (s, p, n), stop)
                                &&& is_call(
                                    ins,
                                    outs,
                                    states,
                                    old(self).due(),
                                    r is None,
                                    k,
                                    *s,
                                    (*p)@,
                                    n,
                                    *final(s),
                                    (*final(p))@,
                                    stop,
                                )
                            }
                    &&& match r {
                        Some((data, lens)) => {
                            &&& ins.len() == old(self).due().len()
                            &&& data@ == transfer_bytes(outs, old(self).due())
                            &&& lens@ == packet_lengths(old(self).due())
                        },
                        None => made(ins, 0) && made(ins, ins.len() - 1),
                    }
                },
    {
        let r: Option<(Vec<u8>, Vec<u32>)> = build_out_fb(
            self.rate,
            &mut self.phase,
            &mut self.fb,
            &mut self.play_planar,
            state,
            fill,
        );
        match &r {
            Some(_) => self.pool.submitted(),
            None => self.pool.answered(true),
        }
        proof {
            assert(self.planar() == self.play_planar@);
            assert(old(self).due() == next_counts(
                old(self).rate,
                old(self).phase,
                queued(old(self).fb@),
            ));
            if old(self).pace().queue.len() > 0 {
                assert(self.pace().queue =~= old(self).pace().queue.drop_first());
            } else {
                assert(self.pace().queue =~= old(self).pace().queue);
            }
        }
        r
    }

    /// Takes a playback transfer that came back.
    pub fn on_out(&mut self, res: Result<(), Error>) -> (step: OutStep)
        requires
            old(self).wf(),
            !old(self).starting(),
            old(self).pool().in_flight > 0,
        ensures
            final(self).pool() == old(self).pool().completed(res is Err),
            out_step(final(self).pool(), res, step),
            step !is Abort ==> final(self).wf(),
            final(self).to_submit() == old(self).to_submit(),
            final(self).to_build() == old(self).to_build(),
            final(self).rate() == old(self).rate(),
            final(self).pace() == old(self).pace(),
            final(self).planar() == old(self).planar(),
            final(self).captured_planar() == old(self).captured_planar(),
    {
        match res {
            Ok(()) => {
                let _ = self.pool.completed(false);
            },
            Err(e) => {
                if self.pool.completed(true) {
                    return OutStep::Abort(e);
                }
            },
        }
        if self.pool.stopping() {
            OutStep::Hold
        } else {
            OutStep::Build
        }
    }
}

// ----------------------------------- laws -----------------------------------

/// Ending a stream undoes what starting it selected: the same interfaces, idle again, the
/// last one started first.
pub proof fn law_close_undoes_open(kind: StreamKind)
    ensures
        with_alt(interfaces(kind).reverse(), 0).len() == with_alt(interfaces(kind), 1).len(),
        forall|i: int|
            0 <= i < interfaces(kind).len() ==> {
                let n = interfaces(kind).len();
                &&& (#[trigger] with_alt(interfaces(kind), 1)[i]).1 == 1
                &&& with_alt(interfaces(kind).reverse(), 0)[n - 1 - i] == (
                    with_alt(interfaces(kind), 1)[i].0,
                    0u8,
                )
            },
{
}

// Pacing of a playback stream.

/// Frame counts of the packets of the first `n` transfers of a playback stream.
pub open spec fn played(rate: u32, n: nat) -> Seq<usize>
    decreases n,
{
    if n == 0 {
        Seq::empty()
    } else {
        let sent = (n - 1) * ISO_PKTS;
        played(rate, (n - 1) as nat) + nominal(rate, paced_phase(rate as int, 0, sent) as u32)
    }
}

/// Playback never drifts: however many transfers were built, and at whichever packet of them
/// one looks, the callback was asked for the frames due by then, rounded down.
pub proof fn law_playback_never_drifts(rate: u32, n: nat, k: nat)
    requires
        k <= n * ISO_PKTS,
    ensures
        played(rate, n).len() == n * ISO_PKTS,
        sum(Seq::new(k, |i: int| played(rate, n)[i] as int)) == k * rate / (PACKETS_PER_SEC as int),
{
    lemma_played(rate, n);
    law_pacing_never_drifts(rate as int, 0, k);
    assert(Seq::new(k, |i: int| played(rate, n)[i] as int) =~= paced_sizes(rate as int, 0, k));
}

/// The packets of the transfers are those that pacing gives.
proof fn lemma_played(rate: u32, n: nat)
    ensures
        played(rate, n).len() == n * ISO_PKTS,
        forall|i: int|
            0 <= i < n * ISO_PKTS ==> #[trigger] played(rate, n)[i] == paced_size(
                rate as int,
                0,
                i,
            ),
    decreases n,
{
    if n > 0 {
        let sent = (n - 1) * ISO_PKTS;
        lemma_played(rate, (n - 1) as nat);
        assert forall|i: int| 0 <= i < n * ISO_PKTS implies #[trigger] played(rate, n)[i]
            == paced_size(rate as int, 0, i) by {
            if i < sent {
                assert(played(rate, n)[i] == played(rate, (n - 1) as nat)[i]);
            } else {
                law_pacing_continues(rate as int, 0, sent, i - sent);
                law_packet_near_average(rate as int, 0, i);
            }
        }
    }
}

// Pacing of a full-duplex stream.

/// What moves the pacing of a full-duplex stream.
pub enum PaceEvent {
    /// A capture transfer succeeded, with these frame counts.
    Fed(Seq<u32>),
    /// A playback transfer was asked for.
    Taken,
}

/// The pacing of a new stream after these events.
pub open spec fn paced_by(rate: u32, events: Seq<PaceEvent>) -> PaceState
    decreases events.len(),
{
    if events.len() == 0 {
        PaceState::fresh()
    } else {
        let before = paced_by(rate, events.drop_last());
        match events.last() {
            PaceEvent::Fed(counts) => before.fed(counts),
            PaceEvent::Taken => before.taken(rate),
        }
    }
}

/// The frame counts that joined the queue: of capture transfers with a frame, that came when
/// fewer than `FB_MAX` were unused.
pub open spec fn joined(rate: u32, events: Seq<PaceEvent>) -> Seq<Seq<u32>>
    decreases events.len(),
{
    if events.len() == 0 {
        Seq::empty()
    } else {
        let before = joined(rate, events.drop_last());
        match events.last() {
            PaceEvent::Fed(counts) => if counts_a_frame(counts) && before.len() - used(
                rate,
                events.drop_last(),
            ) < FB_MAX {
                before.push(counts)
            } else {
                before
            },
            PaceEvent::Taken => before,
        }
    }
}

/// How many of the frame counts that joined were used by playback transfers.
pub open spec fn used(rate: u32, events: Seq<PaceEvent>) -> nat
    decreases events.len(),
{
    if events.len() == 0 {
        0
    } else {
        let before = used(rate, events.drop_last());
        if events.last() is Taken && before < joined(rate, events.drop_last()).len() {
            before + 1
        } else {
            before
        }
    }
}

/// How many playback transfers were paced at the nominal rate.
pub open spec fn unfed(rate: u32, events: Seq<PaceEvent>) -> nat
    decreases events.len(),
{
    if events.len() == 0 {
        0
    } else {
        let front = events.drop_last();
        let before = unfed(rate, front);
        if events.last() is Taken && used(rate, front) >= joined(rate, front).len() {
            before + 1
        } else {
            before
        }
    }
}

/// The queue is what joined and was not used; the accumulator has moved for the transfers
/// that found the queue empty.
proof fn lemma_paced_by(rate: u32, events: Seq<PaceEvent>)
    ensures
        used(rate, events) <= joined(rate, events).len() <= used(rate, events) + FB_MAX,
        paced_by(rate, events).queue == joined(rate, events).skip(used(rate, events) as int),
        paced_by(rate, events).phase == paced_phase(
            rate as int,
            0,
            unfed(rate, events) * ISO_PKTS,
        ),
    decreases events.len(),
{
    if events.len() == 0 {
        assert(joined(rate, events).skip(0) =~= Seq::empty());
        assert(0 * rate == 0);
    } else {
        let front = events.drop_last();
        lemma_paced_by(rate, front);
        let before = paced_by(rate, front);
        let all = joined(rate, front);
        let u = used(rate, front);
        match events.last() {
            PaceEvent::Fed(counts) => {
                if counts_a_frame(counts) && all.len() - u < FB_MAX {
                    assert(all.push(counts).skip(u as int) =~= all.skip(u as int).push(counts));
                }
            },
            PaceEvent::Taken => {
                if u < all.len() {
                    assert(all.skip(u as int).drop_first() =~= all.skip((u + 1) as int));
                } else {
                    let n = unfed(rate, front);
                    law_pacing_continues(rate as int, 0, (n * ISO_PKTS) as int, ISO_PKTS as int);
                    assert(n * ISO_PKTS + ISO_PKTS == (n + 1) * ISO_PKTS);
                }
            },
        }
    }
}

/// Implicit feedback over the life of a full-duplex stream, after any events: the next
/// playback transfer has the frame counts of the oldest capture transfer that was not used
/// yet, each being used at most once and in order; where all are used it is paced at the
/// nominal rate, as if only the transfers that were so paced had been sent.
pub proof fn law_feedback_in_order(rate: u32, events: Seq<PaceEvent>)
    ensures
        ({
            let pace = paced_by(rate, events);
            let all = joined(rate, events);
            let u = used(rate, events);
            &&& u <= all.len() <= u + FB_MAX
            &&& pace.phase == paced_phase(rate as int, 0, unfed(rate, events) * ISO_PKTS)
            &&& u < all.len() ==> {
                &&& pace.due(rate).len() == all[u as int].len()
                &&& forall|k: int|
                    0 <= k < all[u as int].len() ==> #[trigger] pace.due(rate)[k] == all[u as int][k]
                &&& carriable(all[u as int]) ==> forall|k: int|
                    0 <= k < all[u as int].len() ==> #[trigger] packet_lengths(pace.due(rate))[k]
                        == FRAME_BYTES * all[u as int][k]
                &&& used(rate, events.push(PaceEvent::Taken)) == u + 1
            }
            &&& u == all.len() ==> {
                &&& pace.due(rate) == nominal(rate, pace.phase)
                &&& used(rate, events.push(PaceEvent::Taken)) == u
            }
        }),
{
    lemma_paced_by(rate, events);
    assert(events.push(PaceEvent::Taken).drop_last() =~= events);
    let pace = paced_by(rate, events);
    let all = joined(rate, events);
    let u = used(rate, events) as int;
    if u < all.len() && carriable(all[u]) {
        assert forall|k: int| 0 <= k < all[u].len() implies #[trigger] packet_lengths(
            pace.due(rate),
        )[k] == FRAME_BYTES * all[u][k] by {
            assert(all[u][k] * FRAME_BYTES <= u32::MAX);
            assert(pace.due(rate)[k] == all[u][k]);
        }
    }
}

/// Until the first feedback, playback is paced at the nominal rate: so is every transfer that
/// is asked for before a capture transfer came back, such as those with which a stream starts.
pub proof fn law_start_is_nominal(rate: u32, n: nat)
    ensures
        ({
            let pace = paced_by(rate, Seq::new(n, |i: int| PaceEvent::Taken));
            &&& pace.queue.len() == 0
            &&& pace.phase == paced_phase(rate as int, 0, n * ISO_PKTS)
            &&& pace.due(rate) == nominal(rate, pace.phase)
        }),
{
    let events = Seq::new(n, |i: int| PaceEvent::Taken);
    lemma_paced_by(rate, events);
    lemma_start_unfed(rate, n);
}

/// Transfers that are asked for before anything came back use no feedback.
proof fn lemma_start_unfed(rate: u32, n: nat)
    ensures
        ({
            let events = Seq::new(n, |i: int| PaceEvent::Taken);
            &&& joined(rate, events).len() == 0
            &&& used(rate, events) == 0
            &&& unfed(rate, events) == n
        }),
    decreases n,
{
    let events = Seq::new(n, |i: int| PaceEvent::Taken);
    if n > 0 {
        lemma_start_unfed(rate, (n - 1) as nat);
        assert(events.drop_last() =~= Seq::new((n - 1) as nat, |i: int| PaceEvent::Taken));
    }
}

/// While a full-duplex stream starts, whatever was built so far, the next playback transfer is
/// paced at the nominal rate.
pub proof fn law_starting_stream_is_nominal(s: &DuplexStream)
    requires
        s.wf(),
        s.starting(),
    ensures
        s.due() == nominal(s.rate(), s.pace().phase),
{
}

// The transfers of a stream.

/// A transfer came back, of either direction; `stop` is what the callback answered, where one
/// was called.
#[derive(Debug, Clone, Copy, PartialEq, Eq, Structural)]
pub enum Completion {
    In { failed: bool, stop: bool },
    Out { failed: bool, stop: bool },
}

impl Completion {
    /// The transfer failed.
    pub open spec fn failed(self) -> bool {
        match self {
            Completion::In { failed, .. } => failed,
            Completion::Out { failed, .. } => failed,
        }
    }

    /// The pool after this.
    pub open spec fn applied(self, pool: PoolState) -> PoolState {
        match self {
            Completion::In { failed, stop } => after_in(pool, failed, stop),
            Completion::Out { failed, stop } => after_out(pool, failed, stop),
        }
    }
}

/// The pool after transfers of both directions came back, in this order.
pub open spec fn after_all(pool: PoolState, trace: Seq<Completion>) -> PoolState
    decreases trace.len(),
{
    if trace.len() == 0 {
        pool
    } else {
        trace.last().applied(after_all(pool, trace.drop_last()))
    }
}

/// A transfer that comes back never adds to those in flight, whatever happened to it and
/// whatever the callback answers; a request to stop is never withdrawn.
pub proof fn law_pool_never_grows(pool: PoolState, c: Completion)
    requires
        pool.in_flight > 0,
    ensures
        c.applied(pool).in_flight <= pool.in_flight,
        pool.stop ==> c.applied(pool).stop,
{
}

/// What happens in two parts happens as a whole.
proof fn lemma_after_all_adds(pool: PoolState, first: Seq<Completion>, rest: Seq<Completion>)
    ensures
        after_all(pool, first + rest) == after_all(after_all(pool, first), rest),
    decreases rest.len(),
{
    if rest.len() == 0 {
        assert(first + rest =~= first);
    } else {
        lemma_after_all_adds(pool, first, rest.drop_last());
        assert((first + rest).drop_last() =~= first + rest.drop_last());
    }
}

/// A stopping pool loses one transfer with each that comes back.
proof fn lemma_drains(pool: PoolState, trace: Seq<Completion>)
    requires
        pool.stop,
        trace.len() <= pool.in_flight,
    ensures
        after_all(pool, trace).in_flight == pool.in_flight - trace.len(),
        after_all(pool, trace).stop,
    decreases trace.len(),
{
    if trace.len() > 0 {
        lemma_drains(pool, trace.drop_last());
    }
}

/// A stopping stream drains: once a callback stopped it, at whatever point and in whichever
/// direction, every transfer that comes back is one less in flight, until none is.
pub proof fn law_stopping_drains(
    pool: PoolState,
    before: Seq<Completion>,
    rest: Seq<Completion>,
)
    requires
        after_all(pool, before).stop,
        rest.len() <= after_all(pool, before).in_flight,
    ensures
        after_all(pool, before + rest).in_flight == after_all(pool, before).in_flight - rest.len(),
        after_all(pool, before + rest).stop,
{
    lemma_after_all_adds(pool, before, rest);
    lemma_drains(after_all(pool, before), rest);
}

/// The error streak counts failures at the end of what happened.
proof fn lemma_streak(pool: PoolState, trace: Seq<Completion>)
    requires
        pool.streak == 0,
    ensures
        after_all(pool, trace).tolerance == pool.tolerance,
        after_all(pool, trace).streak <= trace.len(),
        forall|i: int|
            trace.len() - after_all(pool, trace).streak <= i < trace.len() ==> (
            #[trigger] trace[i]).failed(),
    decreases trace.len(),
{
    if trace.len() > 0 {
        lemma_streak(pool, trace.drop_last());
        assert forall|i: int|
            trace.len() - after_all(pool, trace).streak <= i < trace.len() implies (
        #[trigger] trace[i]).failed() by {
            if i < trace.len() - 1 {
                assert(trace.drop_last()[i].failed());
            }
        }
    }
}

/// A stream gives up only after more failures in a row, in whichever directions, than it
/// tolerates: one success among them starts the count anew.
pub proof fn law_gives_up_after_streak(pool: PoolState, trace: Seq<Completion>)
    requires
        pool.streak == 0,
        after_all(pool, trace).gave_up(),
    ensures
        trace.len() > pool.tolerance,
        forall|i: int|
            trace.len() - pool.tolerance - 1 <= i < trace.len() ==> (#[trigger] trace[i]).failed(),
{
    lemma_streak(pool, trace);
}

/// A stream does give up when more failures come in a row than it tolerates, whatever came
/// before them and whatever the callbacks answer.
pub proof fn law_streak_gives_up(pool: PoolState, before: Seq<Completion>, rest: Seq<Completion>)
    requires
        forall|i: int| 0 <= i < rest.len() ==> (#[trigger] rest[i]).failed(),
        rest.len() > pool.tolerance,
    ensures
        after_all(pool, before + rest).gave_up(),
{
    lemma_after_all_adds(pool, before, rest);
    lemma_tolerance(pool, before);
    lemma_all_failed(after_all(pool, before), rest);
}

/// What is tolerated does not change.
proof fn lemma_tolerance(pool: PoolState, trace: Seq<Completion>)
    ensures
        after_all(pool, trace).tolerance == pool.tolerance,
    decreases trace.len(),
{
    if trace.len() > 0 {
        lemma_tolerance(pool, trace.drop_last());
    }
}

/// Every failure adds to the streak.
proof fn lemma_all_failed(pool: PoolState, trace: Seq<Completion>)
    requires
        forall|i: int| 0 <= i < trace.len() ==> (#[trigger] trace[i]).failed(),
    ensures
        after_all(pool, trace).streak == pool.streak + trace.len(),
        after_all(pool, trace).tolerance == pool.tolerance,
    decreases trace.len(),
{
    if trace.len() > 0 {
        assert forall|i: int| 0 <= i < trace.drop_last().len() implies (
        #[trigger] trace.drop_last()[i]).failed() by {
            assert(trace[i].failed());
        }
        lemma_all_failed(pool, trace.drop_last());
        assert(trace.last().failed());
    }
}

// What streams do, in terms of what they are handed.

/// Which settings are selected: a stream selects setting 1 of the interfaces that it uses, 2 for
/// capture and 1 for playback, capture first, and in the end setting 0 of the same interfaces,
/// the other way round. A capture transfer asks endpoint 0x82 for 16 packets of 126 bytes; playback
/// goes to endpoint 6.
pub proof fn law_stream_interfaces(
    kind: StreamKind,
    before: Vec<(u8, u8)>,
    after: Vec<(u8, u8)>,
    lens: Vec<u32>,
)
    requires
        call_ensures(open_alts, (kind,), before),
        call_ensures(close_alts, (kind,), after),
        call_ensures(request_lengths, (), lens),
    ensures
        kind is Capture ==> before@ == seq![(2u8, 1u8)] && after@ == seq![(2u8, 0u8)],
        kind is Playback ==> before@ == seq![(1u8, 1u8)] && after@ == seq![(1u8, 0u8)],
        kind is Duplex ==> before@ == seq![(2u8, 1u8), (1u8, 1u8)] && after@ == seq![
            (1u8, 0u8),
            (2u8, 0u8),
        ],
        lens@.len() == 16,
        forall|k: int| 0 <= k < 16 ==> #[trigger] lens@[k] == 126,
        EP_CAPTURE == 0x82,
        EP_PLAYBACK == 0x06,
{
    match kind {
        StreamKind::Capture => {
            assert(before@ =~= seq![(2u8, 1u8)]);
            assert(after@ =~= seq![(2u8, 0u8)]);
        },
        StreamKind::Playback => {
            assert(before@ =~= seq![(1u8, 1u8)]);
            assert(after@ =~= seq![(1u8, 0u8)]);
        },
        StreamKind::Duplex => {
            assert(before@ =~= seq![(2u8, 1u8), (1u8, 1u8)]);
            assert(after@ =~= seq![(1u8, 0u8), (2u8, 0u8)]);
        },
    }
}

/// Playback is paced at the rate that was set, and at 48000 where none was.
pub proof fn law_pacing_rate(cached: u32, rate: u32)
    requires
        call_ensures(pacing_rate, (cached,), rate),
    ensures
        cached == 0 ==> rate == 48000,
        cached != 0 ==> rate == cached,
        rate == pacing_rate_of(cached),
{
}

/// How a pool counts: a transfer that is submitted adds one, one that comes back takes one away;
/// a failure lengthens the streak by one, and a success ends it; the stream gives up when the
/// streak is longer than what is tolerated; and once a callback asked to stop, that stays.
pub proof fn law_pool_counts(new: Pool, n: usize, tolerance: u32, failed: bool, stop: bool)
    requires
        call_ensures(Pool::new, (n, tolerance), new),
    ensures
        new@.in_flight == n,
        !new@.stop,
        new@.streak == 0,
        new@.tolerance == tolerance,
        forall|p: &mut Pool| #[trigger]
            call_ensures(Pool::submitted, (p,), ()) ==> {
                &&& (*final(p))@.in_flight == (*p)@.in_flight + 1
                &&& (*final(p))@.stop == (*p)@.stop
                &&& (*final(p))@.streak == (*p)@.streak
                &&& (*final(p))@.tolerance == (*p)@.tolerance
            },
        forall|p: &mut Pool, gave_up: bool| #[trigger]
            call_ensures(Pool::completed, (p, failed), gave_up) && (*p)@.in_flight > 0 ==> {
                &&& (*final(p))@.in_flight == (*p)@.in_flight - 1
                &&& (*final(p))@.stop == (*p)@.stop
                &&& failed ==> (*final(p))@.streak == (*p)@.streak + 1
                &&& !failed ==> (*final(p))@.streak == 0
                &&& (*final(p))@.tolerance == (*p)@.tolerance
                &&& gave_up <==> (*final(p))@.streak > (*p)@.tolerance
            },
        forall|p: &mut Pool| #[trigger]
            call_ensures(Pool::answered, (p, stop), ()) ==> {
                &&& (*final(p))@.stop <==> (*p)@.stop || stop
                &&& (*final(p))@.in_flight == (*p)@.in_flight
                &&& (*final(p))@.streak == (*p)@.streak
                &&& (*final(p))@.tolerance == (*p)@.tolerance
            },
        forall|p: Pool, r: bool| #[trigger]
            call_ensures(Pool::stopping, (&p,), r) ==> (r <==> p@.stop),
        forall|p: Pool, r: bool| #[trigger]
            call_ensures(Pool::running, (&p,), r) ==> (r <==> p@.in_flight > 0),
{
}

/// What a capture transfer that came back does to the pool: a failure lengthens the streak, a
/// success ends it, and an answer to stop stays. Where the stream gives up or is stopping, one
/// transfer less is in flight, else the next one is submitted.
pub proof fn law_pool_after_capture(before: PoolState, failed: bool, stop: bool)
    requires
        before.in_flight > 0,
    ensures
        ({
            let after = after_in(before, failed, stop);
            let lost = failed && before.streak + 1 > before.tolerance;
            &&& after.tolerance == before.tolerance
            &&& after.stop <==> before.stop || stop
            &&& failed ==> after.streak == before.streak + 1
            &&& !failed ==> after.streak == 0
            &&& after.gave_up() <==> lost
            &&& lost || after.stop ==> after.in_flight == before.in_flight - 1
            &&& !lost && !after.stop ==> after.in_flight == before.in_flight
        }),
{
}

/// What a playback transfer that came back does to the pool: likewise, and the callback is asked
/// for the next one only where the stream goes on.
pub proof fn law_pool_after_playback(before: PoolState, failed: bool, stop: bool)
    requires
        before.in_flight > 0,
    ensures
        ({
            let after = after_out(before, failed, stop);
            let lost = failed && before.streak + 1 > before.tolerance;
            &&& after.tolerance == before.tolerance
            &&& failed ==> after.streak == before.streak + 1
            &&& !failed ==> after.streak == 0
            &&& after.gave_up() <==> lost
            &&& lost || before.stop ==> after.stop == before.stop && after.in_flight
                == before.in_flight - 1
            &&& !lost && !before.stop && stop ==> after.stop && after.in_flight == before.in_flight
                - 1
            &&& !lost && !before.stop && !stop ==> !after.stop && after.in_flight
                == before.in_flight
        }),
{
}

/// What is done next: an error ends the stream exactly where it gave up, and that error; else the
/// next transfer is submitted unless the stream is stopping.
pub proof fn law_step_words<T>(
    pool: PoolState,
    res: Result<T, Error>,
    step: InStep,
    out: Result<(), Error>,
    next: OutStep,
)
    requires
        in_step(pool, res, step),
        out_step(pool, out, next),
    ensures
        step is Abort <==> pool.streak > pool.tolerance,
        step is Hold <==> pool.streak <= pool.tolerance && pool.stop,
        step is Submit <==> pool.streak <= pool.tolerance && !pool.stop,
        step is Abort ==> res is Err && step->Abort_0 == res->Err_0,
        next is Abort <==> pool.streak > pool.tolerance,
        next is Hold <==> pool.streak <= pool.tolerance && pool.stop,
        next is Build <==> pool.streak <= pool.tolerance && !pool.stop,
        next is Abort ==> out is Err && next->Abort_0 == out->Err_0,
{
}

/// What the words about the one call of a capture callback mean: it was handed the buffer of the
/// stream and the number of frames, found its state and left it, and what it answered counts as
/// that of a transfer that succeeded.
pub proof fn law_delivery_words<S>(
    given: Seq<Vec<i32>>,
    n: usize,
    planar: Seq<Vec<i32>>,
    frames: nat,
    seen: S,
    left: S,
    start: S,
    end: S,
    before: PoolState,
    stop: bool,
    after: PoolState,
)
    requires
        before.in_flight > 0,
        handed(given, n, planar, frames),
        moved(seen, left, start, end),
        heard(before, stop, after),
    ensures
        given == planar,
        n == frames,
        seen == start,
        left == end,
        after.stop <==> before.stop || stop,
        after.streak == 0,
        after.tolerance == before.tolerance,
        after.stop ==> after.in_flight == before.in_flight - 1,
        !after.stop ==> after.in_flight == before.in_flight,
{
}

/// What a capture transfer does to a capture stream. The error that is one too many ends it, and
/// is what it ends with; a transfer of frames puts sample `f` of channel `c` of the buffer to
/// channel `c` of frame `f`, and one that failed or is empty leaves the callback alone.
pub proof fn law_capture_turns<S, F: Fn(&mut S, &[Vec<i32>], usize) -> bool>(
    res: Result<Vec<IsoPacket>, Error>,
    on_frames: &F,
)
    ensures
        forall|s: &mut CaptureStream, state: &mut S, step: InStep| #[trigger]
            call_ensures(CaptureStream::on_in::<S, F>, (s, res, state, on_frames), step)
                && (*s).pool().in_flight > 0 ==> {
                let pool = (*s).pool();
                let after = (*final(s)).pool();
                &&& step is Abort <==> res is Err && pool.streak + 1 > pool.tolerance
                &&& step is Abort ==> step->Abort_0 == res->Err_0
                &&& step is Submit <==> step !is Abort && !after.stop
                &&& res is Err ==> {
                    &&& *final(state) == *state
                    &&& after.stop == pool.stop
                    &&& after.streak == pool.streak + 1
                }
                &&& res is Ok ==> {
                    let frames = captured(views(res->Ok_0@));
                    &&& after.streak == 0
                    &&& frames.len() == 0 ==> *final(state) == *state && after.stop == pool.stop
                    &&& pool.stop ==> after.stop
                    &&& forall|c: int, f: int|
                        #![trigger (*final(s)).planar()[c]@[f]]
                        0 <= c < 6 && 0 <= f < frames.len() ==> (*final(s)).planar()[c]@[f]
                            == frames[f][c]
                }
                &&& step is Submit ==> after.in_flight == pool.in_flight
                &&& step !is Submit ==> after.in_flight == pool.in_flight - 1
            },
{
}

/// How streams begin: on a handle that owns the audio interfaces only. A capture stream submits
/// 32 transfers and tolerates 24 errors in a row; a playback stream builds 32 and tolerates none;
/// a full-duplex stream does both, and tolerates 24. Nothing is in flight yet, no frame is paced
/// and all buffers are empty.
pub proof fn law_streams_begin(
    has_audio: bool,
    cached: u32,
    capture: Result<CaptureStream, Error>,
    playback: Result<PlaybackStream, Error>,
    duplex: Result<DuplexStream, Error>,
)
    requires
        call_ensures(CaptureStream::start, (has_audio,), capture),
        call_ensures(PlaybackStream::start, (has_audio, cached), playback),
        call_ensures(DuplexStream::start, (has_audio, cached), duplex),
    ensures
        capture is Ok <==> has_audio,
        playback is Ok <==> has_audio,
        duplex is Ok <==> has_audio,
        !has_audio ==> {
            &&& capture->Err_0 is State && capture->Err_0->State_0@
                == "handle has no audio interfaces"@
            &&& playback->Err_0 is State && playback->Err_0->State_0@
                == "handle has no audio interfaces"@
            &&& duplex->Err_0 is State && duplex->Err_0->State_0@
                == "handle has no audio interfaces"@
        },
        has_audio ==> {
            let c = capture->Ok_0;
            let p = playback->Ok_0;
            let d = duplex->Ok_0;
            let rate = if cached == 0 {
                48000
            } else {
                cached
            };
            &&& c.to_submit() == 32 && c.pool().in_flight == 0 && !c.pool().stop
            &&& c.pool().streak == 0 && c.pool().tolerance == 24
            &&& p.to_build() == 32 && p.pool().in_flight == 0 && !p.pool().stop
            &&& p.pool().streak == 0 && p.pool().tolerance == 0
            &&& p.rate() == rate && p.phase() == 0
            &&& d.to_submit() == 32 && d.to_build() == 32 && d.pool().in_flight == 0
            &&& !d.pool().stop && d.pool().streak == 0 && d.pool().tolerance == 24
            &&& d.rate() == rate && d.pace().phase == 0 && d.pace().queue.len() == 0
            &&& c.planar().len() == 6 && p.planar().len() == 6 && d.planar().len() == 6
            &&& d.captured_planar().len() == 6
            &&& forall|i: int|
                0 <= i < 6 ==> (#[trigger] c.planar()[i])@.len() == 0
            &&& forall|i: int|
                0 <= i < 6 ==> (#[trigger] p.planar()[i])@.len() == 0
            &&& forall|i: int|
                0 <= i < 6 ==> (#[trigger] d.planar()[i])@.len() == 0
            &&& forall|i: int|
                0 <= i < 6 ==> (#[trigger] d.captured_planar()[i])@.len() == 0
        },
{
}

/// How streams start: capture transfers are submitted first, until none is left to be; then
/// playback transfers are built, until none is left to be or the callback stopped; then they run.
/// They run as long as a transfer is in flight.
pub proof fn law_streams_start()
    ensures
        forall|s: &mut CaptureStream, step: StartStep| #[trigger]
            call_ensures(CaptureStream::start_step, (s,), step) ==> {
                let n = (*s).to_submit();
                &&& n > 0 ==> step is SubmitIn && (*final(s)).to_submit() == n - 1
                    && (*final(s)).pool().in_flight == (*s).pool().in_flight + 1
                &&& n == 0 ==> step is Run && (*final(s)).pool() == (*s).pool()
            },
        forall|s: &mut PlaybackStream, step: StartStep| #[trigger]
            call_ensures(PlaybackStream::start_step, (s,), step) ==> {
                let n = (*s).to_build();
                let builds = n > 0 && !(*s).pool().stop;
                &&& builds ==> step is BuildOut && (*final(s)).to_build() == n - 1
                &&& !builds ==> step is Run && (*final(s)).to_build() == n
                &&& (*final(s)).pool() == (*s).pool()
                &&& (*final(s)).phase() == (*s).phase()
            },
        forall|s: &mut DuplexStream, step: StartStep| #[trigger]
            call_ensures(DuplexStream::start_step, (s,), step) ==> {
                let n = (*s).to_submit();
                let m = (*s).to_build();
                let builds = n == 0 && m > 0 && !(*s).pool().stop;
                &&& n > 0 ==> step is SubmitIn && (*final(s)).to_submit() == n - 1
                    && (*final(s)).to_build() == m && (*final(s)).pool().in_flight
                    == (*s).pool().in_flight + 1
                &&& builds ==> step is BuildOut && (*final(s)).to_build() == m - 1
                    && (*final(s)).pool() == (*s).pool()
                &&& n == 0 && !builds ==> step is Run && (*final(s)).to_build() == m
                    && (*final(s)).pool() == (*s).pool()
                &&& (*final(s)).pace() == (*s).pace()
            },
        forall|s: CaptureStream, r: bool| #[trigger]
            call_ensures(CaptureStream::running, (&s,), r) ==> (r <==> s.pool().in_flight > 0),
        forall|s: PlaybackStream, r: bool| #[trigger]
            call_ensures(PlaybackStream::running, (&s,), r) ==> (r <==> s.pool().in_flight > 0),
        forall|s: DuplexStream, r: bool| #[trigger]
            call_ensures(DuplexStream::running, (&s,), r) ==> (r <==> s.pool().in_flight > 0),
{
}

/// What a playback transfer that came back leads to. A playback stream ends with its first error;
/// a full-duplex stream with the one that makes the streak longer than it tolerates. Else the
/// next transfer is built, unless a callback asked to stop. The pacing does not move.
pub proof fn law_playback_turns(res: Result<(), Error>)
    ensures
        forall|s: &mut PlaybackStream, step: OutStep| #[trigger]
            call_ensures(PlaybackStream::on_out, (s, res), step) && (*s).pool().in_flight > 0 ==> {
                &&& step is Abort <==> res is Err
                &&& step is Abort ==> step->Abort_0 == res->Err_0
                &&& step is Hold <==> res is Ok && (*s).pool().stop
                &&& step is Build <==> res is Ok && !(*s).pool().stop
                &&& (*final(s)).pool().in_flight == (*s).pool().in_flight - 1
                &&& (*final(s)).pool().stop == (*s).pool().stop
                &&& (*final(s)).phase() == (*s).phase()
                &&& (*final(s)).rate() == (*s).rate()
                &&& (*final(s)).planar() == (*s).planar()
            },
        forall|s: &mut DuplexStream, step: OutStep| #[trigger]
            call_ensures(DuplexStream::on_out, (s, res), step) && (*s).pool().in_flight > 0 ==> {
                let lost = res is Err && (*s).pool().streak + 1 > (*s).pool().tolerance;
                &&& step is Abort <==> lost
                &&& step is Abort ==> step->Abort_0 == res->Err_0
                &&& step is Hold <==> !lost && (*s).pool().stop
                &&& step is Build <==> !lost && !(*s).pool().stop
                &&& (*final(s)).pool().in_flight == (*s).pool().in_flight - 1
                &&& (*final(s)).pool().stop == (*s).pool().stop
                &&& res is Ok ==> (*final(s)).pool().streak == 0
                &&& res is Err ==> (*final(s)).pool().streak == (*s).pool().streak + 1
                &&& (*final(s)).pace() == (*s).pace()
                &&& (*final(s)).rate() == (*s).rate()
                &&& (*final(s)).planar() == (*s).planar()
                &&& (*final(s)).captured_planar() == (*s).captured_planar()
            },
{
}

/// What feeds the clock of playback: the frame counts of a capture transfer join the end of the
/// queue where one of them is not zero and fewer than 128 wait; else the queue stays. What is
/// taken off it is its beginning; where it is empty, the accumulator moves by 16 packets.
pub proof fn law_clock_is_fed(pace: PaceState, counts: Seq<u32>, rate: u32)
    ensures
        (exists|k: int| 0 <= k < counts.len() && #[trigger] counts[k] > 0) && pace.queue.len() < 128
            ==> pace.fed(counts).queue == pace.queue.push(counts),
        (forall|k: int| 0 <= k < counts.len() ==> #[trigger] counts[k] == 0) || pace.queue.len()
            >= 128 ==> pace.fed(counts).queue == pace.queue,
        pace.fed(counts).phase == pace.phase,
        pace.queue.len() > 0 ==> pace.taken(rate).queue == pace.queue.skip(1) && pace.taken(
            rate,
        ).phase == pace.phase,
        pace.queue.len() == 0 ==> pace.taken(rate).queue.len() == 0 && pace.taken(rate).phase == (
        pace.phase + 16 * rate) % 8000,
        PaceState::fresh().phase == 0,
        PaceState::fresh().queue.len() == 0,
{
    if pace.queue.len() > 0 {
        assert(pace.queue.drop_first() =~= pace.queue.skip(1));
    }
}

/// Which frame counts the next playback transfer of a full-duplex stream has: those of the oldest
/// feedback, packet by packet, or where there is none those of 16 packets at the nominal rate.
pub proof fn law_playback_is_clocked(pace: PaceState, rate: u32)
    requires
        pace.phase < 8000,
    ensures
        pace.queue.len() > 0 ==> {
            &&& pace.due(rate).len() == pace.queue[0].len()
            &&& forall|k: int|
                0 <= k < pace.queue[0].len() ==> #[trigger] pace.due(rate)[k] == pace.queue[0][k]
        },
        pace.queue.len() == 0 ==> {
            &&& pace.due(rate).len() == 16
            &&& forall|k: int|
                0 <= k < 16 ==> #[trigger] pace.due(rate)[k] == (pace.phase + (k + 1) * rate) / 8000
                    - (pace.phase + k * rate) / 8000
        },
{
    law_nominal_transfer(rate, pace.phase);
}

/// What a capture transfer does to a full-duplex stream: as to a capture stream, and its frame
/// counts feed the clock of playback.
pub proof fn law_duplex_captures<S, F: Fn(&mut S, &[Vec<i32>], usize) -> bool>(
    res: Result<Vec<IsoPacket>, Error>,
    on_cap: &F,
)
    requires
        res is Ok ==> sane(views(res->Ok_0@)),
    ensures
        forall|s: &mut DuplexStream, state: &mut S, step: InStep| #[trigger]
            call_ensures(DuplexStream::on_in::<S, F>, (s, res, state, on_cap), step)
                && (*s).pool().in_flight > 0 ==> {
                let pool = (*s).pool();
                let after = (*final(s)).pool();
                &&& step is Abort <==> res is Err && pool.streak + 1 > pool.tolerance
                &&& step is Abort ==> step->Abort_0 == res->Err_0
                &&& step is Submit <==> step !is Abort && !after.stop
                &&& res is Err ==> {
                    &&& *final(state) == *state
                    &&& after.stop == pool.stop
                    &&& after.streak == pool.streak + 1
                    &&& (*final(s)).pace() == (*s).pace()
                }
                &&& res is Ok ==> {
                    let packets = res->Ok_0@;
                    let frames = captured(views(packets));
                    let counts = Seq::new(
                        packets.len(),
                        |k: int|
                            if packets[k].ok {
                                (packets[k].data@.len() / 18) as u32
                            } else {
                                0u32
                            },
                    );
                    &&& after.streak == 0
                    &&& frames.len() == 0 ==> *final(state) == *state && after.stop == pool.stop
                    &&& pool.stop ==> after.stop
                    &&& (*final(s)).pace() == (*s).pace().fed(counts)
                    &&& forall|c: int, f: int|
                        #![trigger (*final(s)).captured_planar()[c]@[f]]
                        0 <= c < 6 && 0 <= f < frames.len() ==> frames[f][c]
                            == (*final(s)).captured_planar()[c]@[f]
                }
                &&& step is Submit ==> after.in_flight == pool.in_flight
                &&& step !is Submit ==> after.in_flight == pool.in_flight - 1
                &&& (*final(s)).planar() == (*s).planar()
            },
{
    if res is Ok {
        let packets = res->Ok_0@;
        let counts = Seq::new(
            packets.len(),
            |k: int|
                if packets[k].ok {
                    (packets[k].data@.len() / 18) as u32
                } else {
                    0u32
                },
        );
        assert(counts =~= feedback(views(packets)));
    }
}

/// What asking a stream for a transfer leads to. Where the callback stopped, the stream is
/// stopping and nothing more is in flight. Else one transfer more is; that of a playback stream
/// has 16 packets of eighteen bytes for every frame that is due, and moves the accumulator by 16
/// packets.
pub proof fn law_transfers_built<S, F: Fn(&mut S, &mut [Vec<i32>], usize) -> bool>(fill: &F)
    ensures
        forall|s: &mut PlaybackStream, state: &mut S, r: Option<(Vec<u8>, Vec<u32>)>| #[trigger]
            call_ensures(PlaybackStream::next_out::<S, F>, (s, state, fill), r) ==> {
                &&& (*final(s)).pool().stop <==> (*s).pool().stop || r is None
                &&& r is None ==> (*final(s)).pool().in_flight == (*s).pool().in_flight
                &&& r is Some ==> (*final(s)).pool().in_flight == (*s).pool().in_flight + 1
                &&& (*final(s)).rate() == (*s).rate()
                &&& (*final(s)).to_build() == (*s).to_build()
                &&& r is Some ==> (*final(s)).phase() == ((*s).phase() + 16 * (*s).rate()) % 8000
            },
        forall|s: &mut PlaybackStream, state: &mut S, data: Vec<u8>, lens: Vec<u32>| #[trigger]
            call_ensures(
                PlaybackStream::next_out::<S, F>,
                (s, state, fill),
                Some((data, lens)),
            ) && can_pace((*s).rate(), (*s).phase()) ==> {
                &&& lens@.len() == 16
                &&& forall|k: int|
                    0 <= k < 16 ==> #[trigger] lens@[k] == 18 * (((*s).phase() + (k + 1)
                        * (*s).rate()) / 8000 - ((*s).phase() + k * (*s).rate()) / 8000)
            },
        forall|s: &mut DuplexStream, state: &mut S, r: Option<(Vec<u8>, Vec<u32>)>| #[trigger]
            call_ensures(DuplexStream::next_out::<S, F>, (s, state, fill), r) ==> {
                &&& (*final(s)).pool().stop <==> (*s).pool().stop || r is None
                &&& r is None ==> (*final(s)).pool().in_flight == (*s).pool().in_flight
                &&& r is Some ==> (*final(s)).pool().in_flight == (*s).pool().in_flight + 1
                &&& (*final(s)).rate() == (*s).rate()
                &&& (*final(s)).pace() == (*s).pace().taken((*s).rate())
                &&& (*final(s)).captured_planar() == (*s).captured_planar()
            },
        forall|s: &mut DuplexStream, state: &mut S, data: Vec<u8>, lens: Vec<u32>| #[trigger]
            call_ensures(
                DuplexStream::next_out::<S, F>,
                (s, state, fill),
                Some((data, lens)),
            ) ==> {
                let due = (*s).pace().due((*s).rate());
                &&& lens@.len() == due.len()
                &&& forall|k: int|
                    0 <= k < due.len() && due[k] * 18 <= 4294967295 ==> #[trigger] lens@[k] == 18
                        * due[k]
            },
{
    assert forall|s: &mut PlaybackStream, state: &mut S, data: Vec<u8>, lens: Vec<u32>| #[trigger]
        call_ensures(
            PlaybackStream::next_out::<S, F>,
            (s, state, fill),
            Some((data, lens)),
        ) && can_pace((*s).rate(), (*s).phase()) implies {
        &&& lens@.len() == 16
        &&& forall|k: int|
            0 <= k < 16 ==> #[trigger] lens@[k] == 18 * (((*s).phase() + (k + 1) * (*s).rate())
                / 8000 - ((*s).phase() + k * (*s).rate()) / 8000)
    } by {
        law_nominal_transfer((*s).rate(), (*s).phase());
        let due = nominal((*s).rate(), (*s).phase());
        assert forall|k: int| 0 <= k < 16 implies #[trigger] lens@[k] == 18 * (((*s).phase() + (k
            + 1) * (*s).rate()) / 8000 - ((*s).phase() + k * (*s).rate()) / 8000) by {
            law_packet_near_average((*s).rate() as int, (*s).phase() as int, k);
            assert(lens@[k] == (due[k] * FRAME_BYTES) as u32);
        }
    }
}

/// What the pacing of a stream is after one more event, and that a new stream has used and
/// queued nothing.
pub proof fn law_pacing_history(rate: u32, events: Seq<PaceEvent>, counts: Seq<u32>)
    ensures
        paced_by(rate, Seq::empty()) == PaceState::fresh(),
        paced_by(rate, events.push(PaceEvent::Fed(counts))) == paced_by(rate, events).fed(counts),
        paced_by(rate, events.push(PaceEvent::Taken)) == paced_by(rate, events).taken(rate),
        joined(rate, Seq::empty()).len() == 0,
        joined(rate, events.push(PaceEvent::Taken)) == joined(rate, events),
        joined(rate, events.push(PaceEvent::Fed(counts))) == if (exists|k: int|
            0 <= k < counts.len() && #[trigger] counts[k] > 0) && joined(rate, events).len() - used(
            rate,
            events,
        ) < 128 {
            joined(rate, events).push(counts)
        } else {
            joined(rate, events)
        },
        used(rate, Seq::empty()) == 0,
        used(rate, events.push(PaceEvent::Fed(counts))) == used(rate, events),
        unfed(rate, Seq::empty()) == 0,
        unfed(rate, events.push(PaceEvent::Fed(counts))) == unfed(rate, events),
        used(rate, events.push(PaceEvent::Taken)) + unfed(rate, events.push(PaceEvent::Taken))
            == used(rate, events) + unfed(rate, events) + 1,
{
    let fed = events.push(PaceEvent::Fed(counts));
    let taken = events.push(PaceEvent::Taken);
    assert(fed.drop_last() =~= events);
    assert(taken.drop_last() =~= events);
    assert(fed.last() == PaceEvent::Fed(counts));
    assert(taken.last() == PaceEvent::Taken);
    if exists|k: int| 0 <= k < counts.len() && #[trigger] counts[k] > 0 {
        assert(counts_a_frame(counts));
    }
}

/// What the transfers of a stream are after one more came back, and the frame counts of a
/// playback stream after one more was built.
pub proof fn law_stream_history(
    pool: PoolState,
    trace: Seq<Completion>,
    c: Completion,
    rate: u32,
    n: nat,
)
    ensures
        after_all(pool, Seq::empty()) == pool,
        after_all(pool, trace.push(c)) == match c {
            Completion::In { failed, stop } => after_in(after_all(pool, trace), failed, stop),
            Completion::Out { failed, stop } => after_out(after_all(pool, trace), failed, stop),
        },
        c.failed() <==> match c {
            Completion::In { failed, .. } => failed,
            Completion::Out { failed, .. } => failed,
        },
        played(rate, 0).len() == 0,
        played(rate, n + 1) == played(rate, n) + nominal(
            rate,
            ((n * 16 * rate) % 8000) as u32,
        ),
{
    assert(trace.push(c).drop_last() =~= trace);
    assert(trace.push(c).last() == c);
    assert((n + 1 - 1) as nat == n);
    assert(((n + 1) - 1) * ISO_PKTS == n * 16);
}

/// What the callback of a playback stream supplies is what is sent: where `sample` says what it
/// leaves, from a state, for each channel and frame that it is asked for, frame `f` of packet `k`
/// holds the low 24 bits of what it left from the state in which it was asked for packet `k`.
pub proof fn law_playback_sends_what_is_filled<S, F: Fn(&mut S, &mut [Vec<i32>], usize) -> bool>(
    fill: &F,
    sample: spec_fn(S, int, int) -> i32,
)
    requires
        forall|s: &mut S, p: &mut [Vec<i32>], n: usize, stop: bool, c: int, i: int|
            #![trigger call_ensures(*fill, (s, p, n), stop), sample(*s, c, i)]
            call_ensures(*fill, (s, p, n), stop) && 0 <= c < 6 && 0 <= i < n ==> sample(*s, c, i)
                == (*final(p))@[c]@[i],
    ensures
        forall|x: &mut PlaybackStream, state: &mut S, data: Vec<u8>, lens: Vec<u32>|
            can_pace((*x).rate(), (*x).phase()) && #[trigger] call_ensures(
                PlaybackStream::next_out::<S, F>,
                (x, state, fill),
                Some((data, lens)),
            ) ==> lens@.len() == 16 && exists|states: Seq<S>|
                {
                    &&& #[trigger] states.len() == 16 + 1
                    &&& states[0] == *state
                    &&& states[16 as int] == *final(state)
                    &&& forall|k: int, f: int, c: int| #[trigger]
                        is_carried(nominal((*x).rate(), (*x).phase()), k, f, c) ==> {
                            let at = packet_offset(lens@, k) + 18 * f + 3 * c;
                            &&& 0 <= at
                            &&& at + 2 < data@.len()
                            &&& data@[at] + 256 * data@[at + 1] + 65536 * data@[at + 2] == sample(
                                states[k],
                                c,
                                f,
                            ) % 16777216
                        }
                },
{
    assert forall|x: &mut PlaybackStream, state: &mut S, data: Vec<u8>, lens: Vec<u32>|
        can_pace((*x).rate(), (*x).phase()) && #[trigger] call_ensures(
            PlaybackStream::next_out::<S, F>,
            (x, state, fill),
            Some((data, lens)),
        ) implies lens@.len() == 16 && exists|states: Seq<S>|
            {
                &&& #[trigger] states.len() == 16 + 1
                &&& states[0] == *state
                &&& states[16 as int] == *final(state)
                &&& forall|k: int, f: int, c: int| #[trigger]
                    is_carried(nominal((*x).rate(), (*x).phase()), k, f, c) ==> {
                        let at = packet_offset(lens@, k) + 18 * f + 3 * c;
                        &&& 0 <= at
                        &&& at + 2 < data@.len()
                        &&& data@[at] + 256 * data@[at + 1] + 65536 * data@[at + 2] == sample(
                            states[k],
                            c,
                            f,
                        ) % 16777216
                    }
            } by {
        let sizes = (*x).due();
        assert forall|k: int| 0 <= k < sizes.len() implies #[trigger] sizes[k] * 18
            <= 4294967295 by {
            law_packet_near_average((*x).rate() as int, (*x).phase() as int, k);
        }
        let (ins, outs, states) = choose|
            ins: Seq<Seq<Vec<i32>>>,
            outs: Seq<Seq<Vec<i32>>>,
            states: Seq<S>,
        |
            {
                &&& #[trigger] handed_on((*x).planar(), ins, outs, sizes, (*final(x)).planar())
                &&& #[trigger] threaded(*state, states, *final(state), ins.len())
                &&& ins.len() == sizes.len()
                &&& forall|k: int| #[trigger]
                    made(ins, k) ==> exists|s: &mut S, p: &mut [Vec<i32>], n: usize, stop: bool|
                        {
                            &&& #[trigger] call_ensures(*fill, (s, p, n), stop)
                            &&& is_call(
                                ins,
                                outs,
                                states,
                                sizes,
                                false,
                                k,
                                *s,
                                (*p)@,
                                n,
                                *final(s),
                                (*final(p))@,
                                stop,
                            )
                        }
                &&& data@ == transfer_bytes(outs, sizes)
                &&& lens@ == packet_lengths(sizes)
            };
        assert(handed_on((*x).planar(), ins, outs, sizes, (*final(x)).planar()));
        lemma_filled_is_sent::<S, F>(*fill, sample, ins, outs, states, sizes);
        assert(states.len() == sizes.len() + 1);
        assert(states[0] == *state);
        assert(states[sizes.len() as int] == *final(state));
        assert(packet_lengths(sizes).len() == sizes.len());
    }
}

/// The same of a full-duplex stream, whose transfer has the frame counts that are due.
pub proof fn law_duplex_sends_what_is_filled<S, F: Fn(&mut S, &mut [Vec<i32>], usize) -> bool>(
    fill: &F,
    sample: spec_fn(S, int, int) -> i32,
)
    requires
        forall|s: &mut S, p: &mut [Vec<i32>], n: usize, stop: bool, c: int, i: int|
            #![trigger call_ensures(*fill, (s, p, n), stop), sample(*s, c, i)]
            call_ensures(*fill, (s, p, n), stop) && 0 <= c < 6 && 0 <= i < n ==> sample(*s, c, i)
                == (*final(p))@[c]@[i],
    ensures
        forall|x: &mut DuplexStream, state: &mut S, data: Vec<u8>, lens: Vec<u32>|
            all_carriable((*x).pace().queue) && can_pace((*x).rate(), (*x).pace().phase)
                && #[trigger] call_ensures(
                DuplexStream::next_out::<S, F>,
                (x, state, fill),
                Some((data, lens)),
            ) ==> lens@.len() == (*x).pace().due((*x).rate()).len() && exists|states: Seq<S>|
                {
                    &&& #[trigger] states.len() == (*x).pace().due((*x).rate()).len() + 1
                    &&& states[0] == *state
                    &&& states[(*x).pace().due((*x).rate()).len() as int] == *final(state)
                    &&& forall|k: int, f: int, c: int| #[trigger]
                        is_carried((*x).pace().due((*x).rate()), k, f, c) ==> {
                            let at = packet_offset(lens@, k) + 18 * f + 3 * c;
                            &&& 0 <= at
                            &&& at + 2 < data@.len()
                            &&& data@[at] + 256 * data@[at + 1] + 65536 * data@[at + 2] == sample(
                                states[k],
                                c,
                                f,
                            ) % 16777216
                        }
                },
{
    assert forall|x: &mut DuplexStream, state: &mut S, data: Vec<u8>, lens: Vec<u32>|
        all_carriable((*x).pace().queue) && can_pace((*x).rate(), (*x).pace().phase)
            && #[trigger] call_ensures(
            DuplexStream::next_out::<S, F>,
            (x, state, fill),
            Some((data, lens)),
        ) implies lens@.len() == (*x).pace().due((*x).rate()).len() && exists|states: Seq<S>|
            {
                &&& #[trigger] states.len() == (*x).pace().due((*x).rate()).len() + 1
                &&& states[0] == *state
                &&& states[(*x).pace().due((*x).rate()).len() as int] == *final(state)
                &&& forall|k: int, f: int, c: int| #[trigger]
                    is_carried((*x).pace().due((*x).rate()), k, f, c) ==> {
                        let at = packet_offset(lens@, k) + 18 * f + 3 * c;
                        &&& 0 <= at
                        &&& at + 2 < data@.len()
                        &&& data@[at] + 256 * data@[at + 1] + 65536 * data@[at + 2] == sample(
                            states[k],
                            c,
                            f,
                        ) % 16777216
                    }
            } by {
        let sizes = (*x).due();
        assert forall|k: int| 0 <= k < sizes.len() implies #[trigger] sizes[k] * 18
            <= 4294967295 by {
            if (*x).pace().queue.len() > 0 {
                assert(carriable((*x).pace().queue[0]));
                assert((*x).pace().queue[0][k] * FRAME_BYTES <= u32::MAX);
            } else {
                law_packet_near_average((*x).rate() as int, (*x).pace().phase as int, k);
            }
        }
        let (ins, outs, states) = choose|
            ins: Seq<Seq<Vec<i32>>>,
            outs: Seq<Seq<Vec<i32>>>,
            states: Seq<S>,
        |
            {
                &&& #[trigger] handed_on((*x).planar(), ins, outs, sizes, (*final(x)).planar())
                &&& #[trigger] threaded(*state, states, *final(state), ins.len())
                &&& ins.len() == sizes.len()
                &&& forall|k: int| #[trigger]
                    made(ins, k) ==> exists|s: &mut S, p: &mut [Vec<i32>], n: usize, stop: bool|
                        {
                            &&& #[trigger] call_ensures(*fill, (s, p, n), stop)
                            &&& is_call(
                                ins,
                                outs,
                                states,
                                sizes,
                                false,
                                k,
                                *s,
                                (*p)@,
                                n,
                                *final(s),
                                (*final(p))@,
                                stop,
                            )
                        }
                &&& data@ == transfer_bytes(outs, sizes)
                &&& lens@ == packet_lengths(sizes)
            };
        assert(handed_on((*x).planar(), ins, outs, sizes, (*final(x)).planar()));
        lemma_filled_is_sent::<S, F>(*fill, sample, ins, outs, states, sizes);
        assert(states.len() == sizes.len() + 1);
        assert(states[0] == *state);
        assert(states[sizes.len() as int] == *final(state));
        assert(packet_lengths(sizes).len() == sizes.len());
    }
}

/// What a capture transfer brings is delivered in one call, which is handed the state of the
/// callback, the number of frames, and six channels of which sample `f` of channel `c` is channel
/// `c` of captured frame `f`; and its answer stops the stream.
pub proof fn law_captured_is_delivered<S, F: Fn(&mut S, &[Vec<i32>], usize) -> bool>(
    packets: Vec<IsoPacket>,
    on_frames: &F,
)
    requires
        captured(views(packets@)).len() > 0,
    ensures
        forall|x: &mut CaptureStream, state: &mut S, step: InStep|
            (*x).pool().in_flight > 0 && #[trigger] call_ensures(
                CaptureStream::on_in::<S, F>,
                (x, Ok::<Vec<IsoPacket>, Error>(packets), state, on_frames),
                step,
            ) ==> {
                let frames = captured(views(packets@));
                exists|s: &mut S, p: &[Vec<i32>], n: usize, stop: bool|
                    {
                        &&& #[trigger] call_ensures(*on_frames, (s, p, n), stop)
                        &&& *s == *state
                        &&& *final(s) == *final(state)
                        &&& n == frames.len()
                        &&& p@.len() == 6
                        &&& forall|c: int, f: int|
                            #![trigger p@[c]@[f]]
                            0 <= c < 6 && 0 <= f < frames.len() ==> p@[c]@[f] == frames[f][c]
                        &&& (*final(x)).pool().stop <==> (*x).pool().stop || stop
                    }
            },
{
    let frames = captured(views(packets@));
    assert forall|x: &mut CaptureStream, state: &mut S, step: InStep|
        (*x).pool().in_flight > 0 && #[trigger] call_ensures(
            CaptureStream::on_in::<S, F>,
            (x, Ok::<Vec<IsoPacket>, Error>(packets), state, on_frames),
            step,
        ) implies exists|s: &mut S, p: &[Vec<i32>], n: usize, stop: bool|
            {
                &&& #[trigger] call_ensures(*on_frames, (s, p, n), stop)
                &&& *s == *state
                &&& *final(s) == *final(state)
                &&& n == frames.len()
                &&& p@.len() == 6
                &&& forall|c: int, f: int|
                    #![trigger p@[c]@[f]]
                    0 <= c < 6 && 0 <= f < frames.len() ==> p@[c]@[f] == frames[f][c]
                &&& (*final(x)).pool().stop <==> (*x).pool().stop || stop
            } by {
        let (s, p, n, stop) = choose|s: &mut S, p: &[Vec<i32>], n: usize, stop: bool|
            {
                &&& #[trigger] call_ensures(*on_frames, (s, p, n), stop)
                &&& handed(p@, n, (*final(x)).planar(), frames.len())
                &&& moved(*s, *final(s), *state, *final(state))
                &&& heard((*x).pool(), stop, (*final(x)).pool())
            };
        assert(call_ensures(*on_frames, (s, p, n), stop));
        assert(holds((*final(x)).planar(), frames));
    }
}

/// The same of a full-duplex stream.
pub proof fn law_duplex_captured_is_delivered<S, F: Fn(&mut S, &[Vec<i32>], usize) -> bool>(
    packets: Vec<IsoPacket>,
    on_cap: &F,
)
    requires
        captured(views(packets@)).len() > 0,
    ensures
        forall|x: &mut DuplexStream, state: &mut S, step: InStep|
            (*x).pool().in_flight > 0 && #[trigger] call_ensures(
                DuplexStream::on_in::<S, F>,
                (x, Ok::<Vec<IsoPacket>, Error>(packets), state, on_cap),
                step,
            ) ==> {
                let frames = captured(views(packets@));
                exists|s: &mut S, p: &[Vec<i32>], n: usize, stop: bool|
                    {
                        &&& #[trigger] call_ensures(*on_cap, (s, p, n), stop)
                        &&& *s == *state
                        &&& *final(s) == *final(state)
                        &&& n == frames.len()
                        &&& p@.len() == 6
                        &&& forall|c: int, f: int|
                            #![trigger p@[c]@[f]]
                            0 <= c < 6 && 0 <= f < frames.len() ==> p@[c]@[f] == frames[f][c]
                        &&& (*final(x)).pool().stop <==> (*x).pool().stop || stop
                    }
            },
{
    let frames = captured(views(packets@));
    assert forall|x: &mut DuplexStream, state: &mut S, step: InStep|
        (*x).pool().in_flight > 0 && #[trigger] call_ensures(
            DuplexStream::on_in::<S, F>,
            (x, Ok::<Vec<IsoPacket>, Error>(packets), state, on_cap),
            step,
        ) implies exists|s: &mut S, p: &[Vec<i32>], n: usize, stop: bool|
            {
                &&& #[trigger] call_ensures(*on_cap, (s, p, n), stop)
                &&& *s == *state
                &&& *final(s) == *final(state)
                &&& n == frames.len()
                &&& p@.len() == 6
                &&& forall|c: int, f: int|
                    #![trigger p@[c]@[f]]
                    0 <= c < 6 && 0 <= f < frames.len() ==> p@[c]@[f] == frames[f][c]
                &&& (*final(x)).pool().stop <==> (*x).pool().stop || stop
            } by {
        let (s, p, n, stop) = choose|s: &mut S, p: &[Vec<i32>], n: usize, stop: bool|
            {
                &&& #[trigger] call_ensures(*on_cap, (s, p, n), stop)
                &&& handed(p@, n, (*final(x)).captured_planar(), frames.len())
                &&& moved(*s, *final(s), *state, *final(state))
                &&& heard((*x).pool(), stop, (*final(x)).pool())
            };
        assert(call_ensures(*on_cap, (s, p, n), stop));
        assert(holds((*final(x)).captured_planar(), frames));
    }
}

} // verus!
