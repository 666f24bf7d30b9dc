//! Decisions of the audio daemon, which owns the device and bridges it to the rings in
//! shared memory: when to stream, at what rate, and what to play.

use vstd::prelude::*;

use crate::frame::has_frames;
use crate::proto::{is_supported_rate, supported_rate};
use crate::shm::{read_ring, ring_index, RING_SAMPLES};
use crate::CHANNELS;

verus! {

/// Polls of an idle device between two checks that it is still attached.
pub const PROBE_EVERY: u32 = 50;

/// Pause between two polls of an idle device, in milliseconds.
pub const IDLE_SLEEP_MS: u64 = 10;

/// Pause before looking for the device again, in milliseconds.
pub const REOPEN_SLEEP_MS: u64 = 1000;

/// Pause after a stream failed, in milliseconds.
pub const BACKOFF_SLEEP_MS: u64 = 500;

/// Frames to collect before playback starts: it absorbs the jitter of the writer.
pub const CUSHION: u64 = 1024;

/// Most frames that may wait for playback; beyond that old audio is dropped.
pub const MAXLAT: u64 = 6144;

// --------------------------------- the cursors ------------------------------

/// The cursors of the two rings.
#[derive(Debug, Clone, Copy, PartialEq, Eq, Structural)]
pub struct Cursors {
    pub cap_write: u64,
    pub cap_read: u64,
    pub play_write: u64,
    pub play_read: u64,
}

impl Cursors {
    /// Empties both rings: each reader is set to its writer. Writers are not rewound, since
    /// a reader on the other side may have followed them.
    pub fn emptied(self) -> (r: Cursors)
        ensures
            r == (Cursors {
                cap_write: self.cap_write,
                cap_read: self.cap_write,
                play_write: self.play_write,
                play_read: self.play_write,
            }),
    {
        Cursors {
            cap_write: self.cap_write,
            cap_read: self.cap_write,
            play_write: self.play_write,
            play_read: self.play_write,
        }
    }
}

// ---------------------------------- capture ---------------------------------

/// Watches, from the capture side, whether the stream is to end.
pub struct CaptureWatch {
    rate: u32,
    idle_frames: u64,
}

/// Frames captured since a client was last active.
pub open spec fn idle_after(idle: nat, frames: nat, io_running: u32) -> nat {
    if io_running == 0 {
        idle + frames
    } else {
        0
    }
}

/// Whether a stream at `rate` ends: on shutdown, after a second without a client, or when
/// the plugin wants another rate.
pub open spec fn ends(rate: u32, idle: nat, want: u32, shutdown: bool) -> bool {
    shutdown || idle >= rate || (supported_rate(want) && want != rate)
}

impl CaptureWatch {
    /// The rate of the stream.
    pub closed spec fn rate(&self) -> u32 {
        self.rate
    }

    /// Frames captured since a client was last active.
    pub closed spec fn idle(&self) -> nat {
        self.idle_frames as nat
    }

    /// Watches a stream at this rate.
    pub fn new(rate: u32) -> (w: CaptureWatch)
        ensures
            w.rate() == rate,
            w.idle() == 0,
    {
        CaptureWatch { rate, idle_frames: 0 }
    }

    /// Frames captured since a client was last active.
    pub fn idle_frames(&self) -> (n: u64)
        ensures
            n == self.idle(),
    {
        self.idle_frames
    }

    /// Takes that `frames` frames were captured, while `io_running` says whether a client is
    /// active and `want` is the rate that the plugin asks for. Returns whether the stream is
    /// to end.
    pub fn on_frames(&mut self, frames: usize, io_running: u32, want: u32, shutdown: bool) -> (end:
        bool)
        requires
            old(self).idle() + frames <= u64::MAX,
        ensures
            final(self).rate() == old(self).rate(),
            final(self).idle() == idle_after(old(self).idle(), frames as nat, io_running),
            end == ends(old(self).rate(), final(self).idle(), want, shutdown),
    {
        if io_running == 0 {
            self.idle_frames = self.idle_frames + frames as u64;
        } else {
            self.idle_frames = 0;
        }
        shutdown || self.idle_frames >= self.rate as u64 || (is_supported_rate(want) && want
            != self.rate)
    }
}

// ---------------------------------- playback --------------------------------

/// Frames between the cursors, as 64-bit cursors give it.
pub open spec fn backlog(rd: u64, wr: u64) -> int {
    (wr - rd) % 0x1_0000_0000_0000_0000
}

/// Whether so much waits that old audio is dropped.
pub open spec fn overflows(rd: u64, wr: u64) -> bool {
    backlog(rd, wr) > MAXLAT
}

/// Where playback reads, once old audio was dropped.
pub open spec fn read_from(rd: u64, wr: u64) -> int {
    if overflows(rd, wr) {
        wr - CUSHION
    } else {
        rd as int
    }
}

/// Frames that can be played, once old audio was dropped.
pub open spec fn playable(rd: u64, wr: u64) -> int {
    if overflows(rd, wr) {
        CUSHION as int
    } else {
        backlog(rd, wr)
    }
}

/// The cursors are such that playback can read: the reader is not ahead of the writer, or so
/// far that it is reset, and what it is reset to has been written.
pub open spec fn readable(rd: u64, wr: u64) -> bool {
    if overflows(rd, wr) {
        wr >= CUSHION
    } else {
        rd <= wr
    }
}

/// Whether playback can read between these cursors.
pub fn is_readable(rd: u64, wr: u64) -> (r: bool)
    ensures
        r == readable(rd, wr),
{
    let avail: u64 = wr.wrapping_sub(rd);
    assert(avail == backlog(rd, wr));
    if avail > MAXLAT {
        wr >= CUSHION
    } else {
        rd <= wr
    }
}

/// Whether playback is silent: a cushion has to build up first.
pub open spec fn silent(primed: bool, rd: u64, wr: u64) -> bool {
    !primed && playable(rd, wr) < CUSHION
}

/// Frames of `frames` that come from the ring.
pub open spec fn consumed(primed: bool, rd: u64, wr: u64, frames: nat) -> int {
    if silent(primed, rd, wr) {
        0
    } else if playable(rd, wr) < frames {
        playable(rd, wr)
    } else {
        frames as int
    }
}

/// The read cursor behind `frames` frames of playback.
pub open spec fn next_read(primed: bool, rd: u64, wr: u64, frames: nat) -> int {
    read_from(rd, wr) + consumed(primed, rd, wr, frames)
}

/// The buffered state after `frames` frames of playback: an underrun ends it.
pub open spec fn stays_primed(primed: bool, rd: u64, wr: u64, frames: nat) -> bool {
    !silent(primed, rd, wr) && playable(rd, wr) >= frames
}

/// Plays from the ring that the plugin fills in bursts.
pub struct Player {
    primed: bool,
}

impl Player {
    /// A cushion has built up.
    pub closed spec fn primed(&self) -> bool {
        self.primed
    }

    /// A player that waits for a cushion.
    pub fn new() -> (p: Player)
        ensures
            !p.primed(),
    {
        Player { primed: false }
    }

    /// Fills `frames` frames of `planar` from the ring between the cursors, whose samples
    /// `get` reads, and with silence where there are none. Returns the new read cursor.
    pub fn play<R>(
        &mut self,
        rd: u64,
        wr: u64,
        planar: &mut [Vec<i32>],
        frames: usize,
        get: &R,
    ) -> (next: u64) where R: Fn(usize) -> i32
        requires
            readable(rd, wr),
            has_frames(old(planar)@, frames as int),
            forall|at: usize| at < RING_SAMPLES ==> call_requires(*get, (at,)),
        ensures
            next == next_read(old(self).primed(), rd, wr, frames as nat),
            final(self).primed() == stays_primed(old(self).primed(), rd, wr, frames as nat),
            final(planar)@.len() == old(planar)@.len(),
            forall|c: int|
                0 <= c < old(planar)@.len() ==> (#[trigger] final(planar)@[c])@.len() == old(
                    planar,
                )@[c]@.len(),
            forall|i: int, c: int|
                #![trigger final(planar)@[c]@[i]]
                0 <= i < frames && 0 <= c < CHANNELS ==> if i < consumed(
                    old(self).primed(),
                    rd,
                    wr,
                    frames as nat,
                ) {
                    call_ensures(
                        *get,
                        ((ring_index(read_from(rd, wr) + i) + c) as usize,),
                        final(planar)@[c]@[i],
                    )
                } else {
                    final(planar)@[c]@[i] == 0
                },
            forall|i: int, c: int|
                #![trigger final(planar)@[c]@[i]]
                0 <= c < old(planar)@.len() && 0 <= i < final(planar)@[c]@.len() && (i >= frames
                    || c >= CHANNELS) ==> final(planar)@[c]@[i] == old(planar)@[c]@[i],
    {
        let mut from: u64 = rd;
        let mut avail: u64 = wr.wrapping_sub(rd);
        assert(avail == backlog(rd, wr));
        if avail > MAXLAT {
            from = wr - CUSHION;
            avail = CUSHION;
        }
        if !self.primed {
            if avail < CUSHION {
                read_ring(from, 0, planar, frames, get);
                return from;
            }
            self.primed = true;
        }
        read_ring(from, avail, planar, frames, get);
        if avail < frames as u64 {
            self.primed = false;
            from + avail
        } else {
            from + frames as u64
        }
    }
}

// --------------------------------- the loop ---------------------------------

/// What to do with an open device.
#[derive(Debug, Clone, Copy, PartialEq, Eq, Structural)]
pub enum Tick {
    /// Close it.
    Leave,
    /// No client is active: publish that the device is there, forget the clock anchor, and
    /// pause.
    Idle,
    /// The same, after a check that the device is still attached.
    Probe,
    /// Stream at this rate until the stream ends.
    Stream(u32),
}

/// The rate to stream at: the one that the plugin asks for, where the device has it.
pub open spec fn stream_rate(want: u32, default: u32) -> u32 {
    if supported_rate(want) {
        want
    } else {
        default
    }
}

/// The next thing to do with an open device that was polled `ticks` times while idle.
pub open spec fn tick_of(
    ticks: nat,
    shutdown: bool,
    io_running: u32,
    want: u32,
    default: u32,
) -> Tick {
    if shutdown {
        Tick::Leave
    } else if io_running != 0 {
        Tick::Stream(stream_rate(want, default))
    } else if ticks + 1 >= PROBE_EVERY {
        Tick::Probe
    } else {
        Tick::Idle
    }
}

/// Polls while idle, after that.
pub open spec fn ticks_after(ticks: nat, tick: Tick) -> nat {
    match tick {
        Tick::Leave => ticks,
        Tick::Idle => ticks + 1,
        Tick::Probe => 0,
        Tick::Stream(_) => 0,
    }
}

/// The daemon's state while it has the device open.
pub struct Session {
    rate: u32,
    idle_ticks: u32,
    stream_err: bool,
}

impl Session {
    /// The rate to fall back to.
    pub closed spec fn default_rate(&self) -> u32 {
        self.rate
    }

    /// Polls while idle since the last check.
    pub closed spec fn ticks(&self) -> nat {
        self.idle_ticks as nat
    }

    /// A stream failed.
    pub closed spec fn failed(&self) -> bool {
        self.stream_err
    }

    /// The next check is at most `PROBE_EVERY` polls away.
    pub open spec fn wf(&self) -> bool {
        self.ticks() < PROBE_EVERY
    }

    /// The device was opened.
    pub fn new(rate: u32) -> (s: Session)
        ensures
            s.wf(),
            s.default_rate() == rate,
            s.ticks() == 0,
            !s.failed(),
    {
        Session { rate, idle_ticks: 0, stream_err: false }
    }

    /// What to do next: `io_running` says whether a client is active, `want` is the rate
    /// that the plugin asks for.
    pub fn tick(&mut self, shutdown: bool, io_running: u32, want: u32) -> (t: Tick)
        requires
            old(self).wf(),
        ensures
            final(self).wf(),
            t == tick_of(old(self).ticks(), shutdown, io_running, want, old(self).default_rate()),
            final(self).ticks() == ticks_after(old(self).ticks(), t),
            final(self).default_rate() == old(self).default_rate(),
            final(self).failed() == old(self).failed(),
    {
        if shutdown {
            return Tick::Leave;
        }
        if io_running == 0 {
            self.idle_ticks = self.idle_ticks + 1;
            if self.idle_ticks >= PROBE_EVERY {
                self.idle_ticks = 0;
                return Tick::Probe;
            }
            return Tick::Idle;
        }
        self.idle_ticks = 0;
        Tick::Stream(
            if is_supported_rate(want) {
                want
            } else {
                self.rate
            },
        )
    }

    /// Takes how a stream ended. Returns whether to close the device: on an error, or where
    /// it is no longer attached, since a stream that the device left also ends well.
    pub fn streamed(&mut self, error: bool, present: bool) -> (leave: bool)
        ensures
            leave == (error || !present),
            final(self).failed() == (old(self).failed() || error),
            final(self).ticks() == old(self).ticks(),
            final(self).default_rate() == old(self).default_rate(),
    {
        if error {
            self.stream_err = true;
        }
        error || !present
    }

    /// Whether to pause before the device is opened again, so that a failure that passes
    /// cannot keep the daemon busy.
    pub fn backs_off(&self, shutdown: bool) -> (r: bool)
        ensures
            r == (self.failed() && !shutdown),
    {
        self.stream_err && !shutdown
    }
}

// ----------------------------------- laws -----------------------------------

/// Starting a stream leaves both rings empty and moves no cursor back, so that what a reader
/// computes as available never underflows.
pub proof fn law_emptied_is_monotonic(c: Cursors, r: Cursors)
    requires
        c.cap_read <= c.cap_write,
        c.play_read <= c.play_write,
        r == (Cursors {
            cap_write: c.cap_write,
            cap_read: c.cap_write,
            play_write: c.play_write,
            play_read: c.play_write,
        }),
    ensures
        r.cap_write == c.cap_write && r.play_write == c.play_write,
        c.cap_read <= r.cap_read == r.cap_write,
        c.play_read <= r.play_read == r.play_write,
{
}

/// Playback never reads what was not written, and never goes back: the read cursor stays
/// between where it was and the writer.
pub proof fn law_read_cursor_in_bounds(primed: bool, rd: u64, wr: u64, frames: nat)
    requires
        rd <= wr,
        readable(rd, wr),
    ensures
        rd <= next_read(primed, rd, wr, frames) <= wr,
        overflows(rd, wr) ==> wr - rd > MAXLAT,
{
    assert(backlog(rd, wr) == wr - rd);
}

/// The latency is bounded: after each turn at most `MAXLAT` frames wait.
pub proof fn law_latency_bounded(primed: bool, rd: u64, wr: u64, frames: nat)
    requires
        readable(rd, wr),
    ensures
        wr - next_read(primed, rd, wr, frames) <= MAXLAT,
{
}

/// An underrun is silence until a cushion has built up again.
pub proof fn law_underrun_reprimes(primed: bool, rd: u64, wr: u64, frames: nat, wr2: u64)
    requires
        readable(rd, wr),
        !stays_primed(primed, rd, wr, frames),
        next_read(primed, rd, wr, frames) <= wr2 < next_read(primed, rd, wr, frames) + CUSHION,
    ensures
        ({
            let rd2 = next_read(primed, rd, wr, frames) as u64;
            &&& silent(stays_primed(primed, rd, wr, frames), rd2, wr2)
            &&& forall|n: nat|
                #![trigger consumed(false, rd2, wr2, n)]
                consumed(false, rd2, wr2, n) == 0 && next_read(false, rd2, wr2, n) == rd2
        }),
{
    let rd2 = next_read(primed, rd, wr, frames) as u64;
    assert(backlog(rd2, wr2) == wr2 - rd2);
}

/// Polls of an idle device, and what each leads to.
pub open spec fn after_polls(ticks: nat, polls: nat) -> nat
    decreases polls,
{
    if polls == 0 {
        ticks
    } else {
        let t = after_polls(ticks, (polls - 1) as nat);
        ticks_after(t, tick_of(t, false, 0, 0, 0))
    }
}

/// A device that is detached while idle is noticed: among any `PROBE_EVERY` polls one checks
/// that it is attached.
pub proof fn law_idle_detach_is_noticed(ticks: nat)
    requires
        ticks < PROBE_EVERY,
    ensures
        tick_of(after_polls(ticks, (PROBE_EVERY - 1 - ticks) as nat), false, 0, 0, 0)
            == Tick::Probe,
        after_polls(ticks, (PROBE_EVERY - ticks) as nat) == 0,
{
    lemma_polls(ticks, (PROBE_EVERY - 1 - ticks) as nat);
}

/// Up to the check every poll counts.
proof fn lemma_polls(ticks: nat, polls: nat)
    requires
        ticks + polls < PROBE_EVERY,
    ensures
        after_polls(ticks, polls) == ticks + polls,
    decreases polls,
{
    if polls > 0 {
        lemma_polls(ticks, (polls - 1) as nat);
    }
}

/// A stream goes on while a client is active and wants its rate; without a client it ends
/// after as many frames as make a second, and not before.
pub proof fn law_idle_stream_ends(rate: u32, idle: nat, frames: nat, io_running: u32)
    ensures
        io_running != 0 && rate > 0 ==> !ends(
            rate,
            idle_after(idle, frames, io_running),
            rate,
            false,
        ),
        io_running == 0 ==> (ends(rate, idle_after(idle, frames, io_running), rate, false)
            <==> idle + frames >= rate),
{
}

/// A stream follows the plugin's rate in both directions: of two different rates that the
/// device has, a stream at the one ends when the other is wanted, whoever is active. Shutdown
/// ends it too. A rate that the device does not have is not followed.
pub proof fn law_rate_is_followed(frames: usize, io_running: u32, want: u32, shutdown: bool)
    ensures
        forall|w: &mut CaptureWatch, end: bool| #[trigger]
            call_ensures(
                CaptureWatch::on_frames,
                (w, frames, io_running, want, shutdown),
                end,
            ) ==> {
                &&& shutdown ==> end
                &&& (want == 44100 || want == 48000) && want != (*w).rate() ==> end
                &&& !shutdown && want != 44100 && want != 48000 && io_running != 0 && (*w).rate() > 0
                    ==> !end
                &&& !shutdown && want == (*w).rate() && io_running != 0 && want > 0 ==> !end
            },
{
}

/// Either of the two rates gives way to the other, whatever the idle count.
pub proof fn law_rates_give_way(a: u32, b: u32, idle: nat)
    requires
        supported_rate(a),
        supported_rate(b),
        a != b,
    ensures
        ends(a, idle, b, false),
        ends(b, idle, a, false),
        (a == 44100 && b == 48000) || (a == 48000 && b == 44100),
{
}

/// A stream ends for want of a client exactly when as many frames as make a second came without
/// one, in a row: frames add up while none is active, and one that is active starts the count
/// anew. The rate of the stream stays.
pub proof fn law_second_without_client(frames: usize, io_running: u32, want: u32)
    ensures
        forall|w: &mut CaptureWatch, end: bool| #[trigger]
            call_ensures(CaptureWatch::on_frames, (w, frames, io_running, want, false), end) ==> {
                &&& (*final(w)).rate() == (*w).rate()
                &&& io_running != 0 ==> (*final(w)).idle() == 0
                &&& io_running == 0 ==> (*final(w)).idle() == (*w).idle() + frames
                &&& io_running == 0 && want == (*w).rate() ==> (end <==> (*w).idle() + frames
                    >= (*w).rate())
                &&& io_running == 0 && want != 44100 && want != 48000 ==> (end <==> (*w).idle()
                    + frames >= (*w).rate())
            },
{
}

/// A new watch knows the rate of its stream and has counted nothing.
pub proof fn law_watch_starts(rate: u32, w: CaptureWatch, n: u64)
    requires
        call_ensures(CaptureWatch::new, (rate,), w),
        call_ensures(CaptureWatch::idle_frames, (&w,), n),
    ensures
        w.rate() == rate,
        w.idle() == 0,
        n == 0,
{
}

/// Emptying the rings moves each reader to its own writer, and no writer.
pub proof fn law_rings_emptied(c: Cursors, r: Cursors)
    requires
        call_ensures(Cursors::emptied, (c,), r),
    ensures
        r.cap_read == c.cap_write,
        r.play_read == c.play_write,
        r.cap_write == c.cap_write,
        r.play_write == c.play_write,
{
}

/// What waits for playback is what was written and not yet read; cursors wrap around.
pub proof fn law_backlog_counts(rd: u64, wr: u64)
    ensures
        rd <= wr ==> backlog(rd, wr) == wr - rd,
        rd > wr ==> backlog(rd, wr) == wr - rd + 18446744073709551616,
{
}

/// Which cursors playback takes: where no more than 6144 frames wait, the reader must not be
/// ahead of the writer; where more do, it is reset to 1024 frames behind it, which must have
/// been written.
pub proof fn law_readable_cursors(rd: u64, wr: u64, r: bool)
    requires
        call_ensures(is_readable, (rd, wr), r),
    ensures
        r == readable(rd, wr),
        rd <= wr && wr - rd <= 6144 ==> r,
        rd <= wr && wr - rd > 6144 ==> r,
        rd > wr && wr - rd + 18446744073709551616 <= 6144 ==> !r,
        rd > wr && wr - rd + 18446744073709551616 > 6144 ==> (r <==> wr >= 1024),
{
}

/// What is played where nothing has to be dropped. Until 1024 frames wait, a player that has no
/// cushion plays silence and reads nothing. Else frame `i` comes from place `rd + i` of the ring
/// of 32768 frames, channel by channel, as far as it was written, and what lacks is silence; the
/// cursor moves by what was read; and the player needs a cushion again where frames lacked.
pub proof fn law_played_in_order<R: Fn(usize) -> i32>(rd: u64, wr: u64, frames: usize, get: &R)
    requires
        rd <= wr <= rd + 6144,
    ensures
        forall|p: &mut Player, planar: &mut [Vec<i32>], next: u64| #[trigger]
            call_ensures(Player::play::<R>, (p, rd, wr, planar, frames, get), next) ==> {
                let waits = !(*p).primed() && wr - rd < 1024;
                let n = if waits {
                    0
                } else if wr - rd < frames {
                    wr - rd
                } else {
                    frames as int
                };
                &&& next == rd + n
                &&& (*final(p)).primed() <==> !waits && frames <= wr - rd
                &&& (*final(planar))@.len() == (*planar)@.len()
                &&& forall|i: int, c: int|
                    #![trigger (*final(planar))@[c]@[i]]
                    n <= i < frames && 0 <= c < 6 ==> (*final(planar))@[c]@[i] == 0
                &&& forall|i: int, c: int|
                    #![trigger (*final(planar))@[c]@[i]]
                    0 <= i < n && 0 <= c < 6 ==> call_ensures(
                        *get,
                        (((rd + i) % 32768 * 6 + c) as usize,),
                        (*final(planar))@[c]@[i],
                    )
            },
{
}

/// What is played where too much waits: the oldest audio is dropped, and playback goes on 1024
/// frames behind the writer, as it would have if the reader had stood there.
pub proof fn law_old_audio_dropped<R: Fn(usize) -> i32>(rd: u64, wr: u64, frames: usize, get: &R)
    requires
        1024 <= wr,
        rd + 6144 < wr || wr < rd,
        wr < rd ==> wr - rd + 18446744073709551616 > 6144,
    ensures
        forall|p: &mut Player, planar: &mut [Vec<i32>], next: u64| #[trigger]
            call_ensures(Player::play::<R>, (p, rd, wr, planar, frames, get), next) ==> {
                let n = if frames > 1024 {
                    1024
                } else {
                    frames as int
                };
                &&& next == wr - 1024 + n
                &&& (*final(p)).primed() <==> frames <= 1024
                &&& forall|i: int, c: int|
                    #![trigger (*final(planar))@[c]@[i]]
                    n <= i < frames && 0 <= c < 6 ==> (*final(planar))@[c]@[i] == 0
                &&& forall|i: int, c: int|
                    #![trigger (*final(planar))@[c]@[i]]
                    0 <= i < n && 0 <= c < 6 ==> call_ensures(
                        *get,
                        (((wr - 1024 + i) % 32768 * 6 + c) as usize,),
                        (*final(planar))@[c]@[i],
                    )
            },
{
}

/// A new player waits for a cushion; what lies behind the frames it is asked for, and channels
/// beyond the six, it leaves alone.
pub proof fn law_player_leaves_alone<R: Fn(usize) -> i32>(
    new: Player,
    rd: u64,
    wr: u64,
    frames: usize,
    get: &R,
)
    requires
        call_ensures(Player::new, (), new),
    ensures
        !new.primed(),
        forall|p: &mut Player, planar: &mut [Vec<i32>], next: u64| #[trigger]
            call_ensures(Player::play::<R>, (p, rd, wr, planar, frames, get), next) ==> {
                &&& (*final(planar))@.len() == (*planar)@.len()
                &&& forall|c: int|
                    0 <= c < (*planar)@.len() ==> (#[trigger] (*final(planar))@[c])@.len()
                        == (*planar)@[c]@.len()
                &&& forall|i: int, c: int|
                    #![trigger (*final(planar))@[c]@[i]]
                    0 <= c < (*planar)@.len() && 0 <= i < (*planar)@[c]@.len() && (i >= frames || c
                        >= 6) ==> (*final(planar))@[c]@[i] == (*planar)@[c]@[i]
            },
{
}

/// What the daemon does with an open device: it leaves on shutdown, else it streams while a
/// client is active, at the rate that is wanted where the device has it and at the default
/// where not, else it idles, and every fiftieth time in a row it looks whether the device is
/// still there.
pub proof fn law_daemon_turns(shutdown: bool, io_running: u32, want: u32)
    ensures
        forall|s: &mut Session, t: Tick| #[trigger]
            call_ensures(Session::tick, (s, shutdown, io_running, want), t) && (*s).ticks() < 50
                ==> {
                &&& t is Leave <==> shutdown
                &&& t is Stream <==> !shutdown && io_running != 0
                &&& t is Probe <==> !shutdown && io_running == 0 && (*s).ticks() == 49
                &&& t is Idle <==> !shutdown && io_running == 0 && (*s).ticks() < 49
                &&& t is Stream && (want == 44100 || want == 48000) ==> t->Stream_0 == want
                &&& t is Stream && want != 44100 && want != 48000 ==> t->Stream_0
                    == (*s).default_rate()
                &&& t is Idle ==> (*final(s)).ticks() == (*s).ticks() + 1
                &&& t is Probe || t is Stream ==> (*final(s)).ticks() == 0
                &&& (*final(s)).default_rate() == (*s).default_rate()
                &&& (*final(s)).failed() == (*s).failed()
            },
{
}

/// A session begins with nothing counted and nothing failed. A stream that failed, or whose
/// device left, closes the device; only a failure makes the daemon pause before it looks for the
/// device again, and not on shutdown. Half a second passes between two looks at an idle device.
pub proof fn law_sessions(rate: u32, new: Session, error: bool, present: bool, shutdown: bool)
    requires
        call_ensures(Session::new, (rate,), new),
    ensures
        new.default_rate() == rate,
        new.ticks() == 0,
        !new.failed(),
        forall|s: &mut Session, leave: bool| #[trigger]
            call_ensures(Session::streamed, (s, error, present), leave) ==> {
                &&& leave <==> error || !present
                &&& (*final(s)).failed() <==> error || (*s).failed()
                &&& (*final(s)).ticks() == (*s).ticks()
                &&& (*final(s)).default_rate() == (*s).default_rate()
            },
        forall|s: Session, r: bool| #[trigger]
            call_ensures(Session::backs_off, (&s, shutdown), r) ==> (r <==> s.failed() && !shutdown),
        PROBE_EVERY * IDLE_SLEEP_MS == 500,
        IDLE_SLEEP_MS == 10,
        REOPEN_SLEEP_MS == 1000,
        BACKOFF_SLEEP_MS == 500,
{
}

} // verus!
