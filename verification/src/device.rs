//! The device facade: an open SL 3 and its control operations.
//!
//! A control operation is an exchange on the control channel: a report goes out, and the one
//! reply to it is read, since the next report would stall otherwise. The methods here decide
//! each step; whoever owns the transport performs it and hands back the outcome.

use vstd::prelude::*;

use crate::error::{fails, Error, ErrorView};
use crate::proto::{
    bad_rate_text, be_bytes, build_report, check_controls, decode_controls, decode_overload,
    decode_rate, decode_status, encode_rate, encode_set_controls, in_controls, law_report_fields,
    payload_fits, payload_range, rate_in, report_of, supported_rate, too_long_text,
    CMD_GET_CONTROLS, CMD_GET_OVERLOAD, CMD_GET_PARAM, CMD_GET_STATUS, CMD_SET_CONTROLS,
    CMD_SET_RATE, PAYLOAD_OFF,
};
use crate::text::decimal;
use crate::{EP_HID_IN, EP_HID_OUT, HID_REPORT_LEN, PID, VID};

verus! {

/// How long to wait for the reply to a command, in milliseconds.
pub const CMD_TIMEOUT_MS: u64 = 1000;

/// One report of the control channel.
pub type Report = [u8; HID_REPORT_LEN];

/// The next step of an exchange on the control channel.
pub enum HidStep {
    /// Write this report to the endpoint.
    Write { endpoint: u8, report: Report },
    /// Read up to `len` bytes from the endpoint.
    Read { endpoint: u8, len: usize, timeout_ms: u64 },
    /// The exchange has failed.
    Fail(Error),
}

/// What a handle knows apart from its transport.
#[verifier::ext_equal]
pub struct DeviceState {
    /// The handle owns a streaming interface.
    pub has_audio: bool,
    /// The handle owns the control interface.
    pub has_control: bool,
    /// Sequence number of the last report.
    pub hid_seq: u32,
    /// Sample rate last set, 0 for none.
    pub cached_rate: u32,
}

/// An open SL 3 over a transport.
pub struct Device<T> {
    transport: T,
    has_audio: bool,
    has_control: bool,
    hid_seq: u32,
    cached_rate: u32,
}

/// The step is a failure that says `e`.
pub open spec fn step_fails(step: HidStep, e: ErrorView) -> bool {
    step is Fail && step->Fail_0@ == e
}

/// The sequence number after `seq`.
pub open spec fn next_seq(seq: u32) -> u32 {
    ((seq + 1) % 0x1_0000_0000) as u32
}

impl DeviceState {
    /// One report was numbered.
    pub open spec fn numbered(self) -> DeviceState {
        DeviceState { hid_seq: next_seq(self.hid_seq), ..self }
    }

    /// A rate was set.
    pub open spec fn paced(self, hz: u32) -> DeviceState {
        DeviceState { cached_rate: hz, ..self }
    }
}

/// Sending `code` from the state `before` leads to `after`, and `step` is what to do.
pub open spec fn sends(
    before: DeviceState,
    code: u8,
    payload: Seq<u8>,
    after: DeviceState,
    step: HidStep,
) -> bool {
    if !before.has_control {
        &&& after == before
        &&& step_fails(step, ErrorView::State("handle has no control interface"@))
    } else {
        &&& after == before.numbered()
        &&& if payload_fits(payload) {
            &&& step is Write
            &&& step->Write_endpoint == EP_HID_OUT
            &&& step->report@ == report_of(code, after.hid_seq, payload)
        } else {
            step_fails(step, ErrorView::Param(too_long_text(payload.len())))
        }
    }
}

/// Reading a report from the state `state` begins with `step`.
pub open spec fn reads(state: DeviceState, timeout_ms: u64, step: HidStep) -> bool {
    if state.has_control {
        step == (HidStep::Read { endpoint: EP_HID_IN, len: HID_REPORT_LEN, timeout_ms })
    } else {
        step_fails(step, ErrorView::State("handle has no control interface"@))
    }
}

/// The bytes `v`, cut or zero-filled to one report.
pub open spec fn as_report(v: Seq<u8>) -> Seq<u8> {
    Seq::new(
        HID_REPORT_LEN as nat,
        |i: int|
            if i < v.len() {
                v[i]
            } else {
                0
            },
    )
}

/// The report that a read which came back with `got` gives.
pub fn received(got: Result<Vec<u8>, Error>) -> (r: Result<Report, Error>)
    ensures
        match got {
            Ok(v) => if v@.len() == 0 {
                fails(r, ErrorView::State("empty hid read"@))
            } else {
                r is Ok && r->Ok_0@ == as_report(v@)
            },
            Err(e) => r == Err::<Report, Error>(e),
        },
{
    let v: Vec<u8> = match got {
        Ok(v) => v,
        Err(e) => return Err(e),
    };
    if v.len() == 0 {
        return Err(Error::State("empty hid read"));
    }
    let n: usize = if v.len() < HID_REPORT_LEN {
        v.len()
    } else {
        HID_REPORT_LEN
    };
    let mut buf: Report = [0u8; HID_REPORT_LEN];
    let mut i: usize = 0;
    while i < n
        invariant
            i <= n <= v@.len(),
            n <= HID_REPORT_LEN,
            forall|j: int| 0 <= j < i ==> buf@[j] == v@[j],
            forall|j: int| i <= j < HID_REPORT_LEN ==> buf@[j] == 0,
        decreases n - i,
    {
        buf[i] = v[i];
        i = i + 1;
    }
    assert(buf@ =~= as_report(v@));
    Ok(buf)
}

impl<T> View for Device<T> {
    type V = DeviceState;

    closed spec fn view(&self) -> DeviceState {
        DeviceState {
            has_audio: self.has_audio,
            has_control: self.has_control,
            hid_seq: self.hid_seq,
            cached_rate: self.cached_rate,
        }
    }
}

impl<T> Device<T> {
    /// The transport of this handle.
    pub closed spec fn link(&self) -> T {
        self.transport
    }

    /// Wraps a transport that is open and whose interfaces are claimed; `has_audio` and
    /// `has_control` say which ones.
    pub fn new(transport: T, has_audio: bool, has_control: bool) -> (d: Device<T>)
        ensures
            d.link() == transport,
            d@ == (DeviceState { has_audio, has_control, hid_seq: 0, cached_rate: 0 }),
    {
        Device { transport, has_audio, has_control, hid_seq: 0, cached_rate: 0 }
    }

    /// USB vendor id.
    pub fn vendor_id(&self) -> (id: u16)
        ensures
            id == VID,
    {
        VID
    }

    /// USB product id.
    pub fn product_id(&self) -> (id: u16)
        ensures
            id == PID,
    {
        PID
    }

    /// Whether this handle owns a streaming interface.
    pub fn has_audio(&self) -> (r: bool)
        ensures
            r == self@.has_audio,
    {
        self.has_audio
    }

    /// The underlying transport.
    pub fn transport(&self) -> (t: &T)
        ensures
            *t == self.link(),
    {
        &self.transport
    }

    /// Sets the rate at which playback is paced, without a command to the device.
    pub fn set_pacing_rate(&mut self, hz: u32)
        ensures
            final(self)@ == old(self)@.paced(hz),
            final(self).link() == old(self).link(),
    {
        self.cached_rate = hz;
    }

    /// The rate at which playback is to be paced, 0 where none was set.
    pub fn cached_rate(&self) -> (hz: u32)
        ensures
            hz == self@.cached_rate,
    {
        self.cached_rate
    }

    // ------------------------------ the exchange -----------------------------

    /// Begins to send one report. Its sequence number is used up even where the payload
    /// does not fit.
    pub fn hid_send(&mut self, code: u8, payload: &[u8]) -> (step: HidStep)
        ensures
            sends(old(self)@, code, payload@, final(self)@, step),
            final(self).link() == old(self).link(),
    {
        if !self.has_control {
            return HidStep::Fail(Error::State("handle has no control interface"));
        }
        self.hid_seq = self.hid_seq.wrapping_add(1);
        match build_report(code, self.hid_seq, payload) {
            Ok(report) => HidStep::Write { endpoint: EP_HID_OUT, report },
            Err(e) => HidStep::Fail(e),
        }
    }

    /// Begins to read one report: a reply, or an event. What the read brings goes to
    /// `received`.
    pub fn read_event(&self, timeout_ms: u64) -> (step: HidStep)
        ensures
            reads(self@, timeout_ms, step),
    {
        if !self.has_control {
            return HidStep::Fail(Error::State("handle has no control interface"));
        }
        HidStep::Read { endpoint: EP_HID_IN, len: HID_REPORT_LEN, timeout_ms }
    }

    /// Goes on when the report of a command was written: the reply is to be read.
    pub fn after_write(&self, wrote: Result<(), Error>) -> (step: HidStep)
        ensures
            match wrote {
                Ok(_) => reads(self@, CMD_TIMEOUT_MS, step),
                Err(e) => step == HidStep::Fail(e),
            },
    {
        match wrote {
            Ok(_) => self.read_event(CMD_TIMEOUT_MS),
            Err(e) => HidStep::Fail(e),
        }
    }

    // --------------------------- control operations --------------------------

    /// Begins to set the sample rate; `rate_set` takes the reply.
    pub fn set_sample_rate(&mut self, hz: u32) -> (step: HidStep)
        ensures
            final(self).link() == old(self).link(),
            if !old(self)@.has_control {
                &&& final(self)@ == old(self)@
                &&& step_fails(step, ErrorView::State("rate needs the control interface"@))
            } else if !supported_rate(hz) {
                &&& final(self)@ == old(self)@
                &&& step_fails(step, ErrorView::Param(bad_rate_text(hz)))
            } else {
                sends(old(self)@, CMD_SET_RATE, be_bytes(hz as int), final(self)@, step)
            },
    {
        if !self.has_control {
            return HidStep::Fail(Error::State("rate needs the control interface"));
        }
        match encode_rate(hz) {
            Ok(be) => self.hid_send(CMD_SET_RATE, &be),
            Err(e) => HidStep::Fail(e),
        }
    }

    /// Takes the reply to `set_sample_rate`: the rate counts as set once there is one.
    pub fn rate_set(&mut self, hz: u32, reply: Result<Report, Error>) -> (r: Result<(), Error>)
        ensures
            final(self).link() == old(self).link(),
            match reply {
                Ok(_) => r is Ok && final(self)@ == old(self)@.paced(hz),
                Err(e) => r == Err::<(), Error>(e) && final(self)@ == old(self)@,
            },
    {
        match reply {
            Ok(_) => {
                self.cached_rate = hz;
                Ok(())
            },
            Err(e) => Err(e),
        }
    }

    /// Begins to read the sample rate; `rate_reply` takes the reply.
    pub fn sample_rate(&mut self) -> (step: HidStep)
        ensures
            sends(old(self)@, CMD_GET_PARAM, Seq::empty(), final(self)@, step),
            final(self).link() == old(self).link(),
    {
        self.hid_send(CMD_GET_PARAM, &[])
    }

    /// Begins to read `len` bytes of the audio-controls register file from `offset` on;
    /// `controls_reply` takes the reply.
    pub fn get_audio_controls(&mut self, offset: usize, len: usize) -> (step: HidStep)
        ensures
            final(self).link() == old(self).link(),
            if in_controls(offset as int, len as int) {
                sends(old(self)@, CMD_GET_CONTROLS, Seq::empty(), final(self)@, step)
            } else {
                &&& final(self)@ == old(self)@
                &&& step_fails(step, ErrorView::Param("audio-controls range"@))
            },
    {
        match check_controls(offset, len) {
            Ok(_) => self.hid_send(CMD_GET_CONTROLS, &[]),
            Err(e) => HidStep::Fail(e),
        }
    }

    /// Begins to write `data` into the audio-controls register file from `offset` on;
    /// `done` takes the reply.
    pub fn set_audio_controls(&mut self, offset: usize, data: &[u8]) -> (step: HidStep)
        ensures
            final(self).link() == old(self).link(),
            if in_controls(offset as int, data@.len() as int) {
                sends(
                    old(self)@,
                    CMD_SET_CONTROLS,
                    seq![offset as u8, data@.len() as u8] + data@,
                    final(self)@,
                    step,
                )
            } else {
                &&& final(self)@ == old(self)@
                &&& step_fails(step, ErrorView::Param("audio-controls range"@))
            },
    {
        match encode_set_controls(offset, data) {
            Ok(pl) => self.hid_send(CMD_SET_CONTROLS, pl.as_slice()),
            Err(e) => HidStep::Fail(e),
        }
    }

    /// Begins to read the overload block; `overload_reply` takes the reply.
    pub fn overload(&mut self) -> (step: HidStep)
        ensures
            sends(old(self)@, CMD_GET_OVERLOAD, Seq::empty(), final(self)@, step),
            final(self).link() == old(self).link(),
    {
        self.hid_send(CMD_GET_OVERLOAD, &[])
    }

    /// Begins to read the status byte; `status_reply` takes the reply.
    pub fn status_byte(&mut self) -> (step: HidStep)
        ensures
            sends(old(self)@, CMD_GET_STATUS, Seq::empty(), final(self)@, step),
            final(self).link() == old(self).link(),
    {
        self.hid_send(CMD_GET_STATUS, &[])
    }
}

// ----------------------------------- replies --------------------------------

/// The sample rate that a reply brings.
pub fn rate_reply(reply: Result<Report, Error>) -> (r: Result<u32, Error>)
    ensures
        match reply {
            Ok(rep) => r is Ok && r->Ok_0 == rate_in(rep@),
            Err(e) => r == Err::<u32, Error>(e),
        },
{
    match reply {
        Ok(rep) => Ok(decode_rate(&rep)),
        Err(e) => Err(e),
    }
}

/// Copies the audio controls that a reply brings to `dst`.
pub fn controls_reply(reply: Result<Report, Error>, offset: usize, dst: &mut [u8]) -> (r: Result<
    (),
    Error,
>)
    ensures
        match reply {
            Ok(rep) => {
                &&& r is Ok <==> in_controls(offset as int, old(dst)@.len() as int)
                &&& r is Ok ==> final(dst)@ == payload_range(
                    rep@,
                    offset as int,
                    old(dst)@.len() as int,
                )
                &&& r is Err ==> fails(r, ErrorView::Param("audio-controls range"@))
                &&& r is Err ==> final(dst)@ == old(dst)@
            },
            Err(e) => r == Err::<(), Error>(e) && final(dst)@ == old(dst)@,
        },
{
    match reply {
        Ok(rep) => decode_controls(&rep, offset, dst),
        Err(e) => Err(e),
    }
}

/// What a command without an answer returns.
pub fn done(reply: Result<Report, Error>) -> (r: Result<(), Error>)
    ensures
        match reply {
            Ok(_) => r is Ok,
            Err(e) => r == Err::<(), Error>(e),
        },
{
    match reply {
        Ok(_) => Ok(()),
        Err(e) => Err(e),
    }
}

/// The overload block that a reply brings.
pub fn overload_reply(reply: Result<Report, Error>) -> (r: Result<[u8; 6], Error>)
    ensures
        match reply {
            Ok(rep) => r is Ok && r->Ok_0@ == payload_range(rep@, 0, 6),
            Err(e) => r == Err::<[u8; 6], Error>(e),
        },
{
    match reply {
        Ok(rep) => Ok(decode_overload(&rep)),
        Err(e) => Err(e),
    }
}

/// The status byte that a reply brings.
pub fn status_reply(reply: Result<Report, Error>) -> (r: Result<u8, Error>)
    ensures
        match reply {
            Ok(rep) => r is Ok && r->Ok_0 == rep@[PAYLOAD_OFF as int],
            Err(e) => r == Err::<u8, Error>(e),
        },
{
    match reply {
        Ok(rep) => Ok(decode_status(&rep)),
        Err(e) => Err(e),
    }
}

// ----------------------------------- laws -----------------------------------

/// The state after `n` reports.
pub open spec fn after_sends(state: DeviceState, n: nat) -> DeviceState
    decreases n,
{
    if n == 0 {
        state
    } else {
        after_sends(state, (n - 1) as nat).numbered()
    }
}

/// Reports are numbered one after the other, around the 32 bits that a number has; nothing
/// else of the handle changes.
pub proof fn law_sequence_numbers(state: DeviceState, n: nat)
    ensures
        after_sends(state, n).hid_seq == (state.hid_seq + n) % 0x1_0000_0000,
        after_sends(state, n) == (DeviceState { hid_seq: after_sends(state, n).hid_seq, ..state }),
    decreases n,
{
    if n > 0 {
        law_sequence_numbers(state, (n - 1) as nat);
    }
}

/// No two of the reports that are sent within one turn of the counter have the same number.
pub proof fn law_sequence_numbers_differ(state: DeviceState, m: nat, n: nat)
    requires
        m < n < m + 0x1_0000_0000,
    ensures
        after_sends(state, m).hid_seq != after_sends(state, n).hid_seq,
{
    law_sequence_numbers(state, m);
    law_sequence_numbers(state, n);
}

/// Every report that goes out is followed by reading its reply, without which the next one
/// would stall.
pub proof fn law_write_is_followed_by_read(
    before: DeviceState,
    code: u8,
    payload: Seq<u8>,
    after: DeviceState,
    step: HidStep,
    next: HidStep,
)
    requires
        sends(before, code, payload, after, step),
        step is Write,
        reads(after, CMD_TIMEOUT_MS, next),
    ensures
        next == (HidStep::Read {
            endpoint: EP_HID_IN,
            len: HID_REPORT_LEN,
            timeout_ms: CMD_TIMEOUT_MS,
        }),
{
}

/// A reply that is read whole is received unchanged.
pub proof fn law_whole_report_unchanged(v: Seq<u8>)
    requires
        v.len() == HID_REPORT_LEN,
    ensures
        as_report(v) == v,
{
    assert(as_report(v) =~= v);
}

/// What sending a report means. Without the control interface nothing happens but the failure.
/// With it the sequence number goes up by one, around 32 bits, and nothing else of the handle
/// changes; a payload of up to 59 bytes is written to endpoint 1, in a report that holds the
/// code, that number with the least significant byte first, the payload from byte 5 on, and
/// zeros; a longer one fails.
pub proof fn law_sending(
    before: DeviceState,
    code: u8,
    payload: Seq<u8>,
    after: DeviceState,
    step: HidStep,
)
    requires
        sends(before, code, payload, after, step),
    ensures
        after.has_audio == before.has_audio,
        after.has_control == before.has_control,
        after.cached_rate == before.cached_rate,
        !before.has_control ==> {
            &&& after.hid_seq == before.hid_seq
            &&& step is Fail
            &&& step->Fail_0 is State
            &&& step->Fail_0->State_0@ == "handle has no control interface"@
        },
        before.has_control ==> after.hid_seq == if before.hid_seq == 4294967295 {
            0
        } else {
            before.hid_seq + 1
        },
        before.has_control && payload.len() <= 59 ==> {
            let r = step->report@;
            &&& step is Write
            &&& step->Write_endpoint == 1
            &&& r.len() == 64
            &&& r[0] == code
            &&& r[1] + 256 * r[2] + 65536 * r[3] + 16777216 * r[4] == after.hid_seq
            &&& forall|i: int| 0 <= i < payload.len() ==> #[trigger] r[5 + i] == payload[i]
            &&& forall|i: int| 5 + payload.len() <= i < 64 ==> #[trigger] r[i] == 0
        },
        before.has_control && payload.len() > 59 ==> {
            &&& step is Fail
            &&& step->Fail_0 is Param
            &&& step->Fail_0->Param_0@ == "hid payload too long ("@ + decimal(payload.len()) + ")"@
        },
{
    if before.has_control && payload.len() <= 59 {
        law_report_fields(code, after.hid_seq, payload);
        let r = step->report@;
        assert forall|i: int| 0 <= i < payload.len() implies #[trigger] r[5 + i] == payload[i] by {
            assert(payload_range(r, 0, payload.len() as int)[i] == r[5 + i]);
        }
    }
}

/// Which report each operation sends: the rate is set by 0x31 with the rate as two bytes, the
/// most significant first, and read by 0x30; the controls are written by 0x33 with offset, count
/// and data, and read by 0x32; the overload block is read by 0x35, the status by 0x0a. The
/// readers send no payload. No operation changes the transport.
pub proof fn law_operations_sent<T>(hz: u32, offset: usize, len: usize, data: &[u8])
    ensures
        forall|d: &mut Device<T>, code: u8, payload: &[u8], step: HidStep| #[trigger]
            call_ensures(Device::<T>::hid_send, (d, code, payload), step) ==> sends(
                (*d)@,
                code,
                payload@,
                (*final(d))@,
                step,
            ) && (*final(d)).link() == (*d).link(),
        forall|d: &mut Device<T>, step: HidStep| #[trigger]
            call_ensures(Device::<T>::sample_rate, (d,), step) ==> sends(
                (*d)@,
                0x30,
                Seq::empty(),
                (*final(d))@,
                step,
            ) && (*final(d)).link() == (*d).link(),
        forall|d: &mut Device<T>, step: HidStep| #[trigger]
            call_ensures(Device::<T>::overload, (d,), step) ==> sends(
                (*d)@,
                0x35,
                Seq::empty(),
                (*final(d))@,
                step,
            ) && (*final(d)).link() == (*d).link(),
        forall|d: &mut Device<T>, step: HidStep| #[trigger]
            call_ensures(Device::<T>::status_byte, (d,), step) ==> sends(
                (*d)@,
                0x0a,
                Seq::empty(),
                (*final(d))@,
                step,
            ) && (*final(d)).link() == (*d).link(),
        forall|d: &mut Device<T>, step: HidStep| #[trigger]
            call_ensures(Device::<T>::get_audio_controls, (d, offset, len), step) ==> {
                &&& (*final(d)).link() == (*d).link()
                &&& offset + len <= 22 ==> sends(
                    (*d)@,
                    0x32,
                    Seq::empty(),
                    (*final(d))@,
                    step,
                )
                &&& offset + len > 22 ==> {
                    &&& (*final(d))@ == (*d)@
                    &&& step is Fail
                    &&& step->Fail_0 is Param
                    &&& step->Fail_0->Param_0@ == "audio-controls range"@
                }
            },
        forall|d: &mut Device<T>, step: HidStep| #[trigger]
            call_ensures(Device::<T>::set_audio_controls, (d, offset, data), step) ==> {
                &&& (*final(d)).link() == (*d).link()
                &&& offset + data@.len() <= 22 ==> sends(
                    (*d)@,
                    0x33,
                    seq![offset as u8, data@.len() as u8] + data@,
                    (*final(d))@,
                    step,
                )
                &&& offset + data@.len() > 22 ==> {
                    &&& (*final(d))@ == (*d)@
                    &&& step is Fail
                    &&& step->Fail_0 is Param
                    &&& step->Fail_0->Param_0@ == "audio-controls range"@
                }
            },
        forall|d: &mut Device<T>, step: HidStep| #[trigger]
            call_ensures(Device::<T>::set_sample_rate, (d, hz), step) ==> {
                &&& (*final(d)).link() == (*d).link()
                &&& (*d)@.has_control && (hz == 44100 || hz == 48000) ==> sends(
                    (*d)@,
                    0x31,
                    seq![(hz / 256) as u8, (hz % 256) as u8],
                    (*final(d))@,
                    step,
                )
                &&& !(*d)@.has_control || (hz != 44100 && hz != 48000) ==> {
                    &&& (*final(d))@ == (*d)@
                    &&& step is Fail
                }
                &&& !(*d)@.has_control ==> step->Fail_0 is State && step->Fail_0->State_0@
                    == "rate needs the control interface"@
                &&& (*d)@.has_control && hz != 44100 && hz != 48000 ==> step->Fail_0 is Param
                    && step->Fail_0->Param_0@ == "unsupported sample rate "@ + decimal(hz as nat)
            },
{
    assert(be_bytes(hz as int) =~= seq![(hz / 256) as u8, (hz % 256) as u8]);
}

/// A report that was written is followed by a read of up to 64 bytes from endpoint 0x81, for a
/// second; an event is waited for as long as the caller says. A write that failed ends the
/// exchange with its own error, and without the control interface there is none.
pub proof fn law_replies_awaited<T>(
    d: Device<T>,
    timeout_ms: u64,
    event: HidStep,
    wrote: Result<(), Error>,
    next: HidStep,
)
    requires
        call_ensures(Device::<T>::read_event, (&d, timeout_ms), event),
        call_ensures(Device::<T>::after_write, (&d, wrote), next),
    ensures
        d@.has_control ==> {
            &&& event is Read
            &&& event->Read_endpoint == 0x81
            &&& event->len == 64
            &&& event->timeout_ms == timeout_ms
        },
        d@.has_control && wrote is Ok ==> {
            &&& next is Read
            &&& next->Read_endpoint == 0x81
            &&& next->len == 64
            &&& next->timeout_ms == 1000
        },
        wrote is Err ==> next is Fail && next->Fail_0 == wrote->Err_0,
        !d@.has_control ==> event is Fail && event->Fail_0 is State && event->Fail_0->State_0@
            == "handle has no control interface"@,
        !d@.has_control && wrote is Ok ==> next is Fail && next->Fail_0 is State
            && next->Fail_0->State_0@ == "handle has no control interface"@,
{
}

/// What is received of a read: its bytes in their places, up to 64 of them, and zeros behind
/// them. An empty read is a failure, and a failed one stays what it is.
pub proof fn law_received(got: Result<Vec<u8>, Error>, r: Result<Report, Error>)
    requires
        call_ensures(received, (got,), r),
    ensures
        r is Ok <==> got is Ok && got->Ok_0@.len() > 0,
        r is Ok ==> forall|i: int|
            0 <= i < 64 && i < got->Ok_0@.len() ==> #[trigger] r->Ok_0@[i] == got->Ok_0@[i],
        r is Ok ==> forall|i: int|
            got->Ok_0@.len() <= i < 64 ==> #[trigger] r->Ok_0@[i] == 0,
        got is Err ==> r->Err_0 == got->Err_0,
        got is Ok && got->Ok_0@.len() == 0 ==> r->Err_0 is State && r->Err_0->State_0@
            == "empty hid read"@,
{
}

/// A handle begins without a report sent or a rate set, and says which interfaces it owns.
pub proof fn law_new_handle<T>(
    transport: T,
    has_audio: bool,
    has_control: bool,
    d: Device<T>,
    audio: bool,
    rate: u32,
    ids: (u16, u16),
    link: &T,
)
    requires
        call_ensures(Device::<T>::new, (transport, has_audio, has_control), d),
        call_ensures(Device::<T>::has_audio, (&d,), audio),
        call_ensures(Device::<T>::cached_rate, (&d,), rate),
        call_ensures(Device::<T>::vendor_id, (&d,), ids.0),
        call_ensures(Device::<T>::product_id, (&d,), ids.1),
        call_ensures(Device::<T>::transport, (&d,), link),
    ensures
        audio == has_audio,
        d@.has_control == has_control,
        d@.hid_seq == 0,
        rate == 0,
        ids.0 == 0x1CC5,
        ids.1 == 1,
        *link == transport,
{
}

/// The rate that playback is paced at is the one set last: by the device, once its reply is
/// there, or without it. A reply that failed sets none. Nothing else of the handle changes.
pub proof fn law_rate_remembered<T>(hz: u32, reply: Result<Report, Error>)
    ensures
        forall|d: &mut Device<T>| #[trigger]
            call_ensures(Device::<T>::set_pacing_rate, (d, hz), ()) ==> {
                &&& (*final(d))@.cached_rate == hz
                &&& (*final(d))@.has_audio == (*d)@.has_audio
                &&& (*final(d))@.has_control == (*d)@.has_control
                &&& (*final(d))@.hid_seq == (*d)@.hid_seq
                &&& (*final(d)).link() == (*d).link()
            },
        forall|d: &mut Device<T>, r: Result<(), Error>| #[trigger]
            call_ensures(Device::<T>::rate_set, (d, hz, reply), r) ==> {
                &&& r is Ok <==> reply is Ok
                &&& r is Err ==> r->Err_0 == reply->Err_0
                &&& (*final(d))@.cached_rate == if reply is Ok {
                    hz
                } else {
                    (*d)@.cached_rate
                }
                &&& (*final(d))@.has_audio == (*d)@.has_audio
                &&& (*final(d))@.has_control == (*d)@.has_control
                &&& (*final(d))@.hid_seq == (*d)@.hid_seq
                &&& (*final(d)).link() == (*d).link()
            },
{
}

/// What the replies bring: the rate in bytes 5 and 6, the most significant first, the overload
/// block in the six from byte 5 on, the status in byte 5. A reply that failed stays what it is.
pub proof fn law_replies_read(
    reply: Result<Report, Error>,
    rate: Result<u32, Error>,
    overload: Result<[u8; 6], Error>,
    status: Result<u8, Error>,
    ack: Result<(), Error>,
)
    requires
        call_ensures(rate_reply, (reply,), rate),
        call_ensures(overload_reply, (reply,), overload),
        call_ensures(status_reply, (reply,), status),
        call_ensures(done, (reply,), ack),
    ensures
        reply is Ok ==> {
            let r = reply->Ok_0@;
            &&& rate is Ok
            &&& rate->Ok_0 == 256 * r[5] + r[6]
            &&& overload is Ok
            &&& forall|i: int| 0 <= i < 6 ==> #[trigger] overload->Ok_0@[i] == r[5 + i]
            &&& status is Ok
            &&& status->Ok_0 == r[5]
            &&& ack is Ok
        },
        reply is Err ==> {
            &&& rate is Err && rate->Err_0 == reply->Err_0
            &&& overload is Err && overload->Err_0 == reply->Err_0
            &&& status is Err && status->Err_0 == reply->Err_0
            &&& ack is Err && ack->Err_0 == reply->Err_0
        },
{
}

/// Byte `i` of the controls that a reply brings is register `offset + i`, which is byte
/// `5 + offset + i` of it. Where the range is not within the 22 registers, or the reply failed,
/// nothing is copied.
pub proof fn law_controls_copied(reply: Result<Report, Error>, offset: usize)
    ensures
        forall|dst: &mut [u8], r: Result<(), Error>| #[trigger]
            call_ensures(controls_reply, (reply, offset, dst), r) ==> {
                &&& r is Ok <==> reply is Ok && offset + (*dst)@.len() <= 22
                &&& (*final(dst))@.len() == (*dst)@.len()
                &&& r is Ok ==> forall|i: int|
                    0 <= i < (*dst)@.len() ==> #[trigger] (*final(dst))@[i] == reply->Ok_0@[5
                        + offset + i]
                &&& r is Err ==> (*final(dst))@ == (*dst)@
                &&& reply is Err ==> r->Err_0 == reply->Err_0
            },
{
}

} // verus!
