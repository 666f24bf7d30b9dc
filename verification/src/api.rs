//! The decisions behind the C API: argument checks, commands, status codes, versions, and
//! how events are told from replies.

use vstd::prelude::*;

use crate::device::Report;
use crate::error::Error;
use crate::proto::{
    be_bytes, decode_overload, decode_rate, decode_status, event_code, in_controls, is_event,
    is_supported_rate, payload_range, rate_in, supported_rate, CMD_GET_CONTROLS, CMD_GET_OVERLOAD,
    CMD_GET_PARAM, CMD_GET_STATUS, CMD_SET_CONTROLS, CMD_SET_RATE, EVT_OVERLOAD, EVT_PHONO,
    EVT_THRU, PAYLOAD_OFF,
};
use crate::{AUDIO_CTRL_BYTES, PID, VID};

verus! {

/// The call succeeded.
pub const STATUS_OK: i32 = 0;

/// An argument is out of range.
pub const STATUS_PARAM: i32 = 2;

/// The device did not answer.
pub const STATUS_IO: i32 = 4;

/// There is no handle.
pub const STATUS_HANDLE: i32 = 8;

/// The error code after a failed open, `0xE00002D8` as a signed number.
pub const OPEN_ERROR: i32 = -536870184;

/// Reads before a command without a reply is given up.
pub const COMMAND_READS: u32 = 8;

/// The buffer size of a new handle, in milliseconds.
pub const DEFAULT_BUFFER_MS: u32 = 10;

/// State of the phono switches.
#[derive(Debug, Clone, Copy, PartialEq, Eq)]
pub struct PhonoData {
    pub bytes: [u8; 3],
}

/// State of the thru switches.
#[derive(Debug, Clone, Copy, PartialEq, Eq)]
pub struct ThruData {
    pub bytes: [u8; 4],
}

/// Overload state of the inputs.
#[derive(Debug, Clone, Copy, PartialEq, Eq)]
pub struct OverloadData {
    pub bytes: [u8; 6],
}

/// State of the USB port.
#[derive(Debug, Clone, Copy, PartialEq, Eq, Structural)]
pub struct UsbPortStatus {
    pub status: u32,
    pub reserved: u32,
}

/// A version number.
#[derive(Debug, Clone, Copy, PartialEq, Eq, Structural)]
pub struct Version {
    pub a: u32,
    pub b: u32,
    pub c: u32,
    pub d: u32,
}

/// Progress of a firmware update.
#[derive(Debug, Clone, Copy, PartialEq, Eq, Structural)]
pub struct FirmwareStatus {
    pub state: u32,
    pub percent: u32,
}

/// What a call does next.
pub enum ApiCall {
    /// Return this status.
    Return(i32),
    /// Send this command, and return what its reply gives.
    Command { code: u8, payload: Vec<u8> },
}

/// The call sends `code` with `payload`.
pub open spec fn commands(call: ApiCall, code: u8, payload: Seq<u8>) -> bool {
    call is Command && call->code == code && call->payload@ == payload
}

// ----------------------------------- events ---------------------------------

/// An event, decoded.
pub enum Event {
    Phono(PhonoData),
    Thru(ThruData),
    Overload(OverloadData),
}

/// `event` is what the report `r` tells; reports of other codes tell none.
pub open spec fn tells(r: Seq<u8>, event: Option<Event>) -> bool {
    if r[0] == EVT_PHONO {
        event is Some && event->0 is Phono && event->0->Phono_0.bytes@ == payload_range(r, 0, 3)
    } else if r[0] == EVT_THRU {
        event is Some && event->0 is Thru && event->0->Thru_0.bytes@ == payload_range(r, 0, 4)
    } else if r[0] == EVT_OVERLOAD {
        event is Some && event->0 is Overload && event->0->Overload_0.bytes@ == payload_range(
            r,
            0,
            6,
        )
    } else {
        event is None
    }
}

/// Decodes an event.
pub fn event_of(r: &Report) -> (event: Option<Event>)
    ensures
        tells(r@, event),
{
    if r[0] == EVT_PHONO {
        let bytes: [u8; 3] = [r[5], r[6], r[7]];
        assert(bytes@ =~= payload_range(r@, 0, 3));
        Some(Event::Phono(PhonoData { bytes }))
    } else if r[0] == EVT_THRU {
        let bytes: [u8; 4] = [r[5], r[6], r[7], r[8]];
        assert(bytes@ =~= payload_range(r@, 0, 4));
        Some(Event::Thru(ThruData { bytes }))
    } else if r[0] == EVT_OVERLOAD {
        Some(Event::Overload(OverloadData { bytes: decode_overload(r) }))
    } else {
        None
    }
}

/// What to do with what the reader thread read while no command runs: an event is
/// dispatched, anything else ignored.
pub fn idle_event(got: Result<Report, Error>) -> (event: Option<Event>)
    ensures
        match got {
            Ok(r) => tells(r@, event),
            Err(_) => event is None,
        },
{
    match got {
        Ok(r) => event_of(&r),
        Err(_) => None,
    }
}

// ---------------------------------- commands --------------------------------

/// What follows a read while a command waits for its reply.
pub enum CommandStep {
    /// This is the reply.
    Reply(Report),
    /// Dispatch this event, and read again.
    Dispatch(Option<Event>),
    /// Dispatch this event, and give up.
    DispatchLast(Option<Event>),
    /// Give up.
    Fail,
}

/// A command that waits for its reply.
pub struct Command {
    reads: u32,
}

impl Command {
    /// Reports read so far.
    pub closed spec fn reads(&self) -> nat {
        self.reads as nat
    }

    /// A command that was just sent.
    pub fn new() -> (c: Command)
        ensures
            c.reads() == 0,
    {
        Command { reads: 0 }
    }

    /// Takes what a read brought. Events may come before the reply; after `COMMAND_READS`
    /// reports the command is given up.
    pub fn on_read(&mut self, got: Result<Report, Error>) -> (step: CommandStep)
        requires
            old(self).reads() < COMMAND_READS,
        ensures
            final(self).reads() == old(self).reads() + if got is Ok && event_code(
                got->Ok_0@[0],
            ) {
                1int
            } else {
                0
            },
            match got {
                Err(_) => step is Fail,
                Ok(r) => if !event_code(r@[0]) {
                    step == CommandStep::Reply(r)
                } else if old(self).reads() + 1 < COMMAND_READS {
                    &&& step is Dispatch
                    &&& tells(r@, step->Dispatch_0)
                } else {
                    &&& step is DispatchLast
                    &&& tells(r@, step->DispatchLast_0)
                },
            },
    {
        let r: Report = match got {
            Ok(r) => r,
            Err(_) => return CommandStep::Fail,
        };
        if !is_event(r[0]) {
            return CommandStep::Reply(r);
        }
        self.reads = self.reads + 1;
        if self.reads < COMMAND_READS {
            CommandStep::Dispatch(event_of(&r))
        } else {
            CommandStep::DispatchLast(event_of(&r))
        }
    }
}

/// The status of a call that is done once its command has a reply.
pub fn command_status(replied: bool) -> (status: i32)
    ensures
        status == if replied {
            STATUS_OK
        } else {
            STATUS_IO
        },
{
    if replied {
        STATUS_OK
    } else {
        STATUS_IO
    }
}

/// The status of a call that needs a handle and nothing else.
pub fn handle_status(handle: bool) -> (status: i32)
    ensures
        status == if handle {
            STATUS_OK
        } else {
            STATUS_HANDLE
        },
{
    if handle {
        STATUS_OK
    } else {
        STATUS_HANDLE
    }
}

/// The error code that is kept after an attempt to open the device.
pub fn connection_error(opened: bool) -> (code: i32)
    ensures
        code == if opened {
            0
        } else {
            OPEN_ERROR
        },
{
    if opened {
        0
    } else {
        OPEN_ERROR
    }
}

// ------------------------------ audio controls ------------------------------

/// The range is not empty, and lies in the register file.
pub open spec fn good_range(offset: int, count: int) -> bool {
    0 <= offset && 0 < count && in_controls(offset, count)
}

/// Whether `count` registers from `offset` on exist.
fn is_good_range(offset: i32, count: i32) -> (r: bool)
    ensures
        r == good_range(offset as int, count as int),
{
    offset >= 0 && count > 0 && offset <= AUDIO_CTRL_BYTES as i32 && count
        <= AUDIO_CTRL_BYTES as i32 - offset
}

/// Reads `count` audio controls from `offset` on.
pub fn sl3_get_audio_controls(handle: bool, offset: i32, count: i32) -> (call: ApiCall)
    ensures
        !handle ==> call == ApiCall::Return(STATUS_HANDLE),
        handle && !good_range(offset as int, count as int) ==> call == ApiCall::Return(
            STATUS_PARAM,
        ),
        handle && good_range(offset as int, count as int) ==> commands(
            call,
            CMD_GET_CONTROLS,
            Seq::empty(),
        ),
{
    if !handle {
        return ApiCall::Return(STATUS_HANDLE);
    }
    if !is_good_range(offset, count) {
        return ApiCall::Return(STATUS_PARAM);
    }
    ApiCall::Command { code: CMD_GET_CONTROLS, payload: Vec::new() }
}

/// The audio controls that a reply brings.
pub fn controls_in(r: &Report, offset: i32, count: i32) -> (bytes: Vec<u8>)
    requires
        good_range(offset as int, count as int),
    ensures
        bytes@ == payload_range(r@, offset as int, count as int),
{
    let mut bytes: Vec<u8> = Vec::with_capacity(count as usize);
    let mut i: usize = 0;
    while i < count as usize
        invariant
            i <= count,
            good_range(offset as int, count as int),
            bytes@ == payload_range(r@, offset as int, i as int),
        decreases count - i,
    {
        bytes.push(r[PAYLOAD_OFF + offset as usize + i]);
        i = i + 1;
        assert(bytes@ =~= payload_range(r@, offset as int, i as int));
    }
    bytes
}

/// Writes `count` audio controls from `offset` on, which `data` holds.
pub fn sl3_set_audio_controls(handle: bool, offset: i32, count: i32, data: &[u8]) -> (call:
    ApiCall)
    requires
        handle && good_range(offset as int, count as int) ==> data@.len() == count,
    ensures
        !handle ==> call == ApiCall::Return(STATUS_HANDLE),
        handle && !good_range(offset as int, count as int) ==> call == ApiCall::Return(
            STATUS_PARAM,
        ),
        handle && good_range(offset as int, count as int) ==> commands(
            call,
            CMD_SET_CONTROLS,
            seq![offset as u8, count as u8] + data@,
        ),
{
    if !handle {
        return ApiCall::Return(STATUS_HANDLE);
    }
    if !is_good_range(offset, count) {
        return ApiCall::Return(STATUS_PARAM);
    }
    let mut payload: Vec<u8> = Vec::with_capacity(2 + data.len());
    payload.push(offset as u8);
    payload.push(count as u8);
    payload.extend_from_slice(data);
    assert(payload@ =~= seq![offset as u8, count as u8] + data@);
    ApiCall::Command { code: CMD_SET_CONTROLS, payload }
}

// --------------------------------- parameters -------------------------------

/// Reads a parameter; number 0, the sample rate, is the only one.
pub fn sl3_get_parameter(handle: bool, param_id: i32) -> (call: ApiCall)
    ensures
        !handle ==> call == ApiCall::Return(STATUS_HANDLE),
        handle && param_id != 0 ==> call == ApiCall::Return(STATUS_PARAM),
        handle && param_id == 0 ==> commands(call, CMD_GET_PARAM, Seq::empty()),
{
    if !handle {
        return ApiCall::Return(STATUS_HANDLE);
    }
    if param_id != 0 {
        return ApiCall::Return(STATUS_PARAM);
    }
    ApiCall::Command { code: CMD_GET_PARAM, payload: Vec::new() }
}

/// The sample rate that a reply brings.
pub fn parameter_in(r: &Report) -> (value: u32)
    ensures
        value == rate_in(r@),
{
    decode_rate(r)
}

/// Sets a parameter.
pub fn sl3_set_parameter(handle: bool, param_id: i32, value: u32) -> (call: ApiCall)
    ensures
        !handle ==> call == ApiCall::Return(STATUS_HANDLE),
        handle && (param_id != 0 || !supported_rate(value)) ==> call == ApiCall::Return(
            STATUS_PARAM,
        ),
        handle && param_id == 0 && supported_rate(value) ==> commands(
            call,
            CMD_SET_RATE,
            be_bytes(value as int),
        ),
{
    if !handle {
        return ApiCall::Return(STATUS_HANDLE);
    }
    if param_id != 0 || !is_supported_rate(value) {
        return ApiCall::Return(STATUS_PARAM);
    }
    let mut payload: Vec<u8> = Vec::with_capacity(2);
    payload.push((value / 0x100) as u8);
    payload.push((value % 0x100) as u8);
    assert(payload@ =~= be_bytes(value as int));
    ApiCall::Command { code: CMD_SET_RATE, payload }
}

/// The buffer sizes that can be set, in milliseconds.
pub open spec fn good_buffer(ms: i32) -> bool {
    1 <= ms <= 50
}

/// Sets the buffer size; `buffer_ms` is where the handle keeps it.
pub fn sl3_set_buffer_millisecs(handle: bool, ms: i32, buffer_ms: &mut u32) -> (status: i32)
    ensures
        status == if !handle {
            STATUS_HANDLE
        } else if good_buffer(ms) {
            STATUS_OK
        } else {
            STATUS_PARAM
        },
        *final(buffer_ms) == if status == STATUS_OK {
            ms as u32
        } else {
            *old(buffer_ms)
        },
{
    if !handle {
        return STATUS_HANDLE;
    }
    if ms < 1 || ms > 50 {
        return STATUS_PARAM;
    }
    *buffer_ms = ms as u32;
    STATUS_OK
}

// ----------------------------------- status ---------------------------------

/// A command without arguments on a handle.
pub open spec fn plain_call(handle: bool, code: u8, call: ApiCall) -> bool {
    if handle {
        commands(call, code, Seq::empty())
    } else {
        call == ApiCall::Return(STATUS_HANDLE)
    }
}

/// Reads the status byte.
pub fn sl3_get_status(handle: bool) -> (call: ApiCall)
    ensures
        plain_call(handle, CMD_GET_STATUS, call),
{
    if !handle {
        return ApiCall::Return(STATUS_HANDLE);
    }
    ApiCall::Command { code: CMD_GET_STATUS, payload: Vec::new() }
}

/// The status byte that a reply brings.
pub fn status_in(r: &Report) -> (status: u8)
    ensures
        status == r@[PAYLOAD_OFF as int],
{
    decode_status(r)
}

/// Reads the overload block.
pub fn sl3_get_overload_status(handle: bool) -> (call: ApiCall)
    ensures
        plain_call(handle, CMD_GET_OVERLOAD, call),
{
    if !handle {
        return ApiCall::Return(STATUS_HANDLE);
    }
    ApiCall::Command { code: CMD_GET_OVERLOAD, payload: Vec::new() }
}

/// The overload block that a reply brings.
pub fn overload_in(r: &Report) -> (o: OverloadData)
    ensures
        o.bytes@ == payload_range(r@, 0, 6),
{
    OverloadData { bytes: decode_overload(r) }
}

// ------------------------------ what never changes --------------------------

/// The USB vendor id.
pub fn sl3_get_vendor_id() -> (id: u32)
    ensures
        id == VID,
{
    VID as u32
}

/// The USB product id.
pub fn sl3_get_product_id() -> (id: u32)
    ensures
        id == PID,
{
    PID as u32
}

/// Whether the device is in boot mode: shipping hardware never is.
#[allow(non_snake_case)]
pub fn sl3_is_C0_device() -> (r: i32)
    ensures
        r == 0,
{
    0
}

/// The state of the USB port.
pub fn sl3_get_usb_port_status() -> (s: UsbPortStatus)
    ensures
        s == (UsbPortStatus { status: 0, reserved: 0 }),
{
    UsbPortStatus { status: 0, reserved: 0 }
}

/// The version of the driver.
pub fn sl3_get_driver_version() -> (v: Version)
    ensures
        v == (Version { a: 2, b: 0, c: 1, d: 2 }),
{
    Version { a: 2, b: 0, c: 1, d: 2 }
}

/// The version of the API.
pub fn sl3_get_api_version() -> (v: Version)
    ensures
        v == (Version { a: 2, b: 0, c: 1, d: 2 }),
{
    Version { a: 2, b: 0, c: 1, d: 2 }
}

/// The version of the firmware.
pub fn sl3_get_firmware_version() -> (v: Version)
    ensures
        v == (Version { a: 2, b: 50, c: 0, d: 0 }),
{
    Version { a: 2, b: 50, c: 0, d: 0 }
}

/// The version of the firmware that comes with the driver.
pub fn sl3_get_firmware_embedded_version() -> (v: Version)
    ensures
        v == (Version { a: 2, b: 50, c: 0, d: 0 }),
{
    Version { a: 2, b: 50, c: 0, d: 0 }
}

// ----------------------------------- laws -----------------------------------

/// A report tells an event exactly where its code is that of an event, so that no reply is
/// dispatched and no event taken for a reply.
pub proof fn law_events_and_replies(r: Seq<u8>, event: Option<Event>)
    requires
        tells(r, event),
    ensures
        event is Some <==> event_code(r[0]),
{
}

/// What an event holds: of a phono event the three bytes from byte 5 of the report on, of a thru
/// event four, of an overload six; any other report holds none.
pub proof fn law_events_decoded(r: Report, event: Option<Event>)
    requires
        call_ensures(event_of, (&r,), event),
    ensures
        event is Some <==> r@[0] == 0x34 || r@[0] == 0x38 || r@[0] == 0x39,
        r@[0] == 0x38 ==> event->0 is Phono && forall|i: int|
            0 <= i < 3 ==> #[trigger] event->0->Phono_0.bytes@[i] == r@[5 + i],
        r@[0] == 0x39 ==> event->0 is Thru && forall|i: int|
            0 <= i < 4 ==> #[trigger] event->0->Thru_0.bytes@[i] == r@[5 + i],
        r@[0] == 0x34 ==> event->0 is Overload && forall|i: int|
            0 <= i < 6 ==> #[trigger] event->0->Overload_0.bytes@[i] == r@[5 + i],
{
}

/// What it means that a report tells an event.
pub proof fn law_telling(r: Seq<u8>, event: Option<Event>)
    requires
        r.len() == 64,
        tells(r, event),
    ensures
        event is Some <==> r[0] == 0x34 || r[0] == 0x38 || r[0] == 0x39,
        r[0] == 0x38 ==> event->0 is Phono && forall|i: int|
            0 <= i < 3 ==> #[trigger] event->0->Phono_0.bytes@[i] == r[5 + i],
        r[0] == 0x39 ==> event->0 is Thru && forall|i: int|
            0 <= i < 4 ==> #[trigger] event->0->Thru_0.bytes@[i] == r[5 + i],
        r[0] == 0x34 ==> event->0 is Overload && forall|i: int|
            0 <= i < 6 ==> #[trigger] event->0->Overload_0.bytes@[i] == r[5 + i],
{
}

/// While no command runs, events are dispatched as they are, and a read that failed tells
/// nothing.
pub proof fn law_idle_reads(got: Result<Report, Error>, event: Option<Event>)
    requires
        call_ensures(idle_event, (got,), event),
    ensures
        got is Err ==> event is None,
        got is Ok ==> tells(got->Ok_0@, event),
{
}

/// A command that waits takes the first report that is no event for its reply, whole; up to
/// seven events before it are dispatched, and with the eighth the command is given up. A read
/// that failed ends it.
pub proof fn law_command_waits(got: Result<Report, Error>, new: Command)
    requires
        call_ensures(Command::new, (), new),
    ensures
        new.reads() == 0,
        forall|c: &mut Command, step: CommandStep| #[trigger]
            call_ensures(Command::on_read, (c, got), step) ==> {
                let code = got->Ok_0@[0];
                let event = code == 0x34 || code == 0x38 || code == 0x39;
                &&& step is Fail <==> got is Err
                &&& step is Reply <==> got is Ok && !event
                &&& step is Dispatch <==> got is Ok && event && (*c).reads() < 7
                &&& step is DispatchLast <==> got is Ok && event && (*c).reads() >= 7
                &&& step is Reply ==> step->Reply_0@ == got->Ok_0@
                &&& step is Dispatch ==> tells(got->Ok_0@, step->Dispatch_0)
                &&& step is DispatchLast ==> tells(got->Ok_0@, step->DispatchLast_0)
                &&& (*final(c)).reads() == if got is Ok && event {
                    (*c).reads() + 1
                } else {
                    (*c).reads()
                }
            },
{
}

/// The statuses that calls return: 0 for success, 4 where the device did not answer, 8 where
/// there is no handle; and the code that is kept after an open that failed.
pub proof fn law_status_codes(
    replied: bool,
    handle: bool,
    opened: bool,
    r: (i32, i32, i32),
)
    requires
        call_ensures(command_status, (replied,), r.0),
        call_ensures(handle_status, (handle,), r.1),
        call_ensures(connection_error, (opened,), r.2),
    ensures
        replied ==> r.0 == 0,
        !replied ==> r.0 == 4,
        handle ==> r.1 == 0,
        !handle ==> r.1 == 8,
        opened ==> r.2 == 0,
        !opened ==> r.2 + 0x1_0000_0000 == 0xE00002D8,
{
}

/// Which control calls go to the device, and with what. The range must not be empty and must lie
/// within the 22 registers, else the status is 2; without a handle it is 8. Reading sends 0x32
/// alone; writing sends 0x33 with offset, count and the data, byte by byte.
pub proof fn law_control_calls(
    handle: bool,
    offset: i32,
    count: i32,
    data: &[u8],
    get: ApiCall,
    set: ApiCall,
)
    requires
        handle && 0 <= offset && 0 < count && offset + count <= 22 ==> data@.len() == count,
        call_ensures(sl3_get_audio_controls, (handle, offset, count), get),
        call_ensures(sl3_set_audio_controls, (handle, offset, count, data), set),
    ensures
        !handle ==> get == ApiCall::Return(8) && set == ApiCall::Return(8),
        handle && !(0 <= offset && 0 < count && offset + count <= 22) ==> get == ApiCall::Return(2)
            && set == ApiCall::Return(2),
        handle && 0 <= offset && 0 < count && offset + count <= 22 ==> {
            &&& get is Command
            &&& get->code == 0x32
            &&& get->payload@.len() == 0
            &&& set is Command
            &&& set->code == 0x33
            &&& set->payload@.len() == 2 + count
            &&& set->payload@[0] == offset
            &&& set->payload@[1] == count
            &&& forall|i: int| 0 <= i < count ==> #[trigger] set->payload@[2 + i] == data@[i]
        },
{
}

/// The controls that a reply brings are the registers that were asked for: byte `i` is register
/// `offset + i`, which is byte `5 + offset + i` of the reply. So reading one register gives what
/// reading several does at its place.
pub proof fn law_controls_in_reply(
    r: Report,
    offset: i32,
    count: i32,
    bytes: Vec<u8>,
    i: i32,
    one: Vec<u8>,
)
    requires
        0 <= offset,
        0 <= i < count,
        offset + count <= 22,
        call_ensures(controls_in, (&r, offset, count), bytes),
        call_ensures(controls_in, (&r, (offset + i) as i32, 1), one),
    ensures
        bytes@.len() == count,
        forall|j: int| 0 <= j < count ==> #[trigger] bytes@[j] == r@[5 + offset + j],
        one@.len() == 1,
        one@[0] == bytes@[i as int],
{
}

/// Which parameter calls go to the device, and with what: number 0 is the rate, which is read by
/// 0x30 alone and set by 0x31 with two bytes, the most significant first, to 44100 or 48000. Any
/// other number or rate is refused with 2; without a handle the status is 8.
pub proof fn law_parameter_calls(
    handle: bool,
    param_id: i32,
    value: u32,
    get: ApiCall,
    set: ApiCall,
)
    requires
        call_ensures(sl3_get_parameter, (handle, param_id), get),
        call_ensures(sl3_set_parameter, (handle, param_id, value), set),
    ensures
        !handle ==> get == ApiCall::Return(8) && set == ApiCall::Return(8),
        handle && param_id != 0 ==> get == ApiCall::Return(2) && set == ApiCall::Return(2),
        handle && value != 44100 && value != 48000 ==> set == ApiCall::Return(2),
        handle && param_id == 0 ==> get is Command && get->code == 0x30 && get->payload@.len() == 0,
        handle && param_id == 0 && (value == 44100 || value == 48000) ==> {
            &&& set is Command
            &&& set->code == 0x31
            &&& set->payload@.len() == 2
            &&& 256 * set->payload@[0] + set->payload@[1] == value
        },
{
}

/// The status byte and the overload block are read by 0x0a and 0x35 alone.
pub proof fn law_status_calls(handle: bool, status: ApiCall, overload: ApiCall)
    requires
        call_ensures(sl3_get_status, (handle,), status),
        call_ensures(sl3_get_overload_status, (handle,), overload),
    ensures
        !handle ==> status == ApiCall::Return(8) && overload == ApiCall::Return(8),
        handle ==> {
            &&& status is Command
            &&& status->code == 0x0a
            &&& status->payload@.len() == 0
            &&& overload is Command
            &&& overload->code == 0x35
            &&& overload->payload@.len() == 0
        },
{
}

/// What is read of the replies: the rate in bytes 5 and 6, the most significant first, the status
/// in byte 5, the overload block in the six from there on.
pub proof fn law_reply_values(r: Report, rate: u32, status: u8, o: OverloadData)
    requires
        call_ensures(parameter_in, (&r,), rate),
        call_ensures(status_in, (&r,), status),
        call_ensures(overload_in, (&r,), o),
    ensures
        rate == 256 * r@[5] + r@[6],
        status == r@[5],
        forall|i: int| 0 <= i < 6 ==> #[trigger] o.bytes@[i] == r@[5 + i],
{
}

/// Buffers of 1 to 50 milliseconds are taken, and kept; any other is refused with 2, and without
/// a handle the status is 8; what was kept then stays.
pub proof fn law_buffer_sizes(handle: bool, ms: i32)
    ensures
        forall|kept: &mut u32, status: i32| #[trigger]
            call_ensures(sl3_set_buffer_millisecs, (handle, ms, kept), status) ==> {
                &&& !handle ==> status == 8
                &&& handle && (ms < 1 || ms > 50) ==> status == 2
                &&& handle && 1 <= ms <= 50 ==> status == 0 && *final(kept) == ms
                &&& status != 0 ==> *final(kept) == *kept
            },
{
}

/// What never changes.
pub proof fn law_fixed_answers(
    ids: (u32, u32, i32),
    port: UsbPortStatus,
    versions: (Version, Version, Version, Version),
)
    requires
        call_ensures(sl3_get_vendor_id, (), ids.0),
        call_ensures(sl3_get_product_id, (), ids.1),
        call_ensures(sl3_is_C0_device, (), ids.2),
        call_ensures(sl3_get_usb_port_status, (), port),
        call_ensures(sl3_get_driver_version, (), versions.0),
        call_ensures(sl3_get_api_version, (), versions.1),
        call_ensures(sl3_get_firmware_version, (), versions.2),
        call_ensures(sl3_get_firmware_embedded_version, (), versions.3),
    ensures
        ids == (0x1CC5u32, 1u32, 0i32),
        port.status == 0 && port.reserved == 0,
        versions.0 == versions.1,
        versions.2 == versions.3,
        versions.0 == (Version { a: 2, b: 0, c: 1, d: 2 }),
        versions.2 == (Version { a: 2, b: 50, c: 0, d: 0 }),
        DEFAULT_BUFFER_MS == 10,
{
}

} // verus!
