//! Codec of the control protocol: 64-byte reports `[code][seq: LE32][payload..]`.
//!
//! No I/O here: request reports are built, and fields are read out of reply reports.

use vstd::prelude::*;
use vstd::string::*;

use crate::error::{fails, Error, ErrorView};
use crate::text::{decimal, push_decimal};
use crate::{AUDIO_CTRL_BYTES, HID_REPORT_LEN};

verus! {

// Command codes, byte 0 of a request.

/// Reads the status byte.
pub const CMD_GET_STATUS: u8 = 0x0a;

/// Reads the sample rate.
pub const CMD_GET_PARAM: u8 = 0x30;

/// Sets the sample rate.
pub const CMD_SET_RATE: u8 = 0x31;

/// Reads the audio-controls register file.
pub const CMD_GET_CONTROLS: u8 = 0x32;

/// Writes a range of the audio-controls register file.
pub const CMD_SET_CONTROLS: u8 = 0x33;

/// Reads the overload block.
pub const CMD_GET_OVERLOAD: u8 = 0x35;

/// Offset of the payload within a report.
pub const PAYLOAD_OFF: usize = 5;

// Codes of the reports that the device sends unasked.

/// An input overloads.
pub const EVT_OVERLOAD: u8 = 0x34;

/// A phono switch moved.
pub const EVT_PHONO: u8 = 0x38;

/// A thru state changed.
pub const EVT_THRU: u8 = 0x39;

/// The codes of the commands.
pub open spec fn is_command(code: u8) -> bool {
    ||| code == CMD_GET_STATUS
    ||| code == CMD_GET_PARAM
    ||| code == CMD_SET_RATE
    ||| code == CMD_GET_CONTROLS
    ||| code == CMD_SET_CONTROLS
    ||| code == CMD_GET_OVERLOAD
}

/// The codes of the events.
pub open spec fn event_code(code: u8) -> bool {
    code == EVT_OVERLOAD || code == EVT_PHONO || code == EVT_THRU
}

/// Whether `code` is that of an event rather than of a command reply.
pub fn is_event(code: u8) -> (r: bool)
    ensures
        r == event_code(code),
{
    code == EVT_OVERLOAD || code == EVT_PHONO || code == EVT_THRU
}

// --------------------------------- requests ---------------------------------

/// Byte `j` (0 is the least significant) of a 32-bit number.
pub open spec fn le_byte(n: u32, j: int) -> u8 {
    if j == 0 {
        (n % 0x100) as u8
    } else if j == 1 {
        (n / 0x100 % 0x100) as u8
    } else if j == 2 {
        (n / 0x1_0000 % 0x100) as u8
    } else {
        (n / 0x100_0000) as u8
    }
}

/// The four bytes of a 32-bit number, the least significant first.
pub open spec fn le_bytes(n: u32) -> Seq<u8> {
    seq![le_byte(n, 0), le_byte(n, 1), le_byte(n, 2), le_byte(n, 3)]
}

/// The number in the four bytes of `b` from `off` on, the least significant first.
pub open spec fn le_number(b: Seq<u8>, off: int) -> int {
    b[off] + 0x100 * b[off + 1] + 0x1_0000 * b[off + 2] + 0x100_0000 * b[off + 3]
}

/// The report that asks for `code` with sequence number `seq`.
pub open spec fn report_of(code: u8, seq: u32, payload: Seq<u8>) -> Seq<u8> {
    let head = seq![code] + le_bytes(seq) + payload;
    head + Seq::new((HID_REPORT_LEN - head.len()) as nat, |i: int| 0u8)
}

/// Whether a payload fits a report.
pub open spec fn payload_fits(payload: Seq<u8>) -> bool {
    payload.len() <= HID_REPORT_LEN - PAYLOAD_OFF
}

/// The message about a payload of `n` bytes that does not fit.
pub open spec fn too_long_text(n: nat) -> Seq<char> {
    "hid payload too long ("@ + decimal(n) + ")"@
}

/// Builds one report `[code][seq: LE32][payload..]`, zero-padded to 64 bytes.
pub fn build_report(code: u8, seq: u32, payload: &[u8]) -> (r: Result<[u8; HID_REPORT_LEN], Error>)
    ensures
        r is Ok <==> payload_fits(payload@),
        r is Ok ==> r->Ok_0@ == report_of(code, seq, payload@),
        r is Err ==> fails(r, ErrorView::Param(too_long_text(payload@.len()))),
{
    if payload.len() > HID_REPORT_LEN - PAYLOAD_OFF {
        let mut text: String = "hid payload too long (".to_string();
        push_decimal(&mut text, payload.len() as u64);
        text.append(")");
        return Err(Error::Param(text));
    }
    let mut req: [u8; HID_REPORT_LEN] = [0u8; HID_REPORT_LEN];
    req[0] = code;
    req[1] = (seq % 0x100) as u8;
    req[2] = (seq / 0x100 % 0x100) as u8;
    req[3] = (seq / 0x1_0000 % 0x100) as u8;
    req[4] = (seq / 0x100_0000) as u8;
    let ghost whole = report_of(code, seq, payload@);
    let mut i: usize = 0;
    while i < payload.len()
        invariant
            i <= payload@.len() <= HID_REPORT_LEN - PAYLOAD_OFF,
            whole == report_of(code, seq, payload@),
            forall|j: int| 0 <= j < PAYLOAD_OFF + i ==> req@[j] == whole[j],
            forall|j: int| PAYLOAD_OFF + i <= j < HID_REPORT_LEN ==> req@[j] == 0,
        decreases payload@.len() - i,
    {
        req[PAYLOAD_OFF + i] = payload[i];
        i = i + 1;
    }
    assert(req@ =~= whole);
    Ok(req)
}

/// The message about a sample rate that the device does not have.
pub open spec fn bad_rate_text(hz: u32) -> Seq<char> {
    "unsupported sample rate "@ + decimal(hz as nat)
}

/// The sample rates of the device.
pub open spec fn supported_rate(hz: u32) -> bool {
    hz == 44100 || hz == 48000
}

/// A 16-bit number as two bytes, the most significant first.
pub open spec fn be_bytes(n: int) -> Seq<u8> {
    seq![(n / 0x100) as u8, (n % 0x100) as u8]
}

/// Whether the device can run at this rate.
pub fn is_supported_rate(hz: u32) -> (r: bool)
    ensures
        r == supported_rate(hz),
{
    hz == 44100 || hz == 48000
}

/// Encodes a sample rate as the big-endian payload of `CMD_SET_RATE`.
pub fn encode_rate(hz: u32) -> (r: Result<[u8; 2], Error>)
    ensures
        r is Ok <==> supported_rate(hz),
        r is Ok ==> r->Ok_0@ == be_bytes(hz as int),
        r is Err ==> fails(r, ErrorView::Param(bad_rate_text(hz))),
{
    if !is_supported_rate(hz) {
        let mut text: String = "unsupported sample rate ".to_string();
        push_decimal(&mut text, hz as u64);
        return Err(Error::Param(text));
    }
    let r: [u8; 2] = [(hz / 0x100) as u8, (hz % 0x100) as u8];
    assert(r@ =~= be_bytes(hz as int));
    Ok(r)
}

/// The range `offset .. offset + len` lies in the audio-controls register file.
pub open spec fn in_controls(offset: int, len: int) -> bool {
    offset + len <= AUDIO_CTRL_BYTES
}

/// Whether `offset .. offset + len` lies in the audio-controls register file.
pub fn check_controls(offset: usize, len: usize) -> (r: Result<(), Error>)
    ensures
        r is Ok <==> in_controls(offset as int, len as int),
        r is Err ==> fails(r, ErrorView::Param("audio-controls range"@)),
{
    if offset > AUDIO_CTRL_BYTES || len > AUDIO_CTRL_BYTES - offset {
        return Err(Error::Param("audio-controls range".to_string()));
    }
    Ok(())
}

/// Builds the payload `[offset][len][data..]` of `CMD_SET_CONTROLS`.
pub fn encode_set_controls(offset: usize, data: &[u8]) -> (r: Result<Vec<u8>, Error>)
    ensures
        r is Ok <==> in_controls(offset as int, data@.len() as int),
        r is Ok ==> r->Ok_0@ == seq![offset as u8, data@.len() as u8] + data@,
        r is Err ==> fails(r, ErrorView::Param("audio-controls range"@)),
{
    match check_controls(offset, data.len()) {
        Ok(()) => {},
        Err(e) => return Err(e),
    }
    let mut pl: Vec<u8> = Vec::with_capacity(2 + data.len());
    pl.push(offset as u8);
    pl.push(data.len() as u8);
    pl.extend_from_slice(data);
    assert(pl@ =~= seq![offset as u8, data@.len() as u8] + data@);
    Ok(pl)
}

// ---------------------------------- replies ---------------------------------

/// The sample rate in a reply to `CMD_GET_PARAM`.
pub open spec fn rate_in(reply: Seq<u8>) -> int {
    0x100 * reply[PAYLOAD_OFF as int] + reply[PAYLOAD_OFF + 1]
}

/// The `len` payload bytes of a reply from `offset` on.
pub open spec fn payload_range(reply: Seq<u8>, offset: int, len: int) -> Seq<u8> {
    reply.subrange(PAYLOAD_OFF + offset, PAYLOAD_OFF + offset + len)
}

/// Reads the sample rate, big-endian, out of a reply to `CMD_GET_PARAM`.
pub fn decode_rate(reply: &[u8; HID_REPORT_LEN]) -> (hz: u32)
    ensures
        hz == rate_in(reply@),
{
    reply[PAYLOAD_OFF] as u32 * 0x100 + reply[PAYLOAD_OFF + 1] as u32
}

/// Copies a range of the audio-controls register file out of a reply to `CMD_GET_CONTROLS`.
pub fn decode_controls(reply: &[u8; HID_REPORT_LEN], offset: usize, dst: &mut [u8]) -> (r: Result<
    (),
    Error,
>)
    ensures
        r is Ok <==> in_controls(offset as int, old(dst)@.len() as int),
        r is Ok ==> final(dst)@ == payload_range(reply@, offset as int, old(dst)@.len() as int),
        r is Err ==> fails(r, ErrorView::Param("audio-controls range"@)) && final(dst)@ == old(
            dst,
        )@,
{
    match check_controls(offset, dst.len()) {
        Ok(()) => {},
        Err(e) => return Err(e),
    }
    let ghost whole = payload_range(reply@, offset as int, dst@.len() as int);
    let mut i: usize = 0;
    while i < dst.len()
        invariant
            dst@.len() == old(dst)@.len(),
            i <= dst@.len(),
            in_controls(offset as int, dst@.len() as int),
            whole == payload_range(reply@, offset as int, dst@.len() as int),
            forall|j: int| 0 <= j < i ==> dst@[j] == whole[j],
        decreases dst@.len() - i,
    {
        dst[i] = reply[PAYLOAD_OFF + offset + i];
        i = i + 1;
    }
    assert(dst@ =~= whole);
    Ok(())
}

/// Reads the overload block out of a reply to `CMD_GET_OVERLOAD`.
pub fn decode_overload(reply: &[u8; HID_REPORT_LEN]) -> (o: [u8; 6])
    ensures
        o@ == payload_range(reply@, 0, 6),
{
    let o: [u8; 6] = [reply[5], reply[6], reply[7], reply[8], reply[9], reply[10]];
    assert(o@ =~= payload_range(reply@, 0, 6));
    o
}

/// Reads the status byte out of a reply to `CMD_GET_STATUS`.
pub fn decode_status(reply: &[u8; HID_REPORT_LEN]) -> (status: u8)
    ensures
        status == reply@[PAYLOAD_OFF as int],
{
    reply[PAYLOAD_OFF]
}

// ----------------------------------- laws -----------------------------------

/// A report says what was asked: code, sequence number and payload can be read back from
/// it, and what lies behind the payload is zero.
pub proof fn law_report_fields(code: u8, seq: u32, payload: Seq<u8>)
    requires
        payload_fits(payload),
    ensures
        ({
            let r = report_of(code, seq, payload);
            &&& r.len() == HID_REPORT_LEN
            &&& r[0] == code
            &&& le_number(r, 1) == seq
            &&& payload_range(r, 0, payload.len() as int) == payload
            &&& forall|i: int| PAYLOAD_OFF + payload.len() <= i < HID_REPORT_LEN ==> r[i] == 0
        }),
{
    let r = report_of(code, seq, payload);
    assert(r[1] == le_byte(seq, 0));
    assert(r[2] == le_byte(seq, 1));
    assert(r[3] == le_byte(seq, 2));
    assert(r[4] == le_byte(seq, 3));
    law_le_round_trip(seq);
    assert(payload_range(r, 0, payload.len() as int) =~= payload);
}

/// The four bytes of a number give it back.
pub proof fn law_le_round_trip(n: u32)
    ensures
        le_number(le_bytes(n), 0) == n,
        le_byte(n, 0) + 0x100 * le_byte(n, 1) + 0x1_0000 * le_byte(n, 2) + 0x100_0000 * le_byte(
            n,
            3,
        ) == n,
{
    let n1 = n / 0x100;
    let n2 = n / 0x1_0000;
    let n3 = n / 0x100_0000;
    assert(n == 0x100 * n1 + n % 0x100);
    assert(n1 == 0x100 * n2 + n1 % 0x100);
    assert(n2 == 0x100 * n3 + n2 % 0x100);
}

/// A rate that was encoded is decoded unchanged.
pub proof fn law_rate_round_trip(hz: u32, reply: Seq<u8>)
    requires
        supported_rate(hz),
        reply.len() == HID_REPORT_LEN,
        payload_range(reply, 0, 2) == be_bytes(hz as int),
    ensures
        rate_in(reply) == hz,
{
    assert(payload_range(reply, 0, 2)[0] == reply[5]);
    assert(payload_range(reply, 0, 2)[1] == reply[6]);
}

/// No event can be taken for the reply to a command.
pub proof fn law_events_are_no_replies(code: u8)
    ensures
        !(event_code(code) && is_command(code)),
{
}

/// The payload of `CMD_SET_CONTROLS` says exactly which registers to write, and with what:
/// neither offset nor count is cut.
pub proof fn law_controls_payload(offset: usize, data: Seq<u8>)
    requires
        in_controls(offset as int, data.len() as int),
    ensures
        ({
            let payload = seq![offset as u8, data.len() as u8] + data;
            &&& payload[0] == offset
            &&& payload[1] == data.len()
            &&& payload.skip(2) == data
        }),
{
    assert((seq![offset as u8, data.len() as u8] + data).skip(2) =~= data);
}

/// The payloads of all commands fit a report, so building one for them never fails.
pub proof fn law_commands_fit(hz: u32, offset: usize, data: Seq<u8>)
    ensures
        payload_fits(Seq::<u8>::empty()),
        payload_fits(be_bytes(hz as int)),
        in_controls(offset as int, data.len() as int) ==> payload_fits(
            seq![offset as u8, data.len() as u8] + data,
        ),
{
}

/// What `build_report` returns: a payload of up to 59 bytes makes a report of 64, of which byte
/// 0 is the code, bytes 1 to 4 give back the sequence number, the least significant first, the
/// payload follows from byte 5 on, and the rest is zero. A longer payload is refused.
pub proof fn law_report_is_framed(
    code: u8,
    seq: u32,
    payload: &[u8],
    r: Result<[u8; HID_REPORT_LEN], Error>,
)
    requires
        call_ensures(build_report, (code, seq, payload), r),
    ensures
        payload@.len() <= 59 ==> {
            &&& r is Ok
            &&& r->Ok_0@.len() == 64
            &&& r->Ok_0@[0] == code
            &&& r->Ok_0@[1] + 256 * r->Ok_0@[2] + 65536 * r->Ok_0@[3] + 16777216 * r->Ok_0@[4]
                == seq
            &&& forall|i: int| 0 <= i < payload@.len() ==> #[trigger] r->Ok_0@[5 + i] == payload@[i]
            &&& forall|i: int|
                5 + payload@.len() <= i < 64 ==> #[trigger] r->Ok_0@[i] == 0
        },
        payload@.len() > 59 ==> {
            &&& r is Err
            &&& r->Err_0 is Param
            &&& r->Err_0->Param_0@ == "hid payload too long ("@ + decimal(payload@.len()) + ")"@
        },
{
    if payload@.len() <= 59 {
        law_report_fields(code, seq, payload@);
    }
}

/// Reports tell requests apart: two of them are equal only where code, sequence number and
/// payload are, up to zeros at the end of the payload.
pub proof fn law_reports_differ(
    code1: u8,
    seq1: u32,
    payload1: Seq<u8>,
    code2: u8,
    seq2: u32,
    payload2: Seq<u8>,
)
    requires
        payload1.len() == payload2.len() <= 59,
        report_of(code1, seq1, payload1) == report_of(code2, seq2, payload2),
    ensures
        code1 == code2,
        seq1 == seq2,
        payload1 == payload2,
{
    law_report_fields(code1, seq1, payload1);
    law_report_fields(code2, seq2, payload2);
}

/// What `encode_rate` and `decode_rate` make of a rate: the device has 44100 and 48000 Hz and no
/// other; those two are written as two bytes, the most significant first, and whatever stands
/// in bytes 5 and 6 of a reply is read that way, so that what was written is read back.
pub proof fn law_rate_bytes(
    hz: u32,
    written: Result<[u8; 2], Error>,
    reply: [u8; HID_REPORT_LEN],
    read: u32,
)
    requires
        call_ensures(encode_rate, (hz,), written),
        call_ensures(decode_rate, (&reply,), read),
    ensures
        written is Ok <==> hz == 44100 || hz == 48000,
        written is Ok ==> 256 * written->Ok_0@[0] + written->Ok_0@[1] == hz,
        written is Err ==> written->Err_0 is Param && written->Err_0->Param_0@
            == "unsupported sample rate "@ + decimal(hz as nat),
        read == 256 * reply@[5] + reply@[6],
        written is Ok && reply@[5] == written->Ok_0@[0] && reply@[6] == written->Ok_0@[1] ==> read
            == hz,
{
}

/// The device runs at 44100 and at 48000 Hz, and at no other rate.
pub proof fn law_two_rates(hz: u32, r: bool)
    requires
        call_ensures(is_supported_rate, (hz,), r),
    ensures
        r == supported_rate(hz),
        hz < 44100 || 44100 < hz < 48000 || 48000 < hz ==> !r,
        hz == 44100 ==> r,
        hz == 48000 ==> r,
{
}

/// Which ranges of the 22 registers there are, and how `encode_set_controls` says to write one:
/// offset, count, and then the data, byte by byte. Every other range is refused.
pub proof fn law_registers_written(
    offset: usize,
    data: &[u8],
    checked: Result<(), Error>,
    r: Result<Vec<u8>, Error>,
)
    requires
        call_ensures(check_controls, (offset, data@.len() as usize), checked),
        call_ensures(encode_set_controls, (offset, data), r),
        data@.len() <= usize::MAX,
    ensures
        checked is Ok <==> offset + data@.len() <= 22,
        r is Ok <==> offset + data@.len() <= 22,
        r is Ok ==> {
            &&& r->Ok_0@.len() == 2 + data@.len()
            &&& r->Ok_0@[0] == offset
            &&& r->Ok_0@[1] == data@.len()
            &&& forall|i: int| 0 <= i < data@.len() ==> #[trigger] r->Ok_0@[2 + i] == data@[i]
        },
        checked is Err ==> checked->Err_0 is Param && checked->Err_0->Param_0@
            == "audio-controls range"@,
        r is Err ==> r->Err_0 is Param && r->Err_0->Param_0@ == "audio-controls range"@,
{
}

/// Reading a range of the registers gives those registers: byte `i` of what `decode_controls`
/// reads is register `offset + i`, which is byte `5 + offset + i` of the reply. A range that is
/// not within the 22 registers is refused, and nothing is read.
pub proof fn law_registers_read(reply: [u8; HID_REPORT_LEN], offset: usize)
    ensures
        forall|dst: &mut [u8], r: Result<(), Error>| #[trigger]
            call_ensures(decode_controls, (&reply, offset, dst), r) ==> {
                &&& r is Ok <==> offset + (*dst)@.len() <= 22
                &&& (*final(dst))@.len() == (*dst)@.len()
                &&& r is Ok ==> forall|i: int|
                    0 <= i < (*dst)@.len() ==> #[trigger] (*final(dst))@[i] == reply@[5 + offset
                        + i]
                &&& r is Err ==> {
                    &&& (*final(dst))@ == (*dst)@
                    &&& r->Err_0 is Param
                    &&& r->Err_0->Param_0@ == "audio-controls range"@
                }
            },
{
}

/// Reading registers one at a time gives the same as reading all of them at once.
pub proof fn law_registers_one_by_one(reply: [u8; HID_REPORT_LEN], offset: usize, i: usize)
    requires
        offset + i < 22,
    ensures
        forall|all: &mut [u8], one: &mut [u8], r: Result<(), Error>, q: Result<(), Error>|
            #[trigger] call_ensures(decode_controls, (&reply, offset, all), r) && r is Ok && i
                < (*all)@.len() && #[trigger] call_ensures(
                decode_controls,
                (&reply, (offset + i) as usize, one),
                q,
            ) && (*one)@.len() == 1 ==> q is Ok && (*final(one))@[0] == (*final(all))@[i as int],
{
    law_registers_read(reply, offset);
    law_registers_read(reply, (offset + i) as usize);
}

/// What is read of other replies: the overload block is the six bytes from byte 5 on, the
/// status is byte 5.
pub proof fn law_reply_fields(reply: [u8; HID_REPORT_LEN], overload: [u8; 6], status: u8)
    requires
        call_ensures(decode_overload, (&reply,), overload),
        call_ensures(decode_status, (&reply,), status),
    ensures
        forall|i: int| 0 <= i < 6 ==> #[trigger] overload@[i] == reply@[5 + i],
        status == reply@[5],
{
}

/// Writing registers and reading them back agree: where a device answers a read with what was
/// written, `decode_controls` gives the data that `encode_set_controls` was told.
pub proof fn law_registers_round_trip(
    offset: usize,
    data: &[u8],
    payload: Vec<u8>,
    reply: [u8; HID_REPORT_LEN],
)
    requires
        call_ensures(encode_set_controls, (offset, data), Ok::<Vec<u8>, Error>(payload)),
        forall|i: int|
            0 <= i < payload@[1] ==> reply@[5 + payload@[0] + i] == #[trigger] payload@[2 + i],
    ensures
        forall|dst: &mut [u8], r: Result<(), Error>| #[trigger]
            call_ensures(decode_controls, (&reply, offset, dst), r) && (*dst)@.len() == data@.len()
                ==> r is Ok && (*final(dst))@ == data@,
{
    let whole = payload_range(reply@, offset as int, data@.len() as int);
    assert forall|i: int| 0 <= i < data@.len() implies #[trigger] whole[i] == data@[i] by {
        assert(reply@[5 + payload@[0] + i] == payload@[2 + i]);
    }
    assert(whole =~= data@);
}

/// Which reports the device sends unasked: those of an overload, a phono switch and a thru
/// state. No command has such a code.
pub proof fn law_event_codes(code: u8, r: bool)
    requires
        call_ensures(is_event, (code,), r),
    ensures
        r <==> code == 0x34 || code == 0x38 || code == 0x39,
        code == 0x0a || (0x30 <= code <= 0x33) || code == 0x35 ==> !r,
        CMD_GET_STATUS == 0x0a,
        CMD_GET_PARAM == 0x30,
        CMD_SET_RATE == 0x31,
        CMD_GET_CONTROLS == 0x32,
        CMD_SET_CONTROLS == 0x33,
        CMD_GET_OVERLOAD == 0x35,
{
}

} // verus!
