//! What a completed USB transfer amounts to: statuses, the packets of an isochronous
//! transfer, and the messages of those that fail.

use vstd::prelude::*;
use vstd::string::*;

use crate::error::{fails, Error, ErrorView};
use crate::frame::{views, IsoPacket, PacketView};
use crate::stream::{lemma_offsets_grow, packet_offset};
use crate::text::{decimal, hex2, push_decimal, push_hex2, push_signed, signed_decimal};

verus! {

/// Status of a transfer that completed.
pub open spec fn completed() -> i32 {
    0
}

/// Status of a transfer that timed out.
pub open spec fn timed_out() -> i32 {
    2
}

/// Status of a transfer that was cancelled.
pub open spec fn cancelled() -> i32 {
    3
}

/// `libusb1_sys::constants::LIBUSB_TRANSFER_COMPLETED`, which is 0.
#[verifier::external_body]
fn status_completed() -> (status: i32)
    ensures
        status == completed(),
{
    libusb1_sys::constants::LIBUSB_TRANSFER_COMPLETED
}

/// `libusb1_sys::constants::LIBUSB_TRANSFER_TIMED_OUT`, which is 2.
#[verifier::external_body]
fn status_timed_out() -> (status: i32)
    ensures
        status == timed_out(),
{
    libusb1_sys::constants::LIBUSB_TRANSFER_TIMED_OUT
}

/// `libusb1_sys::constants::LIBUSB_TRANSFER_CANCELLED`, which is 3.
#[verifier::external_body]
fn status_cancelled() -> (status: i32)
    ensures
        status == cancelled(),
{
    libusb1_sys::constants::LIBUSB_TRANSFER_CANCELLED
}

/// Type of an isochronous transfer.
pub open spec fn isochronous() -> u8 {
    1
}

/// `libusb1_sys::constants::LIBUSB_TRANSFER_TYPE_ISOCHRONOUS`, which is 1.
#[verifier::external_body]
fn type_isochronous() -> (kind: u8)
    ensures
        kind == isochronous(),
{
    libusb1_sys::constants::LIBUSB_TRANSFER_TYPE_ISOCHRONOUS
}

/// Whether a transfer or a packet with this status completed.
pub fn is_completed(status: i32) -> (r: bool)
    ensures
        r == (status == completed()),
{
    status == status_completed()
}

/// Whether a transfer with this status was cancelled.
pub fn is_cancelled(status: i32) -> (r: bool)
    ensures
        r == (status == cancelled()),
{
    status == status_cancelled()
}

// -------------------------- control and interrupt ---------------------------

/// The outcome of an interrupt OUT transfer with this status.
pub fn status_result(status: i32) -> (r: Result<(), Error>)
    ensures
        r is Ok <==> status == completed(),
        status == timed_out() ==> fails(r, ErrorView::Transport("transfer timed out"@)),
        status != completed() && status != timed_out() ==> fails(
            r,
            ErrorView::Transport("transfer status "@ + signed_decimal(status as int)),
        ),
{
    if is_completed(status) {
        Ok(())
    } else if status == status_timed_out() {
        Err(Error::Transport("transfer timed out".to_string()))
    } else {
        let mut text: String = "transfer status ".to_string();
        push_signed(&mut text, status);
        Err(Error::Transport(text))
    }
}

/// The outcome of an interrupt IN transfer with this status that brought `data`.
pub fn interrupt_in_result(status: i32, data: Vec<u8>) -> (r: Result<Vec<u8>, Error>)
    ensures
        r is Ok <==> status == completed(),
        r is Ok ==> r->Ok_0 == data,
        status == timed_out() ==> fails(r, ErrorView::Transport("interrupt in timed out"@)),
        status != completed() && status != timed_out() ==> fails(
            r,
            ErrorView::Transport("interrupt in status "@ + signed_decimal(status as int)),
        ),
{
    if is_completed(status) {
        Ok(data)
    } else if status == status_timed_out() {
        Err(Error::Transport("interrupt in timed out".to_string()))
    } else {
        let mut text: String = "interrupt in status ".to_string();
        push_signed(&mut text, status);
        Err(Error::Transport(text))
    }
}

/// A timeout as libusb takes it: whole milliseconds, capped at 32 bits.
pub fn timeout_millis(ms: u128) -> (r: u32)
    ensures
        r == if ms <= u32::MAX {
            ms as int
        } else {
            u32::MAX as int
        },
{
    if ms <= u32::MAX as u128 {
        ms as u32
    } else {
        u32::MAX
    }
}

// ------------------------------- isochronous --------------------------------

/// What the controller reports of one packet.
#[derive(Debug, Clone, Copy, PartialEq, Eq, Structural)]
pub struct PacketDesc {
    /// Bytes asked for.
    pub length: u32,
    /// Bytes transferred.
    pub actual_length: u32,
    /// Status of the packet.
    pub status: i32,
}

/// The lengths that the packets of a transfer asked for.
pub open spec fn requested(descs: Seq<PacketDesc>) -> Seq<u32> {
    Seq::new(descs.len(), |k: int| descs[k].length)
}

/// The bytes that packet `k` brought: packets lie in the buffer at the lengths asked for.
pub open spec fn packet_bytes(buf: Seq<u8>, descs: Seq<PacketDesc>, k: int) -> Seq<u8> {
    let off = packet_offset(requested(descs), k);
    buf.subrange(off, off + descs[k].actual_length)
}

/// The transfer lies inside its buffer.
pub open spec fn in_buffer(len: nat, descs: Seq<PacketDesc>) -> bool {
    &&& packet_offset(requested(descs), descs.len() as int) <= usize::MAX
    &&& forall|k: int|
        0 <= k < descs.len() ==> packet_offset(requested(descs), k) + (
        #[trigger] descs[k]).actual_length <= len
}

/// Whether a transfer lies inside its buffer of `len` bytes.
pub fn fits_buffer(len: usize, descs: &[PacketDesc]) -> (r: bool)
    ensures
        r == in_buffer(len as nat, descs@),
{
    let ghost lens = requested(descs@);
    let mut off: usize = 0;
    let mut k: usize = 0;
    while k < descs.len()
        invariant
            k <= descs@.len(),
            lens == requested(descs@),
            off == packet_offset(lens, k as int),
            forall|i: int|
                0 <= i < k ==> packet_offset(lens, i) + (#[trigger] descs@[i]).actual_length <= len,
        decreases descs@.len() - k,
    {
        proof {
            lemma_offsets_grow(lens, k + 1, descs@.len() as int);
        }
        let d: PacketDesc = descs[k];
        assert(d == descs@[k as int]);
        let n: usize = d.actual_length as usize;
        if n > len || off > len - n {
            return false;
        }
        match off.checked_add(d.length as usize) {
            Some(next) => {
                off = next;
            },
            None => {
                return false;
            },
        }
        k = k + 1;
    }
    true
}

/// Whether a buffer can hold what the packets of a transfer ask for together.
pub fn length_fits(lens: &[u32]) -> (r: bool)
    ensures
        r == (packet_offset(lens@, lens@.len() as int) <= usize::MAX),
{
    let mut total: usize = 0;
    let mut k: usize = 0;
    while k < lens.len()
        invariant
            k <= lens@.len(),
            total == packet_offset(lens@, k as int),
        decreases lens@.len() - k,
    {
        proof {
            lemma_offsets_grow(lens@, k + 1, lens@.len() as int);
        }
        match total.checked_add(lens[k] as usize) {
            Some(n) => {
                total = n;
            },
            None => {
                return false;
            },
        }
        k = k + 1;
    }
    true
}

/// The packets of a completed transfer.
pub open spec fn packets_of(buf: Seq<u8>, descs: Seq<PacketDesc>) -> Seq<PacketView> {
    Seq::new(
        descs.len(),
        |k: int|
            PacketView {
                data: packet_bytes(buf, descs, k),
                ok: descs[k].status == completed(),
            },
    )
}

/// Bytes that the packets of a transfer ask for together.
pub fn transfer_length(lens: &[u32]) -> (total: usize)
    requires
        packet_offset(lens@, lens@.len() as int) <= usize::MAX,
    ensures
        total == packet_offset(lens@, lens@.len() as int),
{
    let mut total: usize = 0;
    let mut k: usize = 0;
    while k < lens.len()
        invariant
            k <= lens@.len(),
            packet_offset(lens@, lens@.len() as int) <= usize::MAX,
            total == packet_offset(lens@, k as int),
        decreases lens@.len() - k,
    {
        proof {
            lemma_offsets_grow(lens@, k + 1, lens@.len() as int);
        }
        total = total + lens[k] as usize;
        k = k + 1;
    }
    total
}

/// Copies `n` bytes of `buf` from `off` on.
fn copy_range(buf: &[u8], off: usize, n: usize) -> (data: Vec<u8>)
    requires
        off + n <= buf@.len(),
    ensures
        data@ == buf@.subrange(off as int, off + n),
{
    let mut data: Vec<u8> = Vec::with_capacity(n);
    let mut i: usize = 0;
    while i < n
        invariant
            i <= n,
            off + n <= buf@.len(),
            data@ == buf@.subrange(off as int, off + i),
        decreases n - i,
    {
        assert(buf.len() == buf@.len());
        data.push(buf[off + i]);
        i = i + 1;
        assert(data@ =~= buf@.subrange(off as int, off + i));
    }
    data
}

/// Takes the packets of a completed isochronous transfer out of its buffer.
pub fn take_packets(buf: &[u8], descs: &[PacketDesc]) -> (packets: Vec<IsoPacket>)
    requires
        in_buffer(buf@.len(), descs@),
    ensures
        views(packets@) == packets_of(buf@, descs@),
{
    let ghost lens = requested(descs@);
    let mut packets: Vec<IsoPacket> = Vec::with_capacity(descs.len());
    let mut off: usize = 0;
    let mut k: usize = 0;
    while k < descs.len()
        invariant
            k <= descs@.len(),
            lens == requested(descs@),
            in_buffer(buf@.len(), descs@),
            off == packet_offset(lens, k as int),
            packets@.len() == k,
            forall|i: int| 0 <= i < k ==> (#[trigger] packets@[i])@ == packets_of(buf@, descs@)[i],
        decreases descs@.len() - k,
    {
        proof {
            lemma_offsets_grow(lens, k + 1, descs@.len() as int);
            assert(packet_offset(lens, k as int) + descs@[k as int].actual_length <= buf@.len());
        }
        let d: PacketDesc = descs[k];
        let data: Vec<u8> = copy_range(buf, off, d.actual_length as usize);
        packets.push(IsoPacket { data, ok: is_completed(d.status) });
        off = off + d.length as usize;
        k = k + 1;
    }
    assert(views(packets@) =~= packets_of(buf@, descs@));
    packets
}

/// What a transfer that came back amounts to.
pub enum XferResult {
    /// A control or interrupt transfer: its status, and the bytes that it brought.
    Plain { status: i32, data: Vec<u8> },
    /// An isochronous transfer: its packets. Their own statuses count, not that of the
    /// transfer.
    Iso { packets: Vec<IsoPacket> },
}

/// Takes the result of a transfer that came back out of its buffer. `descs` are its packets
/// where it is isochronous.
pub fn xfer_result(
    kind: u8,
    status: i32,
    actual_length: usize,
    buf: &[u8],
    descs: &[PacketDesc],
) -> (r: XferResult)
    requires
        kind == isochronous() ==> in_buffer(buf@.len(), descs@),
        kind != isochronous() ==> actual_length <= buf@.len(),
    ensures
        kind == isochronous() ==> r is Iso && views(r->packets@) == packets_of(buf@, descs@),
        kind != isochronous() ==> {
            &&& r is Plain
            &&& r->status == status
            &&& r->data@ == buf@.take(actual_length as int)
        },
{
    if kind == type_isochronous() {
        XferResult::Iso { packets: take_packets(buf, descs) }
    } else {
        XferResult::Plain { status, data: copy_range(buf, 0, actual_length) }
    }
}

/// The message about an isochronous transfer that could not be submitted.
pub open spec fn submit_text(rc: i32, endpoint: u8, packets: nat, len: nat) -> Seq<char> {
    "iso submit failed (libusb "@ + signed_decimal(rc as int) + ") ep 0x"@ + hex2(endpoint)
        + " np="@ + decimal(packets) + " buf="@ + decimal(len)
}

/// The outcome of submitting an isochronous transfer, `rc` being what libusb returned.
pub fn iso_submit_result(rc: i32, endpoint: u8, packets: usize, len: usize) -> (r: Result<
    (),
    Error,
>)
    ensures
        r is Ok <==> rc == 0,
        r is Err ==> fails(
            r,
            ErrorView::Transport(submit_text(rc, endpoint, packets as nat, len as nat)),
        ),
{
    if rc == 0 {
        return Ok(());
    }
    let mut text: String = "iso submit failed (libusb ".to_string();
    push_signed(&mut text, rc);
    text.append(") ep 0x");
    push_hex2(&mut text, endpoint);
    text.append(" np=");
    push_decimal(&mut text, packets as u64);
    text.append(" buf=");
    push_decimal(&mut text, len as u64);
    Err(Error::Transport(text))
}

/// The outcome of submitting a control or interrupt transfer, `rc` being what libusb
/// returned.
pub fn submit_result(rc: i32) -> (r: Result<(), Error>)
    ensures
        r is Ok <==> rc == 0,
        r is Err ==> fails(r, ErrorView::Transport("libusb_submit_transfer failed"@)),
{
    if rc == 0 {
        Ok(())
    } else {
        Err(Error::Transport("libusb_submit_transfer failed".to_string()))
    }
}

/// The outcome of allocating a transfer.
pub fn alloc_result(is_null: bool) -> (r: Result<(), Error>)
    ensures
        r is Ok <==> !is_null,
        r is Err ==> fails(r, ErrorView::Transport("libusb_alloc_transfer failed"@)),
{
    if is_null {
        Err(Error::Transport("libusb_alloc_transfer failed".to_string()))
    } else {
        Ok(())
    }
}

/// Whether a transfer may be freed: libusb does not hold it. One that is in flight is
/// cancelled and left to its callback.
pub fn may_free(submitted: bool, completed: bool) -> (r: bool)
    ensures
        r == (!submitted || completed),
{
    !submitted || completed
}

// ----------------------------------- laws -----------------------------------

/// Packets that were transferred in full lie without gaps: together they are the buffer, up
/// to the end of the last one.
pub proof fn law_full_packets_tile(buf: Seq<u8>, descs: Seq<PacketDesc>, k: int)
    requires
        in_buffer(buf.len(), descs),
        0 <= k <= descs.len(),
        forall|i: int|
            0 <= i < descs.len() ==> (#[trigger] descs[i]).actual_length == descs[i].length,
    ensures
        packet_offset(requested(descs), k) <= buf.len(),
        joined(packets_of(buf, descs).take(k)) == buf.take(packet_offset(requested(descs), k)),
    decreases k,
{
    let lens = requested(descs);
    let all = packets_of(buf, descs);
    if k > 0 {
        law_full_packets_tile(buf, descs, k - 1);
        lemma_offsets_grow(lens, k - 1, k);
        assert(descs[k - 1].actual_length == descs[k - 1].length);
        assert(all.take(k).drop_last() =~= all.take(k - 1));
        assert(buf.take(packet_offset(lens, k)) =~= buf.take(packet_offset(lens, k - 1))
            + packet_bytes(buf, descs, k - 1));
    } else {
        assert(joined(all.take(0)) =~= buf.take(0));
    }
}

/// The bytes of packets, one after the other.
pub open spec fn joined(packets: Seq<PacketView>) -> Seq<u8>
    decreases packets.len(),
{
    if packets.len() == 0 {
        Seq::empty()
    } else {
        joined(packets.drop_last()) + packets.last().data
    }
}

/// The statuses and types of libusb: 0 is completed, 2 timed out, 3 cancelled; 1 is the type of
/// an isochronous transfer.
pub proof fn law_status_numbers(status: i32, done: bool, dropped: bool)
    requires
        call_ensures(is_completed, (status,), done),
        call_ensures(is_cancelled, (status,), dropped),
    ensures
        done <==> status == 0,
        dropped <==> status == 3,
        timed_out() == 2,
        isochronous() == 1,
{
}

/// What becomes of an interrupt transfer: one that completed succeeds, with the very bytes that
/// it brought; one that timed out says so; of any other the message ends with its status.
pub proof fn law_interrupt_outcomes(
    status: i32,
    data: Vec<u8>,
    out: Result<(), Error>,
    got: Result<Vec<u8>, Error>,
)
    requires
        call_ensures(status_result, (status,), out),
        call_ensures(interrupt_in_result, (status, data), got),
    ensures
        out is Ok <==> status == 0,
        got is Ok <==> status == 0,
        got is Ok ==> got->Ok_0@ == data@,
        status == 2 ==> out->Err_0 is Transport && out->Err_0->Transport_0@
            == "transfer timed out"@,
        status == 2 ==> got->Err_0 is Transport && got->Err_0->Transport_0@
            == "interrupt in timed out"@,
        status != 0 && status != 2 ==> {
            let number = if status < 0 {
                seq!['-'] + decimal((0 - status) as nat)
            } else {
                decimal(status as nat)
            };
            &&& out->Err_0 is Transport
            &&& out->Err_0->Transport_0@ == "transfer status "@ + number
            &&& got->Err_0 is Transport
            &&& got->Err_0->Transport_0@ == "interrupt in status "@ + number
        },
{
}

/// A timeout is taken as it is, unless it does not fit 32 bits.
pub proof fn law_timeouts(ms: u128, r: u32)
    requires
        call_ensures(timeout_millis, (ms,), r),
    ensures
        ms <= 4294967295 ==> r == ms,
        ms > 4294967295 ==> r == 4294967295,
{
}

/// A transfer is as long as its packets together: one more packet adds what it asks for.
pub proof fn law_transfer_length(lens: &[u32], more: &[u32], n: usize, m: usize, fits: bool)
    requires
        call_ensures(transfer_length, (lens,), n),
        call_ensures(transfer_length, (more,), m),
        call_ensures(length_fits, (more,), fits),
        more@.len() == lens@.len() + 1,
        more@.take(lens@.len() as int) == lens@,
    ensures
        m == n + more@.last(),
        lens@.len() == 0 ==> n == 0,
        fits <==> packet_offset(more@, more@.len() as int) <= usize::MAX,
{
    lemma_same_offsets(lens@, more@, lens@.len() as int);
}

/// Offsets depend on the lengths before them only.
proof fn lemma_same_offsets(a: Seq<u32>, b: Seq<u32>, k: int)
    requires
        0 <= k <= a.len() <= b.len(),
        b.take(a.len() as int) == a,
    ensures
        packet_offset(a, k) == packet_offset(b, k),
    decreases k,
{
    if k > 0 {
        lemma_same_offsets(a, b, k - 1);
        assert(b.take(a.len() as int)[k - 1] == b[k - 1]);
    }
}

/// Packets lie in the buffer at the lengths that they asked for: the first at its start, and
/// each behind the one before.
pub proof fn law_packet_offsets(lens: Seq<u32>, k: int)
    requires
        0 <= k < lens.len(),
    ensures
        packet_offset(lens, 0) == 0,
        packet_offset(lens, k + 1) == packet_offset(lens, k) + lens[k],
{
}

/// Every packet is taken out of its own place: byte `i` of packet `k` is the byte of the buffer
/// `i` behind where the packet lies, for as many bytes as were transferred, and the packet is
/// good exactly where its status is 0.
pub proof fn law_packets_taken(buf: &[u8], descs: &[PacketDesc], packets: Vec<IsoPacket>)
    requires
        in_buffer(buf@.len(), descs@),
        call_ensures(take_packets, (buf, descs), packets),
    ensures
        packets@.len() == descs@.len(),
        forall|k: int|
            0 <= k < descs@.len() ==> {
                let lens = Seq::new(descs@.len(), |j: int| descs@[j].length);
                let p = #[trigger] packets@[k];
                &&& p.ok <==> descs@[k].status == 0
                &&& p.data@.len() == descs@[k].actual_length
                &&& forall|i: int|
                    0 <= i < descs@[k].actual_length ==> #[trigger] p.data@[i] == buf@[packet_offset(
                        lens,
                        k,
                    ) + i]
            },
{
    let lens = Seq::new(descs@.len(), |j: int| descs@[j].length);
    assert(lens =~= requested(descs@));
    assert(views(packets@).len() == packets@.len());
    assert forall|k: int| 0 <= k < descs@.len() implies {
        let p = #[trigger] packets@[k];
        &&& p.ok <==> descs@[k].status == 0
        &&& p.data@.len() == descs@[k].actual_length
        &&& forall|i: int|
            0 <= i < descs@[k].actual_length ==> #[trigger] p.data@[i] == buf@[packet_offset(
                lens,
                k,
            ) + i]
    } by {
        lemma_offsets_grow(lens, 0, k);
        assert(views(packets@)[k] == packets@[k]@);
        assert(packets_of(buf@, descs@)[k] == packets@[k]@);
        assert(packet_offset(requested(descs@), k) + descs@[k].actual_length <= buf@.len());
    }
}

/// Which transfers lie inside their buffer: those of which every packet ends within it.
pub proof fn law_inside_buffer(len: usize, descs: &[PacketDesc], r: bool)
    requires
        call_ensures(fits_buffer, (len, descs), r),
    ensures
        ({
            let lens = Seq::new(descs@.len(), |j: int| descs@[j].length);
            r <==> packet_offset(lens, descs@.len() as int) <= usize::MAX && forall|k: int|
                0 <= k < descs@.len() ==> packet_offset(lens, k) + (
                #[trigger] descs@[k]).actual_length <= len
        }),
{
    let lens = Seq::new(descs@.len(), |j: int| descs@[j].length);
    assert(lens =~= requested(descs@));
}

/// What a transfer that came back amounts to: an isochronous one to its packets, whatever its own
/// status, any other to its status and the bytes that it brought, from the start of the buffer.
pub proof fn law_transfer_result(
    kind: u8,
    status: i32,
    n: usize,
    buf: &[u8],
    descs: &[PacketDesc],
    r: XferResult,
    packets: Vec<IsoPacket>,
)
    requires
        kind == 1 ==> in_buffer(buf@.len(), descs@) && call_ensures(
            take_packets,
            (buf, descs),
            packets,
        ),
        kind != 1 ==> n <= buf@.len(),
        call_ensures(xfer_result, (kind, status, n, buf, descs), r),
    ensures
        r is Iso <==> kind == 1,
        r is Plain ==> r->status == status,
        r is Plain ==> r->data@.len() == n,
        r is Plain ==> forall|i: int| 0 <= i < n ==> r->data@[i] == buf@[i],
        r is Iso ==> views(r->packets@) == views(packets@),
{
}

/// What submitting and allocating lead to: success where libusb returned 0 or a transfer, else a
/// message, which for an isochronous transfer names the code, the endpoint, the packets and the
/// bytes.
pub proof fn law_submissions(
    rc: i32,
    endpoint: u8,
    np: usize,
    len: usize,
    is_null: bool,
    iso: Result<(), Error>,
    plain: Result<(), Error>,
    alloc: Result<(), Error>,
)
    requires
        call_ensures(iso_submit_result, (rc, endpoint, np, len), iso),
        call_ensures(submit_result, (rc,), plain),
        call_ensures(alloc_result, (is_null,), alloc),
    ensures
        iso is Ok <==> rc == 0,
        plain is Ok <==> rc == 0,
        alloc is Ok <==> !is_null,
        iso is Err ==> {
            let number = if rc < 0 {
                seq!['-'] + decimal((0 - rc) as nat)
            } else {
                decimal(rc as nat)
            };
            &&& iso->Err_0 is Transport
            &&& iso->Err_0->Transport_0@ == "iso submit failed (libusb "@ + number + ") ep 0x"@
                + hex2(endpoint) + " np="@ + decimal(np as nat) + " buf="@ + decimal(len as nat)
        },
        plain is Err ==> plain->Err_0 is Transport && plain->Err_0->Transport_0@
            == "libusb_submit_transfer failed"@,
        alloc is Err ==> alloc->Err_0 is Transport && alloc->Err_0->Transport_0@
            == "libusb_alloc_transfer failed"@,
{
}

/// A transfer that libusb holds is not freed: it may be only where it was never submitted, or
/// came back.
pub proof fn law_freed_once_back(submitted: bool, back: bool, r: bool)
    requires
        call_ensures(may_free, (submitted, back), r),
    ensures
        submitted && !back ==> !r,
        !submitted ==> r,
        back ==> r,
{
}

} // verus!
