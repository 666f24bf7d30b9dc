//! Nominal pacing of the OUT endpoint: how many frames each packet carries so that the
//! packets of a second carry exactly as many frames as the sample rate says.

use vstd::prelude::*;

use crate::{FRAME_BYTES, PACKETS_PER_SEC, PKT_LEN};

verus! {

/// Frames that the first `k` packets carry when the accumulator starts at `phase`.
pub open spec fn paced_total(rate: int, phase: int, k: int) -> int {
    (phase + k * rate) / (PACKETS_PER_SEC as int)
}

/// The accumulator after `k` packets.
pub open spec fn paced_phase(rate: int, phase: int, k: int) -> int {
    (phase + k * rate) % (PACKETS_PER_SEC as int)
}

/// Frames in packet `k` (counted from 0).
pub open spec fn paced_size(rate: int, phase: int, k: int) -> int {
    paced_total(rate, phase, k + 1) - paced_total(rate, phase, k)
}

/// Sizes of the next `n` packets.
pub open spec fn paced_sizes(rate: int, phase: int, n: nat) -> Seq<int> {
    Seq::new(n, |k: int| paced_size(rate, phase, k))
}

/// The accumulator is below one frame, and adding the rate to it does not overflow.
pub open spec fn can_pace(rate: u32, phase: u32) -> bool {
    &&& phase < PACKETS_PER_SEC
    &&& rate + (PACKETS_PER_SEC - 1) <= u32::MAX
}

/// Whether packets can be paced at this rate from where the accumulator stands.
pub fn is_paceable(rate: u32, phase: u32) -> (r: bool)
    ensures
        r == can_pace(rate, phase),
{
    phase < PACKETS_PER_SEC && rate <= u32::MAX - (PACKETS_PER_SEC - 1)
}

/// One packet moves the accumulator by one step.
pub proof fn lemma_step(rate: int, phase: int, k: int)
    requires
        0 <= k,
        0 <= rate,
        0 <= phase,
    ensures
        paced_size(rate, phase, k) == (paced_phase(rate, phase, k) + rate) / (PACKETS_PER_SEC as int),
        paced_phase(rate, phase, k + 1) == (paced_phase(rate, phase, k) + rate) % (
        PACKETS_PER_SEC as int),
        0 <= paced_phase(rate, phase, k) < PACKETS_PER_SEC,
        paced_size(rate, phase, k) >= 0,
{
    let a = phase + k * rate;
    assert(phase + (k + 1) * rate == a + rate) by (nonlinear_arith)
        requires
            a == phase + k * rate,
    ;
    let q = a / 8000;
    let r = a % 8000;
    assert(a == 8000 * q + r);
    assert((a + rate) / 8000 == q + (r + rate) / 8000);
    assert((a + rate) % 8000 == (r + rate) % 8000);
    assert(r + rate >= 0);
}

/// Moves the accumulator by one packet and returns the frames that it carries.
pub fn next_size(rate: u32, phase: &mut u32) -> (nf: usize)
    requires
        can_pace(rate, *old(phase)),
    ensures
        nf == (*old(phase) + rate) / (PACKETS_PER_SEC as int),
        *final(phase) == (*old(phase) + rate) % (PACKETS_PER_SEC as int),
        can_pace(rate, *final(phase)),
{
    *phase = *phase + rate;
    let nf: usize = (*phase / PACKETS_PER_SEC) as usize;
    *phase = *phase % PACKETS_PER_SEC;
    nf
}

/// Sizes of the next `n` packets at the nominal rate.
pub fn nominal_sizes(rate: u32, phase: &mut u32, n: usize) -> (sizes: Vec<usize>)
    requires
        can_pace(rate, *old(phase)),
    ensures
        sizes@.len() == n,
        forall|k: int|
            0 <= k < n ==> #[trigger] sizes@[k] == paced_size(rate as int, *old(phase) as int, k),
        *final(phase) == paced_phase(rate as int, *old(phase) as int, n as int),
        can_pace(rate, *final(phase)),
{
    let ghost start = *phase;
    let mut sizes: Vec<usize> = Vec::with_capacity(n);
    let mut k: usize = 0;
    assert(start + 0 * rate == start);
    while k < n
        invariant
            k <= n,
            sizes@.len() == k,
            can_pace(rate, *phase),
            *phase == paced_phase(rate as int, start as int, k as int),
            forall|i: int|
                0 <= i < k ==> #[trigger] sizes@[i] == paced_size(rate as int, start as int, i),
        decreases n - k,
    {
        proof {
            lemma_step(rate as int, start as int, k as int);
        }
        let nf: usize = next_size(rate, phase);
        sizes.push(nf);
        k = k + 1;
    }
    sizes
}

// ----------------------------------- laws -----------------------------------

/// Sum of a sequence of packet sizes.
pub open spec fn sum(sizes: Seq<int>) -> int
    decreases sizes.len(),
{
    if sizes.len() == 0 {
        0
    } else {
        sum(sizes.drop_last()) + sizes.last()
    }
}

/// Pacing never drifts: however many packets were sent, they carry the frames due by then,
/// rounded down.
pub proof fn law_pacing_never_drifts(rate: int, phase: int, n: nat)
    requires
        0 <= rate,
        0 <= phase < PACKETS_PER_SEC,
    ensures
        sum(paced_sizes(rate, phase, n)) == paced_total(rate, phase, n as int),
    decreases n,
{
    if n == 0 {
        assert(phase + 0 * rate == phase);
    } else {
        let m = (n - 1) as nat;
        law_pacing_never_drifts(rate, phase, m);
        assert(paced_sizes(rate, phase, n).drop_last() =~= paced_sizes(rate, phase, m));
    }
}

/// Pacing goes on where it was left: packet `k` from where the accumulator stands after `m`
/// packets is packet `m + k`, and the accumulator behind it is the same, so it does not matter
/// into how many transfers the packets are cut.
pub proof fn law_pacing_continues(rate: int, phase: int, m: int, k: int)
    requires
        0 <= rate,
        0 <= phase,
        0 <= m,
        0 <= k,
    ensures
        0 <= paced_phase(rate, phase, m) < PACKETS_PER_SEC,
        paced_size(rate, paced_phase(rate, phase, m), k) == paced_size(rate, phase, m + k),
        paced_phase(rate, paced_phase(rate, phase, m), k) == paced_phase(rate, phase, m + k),
        paced_total(rate, phase, m) + paced_total(rate, paced_phase(rate, phase, m), k)
            == paced_total(rate, phase, m + k),
{
    lemma_cut(rate, phase, m, k);
    lemma_cut(rate, phase, m, k + 1);
}

/// What the first `m` packets leave, and the `k` after them, add up.
proof fn lemma_cut(rate: int, phase: int, m: int, k: int)
    ensures
        paced_phase(rate, paced_phase(rate, phase, m), k) == paced_phase(rate, phase, m + k),
        paced_total(rate, phase, m) + paced_total(rate, paced_phase(rate, phase, m), k)
            == paced_total(rate, phase, m + k),
{
    let a = phase + m * rate;
    let b = k * rate;
    assert(phase + (m + k) * rate == a + b) by (nonlinear_arith)
        requires
            a == phase + m * rate,
            b == k * rate,
    ;
    let q = a / 8000;
    let r = a % 8000;
    assert(a == 8000 * q + r);
    assert((a + b) / 8000 == q + (r + b) / 8000);
    assert((a + b) % 8000 == (r + b) % 8000);
}

/// The packets of one second carry exactly `rate` frames, and leave the accumulator where
/// it was.
pub proof fn law_second_carries_rate(rate: int, phase: int)
    requires
        0 <= rate,
        0 <= phase < PACKETS_PER_SEC,
    ensures
        sum(paced_sizes(rate, phase, PACKETS_PER_SEC as nat)) == rate,
        paced_phase(rate, phase, PACKETS_PER_SEC as int) == phase,
{
    law_pacing_never_drifts(rate, phase, PACKETS_PER_SEC as nat);
}

/// No packet differs by a whole frame or more from the average: at 48 kHz each carries 6
/// frames, at 44.1 kHz 5 or 6.
pub proof fn law_packet_near_average(rate: int, phase: int, k: int)
    requires
        0 <= rate,
        0 <= phase,
        0 <= k,
    ensures
        rate / (PACKETS_PER_SEC as int) <= paced_size(rate, phase, k) <= rate / (
        PACKETS_PER_SEC as int) + 1,
        rate % (PACKETS_PER_SEC as int) == 0 ==> paced_size(rate, phase, k) == rate / (
        PACKETS_PER_SEC as int),
        rate == 48000 ==> paced_size(rate, phase, k) == 6,
        rate == 44100 ==> 5 <= paced_size(rate, phase, k) <= 6,
{
    lemma_step(rate, phase, k);
}

/// Up to 56 kHz, and so at both rates of the device, a packet of nominal size fits the
/// endpoint.
pub proof fn law_packet_fits_endpoint(rate: int, phase: int, k: int)
    requires
        0 <= rate <= 56000,
        0 <= phase,
        0 <= k,
    ensures
        paced_size(rate, phase, k) * FRAME_BYTES <= PKT_LEN,
{
    lemma_step(rate, phase, k);
}

/// What is due: after `k` packets, as many frames were carried as the rate makes in that time,
/// 8000 packets being a second, with what the accumulator held at the start, and rounded down;
/// the accumulator holds what is left over, and a packet carries what became due with it.
pub proof fn law_frames_due(rate: int, phase: int, k: int)
    requires
        0 <= rate,
        0 <= phase,
        0 <= k,
    ensures
        8000 * paced_total(rate, phase, k) + paced_phase(rate, phase, k) == phase + k * rate,
        0 <= paced_phase(rate, phase, k) < 8000,
        paced_size(rate, phase, k) == paced_total(rate, phase, k + 1) - paced_total(
            rate,
            phase,
            k,
        ),
        phase < 8000 ==> paced_total(rate, phase, 0) == 0,
{
    assert(0 * rate == 0);
}

/// One packet moves what is due between the accumulator and the packet, and loses none of it.
pub proof fn law_one_packet(rate: u32)
    ensures
        forall|phase: &mut u32, nf: usize|
            *phase < 8000 && #[trigger] call_ensures(next_size, (rate, phase), nf) ==> {
                &&& 8000 * nf + *final(phase) == *phase + rate
                &&& *final(phase) < 8000
            },
{
}

/// The sizes of successive packets are those of the packets one by one: packet `k` carries what
/// becomes due between the times of `k` and of `k + 1` packets.
pub proof fn law_packets_one_by_one(rate: u32, n: usize)
    ensures
        forall|phase: &mut u32, sizes: Vec<usize>| #[trigger]
            call_ensures(nominal_sizes, (rate, phase, n), sizes) ==> {
                &&& sizes@.len() == n
                &&& *final(phase) == (*phase + n * rate) % 8000
                &&& forall|k: int|
                    0 <= k < n ==> #[trigger] sizes@[k] == (*phase + (k + 1) * rate) / 8000 - (
                    *phase + k * rate) / 8000
            },
{
}

/// Which rates can be paced: those that the accumulator, which is below 8000, has room for in 32
/// bits.
pub proof fn law_paceable_rates(rate: u32, phase: u32, r: bool)
    requires
        call_ensures(is_paceable, (rate, phase), r),
    ensures
        r <==> phase < 8000 && rate <= 4294959296,
        r == can_pace(rate, phase),
{
}

/// Sums are taken term by term.
pub proof fn law_sums(sizes: Seq<int>, n: int)
    ensures
        sum(Seq::empty()) == 0,
        sum(sizes.push(n)) == sum(sizes) + n,
{
    assert(sizes.push(n).drop_last() =~= sizes);
}

} // verus!
