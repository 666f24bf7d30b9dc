use std::collections::VecDeque;

use sl3::frame::{deinterleave, empty_planar, fits_room, is_level, IsoPacket};
use sl3::pacing::is_paceable;
use sl3::pipeline::{
    close_alts, open_alts, pacing_rate, request_lengths, CaptureStream, DuplexStream, InStep,
    OutStep, PlaybackStream, Pool, StartStep, StreamKind, FB_MAX, MAX_ERR_STREAK, NUM_TRANSFERS,
};
use sl3::stream::{
    build_out, build_out_fb, feedback_of, fill_packets, is_sane, next_sizes, prepare,
};
use sl3::Error;

/// Calls a capture callback that is its own state.
fn hand<F>(f: &mut F, p: &[Vec<i32>], n: usize) -> bool
where
    F: FnMut(&[Vec<i32>], usize) -> bool,
{
    f(p, n)
}

/// Calls a fill callback that is its own state.
fn ask<F>(f: &mut F, p: &mut [Vec<i32>], n: usize) -> bool
where
    F: FnMut(&mut [Vec<i32>], usize) -> bool,
{
    f(p, n)
}

/// A fill callback that counts its calls, and stops with the last that it was told.
fn count_down(left: &mut (usize, usize), _: &mut [Vec<i32>], _: usize) -> bool {
    left.0 += 1;
    left.0 == left.1
}

/// A capture callback that counts its calls, and stops at once.
fn count_and_stop(calls: &mut usize, _: &[Vec<i32>], _: usize) -> bool {
    *calls += 1;
    true
}

fn packet(frames: usize) -> IsoPacket {
    IsoPacket { data: vec![1; frames * 18], ok: true }
}

fn capturing() -> CaptureStream {
    let mut s = CaptureStream::start(true).unwrap();
    for _ in 0..NUM_TRANSFERS {
        assert_eq!(s.start_step(), StartStep::SubmitIn);
    }
    assert_eq!(s.start_step(), StartStep::Run);
    s
}

/// A playback stream that was asked for `built` transfers at its start, of which the last was
/// stopped.
fn playing(rate: u32, built: usize) -> PlaybackStream {
    let mut s = PlaybackStream::start(true, rate).unwrap();
    for n in 1..=built {
        assert_eq!(s.start_step(), StartStep::BuildOut);
        let stops = n == built && built < NUM_TRANSFERS;
        let r = s.next_out(&mut |_: &mut [Vec<i32>], _| stops, &ask);
        assert_eq!(r.is_none(), stops);
    }
    assert_eq!(s.start_step(), StartStep::Run);
    s
}

fn duplexing(rate: u32) -> DuplexStream {
    let mut s = DuplexStream::start(true, rate).unwrap();
    for _ in 0..NUM_TRANSFERS {
        assert_eq!(s.start_step(), StartStep::SubmitIn);
    }
    for _ in 0..NUM_TRANSFERS {
        assert_eq!(s.start_step(), StartStep::BuildOut);
        assert!(s.next_out(&mut |_: &mut [Vec<i32>], _| false, &ask).is_some());
    }
    assert_eq!(s.start_step(), StartStep::Run);
    s
}

fn failure() -> Error {
    Error::Transport("gone".to_string())
}

#[test]
fn out_transfer_at_nominal_rate() {
    let mut phase = 0;
    let mut planar = empty_planar();
    let mut asked = Vec::new();
    let mut fill = |p: &mut [Vec<i32>], n: usize| {
        asked.push(n);
        for c in 0..6 {
            for i in 0..n {
                p[c][i] = (c * 100 + i) as i32;
            }
        }
        false
    };
    let (data, lens) = build_out(44100, &mut phase, &mut planar, &mut fill, &ask).unwrap();
    assert_eq!(asked.len(), 16);
    assert_eq!(asked[..3], [5, 6, 5]);
    assert_eq!(lens, asked.iter().map(|n| (n * 18) as u32).collect::<Vec<_>>());
    assert_eq!(data.len(), lens.iter().sum::<u32>() as usize);
    assert_eq!(phase, (16 * 44100) % 8000);
    assert_eq!(&data[18..24], &[1, 0, 0, 101, 0, 0]);
}

#[test]
fn out_transfer_comes_back_as_capture() {
    let mut planar = empty_planar();
    let mut next = -3;
    let mut fill = |p: &mut [Vec<i32>], n: usize| {
        for i in 0..n {
            for c in 0..6 {
                p[c][i] = next;
                next += 1;
            }
        }
        false
    };
    let (data, lens) = fill_packets(&[2, 0, 3], &mut planar, &mut fill, &ask).unwrap();
    assert_eq!(lens, vec![36, 0, 54]);
    let mut off = 0;
    let mut packets = Vec::new();
    for len in &lens {
        let end = off + *len as usize;
        packets.push(IsoPacket { data: data[off..end].to_vec(), ok: true });
        off = end;
    }
    assert_eq!(feedback_of(&packets), vec![2, 0, 3]);
    let mut back = empty_planar();
    assert_eq!(deinterleave(&mut back, &packets), 5);
    for i in 0..5 {
        for c in 0..6 {
            assert_eq!(back[c][i], (i * 6 + c) as i32 - 3);
        }
    }
}

#[test]
fn stopping_callback_ends_a_transfer() {
    let mut phase = 0;
    let mut planar = empty_planar();
    let mut calls = (0, 3);
    let r = build_out(44100, &mut phase, &mut planar, &mut calls, &count_down);
    assert!(r.is_none());
    assert_eq!(calls.0, 3);
    assert_eq!(phase, (3 * 44100) % 8000);
    assert_eq!(
        fill_packets(&[1, 1], &mut planar, &mut |_: &mut [Vec<i32>], _| true, &ask),
        Err(1)
    );
}

#[test]
fn buffers_are_resized_by_the_first_channel() {
    let mut planar = vec![vec![1, 2]; 6];
    planar[3] = vec![1, 2, 3, 4, 5];
    prepare(&mut planar, 3);
    assert_eq!(planar[0], vec![1, 2, 0]);
    assert_eq!(planar[3], vec![1, 2, 3]);
    prepare(&mut planar, 2);
    assert_eq!(planar[0], vec![1, 2, 0]);
}

#[test]
fn feedback_paces_the_next_transfer() {
    let packets = vec![packet(6), IsoPacket { data: vec![0; 90], ok: false }, packet(7)];
    let counts = feedback_of(&packets);
    assert_eq!(counts, vec![6, 0, 7]);
    let mut fb = VecDeque::new();
    fb.push_back(counts);
    let mut phase = 11;
    let mut planar = empty_planar();
    let mut quiet = |_: &mut [Vec<i32>], _: usize| false;
    let (data, lens) =
        build_out_fb(48000, &mut phase, &mut fb, &mut planar, &mut quiet, &ask).unwrap();
    assert_eq!(lens, vec![108, 0, 126]);
    assert_eq!(data.len(), 234);
    assert_eq!(phase, 11);
    assert!(fb.is_empty());
    assert_eq!(next_sizes(48000, &mut phase, &mut fb), vec![6; 16]);
}

#[test]
fn alternate_settings_are_undone() {
    assert_eq!(open_alts(StreamKind::Capture), vec![(2, 1)]);
    assert_eq!(close_alts(StreamKind::Capture), vec![(2, 0)]);
    assert_eq!(open_alts(StreamKind::Playback), vec![(1, 1)]);
    assert_eq!(close_alts(StreamKind::Playback), vec![(1, 0)]);
    assert_eq!(open_alts(StreamKind::Duplex), vec![(2, 1), (1, 1)]);
    assert_eq!(close_alts(StreamKind::Duplex), vec![(1, 0), (2, 0)]);
}

#[test]
fn requests_and_rates() {
    assert_eq!(request_lengths(), vec![126; 16]);
    assert_eq!(pacing_rate(0), 48000);
    assert_eq!(pacing_rate(44100), 44100);
}

#[test]
fn streams_need_the_audio_interfaces() {
    let text = "invalid state: handle has no audio interfaces";
    assert_eq!(CaptureStream::start(false).err().unwrap().message(), text);
    assert_eq!(PlaybackStream::start(false, 0).err().unwrap().message(), text);
    assert_eq!(DuplexStream::start(false, 0).err().unwrap().message(), text);
}

#[test]
fn capture_stream_delivers_and_drains() {
    let mut s = capturing();
    let mut seen = Vec::new();
    let mut on_frames = |p: &[Vec<i32>], n: usize| {
        seen.push((n, p[0][0]));
        seen.len() == 2
    };
    let two = vec![packet(3), packet(2)];
    assert!(matches!(s.on_in(Ok(two), &mut on_frames, &hand), InStep::Submit));
    assert!(matches!(s.on_in(Ok(vec![]), &mut on_frames, &hand), InStep::Submit));
    assert!(matches!(s.on_in(Ok(vec![packet(1)]), &mut on_frames, &hand), InStep::Hold));
    let mut deaf = |_: &[Vec<i32>], _: usize| false;
    for _ in 1..NUM_TRANSFERS {
        assert!(s.running());
        assert!(matches!(s.on_in(Ok(vec![]), &mut deaf, &hand), InStep::Hold));
    }
    assert!(!s.running());
    assert_eq!(seen, vec![(5, 0x010101), (1, 0x010101)]);
}

#[test]
fn a_stopping_capture_still_delivers() {
    let mut s = capturing();
    let mut calls = 0;
    for _ in 0..NUM_TRANSFERS {
        let step = s.on_in(Ok(vec![packet(1)]), &mut calls, &count_and_stop);
        assert!(matches!(step, InStep::Hold));
    }
    assert!(!s.running());
    assert_eq!(calls, 32);
}

#[test]
fn captures_are_delivered_once_or_not_at_all() {
    let mut calls = 0;
    let mut s = capturing();
    assert!(matches!(s.on_in(Ok(vec![]), &mut calls, &count_and_stop), InStep::Submit));
    assert!(matches!(s.on_in(Err(failure()), &mut calls, &count_and_stop), InStep::Submit));
    let lost = vec![IsoPacket { data: vec![1; 36], ok: false }];
    assert!(matches!(s.on_in(Ok(lost), &mut calls, &count_and_stop), InStep::Submit));
    assert_eq!(calls, 0);
    let got = vec![packet(1), packet(2), packet(3)];
    assert!(matches!(s.on_in(Ok(got), &mut calls, &count_and_stop), InStep::Hold));
    assert_eq!(calls, 1);
}

#[test]
fn playback_asks_for_what_is_due() {
    let mut s = PlaybackStream::start(true, 44100).unwrap();
    let mut counts: Vec<usize> = Vec::new();
    for _ in 0..5 {
        assert_eq!(s.start_step(), StartStep::BuildOut);
        let mut fill = |_: &mut [Vec<i32>], n: usize| {
            counts.push(n);
            false
        };
        assert!(s.next_out(&mut fill, &ask).is_some());
    }
    assert_eq!(counts.len(), 80);
    for k in 0..=80 {
        assert_eq!(counts[..k].iter().sum::<usize>(), k * 44100 / 8000);
    }
    assert_eq!(s.start_step(), StartStep::BuildOut);
    let mut calls = (0, 1);
    assert!(s.next_out(&mut calls, &count_down).is_none());
    assert_eq!(s.start_step(), StartStep::Run);
    for _ in 0..5 {
        assert!(matches!(s.on_out(Ok(())), OutStep::Hold));
    }
    assert!(!s.running());
    assert_eq!(calls.0, 1);
}

#[test]
fn every_packet_is_asked_for_once() {
    let mut planar = empty_planar();
    let mut calls = (0, 99);
    let mut phase = 0;
    assert!(build_out(44100, &mut phase, &mut planar, &mut calls, &count_down).is_some());
    assert_eq!(calls.0, 16);
    let mut fb = VecDeque::new();
    fb.push_back(vec![1, 0]);
    let mut calls = (0, 99);
    let r = build_out_fb(44100, &mut phase, &mut fb, &mut planar, &mut calls, &count_down);
    assert_eq!(r.unwrap().1, vec![18, 0]);
    assert_eq!(calls.0, 2);
}

#[test]
fn a_duplex_stream_that_stops_at_once() {
    let mut s = DuplexStream::start(true, 0).unwrap();
    for _ in 0..NUM_TRANSFERS {
        assert_eq!(s.start_step(), StartStep::SubmitIn);
    }
    assert_eq!(s.start_step(), StartStep::BuildOut);
    let mut asked = (0, 1);
    assert!(s.next_out(&mut asked, &count_down).is_none());
    assert_eq!(s.start_step(), StartStep::Run);
    let mut heard = 0;
    for _ in 0..NUM_TRANSFERS {
        let step = s.on_in(Ok(vec![]), &mut heard, &count_and_stop);
        assert!(matches!(step, InStep::Hold));
    }
    assert!(!s.running());
    assert_eq!((asked.0, heard), (1, 0));
}

#[test]
fn what_streams_take() {
    assert!(is_sane(&[]));
    assert!(is_sane(&[packet(3), packet(0)]));
    let mut planar = vec![vec![0; 3]; 6];
    assert!(is_level(&planar) && fits_room(&planar, 3) && !fits_room(&planar, 4));
    planar[5].pop();
    assert!(!is_level(&planar) && !fits_room(&planar, 3) && fits_room(&planar, 2));
    planar[0].clear();
    assert!(is_level(&planar));
    planar.pop();
    assert!(!is_level(&planar) && !fits_room(&planar, 0));
    assert!(is_paceable(u32::MAX - 7999, 7999) && !is_paceable(u32::MAX - 7998, 0));
    assert!(!is_paceable(48000, 8000));
}

#[test]
fn capture_tolerates_a_streak_of_errors() {
    let mut s = capturing();
    let mut quiet = |_: &[Vec<i32>], _: usize| false;
    for _ in 0..MAX_ERR_STREAK {
        assert!(matches!(s.on_in(Err(failure()), &mut quiet, &hand), InStep::Submit));
    }
    assert!(matches!(s.on_in(Ok(vec![]), &mut quiet, &hand), InStep::Submit));
    for _ in 0..MAX_ERR_STREAK {
        assert!(matches!(s.on_in(Err(failure()), &mut quiet, &hand), InStep::Submit));
    }
    match s.on_in(Err(failure()), &mut quiet, &hand) {
        InStep::Abort(e) => assert_eq!(e.message(), "usb transport: gone"),
        _ => panic!("the stream goes on"),
    }
}

#[test]
fn untouched_playback_is_silent() {
    let mut s = PlaybackStream::start(true, 0).unwrap();
    let mut calls = Vec::new();
    let mut fill = |_: &mut [Vec<i32>], n: usize| {
        calls.push(n);
        calls.len() == 17
    };
    assert_eq!(s.start_step(), StartStep::BuildOut);
    assert_eq!(s.next_out(&mut fill, &ask), Some((vec![0u8; 1728], vec![108u32; 16])));
    assert_eq!(s.start_step(), StartStep::BuildOut);
    assert_eq!(s.next_out(&mut fill, &ask), None);
    assert_eq!(s.start_step(), StartStep::Run);
    assert!(matches!(s.on_out(Ok(())), OutStep::Hold));
    assert!(!s.running());
    assert_eq!(calls, vec![6; 17]);
}

#[test]
fn playback_stream_ends_on_an_error() {
    let mut s = playing(44100, NUM_TRANSFERS);
    assert!(matches!(s.on_out(Ok(())), OutStep::Build));
    assert!(s.next_out(&mut |_: &mut [Vec<i32>], _| true, &ask).is_none());
    assert!(s.running());
    assert!(matches!(s.on_out(Err(failure())), OutStep::Abort(_)));
}

#[test]
fn playback_stream_drains_when_stopped() {
    let mut s = playing(0, 3);
    assert!(matches!(s.on_out(Ok(())), OutStep::Hold));
    assert!(s.running());
    assert!(matches!(s.on_out(Ok(())), OutStep::Hold));
    assert!(!s.running());
    let none = playing(0, 1);
    assert!(!none.running());
}

#[test]
fn stopped_callbacks_may_leave_anything() {
    let mut s = PlaybackStream::start(true, 0).unwrap();
    assert_eq!(s.start_step(), StartStep::BuildOut);
    let mut fill = |p: &mut [Vec<i32>], _: usize| {
        p[3].clear();
        true
    };
    assert!(s.next_out(&mut fill, &ask).is_none());
    assert_eq!(s.start_step(), StartStep::Run);
}

#[test]
fn duplex_starts_at_the_nominal_rate() {
    let mut s = DuplexStream::start(true, 44100).unwrap();
    for _ in 0..NUM_TRANSFERS {
        assert_eq!(s.start_step(), StartStep::SubmitIn);
    }
    let mut frames = 0;
    for n in 1..=NUM_TRANSFERS {
        assert_eq!(s.start_step(), StartStep::BuildOut);
        let (_, lens) = s.next_out(&mut |_: &mut [Vec<i32>], _| false, &ask).unwrap();
        frames += lens.iter().sum::<u32>() as usize / 18;
        assert_eq!(frames, n * 16 * 44100 / 8000);
    }
    assert_eq!(s.start_step(), StartStep::Run);
}

#[test]
fn duplex_stream_mirrors_capture() {
    let mut s = duplexing(44100);
    let mut quiet = |_: &mut [Vec<i32>], _: usize| false;
    let mut deaf = |_: &[Vec<i32>], _: usize| false;
    let got = vec![packet(7), packet(5)];
    assert!(matches!(s.on_in(Ok(got), &mut deaf, &hand), InStep::Submit));
    let lost = vec![IsoPacket { data: vec![1; 36], ok: false }];
    assert!(matches!(s.on_in(Ok(lost), &mut deaf, &hand), InStep::Submit));
    assert!(matches!(s.on_out(Ok(())), OutStep::Build));
    assert_eq!(s.next_out(&mut quiet, &ask).unwrap().1, vec![126, 90]);
    assert!(matches!(s.on_out(Err(failure())), OutStep::Build));
    assert_eq!(s.next_out(&mut quiet, &ask).unwrap().1.len(), 16);
}

#[test]
fn duplex_feedback_is_bounded() {
    let mut s = duplexing(0);
    let mut deaf = |_: &[Vec<i32>], _: usize| false;
    for n in 0..FB_MAX + 10 {
        let got = vec![packet(n % 7 + 1)];
        assert!(matches!(s.on_in(Ok(got), &mut deaf, &hand), InStep::Submit));
    }
    let mut quiet = |_: &mut [Vec<i32>], _: usize| false;
    for n in 0..FB_MAX {
        assert!(matches!(s.on_out(Ok(())), OutStep::Build));
        let (_, lens) = s.next_out(&mut quiet, &ask).unwrap();
        assert_eq!(lens, vec![((n % 7 + 1) * 18) as u32]);
    }
    assert!(matches!(s.on_out(Ok(())), OutStep::Build));
    assert_eq!(s.next_out(&mut quiet, &ask).unwrap().1, vec![108; 16]);
}

#[test]
fn duplex_stops_on_either_callback() {
    let mut s = duplexing(0);
    assert!(matches!(
        s.on_in(Ok(vec![packet(1)]), &mut |_: &[Vec<i32>], _| true, &hand),
        InStep::Hold
    ));
    let mut deaf = |_: &[Vec<i32>], _: usize| false;
    for n in 1..2 * NUM_TRANSFERS {
        assert!(s.running());
        if n % 2 == 0 {
            assert!(matches!(s.on_out(Ok(())), OutStep::Hold));
        } else {
            assert!(matches!(s.on_in(Err(failure()), &mut deaf, &hand), InStep::Hold));
        }
    }
    assert!(!s.running());
    let mut t = DuplexStream::start(true, 0).unwrap();
    for _ in 0..NUM_TRANSFERS {
        assert_eq!(t.start_step(), StartStep::SubmitIn);
    }
    assert_eq!(t.start_step(), StartStep::BuildOut);
    assert!(t.next_out(&mut |_: &mut [Vec<i32>], _| true, &ask).is_none());
    assert_eq!(t.start_step(), StartStep::Run);
    assert!(matches!(t.on_in(Ok(vec![packet(1)]), &mut deaf, &hand), InStep::Hold));
}

#[test]
fn duplex_errors_of_both_directions_count() {
    let mut u = duplexing(0);
    let mut deaf = |_: &[Vec<i32>], _: usize| false;
    let mut quiet = |_: &mut [Vec<i32>], _: usize| false;
    for n in 0..MAX_ERR_STREAK {
        if n % 2 == 0 {
            assert!(matches!(u.on_in(Err(failure()), &mut deaf, &hand), InStep::Submit));
        } else {
            assert!(matches!(u.on_out(Err(failure())), OutStep::Build));
            assert!(u.next_out(&mut quiet, &ask).is_some());
        }
    }
    assert!(matches!(u.on_out(Err(failure())), OutStep::Abort(_)));
}

#[test]
fn an_empty_queue_is_the_nominal_rate() {
    let mut p1 = 4321;
    let mut p2 = 4321;
    let mut a = empty_planar();
    let mut b = empty_planar();
    let mut fb = VecDeque::new();
    let mut ramp = |p: &mut [Vec<i32>], n: usize| {
        for c in 0..6 {
            for i in 0..n {
                p[c][i] += (c + i + n) as i32;
            }
        }
        false
    };
    let one = build_out(44100, &mut p1, &mut a, &mut ramp, &ask);
    let two = build_out_fb(44100, &mut p2, &mut fb, &mut b, &mut ramp, &ask);
    assert!(one.is_some());
    assert_eq!(one, two);
    assert_eq!((p1, a), (p2, b));
    assert!(fb.is_empty());
}

#[test]
fn pool_counts() {
    let mut p = Pool::new(1, 1);
    assert!(p.running() && !p.stopping());
    p.submitted();
    assert!(!p.completed(true));
    assert!(p.completed(true));
    assert!(!p.running());
    p.answered(false);
    assert!(!p.stopping());
    p.answered(true);
    p.answered(false);
    assert!(p.stopping());
}
