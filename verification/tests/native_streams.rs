use sl3::native_audio::{
    config_reports, end_plan, fits_slots, is_present, resubmit, start_failure, start_plan,
    Attached, AudioState, ConfigStep, Configuration, Direction, RunAction, RunStep, FEEDBACK_MAX,
    NUM,
};
use sl3::transfer::PacketDesc;
use sl3::{Error, UsbError};

fn quiet(_: &mut [Vec<i32>], _: usize) {}

/// Calls a capture callback that is its own state.
fn hand<F>(f: &mut F, p: &[Vec<i32>], n: usize)
where
    F: FnMut(&[Vec<i32>], usize),
{
    f(p, n)
}

/// Calls a fill callback that is its own state.
fn ask<F>(f: &mut F, p: &mut [Vec<i32>], n: usize)
where
    F: FnMut(&mut [Vec<i32>], usize),
{
    f(p, n)
}

/// Calls a submission that is its own state.
fn attempt<F>(f: &mut F) -> i32
where
    F: FnMut() -> i32,
{
    f()
}

fn descs(frames: &[u32]) -> Vec<PacketDesc> {
    frames
        .iter()
        .map(|n| PacketDesc { length: 126, actual_length: n * 18, status: 0 })
        .collect()
}

fn started(rate: u32) -> AudioState {
    let mut s = AudioState::new(rate);
    for k in 0..2 * NUM {
        let dir = if k < NUM { Direction::In } else { Direction::Out };
        assert_eq!(s.next_step(true), RunStep::Submit(dir));
        s.submitted(0);
    }
    s
}

#[test]
fn a_run_starts_and_drains() {
    let mut s = started(48000);
    assert_eq!(s.next_step(false), RunStep::Events);
    assert_eq!(s.next_step(true), RunStep::Cancel);
    for _ in 0..2 * NUM {
        assert_eq!(s.next_step(false), RunStep::Events);
        assert!(!s.on_capture(0, &[], &[], &mut |_: &[Vec<i32>], _| {}, &hand));
    }
    assert_eq!(s.next_step(false), RunStep::Finish);
    assert!(s.outcome().is_ok());
}

#[test]
fn a_failed_start_is_reported() {
    let mut s = AudioState::new(48000);
    s.submitted(0);
    s.submitted(-1);
    assert_eq!(s.next_step(false), RunStep::Cancel);
    assert_eq!(s.next_step(false), RunStep::Events);
    assert!(s.on_playback(3, &mut quiet, &ask).is_none());
    assert_eq!(s.next_step(false), RunStep::Finish);
    assert_eq!(
        s.outcome().unwrap_err().message(),
        "usb transport: iso submit failed at startup"
    );
}

#[test]
fn lost_transfers_end_the_run() {
    let mut s = started(48000);
    for _ in 0..2 * NUM {
        s.resubmitted(true);
        s.resubmitted(false);
    }
    assert_eq!(s.next_step(false), RunStep::Cancel);
    assert_eq!(s.next_step(false), RunStep::Finish);
}

#[test]
fn nominal_transfers() {
    let mut s = AudioState::new(44100);
    let mut asked = Vec::new();
    let mut fill = |p: &mut [Vec<i32>], n: usize| {
        asked.push(n);
        for c in 0..6 {
            p[c][0] = -1;
        }
    };
    let t = s.build_out(&mut fill, &ask);
    assert_eq!(t.lens.len(), 16);
    assert_eq!(asked[..3], [5, 6, 5]);
    assert_eq!(t.data.len(), asked.iter().sum::<usize>() * 18);
    assert_eq!(&t.data[..18], &[0xff; 18]);
    let mut slow = AudioState::new(0);
    let t = slow.build_out(&mut quiet, &ask);
    assert_eq!((t.lens, t.data), (vec![18; 16], vec![0; 288]));
    let mut fast = AudioState::new(4_000_000);
    let t = fast.build_out(&mut quiet, &ask);
    assert_eq!((t.lens, t.data.len()), (vec![126; 16], 2016));
}

#[test]
fn playback_mirrors_capture_counts() {
    let mut s = started(48000);
    let frames = [7u32, 6, 5, 6, 6, 6, 6, 6, 6, 6, 6, 6, 6, 6, 0, 1];
    let mut d = descs(&frames);
    d[1].status = 1;
    let mut buf = vec![0u8; 2016];
    buf[0] = 5;
    buf[2 * 126] = 9;
    let mut seen = Vec::new();
    let mut on_cap = |p: &[Vec<i32>], n: usize| seen.push((n, p[0][0], p[0][7]));
    assert!(s.on_capture(0, &buf, &d, &mut on_cap, &hand));
    let total = frames.iter().sum::<u32>() as usize - 6;
    assert_eq!(seen, vec![(total, 5, 9)]);
    let t = s.on_playback(0, &mut quiet, &ask).unwrap();
    let mut want: Vec<u32> = frames.iter().map(|n| n * 18).collect();
    want[1] = 0;
    assert_eq!(t.lens, want);
    assert_eq!(t.data.len(), total * 18);
    assert_eq!(s.on_playback(0, &mut quiet, &ask).unwrap().lens, vec![108; 16]);
}

#[test]
fn empty_captures_are_not_mirrored() {
    let mut s = started(48000);
    let mut calls = 0;
    let mut on_cap = |_: &[Vec<i32>], _: usize| calls += 1;
    assert!(s.on_capture(0, &[0; 2016], &descs(&[0; 16]), &mut on_cap, &hand));
    assert_eq!(s.build_out(&mut quiet, &ask).lens, vec![108; 16]);
    assert!(!s.on_capture(3, &[0; 2016], &descs(&[6; 16]), &mut on_cap, &hand));
    assert_eq!(calls, 0);
}

#[test]
fn long_packets_count_as_seven_frames() {
    let mut s = started(48000);
    let mut d = descs(&[6; 16]);
    d[0].actual_length = 143;
    d[15].actual_length = 127;
    let mut seen = Vec::new();
    let mut on_cap = |p: &[Vec<i32>], n: usize| seen.push((n, p[5][6]));
    let mut buf = vec![0u8; 2016];
    buf[125] = 1;
    assert!(fits_slots(buf.len(), &d));
    assert!(s.on_capture(0, &buf, &d, &mut on_cap, &hand));
    assert_eq!(seen, vec![(98, 0x10000)]);
    let lens = s.build_out(&mut quiet, &ask).lens;
    assert_eq!((lens[0], lens[1], lens[15]), (126, 108, 126));
}

#[test]
fn what_capture_takes() {
    let mut d = descs(&[7, 7]);
    assert!(fits_slots(252, &d) && !fits_slots(251, &d) && fits_slots(0, &[]));
    d[1].actual_length = 144;
    assert!(!fits_slots(252, &d));
    d[1].status = 1;
    assert!(fits_slots(252, &d));
}

#[test]
fn native_callbacks_are_called_once() {
    let mut s = started(48000);
    let mut frames = [0u32; 16];
    frames[3] = 2;
    frames[9] = 7;
    let mut calls = 0;
    let mut on_cap = |_: &[Vec<i32>], _: usize| calls += 1;
    assert!(s.on_capture(0, &[0; 2016], &descs(&frames), &mut on_cap, &hand));
    assert_eq!(calls, 1);
    let mut asked = Vec::new();
    let mut fill = |_: &mut [Vec<i32>], n: usize| asked.push(n);
    let t = s.on_playback(0, &mut fill, &ask).unwrap();
    assert_eq!(t.data.len(), 162);
    assert!(s.on_playback(3, &mut fill, &ask).is_none());
    assert_eq!(asked, vec![2, 7]);
}

#[test]
fn capture_counts_are_used_in_order_and_once() {
    let mut s = started(44100);
    let mut deaf = |_: &[Vec<i32>], _: usize| {};
    let first = s.build_out(&mut quiet, &ask).lens;
    for n in 1..=3 {
        assert!(s.on_capture(0, &[0; 2016], &descs(&[n; 16]), &mut deaf, &hand));
    }
    for n in 1..=3 {
        assert_eq!(s.on_playback(0, &mut quiet, &ask).unwrap().lens, vec![n * 18; 16]);
    }
    let second = s.build_out(&mut quiet, &ask).lens;
    let frames: u32 = first.iter().chain(&second).sum();
    assert_eq!(frames, 32 * 44100 / 8000 * 18);
}

#[test]
fn capture_backlog_is_bounded() {
    let mut s = started(48000);
    for n in 0..FEEDBACK_MAX + 3 {
        let d = descs(&[n as u32 % 7 + 1]);
        assert!(s.on_capture(0, &[0; 126], &d, &mut |_: &[Vec<i32>], _| {}, &hand));
    }
    for n in 0..FEEDBACK_MAX {
        let t = s.build_out(&mut quiet, &ask);
        assert_eq!(t.lens[0], (n as u32 % 7 + 1) * 18);
        assert_eq!(t.lens[1], 0);
    }
    assert_eq!(s.build_out(&mut quiet, &ask).lens, vec![108; 16]);
}

#[test]
fn resubmission_is_retried() {
    let mut tries = 0;
    let mut eighth = || {
        tries += 1;
        if tries == 8 {
            0
        } else {
            -1
        }
    };
    assert!(resubmit(&mut eighth, &attempt));
    assert_eq!(tries, 8);
    let mut all = 0;
    let mut never = || {
        all += 1;
        -1
    };
    assert!(!resubmit(&mut never, &attempt));
    assert_eq!(all, 8);
    let mut once = 0;
    let mut first = || {
        once += 1;
        0
    };
    assert!(resubmit(&mut first, &attempt));
    assert_eq!(once, 1);
}

#[test]
fn device_configuration() {
    let (rate, routing) = config_reports(48000).unwrap();
    assert_eq!(&rate[..8], &[0x31, 1, 0, 0, 0, 0xbb, 0x80, 0]);
    assert_eq!(&routing[..9], &[0x33, 2, 0, 0, 0, 8, 1, 1, 0]);
    let e = config_reports(32000).unwrap_err();
    assert_eq!(e.message(), "bad parameter: unsupported sample rate 32000");
}

/// Runs a configuration in which the step with the number `bad` fails; returns what was done.
fn configured(hz: u32, bad: usize) -> (Vec<String>, Result<(), Error>) {
    let mut config = Configuration::new(hz);
    let mut done = Vec::new();
    loop {
        match config.step() {
            ConfigStep::Claim(iface) => done.push(format!("claim {iface}")),
            ConfigStep::Write { endpoint, report, timeout_ms } => {
                assert_eq!((endpoint, timeout_ms), (0x01, 250));
                done.push(format!("write {:02x} {}", report[0], report[1]));
            }
            ConfigStep::Drain { endpoint, len, timeout_ms } => {
                assert_eq!((endpoint, len, timeout_ms), (0x81, 64, 250));
                done.push("drain".to_string());
            }
            ConfigStep::Release(iface) => done.push(format!("release {iface}")),
            ConfigStep::Done => return (done, config.outcome()),
        }
        let failed = if done.len() == bad { Some(UsbError::Pipe) } else { None };
        config.advance(failed);
    }
}

#[test]
fn configuration_order() {
    let all = ["claim 3", "write 31 1", "drain", "write 33 2", "drain", "release 3"];
    for bad in [0, 3, 5, 6] {
        let (done, r) = configured(48000, bad);
        assert_eq!(done, all);
        assert!(r.is_ok());
    }
    let (done, r) = configured(48000, 1);
    assert_eq!(done, ["claim 3"]);
    assert_eq!(r.unwrap_err().message(), "claim/access: Pipe error");
    let (done, r) = configured(44100, 2);
    assert_eq!(done, ["claim 3", "write 31 1", "release 3"]);
    assert_eq!(r.unwrap_err().message(), "usb io: Pipe error");
    let (done, r) = configured(44100, 4);
    assert_eq!(done, ["claim 3", "write 31 1", "drain", "write 33 2", "release 3"]);
    assert_eq!(r.unwrap_err().message(), "usb io: Pipe error");
    let (done, r) = configured(96000, 0);
    assert_eq!(done, ["claim 3", "release 3"]);
    assert_eq!(
        r.unwrap_err().message(),
        "bad parameter: unsupported sample rate 96000"
    );
}

#[test]
fn run_order() {
    let select = |iface, alt| RunAction::SelectAlt { iface, alt };
    assert_eq!(
        start_plan(),
        vec![RunAction::Configure, select(2, 1), select(1, 1), RunAction::RealTime]
    );
    assert_eq!(end_plan(), vec![select(2, 0), select(1, 0)]);
    assert!(start_failure(RunAction::Configure, Error::NoDevice).is_none());
    assert!(start_failure(RunAction::RealTime, Error::NoDevice).is_none());
    assert!(matches!(start_failure(select(1, 1), Error::NoDevice), Some(Error::NoDevice)));
}

#[test]
fn presence() {
    let ours = Attached { bus: 1, address: 7, ids: Some((0x1CC5, 1)) };
    let other = Attached { bus: 1, address: 7, ids: Some((0x1CC5, 2)) };
    let mute = Attached { bus: 1, address: 7, ids: None };
    assert!(is_present(None, 1, 7));
    assert!(is_present(Some(&[other, ours]), 1, 7));
    assert!(!is_present(Some(&[other, mute]), 1, 7));
    assert!(!is_present(Some(&[ours]), 1, 8));
    assert!(!is_present(Some(&[ours]), 2, 7));
    assert!(!is_present(Some(&[]), 1, 7));
}
