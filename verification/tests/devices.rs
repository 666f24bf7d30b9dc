use sl3::device::{
    controls_reply, done, overload_reply, rate_reply, received, status_reply, HidStep,
};
use sl3::open::{open_failure, OpenAction, Role};
use sl3::{Device, Error, UsbError};

fn text(step: HidStep) -> String {
    match step {
        HidStep::Fail(e) => e.message(),
        _ => panic!("no failure"),
    }
}

fn report(step: HidStep) -> [u8; 64] {
    match step {
        HidStep::Write { endpoint, report } => {
            assert_eq!(endpoint, 0x01);
            report
        }
        _ => panic!("no report"),
    }
}

#[test]
fn identity() {
    let d = Device::new("link", true, false);
    assert_eq!((d.vendor_id(), d.product_id()), (0x1CC5, 1));
    assert!(d.has_audio());
    assert_eq!(*d.transport(), "link");
    assert_eq!(d.cached_rate(), 0);
}

#[test]
fn reports_are_numbered() {
    let mut d = Device::new((), false, true);
    for n in 1..=3u8 {
        let r = report(d.hid_send(0x30, &[9]));
        assert_eq!(&r[..7], &[0x30, n, 0, 0, 0, 9, 0]);
    }
    assert!(text(d.hid_send(0x30, &[0; 60])).contains("too long (60)"));
    assert_eq!(report(d.status_byte())[1], 5);
}

#[test]
fn control_needs_its_interface() {
    let mut d = Device::new((), true, false);
    let none = "invalid state: handle has no control interface";
    assert_eq!(text(d.hid_send(1, &[])), none);
    assert_eq!(text(d.read_event(5)), none);
    assert_eq!(text(d.after_write(Ok(()))), none);
    assert_eq!(text(d.sample_rate()), none);
    assert_eq!(text(d.overload()), none);
    assert_eq!(
        text(d.set_sample_rate(48000)),
        "invalid state: rate needs the control interface"
    );
}

#[test]
fn an_exchange() {
    let mut d = Device::new((), false, true);
    let r = report(d.set_sample_rate(44100));
    assert_eq!(&r[..8], &[0x31, 1, 0, 0, 0, 0xac, 0x44, 0]);
    match d.after_write(Ok(())) {
        HidStep::Read { endpoint, len, timeout_ms } => {
            assert_eq!((endpoint, len, timeout_ms), (0x81, 64, 1000))
        }
        _ => panic!("no read"),
    }
    assert_eq!(text(d.after_write(Err(Error::NoDevice))), "SL3 (1cc5:0001) not found");
    assert!(d.rate_set(44100, Err(Error::State("late"))).is_err());
    assert_eq!(d.cached_rate(), 0);
    d.rate_set(44100, received(Ok(vec![0x31]))).unwrap();
    assert_eq!(d.cached_rate(), 44100);
    d.set_pacing_rate(48000);
    assert_eq!(d.cached_rate(), 48000);
    assert_eq!(
        text(d.set_sample_rate(96000)),
        "bad parameter: unsupported sample rate 96000"
    );
    assert_eq!(report(d.sample_rate())[..2], [0x30, 2]);
}

#[test]
fn control_registers() {
    let mut d = Device::new((), false, true);
    assert_eq!(report(d.get_audio_controls(0, 22))[..6], [0x32, 1, 0, 0, 0, 0]);
    assert_eq!(text(d.get_audio_controls(22, 1)), "bad parameter: audio-controls range");
    assert_eq!(report(d.set_audio_controls(8, &[1]))[..9], [0x33, 2, 0, 0, 0, 8, 1, 1, 0]);
    assert_eq!(text(d.set_audio_controls(0, &[0; 23])), "bad parameter: audio-controls range");
    assert_eq!(report(d.overload())[..2], [0x35, 3]);
    assert_eq!(report(d.status_byte())[..2], [0x0a, 4]);
}

#[test]
fn short_and_long_reads() {
    let r = received(Ok(vec![1, 2, 3])).unwrap();
    assert_eq!(&r[..4], &[1, 2, 3, 0]);
    assert_eq!(received(Ok(vec![7; 70])).unwrap(), [7; 64]);
    let whole: Vec<u8> = (0..64).collect();
    assert_eq!(received(Ok(whole.clone())).unwrap().to_vec(), whole);
    assert_eq!(received(Ok(vec![])).unwrap_err().message(), "invalid state: empty hid read");
    assert!(matches!(received(Err(Error::NoDevice)), Err(Error::NoDevice)));
}

#[test]
fn replies() {
    let mut r = [0u8; 64];
    r[5..11].copy_from_slice(&[0xbb, 0x80, 3, 4, 5, 6]);
    assert_eq!(rate_reply(Ok(r)).unwrap(), 48000);
    assert_eq!(overload_reply(Ok(r)).unwrap(), [0xbb, 0x80, 3, 4, 5, 6]);
    assert_eq!(status_reply(Ok(r)).unwrap(), 0xbb);
    assert!(done(Ok(r)).is_ok());
    let mut dst = [0u8; 2];
    controls_reply(Ok(r), 2, &mut dst).unwrap();
    assert_eq!(dst, [3, 4]);
    assert!(controls_reply(Ok(r), 21, &mut dst).is_err());
    assert!(controls_reply(Err(Error::NoDevice), 0, &mut dst).is_err());
    assert_eq!(dst, [3, 4]);
    assert!(rate_reply(Err(Error::NoDevice)).is_err());
    assert!(overload_reply(Err(Error::NoDevice)).is_err());
    assert!(status_reply(Err(Error::NoDevice)).is_err());
    assert!(done(Err(Error::NoDevice)).is_err());
}

#[test]
fn open_plans() {
    let drain = OpenAction::Drain { endpoint: 0x81, len: 64, timeout_ms: 50 };
    assert_eq!(
        Role::full().open_plan(0),
        vec![
            OpenAction::SetConfiguration(1),
            OpenAction::DetachKernelDriver,
            OpenAction::Claim(1),
            OpenAction::Claim(2),
            OpenAction::Claim(3),
            OpenAction::ClearHalt(0x01),
            OpenAction::ClearHalt(0x81),
            drain,
        ]
    );
    assert_eq!(
        Role::audio().open_plan(1),
        vec![OpenAction::DetachKernelDriver, OpenAction::Claim(1), OpenAction::Claim(2)]
    );
    assert_eq!(Role::control().open_plan(1).len(), 5);
    assert!(Role::audio().has_audio() && Role::capture().has_audio());
    assert!(Role::playback().has_audio() && !Role::control().has_audio());
    assert!(!Role::control().open_plan(1).contains(&OpenAction::Claim(1)));
    assert!(!Role::capture().open_plan(1).contains(&OpenAction::Claim(1)));
    assert!(!Role::playback().open_plan(1).contains(&OpenAction::Claim(2)));
}

#[test]
fn only_claims_must_succeed() {
    match open_failure(OpenAction::Claim(2), UsbError::Busy) {
        Some(e) => assert_eq!(e.message(), "claim/access: Resource busy"),
        None => panic!("the claim failed"),
    }
    assert!(open_failure(OpenAction::DetachKernelDriver, UsbError::NotSupported).is_none());
    assert!(open_failure(OpenAction::SetConfiguration(1), UsbError::Busy).is_none());
}
