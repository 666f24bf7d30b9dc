use sl3::proto::{
    build_report, check_controls, decode_controls, decode_overload, decode_rate, decode_status,
    encode_rate, encode_set_controls, is_event, is_supported_rate, CMD_GET_CONTROLS,
    CMD_GET_OVERLOAD, CMD_GET_PARAM, CMD_GET_STATUS, CMD_SET_CONTROLS, CMD_SET_RATE, EVT_OVERLOAD,
    EVT_PHONO, EVT_THRU, PAYLOAD_OFF,
};
use sl3::{AUDIO_CTRL_BYTES, HID_REPORT_LEN};

#[test]
fn report_framing_roundtrip() {
    let r = build_report(CMD_SET_CONTROLS, 0x0403_0201, &[0xaa, 0xbb]).unwrap();
    assert_eq!(r.len(), HID_REPORT_LEN);
    assert_eq!(r[0], CMD_SET_CONTROLS);
    assert_eq!(&r[1..5], &[0x01, 0x02, 0x03, 0x04]); // seq little-endian
    assert_eq!(&r[5..7], &[0xaa, 0xbb]);
    assert!(r[7..].iter().all(|&b| b == 0)); // zero-padded tail
}

#[test]
fn payload_too_long_rejected() {
    assert!(build_report(CMD_GET_PARAM, 1, &[0u8; HID_REPORT_LEN]).is_err());
}

#[test]
fn rate_encodes_big_endian() {
    assert_eq!(encode_rate(44100).unwrap(), [0xac, 0x44]);
    assert_eq!(encode_rate(48000).unwrap(), [0xbb, 0x80]);
    assert!(encode_rate(96000).is_err());
}

#[test]
fn rate_decode_matches_encode() {
    let mut reply = [0u8; HID_REPORT_LEN];
    reply[PAYLOAD_OFF..PAYLOAD_OFF + 2].copy_from_slice(&encode_rate(48000).unwrap());
    assert_eq!(decode_rate(&reply), 48000);
}

#[test]
fn set_controls_payload_shape() {
    let pl = encode_set_controls(8, &[1]).unwrap();
    assert_eq!(pl, vec![8, 1, 1]);
    assert!(encode_set_controls(AUDIO_CTRL_BYTES, &[0]).is_err()); // out of range
}

#[test]
fn controls_and_overload_slices() {
    let mut reply = [0u8; HID_REPORT_LEN];
    for i in 0..AUDIO_CTRL_BYTES {
        reply[PAYLOAD_OFF + i] = i as u8;
    }
    let mut dst = [0u8; 3];
    decode_controls(&reply, 8, &mut dst).unwrap();
    assert_eq!(dst, [8, 9, 10]);
    assert_eq!(decode_overload(&reply), [0, 1, 2, 3, 4, 5]);
    assert_eq!(decode_status(&reply), 0);
}

#[test]
fn longest_payload_fits() {
    let payload = [7u8; HID_REPORT_LEN - PAYLOAD_OFF];
    let r = build_report(CMD_GET_STATUS, u32::MAX, &payload).unwrap();
    assert_eq!(&r[1..5], &[0xff; 4]);
    assert!(r[5..].iter().all(|&b| b == 7));
    let long = [7u8; HID_REPORT_LEN - PAYLOAD_OFF + 1];
    let e = build_report(CMD_GET_STATUS, 0, &long).unwrap_err();
    assert_eq!(e.message(), "bad parameter: hid payload too long (60)");
}

#[test]
fn unsupported_rate_message() {
    let e = encode_rate(96000).unwrap_err();
    assert_eq!(e.message(), "bad parameter: unsupported sample rate 96000");
    assert!(is_supported_rate(44100) && is_supported_rate(48000));
    assert!(!is_supported_rate(0) && !is_supported_rate(44101));
}

#[test]
fn control_ranges() {
    assert!(check_controls(0, AUDIO_CTRL_BYTES).is_ok());
    assert!(check_controls(AUDIO_CTRL_BYTES, 0).is_ok());
    assert!(check_controls(21, 2).is_err());
    assert!(check_controls(usize::MAX, 1).is_err());
    assert!(check_controls(1, usize::MAX).is_err());
    let e = encode_set_controls(23, &[]).unwrap_err();
    assert_eq!(e.message(), "bad parameter: audio-controls range");
    let reply = [9u8; HID_REPORT_LEN];
    let mut dst = [1u8; 4];
    assert!(decode_controls(&reply, 19, &mut dst).is_err());
    assert_eq!(dst, [1; 4]);
    decode_controls(&reply, 18, &mut dst).unwrap();
    assert_eq!(dst, [9; 4]);
}

#[test]
fn events_are_no_replies() {
    for code in [EVT_OVERLOAD, EVT_PHONO, EVT_THRU] {
        assert!(is_event(code));
    }
    for code in [
        CMD_GET_STATUS,
        CMD_GET_PARAM,
        CMD_SET_RATE,
        CMD_GET_CONTROLS,
        CMD_SET_CONTROLS,
        CMD_GET_OVERLOAD,
    ] {
        assert!(!is_event(code));
    }
    assert_eq!((0..=255u8).filter(|&c| is_event(c)).count(), 3);
}

#[test]
fn status_byte_position() {
    let mut reply = [0u8; HID_REPORT_LEN];
    reply[5] = 0x5a;
    assert_eq!(decode_status(&reply), 0x5a);
}
