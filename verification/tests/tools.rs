use sl3::api::{
    command_status, connection_error, controls_in, event_of, handle_status, idle_event,
    overload_in, parameter_in, sl3_get_api_version, sl3_get_audio_controls,
    sl3_get_driver_version, sl3_get_firmware_embedded_version, sl3_get_firmware_version,
    sl3_get_overload_status, sl3_get_parameter, sl3_get_product_id, sl3_get_status,
    sl3_get_usb_port_status, sl3_get_vendor_id, sl3_is_C0_device, sl3_set_audio_controls,
    sl3_set_buffer_millisecs,
    sl3_set_parameter, status_in, ApiCall, Command, CommandStep, Event, Version,
};
use sl3::ctl::{
    control_line, control_set_line, controls_lines, event_line, output_line, overload_line,
    parse_command, rate_argument, rate_line, rate_set_line, status_line, CtlCommand,
};
use sl3::probe::{
    class_line, configuration_line, endpoint_line, extra_line, interface_line, xfer_type,
};
use sl3::text::{parse_u32, parse_u8, parse_usize, push_decimal, push_signed};
use sl3::wav::{wav_header, Recording};
use sl3::web::{ep_num, interleave, spread, stops, take_samples};
use sl3::Error;

fn status(call: ApiCall) -> i32 {
    match call {
        ApiCall::Return(s) => s,
        ApiCall::Command { .. } => panic!("a command"),
    }
}

fn sent(call: ApiCall) -> (u8, Vec<u8>) {
    match call {
        ApiCall::Command { code, payload } => (code, payload),
        ApiCall::Return(s) => panic!("status {s}"),
    }
}

#[test]
fn api_arguments() {
    assert_eq!(status(sl3_get_audio_controls(false, 0, 1)), 8);
    assert_eq!(status(sl3_get_audio_controls(true, -1, 1)), 2);
    assert_eq!(status(sl3_get_audio_controls(true, 0, 0)), 2);
    assert_eq!(status(sl3_get_audio_controls(true, 21, 2)), 2);
    assert_eq!(status(sl3_get_audio_controls(true, i32::MAX, 1)), 2);
    assert_eq!(sent(sl3_get_audio_controls(true, 0, 22)), (0x32, vec![]));
    assert_eq!(status(sl3_set_audio_controls(false, 0, 1, &[])), 8);
    assert_eq!(status(sl3_set_audio_controls(true, 22, 1, &[])), 2);
    assert_eq!(sent(sl3_set_audio_controls(true, 8, 2, &[1, 0])), (0x33, vec![8, 2, 1, 0]));
    assert_eq!(status(sl3_get_parameter(false, 0)), 8);
    assert_eq!(status(sl3_get_parameter(true, 1)), 2);
    assert_eq!(sent(sl3_get_parameter(true, 0)), (0x30, vec![]));
    assert_eq!(status(sl3_set_parameter(false, 0, 48000)), 8);
    assert_eq!(status(sl3_set_parameter(true, 1, 48000)), 2);
    assert_eq!(status(sl3_set_parameter(true, 0, 96000)), 2);
    assert_eq!(sent(sl3_set_parameter(true, 0, 44100)), (0x31, vec![0xac, 0x44]));
    assert_eq!(status(sl3_get_status(false)), 8);
    assert_eq!(sent(sl3_get_status(true)), (0x0a, vec![]));
    assert_eq!(status(sl3_get_overload_status(false)), 8);
    assert_eq!(sent(sl3_get_overload_status(true)), (0x35, vec![]));
}

#[test]
fn api_buffer_sizes() {
    let mut ms = 10;
    assert_eq!(sl3_set_buffer_millisecs(true, 50, &mut ms), 0);
    assert_eq!(ms, 50);
    assert_eq!(sl3_set_buffer_millisecs(true, 51, &mut ms), 2);
    assert_eq!(sl3_set_buffer_millisecs(true, 0, &mut ms), 2);
    assert_eq!(sl3_set_buffer_millisecs(false, 1, &mut ms), 8);
    assert_eq!(ms, 50);
    assert_eq!(sl3_set_buffer_millisecs(true, 1, &mut ms), 0);
    assert_eq!(ms, 1);
}

#[test]
fn api_constants() {
    assert_eq!((sl3_get_vendor_id(), sl3_get_product_id(), sl3_is_C0_device()), (0x1cc5, 1, 0));
    let v = Version { a: 2, b: 0, c: 1, d: 2 };
    assert_eq!((sl3_get_driver_version(), sl3_get_api_version()), (v, v));
    let f = Version { a: 2, b: 50, c: 0, d: 0 };
    assert_eq!((sl3_get_firmware_version(), sl3_get_firmware_embedded_version()), (f, f));
    let port = sl3_get_usb_port_status();
    assert_eq!((port.status, port.reserved), (0, 0));
    assert_eq!((handle_status(true), handle_status(false)), (0, 8));
    assert_eq!((command_status(true), command_status(false)), (0, 4));
    assert_eq!((connection_error(true), connection_error(false)), (0, 0xE00002D8u32 as i32));
}

fn numbered(code: u8) -> [u8; 64] {
    let mut r = [0u8; 64];
    for i in 0..64 {
        r[i] = i as u8;
    }
    r[0] = code;
    r
}

#[test]
fn api_events() {
    match event_of(&numbered(0x38)) {
        Some(Event::Phono(d)) => assert_eq!(d.bytes, [5, 6, 7]),
        _ => panic!("no phono event"),
    }
    match event_of(&numbered(0x39)) {
        Some(Event::Thru(d)) => assert_eq!(d.bytes, [5, 6, 7, 8]),
        _ => panic!("no thru event"),
    }
    match idle_event(Ok(numbered(0x34))) {
        Some(Event::Overload(d)) => assert_eq!(d.bytes, [5, 6, 7, 8, 9, 10]),
        _ => panic!("no overload event"),
    }
    assert!(event_of(&numbered(0x30)).is_none());
    assert!(idle_event(Err(Error::NoDevice)).is_none());
}

#[test]
fn api_replies() {
    let r = numbered(0x32);
    assert_eq!(controls_in(&r, 8, 3), vec![13, 14, 15]);
    assert_eq!(parameter_in(&r), 0x0506);
    assert_eq!(status_in(&r), 5);
    assert_eq!(overload_in(&r).bytes, [5, 6, 7, 8, 9, 10]);
}

#[test]
fn a_command_skips_events() {
    let mut c = Command::new();
    assert!(matches!(c.on_read(Ok(numbered(0x38))), CommandStep::Dispatch(Some(_))));
    match c.on_read(Ok(numbered(0x32))) {
        CommandStep::Reply(r) => assert_eq!(r, numbered(0x32)),
        _ => panic!("no reply"),
    }
    let mut f = Command::new();
    assert!(matches!(f.on_read(Err(Error::NoDevice)), CommandStep::Fail));
    let mut e = Command::new();
    for _ in 1..8 {
        assert!(matches!(e.on_read(Ok(numbered(0x34))), CommandStep::Dispatch(Some(_))));
    }
    assert!(matches!(e.on_read(Ok(numbered(0x34))), CommandStep::DispatchLast(Some(_))));
}

fn args(words: &[&str]) -> Vec<String> {
    words.iter().map(|w| w.to_string()).collect()
}

#[test]
fn ctl_commands() {
    assert_eq!(parse_command(&args(&["ctl"])), CtlCommand::Usage);
    assert_eq!(parse_command(&args(&["ctl", "status", "x"])), CtlCommand::Status);
    assert_eq!(parse_command(&args(&["ctl", "rate", "44100"])), CtlCommand::Rate(44100));
    assert_eq!(parse_command(&args(&["ctl", "rate", "fast"])), CtlCommand::Rate(0));
    assert_eq!(parse_command(&args(&["ctl", "rate"])), CtlCommand::Unknown);
    assert_eq!(parse_command(&args(&["ctl", "get", "+8"])), CtlCommand::GetControl(8));
    assert_eq!(
        parse_command(&args(&["ctl", "set", "8", "0xfF"])),
        CtlCommand::SetControl(8, 255)
    );
    assert_eq!(parse_command(&args(&["ctl", "set", "8"])), CtlCommand::Unknown);
    assert_eq!(parse_command(&args(&["ctl", "output", "on"])), CtlCommand::Output(true));
    assert_eq!(parse_command(&args(&["ctl", "output", "ON"])), CtlCommand::Output(false));
    assert_eq!(parse_command(&args(&["ctl", "watch"])), CtlCommand::Watch);
    assert_eq!(parse_command(&args(&["ctl", "dance"])), CtlCommand::Unknown);
    assert_eq!(rate_argument(None, 48000), 48000);
    assert_eq!(rate_argument(Some(&"44100".to_string()), 48000), 44100);
    assert_eq!(rate_argument(Some(&"".to_string()), 48000), 48000);
}

#[test]
fn numbers_are_read_as_std_reads_them() {
    for s in [
        "", "+", "-", "-0", "0", "00", "+7", "++7", "4294967295", "4294967296", "1 ", " 1", "1_0",
        "99999999999999999999", "18446744073709551615", "18446744073709551616", "0x10", "a",
    ] {
        assert_eq!(parse_u32(s), s.parse::<u32>().ok(), "{s:?}");
        assert_eq!(parse_usize(s), s.parse::<usize>().ok(), "{s:?}");
        assert_eq!(parse_u8(s), ctl_byte(s), "{s:?}");
    }
    for s in ["0x", "0xff", "0xFF", "0x100", "0x+a", "0x-a", "0xg", "0X1", "255", "256"] {
        assert_eq!(parse_u8(s), ctl_byte(s), "{s:?}");
    }
}

fn ctl_byte(s: &str) -> u8 {
    match s.strip_prefix("0x") {
        Some(hex) => u8::from_str_radix(hex, 16).unwrap_or(0),
        None => s.parse().unwrap_or(0),
    }
}

#[test]
fn decimals_round_trip() {
    for n in [0u64, 9, 10, 99, 100, 4294967295, u64::MAX] {
        let mut s = String::new();
        push_decimal(&mut s, n);
        assert_eq!(s, n.to_string());
        assert_eq!(s.parse::<u64>().ok(), Some(n));
        assert_eq!(parse_u32(&s), u32::try_from(n).ok());
    }
    for i in [0, -1, i32::MIN, i32::MAX] {
        let mut s = "x".to_string();
        push_signed(&mut s, i);
        assert_eq!(s, format!("x{i}"));
    }
}

#[test]
fn ctl_lines() {
    let mut controls = [0u8; 22];
    controls[8] = 1;
    controls[21] = 0xab;
    assert_eq!(
        controls_lines(&controls),
        "audio-controls[22]: 00 00 00 00 00 00 00 00 01 00 00 00 00 00 00 00 00 00 00 00 00 ab\n  \
         (offset 8 = aux output = ON)"
    );
    assert!(controls_lines(&[0; 22]).ends_with("= off)"));
    assert_eq!(overload_line(&[1, 2, 3, 4, 5, 0xff]), "overload:  01 02 03 04 05 ff");
    assert_eq!(status_line(0x1f), "status:    0x1f");
    assert_eq!(rate_line(48000), "rate:      48000 Hz");
    assert_eq!(rate_set_line(44100), "sample rate set to 44100 Hz");
    assert_eq!(control_line(8, 1), "control[8] = 0x01");
    assert_eq!(control_set_line(8, 0xfe), "set control[8] = 0xfe");
    assert_eq!(output_line(true), "aux output ON");
    assert_eq!(output_line(false), "aux output off");
    assert_eq!(event_line(&numbered(0x38)), "phono:    05 06 07");
    assert_eq!(event_line(&numbered(0x39)), "thru:     05 06 07 08");
    assert_eq!(event_line(&numbered(0x34)), "overload: 05 06 07 08 09 0a");
    assert_eq!(event_line(&numbered(0x99)), "event 0x99: 05 06 07 ...");
}

#[test]
fn probe_lines() {
    assert_eq!(xfer_type(0), "control");
    assert_eq!(xfer_type(5), "isochronous");
    assert_eq!(xfer_type(2), "bulk");
    assert_eq!(xfer_type(0xff), "interrupt");
    assert_eq!(
        endpoint_line(0x82, 1, 126, 1),
        format!("    EP 0x82 {:<4} {:<11} maxPkt=126 bInterval=1", "IN", "isochronous")
    );
    assert_eq!(
        endpoint_line(0x01, 3, 64, 4),
        format!("    EP 0x01 {:<4} {:<11} maxPkt=64 bInterval=4", "OUT", "interrupt")
    );
    assert_eq!(
        interface_line(2, 1, 255, 2, 32, 1),
        "\n  Interface 2 alt 1 class/sub/proto=255/2/32 endpoints=1"
    );
    assert_eq!(extra_line(&[0x24, 1]), "    class-specific (2 bytes): 24 01");
    assert_eq!(
        configuration_line(1, 4, 400),
        "\n--- Configuration 1: 4 interface(s), 400 mA ---"
    );
    assert_eq!(class_line(255, 255, 255, 1), "  class/sub/proto = 255/255/255  numConfigs = 1");
}

#[test]
fn wav_files() {
    let h = wav_header(48000, 6);
    assert_eq!(h.len(), 44);
    assert_eq!(&h[..4], b"RIFF");
    assert_eq!(&h[8..16], b"WAVEfmt ");
    assert_eq!(&h[16..24], &[16, 0, 0, 0, 1, 0, 6, 0]);
    assert_eq!(h[24..28], 48000u32.to_le_bytes());
    assert_eq!(h[28..32], (48000u32 * 18).to_le_bytes());
    assert_eq!(&h[32..36], &[18, 0, 24, 0]);
    assert_eq!(&h[36..44], b"data\0\0\0\0");
    let planar = vec![vec![0x010203, -1]; 6];
    let mut r = Recording::new(3);
    let (bytes, done) = r.on_frames(&planar, 2);
    assert_eq!((bytes.len(), done), (36, false));
    assert_eq!(&bytes[..3], &[3, 2, 1]);
    assert_eq!(&bytes[33..], &[0xff; 3]);
    assert!(r.on_frames(&planar, 1).1);
    assert_eq!(r.written(), 3);
    let (riff, data) = r.sizes();
    assert_eq!(riff, (36u32 + 54).to_le_bytes().to_vec());
    assert_eq!(data, 54u32.to_le_bytes().to_vec());
}

#[test]
fn web_arrays() {
    assert_eq!([0x82, 0x06, 0x81, 0x01].map(ep_num), [2, 6, 1, 1]);
    let planar: Vec<Vec<i32>> = (0..6).map(|c| vec![c, c + 10, c + 20]).collect();
    let flat = interleave(&planar, 2);
    assert_eq!(flat, vec![0, 1, 2, 3, 4, 5, 10, 11, 12, 13, 14, 15]);
    let mut back = vec![vec![-1; 3]; 6];
    spread(&mut back, 2, &flat);
    for c in 0..6 {
        assert_eq!(back[c], vec![c as i32, c as i32 + 10, -1]);
    }
    spread(&mut back, 2, &flat[..7]);
    assert_eq!(back[0], vec![0, 10, -1]);
    assert_eq!(back[1], vec![1, 0, -1]);
    assert!(take_samples(&mut back, 1, None, false));
    assert_eq!(back[2], vec![2, 0, -1]);
    assert!(!take_samples(&mut back, 1, Some(&[9; 3]), false));
    assert!(take_samples(&mut back, 1, Some(&[9; 3]), true));
    assert_eq!((back[2][0], back[3][0]), (9, 0));
    assert!(!stops(false, Some(false)));
    assert!(stops(true, Some(false)) && stops(false, Some(true)) && stops(false, None));
}
