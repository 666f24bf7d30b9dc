use sl3::frame::{
    deinterleave, empty_planar, grow, pack_frames, put_s24le, s24le, unpack_frames, IsoPacket,
};
use sl3::pacing::{next_size, nominal_sizes};

#[test]
fn samples_are_sign_extended() {
    assert_eq!(s24le(&[0x01, 0x02, 0x03]), 0x030201);
    assert_eq!(s24le(&[0xff, 0xff, 0xff]), -1);
    assert_eq!(s24le(&[0x00, 0x00, 0x80]), -0x80_0000);
    assert_eq!(s24le(&[0xff, 0xff, 0x7f]), 0x7f_ffff);
}

#[test]
fn samples_round_trip() {
    for s in [0, 1, -1, 0x7f_ffff, -0x80_0000, 123_456, -654_321] {
        let mut b = Vec::new();
        put_s24le(&mut b, s);
        assert_eq!(b.len(), 3);
        assert_eq!(s24le(&b), s);
    }
    let mut b = vec![9];
    put_s24le(&mut b, 0x1234_5678);
    assert_eq!(b, vec![9, 0x78, 0x56, 0x34]);
    assert_eq!(s24le(&b[1..]), 0x34_5678);
}

#[test]
fn sample_bytes_round_trip() {
    for bytes in [[0u8, 0, 0], [1, 2, 0x83], [0xff, 0xfe, 0x7f]] {
        let mut b = Vec::new();
        put_s24le(&mut b, s24le(&bytes));
        assert_eq!(b, bytes.to_vec());
    }
}

fn ramp(nf: i32) -> Vec<Vec<i32>> {
    (0..6).map(|c| (0..nf).map(|i| i * 10 + c - 20).collect()).collect()
}

#[test]
fn frames_round_trip() {
    let planar = ramp(5);
    let mut data = Vec::new();
    pack_frames(&mut data, &planar, 4);
    assert_eq!(data.len(), 4 * 18);
    assert_eq!(&data[..3], &[0xec, 0xff, 0xff]);
    let mut back = empty_planar();
    let packet = IsoPacket { data, ok: true };
    assert_eq!(deinterleave(&mut back, &[packet]), 4);
    for c in 0..6 {
        assert_eq!(&back[c][..], &planar[c][..4]);
    }
}

#[test]
fn capture_repacks_to_its_bytes() {
    let data: Vec<u8> = (0..40u8).map(|b| b.wrapping_mul(37)).collect();
    let mut planar = empty_planar();
    let packet = IsoPacket { data: data.clone(), ok: true };
    assert_eq!(deinterleave(&mut planar, &[packet]), 2);
    let mut again = Vec::new();
    pack_frames(&mut again, &planar, 2);
    assert_eq!(again, data[..36].to_vec());
}

#[test]
fn failed_packets_are_skipped() {
    let mut one = Vec::new();
    pack_frames(&mut one, &ramp(1), 1);
    let packets = vec![
        IsoPacket { data: vec![0x55; 36], ok: false },
        IsoPacket { data: one.clone(), ok: true },
        IsoPacket { data: vec![], ok: true },
        IsoPacket { data: vec![1; 17], ok: true },
        IsoPacket { data: one, ok: true },
    ];
    let mut planar = vec![vec![7; 3]; 6];
    assert_eq!(deinterleave(&mut planar, &packets), 2);
    for c in 0..6 {
        assert_eq!(planar[c], vec![c as i32 - 20, c as i32 - 20, 7]);
    }
    assert_eq!(deinterleave(&mut planar, &[]), 0);
    assert_eq!(planar[0], vec![-20, -20, 7]);
}

#[test]
fn growing_keeps_samples() {
    let mut planar = vec![vec![3, 4]; 6];
    planar[2] = vec![1, 2, 3, 4];
    grow(&mut planar, 3);
    assert_eq!(planar[0], vec![3, 4, 0]);
    assert_eq!(planar[2], vec![1, 2, 3, 4]);
    let mut data = Vec::new();
    pack_frames(&mut data, &ramp(2), 2);
    unpack_frames(&mut planar, &data, 18, 1, 1);
    assert_eq!(planar[0], vec![3, -10, 0]);
    assert_eq!(planar[5], vec![3, -5, 0]);
}

#[test]
fn nominal_pacing_at_48k() {
    let mut phase = 0;
    assert_eq!(nominal_sizes(48000, &mut phase, 16), vec![6; 16]);
    assert_eq!(phase, 0);
}

#[test]
fn nominal_pacing_at_44k1() {
    let mut phase = 0;
    let sizes = nominal_sizes(44100, &mut phase, 8000);
    assert!(sizes.iter().all(|&n| n == 5 || n == 6));
    assert!(sizes.iter().all(|&n| n * 18 <= 126));
    assert_eq!(sizes.iter().sum::<usize>(), 44100);
    assert_eq!(phase, 0);
    assert_eq!(sizes[..3], [5, 6, 5]);
    let mut due = 0;
    for (k, n) in sizes.iter().enumerate() {
        due += n;
        assert_eq!(due, (k + 1) * 44100 / 8000);
    }
}

#[test]
fn one_packet_moves_the_accumulator() {
    let mut phase = 7999;
    assert_eq!(next_size(44100, &mut phase), 6);
    assert_eq!(phase, (7999 + 44100) % 8000);
    let mut idle = 5;
    assert_eq!(next_size(0, &mut idle), 0);
    assert_eq!(idle, 5);
}
