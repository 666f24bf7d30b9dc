use sl3::daemon::{
    is_readable, CaptureWatch, Cursors, Player, Session, Tick, CUSHION, MAXLAT, PROBE_EVERY,
};
use sl3::frame::empty_planar;
use sl3::shm::{
    assert_layout, init_header, is_stale, must_grow, read_ring, slot, write_ring, MAGIC,
    RING_SAMPLES, SEGMENT_BYTES,
};

#[test]
fn layout_size() {
    assert!(assert_layout(64 + 2 * RING_SAMPLES * 4 + 16));
    assert!(assert_layout(1572944));
    assert!(!assert_layout(1572936));
}

#[test]
fn segments() {
    assert!(!is_stale(true, 1572944));
    assert!(is_stale(true, 1572936) && is_stale(false, 1572944) && is_stale(true, -1));
    assert!(must_grow(true, 0) && must_grow(true, 1572943));
    assert!(!must_grow(true, 1572944) && !must_grow(false, 0) && !must_grow(true, -1));
}

#[test]
fn segments_are_initialised_once() {
    let mut seg = vec![0xffu8; SEGMENT_BYTES];
    assert!(init_header(&mut seg));
    assert_eq!(seg[..4], MAGIC.to_le_bytes());
    assert_eq!(seg[..4], *b"ASL3");
    assert_eq!(seg[4..12], [2, 0, 0, 0, 6, 0, 0, 0]);
    assert!(seg[12..].iter().all(|&b| b == 0));
    seg[12] = 0x80;
    seg[64] = 7;
    seg[SEGMENT_BYTES - 1] = 9;
    let before = seg.clone();
    assert!(!init_header(&mut seg));
    assert_eq!(seg, before);
    seg[4] = 1;
    assert!(init_header(&mut seg));
    assert_eq!(seg[4], 2);
    assert!(seg[12..].iter().all(|&b| b == 0));
}

#[test]
fn ring_slots_wrap() {
    assert_eq!(slot(0, 0), 0);
    assert_eq!(slot(32767, 0), 32767 * 6);
    assert_eq!(slot(32767, 1), 0);
    assert_eq!(slot(u64::MAX, 0), 32767 * 6);
    assert_eq!(slot(100_000, 5), (100_005 % 32768) * 6);
}

#[test]
fn ring_round_trip() {
    let planar: Vec<Vec<i32>> = (0..6).map(|c| vec![c * 10, c * 10 + 1, c * 10 + 2]).collect();
    let put = |r: &mut (Vec<i32>, usize), at: usize, s: i32| {
        r.0[at] = s;
        r.1 += 1;
    };
    let mut state = (vec![0i32; RING_SAMPLES], 0);
    let next = write_ring(32767, &planar, 3, &mut state, &put);
    let (ring, puts) = state;
    assert_eq!(puts, 18);
    assert_eq!(next, 32770);
    assert_eq!(ring[32767 * 6], 0);
    assert_eq!(ring[..12], [1, 11, 21, 31, 41, 51, 2, 12, 22, 32, 42, 52]);
    let mut back = vec![vec![99; 5]; 6];
    read_ring(32767, 3, &mut back, 4, &|at| ring[at]);
    for c in 0..6 {
        let b = 10 * c as i32;
        assert_eq!(back[c], vec![b, b + 1, b + 2, 0, 99]);
    }
}

#[test]
fn cursors_snap_to_the_writers() {
    let c = Cursors { cap_write: 100, cap_read: 90, play_write: 50, play_read: 7 };
    let e = c.emptied();
    assert_eq!((e.cap_write, e.cap_read), (100, 100));
    assert_eq!((e.play_write, e.play_read), (50, 50));
}

#[test]
fn capture_ends_after_an_idle_second() {
    let mut w = CaptureWatch::new(48000);
    assert!(!w.on_frames(47999, 0, 48000, false));
    assert!(w.on_frames(1, 0, 48000, false));
    assert!(!w.on_frames(96, 1, 48000, false));
    assert!(!w.on_frames(47999, 0, 0, false));
    assert!(w.on_frames(1, 1, 44100, false));
    assert!(!w.on_frames(1, 1, 96000, false));
    assert!(w.on_frames(1, 1, 48000, true));
}

fn playing(p: &mut Player, rd: u64, wr: u64, frames: usize) -> (u64, Vec<i32>) {
    let mut planar = vec![vec![-1; frames + 1]; 7];
    let next = p.play(rd, wr, &mut planar, frames, &|at| at as i32 / 6 + 1);
    assert_eq!(planar.pop(), Some(vec![-1; frames + 1]));
    assert!(planar.iter_mut().all(|row| row.pop() == Some(-1)));
    (next, planar.swap_remove(0))
}

#[test]
fn cursors_that_playback_can_read() {
    assert!(is_readable(10, 10) && is_readable(10, 10 + MAXLAT));
    assert!(is_readable(0, MAXLAT + 1) && is_readable(u64::MAX, CUSHION + MAXLAT));
    assert!(!is_readable(u64::MAX, 3) && !is_readable(9, 8));
}

#[test]
fn playback_waits_for_a_cushion() {
    let mut p = Player::new();
    assert_eq!(playing(&mut p, 10, 10 + CUSHION - 1, 2), (10, vec![0, 0]));
    assert_eq!(playing(&mut p, 10, 10 + CUSHION, 2), (12, vec![11, 12]));
    assert_eq!(playing(&mut p, 12, 15, 2), (14, vec![13, 14]));
    assert_eq!(playing(&mut p, 14, 15, 3), (15, vec![15, 0, 0]));
    assert_eq!(playing(&mut p, 15, 20, 2), (15, vec![0, 0]));
    assert_eq!(playing(&mut p, 15, 15 + CUSHION, 1), (16, vec![16]));
}

#[test]
fn playback_drops_old_audio() {
    let mut p = Player::new();
    let wr = 10_000;
    assert_eq!(playing(&mut p, wr - MAXLAT - 1, wr, 1), (wr - CUSHION + 1, vec![8977]));
    let mut q = Player::new();
    assert_eq!(playing(&mut q, wr - MAXLAT, wr, 1), (wr - MAXLAT + 1, vec![3857]));
    let mut r = Player::new();
    assert_eq!(playing(&mut r, 5000, 2000, 1).0, 2000 - CUSHION + 1);
}

#[test]
fn an_idle_device_is_probed() {
    let mut s = Session::new(44100);
    for _ in 0..2 {
        for _ in 1..PROBE_EVERY {
            assert_eq!(s.tick(false, 0, 0), Tick::Idle);
        }
        assert_eq!(s.tick(false, 0, 0), Tick::Probe);
    }
    assert_eq!(s.tick(false, 0, 0), Tick::Idle);
    assert_eq!(s.tick(false, 1, 48000), Tick::Stream(48000));
    assert_eq!(s.tick(false, 1, 12345), Tick::Stream(44100));
    for _ in 1..PROBE_EVERY {
        assert_eq!(s.tick(false, 0, 0), Tick::Idle);
    }
    assert_eq!(s.tick(true, 0, 0), Tick::Leave);
    assert_eq!(s.tick(true, 1, 48000), Tick::Leave);
}

#[test]
fn streams_that_end() {
    let mut s = Session::new(48000);
    assert!(!s.streamed(false, true));
    assert!(s.streamed(false, false));
    assert!(!s.backs_off(false));
    assert!(s.streamed(true, true));
    assert!(s.backs_off(false) && !s.backs_off(true));
}

#[test]
fn a_new_buffer_has_six_channels() {
    assert_eq!(empty_planar(), vec![Vec::<i32>::new(); 6]);
}
