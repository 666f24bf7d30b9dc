use sl3::transfer::{
    alloc_result, fits_buffer, interrupt_in_result, is_cancelled, is_completed, iso_submit_result,
    length_fits, may_free, status_result, submit_result, take_packets, timeout_millis,
    transfer_length, xfer_result, PacketDesc, XferResult,
};

#[test]
fn statuses() {
    assert!(is_completed(libusb1_sys::constants::LIBUSB_TRANSFER_COMPLETED));
    assert!(is_cancelled(libusb1_sys::constants::LIBUSB_TRANSFER_CANCELLED));
    assert!(!is_completed(1) && !is_cancelled(0));
    assert!(status_result(0).is_ok());
    assert_eq!(status_result(2).unwrap_err().message(), "usb transport: transfer timed out");
    assert_eq!(status_result(4).unwrap_err().message(), "usb transport: transfer status 4");
    assert_eq!(status_result(-7).unwrap_err().message(), "usb transport: transfer status -7");
}

#[test]
fn interrupt_results() {
    assert_eq!(interrupt_in_result(0, vec![1, 2]).unwrap(), vec![1, 2]);
    assert_eq!(
        interrupt_in_result(2, vec![1]).unwrap_err().message(),
        "usb transport: interrupt in timed out"
    );
    assert_eq!(
        interrupt_in_result(5, vec![]).unwrap_err().message(),
        "usb transport: interrupt in status 5"
    );
    assert_eq!(timeout_millis(1000), 1000);
    assert_eq!(timeout_millis(u32::MAX as u128 + 1), u32::MAX);
}

#[test]
fn packets_lie_at_their_requested_lengths() {
    let buf: Vec<u8> = (0..12).collect();
    let descs = [
        PacketDesc { length: 4, actual_length: 2, status: 0 },
        PacketDesc { length: 4, actual_length: 4, status: 1 },
        PacketDesc { length: 4, actual_length: 0, status: 0 },
    ];
    let got = take_packets(&buf, &descs);
    assert_eq!(got.len(), 3);
    assert_eq!((got[0].data.clone(), got[0].ok), (vec![0, 1], true));
    assert_eq!((got[1].data.clone(), got[1].ok), (vec![4, 5, 6, 7], false));
    assert_eq!((got[2].data.clone(), got[2].ok), (vec![], true));
    let iso = libusb1_sys::constants::LIBUSB_TRANSFER_TYPE_ISOCHRONOUS;
    match xfer_result(iso, 5, 0, &buf, &descs) {
        XferResult::Iso { packets } => assert_eq!(packets[1].data, vec![4, 5, 6, 7]),
        XferResult::Plain { .. } => panic!("the transfer is isochronous"),
    }
    let interrupt = libusb1_sys::constants::LIBUSB_TRANSFER_TYPE_INTERRUPT;
    match xfer_result(interrupt, 5, 3, &buf, &[]) {
        XferResult::Plain { status, data } => assert_eq!((status, data), (5, vec![0, 1, 2])),
        XferResult::Iso { .. } => panic!("the transfer is not isochronous"),
    }
}

#[test]
fn full_packets_are_the_buffer() {
    let buf: Vec<u8> = (0..9).collect();
    let descs = [
        PacketDesc { length: 2, actual_length: 2, status: 0 },
        PacketDesc { length: 0, actual_length: 0, status: 0 },
        PacketDesc { length: 7, actual_length: 7, status: 0 },
    ];
    let joined: Vec<u8> = take_packets(&buf, &descs).into_iter().flat_map(|p| p.data).collect();
    assert_eq!(joined, buf);
    assert_eq!(transfer_length(&[2, 0, 7]), 9);
    assert_eq!(transfer_length(&[126; 16]), 2016);
}

#[test]
fn submissions() {
    assert!(iso_submit_result(0, 0x82, 16, 2016).is_ok());
    assert_eq!(
        iso_submit_result(-99, 0x06, 16, 1728).unwrap_err().message(),
        "usb transport: iso submit failed (libusb -99) ep 0x06 np=16 buf=1728"
    );
    assert!(submit_result(0).is_ok());
    assert_eq!(
        submit_result(-1).unwrap_err().message(),
        "usb transport: libusb_submit_transfer failed"
    );
    assert!(alloc_result(false).is_ok());
    assert_eq!(
        alloc_result(true).unwrap_err().message(),
        "usb transport: libusb_alloc_transfer failed"
    );
    assert!(may_free(false, false) && may_free(true, true) && !may_free(true, false));
}

#[test]
fn transfers_inside_their_buffers() {
    let d = |length: u32, actual_length: u32| PacketDesc { length, actual_length, status: 0 };
    assert!(fits_buffer(0, &[]));
    assert!(fits_buffer(13, &[d(10, 4), d(10, 3)]));
    assert!(!fits_buffer(12, &[d(10, 4), d(10, 3)]));
    assert!(!fits_buffer(12, &[d(1, 13), d(1, 0)]));
    assert!(fits_buffer(13, &[d(1, 13), d(u32::MAX, 12)]));
    assert!(length_fits(&[]) && length_fits(&[u32::MAX, u32::MAX]));
}
