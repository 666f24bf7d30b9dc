use sl3::{Error, UsbError};

#[test]
fn usb_error_texts() {
    let texts = [
        (UsbError::Io, "Input/Output Error"),
        (UsbError::InvalidParam, "Invalid parameter"),
        (UsbError::Access, "Access denied (insufficient permissions)"),
        (UsbError::NoDevice, "No such device (it may have been disconnected)"),
        (UsbError::NotFound, "Entity not found"),
        (UsbError::Busy, "Resource busy"),
        (UsbError::Timeout, "Operation timed out"),
        (UsbError::Overflow, "Overflow"),
        (UsbError::Pipe, "Pipe error"),
        (UsbError::Interrupted, "System call interrupted (perhaps due to signal)"),
        (UsbError::NoMem, "Insufficient memory"),
        (
            UsbError::NotSupported,
            "Operation not supported or unimplemented on this platform",
        ),
        (UsbError::BadDescriptor, "Malformed descriptor"),
        (UsbError::Other, "Other error"),
    ];
    for (e, text) in texts {
        assert_eq!(Error::Io(e).message(), format!("usb io: {text}"));
        assert_eq!(Error::Access(e).message(), format!("claim/access: {text}"));
    }
}

#[test]
fn error_messages() {
    assert_eq!(Error::NoDevice.message(), "SL3 (1cc5:0001) not found");
    assert_eq!(Error::Transport("x".to_string()).message(), "usb transport: x");
    assert_eq!(Error::Param("y".to_string()).message(), "bad parameter: y");
    assert_eq!(Error::State("z").message(), "invalid state: z");
}
