//! The driver's error type.

use vstd::prelude::*;
use vstd::string::*;

use crate::text::{hex4, push_hex4};
use crate::{PID, VID};

verus! {

/// What libusb reports when an operation fails.
#[derive(Debug, Clone, Copy, PartialEq, Eq, Structural)]
pub enum UsbError {
    Io,
    InvalidParam,
    Access,
    NoDevice,
    NotFound,
    Busy,
    Timeout,
    Overflow,
    Pipe,
    Interrupted,
    NoMem,
    NotSupported,
    BadDescriptor,
    Other,
}

/// The text that `rusb` prints for an error.
pub open spec fn usb_error_text(e: UsbError) -> Seq<char> {
    match e {
        UsbError::Io => "Input/Output Error"@,
        UsbError::InvalidParam => "Invalid parameter"@,
        UsbError::Access => "Access denied (insufficient permissions)"@,
        UsbError::NoDevice => "No such device (it may have been disconnected)"@,
        UsbError::NotFound => "Entity not found"@,
        UsbError::Busy => "Resource busy"@,
        UsbError::Timeout => "Operation timed out"@,
        UsbError::Overflow => "Overflow"@,
        UsbError::Pipe => "Pipe error"@,
        UsbError::Interrupted => "System call interrupted (perhaps due to signal)"@,
        UsbError::NoMem => "Insufficient memory"@,
        UsbError::NotSupported => "Operation not supported or unimplemented on this platform"@,
        UsbError::BadDescriptor => "Malformed descriptor"@,
        UsbError::Other => "Other error"@,
    }
}

/// Prints an error as `rusb` does: calls `to_string` on the `rusb::Error` of the same name,
/// that is the `Display` of `rusb::Error`, which writes one fixed text per variant.
#[verifier::external_body]
fn usb_error_string(e: UsbError) -> (s: String)
    ensures
        s@ == usb_error_text(e),
{
    match e {
        UsbError::Io => rusb::Error::Io, UsbError::InvalidParam => rusb::Error::InvalidParam,
        UsbError::Access => rusb::Error::Access,
        UsbError::NoDevice => rusb::Error::NoDevice,
        UsbError::NotFound => rusb::Error::NotFound,
        UsbError::Busy => rusb::Error::Busy,
        UsbError::Timeout => rusb::Error::Timeout,
        UsbError::Overflow => rusb::Error::Overflow,
        UsbError::Pipe => rusb::Error::Pipe,
        UsbError::Interrupted => rusb::Error::Interrupted,
        UsbError::NoMem => rusb::Error::NoMem,
        UsbError::NotSupported => rusb::Error::NotSupported,
        UsbError::BadDescriptor => rusb::Error::BadDescriptor,
        UsbError::Other => rusb::Error::Other,
    }.to_string()
}

/// Driver-wide error type.
#[derive(Debug)]
pub enum Error {
    /// No SL 3 is attached.
    NoDevice,
    /// An interface could not be claimed.
    Access(UsbError),
    /// A USB operation failed.
    Io(UsbError),
    /// A transfer failed; used for what is not a libusb error.
    Transport(String),
    /// An argument is out of range.
    Param(String),
    /// The operation is not possible in this state.
    State(&'static str),
}

/// What an error says, as a mathematical value.
#[verifier::ext_equal]
pub enum ErrorView {
    NoDevice,
    Access(UsbError),
    Io(UsbError),
    Transport(Seq<char>),
    Param(Seq<char>),
    State(Seq<char>),
}

impl View for Error {
    type V = ErrorView;

    open spec fn view(&self) -> ErrorView {
        match *self {
            Error::NoDevice => ErrorView::NoDevice,
            Error::Access(e) => ErrorView::Access(e),
            Error::Io(e) => ErrorView::Io(e),
            Error::Transport(s) => ErrorView::Transport(s@),
            Error::Param(s) => ErrorView::Param(s@),
            Error::State(s) => ErrorView::State(s@),
        }
    }
}

/// `r` is an error that says `e`.
pub open spec fn fails<T>(r: Result<T, Error>, e: ErrorView) -> bool {
    r is Err && r->Err_0@ == e
}

/// The message of an error.
pub open spec fn error_message(e: ErrorView) -> Seq<char> {
    match e {
        ErrorView::NoDevice => "SL3 ("@ + hex4(VID) + ":"@ + hex4(PID) + ") not found"@,
        ErrorView::Access(u) => "claim/access: "@ + usb_error_text(u),
        ErrorView::Io(u) => "usb io: "@ + usb_error_text(u),
        ErrorView::Transport(s) => "usb transport: "@ + s,
        ErrorView::Param(s) => "bad parameter: "@ + s,
        ErrorView::State(s) => "invalid state: "@ + s,
    }
}

impl Error {
    /// The message to show for this error.
    pub fn message(&self) -> (s: String)
        ensures
            s@ == error_message(self@),
    {
        match self {
            Error::NoDevice => {
                let mut s: String = "SL3 (".to_string();
                push_hex4(&mut s, VID);
                s.append(":");
                push_hex4(&mut s, PID);
                s.append(") not found");
                s
            },
            Error::Access(e) => "claim/access: ".to_string().concat(usb_error_string(*e).as_str()),
            Error::Io(e) => "usb io: ".to_string().concat(usb_error_string(*e).as_str()),
            Error::Transport(t) => "usb transport: ".to_string().concat(t.as_str()),
            Error::Param(t) => "bad parameter: ".to_string().concat(t.as_str()),
            Error::State(t) => "invalid state: ".to_string().concat(t),
        }
    }
}

// ----------------------------------- laws -----------------------------------

/// A message says what kind of error it is, and then repeats what the error holds, whole.
pub proof fn law_messages(e: Error, s: String)
    requires
        call_ensures(Error::message, (&e,), s),
    ensures
        e is Transport ==> s@ == "usb transport: "@ + e->Transport_0@,
        e is Param ==> s@ == "bad parameter: "@ + e->Param_0@,
        e is State ==> s@ == "invalid state: "@ + e->State_0@,
        e is Access ==> s@ == "claim/access: "@ + usb_error_text(e->Access_0),
        e is Io ==> s@ == "usb io: "@ + usb_error_text(e->Io_0),
        e is NoDevice ==> s@ == "SL3 ("@ + hex4(0x1CC5) + ":"@ + hex4(1) + ") not found"@,
{
}

/// An error keeps what it was made of.
pub proof fn law_error_holds<T>(r: Result<T, Error>, text: Seq<char>, u: UsbError)
    ensures
        fails(r, ErrorView::Transport(text)) ==> r is Err && r->Err_0 is Transport
            && r->Err_0->Transport_0@ == text,
        fails(r, ErrorView::Param(text)) ==> r is Err && r->Err_0 is Param && r->Err_0->Param_0@
            == text,
        fails(r, ErrorView::State(text)) ==> r is Err && r->Err_0 is State && r->Err_0->State_0@
            == text,
        fails(r, ErrorView::Access(u)) ==> r is Err && r->Err_0 is Access && r->Err_0->Access_0 == u,
        fails(r, ErrorView::Io(u)) ==> r is Err && r->Err_0 is Io && r->Err_0->Io_0 == u,
        fails(r, ErrorView::NoDevice) ==> r is Err && r->Err_0 is NoDevice,
{
}

} // verus!
