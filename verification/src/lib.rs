//! Core of a userland driver for the Rane SL 3 USB DJ audio interface.

use vstd::prelude::*;

pub mod api;
pub mod ctl;
pub mod daemon;
pub mod device;
pub mod error;
pub mod frame;
pub mod native_audio;
pub mod open;
pub mod pacing;
pub mod pipeline;
pub mod probe;
pub mod proto;
pub mod shm;
pub mod stream;
pub mod text;
pub mod transfer;
pub mod wav;
pub mod web;

pub use device::Device;
pub use error::{Error, UsbError};
pub use frame::IsoPacket;

verus! {

/// USB vendor id of the SL 3.
pub const VID: u16 = 0x1CC5;

/// USB product id of the SL 3.
pub const PID: u16 = 0x0001;

/// Audio channels in each direction: three stereo decks.
pub const CHANNELS: usize = 6;

/// Bytes of one 24-bit sample on the wire.
pub const BYTES_PER_SAMP: usize = 3;

/// Bytes of one frame, a sample for every channel.
pub const FRAME_BYTES: usize = 18;

/// Interface of the playback stream.
pub const IF_PLAYBACK: u8 = 1;

/// Interface of the capture stream.
pub const IF_CAPTURE: u8 = 2;

/// Interface of the control channel.
pub const IF_HID: u8 = 3;

/// Isochronous OUT endpoint.
pub const EP_PLAYBACK: u8 = 0x06;

/// Isochronous IN endpoint.
pub const EP_CAPTURE: u8 = 0x82;

/// Interrupt IN endpoint of the control channel.
pub const EP_HID_IN: u8 = 0x81;

/// Interrupt OUT endpoint of the control channel.
pub const EP_HID_OUT: u8 = 0x01;

/// Bytes of one report on the control channel.
pub const HID_REPORT_LEN: usize = 64;

/// Bytes of the audio-controls register file.
pub const AUDIO_CTRL_BYTES: usize = 22;

/// Isochronous packets per second and direction: one in every microframe.
pub const PACKETS_PER_SEC: u32 = 8000;

/// Largest packet that an isochronous endpoint takes, in bytes.
pub const PKT_LEN: usize = 126;

/// Packets in one isochronous transfer.
pub const ISO_PKTS: usize = 16;

} // verus!
