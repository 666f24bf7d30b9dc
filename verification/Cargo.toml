[package]
name = "sl3"
version = "0.1.0"
edition = "2021"
publish = false

[dependencies]
rusb = { version = "0.9", features = ["vendored"] }
libusb1-sys = "0.7"
libc = "0.2"
futures = "0.3"
async-trait = "0.1"
pollster = "0.4"
wasm-bindgen = "0.2"
wasm-bindgen-futures = "0.4"
js-sys = "0.3"
web-sys = { version = "0.3", features = ["Navigator", "Usb", "UsbDevice", "UsbDeviceFilter", "UsbDeviceRequestOptions", "UsbInTransferResult", "UsbIsochronousInTransferPacket", "UsbIsochronousInTransferResult", "UsbIsochronousOutTransferResult", "UsbOutTransferResult", "UsbTransferStatus", "Window", "WorkerGlobalScope", "WorkerNavigator"] }
console_error_panic_hook = "0.1"
