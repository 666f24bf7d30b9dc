# sl3

Core of a userland driver for the Rane SL 3 USB DJ audio interface, written and verified
in Verus. The device streams six channels of 24-bit audio in each direction over
isochronous endpoints, and is controlled by 64-byte reports on a pair of interrupt
endpoints.

## The library, `src/`

Every function is verified against its contract. Nothing here does I/O: the library
decides, and whoever owns the USB transport performs.

| module | what it holds |
|--------|---------------|
| `proto` | reports of the control channel: building requests, reading replies |
| `device` | a handle and its control operations, as steps of an exchange |
| `open` | which interfaces a handle claims, and how a device is opened |
| `frame` | 24-bit samples, frames and packets |
| `pacing` | frames per packet at the nominal rate, without drift |
| `stream` | building OUT transfers, implicit feedback |
| `pipeline` | the capture, playback and full-duplex loops as state machines |
| `native_audio` | full-duplex streaming from a fixed pool of transfers |
| `transfer` | what a completed USB transfer amounts to |
| `shm`, `daemon` | the shared-memory rings, and the daemon that bridges them to the device |
| `api` | the decisions behind the C API |
| `ctl`, `probe`, `wav`, `web` | command line, descriptor dump, recording, browser arrays |
| `error`, `text` | the error type; numbers as text |

A callback takes its own state as its first argument, and is handed that state from call to
call. So a contract says which calls were made, in which order, and that there were no
others. What a function requires of its arguments and a caller outside the library cannot
prove, a function of the library tests: those named `is_*`, `fits_*` and `length_fits`.

What the library promises beyond single functions is stated as proof functions whose names
begin with `law_`: samples and transfers survive a round trip, pacing never drifts, playback
uses the frame counts of capture in order and each at most once, a stopping stream drains,
nothing is freed while libusb holds it, a segment is initialised once, the cursors of the
rings never underflow.

Trusted, that is believed without proof, are four constants of `libusb1-sys` (in
`transfer`) and the error texts of `rusb` (in `error`).

## Around it, `app/`

The transports (libusb, WebUSB), the event loops, the shared memory itself, the C exports,
the JavaScript class and the tools. Conversions between samples and floats are there too.
