//! Bridges a remote hardware-wallet emulator to a virtual USB HID device.
//!
//! The verified core is the HID transport framing (`framing`), the
//! request/response wire format of the emulator endpoint (`bridge`) and the
//! decisions of the loop that drives the device (`driver`).
pub mod bridge;
pub mod driver;
pub mod framing;
