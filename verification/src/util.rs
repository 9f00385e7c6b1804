use vstd::prelude::*;

verus! {

/// USB vendor identifier of the supported steering-wheel peripherals.
pub const LOGITECH_VID: u16 = 1133;

/// Product identifier of the G29 wheel (the variant that enumerates several
/// logical interfaces; only interface 0 accepts LED reports).
pub const G29_PID: u16 = 49743;

/// Product identifier of the G27 wheel.
pub const G27_PID: u16 = 49819;

/// Product identifier of the G920 wheel.
pub const G920_PID: u16 = 49761;

/// Every failure the bridge can meet. All of them are recoverable at the
/// bridge loop: the loop logs, backs off and retries; none ends the process.
#[derive(Clone, Copy, Debug, PartialEq, Eq, Structural)]
pub enum RBR2G29Error {
    /// A received datagram does not have the packet's fixed length.
    MalformedPacket,
    /// A gear-map value failed to parse; the reload is aborted and the prior
    /// map kept.
    ConfigParseError,
    /// The simulator process is not running; discovery is retried.
    ProcessNotFound,
    /// Opening or writing the HID device failed; the outer loop reconnects.
    DeviceConnectionLost,
    /// Binding or receiving on the UDP socket failed; the outer loop retries.
    SocketError,
}

pub type RBR2G29Result = Result<(), RBR2G29Error>;

} // verus!
