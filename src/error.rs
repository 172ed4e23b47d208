use vstd::prelude::*;

verus! {

/// Broad class of a failure reported by the USB stack.
#[derive(Clone, Copy, Debug, PartialEq, Eq, Structural)]
pub enum UsbErrorKind {
    Disconnected,
    Busy,
    PermissionDenied,
    NotFound,
    Unsupported,
    Other,
}

/// A failure of the USB stack while opening, configuring or claiming.
#[derive(Clone, Copy, Debug, PartialEq, Eq, Structural)]
pub struct UsbFault {
    pub kind: UsbErrorKind,
    /// Operating-system error code, where the platform gave one.
    pub os_code: Option<u32>,
}

/// A transfer failure that the read loop cannot recover from.
#[derive(Clone, Copy, Debug, PartialEq, Eq, Structural)]
pub enum TransferFault {
    Disconnected,
    Fault,
    InvalidArgument,
    Unknown(u32),
}

/// Why the interrupt handler could not be installed.
#[derive(Clone, Copy, Debug, PartialEq, Eq, Structural)]
pub enum SignalFault {
    NoSuchSignal,
    MultipleHandlers,
    System,
}

/// Every way a run can end other than a clean cancellation.
#[derive(Clone, Copy, Debug, PartialEq, Eq, Structural)]
pub enum Error {
    Usb(UsbFault),
    Transfer(TransferFault),
    NoDevices,
    NoConfigurations,
    NoEndpoints,
    UserCancelled,
    UnsupportedTransferType,
    SignalHandler(SignalFault),
}

} // verus!
