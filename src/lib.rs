//! Selection model and read-loop engine for listening on a USB IN endpoint.
//!
//! The library holds the decisions: which devices, configurations and
//! endpoints are offered, in which order, what a claim has to do, and how
//! each outcome of a read moves the read loop. Talking to the USB stack is
//! left to the caller, which feeds the results back in as plain values.
use vstd::prelude::*;

pub mod error;
pub mod device;
pub mod endpoint;
pub mod claim;
pub mod read_loop;
pub mod selection;

pub use claim::{claim_plan, ClaimStep};
pub use error::{Error, SignalFault, TransferFault, UsbErrorKind, UsbFault};
pub use selection::{menu_choice, selection_index};
pub use read_loop::{classify_read, TransferStatus, Command, Event, LoopExit, LoopState, ReadLoop, ReadOutcome, BUFFER_SIZE, READ_TIMEOUT_MS};
pub use device::{device_catalog, sort_devices, DeviceDescriptor, DeviceEntry};
pub use endpoint::{configuration_catalog, endpoint_catalog, AltSetting, ConfigRecord, Endpoint, EndpointDescriptor, EndpointKind, TransferType};

verus! {

} // verus!
