//! A client for BACnet devices: the registry of connected devices and their outstanding
//! requests, the correlation of replies with requests, the decoding of application-tagged
//! values, and the planning of the reads that interrogate a device.
use vstd::prelude::*;

pub mod address;
pub mod value;
pub mod codec;
pub mod registry;
pub mod interrogation;
pub mod epics;
pub mod whois;
pub mod device;

pub use address::{Address, Dadr};
pub use device::{BACnetDevice, BACnetDeviceBuilder};
pub use epics::Epics;
pub use registry::{BACnetErr, ReadError, Registry};
pub use value::BACnetValue;

verus! {

/// An object type, by its number.
pub type ObjectType = u32;

/// A property, by its number.
pub type ObjectPropertyId = u32;

} // verus!
