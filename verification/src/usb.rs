//! What the USB controller reports.

use vstd::prelude::*;

verus! {

/// A report of the USB controller.
pub enum UsbEvent<'a> {
    /// Nothing happened.
    NoEvent,
    /// A host is there.
    Connected,
    /// The host is gone.
    Disconnected,
    /// The host sent these bytes.
    OutData(&'a [u8]),
}

} // verus!
