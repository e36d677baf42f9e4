//! Routing of kernel virtual-HID events on the device's read path.
//!
//! The surrounding process owns the character-device handle and its
//! readiness loop; it parses each fixed-size kernel event into a
//! [`TransportEvent`] and asks [`route_event`] what the engine must do
//! with it.  Only host-sent output reports of exactly the CTAP-HID report
//! size reach the engine; feature-report requests are answered inline;
//! every other event on this path is a protocol violation.

use vstd::prelude::*;
use crate::packet::PACKET_SIZE;

verus! {

/// A typed kernel virtual-HID event, as seen on the device's read path.
pub enum TransportEvent {
    /// A host-sent HID output report: the bytes bound for the engine.
    Output { data: Vec<u8> },
    /// A feature-report read request from the host.
    GetReport { id: u32 },
    /// A feature-report write request from the host.
    SetReport { id: u32, data: Vec<u8> },
    /// The kernel started the device.
    Started,
    /// The kernel stopped the device.
    Stopped,
    /// A reader opened the device.
    Opened,
    /// The last reader closed the device.
    Closed,
}

/// What the engine's loop must do with one kernel event.
pub enum EventDisposition {
    /// Feed this 64-byte report to the protocol engine.
    Report(Vec<u8>),
    /// Answer the feature-report read request with the given id.
    AnswerGetReport { id: u32 },
    /// Acknowledge the feature-report write request with the given id.
    AnswerSetReport { id: u32 },
    /// A protocol violation on the read path: fatal for the device.
    Violation,
}

/// Decides what one kernel event means for the engine: an output report of
/// exactly the CTAP-HID report size is handed on unchanged, feature-report
/// requests are answered inline, and anything else on the read path is a
/// protocol violation.
pub fn route_event(ev: TransportEvent) -> (d: EventDisposition)
    ensures
        ev matches TransportEvent::Output { data } ==> {
            if data@.len() == PACKET_SIZE {
                d matches EventDisposition::Report(r) && r@ == data@
            } else {
                d is Violation
            }
        },
        ev matches TransportEvent::GetReport { id } ==> d == (EventDisposition::AnswerGetReport {
            id,
        }),
        ev matches TransportEvent::SetReport { id, .. } ==> d
            == (EventDisposition::AnswerSetReport { id }),
        ev is Started || ev is Stopped || ev is Opened || ev is Closed ==> d is Violation,
{
    match ev {
        TransportEvent::Output { data } => {
            if data.len() == PACKET_SIZE {
                EventDisposition::Report(data)
            } else {
                EventDisposition::Violation
            }
        },
        TransportEvent::GetReport { id } => EventDisposition::AnswerGetReport { id },
        TransportEvent::SetReport { id, .. } => EventDisposition::AnswerSetReport { id },
        TransportEvent::Started => EventDisposition::Violation,
        TransportEvent::Stopped => EventDisposition::Violation,
        TransportEvent::Opened => EventDisposition::Violation,
        TransportEvent::Closed => EventDisposition::Violation,
    }
}

} // verus!
