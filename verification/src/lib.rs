//! A verified CTAP-HID transport core for a virtual FIDO2 security key.
//!
//! The crate covers the coupled pieces of the transport engine: the
//! 64-byte packet framing and reassembly codec, the logical channel
//! registry with its allocation counter, the protocol engine that routes
//! complete messages and coordinates shutdown, and the routing of typed
//! kernel virtual-HID events on the device's read path.  The binary
//! around the library owns the character-device handle, its readiness
//! loop, and the kernel event envelope; every protocol decision is made
//! and proved here.

pub mod engine;
pub mod packet;
pub mod reassembly;
pub mod registry;
pub mod transport;
