//! Sending ICMP echo requests through a platform's native ICMP facility.
//!
//! The crate holds the logic of one echo exchange: parsing the dotted-decimal
//! destination address, accumulating the request's parameters, sizing the
//! reply buffer, and decoding the reply that the native facility writes into
//! it. The native calls themselves (loading the system library, resolving its
//! three entry points, and invoking them) happen outside this crate; the
//! session here decides each step and is handed each outcome as a plain value.

pub mod icmp;
pub mod ipv4;
