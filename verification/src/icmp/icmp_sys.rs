//! The byte layout of the native ICMP facility's structures.
//!
//! The native send call fills a caller-supplied buffer: first a fixed-size
//! reply header, then an eight-byte vendor-reserved gap, then the echoed
//! payload. The header's own fields are little-endian, and its data pointer
//! (an eight-byte placeholder here) is only valid while the native call's
//! buffer lives, which is why the payload is always copied out.

use crate::ipv4::Addr;
use vstd::prelude::*;

verus! {

/// Byte offset of the reply header's address field.
pub const OFF_ADDRESS: usize = 0;

/// Byte offset of the reply header's status field.
pub const OFF_STATUS: usize = 4;

/// Byte offset of the reply header's round-trip-time field.
pub const OFF_RTT: usize = 8;

/// Byte offset of the reply header's payload-length field.
pub const OFF_DATA_SIZE: usize = 12;

/// Byte offset of the reply header's reserved field.
pub const OFF_RESERVED: usize = 14;

/// Byte offset of the reply header's data pointer placeholder.
pub const OFF_DATA_PTR: usize = 16;

/// Byte offset of the options block embedded in the reply header.
pub const OFF_OPTIONS: usize = 24;

/// Size of the native reply header in bytes, placeholder included.
pub const HEADER_SIZE: usize = 32;

/// The vendor-reserved gap between the header and the echoed payload.
pub const REPLY_GAP: usize = 8;

/// The options block a request carries: hop limit, type of service, flags,
/// and a descriptor for extra IP options (none are ever sent here, so the
/// size and pointer stay zero).
#[derive(Debug, Clone, Copy, PartialEq, Eq, Structural)]
pub struct IpOptionInformation {
    pub ttl: u8,
    pub tos: u8,
    pub flags: u8,
    pub options_size: u8,
    pub options_data: u32,
}

/// The reply header the native facility writes at the start of the reply
/// buffer. The data pointer it carries at `OFF_DATA_PTR` is deliberately not
/// represented: it points into the buffer itself and dies with it.
#[derive(Debug, Clone, Copy)]
pub struct IcmpEchoReply {
    pub address: Addr,
    pub status: u32,
    pub rtt: u32,
    pub data_size: u16,
    pub reserved: u16,
    pub options: IpOptionInformation,
}

/// The 16-bit little-endian value stored at `off`.
pub open spec fn le16_at(b: Seq<u8>, off: int) -> u16 {
    (b[off] as int + b[off + 1] as int * 0x100) as u16
}

/// The 32-bit little-endian value stored at `off`.
pub open spec fn le32_at(b: Seq<u8>, off: int) -> u32 {
    (b[off] as int + b[off + 1] as int * 0x100 + b[off + 2] as int * 0x10000 + b[off + 3] as int
        * 0x1000000) as u32
}

/// The reply header that the first `HEADER_SIZE` bytes of `b` hold.
pub open spec fn header_spec(b: Seq<u8>) -> IcmpEchoReply {
    IcmpEchoReply {
        address: Addr([b[0], b[1], b[2], b[3]]),
        status: le32_at(b, OFF_STATUS as int),
        rtt: le32_at(b, OFF_RTT as int),
        data_size: le16_at(b, OFF_DATA_SIZE as int),
        reserved: le16_at(b, OFF_RESERVED as int),
        options: IpOptionInformation {
            ttl: b[OFF_OPTIONS as int],
            tos: b[OFF_OPTIONS as int + 1],
            flags: b[OFF_OPTIONS as int + 2],
            options_size: b[OFF_OPTIONS as int + 3],
            options_data: le32_at(b, OFF_OPTIONS as int + 4),
        },
    }
}

/// Read the 16-bit little-endian value at `off`.
fn read_le16(b: &[u8], off: usize) -> (r: u16)
    requires
        off + 2 <= b@.len(),
    ensures
        r == le16_at(b@, off as int),
{
    b[off] as u16 + b[off + 1] as u16 * 0x100
}

/// Read the 32-bit little-endian value at `off`.
fn read_le32(b: &[u8], off: usize) -> (r: u32)
    requires
        off + 4 <= b@.len(),
    ensures
        r == le32_at(b@, off as int),
{
    b[off] as u32 + b[off + 1] as u32 * 0x100 + b[off + 2] as u32 * 0x10000 + b[off + 3] as u32
        * 0x1000000
}

/// Reinterpret the first `HEADER_SIZE` bytes of `buf` as the reply header.
pub fn decode_header(buf: &[u8]) -> (h: IcmpEchoReply)
    requires
        buf@.len() >= HEADER_SIZE,
    ensures
        h == header_spec(buf@),
{
    let h = IcmpEchoReply {
        address: Addr([buf[0], buf[1], buf[2], buf[3]]),
        status: read_le32(buf, OFF_STATUS),
        rtt: read_le32(buf, OFF_RTT),
        data_size: read_le16(buf, OFF_DATA_SIZE),
        reserved: read_le16(buf, OFF_RESERVED),
        options: IpOptionInformation {
            ttl: buf[OFF_OPTIONS],
            tos: buf[OFF_OPTIONS + 1],
            flags: buf[OFF_OPTIONS + 2],
            options_size: buf[OFF_OPTIONS + 3],
            options_data: read_le32(buf, OFF_OPTIONS + 4),
        },
    };
    proof {
        broadcast use vstd::array::group_array_axioms;

        assert(h.address.0 =~= header_spec(buf@).address.0);
    }
    h
}

} // verus!
