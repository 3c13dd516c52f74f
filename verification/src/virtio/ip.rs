//! An IPv4 header.

use vstd::prelude::*;

verus! {

/// The fields of an IPv4 header, in wire order.
#[derive(Clone, Copy, Debug, PartialEq, Eq)]
pub struct Ip {
    pub version_and_headlen: u8,
    pub server: u8,
    pub total_len: u16,
    pub sign: u16,
    pub sign_and_offset: u16,
    pub src_ip: u32,
    pub target_ip: u32,
}

impl Ip {
    /// The header the network test sends: version 5, header length 4, a
    /// total length of 20, identification 0x1ce3, and 192.198.0.121 as both
    /// source and target.
    pub fn new() -> (r: Self)
        ensures
            r == (Ip {
                version_and_headlen: 84,
                server: 0,
                total_len: 20,
                sign: 0x1ce3,
                sign_and_offset: 0,
                src_ip: 0xc0c6_0079,
                target_ip: 0xc0c6_0079,
            }),
    {
        assert(((5u8 << 4u8) | 4u8) == 84u8) by (bit_vector);
        assert(((192u32 << 24u32) | (198u32 << 16u32) | 121u32) == 0xc0c6_0079u32) by (bit_vector);
        Self {
            version_and_headlen: (5 << 4) | 4,
            server: 0,
            total_len: 20,
            sign: 0x1ce3,
            sign_and_offset: 0,
            src_ip: (192 << 24) | (198 << 16) | 121,
            target_ip: (192 << 24) | (198 << 16) | 121,
        }
    }
}

} // verus!
