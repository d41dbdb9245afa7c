use vstd::prelude::*;
use crate::fixed_header::{PacketFixedHeader, PINGREQ_PACKET, PINGRESP_PACKET};
use crate::reason_codes::ReasonMode;
use crate::bytes::append_bytes;

verus! {

/// A PINGREQ packet: a fixed header with nothing after it.
#[derive(Debug)]
pub struct PingReq {}

/// A PINGRESP packet: a fixed header with nothing after it.
#[derive(Debug)]
pub struct PingResp {}

impl PingReq {
    pub fn new() -> (r: Self) {
        PingReq {}
    }

    /// A PINGREQ with the given remaining length: any but 0 is
    /// `MalformedPacket`.
    pub fn read_from(remaining_length: u32) -> (r: Result<PingReq, ReasonMode>)
        ensures
            r is Ok <==> remaining_length == 0,
            remaining_length != 0 ==> r == Err::<PingReq, ReasonMode>(ReasonMode::MalformedPacket),
    {
        if remaining_length != 0 {
            return Err(ReasonMode::MalformedPacket);
        }
        Ok(PingReq::new())
    }

    /// Appends the two bytes of a PINGREQ to `out`.
    pub fn write_to(&self, out: &mut Vec<u8>)
        ensures
            final(out)@ == old(out)@ + seq![PINGREQ_PACKET, 0u8],
    {
        let header = PacketFixedHeader::new(PINGREQ_PACKET, 0);
        let bytes = header.as_bytes();
        append_bytes(out, bytes.as_slice());
        assert(bytes@ =~= seq![PINGREQ_PACKET, 0u8]);
    }
}

impl PingResp {
    pub fn new() -> (r: Self) {
        PingResp {}
    }

    /// A PINGRESP with the given remaining length: any but 0 is
    /// `MalformedPacket`.
    pub fn read_from(remaining_length: u32) -> (r: Result<PingResp, ReasonMode>)
        ensures
            r is Ok <==> remaining_length == 0,
            remaining_length != 0 ==> r == Err::<PingResp, ReasonMode>(ReasonMode::MalformedPacket),
    {
        if remaining_length != 0 {
            return Err(ReasonMode::MalformedPacket);
        }
        Ok(PingResp::new())
    }

    /// Appends the two bytes of a PINGRESP to `out`.
    pub fn write_to(&self, out: &mut Vec<u8>)
        ensures
            final(out)@ == old(out)@ + seq![PINGRESP_PACKET, 0u8],
    {
        let header = PacketFixedHeader::new(PINGRESP_PACKET, 0);
        let bytes = header.as_bytes();
        append_bytes(out, bytes.as_slice());
        assert(bytes@ =~= seq![PINGRESP_PACKET, 0u8]);
    }
}

} // verus!
