use vstd::prelude::*;
use crate::reason_codes::ReasonMode;
use crate::vbi::{decode_vbi, lemma_vbi_decode_bound, lemma_vbi_round_trip, vbi_decode, vbi_encoding, write_vbi, VBI_MAX};

verus! {

pub const CONNECT_PACKET: u8 = 0x10;
pub const CONNACK_PACKET: u8 = 0x20;
pub const PUBLISH_PACKET: u8 = 0x30;
pub const PUBACK_PACKET: u8 = 0x40;
pub const SUBSCRIBE_PACKET: u8 = 0x82;
pub const SUBACK_PACKET: u8 = 0x90;
pub const UNSUBSCRIBE_PACKET: u8 = 0xA2;
pub const UNSUBACK_PACKET: u8 = 0xB0;
pub const PINGREQ_PACKET: u8 = 0xC0;
pub const PINGRESP_PACKET: u8 = 0xD0;
pub const DISCONNECT_PACKET: u8 = 0xE0;

/// The first bytes of every packet: the type-and-flags byte and the length
/// of what follows it.
#[derive(Clone, Copy, Debug, PartialEq, Eq, Structural)]
pub struct PacketFixedHeader {
    pub packet_type: u8,
    pub remaining_length: u32,
}

/// The type-and-flags byte of a PUBLISH: DUP in bit 3, the QoS in bits 1
/// and 2, RETAIN in bit 0.
pub open spec fn publish_flags(dup: u8, qos: u8, retain: u8) -> u8 {
    (0x30 + 8 * dup + 2 * qos + retain) as u8
}

/// The first byte of a PUBLISH with the given DUP, QoS and RETAIN.
pub fn create_publish_header_flags(dup_flag: u8, qos_level: u8, retain: u8) -> (r: u8)
    requires
        dup_flag <= 1,
        qos_level <= 2,
        retain <= 1,
    ensures
        r == publish_flags(dup_flag, qos_level, retain),
{
    let mut type_and_flags: u8 = PUBLISH_PACKET;
    assert(PUBLISH_PACKET | (dup_flag << 3u8) | (qos_level << 1u8) | retain == (0x30 + 8 * dup_flag
        + 2 * qos_level + retain) as u8) by (bit_vector)
        requires
            PUBLISH_PACKET == 0x30u8,
            dup_flag <= 1,
            qos_level <= 2,
            retain <= 1,
    ;
    type_and_flags = type_and_flags | (dup_flag << 3u8);
    type_and_flags = type_and_flags | (qos_level << 1u8);
    type_and_flags = type_and_flags | retain;
    type_and_flags
}

/// The bytes of a fixed header.
pub open spec fn header_bytes(packet_type: u8, remaining_length: nat) -> Seq<u8> {
    seq![packet_type] + vbi_encoding(remaining_length)
}

/// Reads a fixed header at the start of `s`: the type byte, the remaining
/// length and the number of bytes the header took.
pub open spec fn header_parse(s: Seq<u8>) -> Option<(u8, nat, nat)> {
    if s.len() == 0 {
        None
    } else {
        match vbi_decode(s.drop_first()) {
            Some((len, n)) => Some((s[0], len, n + 1)),
            None => None,
        }
    }
}

/// Reading the bytes of a fixed header gives it back, whatever follows it.
pub proof fn lemma_header_round_trip(packet_type: u8, remaining_length: nat, rest: Seq<u8>)
    requires
        remaining_length <= VBI_MAX,
    ensures
        header_parse(header_bytes(packet_type, remaining_length) + rest) == Some(
            (packet_type, remaining_length, header_bytes(packet_type, remaining_length).len()),
        ),
{
    let s = header_bytes(packet_type, remaining_length) + rest;
    assert(s.drop_first() =~= vbi_encoding(remaining_length) + rest);
    lemma_vbi_round_trip(remaining_length, rest);
}

impl PacketFixedHeader {
    pub fn new(packet_type: u8, remaining_length: u32) -> (r: Self)
        ensures
            r.packet_type == packet_type,
            r.remaining_length == remaining_length,
    {
        PacketFixedHeader { packet_type, remaining_length }
    }

    pub fn get_packet_type(&self) -> (r: u8)
        ensures
            r == self.packet_type,
    {
        self.packet_type
    }

    /// The header's bytes: the type byte, then the remaining length as a
    /// variable byte integer.
    pub fn as_bytes(&self) -> (r: Vec<u8>)
        requires
            self.remaining_length <= VBI_MAX,
        ensures
            r@ == header_bytes(self.packet_type, self.remaining_length as nat),
            r@.len() <= 5,
    {
        let mut out: Vec<u8> = Vec::new();
        out.push(self.packet_type);
        write_vbi(self.remaining_length, &mut out);
        out
    }

    /// Reads a fixed header at the start of `bytes`, and the position just
    /// after it; `MalformedPacket` where the bytes hold none.
    pub fn read_from(bytes: &[u8]) -> (r: Result<(PacketFixedHeader, usize), ReasonMode>)
        ensures
            match header_parse(bytes@) {
                Some((t, len, n)) => r == Ok::<(PacketFixedHeader, usize), ReasonMode>(
                    (PacketFixedHeader { packet_type: t, remaining_length: len as u32 }, n as usize),
                ) && len <= VBI_MAX && 2 <= n <= bytes@.len(),
                None => r == Err::<(PacketFixedHeader, usize), ReasonMode>(ReasonMode::MalformedPacket),
            },
    {
        if bytes.len() == 0 {
            return Err(ReasonMode::MalformedPacket);
        }
        let packet_type = bytes[0];
        proof {
            assert(bytes@.skip(1) =~= bytes@.drop_first());
            lemma_vbi_decode_bound(bytes@.drop_first());
        }
        match decode_vbi(bytes, 1) {
            Ok((remaining_length, next)) => Ok((PacketFixedHeader::new(packet_type, remaining_length), next)),
            Err(e) => Err(e),
        }
    }
}

} // verus!
