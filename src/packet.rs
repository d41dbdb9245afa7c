use vstd::prelude::*;
use crate::acks::{connack_decode, disconnect_decode, puback_decode, Connack, Disconnect, PropsView, Puback};
use crate::properties::props_view;
use crate::connect::{connect_decode, Connect, ConnectView};
use crate::fixed_header::{header_parse, PacketFixedHeader, PINGREQ_PACKET, PINGRESP_PACKET};
use crate::pingreq::{PingReq, PingResp};
use crate::publish::{publish_decode, Publish, PublishView};
use crate::reason_codes::ReasonMode;
use crate::suback::{suback_decode, Suback};
use crate::subscribe::{requests_view, subscribe_decode, Subscribe};
use crate::vbi::vbi_decode;
use crate::unsubscribe::{filters_view, unsuback_decode, unsubscribe_decode, Unsuback, Unsubscribe};

verus! {

/// Any packet this library reads, one variant per kind.
#[derive(Debug)]
pub enum Packet {
    Connect(Connect),
    Connack(Connack),
    Publish(Publish),
    Puback(Puback),
    Subscribe(Subscribe),
    Suback(Suback),
    Unsubscribe(Unsubscribe),
    Unsuback(Unsuback),
    PingReq(PingReq),
    PingResp(PingResp),
    Disconnect(Disconnect),
}

/// The packet type, as the high nibble of the first byte carries it.
pub open spec fn kind_of_packet(p: Packet) -> u8 {
    match p {
        Packet::Connect(_) => 1,
        Packet::Connack(_) => 2,
        Packet::Publish(_) => 3,
        Packet::Puback(_) => 4,
        Packet::Subscribe(_) => 8,
        Packet::Suback(_) => 9,
        Packet::Unsubscribe(_) => 10,
        Packet::Unsuback(_) => 11,
        Packet::PingReq(_) => 12,
        Packet::PingResp(_) => 13,
        Packet::Disconnect(_) => 14,
    }
}

/// A PINGREQ or PINGRESP whose first byte is `t`: the fixed header alone.
pub open spec fn empty_decode(s: Seq<u8>, t: u8) -> Result<nat, ReasonMode> {
    match header_parse(s) {
        Some((t2, len, n)) => if t2 == t && len == 0 {
            Ok(n)
        } else {
            Err(ReasonMode::MalformedPacket)
        },
        None => Err(ReasonMode::MalformedPacket),
    }
}

/// How many bytes the packet at the start of `s` takes, or the error its
/// reading meets, by the decoder of the kind its first byte names. Type 0
/// is `MalformedPacket`; the QoS 2 exchanges and AUTH, not supported here,
/// are `ProtocolError`.
pub open spec fn packet_decode_len(s: Seq<u8>) -> Result<nat, ReasonMode> {
    if s.len() == 0 {
        Err(ReasonMode::MalformedPacket)
    } else {
        let k = s[0] / 16;
        if k == 1 {
            match connect_decode(s) {
                Ok(x) => Ok(x.1),
                Err(e) => Err(e),
            }
        } else if k == 2 {
            match connack_decode(s) {
                Ok(x) => Ok(x.3),
                Err(e) => Err(e),
            }
        } else if k == 3 {
            match publish_decode(s) {
                Ok(x) => Ok(x.1),
                Err(e) => Err(e),
            }
        } else if k == 4 {
            match puback_decode(s) {
                Ok(x) => Ok(x.3),
                Err(e) => Err(e),
            }
        } else if k == 8 {
            match subscribe_decode(s) {
                Ok(x) => Ok(x.3),
                Err(e) => Err(e),
            }
        } else if k == 9 {
            match suback_decode(s) {
                Ok(x) => Ok(x.3),
                Err(e) => Err(e),
            }
        } else if k == 10 {
            match unsubscribe_decode(s) {
                Ok(x) => Ok(x.3),
                Err(e) => Err(e),
            }
        } else if k == 11 {
            match unsuback_decode(s) {
                Ok(x) => Ok(x.3),
                Err(e) => Err(e),
            }
        } else if k == 12 {
            empty_decode(s, PINGREQ_PACKET)
        } else if k == 13 {
            empty_decode(s, PINGRESP_PACKET)
        } else if k == 14 {
            match disconnect_decode(s) {
                Ok(x) => Ok(x.2),
                Err(e) => Err(e),
            }
        } else if k == 0 {
            Err(ReasonMode::MalformedPacket)
        } else {
            Err(ReasonMode::ProtocolError)
        }
    }
}

/// A packet of a supported kind whose remaining length is not a readable
/// variable byte integer (cut short, or a fifth continuation byte) is
/// `MalformedPacket`.
pub proof fn lemma_bad_length_is_malformed(s: Seq<u8>)
    requires
        s.len() > 0,
        vbi_decode(s.drop_first()) is None,
        s[0] / 16 != 5 && s[0] / 16 != 6 && s[0] / 16 != 7 && s[0] / 16 != 15,
    ensures
        packet_decode_len(s) == Err::<nat, ReasonMode>(ReasonMode::MalformedPacket),
{
    assert(header_parse(s) is None);
}

fn read_empty(bytes: &[u8], t: u8) -> (r: Result<usize, ReasonMode>)
    ensures
        match empty_decode(bytes@, t) {
            Ok(n) => r matches Ok(m) && m == n,
            Err(e) => r == Err::<usize, ReasonMode>(e),
        },
{
    let total = bytes.len();
    match PacketFixedHeader::read_from(bytes) {
        Ok((h, n)) => if h.packet_type == t && h.remaining_length == 0 {
            assert(n <= total);
            Ok(n)
        } else {
            Err(ReasonMode::MalformedPacket)
        },
        Err(e) => Err(e),
    }
}

impl Packet {
    /// Reads the packet at the start of `bytes` with the decoder of its
    /// kind, and the number of bytes it took; the packet is what that
    /// decoder reads.
    pub fn read_from(bytes: &[u8]) -> (r: Result<(Packet, usize), ReasonMode>)
        ensures
            match packet_decode_len(bytes@) {
                Ok(n) => r matches Ok((p, m)) && m == n && kind_of_packet(p) == bytes@[0] / 16,
                Err(e) => r == Err::<(Packet, usize), ReasonMode>(e),
            },
            r matches Ok((Packet::Connect(c), m)) ==> connect_decode(bytes@) == Ok::<(ConnectView, nat), ReasonMode>(
                (c@, m as nat),
            ),
            r matches Ok((Packet::Connack(c), m)) ==> connack_decode(bytes@) == Ok::<
                (bool, ReasonMode, PropsView, nat),
                ReasonMode,
            >((c.session_present, c.reason, props_view(c.properties@), m as nat)),
            r matches Ok((Packet::Publish(p), m)) ==> publish_decode(bytes@) == Ok::<(PublishView, nat), ReasonMode>(
                (p@, m as nat),
            ),
            r matches Ok((Packet::Puback(p), m)) ==> puback_decode(bytes@) == Ok::<
                (u16, ReasonMode, PropsView, nat),
                ReasonMode,
            >((p.packet_id, p.reason, props_view(p.properties@), m as nat)),
            r matches Ok((Packet::Subscribe(p), m)) ==> subscribe_decode(bytes@) == Ok::<
                (u16, PropsView, Seq<(Seq<u8>, u8)>, nat),
                ReasonMode,
            >((p.packet_id, props_view(p.properties@), requests_view(p.topics@), m as nat)),
            r matches Ok((Packet::Suback(p), m)) ==> suback_decode(bytes@) == Ok::<
                (u16, PropsView, Seq<u8>, nat),
                ReasonMode,
            >((p.packet_id, props_view(p.properties@), p.reason_codes@, m as nat)),
            r matches Ok((Packet::Unsubscribe(p), m)) ==> unsubscribe_decode(bytes@) == Ok::<
                (u16, PropsView, Seq<Seq<u8>>, nat),
                ReasonMode,
            >((p.packet_id, props_view(p.properties@), filters_view(p.topic_filters@), m as nat)),
            r matches Ok((Packet::Unsuback(p), m)) ==> unsuback_decode(bytes@) == Ok::<
                (u16, PropsView, Seq<u8>, nat),
                ReasonMode,
            >((p.packet_id, props_view(p.properties@), p.reason_codes@, m as nat)),
            r matches Ok((Packet::Disconnect(d), m)) ==> disconnect_decode(bytes@) == Ok::<
                (ReasonMode, PropsView, nat),
                ReasonMode,
            >((d.reason, props_view(d.properties@), m as nat)),
    {
        if bytes.len() == 0 {
            return Err(ReasonMode::MalformedPacket);
        }
        let k = bytes[0] / 16;
        if k == 1 {
            match Connect::read_from(bytes) {
                Ok((c, n)) => Ok((Packet::Connect(c), n)),
                Err(e) => Err(e),
            }
        } else if k == 2 {
            match Connack::read_from(bytes) {
                Ok((c, n)) => Ok((Packet::Connack(c), n)),
                Err(e) => Err(e),
            }
        } else if k == 3 {
            match Publish::read_from(bytes) {
                Ok((p, n)) => Ok((Packet::Publish(p), n)),
                Err(e) => Err(e),
            }
        } else if k == 4 {
            match Puback::read_from(bytes) {
                Ok((p, n)) => Ok((Packet::Puback(p), n)),
                Err(e) => Err(e),
            }
        } else if k == 8 {
            match Subscribe::read_from(bytes) {
                Ok((p, n)) => Ok((Packet::Subscribe(p), n)),
                Err(e) => Err(e),
            }
        } else if k == 9 {
            match Suback::read_from(bytes) {
                Ok((p, n)) => Ok((Packet::Suback(p), n)),
                Err(e) => Err(e),
            }
        } else if k == 10 {
            match Unsubscribe::read_from(bytes) {
                Ok((p, n)) => Ok((Packet::Unsubscribe(p), n)),
                Err(e) => Err(e),
            }
        } else if k == 11 {
            match Unsuback::read_from(bytes) {
                Ok((p, n)) => Ok((Packet::Unsuback(p), n)),
                Err(e) => Err(e),
            }
        } else if k == 12 {
            match read_empty(bytes, PINGREQ_PACKET) {
                Ok(n) => Ok((Packet::PingReq(PingReq::new()), n)),
                Err(e) => Err(e),
            }
        } else if k == 13 {
            match read_empty(bytes, PINGRESP_PACKET) {
                Ok(n) => Ok((Packet::PingResp(PingResp::new()), n)),
                Err(e) => Err(e),
            }
        } else if k == 14 {
            match Disconnect::read_from(bytes) {
                Ok((p, n)) => Ok((Packet::Disconnect(p), n)),
                Err(e) => Err(e),
            }
        } else if k == 0 {
            Err(ReasonMode::MalformedPacket)
        } else {
            Err(ReasonMode::ProtocolError)
        }
    }
}

} // verus!
