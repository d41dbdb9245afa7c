use vstd::prelude::*;
use crate::bytes::{append_bytes, copy_range};
use crate::fixed_header::{
    header_bytes, header_parse, lemma_header_round_trip, publish_flags, PacketFixedHeader,
};
use crate::reason_codes::ReasonMode;
use crate::acks::{props_writable, PropsView};
use crate::properties::{
    decode_property_block, lemma_property_block_round_trip, property_block_bytes,
    property_block_decode, props_view, write_property_block, Property,
};
use crate::vbi::VBI_MAX;

verus! {

/// A PUBLISH packet. `packet_id` is carried on the wire only when `qos` is 1.
#[derive(Debug)]
pub struct Publish {
    pub topic: Vec<u8>,
    pub packet_id: u16,
    pub properties: Vec<Property>,
    pub payload: Vec<u8>,
    pub qos: u8,
    pub retain: bool,
    pub dup: bool,
}

pub struct PublishView {
    pub topic: Seq<u8>,
    pub packet_id: u16,
    pub properties: PropsView,
    pub payload: Seq<u8>,
    pub qos: u8,
    pub retain: bool,
    pub dup: bool,
}

impl View for Publish {
    type V = PublishView;

    open spec fn view(&self) -> PublishView {
        PublishView {
            topic: self.topic@,
            packet_id: self.packet_id,
            properties: props_view(self.properties@),
            payload: self.payload@,
            qos: self.qos,
            retain: self.retain,
            dup: self.dup,
        }
    }
}

pub open spec fn bit(b: bool) -> u8 {
    if b {
        1
    } else {
        0
    }
}

/// A two-byte big-endian integer.
pub open spec fn be16(hi: u8, lo: u8) -> int {
    hi as int * 256 + lo as int
}

pub open spec fn u16_bytes(v: u16) -> Seq<u8> {
    seq![(v / 256) as u8, (v % 256) as u8]
}

/// What can be put on the wire: a topic whose length fits in two bytes, QoS
/// 0 or 1, a packet identifier that is non-zero exactly under QoS 1,
/// properties that read back as written, and a body whose length a
/// variable byte integer can hold.
pub open spec fn encodable(p: PublishView) -> bool {
    &&& p.topic.len() <= 65535
    &&& p.qos <= 1
    &&& p.qos == 1 ==> p.packet_id != 0
    &&& p.qos == 0 ==> p.packet_id == 0
    &&& props_writable(p.properties)
    &&& publish_body(p).len() <= VBI_MAX
}

/// The part of the variable header before the properties: the topic, then
/// the packet identifier under QoS 1.
pub open spec fn publish_head(p: PublishView) -> Seq<u8> {
    u16_bytes(p.topic.len() as u16) + p.topic + (if p.qos > 0 {
        u16_bytes(p.packet_id)
    } else {
        Seq::<u8>::empty()
    })
}

/// The variable header and payload: topic, packet identifier under QoS 1,
/// the property block, the payload.
pub open spec fn publish_body(p: PublishView) -> Seq<u8> {
    publish_head(p) + property_block_bytes(p.properties) + p.payload
}

pub open spec fn publish_bytes(p: PublishView) -> Seq<u8> {
    header_bytes(publish_flags(bit(p.dup), p.qos, bit(p.retain)), publish_body(p).len())
        + publish_body(p)
}

/// Reads the body of a PUBLISH whose low header nibble is `flags`. A QoS of
/// 3 is malformed and one of 2 is not supported; a topic or packet
/// identifier cut short or a zero packet identifier under QoS 1 is
/// malformed; the property block brings its own errors; the payload is
/// what follows it.
pub open spec fn publish_body_decode(flags: u8, b: Seq<u8>) -> Result<PublishView, ReasonMode> {
    let qos = (flags / 2) % 4;
    if qos == 3 {
        Err(ReasonMode::MalformedPacket)
    } else if qos == 2 {
        Err(ReasonMode::QoSNotSupported)
    } else if b.len() < 2 {
        Err(ReasonMode::MalformedPacket)
    } else {
        let tl: int = be16(b[0], b[1]);
        let p: int = 2 + tl + (if qos > 0 {
            2int
        } else {
            0int
        });
        if p > b.len() {
            Err(ReasonMode::MalformedPacket)
        } else if qos > 0 && be16(b[2 + tl], b[3 + tl]) == 0 {
            Err(ReasonMode::MalformedPacket)
        } else {
            match property_block_decode(b, p) {
                Err(e) => Err(e),
                Ok((ps, next)) => Ok(
                    PublishView {
                        topic: b.subrange(2, 2 + tl),
                        packet_id: if qos > 0 {
                            be16(b[2 + tl], b[3 + tl]) as u16
                        } else {
                            0
                        },
                        properties: ps,
                        payload: b.subrange(next as int, b.len() as int),
                        qos: qos as u8,
                        retain: flags % 2 == 1,
                        dup: (flags / 8) % 2 == 1,
                    },
                ),
            }
        }
    }
}

/// Reads a whole PUBLISH at the start of `s`: the packet and the number of
/// bytes it took.
pub open spec fn publish_decode(s: Seq<u8>) -> Result<(PublishView, nat), ReasonMode> {
    match header_parse(s) {
        None => Err(ReasonMode::MalformedPacket),
        Some((t, len, n)) => if t / 16 != 3 || n + len > s.len() {
            Err(ReasonMode::MalformedPacket)
        } else {
            match publish_body_decode(t % 16, s.subrange(n as int, (n + len) as int)) {
                Ok(v) => Ok((v, n + len)),
                Err(e) => Err(e),
            }
        },
    }
}

proof fn lemma_publish_body_round_trip(p: PublishView)
    requires
        encodable(p),
    ensures
        publish_body_decode((8 * bit(p.dup) + 2 * p.qos + bit(p.retain)) as u8, publish_body(p)) == Ok::<
            PublishView,
            ReasonMode,
        >(p),
{
    let flags = (8 * bit(p.dup) + 2 * p.qos + bit(p.retain)) as u8;
    assert((flags / 2) % 4 == p.qos);
    assert(flags % 2 == bit(p.retain));
    assert((flags / 8) % 2 == bit(p.dup));
    let body = publish_body(p);
    let tl: int = p.topic.len() as int;
    let head = publish_head(p);
    assert(body =~= head + property_block_bytes(p.properties) + p.payload);
    assert(be16(body[0], body[1]) == tl);
    assert(body.subrange(2, 2 + tl) =~= p.topic);
    if p.qos > 0 {
        assert(be16(body[2 + tl], body[3 + tl]) == p.packet_id);
    }
    lemma_property_block_round_trip(head, p.properties, p.payload);
    let next = head.len() + property_block_bytes(p.properties).len();
    assert(body.subrange(next as int, body.len() as int) =~= p.payload);
}

/// Decoding the bytes of a PUBLISH gives it back, whatever follows them.
pub proof fn lemma_publish_round_trip(p: PublishView, rest: Seq<u8>)
    requires
        encodable(p),
    ensures
        publish_decode(publish_bytes(p) + rest) == Ok::<(PublishView, nat), ReasonMode>(
            (p, publish_bytes(p).len()),
        ),
{
    let body = publish_body(p);
    let t = publish_flags(bit(p.dup), p.qos, bit(p.retain));
    let h = header_bytes(t, body.len());
    let s = publish_bytes(p) + rest;
    assert(s =~= h + (body + rest));
    lemma_header_round_trip(t, body.len(), body + rest);
    let n = h.len();
    assert(header_parse(s) == Some((t, body.len(), n)));
    assert(s.subrange(n as int, (n + body.len()) as int) =~= body);
    assert(t / 16 == 3 && t % 16 == 8 * bit(p.dup) + 2 * p.qos + bit(p.retain));
    lemma_publish_body_round_trip(p);
}

fn write_u16(v: u16, out: &mut Vec<u8>)
    ensures
        final(out)@ == old(out)@ + u16_bytes(v),
{
    out.push((v / 256) as u8);
    out.push((v % 256) as u8);
    assert(final(out)@ =~= old(out)@ + u16_bytes(v));
}

impl Publish {
    /// Appends the bytes of this packet to `out`.
    pub fn write_to(&self, out: &mut Vec<u8>)
        requires
            encodable(self@),
        ensures
            final(out)@ == old(out)@ + publish_bytes(self@),
    {
        let mut body: Vec<u8> = Vec::new();
        write_u16(self.topic.len() as u16, &mut body);
        append_bytes(&mut body, self.topic.as_slice());
        if self.qos > 0 {
            write_u16(self.packet_id, &mut body);
        }
        write_property_block(&self.properties, &mut body);
        append_bytes(&mut body, self.payload.as_slice());
        assert(body@ =~= publish_body(self@));
        let flags: u8 = 0x30 + 8 * (if self.dup { 1u8 } else { 0u8 }) + 2 * self.qos + (if self.retain {
            1u8
        } else {
            0u8
        });
        let header = PacketFixedHeader::new(flags, body.len() as u32);
        let hb = header.as_bytes();
        append_bytes(out, hb.as_slice());
        append_bytes(out, body.as_slice());
        assert(final(out)@ =~= old(out)@ + publish_bytes(self@));
    }

    /// Reads a PUBLISH at the start of `bytes`, and the number of bytes it
    /// took.
    pub fn read_from(bytes: &[u8]) -> (r: Result<(Publish, usize), ReasonMode>)
        ensures
            match publish_decode(bytes@) {
                Ok((v, n)) => r matches Ok((p, m)) && p@ == v && m == n,
                Err(e) => r == Err::<(Publish, usize), ReasonMode>(e),
            },
    {
        let (header, n) = match PacketFixedHeader::read_from(bytes) {
            Ok(h) => h,
            Err(e) => return Err(e),
        };
        let t = header.packet_type;
        let len = header.remaining_length as usize;
        if t / 16 != 3 || len > bytes.len() - n {
            return Err(ReasonMode::MalformedPacket);
        }
        let end = n + len;
        let body = copy_range(bytes, n, end);
        let b = body.as_slice();
        let flags = t % 16;
        let qos = (flags / 2) % 4;
        if qos == 3 {
            return Err(ReasonMode::MalformedPacket);
        }
        if qos == 2 {
            return Err(ReasonMode::QoSNotSupported);
        }
        if len < 2 {
            return Err(ReasonMode::MalformedPacket);
        }
        let tl = b[0] as usize * 256 + b[1] as usize;
        let p = if qos > 0 {
            2 + tl + 2
        } else {
            2 + tl
        };
        if p > len {
            return Err(ReasonMode::MalformedPacket);
        }
        let mut packet_id: u16 = 0;
        if qos > 0 {
            packet_id = b[2 + tl] as u16 * 256 + b[3 + tl] as u16;
            if packet_id == 0 {
                return Err(ReasonMode::MalformedPacket);
            }
        }
        let (properties, next) = match decode_property_block(b, p) {
            Ok(x) => x,
            Err(e) => return Err(e),
        };
        let topic = copy_range(b, 2, 2 + tl);
        let payload = copy_range(b, next, len);
        let publish = Publish {
            topic,
            packet_id,
            properties,
            payload,
            qos,
            retain: flags % 2 == 1,
            dup: (flags / 8) % 2 == 1,
        };
        Ok((publish, end))
    }
}

} // verus!
