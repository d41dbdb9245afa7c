use vstd::prelude::*;
use crate::acks::{props_writable, PropsView};
use crate::bytes::{append_bytes, copy_range};
use crate::fixed_header::{header_bytes, header_parse, lemma_header_round_trip, PacketFixedHeader, SUBACK_PACKET};
use crate::properties::{
    decode_property_block, lemma_property_block_round_trip, property_block_bytes,
    property_block_decode, props_view, write_property_block, Property,
};
use crate::publish::{be16, u16_bytes};
use crate::reason_codes::ReasonMode;
use crate::vbi::VBI_MAX;

verus! {

/// A SUBACK packet: the identifier of the SUBSCRIBE it answers, properties,
/// and one reason code per filter, in the order of the filters.
#[derive(Debug)]
pub struct Suback {
    pub packet_id: u16,
    pub properties: Vec<Property>,
    pub reason_codes: Vec<u8>,
}

/// Packet identifier, the property block, the reason codes.
pub open spec fn suback_body(packet_id: u16, ps: PropsView, codes: Seq<u8>) -> Seq<u8> {
    u16_bytes(packet_id) + property_block_bytes(ps) + codes
}

pub open spec fn suback_bytes(packet_id: u16, ps: PropsView, codes: Seq<u8>) -> Seq<u8> {
    header_bytes(SUBACK_PACKET, suback_body(packet_id, ps, codes).len()) + suback_body(packet_id, ps, codes)
}

/// Reads a whole SUBACK at the start of `s`: identifier, properties, reason
/// codes and the number of bytes taken. Another type byte or a body cut
/// short is `MalformedPacket`; the property block brings its own errors;
/// the reason codes fill the rest of the packet.
pub open spec fn suback_decode(s: Seq<u8>) -> Result<(u16, PropsView, Seq<u8>, nat), ReasonMode> {
    match header_parse(s) {
        None => Err(ReasonMode::MalformedPacket),
        Some((t, len, n)) => if t != SUBACK_PACKET || n + len > s.len() || len < 3 {
            Err(ReasonMode::MalformedPacket)
        } else {
            let w = s.subrange(0, (n + len) as int);
            match property_block_decode(w, n + 2int) {
                Err(e) => Err(e),
                Ok((ps, next)) => Ok(
                    (be16(s[n as int], s[n + 1int]) as u16, ps, w.subrange(next as int, w.len() as int), n + len),
                ),
            }
        },
    }
}

/// Decoding the bytes of a SUBACK gives it back, whatever follows them.
pub proof fn lemma_suback_round_trip(packet_id: u16, ps: PropsView, codes: Seq<u8>, rest: Seq<u8>)
    requires
        props_writable(ps),
        suback_body(packet_id, ps, codes).len() <= VBI_MAX,
    ensures
        suback_decode(suback_bytes(packet_id, ps, codes) + rest) == Ok::<(u16, PropsView, Seq<u8>, nat), ReasonMode>(
            (packet_id, ps, codes, suback_bytes(packet_id, ps, codes).len()),
        ),
{
    let body = suback_body(packet_id, ps, codes);
    let h = header_bytes(SUBACK_PACKET, body.len());
    let s = suback_bytes(packet_id, ps, codes) + rest;
    assert(s =~= h + (body + rest));
    lemma_header_round_trip(SUBACK_PACKET, body.len(), body + rest);
    let n = h.len();
    assert(s[n as int] == body[0] && s[n + 1int] == body[1]);
    let w = s.subrange(0, (n + body.len()) as int);
    let pre = h + u16_bytes(packet_id);
    assert(w =~= pre + property_block_bytes(ps) + codes);
    lemma_property_block_round_trip(pre, ps, codes);
    let next = pre.len() + property_block_bytes(ps).len();
    assert(w.subrange(next as int, w.len() as int) =~= codes);
}

impl Suback {
    /// A SUBACK without properties.
    pub fn new(packet_id: u16, reason_codes: Vec<u8>) -> (r: Self)
        ensures
            r.packet_id == packet_id,
            r.properties@.len() == 0,
            r.reason_codes@ == reason_codes@,
    {
        Suback { packet_id, properties: Vec::new(), reason_codes }
    }

    /// Appends the bytes of this packet to `out`.
    pub fn write_to(&self, out: &mut Vec<u8>)
        requires
            props_writable(props_view(self.properties@)),
            suback_body(self.packet_id, props_view(self.properties@), self.reason_codes@).len() <= VBI_MAX,
        ensures
            final(out)@ == old(out)@ + suback_bytes(self.packet_id, props_view(self.properties@), self.reason_codes@),
    {
        let ghost ps = props_view(self.properties@);
        let mut body: Vec<u8> = Vec::new();
        body.push((self.packet_id / 256) as u8);
        body.push((self.packet_id % 256) as u8);
        write_property_block(&self.properties, &mut body);
        append_bytes(&mut body, self.reason_codes.as_slice());
        assert(body@ =~= suback_body(self.packet_id, ps, self.reason_codes@));
        let header = PacketFixedHeader::new(SUBACK_PACKET, body.len() as u32);
        let hb = header.as_bytes();
        append_bytes(out, hb.as_slice());
        append_bytes(out, body.as_slice());
        assert(final(out)@ =~= old(out)@ + suback_bytes(self.packet_id, ps, self.reason_codes@));
    }

    /// Reads a SUBACK at the start of `bytes`, and the number of bytes it
    /// took.
    pub fn read_from(bytes: &[u8]) -> (r: Result<(Suback, usize), ReasonMode>)
        ensures
            match suback_decode(bytes@) {
                Ok((id, ps, codes, n)) => r matches Ok((s, m)) && s.packet_id == id && props_view(
                    s.properties@,
                ) == ps && s.reason_codes@ == codes && m == n,
                Err(e) => r == Err::<(Suback, usize), ReasonMode>(e),
            },
    {
        let (header, n) = match PacketFixedHeader::read_from(bytes) {
            Ok(h) => h,
            Err(e) => return Err(e),
        };
        let len = header.remaining_length as usize;
        if header.packet_type != SUBACK_PACKET || len > bytes.len() - n || len < 3 {
            return Err(ReasonMode::MalformedPacket);
        }
        let packet_id = bytes[n] as u16 * 256 + bytes[n + 1] as u16;
        let w = copy_range(bytes, 0, n + len);
        let (properties, next) = match decode_property_block(w.as_slice(), n + 2) {
            Ok(x) => x,
            Err(e) => return Err(e),
        };
        let reason_codes = copy_range(w.as_slice(), next, n + len);
        Ok((Suback { packet_id, properties, reason_codes }, n + len))
    }
}

} // verus!
