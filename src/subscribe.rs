use vstd::prelude::*;
use crate::bytes::{append_bytes, copy_range};
use crate::fixed_header::{header_bytes, header_parse, lemma_header_round_trip, PacketFixedHeader, SUBSCRIBE_PACKET};
use crate::properties::{
    decode_property_block, lemma_property_block_round_trip, parse_string, property_block_bytes, property_block_decode, props_view, string_bytes, write_property_block, Property, };
use crate::acks::{props_writable, PropsView};
use crate::publish::{be16, u16_bytes};
use crate::reason_codes::ReasonMode;
use crate::vbi::VBI_MAX;

verus! {

/// One topic filter of a SUBSCRIBE with its options.
#[derive(Debug)]
pub struct TopicRequest {
    pub topic_filter: Vec<u8>,
    pub max_qos: u8,
    pub no_local: bool,
    pub retain_as_published: bool,
    pub retain_handling: u8,
}

/// A SUBSCRIBE packet.
#[derive(Debug)]
pub struct Subscribe {
    pub packet_id: u16,
    pub properties: Vec<Property>,
    pub topics: Vec<TopicRequest>,
}

/// The options byte: retain handling in bits 4-5, retain as published in
/// bit 3, no local in bit 2, the maximum QoS in bits 0-1.
pub open spec fn options_byte(t: TopicRequest) -> u8 {
    (16 * t.retain_handling + 8 * (if t.retain_as_published { 1u8 } else { 0u8 }) + 4 * (if t.no_local {
        1u8
    } else {
        0u8
    }) + t.max_qos) as u8
}

/// An options byte with its reserved bits clear, a QoS of 0 or 1 and a
/// retain handling of 0, 1 or 2.
pub open spec fn options_valid(o: u8) -> bool {
    o < 64 && o % 4 <= 1 && (o / 16) % 4 <= 2
}

pub open spec fn request_view(t: TopicRequest) -> (Seq<u8>, u8) {
    (t.topic_filter@, options_byte(t))
}

pub open spec fn requests_view(v: Seq<TopicRequest>) -> Seq<(Seq<u8>, u8)> {
    v.map_values(|t: TopicRequest| request_view(t))
}

/// The (filter, options) pairs held by `s`, in order. A filter cut short,
/// a missing options byte or an invalid one is `MalformedPacket`.
pub open spec fn parse_requests(s: Seq<u8>) -> Result<Seq<(Seq<u8>, u8)>, ReasonMode>
    decreases s.len(),
{
    if s.len() == 0 {
        Ok(Seq::empty())
    } else {
        match parse_string(s) {
            None => Err(ReasonMode::MalformedPacket),
            Some((f, n)) => if n >= s.len() || !options_valid(s[n as int]) {
                Err(ReasonMode::MalformedPacket)
            } else {
                match parse_requests(s.skip(n + 1int)) {
                    Ok(rest) => Ok(seq![(f, s[n as int])] + rest),
                    Err(e) => Err(e),
                }
            },
        }
    }
}

/// Reads a whole SUBSCRIBE at the start of `s`: identifier, properties,
/// requests and the bytes taken. Another first byte, a body cut short or
/// a zero identifier is `MalformedPacket`; no request at all
/// `ProtocolError`.
pub open spec fn subscribe_decode(s: Seq<u8>) -> Result<(u16, PropsView, Seq<(Seq<u8>, u8)>, nat), ReasonMode> {
    match header_parse(s) {
        None => Err(ReasonMode::MalformedPacket),
        Some((t, len, n)) => if t != SUBSCRIBE_PACKET || n + len > s.len() || len < 2 || be16(
            s[n as int],
            s[n + 1int],
        ) == 0 {
            Err(ReasonMode::MalformedPacket)
        } else {
            let w = s.subrange(0, (n + len) as int);
            match property_block_decode(w, n + 2int) {
                Err(e) => Err(e),
                Ok((ps, next)) => match parse_requests(w.subrange(next as int, w.len() as int)) {
                    Err(e) => Err(e),
                    Ok(reqs) => if reqs.len() == 0 {
                        Err(ReasonMode::ProtocolError)
                    } else {
                        Ok((be16(s[n as int], s[n + 1int]) as u16, ps, reqs, n + len))
                    },
                },
            }
        },
    }
}

pub open spec fn requests_bytes(r: Seq<(Seq<u8>, u8)>) -> Seq<u8>
    decreases r.len(),
{
    if r.len() == 0 {
        Seq::empty()
    } else {
        string_bytes(r[0].0) + seq![r[0].1] + requests_bytes(r.drop_first())
    }
}

pub open spec fn subscribe_body(packet_id: u16, ps: PropsView, r: Seq<(Seq<u8>, u8)>) -> Seq<u8> {
    u16_bytes(packet_id) + property_block_bytes(ps) + requests_bytes(r)
}

pub open spec fn subscribe_bytes(packet_id: u16, ps: PropsView, r: Seq<(Seq<u8>, u8)>) -> Seq<u8> {
    header_bytes(SUBSCRIBE_PACKET, subscribe_body(packet_id, ps, r).len()) + subscribe_body(
        packet_id,
        ps,
        r,
    )
}

fn parse_topic_requests(w: &[u8], pos: usize) -> (r: Result<Vec<TopicRequest>, ReasonMode>)
    requires
        pos <= w@.len(),
    ensures
        match parse_requests(w@.subrange(pos as int, w@.len() as int)) {
            Ok(reqs) => r matches Ok(v) && requests_view(v@) == reqs,
            Err(e) => r == Err::<Vec<TopicRequest>, ReasonMode>(e),
        },
{
    let end = w.len();
    let ghost whole = w@.subrange(pos as int, end as int);
    let mut out: Vec<TopicRequest> = Vec::new();
    let mut i: usize = pos;
    proof {
        assert(requests_view(out@) + Seq::<(Seq<u8>, u8)>::empty() =~= requests_view(out@));
        assert(requests_view(out@) =~= Seq::<(Seq<u8>, u8)>::empty());
    }
    while i < end
        invariant
            pos <= i <= end,
            end == w@.len(),
            whole == w@.subrange(pos as int, end as int),
            parse_requests(whole) == match parse_requests(w@.subrange(i as int, end as int)) {
                Ok(rest) => Ok::<Seq<(Seq<u8>, u8)>, ReasonMode>(requests_view(out@) + rest),
                Err(e) => Err(e),
            },
        decreases end - i,
    {
        let ghost s = w@.subrange(i as int, end as int);
        if end - i < 2 {
            return Err(ReasonMode::MalformedPacket);
        }
        let l = w[i] as usize * 256 + w[i + 1] as usize;
        assert(l == be16(s[0], s[1]));
        if 2 + l > end - i {
            return Err(ReasonMode::MalformedPacket);
        }
        let filter = copy_range(w, i + 2, i + 2 + l);
        assert(filter@ =~= s.subrange(2, 2 + l as int));
        let n = 2 + l;
        if n >= end - i {
            return Err(ReasonMode::MalformedPacket);
        }
        let o = w[i + n];
        if !(o < 64 && o % 4 <= 1 && (o / 16) % 4 <= 2) {
            return Err(ReasonMode::MalformedPacket);
        }
        let t = TopicRequest {
            topic_filter: filter,
            max_qos: o % 4,
            no_local: (o / 4) % 2 == 1,
            retain_as_published: (o / 8) % 2 == 1,
            retain_handling: (o / 16) % 4,
        };
        assert(options_byte(t) == o);
        let ghost before = out@;
        proof {
            assert(s.skip(n + 1int) =~= w@.subrange((i + n + 1) as int, end as int));
            match parse_requests(w@.subrange((i + n + 1) as int, end as int)) {
                Ok(rest) => {
                    assert(requests_view(before) + (seq![(filter@, o)] + rest) =~= requests_view(
                        before.push(t),
                    ) + rest);
                },
                Err(e) => {},
            }
        }
        out.push(t);
        i = i + n + 1;
    }
    proof {
        assert(requests_view(out@) + Seq::<(Seq<u8>, u8)>::empty() =~= requests_view(out@));
    }
    Ok(out)
}

impl Subscribe {
    /// Reads a SUBSCRIBE at the start of `bytes`, and the number of bytes
    /// it took.
    pub fn read_from(bytes: &[u8]) -> (r: Result<(Subscribe, usize), ReasonMode>)
        ensures
            match subscribe_decode(bytes@) {
                Ok((id, ps, reqs, n)) => r matches Ok((p, m)) && p.packet_id == id && props_view(
                    p.properties@,
                ) == ps && requests_view(p.topics@) == reqs && m == n,
                Err(e) => r == Err::<(Subscribe, usize), ReasonMode>(e),
            },
    {
        let (header, n) = match PacketFixedHeader::read_from(bytes) {
            Ok(h) => h,
            Err(e) => return Err(e),
        };
        let len = header.remaining_length as usize;
        if header.packet_type != SUBSCRIBE_PACKET || len > bytes.len() - n || len < 2 {
            return Err(ReasonMode::MalformedPacket);
        }
        let packet_id = bytes[n] as u16 * 256 + bytes[n + 1] as u16;
        if packet_id == 0 {
            return Err(ReasonMode::MalformedPacket);
        }
        let w = copy_range(bytes, 0, n + len);
        let (properties, next) = match decode_property_block(w.as_slice(), n + 2) {
            Ok(x) => x,
            Err(e) => return Err(e),
        };
        let topics = match parse_topic_requests(w.as_slice(), next) {
            Ok(t) => t,
            Err(e) => return Err(e),
        };
        if topics.len() == 0 {
            return Err(ReasonMode::ProtocolError);
        }
        Ok((Subscribe { packet_id, properties, topics }, n + len))
    }
}

/// Requests that can be written and read back: filters that fit a two-byte
/// length and valid options.
pub open spec fn requests_writable(r: Seq<(Seq<u8>, u8)>) -> bool {
    forall|i: int| 0 <= i < r.len() ==> (#[trigger] r[i]).0.len() <= 65535 && options_valid(r[i].1)
}

proof fn lemma_requests_round_trip(r: Seq<(Seq<u8>, u8)>)
    requires
        requests_writable(r),
    ensures
        parse_requests(requests_bytes(r)) == Ok::<Seq<(Seq<u8>, u8)>, ReasonMode>(r),
    decreases r.len(),
{
    if r.len() == 0 {
        assert(r =~= Seq::<(Seq<u8>, u8)>::empty());
    } else {
        let s = requests_bytes(r);
        let (f, o) = r[0];
        assert(f.len() <= 65535 && options_valid(o));
        let tail = requests_bytes(r.drop_first());
        assert(s =~= string_bytes(f) + (seq![o] + tail));
        assert(be16(s[0], s[1]) == f.len());
        assert(s.subrange(2, 2 + f.len() as int) =~= f);
        let n = 2 + f.len();
        assert(s[n as int] == o);
        assert(s.skip(n + 1int) =~= tail);
        assert forall|i: int| 0 <= i < r.drop_first().len() implies (#[trigger] r.drop_first()[i]).0.len()
            <= 65535 && options_valid(r.drop_first()[i].1) by {
            assert(r.drop_first()[i] == r[i + 1]);
        }
        lemma_requests_round_trip(r.drop_first());
        assert(seq![(f, o)] + r.drop_first() =~= r);
    }
}

/// Decoding the bytes of a SUBSCRIBE with at least one request gives it
/// back, whatever follows them.
pub proof fn lemma_subscribe_round_trip(packet_id: u16, ps: PropsView, r: Seq<(Seq<u8>, u8)>, rest: Seq<u8>)
    requires
        packet_id != 0,
        props_writable(ps),
        requests_writable(r),
        r.len() > 0,
        subscribe_body(packet_id, ps, r).len() <= VBI_MAX,
    ensures
        subscribe_decode(subscribe_bytes(packet_id, ps, r) + rest) == Ok::<
            (u16, PropsView, Seq<(Seq<u8>, u8)>, nat),
            ReasonMode,
        >((packet_id, ps, r, subscribe_bytes(packet_id, ps, r).len())),
{
    let body = subscribe_body(packet_id, ps, r);
    let h = header_bytes(SUBSCRIBE_PACKET, body.len());
    let s = subscribe_bytes(packet_id, ps, r) + rest;
    assert(s =~= h + (body + rest));
    lemma_header_round_trip(SUBSCRIBE_PACKET, body.len(), body + rest);
    let n = h.len();
    assert(s[n as int] == body[0] && s[n + 1int] == body[1]);
    let w = s.subrange(0, (n + body.len()) as int);
    let pre = h + u16_bytes(packet_id);
    assert(w =~= pre + property_block_bytes(ps) + requests_bytes(r));
    lemma_property_block_round_trip(pre, ps, requests_bytes(r));
    let next = pre.len() + property_block_bytes(ps).len();
    assert(w.subrange(next as int, w.len() as int) =~= requests_bytes(r));
    lemma_requests_round_trip(r);
}

impl Subscribe {
    /// Appends the bytes of this packet to `out`.
    pub fn write_to(&self, out: &mut Vec<u8>)
        requires
            props_writable(props_view(self.properties@)),
            forall|i: int| 0 <= i < self.topics@.len() ==> (#[trigger] self.topics@[i]).topic_filter@.len() <= 65535
                && self.topics@[i].max_qos <= 1 && self.topics@[i].retain_handling <= 2,
            subscribe_body(self.packet_id, props_view(self.properties@), requests_view(self.topics@)).len() <= VBI_MAX,
        ensures
            final(out)@ == old(out)@ + subscribe_bytes(
                self.packet_id,
                props_view(self.properties@),
                requests_view(self.topics@),
            ),
            requests_writable(requests_view(self.topics@)),
    {
        let ghost ps = props_view(self.properties@);
        let ghost rv = requests_view(self.topics@);
        let mut body: Vec<u8> = Vec::new();
        body.push((self.packet_id / 256) as u8);
        body.push((self.packet_id % 256) as u8);
        write_property_block(&self.properties, &mut body);
        let ghost head = body@;
        let mut i: usize = 0;
        assert(rv.skip(0) =~= rv);
        assert forall|k: int| 0 <= k < rv.len() implies (#[trigger] rv[k]).0.len() <= 65535 && options_valid(rv[k].1) by {
            let t = self.topics@[k];
            assert(t.topic_filter@.len() <= 65535 && t.max_qos <= 1 && t.retain_handling <= 2);
        }
        while i < self.topics.len()
            invariant
                rv == requests_view(self.topics@),
                i <= self.topics@.len(),
                forall|k: int| 0 <= k < self.topics@.len() ==> (#[trigger] self.topics@[k]).topic_filter@.len() <= 65535
                    && self.topics@[k].max_qos <= 1 && self.topics@[k].retain_handling <= 2,
                head + requests_bytes(rv) == body@ + requests_bytes(rv.skip(i as int)),
            decreases self.topics@.len() - i,
        {
            let ghost before = body@;
            let t = &self.topics[i];
            let l = t.topic_filter.len();
            body.push((l / 256) as u8);
            body.push((l % 256) as u8);
            append_bytes(&mut body, t.topic_filter.as_slice());
            let o: u8 = 16 * t.retain_handling + 8 * (if t.retain_as_published { 1u8 } else { 0u8 }) + 4 * (if t.no_local {
                1u8
            } else {
                0u8
            }) + t.max_qos;
            body.push(o);
            proof {
                let q = rv.skip(i as int);
                assert(q[0] == rv[i as int]);
                assert(q.drop_first() =~= rv.skip(i + 1));
                assert(body@ =~= before + string_bytes(q[0].0) + seq![q[0].1]);
                assert(before + requests_bytes(q) =~= body@ + requests_bytes(q.drop_first()));
            }
            i = i + 1;
        }
        assert(rv.skip(i as int) =~= Seq::<(Seq<u8>, u8)>::empty());
        assert(body@ =~= subscribe_body(self.packet_id, ps, rv));
        let header = PacketFixedHeader::new(SUBSCRIBE_PACKET, body.len() as u32);
        let hb = header.as_bytes();
        append_bytes(out, hb.as_slice());
        append_bytes(out, body.as_slice());
        assert(final(out)@ =~= old(out)@ + subscribe_bytes(self.packet_id, ps, rv));
    }
}

} // verus!
