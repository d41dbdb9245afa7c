use vstd::prelude::*;
use crate::acks::{props_writable, PropsView};
use crate::bytes::{append_bytes, copy_range};
use crate::fixed_header::{
    header_bytes, header_parse, lemma_header_round_trip, PacketFixedHeader, UNSUBACK_PACKET,
    UNSUBSCRIBE_PACKET,
};
use crate::properties::{
    decode_property_block, lemma_property_block_round_trip, parse_string, property_block_bytes,
    property_block_decode, props_view, string_bytes, write_property_block, Property,
    };
use crate::publish::{be16, u16_bytes};
use crate::reason_codes::ReasonMode;
use crate::vbi::VBI_MAX;

verus! {

/// An UNSUBSCRIBE packet: the filters to drop.
#[derive(Debug)]
pub struct Unsubscribe {
    pub packet_id: u16,
    pub properties: Vec<Property>,
    pub topic_filters: Vec<Vec<u8>>,
}

/// An UNSUBACK packet: one reason code per filter of the UNSUBSCRIBE.
#[derive(Debug)]
pub struct Unsuback {
    pub packet_id: u16,
    pub properties: Vec<Property>,
    pub reason_codes: Vec<u8>,
}

pub open spec fn filters_view(v: Seq<Vec<u8>>) -> Seq<Seq<u8>> {
    v.map_values(|f: Vec<u8>| f@)
}

/// The length-prefixed filters held by `s`, in order; one cut short is
/// `MalformedPacket`.
pub open spec fn parse_filters(s: Seq<u8>) -> Result<Seq<Seq<u8>>, ReasonMode>
    decreases s.len(),
{
    if s.len() == 0 {
        Ok(Seq::empty())
    } else {
        match parse_string(s) {
            None => Err(ReasonMode::MalformedPacket),
            Some((f, n)) => match parse_filters(s.skip(n as int)) {
                Ok(rest) => Ok(seq![f] + rest),
                Err(e) => Err(e),
            },
        }
    }
}

pub open spec fn filters_bytes(fs: Seq<Seq<u8>>) -> Seq<u8>
    decreases fs.len(),
{
    if fs.len() == 0 {
        Seq::empty()
    } else {
        string_bytes(fs[0]) + filters_bytes(fs.drop_first())
    }
}

pub open spec fn unsubscribe_body(packet_id: u16, ps: PropsView, fs: Seq<Seq<u8>>) -> Seq<u8> {
    u16_bytes(packet_id) + property_block_bytes(ps) + filters_bytes(fs)
}

pub open spec fn unsubscribe_bytes(packet_id: u16, ps: PropsView, fs: Seq<Seq<u8>>) -> Seq<u8> {
    header_bytes(UNSUBSCRIBE_PACKET, unsubscribe_body(packet_id, ps, fs).len()) + unsubscribe_body(
        packet_id,
        ps,
        fs,
    )
}

/// Reads a whole UNSUBSCRIBE at the start of `s`. Another first byte, a
/// body cut short or a zero identifier is `MalformedPacket`; no filter at
/// all `ProtocolError`.
pub open spec fn unsubscribe_decode(s: Seq<u8>) -> Result<(u16, PropsView, Seq<Seq<u8>>, nat), ReasonMode> {
    match header_parse(s) {
        None => Err(ReasonMode::MalformedPacket),
        Some((t, len, n)) => if t != UNSUBSCRIBE_PACKET || n + len > s.len() || len < 2 || be16(
            s[n as int],
            s[n + 1int],
        ) == 0 {
            Err(ReasonMode::MalformedPacket)
        } else {
            let w = s.subrange(0, (n + len) as int);
            match property_block_decode(w, n + 2int) {
                Err(e) => Err(e),
                Ok((ps, next)) => match parse_filters(w.subrange(next as int, w.len() as int)) {
                    Err(e) => Err(e),
                    Ok(fs) => if fs.len() == 0 {
                        Err(ReasonMode::ProtocolError)
                    } else {
                        Ok((be16(s[n as int], s[n + 1int]) as u16, ps, fs, n + len))
                    },
                },
            }
        },
    }
}

proof fn lemma_filters_round_trip(fs: Seq<Seq<u8>>)
    requires
        forall|i: int| 0 <= i < fs.len() ==> (#[trigger] fs[i]).len() <= 65535,
    ensures
        parse_filters(filters_bytes(fs)) == Ok::<Seq<Seq<u8>>, ReasonMode>(fs),
    decreases fs.len(),
{
    if fs.len() == 0 {
        assert(fs =~= Seq::<Seq<u8>>::empty());
    } else {
        let s = filters_bytes(fs);
        let f = fs[0];
        assert(f.len() <= 65535);
        let tail = filters_bytes(fs.drop_first());
        assert(s =~= string_bytes(f) + tail);
        assert(be16(s[0], s[1]) == f.len());
        assert(s.subrange(2, 2 + f.len() as int) =~= f);
        assert(s.skip(2 + f.len() as int) =~= tail);
        assert forall|i: int| 0 <= i < fs.drop_first().len() implies (#[trigger] fs.drop_first()[i]).len()
            <= 65535 by {
            assert(fs.drop_first()[i] == fs[i + 1]);
        }
        lemma_filters_round_trip(fs.drop_first());
        assert(seq![f] + fs.drop_first() =~= fs);
    }
}

/// Decoding the bytes of an UNSUBSCRIBE with at least one filter gives it
/// back, whatever follows them.
pub proof fn lemma_unsubscribe_round_trip(packet_id: u16, ps: PropsView, fs: Seq<Seq<u8>>, rest: Seq<u8>)
    requires
        packet_id != 0,
        props_writable(ps),
        forall|i: int| 0 <= i < fs.len() ==> (#[trigger] fs[i]).len() <= 65535,
        fs.len() > 0,
        unsubscribe_body(packet_id, ps, fs).len() <= VBI_MAX,
    ensures
        unsubscribe_decode(unsubscribe_bytes(packet_id, ps, fs) + rest) == Ok::<
            (u16, PropsView, Seq<Seq<u8>>, nat),
            ReasonMode,
        >((packet_id, ps, fs, unsubscribe_bytes(packet_id, ps, fs).len())),
{
    let body = unsubscribe_body(packet_id, ps, fs);
    let h = header_bytes(UNSUBSCRIBE_PACKET, body.len());
    let s = unsubscribe_bytes(packet_id, ps, fs) + rest;
    assert(s =~= h + (body + rest));
    lemma_header_round_trip(UNSUBSCRIBE_PACKET, body.len(), body + rest);
    let n = h.len();
    assert(s[n as int] == body[0] && s[n + 1int] == body[1]);
    let w = s.subrange(0, (n + body.len()) as int);
    let pre = h + u16_bytes(packet_id);
    assert(w =~= pre + property_block_bytes(ps) + filters_bytes(fs));
    lemma_property_block_round_trip(pre, ps, filters_bytes(fs));
    let next = pre.len() + property_block_bytes(ps).len();
    assert(w.subrange(next as int, w.len() as int) =~= filters_bytes(fs));
    lemma_filters_round_trip(fs);
}

fn parse_topic_filters(w: &[u8], pos: usize) -> (r: Result<Vec<Vec<u8>>, ReasonMode>)
    requires
        pos <= w@.len(),
    ensures
        match parse_filters(w@.subrange(pos as int, w@.len() as int)) {
            Ok(fs) => r matches Ok(v) && filters_view(v@) == fs,
            Err(e) => r == Err::<Vec<Vec<u8>>, ReasonMode>(e),
        },
{
    let end = w.len();
    let ghost whole = w@.subrange(pos as int, end as int);
    let mut out: Vec<Vec<u8>> = Vec::new();
    let mut i: usize = pos;
    proof {
        assert(filters_view(out@) + Seq::<Seq<u8>>::empty() =~= Seq::<Seq<u8>>::empty());
    }
    while i < end
        invariant
            pos <= i <= end,
            end == w@.len(),
            whole == w@.subrange(pos as int, end as int),
            parse_filters(whole) == match parse_filters(w@.subrange(i as int, end as int)) {
                Ok(rest) => Ok::<Seq<Seq<u8>>, ReasonMode>(filters_view(out@) + rest),
                Err(e) => Err(e),
            },
        decreases end - i,
    {
        let ghost s = w@.subrange(i as int, end as int);
        if end - i < 2 {
            return Err(ReasonMode::MalformedPacket);
        }
        let l = w[i] as usize * 256 + w[i + 1] as usize;
        assert(l == be16(s[0], s[1]));
        if 2 + l > end - i {
            return Err(ReasonMode::MalformedPacket);
        }
        let filter = copy_range(w, i + 2, i + 2 + l);
        assert(filter@ =~= s.subrange(2, 2 + l as int));
        let ghost before = out@;
        proof {
            assert(s.skip(2 + l as int) =~= w@.subrange((i + 2 + l) as int, end as int));
            match parse_filters(w@.subrange((i + 2 + l) as int, end as int)) {
                Ok(rest) => {
                    assert(filters_view(before) + (seq![filter@] + rest) =~= filters_view(
                        before.push(filter),
                    ) + rest);
                },
                Err(e) => {},
            }
        }
        out.push(filter);
        i = i + 2 + l;
    }
    proof {
        assert(filters_view(out@) + Seq::<Seq<u8>>::empty() =~= filters_view(out@));
    }
    Ok(out)
}

impl Unsubscribe {
    /// Appends the bytes of this packet to `out`.
    pub fn write_to(&self, out: &mut Vec<u8>)
        requires
            props_writable(props_view(self.properties@)),
            forall|i: int| 0 <= i < self.topic_filters@.len() ==> (#[trigger] self.topic_filters@[i])@.len() <= 65535,
            unsubscribe_body(self.packet_id, props_view(self.properties@), filters_view(self.topic_filters@)).len()
                <= VBI_MAX,
        ensures
            final(out)@ == old(out)@ + unsubscribe_bytes(
                self.packet_id,
                props_view(self.properties@),
                filters_view(self.topic_filters@),
            ),
    {
        let ghost ps = props_view(self.properties@);
        let ghost fv = filters_view(self.topic_filters@);
        let mut body: Vec<u8> = Vec::new();
        body.push((self.packet_id / 256) as u8);
        body.push((self.packet_id % 256) as u8);
        write_property_block(&self.properties, &mut body);
        let ghost head = body@;
        let mut i: usize = 0;
        assert(fv.skip(0) =~= fv);
        while i < self.topic_filters.len()
            invariant
                fv == filters_view(self.topic_filters@),
                i <= self.topic_filters@.len(),
                forall|k: int| 0 <= k < self.topic_filters@.len() ==> (#[trigger] self.topic_filters@[k])@.len() <= 65535,
                head + filters_bytes(fv) == body@ + filters_bytes(fv.skip(i as int)),
            decreases self.topic_filters@.len() - i,
        {
            let ghost before = body@;
            let f = &self.topic_filters[i];
            let l = f.len();
            body.push((l / 256) as u8);
            body.push((l % 256) as u8);
            append_bytes(&mut body, f.as_slice());
            proof {
                let q = fv.skip(i as int);
                assert(q[0] == fv[i as int]);
                assert(q.drop_first() =~= fv.skip(i + 1));
                assert(body@ =~= before + string_bytes(q[0]));
                assert(before + filters_bytes(q) =~= body@ + filters_bytes(q.drop_first()));
            }
            i = i + 1;
        }
        assert(fv.skip(i as int) =~= Seq::<Seq<u8>>::empty());
        assert(body@ =~= unsubscribe_body(self.packet_id, ps, fv));
        let header = PacketFixedHeader::new(UNSUBSCRIBE_PACKET, body.len() as u32);
        let hb = header.as_bytes();
        append_bytes(out, hb.as_slice());
        append_bytes(out, body.as_slice());
        assert(final(out)@ =~= old(out)@ + unsubscribe_bytes(self.packet_id, ps, fv));
    }

    /// Reads an UNSUBSCRIBE at the start of `bytes`, and the number of bytes
    /// it took.
    pub fn read_from(bytes: &[u8]) -> (r: Result<(Unsubscribe, usize), ReasonMode>)
        ensures
            match unsubscribe_decode(bytes@) {
                Ok((id, ps, fs, n)) => r matches Ok((p, m)) && p.packet_id == id && props_view(
                    p.properties@,
                ) == ps && filters_view(p.topic_filters@) == fs && m == n,
                Err(e) => r == Err::<(Unsubscribe, usize), ReasonMode>(e),
            },
    {
        let (header, n) = match PacketFixedHeader::read_from(bytes) {
            Ok(h) => h,
            Err(e) => return Err(e),
        };
        let len = header.remaining_length as usize;
        if header.packet_type != UNSUBSCRIBE_PACKET || len > bytes.len() - n || len < 2 {
            return Err(ReasonMode::MalformedPacket);
        }
        let packet_id = bytes[n] as u16 * 256 + bytes[n + 1] as u16;
        if packet_id == 0 {
            return Err(ReasonMode::MalformedPacket);
        }
        let w = copy_range(bytes, 0, n + len);
        let (properties, next) = match decode_property_block(w.as_slice(), n + 2) {
            Ok(x) => x,
            Err(e) => return Err(e),
        };
        let topic_filters = match parse_topic_filters(w.as_slice(), next) {
            Ok(t) => t,
            Err(e) => return Err(e),
        };
        if topic_filters.len() == 0 {
            return Err(ReasonMode::ProtocolError);
        }
        Ok((Unsubscribe { packet_id, properties, topic_filters }, n + len))
    }
}

pub open spec fn unsuback_bytes(packet_id: u16, ps: PropsView, codes: Seq<u8>) -> Seq<u8> {
    let body = u16_bytes(packet_id) + property_block_bytes(ps) + codes;
    header_bytes(UNSUBACK_PACKET, body.len()) + body
}

/// Reads a whole UNSUBACK at the start of `s`: identifier, property block,
/// then the reason codes, which fill the rest of the packet.
pub open spec fn unsuback_decode(s: Seq<u8>) -> Result<(u16, PropsView, Seq<u8>, nat), ReasonMode> {
    match header_parse(s) {
        None => Err(ReasonMode::MalformedPacket),
        Some((t, len, n)) => if t != UNSUBACK_PACKET || n + len > s.len() || len < 3 {
            Err(ReasonMode::MalformedPacket)
        } else {
            let w = s.subrange(0, (n + len) as int);
            match property_block_decode(w, n + 2int) {
                Err(e) => Err(e),
                Ok((ps, next)) => Ok(
                    (be16(s[n as int], s[n + 1int]) as u16, ps, w.subrange(next as int, w.len() as int), n + len),
                ),
            }
        },
    }
}

/// Decoding the bytes of an UNSUBACK gives it back, whatever follows them.
pub proof fn lemma_unsuback_round_trip(packet_id: u16, ps: PropsView, codes: Seq<u8>, rest: Seq<u8>)
    requires
        props_writable(ps),
        (u16_bytes(packet_id) + property_block_bytes(ps) + codes).len() <= VBI_MAX,
    ensures
        unsuback_decode(unsuback_bytes(packet_id, ps, codes) + rest) == Ok::<
            (u16, PropsView, Seq<u8>, nat),
            ReasonMode,
        >((packet_id, ps, codes, unsuback_bytes(packet_id, ps, codes).len())),
{
    let body = u16_bytes(packet_id) + property_block_bytes(ps) + codes;
    let h = header_bytes(UNSUBACK_PACKET, body.len());
    let s = unsuback_bytes(packet_id, ps, codes) + rest;
    assert(s =~= h + (body + rest));
    lemma_header_round_trip(UNSUBACK_PACKET, body.len(), body + rest);
    let n = h.len();
    assert(s[n as int] == body[0] && s[n + 1int] == body[1]);
    let w = s.subrange(0, (n + body.len()) as int);
    let pre = h + u16_bytes(packet_id);
    assert(w =~= pre + property_block_bytes(ps) + codes);
    lemma_property_block_round_trip(pre, ps, codes);
    let next = pre.len() + property_block_bytes(ps).len();
    assert(w.subrange(next as int, w.len() as int) =~= codes);
}

impl Unsuback {
    /// Appends the bytes of this packet to `out`.
    pub fn write_to(&self, out: &mut Vec<u8>)
        requires
            props_writable(props_view(self.properties@)),
            (u16_bytes(self.packet_id) + property_block_bytes(props_view(self.properties@)) + self.reason_codes@).len()
                <= VBI_MAX,
        ensures
            final(out)@ == old(out)@ + unsuback_bytes(self.packet_id, props_view(self.properties@), self.reason_codes@),
    {
        let ghost ps = props_view(self.properties@);
        let mut body: Vec<u8> = Vec::new();
        body.push((self.packet_id / 256) as u8);
        body.push((self.packet_id % 256) as u8);
        write_property_block(&self.properties, &mut body);
        append_bytes(&mut body, self.reason_codes.as_slice());
        let header = PacketFixedHeader::new(UNSUBACK_PACKET, body.len() as u32);
        let hb = header.as_bytes();
        append_bytes(out, hb.as_slice());
        append_bytes(out, body.as_slice());
        assert(final(out)@ =~= old(out)@ + unsuback_bytes(self.packet_id, ps, self.reason_codes@));
    }

    /// Reads an UNSUBACK at the start of `bytes`, and the number of bytes it
    /// took.
    pub fn read_from(bytes: &[u8]) -> (r: Result<(Unsuback, usize), ReasonMode>)
        ensures
            match unsuback_decode(bytes@) {
                Ok((id, ps, codes, n)) => r matches Ok((u, m)) && u.packet_id == id && props_view(
                    u.properties@,
                ) == ps && u.reason_codes@ == codes && m == n,
                Err(e) => r == Err::<(Unsuback, usize), ReasonMode>(e),
            },
    {
        let (header, n) = match PacketFixedHeader::read_from(bytes) {
            Ok(h) => h,
            Err(e) => return Err(e),
        };
        let len = header.remaining_length as usize;
        if header.packet_type != UNSUBACK_PACKET || len > bytes.len() - n || len < 3 {
            return Err(ReasonMode::MalformedPacket);
        }
        let packet_id = bytes[n] as u16 * 256 + bytes[n + 1] as u16;
        let w = copy_range(bytes, 0, n + len);
        let (properties, next) = match decode_property_block(w.as_slice(), n + 2) {
            Ok(x) => x,
            Err(e) => return Err(e),
        };
        let reason_codes = copy_range(w.as_slice(), next, n + len);
        Ok((Unsuback { packet_id, properties, reason_codes }, n + len))
    }
}

} // verus!
