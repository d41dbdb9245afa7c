use vstd::prelude::*;
use crate::bytes::{append_bytes, copy_range};
use crate::fixed_header::{
    header_bytes, header_parse, lemma_header_round_trip, PacketFixedHeader, CONNACK_PACKET,
    DISCONNECT_PACKET, PUBACK_PACKET,
};
use crate::properties::{
    find_duplicate, property_kind, value_bytes, value_view, PropertyKind, PropertyValue,
    MAXIMUM_PACKET_SIZE, MAXIMUM_QOS, RECEIVE_MAXIMUM, decode_property_block, has_duplicate, lemma_property_block_round_trip, property_block_bytes,
    property_block_decode, props_bytes, props_view, well_typed, write_property_block, Property,
    PropertyValueView,
};
use crate::publish::{be16, u16_bytes, Publish};
use crate::reason_codes::{reason_from_id, reason_id, lemma_reason_id_round_trip, ReasonMode};
use crate::vbi::VBI_MAX;

verus! {

pub type PropsView = Seq<(u8, PropertyValueView)>;

/// A PUBACK: the identifier of the PUBLISH it acknowledges, a reason and
/// properties.
#[derive(Debug)]
pub struct Puback {
    pub packet_id: u16,
    pub reason: ReasonMode,
    pub properties: Vec<Property>,
}

/// A CONNACK: whether the session was kept, a reason and properties.
#[derive(Debug)]
pub struct Connack {
    pub session_present: bool,
    pub reason: ReasonMode,
    pub properties: Vec<Property>,
}

/// A DISCONNECT: a reason and properties.
#[derive(Debug)]
pub struct Disconnect {
    pub reason: ReasonMode,
    pub properties: Vec<Property>,
}

/// Properties that can be written and read back: well typed, no repeated
/// identifier but UserProperty, and a length a variable byte integer holds.
pub open spec fn props_writable(ps: PropsView) -> bool {
    &&& forall|i: int| 0 <= i < ps.len() ==> well_typed(#[trigger] ps[i].0, ps[i].1)
    &&& !has_duplicate(ps)
    &&& props_bytes(ps).len() <= VBI_MAX
}

/// The optional property block that closes packet `w` at `pos`: none where
/// the packet ends there, else a block that must end with the packet.
pub open spec fn tail_decode(w: Seq<u8>, pos: int) -> Result<PropsView, ReasonMode> {
    if pos == w.len() {
        Ok(Seq::empty())
    } else {
        match property_block_decode(w, pos) {
            Ok((ps, next)) => if next == w.len() {
                Ok(ps)
            } else {
                Err(ReasonMode::MalformedPacket)
            },
            Err(e) => Err(e),
        }
    }
}

fn read_tail(w: &[u8], pos: usize) -> (r: Result<Vec<Property>, ReasonMode>)
    requires
        pos <= w@.len(),
    ensures
        match tail_decode(w@, pos as int) {
            Ok(ps) => r matches Ok(v) && props_view(v@) == ps,
            Err(e) => r == Err::<Vec<Property>, ReasonMode>(e),
        },
{
    if pos == w.len() {
        let v: Vec<Property> = Vec::new();
        assert(props_view(v@) =~= Seq::<(u8, PropertyValueView)>::empty());
        return Ok(v);
    }
    match decode_property_block(w, pos) {
        Ok((ps, next)) => if next == w.len() {
            Ok(ps)
        } else {
            Err(ReasonMode::MalformedPacket)
        },
        Err(e) => Err(e),
    }
}

pub open spec fn puback_body(packet_id: u16, reason: ReasonMode, ps: PropsView) -> Seq<u8> {
    u16_bytes(packet_id) + seq![reason_id(reason)] + property_block_bytes(ps)
}

pub open spec fn puback_bytes(packet_id: u16, reason: ReasonMode, ps: PropsView) -> Seq<u8> {
    header_bytes(PUBACK_PACKET, puback_body(packet_id, reason, ps).len()) + puback_body(
        packet_id,
        reason,
        ps,
    )
}

/// Reads a whole PUBACK at the start of `s`. A body of two bytes carries
/// the identifier alone and means `Success`; otherwise a reason byte
/// follows, then an optional property block that must end the packet.
pub open spec fn puback_decode(s: Seq<u8>) -> Result<(u16, ReasonMode, PropsView, nat), ReasonMode> {
    match header_parse(s) {
        None => Err(ReasonMode::MalformedPacket),
        Some((t, len, n)) => if t != PUBACK_PACKET || n + len > s.len() || len < 2 {
            Err(ReasonMode::MalformedPacket)
        } else {
            let id = be16(s[n as int], s[n + 1int]) as u16;
            if len == 2 {
                Ok((id, ReasonMode::Success, Seq::empty(), n + len))
            } else {
                match reason_from_id(s[n + 2int]) {
                    None => Err(ReasonMode::MalformedPacket),
                    Some(r) => match tail_decode(s.subrange(0, (n + len) as int), n + 3int) {
                        Ok(ps) => Ok((id, r, ps, n + len)),
                        Err(e) => Err(e),
                    },
                }
            }
        },
    }
}

/// Decoding the bytes of a PUBACK gives it back, whatever follows them.
pub proof fn lemma_puback_round_trip(packet_id: u16, reason: ReasonMode, ps: PropsView, rest: Seq<u8>)
    requires
        props_writable(ps),
        puback_body(packet_id, reason, ps).len() <= VBI_MAX,
    ensures
        puback_decode(puback_bytes(packet_id, reason, ps) + rest) == Ok::<
            (u16, ReasonMode, PropsView, nat),
            ReasonMode,
        >((packet_id, reason, ps, puback_bytes(packet_id, reason, ps).len())),
{
    let body = puback_body(packet_id, reason, ps);
    let h = header_bytes(PUBACK_PACKET, body.len());
    let s = puback_bytes(packet_id, reason, ps) + rest;
    lemma_property_block_round_trip(h + u16_bytes(packet_id) + seq![reason_id(reason)], ps, Seq::empty());
    assert(s =~= h + (body + rest));
    lemma_header_round_trip(PUBACK_PACKET, body.len(), body + rest);
    let n = h.len();
    assert(s[n as int] == body[0] && s[n + 1int] == body[1] && s[n + 2int] == body[2]);
    lemma_reason_id_round_trip(reason);
    let w = s.subrange(0, (n + body.len()) as int);
    assert(w =~= h + u16_bytes(packet_id) + seq![reason_id(reason)] + property_block_bytes(ps)
        + Seq::<u8>::empty());
}

impl Puback {
    /// The acknowledgement a receiver owes for `p` once it has taken the
    /// message: a `Success` PUBACK with its identifier under QoS 1, none
    /// under QoS 0.
    pub fn for_received(p: &Publish) -> (r: Option<Puback>)
        ensures
            p.qos == 1 <==> r is Some,
            r matches Some(a) ==> a.packet_id == p.packet_id && a.reason == ReasonMode::Success
                && a.properties@.len() == 0,
    {
        if p.qos == 1 {
            Some(Puback { packet_id: p.packet_id, reason: ReasonMode::Success, properties: Vec::new() })
        } else {
            None
        }
    }

    /// Appends the bytes of this packet to `out`.
    pub fn write_to(&self, out: &mut Vec<u8>)
        requires
            props_writable(props_view(self.properties@)),
            puback_body(self.packet_id, self.reason, props_view(self.properties@)).len() <= VBI_MAX,
        ensures
            final(out)@ == old(out)@ + puback_bytes(self.packet_id, self.reason, props_view(self.properties@)),
    {
        let ghost ps = props_view(self.properties@);
        let mut body: Vec<u8> = Vec::new();
        body.push((self.packet_id / 256) as u8);
        body.push((self.packet_id % 256) as u8);
        body.push(self.reason.get_id());
        write_property_block(&self.properties, &mut body);
        assert(body@ =~= puback_body(self.packet_id, self.reason, ps));
        let header = PacketFixedHeader::new(PUBACK_PACKET, body.len() as u32);
        let hb = header.as_bytes();
        append_bytes(out, hb.as_slice());
        append_bytes(out, body.as_slice());
        assert(final(out)@ =~= old(out)@ + puback_bytes(self.packet_id, self.reason, ps));
    }

    /// Reads a PUBACK at the start of `bytes`, and the number of bytes it
    /// took.
    pub fn read_from(bytes: &[u8]) -> (r: Result<(Puback, usize), ReasonMode>)
        ensures
            match puback_decode(bytes@) {
                Ok((id, reason, ps, n)) => r matches Ok((p, m)) && p.packet_id == id && p.reason
                    == reason && props_view(p.properties@) == ps && m == n,
                Err(e) => r == Err::<(Puback, usize), ReasonMode>(e),
            },
    {
        let (header, n) = match PacketFixedHeader::read_from(bytes) {
            Ok(h) => h,
            Err(e) => return Err(e),
        };
        let len = header.remaining_length as usize;
        if header.packet_type != PUBACK_PACKET || len > bytes.len() - n || len < 2 {
            return Err(ReasonMode::MalformedPacket);
        }
        let packet_id = bytes[n] as u16 * 256 + bytes[n + 1] as u16;
        if len == 2 {
            let properties: Vec<Property> = Vec::new();
            assert(props_view(properties@) =~= Seq::<(u8, PropertyValueView)>::empty());
            return Ok((Puback { packet_id, reason: ReasonMode::Success, properties }, n + len));
        }
        let reason = match ReasonMode::from_id(bytes[n + 2]) {
            Some(r) => r,
            None => return Err(ReasonMode::MalformedPacket),
        };
        let w = copy_range(bytes, 0, n + len);
        let properties = match read_tail(w.as_slice(), n + 3) {
            Ok(p) => p,
            Err(e) => return Err(e),
        };
        Ok((Puback { packet_id, reason, properties }, n + len))
    }
}

/// Reads a whole CONNACK at the start of `s`: flags byte (bit 0 is session
/// present, the others must be clear), a reason byte, then an optional
/// property block that must end the packet.
pub open spec fn connack_decode(s: Seq<u8>) -> Result<(bool, ReasonMode, PropsView, nat), ReasonMode> {
    match header_parse(s) {
        None => Err(ReasonMode::MalformedPacket),
        Some((t, len, n)) => if t != CONNACK_PACKET || n + len > s.len() || len < 2 || s[n as int]
            > 1 {
            Err(ReasonMode::MalformedPacket)
        } else {
            match reason_from_id(s[n + 1int]) {
                None => Err(ReasonMode::MalformedPacket),
                Some(r) => match tail_decode(s.subrange(0, (n + len) as int), n + 2int) {
                    Ok(ps) => Ok((s[n as int] == 1, r, ps, n + len)),
                    Err(e) => Err(e),
                },
            }
        },
    }
}

pub open spec fn connack_body(session_present: bool, reason: ReasonMode, ps: PropsView) -> Seq<u8> {
    seq![if session_present { 1u8 } else { 0u8 }, reason_id(reason)] + property_block_bytes(ps)
}

pub open spec fn connack_bytes(session_present: bool, reason: ReasonMode, ps: PropsView) -> Seq<u8> {
    header_bytes(CONNACK_PACKET, connack_body(session_present, reason, ps).len()) + connack_body(
        session_present,
        reason,
        ps,
    )
}

/// Decoding the bytes of a CONNACK gives it back, whatever follows them.
#[verifier::rlimit(80)]
pub proof fn lemma_connack_round_trip(session_present: bool, reason: ReasonMode, ps: PropsView, rest: Seq<u8>)
    requires
        props_writable(ps),
        connack_body(session_present, reason, ps).len() <= VBI_MAX,
    ensures
        connack_decode(connack_bytes(session_present, reason, ps) + rest) == Ok::<
            (bool, ReasonMode, PropsView, nat),
            ReasonMode,
        >((session_present, reason, ps, connack_bytes(session_present, reason, ps).len())),
{
    let flag: u8 = if session_present { 1u8 } else { 0u8 };
    let body = seq![flag, reason_id(reason)] + property_block_bytes(ps);
    let h = header_bytes(CONNACK_PACKET, body.len());
    let s = connack_bytes(session_present, reason, ps) + rest;
    lemma_property_block_round_trip(h + seq![flag, reason_id(reason)], ps, Seq::empty());
    assert(s =~= h + (body + rest));
    lemma_header_round_trip(CONNACK_PACKET, body.len(), body + rest);
    let n = h.len();
    assert(s[n as int] == flag && s[n + 1int] == reason_id(reason));
    lemma_reason_id_round_trip(reason);
    let w = s.subrange(0, (n + body.len()) as int);
    assert(w =~= h + seq![flag, reason_id(reason)] + property_block_bytes(ps) + Seq::<u8>::empty());
}

impl Connack {
    /// Appends the bytes of this packet to `out`.
    pub fn write_to(&self, out: &mut Vec<u8>)
        requires
            props_writable(props_view(self.properties@)),
            connack_body(self.session_present, self.reason, props_view(self.properties@)).len() <= VBI_MAX,
        ensures
            final(out)@ == old(out)@ + connack_bytes(self.session_present, self.reason, props_view(self.properties@)),
    {
        let ghost ps = props_view(self.properties@);
        let mut body: Vec<u8> = Vec::new();
        body.push(if self.session_present { 1u8 } else { 0u8 });
        body.push(self.reason.get_id());
        write_property_block(&self.properties, &mut body);
        let header = PacketFixedHeader::new(CONNACK_PACKET, body.len() as u32);
        let hb = header.as_bytes();
        append_bytes(out, hb.as_slice());
        append_bytes(out, body.as_slice());
        assert(final(out)@ =~= old(out)@ + connack_bytes(self.session_present, self.reason, ps));
    }

    /// Reads a CONNACK at the start of `bytes`, and the number of bytes it
    /// took.
    pub fn read_from(bytes: &[u8]) -> (r: Result<(Connack, usize), ReasonMode>)
        ensures
            match connack_decode(bytes@) {
                Ok((sp, reason, ps, n)) => r matches Ok((c, m)) && c.session_present == sp && c.reason
                    == reason && props_view(c.properties@) == ps && m == n,
                Err(e) => r == Err::<(Connack, usize), ReasonMode>(e),
            },
    {
        let (header, n) = match PacketFixedHeader::read_from(bytes) {
            Ok(h) => h,
            Err(e) => return Err(e),
        };
        let len = header.remaining_length as usize;
        if header.packet_type != CONNACK_PACKET || len > bytes.len() - n || len < 2 || bytes[n] > 1 {
            return Err(ReasonMode::MalformedPacket);
        }
        let reason = match ReasonMode::from_id(bytes[n + 1]) {
            Some(r) => r,
            None => return Err(ReasonMode::MalformedPacket),
        };
        let w = copy_range(bytes, 0, n + len);
        let properties = match read_tail(w.as_slice(), n + 2) {
            Ok(p) => p,
            Err(e) => return Err(e),
        };
        Ok((Connack { session_present: bytes[n] == 1, reason, properties }, n + len))
    }
}

/// Reads a whole DISCONNECT at the start of `s`. An empty body means
/// `Success` (normal disconnection); otherwise a reason byte comes first,
/// then an optional property block that must end the packet.
pub open spec fn disconnect_decode(s: Seq<u8>) -> Result<(ReasonMode, PropsView, nat), ReasonMode> {
    match header_parse(s) {
        None => Err(ReasonMode::MalformedPacket),
        Some((t, len, n)) => if t != DISCONNECT_PACKET || n + len > s.len() {
            Err(ReasonMode::MalformedPacket)
        } else if len == 0 {
            Ok((ReasonMode::Success, Seq::empty(), n))
        } else {
            match reason_from_id(s[n as int]) {
                None => Err(ReasonMode::MalformedPacket),
                Some(r) => match tail_decode(s.subrange(0, (n + len) as int), n + 1int) {
                    Ok(ps) => Ok((r, ps, n + len)),
                    Err(e) => Err(e),
                },
            }
        },
    }
}

pub open spec fn disconnect_body(reason: ReasonMode, ps: PropsView) -> Seq<u8> {
    seq![reason_id(reason)] + property_block_bytes(ps)
}

pub open spec fn disconnect_bytes(reason: ReasonMode, ps: PropsView) -> Seq<u8> {
    header_bytes(DISCONNECT_PACKET, disconnect_body(reason, ps).len()) + disconnect_body(reason, ps)
}

/// Decoding the bytes of a DISCONNECT gives it back, whatever follows them.
pub proof fn lemma_disconnect_round_trip(reason: ReasonMode, ps: PropsView, rest: Seq<u8>)
    requires
        props_writable(ps),
        disconnect_body(reason, ps).len() <= VBI_MAX,
    ensures
        disconnect_decode(disconnect_bytes(reason, ps) + rest) == Ok::<(ReasonMode, PropsView, nat), ReasonMode>(
            (reason, ps, disconnect_bytes(reason, ps).len()),
        ),
{
    let body = seq![reason_id(reason)] + property_block_bytes(ps);
    let h = header_bytes(DISCONNECT_PACKET, body.len());
    let s = disconnect_bytes(reason, ps) + rest;
    lemma_property_block_round_trip(h + seq![reason_id(reason)], ps, Seq::empty());
    assert(s =~= h + (body + rest));
    lemma_header_round_trip(DISCONNECT_PACKET, body.len(), body + rest);
    let n = h.len();
    assert(s[n as int] == reason_id(reason));
    lemma_reason_id_round_trip(reason);
    let w = s.subrange(0, (n + body.len()) as int);
    assert(w =~= h + seq![reason_id(reason)] + property_block_bytes(ps) + Seq::<u8>::empty());
}

impl Disconnect {
    /// Appends the bytes of this packet to `out`.
    pub fn write_to(&self, out: &mut Vec<u8>)
        requires
            props_writable(props_view(self.properties@)),
            disconnect_body(self.reason, props_view(self.properties@)).len() <= VBI_MAX,
        ensures
            final(out)@ == old(out)@ + disconnect_bytes(self.reason, props_view(self.properties@)),
    {
        let ghost ps = props_view(self.properties@);
        let mut body: Vec<u8> = Vec::new();
        body.push(self.reason.get_id());
        write_property_block(&self.properties, &mut body);
        let header = PacketFixedHeader::new(DISCONNECT_PACKET, body.len() as u32);
        let hb = header.as_bytes();
        append_bytes(out, hb.as_slice());
        append_bytes(out, body.as_slice());
        assert(final(out)@ =~= old(out)@ + disconnect_bytes(self.reason, ps));
    }

    /// Reads a DISCONNECT at the start of `bytes`, and the number of bytes
    /// it took.
    pub fn read_from(bytes: &[u8]) -> (r: Result<(Disconnect, usize), ReasonMode>)
        ensures
            match disconnect_decode(bytes@) {
                Ok((reason, ps, n)) => r matches Ok((d, m)) && d.reason == reason && props_view(
                    d.properties@,
                ) == ps && m == n,
                Err(e) => r == Err::<(Disconnect, usize), ReasonMode>(e),
            },
    {
        let (header, n) = match PacketFixedHeader::read_from(bytes) {
            Ok(h) => h,
            Err(e) => return Err(e),
        };
        let len = header.remaining_length as usize;
        if header.packet_type != DISCONNECT_PACKET || len > bytes.len() - n {
            return Err(ReasonMode::MalformedPacket);
        }
        if len == 0 {
            let properties: Vec<Property> = Vec::new();
            assert(props_view(properties@) =~= Seq::<(u8, PropertyValueView)>::empty());
            return Ok((Disconnect { reason: ReasonMode::Success, properties }, n));
        }
        let reason = match ReasonMode::from_id(bytes[n]) {
            Some(r) => r,
            None => return Err(ReasonMode::MalformedPacket),
        };
        let w = copy_range(bytes, 0, n + len);
        let properties = match read_tail(w.as_slice(), n + 1) {
            Ok(p) => p,
            Err(e) => return Err(e),
        };
        Ok((Disconnect { reason, properties }, n + len))
    }
}

fn value_len(v: &PropertyValue) -> (r: u64)
    requires
        match value_view(*v) {
            PropertyValueView::Str(s) => s.len() <= 65535,
            PropertyValueView::Binary(s) => s.len() <= 65535,
            PropertyValueView::StrPair(a, b) => a.len() <= 65535 && b.len() <= 65535,
            _ => true,
        },
    ensures
        r == value_bytes(value_view(*v)).len(),
{
    match v {
        PropertyValue::Byte(_) => 1,
        PropertyValue::TwoByte(_) => 2,
        PropertyValue::FourByte(_) => 4,
        PropertyValue::Str(s) => 2 + s.len() as u64,
        PropertyValue::StrPair(a, b) => 4 + a.len() as u64 + b.len() as u64,
        PropertyValue::Binary(s) => 2 + s.len() as u64,
    }
}

fn property_well_typed(p: &Property) -> (r: bool)
    ensures
        r == well_typed(p.id, value_view(p.value)),
{
    let kind = match property_kind(p.id) {
        Some(k) => k,
        None => return false,
    };
    let ok = match &p.value {
        PropertyValue::Byte(x) => kind == PropertyKind::Byte && !(p.id == MAXIMUM_QOS && *x > 1),
        PropertyValue::TwoByte(x) => kind == PropertyKind::TwoByte && !(p.id == RECEIVE_MAXIMUM && *x == 0),
        PropertyValue::FourByte(x) => kind == PropertyKind::FourByte && !(p.id == MAXIMUM_PACKET_SIZE && *x == 0),
        PropertyValue::Str(s) => kind == PropertyKind::Str && s.len() <= 65535,
        PropertyValue::StrPair(a, b) => kind == PropertyKind::StrPair && a.len() <= 65535 && b.len() <= 65535,
        PropertyValue::Binary(s) => kind == PropertyKind::Binary && s.len() <= 65535,
    };
    ok
}

/// Whether `ps` can be written and read back, as the packet writers ask.
pub fn properties_writable(ps: &Vec<Property>) -> (r: bool)
    ensures
        r == props_writable(props_view(ps@)),
{
    let ghost v = props_view(ps@);
    let mut i: usize = ps.len();
    let mut total: u64 = 0;
    assert(v.skip(v.len() as int) =~= Seq::<(u8, PropertyValueView)>::empty());
    while i > 0
        invariant
            v == props_view(ps@),
            i <= ps@.len(),
            total == props_bytes(v.skip(i as int)).len(),
            total <= VBI_MAX,
            forall|k: int| i <= k < ps@.len() ==> well_typed(#[trigger] v[k].0, v[k].1),
        decreases i,
    {
        i = i - 1;
        if !property_well_typed(&ps[i]) {
            assert(!well_typed(v[i as int].0, v[i as int].1));
            return false;
        }
        let ghost t = v.skip(i as int);
        assert(t[0] == v[i as int]);
        assert(t.drop_first() =~= v.skip(i + 1));
        let l = value_len(&ps[i].value);
        assert(props_bytes(t) == seq![t[0].0] + value_bytes(t[0].1) + props_bytes(t.drop_first()));
        total = total + 1 + l;
        if total > VBI_MAX as u64 {
            proof {
                lemma_props_bytes_suffix(v, i as int);
            }
            return false;
        }
    }
    assert(v.skip(0) =~= v);
    !find_duplicate(ps)
}

proof fn lemma_props_bytes_suffix(v: Seq<(u8, PropertyValueView)>, i: int)
    requires
        0 <= i <= v.len(),
    ensures
        props_bytes(v.skip(i)).len() <= props_bytes(v).len(),
    decreases i,
{
    if i > 0 {
        assert(v.drop_first().skip(i - 1) =~= v.skip(i));
        assert(props_bytes(v) == seq![v[0].0] + value_bytes(v[0].1) + props_bytes(v.drop_first()));
        lemma_props_bytes_suffix(v.drop_first(), i - 1);
    } else {
        assert(v.skip(0) =~= v);
    }
}

} // verus!
