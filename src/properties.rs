use vstd::prelude::*;
use crate::bytes::{append_bytes, copy_range};
use crate::publish::{be16, u16_bytes};
use crate::reason_codes::ReasonMode;
use crate::vbi::{decode_vbi, lemma_vbi_decode_bound, lemma_vbi_round_trip, vbi_decode, vbi_encoding, write_vbi, VBI_MAX};

verus! {

pub const SESSION_EXPIRY_INTERVAL: u8 = 0x11;
pub const ASSIGNED_CLIENT_IDENTIFIER: u8 = 0x12;
pub const SERVER_KEEP_ALIVE: u8 = 0x13;
pub const AUTHENTICATION_METHOD: u8 = 0x15;
pub const AUTHENTICATION_DATA: u8 = 0x16;
pub const REQUEST_PROBLEM_INFORMATION: u8 = 0x17;
pub const REQUEST_RESPONSE_INFORMATION: u8 = 0x19;
pub const REASON_STRING: u8 = 0x1F;
pub const RECEIVE_MAXIMUM: u8 = 0x21;
pub const TOPIC_ALIAS_MAXIMUM: u8 = 0x22;
pub const MAXIMUM_QOS: u8 = 0x24;
pub const RETAIN_AVAILABLE: u8 = 0x25;
pub const USER_PROPERTY: u8 = 0x26;
pub const MAXIMUM_PACKET_SIZE: u8 = 0x27;
pub const WILDCARD_SUBSCRIPTION_AVAILABLE: u8 = 0x28;
pub const SUBSCRIPTION_IDENTIFIER_AVAILABLE: u8 = 0x29;
pub const SHARED_SUBSCRIPTION_AVAILABLE: u8 = 0x2A;

/// The wire type of a property's value.
#[derive(Clone, Copy, Debug, PartialEq, Eq, Structural)]
pub enum PropertyKind {
    Byte,
    TwoByte,
    FourByte,
    Str,
    StrPair,
    Binary,
}

/// A property's value.
#[derive(Debug)]
pub enum PropertyValue {
    Byte(u8),
    TwoByte(u16),
    FourByte(u32),
    Str(Vec<u8>),
    StrPair(Vec<u8>, Vec<u8>),
    Binary(Vec<u8>),
}

pub enum PropertyValueView {
    Byte(u8),
    TwoByte(u16),
    FourByte(u32),
    Str(Seq<u8>),
    StrPair(Seq<u8>, Seq<u8>),
    Binary(Seq<u8>),
}

/// One entry of a property block.
#[derive(Debug)]
pub struct Property {
    pub id: u8,
    pub value: PropertyValue,
}

pub open spec fn value_view(v: PropertyValue) -> PropertyValueView {
    match v {
        PropertyValue::Byte(b) => PropertyValueView::Byte(b),
        PropertyValue::TwoByte(x) => PropertyValueView::TwoByte(x),
        PropertyValue::FourByte(x) => PropertyValueView::FourByte(x),
        PropertyValue::Str(s) => PropertyValueView::Str(s@),
        PropertyValue::StrPair(a, b) => PropertyValueView::StrPair(a@, b@),
        PropertyValue::Binary(b) => PropertyValueView::Binary(b@),
    }
}

pub open spec fn props_view(v: Seq<Property>) -> Seq<(u8, PropertyValueView)> {
    v.map_values(|p: Property| (p.id, value_view(p.value)))
}

/// The value type of each recognised property identifier.
pub open spec fn kind_of(id: u8) -> Option<PropertyKind> {
    if id == SESSION_EXPIRY_INTERVAL || id == MAXIMUM_PACKET_SIZE {
        Some(PropertyKind::FourByte)
    } else if id == ASSIGNED_CLIENT_IDENTIFIER || id == AUTHENTICATION_METHOD || id == REASON_STRING {
        Some(PropertyKind::Str)
    } else if id == SERVER_KEEP_ALIVE || id == RECEIVE_MAXIMUM || id == TOPIC_ALIAS_MAXIMUM {
        Some(PropertyKind::TwoByte)
    } else if id == AUTHENTICATION_DATA {
        Some(PropertyKind::Binary)
    } else if id == REQUEST_PROBLEM_INFORMATION || id == REQUEST_RESPONSE_INFORMATION || id
        == MAXIMUM_QOS || id == RETAIN_AVAILABLE || id == WILDCARD_SUBSCRIPTION_AVAILABLE || id
        == SUBSCRIPTION_IDENTIFIER_AVAILABLE || id == SHARED_SUBSCRIPTION_AVAILABLE {
        Some(PropertyKind::Byte)
    } else if id == USER_PROPERTY {
        Some(PropertyKind::StrPair)
    } else {
        None
    }
}

pub fn property_kind(id: u8) -> (r: Option<PropertyKind>)
    ensures
        r == kind_of(id),
{
    if id == SESSION_EXPIRY_INTERVAL || id == MAXIMUM_PACKET_SIZE {
        Some(PropertyKind::FourByte)
    } else if id == ASSIGNED_CLIENT_IDENTIFIER || id == AUTHENTICATION_METHOD || id == REASON_STRING {
        Some(PropertyKind::Str)
    } else if id == SERVER_KEEP_ALIVE || id == RECEIVE_MAXIMUM || id == TOPIC_ALIAS_MAXIMUM {
        Some(PropertyKind::TwoByte)
    } else if id == AUTHENTICATION_DATA {
        Some(PropertyKind::Binary)
    } else if id == REQUEST_PROBLEM_INFORMATION || id == REQUEST_RESPONSE_INFORMATION || id
        == MAXIMUM_QOS || id == RETAIN_AVAILABLE || id == WILDCARD_SUBSCRIPTION_AVAILABLE || id
        == SUBSCRIPTION_IDENTIFIER_AVAILABLE || id == SHARED_SUBSCRIPTION_AVAILABLE {
        Some(PropertyKind::Byte)
    } else if id == USER_PROPERTY {
        Some(PropertyKind::StrPair)
    } else {
        None
    }
}

pub open spec fn be32(s: Seq<u8>) -> int {
    ((s[0] as int * 256 + s[1] as int) * 256 + s[2] as int) * 256 + s[3] as int
}

/// A length-prefixed byte string at the start of `s`, and the bytes taken.
pub open spec fn parse_string(s: Seq<u8>) -> Option<(Seq<u8>, nat)> {
    if s.len() < 2 || 2 + be16(s[0], s[1]) > s.len() {
        None
    } else {
        Some((s.subrange(2, 2 + be16(s[0], s[1])), (2 + be16(s[0], s[1])) as nat))
    }
}

/// A value of kind `k` at the start of `s`, and the bytes taken.
pub open spec fn parse_value(k: PropertyKind, s: Seq<u8>) -> Option<(PropertyValueView, nat)> {
    match k {
        PropertyKind::Byte => if s.len() >= 1 {
            Some((PropertyValueView::Byte(s[0]), 1))
        } else {
            None
        },
        PropertyKind::TwoByte => if s.len() >= 2 {
            Some((PropertyValueView::TwoByte(be16(s[0], s[1]) as u16), 2))
        } else {
            None
        },
        PropertyKind::FourByte => if s.len() >= 4 {
            Some((PropertyValueView::FourByte(be32(s) as u32), 4))
        } else {
            None
        },
        PropertyKind::Str => match parse_string(s) {
            Some((v, n)) => Some((PropertyValueView::Str(v), n)),
            None => None,
        },
        PropertyKind::Binary => match parse_string(s) {
            Some((v, n)) => Some((PropertyValueView::Binary(v), n)),
            None => None,
        },
        PropertyKind::StrPair => match parse_string(s) {
            Some((a, n)) => match parse_string(s.skip(n as int)) {
                Some((b, m)) => Some((PropertyValueView::StrPair(a, b), n + m)),
                None => None,
            },
            None => None,
        },
    }
}

/// Values the protocol rules out: a zero receive maximum or maximum packet
/// size, a maximum QoS above 1.
pub open spec fn value_forbidden(id: u8, v: PropertyValueView) -> bool {
    match v {
        PropertyValueView::TwoByte(x) => id == RECEIVE_MAXIMUM && x == 0,
        PropertyValueView::FourByte(x) => id == MAXIMUM_PACKET_SIZE && x == 0,
        PropertyValueView::Byte(x) => id == MAXIMUM_QOS && x > 1,
        _ => false,
    }
}

/// The properties held by the bytes `s`, in order. An unknown identifier or
/// a value cut short is `MalformedPacket`; a forbidden value
/// `ProtocolError`.
pub open spec fn parse_props(s: Seq<u8>) -> Result<Seq<(u8, PropertyValueView)>, ReasonMode>
    decreases s.len(),
{
    if s.len() == 0 {
        Ok(Seq::empty())
    } else {
        match kind_of(s[0]) {
            None => Err(ReasonMode::MalformedPacket),
            Some(k) => match parse_value(k, s.drop_first()) {
                None => Err(ReasonMode::MalformedPacket),
                Some((v, n)) => if value_forbidden(s[0], v) {
                    Err(ReasonMode::ProtocolError)
                } else {
                    match parse_props(s.skip(1 + n as int)) {
                        Ok(rest) => Ok(seq![(s[0], v)] + rest),
                        Err(e) => Err(e),
                    }
                },
            },
        }
    }
}

/// Whether an identifier other than UserProperty occurs twice.
pub open spec fn has_duplicate(ps: Seq<(u8, PropertyValueView)>) -> bool {
    exists|i: int, j: int|
        0 <= i < j < ps.len() && #[trigger] ps[i].0 == #[trigger] ps[j].0 && ps[i].0 != USER_PROPERTY
}

/// A property block at `pos` of `s`: its length as a variable byte
/// integer, then that many bytes of properties. Gives the properties and
/// the position after the block. A length that cannot be read or runs past
/// the end is `MalformedPacket`; a repeated identifier, UserProperty aside,
/// `ProtocolError`, after the errors of `parse_props`.
pub open spec fn property_block_decode(s: Seq<u8>, pos: int) -> Result<(Seq<(u8, PropertyValueView)>, nat), ReasonMode> {
    match vbi_decode(s.skip(pos)) {
        None => Err(ReasonMode::MalformedPacket),
        Some((len, n)) => if pos + n + len > s.len() {
            Err(ReasonMode::MalformedPacket)
        } else {
            match parse_props(s.subrange(pos + n, pos + n + len)) {
                Err(e) => Err(e),
                Ok(ps) => if has_duplicate(ps) {
                    Err(ReasonMode::ProtocolError)
                } else {
                    Ok((ps, (pos + n + len) as nat))
                },
            }
        },
    }
}

pub(crate) fn read_string(bytes: &[u8], pos: usize, end: usize) -> (r: Option<(Vec<u8>, usize)>)
    requires
        pos <= end <= bytes@.len(),
    ensures
        match parse_string(bytes@.subrange(pos as int, end as int)) {
            Some((v, n)) => r matches Some((x, q)) && x@ == v && q == pos + n && q <= end,
            None => r is None,
        },
{
    let ghost s = bytes@.subrange(pos as int, end as int);
    if end - pos < 2 {
        return None;
    }
    let l = bytes[pos] as usize * 256 + bytes[pos + 1] as usize;
    assert(l == be16(s[0], s[1]));
    if 2 + l > end - pos {
        return None;
    }
    let v = copy_range(bytes, pos + 2, pos + 2 + l);
    assert(v@ =~= s.subrange(2, 2 + l));
    Some((v, pos + 2 + l))
}

fn read_value(k: PropertyKind, bytes: &[u8], pos: usize, end: usize) -> (r: Option<(PropertyValue, usize)>)
    requires
        pos <= end <= bytes@.len(),
    ensures
        match parse_value(k, bytes@.subrange(pos as int, end as int)) {
            Some((v, n)) => r matches Some((x, q)) && value_view(x) == v && q == pos + n && q <= end,
            None => r is None,
        },
{
    let ghost s = bytes@.subrange(pos as int, end as int);
    match k {
        PropertyKind::Byte => if end - pos >= 1 {
            Some((PropertyValue::Byte(bytes[pos]), pos + 1))
        } else {
            None
        },
        PropertyKind::TwoByte => if end - pos >= 2 {
            Some((PropertyValue::TwoByte(bytes[pos] as u16 * 256 + bytes[pos + 1] as u16), pos + 2))
        } else {
            None
        },
        PropertyKind::FourByte => if end - pos >= 4 {
            let x = ((bytes[pos] as u32 * 256 + bytes[pos + 1] as u32) * 256 + bytes[pos + 2] as u32) * 256
                + bytes[pos + 3] as u32;
            assert(x == be32(s));
            Some((PropertyValue::FourByte(x), pos + 4))
        } else {
            None
        },
        PropertyKind::Str => match read_string(bytes, pos, end) {
            Some((v, q)) => Some((PropertyValue::Str(v), q)),
            None => None,
        },
        PropertyKind::Binary => match read_string(bytes, pos, end) {
            Some((v, q)) => Some((PropertyValue::Binary(v), q)),
            None => None,
        },
        PropertyKind::StrPair => match read_string(bytes, pos, end) {
            Some((a, q)) => {
                proof {
                    let n = (q - pos) as nat;
                    assert(s.skip(n as int) =~= bytes@.subrange(q as int, end as int));
                }
                match read_string(bytes, q, end) {
                    Some((b, q2)) => Some((PropertyValue::StrPair(a, b), q2)),
                    None => None,
                }
            },
            None => None,
        },
    }
}

fn forbidden(id: u8, v: &PropertyValue) -> (r: bool)
    ensures
        r == value_forbidden(id, value_view(*v)),
{
    match v {
        PropertyValue::TwoByte(x) => id == RECEIVE_MAXIMUM && *x == 0,
        PropertyValue::FourByte(x) => id == MAXIMUM_PACKET_SIZE && *x == 0,
        PropertyValue::Byte(x) => id == MAXIMUM_QOS && *x > 1,
        _ => false,
    }
}

/// The properties held by `bytes[pos..end]`.
pub fn parse_properties(bytes: &[u8], pos: usize, end: usize) -> (r: Result<Vec<Property>, ReasonMode>)
    requires
        pos <= end <= bytes@.len(),
    ensures
        match parse_props(bytes@.subrange(pos as int, end as int)) {
            Ok(ps) => r matches Ok(v) && props_view(v@) == ps,
            Err(e) => r == Err::<Vec<Property>, ReasonMode>(e),
        },
{
    let ghost whole = bytes@.subrange(pos as int, end as int);
    let mut out: Vec<Property> = Vec::new();
    let mut i: usize = pos;
    proof {
        assert(props_view(out@) + Seq::<(u8, PropertyValueView)>::empty() =~= props_view(out@));
        assert(Seq::<(u8, PropertyValueView)>::empty() + Seq::<(u8, PropertyValueView)>::empty() =~= Seq::<(u8, PropertyValueView)>::empty());
    }
    while i < end
        invariant
            pos <= i <= end,
            end <= bytes@.len(),
            whole == bytes@.subrange(pos as int, end as int),
            parse_props(whole) == match parse_props(bytes@.subrange(i as int, end as int)) {
                Ok(rest) => Ok::<Seq<(u8, PropertyValueView)>, ReasonMode>(props_view(out@) + rest),
                Err(e) => Err(e),
            },
        decreases end - i,
    {
        let ghost s = bytes@.subrange(i as int, end as int);
        let id = bytes[i];
        proof {
            assert(s.drop_first() =~= bytes@.subrange(i + 1, end as int));
        }
        let k = match property_kind(id) {
            Some(k) => k,
            None => return Err(ReasonMode::MalformedPacket),
        };
        let (value, q) = match read_value(k, bytes, i + 1, end) {
            Some(x) => x,
            None => return Err(ReasonMode::MalformedPacket),
        };
        if forbidden(id, &value) {
            return Err(ReasonMode::ProtocolError);
        }
        let ghost before = out@;
        let ghost v = value_view(value);
        proof {
            let n = (q - i - 1) as nat;
            assert(s.skip(1 + n as int) =~= bytes@.subrange(q as int, end as int));
            match parse_props(bytes@.subrange(q as int, end as int)) {
                Ok(rest) => {
                    assert(props_view(before) + (seq![(id, v)] + rest) =~= props_view(before.push(
                        Property { id, value },
                    )) + rest);
                },
                Err(e) => {},
            }
        }
        out.push(Property { id, value });
        i = q;
    }
    proof {
        assert(props_view(out@) + Seq::<(u8, PropertyValueView)>::empty() =~= props_view(out@));
    }
    Ok(out)
}

/// Whether an identifier other than UserProperty occurs twice in `ps`.
pub fn find_duplicate(ps: &Vec<Property>) -> (r: bool)
    ensures
        r == has_duplicate(props_view(ps@)),
{
    let ghost v = props_view(ps@);
    let mut j: usize = 0;
    while j < ps.len()
        invariant
            v == props_view(ps@),
            j <= ps@.len(),
            forall|a: int, b: int|
                0 <= a < b < j ==> !(#[trigger] v[a].0 == #[trigger] v[b].0 && v[a].0 != USER_PROPERTY),
        decreases ps@.len() - j,
    {
        let mut i: usize = 0;
        while i < j
            invariant
                v == props_view(ps@),
                i <= j < ps@.len(),
                forall|a: int| 0 <= a < i ==> !(#[trigger] v[a].0 == v[j as int].0 && v[a].0 != USER_PROPERTY),
            decreases j - i,
        {
            if ps[i].id == ps[j].id && ps[i].id != USER_PROPERTY {
                assert(v[i as int].0 == v[j as int].0);
                return true;
            }
            i = i + 1;
        }
        j = j + 1;
    }
    false
}

/// Reads the property block at `pos` of `bytes`: the properties and the
/// position after the block.
pub fn decode_property_block(bytes: &[u8], pos: usize) -> (r: Result<(Vec<Property>, usize), ReasonMode>)
    requires
        pos <= bytes@.len(),
    ensures
        match property_block_decode(bytes@, pos as int) {
            Ok((ps, next)) => r matches Ok((v, q)) && props_view(v@) == ps && q == next,
            Err(e) => r == Err::<(Vec<Property>, usize), ReasonMode>(e),
        },
{
    proof {
        lemma_vbi_decode_bound(bytes@.skip(pos as int));
    }
    let (len, start) = match decode_vbi(bytes, pos) {
        Ok(x) => x,
        Err(e) => return Err(e),
    };
    if len as usize > bytes.len() - start {
        return Err(ReasonMode::MalformedPacket);
    }
    let end = start + len as usize;
    let props = match parse_properties(bytes, start, end) {
        Ok(p) => p,
        Err(e) => return Err(e),
    };
    if find_duplicate(&props) {
        return Err(ReasonMode::ProtocolError);
    }
    Ok((props, end))
}

pub open spec fn be32_bytes(x: u32) -> Seq<u8> {
    seq![(x / 16777216) as u8, ((x / 65536) % 256) as u8, ((x / 256) % 256) as u8, (x % 256) as u8]
}

pub open spec fn string_bytes(s: Seq<u8>) -> Seq<u8> {
    u16_bytes(s.len() as u16) + s
}

pub open spec fn value_bytes(v: PropertyValueView) -> Seq<u8> {
    match v {
        PropertyValueView::Byte(b) => seq![b],
        PropertyValueView::TwoByte(x) => u16_bytes(x),
        PropertyValueView::FourByte(x) => be32_bytes(x),
        PropertyValueView::Str(s) => string_bytes(s),
        PropertyValueView::StrPair(a, b) => string_bytes(a) + string_bytes(b),
        PropertyValueView::Binary(b) => string_bytes(b),
    }
}

/// The bytes of a list of properties, one after another.
pub open spec fn props_bytes(ps: Seq<(u8, PropertyValueView)>) -> Seq<u8>
    decreases ps.len(),
{
    if ps.len() == 0 {
        Seq::empty()
    } else {
        seq![ps[0].0] + value_bytes(ps[0].1) + props_bytes(ps.drop_first())
    }
}

pub open spec fn kind_of_value(v: PropertyValueView) -> PropertyKind {
    match v {
        PropertyValueView::Byte(_) => PropertyKind::Byte,
        PropertyValueView::TwoByte(_) => PropertyKind::TwoByte,
        PropertyValueView::FourByte(_) => PropertyKind::FourByte,
        PropertyValueView::Str(_) => PropertyKind::Str,
        PropertyValueView::StrPair(_, _) => PropertyKind::StrPair,
        PropertyValueView::Binary(_) => PropertyKind::Binary,
    }
}

/// A property that can be written and read back: a recognised identifier
/// with a value of its type, strings that fit a two-byte length, and no
/// value the protocol rules out.
pub open spec fn well_typed(id: u8, v: PropertyValueView) -> bool {
    &&& kind_of(id) == Some(kind_of_value(v))
    &&& !value_forbidden(id, v)
    &&& match v {
        PropertyValueView::Str(s) => s.len() <= 65535,
        PropertyValueView::Binary(s) => s.len() <= 65535,
        PropertyValueView::StrPair(a, b) => a.len() <= 65535 && b.len() <= 65535,
        _ => true,
    }
}

pub(crate) proof fn lemma_string_round_trip(s: Seq<u8>, rest: Seq<u8>)
    requires
        s.len() <= 65535,
    ensures
        parse_string(string_bytes(s) + rest) == Some((s, string_bytes(s).len())),
{
    let b = string_bytes(s) + rest;
    assert(be16(b[0], b[1]) == s.len());
    assert(b.subrange(2, 2 + s.len() as int) =~= s);
}

proof fn lemma_value_round_trip(v: PropertyValueView, rest: Seq<u8>)
    requires
        match v {
            PropertyValueView::Str(s) => s.len() <= 65535,
            PropertyValueView::Binary(s) => s.len() <= 65535,
            PropertyValueView::StrPair(a, b) => a.len() <= 65535 && b.len() <= 65535,
            _ => true,
        },
    ensures
        parse_value(kind_of_value(v), value_bytes(v) + rest) == Some((v, value_bytes(v).len())),
{
    let b = value_bytes(v) + rest;
    match v {
        PropertyValueView::Byte(x) => {},
        PropertyValueView::TwoByte(x) => {
            assert(be16(b[0], b[1]) == x);
        },
        PropertyValueView::FourByte(x) => {
            assert(be32(b) == x);
        },
        PropertyValueView::Str(s) => {
            lemma_string_round_trip(s, rest);
        },
        PropertyValueView::Binary(s) => {
            lemma_string_round_trip(s, rest);
        },
        PropertyValueView::StrPair(x, y) => {
            assert(b =~= string_bytes(x) + (string_bytes(y) + rest));
            lemma_string_round_trip(x, string_bytes(y) + rest);
            assert(b.skip(string_bytes(x).len() as int) =~= string_bytes(y) + rest);
            lemma_string_round_trip(y, rest);
        },
    }
}

/// Reading the bytes of well-typed properties gives them back, in order.
pub proof fn lemma_props_round_trip(ps: Seq<(u8, PropertyValueView)>)
    requires
        forall|i: int| 0 <= i < ps.len() ==> well_typed(#[trigger] ps[i].0, ps[i].1),
    ensures
        parse_props(props_bytes(ps)) == Ok::<Seq<(u8, PropertyValueView)>, ReasonMode>(ps),
    decreases ps.len(),
{
    if ps.len() > 0 {
        let s = props_bytes(ps);
        let (id, v) = ps[0];
        assert(well_typed(ps[0].0, ps[0].1));
        let tail = props_bytes(ps.drop_first());
        assert(s[0] == id);
        assert(s.drop_first() =~= value_bytes(v) + tail);
        lemma_value_round_trip(v, tail);
        let n = value_bytes(v).len();
        assert(s.skip(1 + n as int) =~= tail);
        assert forall|i: int| 0 <= i < ps.drop_first().len() implies well_typed(
            #[trigger] ps.drop_first()[i].0,
            ps.drop_first()[i].1,
        ) by {
            assert(ps.drop_first()[i] == ps[i + 1]);
        }
        lemma_props_round_trip(ps.drop_first());
        assert(seq![(id, v)] + ps.drop_first() =~= ps);
    } else {
        assert(ps =~= Seq::<(u8, PropertyValueView)>::empty());
    }
}

/// A property block holding well-typed properties with no repeated
/// identifier but UserProperty decodes to those properties, wherever it
/// stands and whatever follows it.
pub proof fn lemma_property_block_round_trip(pre: Seq<u8>, ps: Seq<(u8, PropertyValueView)>, rest: Seq<u8>)
    requires
        forall|i: int| 0 <= i < ps.len() ==> well_typed(#[trigger] ps[i].0, ps[i].1),
        !has_duplicate(ps),
        props_bytes(ps).len() <= VBI_MAX,
    ensures
        property_block_decode(pre + property_block_bytes(ps) + rest, pre.len() as int)
            == Ok::<(Seq<(u8, PropertyValueView)>, nat), ReasonMode>(
            (ps, pre.len() + property_block_bytes(ps).len()),
        ),
        property_block_bytes(ps).len() >= 1,
{
    let body = props_bytes(ps);
    let e = vbi_encoding(body.len());
    let s = pre + property_block_bytes(ps) + rest;
    assert(s.skip(pre.len() as int) =~= e + (body + rest));
    lemma_vbi_round_trip(body.len(), body + rest);
    assert(s.subrange((pre.len() + e.len()) as int, (pre.len() + e.len() + body.len()) as int) =~= body);
    lemma_props_round_trip(ps);
}

/// The bytes of a property block: the length, then the properties.
pub open spec fn property_block_bytes(ps: Seq<(u8, PropertyValueView)>) -> Seq<u8> {
    vbi_encoding(props_bytes(ps).len()) + props_bytes(ps)
}

fn write_string(s: &[u8], out: &mut Vec<u8>)
    requires
        s@.len() <= 65535,
    ensures
        final(out)@ == old(out)@ + string_bytes(s@),
{
    let n = s.len();
    out.push((n / 256) as u8);
    out.push((n % 256) as u8);
    append_bytes(out, s);
    assert(final(out)@ =~= old(out)@ + string_bytes(s@));
}

fn write_value(v: &PropertyValue, out: &mut Vec<u8>)
    requires
        match value_view(*v) {
            PropertyValueView::Str(s) => s.len() <= 65535,
            PropertyValueView::Binary(s) => s.len() <= 65535,
            PropertyValueView::StrPair(a, b) => a.len() <= 65535 && b.len() <= 65535,
            _ => true,
        },
    ensures
        final(out)@ == old(out)@ + value_bytes(value_view(*v)),
{
    match v {
        PropertyValue::Byte(b) => {
            out.push(*b);
        },
        PropertyValue::TwoByte(x) => {
            out.push((*x / 256) as u8);
            out.push((*x % 256) as u8);
        },
        PropertyValue::FourByte(x) => {
            out.push((*x / 16777216) as u8);
            out.push(((*x / 65536) % 256) as u8);
            out.push(((*x / 256) % 256) as u8);
            out.push((*x % 256) as u8);
        },
        PropertyValue::Str(s) => {
            write_string(s.as_slice(), out);
        },
        PropertyValue::StrPair(a, b) => {
            write_string(a.as_slice(), out);
            write_string(b.as_slice(), out);
        },
        PropertyValue::Binary(s) => {
            write_string(s.as_slice(), out);
        },
    }
    assert(final(out)@ =~= old(out)@ + value_bytes(value_view(*v)));
}

/// Appends the property block of `ps` to `out`: its length, then each
/// property in order.
pub fn write_property_block(ps: &Vec<Property>, out: &mut Vec<u8>)
    requires
        forall|i: int| 0 <= i < ps@.len() ==> well_typed(#[trigger] props_view(ps@)[i].0, props_view(ps@)[i].1),
        props_bytes(props_view(ps@)).len() <= VBI_MAX,
    ensures
        final(out)@ == old(out)@ + property_block_bytes(props_view(ps@)),
{
    let ghost v = props_view(ps@);
    let mut body: Vec<u8> = Vec::new();
    let mut i: usize = 0;
    assert(v.skip(0) =~= v);
    assert(body@ + props_bytes(v) =~= props_bytes(v));
    while i < ps.len()
        invariant
            v == props_view(ps@),
            i <= ps@.len(),
            forall|k: int| 0 <= k < ps@.len() ==> well_typed(#[trigger] v[k].0, v[k].1),
            props_bytes(v) == body@ + props_bytes(v.skip(i as int)),
        decreases ps@.len() - i,
    {
        let ghost before = body@;
        assert(well_typed(v[i as int].0, v[i as int].1));
        body.push(ps[i].id);
        write_value(&ps[i].value, &mut body);
        proof {
            let t = v.skip(i as int);
            assert(t[0] == v[i as int]);
            assert(t.drop_first() =~= v.skip(i + 1));
            assert(props_bytes(t) == seq![t[0].0] + value_bytes(t[0].1) + props_bytes(t.drop_first()));
            assert(body@ =~= before + seq![t[0].0] + value_bytes(t[0].1));
        }
        i = i + 1;
    }
    assert(v.skip(i as int).len() == 0);
    assert(body@ =~= props_bytes(v));
    write_vbi(body.len() as u32, out);
    append_bytes(out, body.as_slice());
    assert(final(out)@ =~= old(out)@ + property_block_bytes(v));
}

} // verus!
