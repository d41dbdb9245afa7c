use vstd::prelude::*;
use vstd::utf8::encode_utf8;
use crate::acks::{props_writable, PropsView};
use crate::bytes::{append_bytes, copy_bytes, copy_range};
use crate::fixed_header::{header_bytes, header_parse, lemma_header_round_trip, PacketFixedHeader, CONNECT_PACKET};
use crate::properties::{
    decode_property_block, lemma_property_block_round_trip, lemma_string_round_trip, parse_string,
    property_block_bytes, property_block_decode, props_view, read_string, string_bytes,
    write_property_block, Property,
};
use crate::publish::{be16, u16_bytes};
use crate::reason_codes::ReasonMode;
use crate::strings::{is_valid_mqtt_string, valid_mqtt_string};
use crate::vbi::VBI_MAX;

verus! {

/// The keep-alive interval, in seconds, of a CONNECT made by `Connect::new`.
pub const DEFAULT_KEEP_ALIVE: u16 = 60;

/// The connect flag that asks for a fresh session.
pub const CLEAN_START_FLAG: u8 = 0x02;

/// The connect flag that announces a password.
pub const PASSWORD_FLAG: u8 = 0x40;

/// The connect flag that announces a user name.
pub const USER_NAME_FLAG: u8 = 0x80;

/// The will of a CONNECT: the message the broker publishes for the client
/// when its connection ends without a DISCONNECT.
#[derive(Debug)]
pub struct Will {
    pub properties: Vec<Property>,
    pub topic: Vec<u8>,
    pub payload: Vec<u8>,
    pub qos: u8,
    pub retain: bool,
}

pub struct WillView {
    pub properties: PropsView,
    pub topic: Seq<u8>,
    pub payload: Seq<u8>,
    pub qos: u8,
    pub retain: bool,
}

pub open spec fn will_view(w: Will) -> WillView {
    WillView {
        properties: props_view(w.properties@),
        topic: w.topic@,
        payload: w.payload@,
        qos: w.qos,
        retain: w.retain,
    }
}

/// A CONNECT packet of protocol "MQTT" version 5.
#[derive(Debug)]
pub struct Connect {
    pub client_id: Vec<u8>,
    pub clean_start: bool,
    pub keep_alive: u16,
    pub properties: Vec<Property>,
    pub will: Option<Will>,
    pub username: Option<Vec<u8>>,
    pub password: Option<Vec<u8>>,
}

pub struct ConnectView {
    pub client_id: Seq<u8>,
    pub clean_start: bool,
    pub keep_alive: u16,
    pub properties: PropsView,
    pub will: Option<WillView>,
    pub username: Option<Seq<u8>>,
    pub password: Option<Seq<u8>>,
}

pub open spec fn opt_view(o: Option<Vec<u8>>) -> Option<Seq<u8>> {
    match o {
        Some(v) => Some(v@),
        None => None,
    }
}

impl View for Connect {
    type V = ConnectView;

    open spec fn view(&self) -> ConnectView {
        ConnectView {
            client_id: self.client_id@,
            clean_start: self.clean_start,
            keep_alive: self.keep_alive,
            properties: props_view(self.properties@),
            will: match self.will {
                Some(w) => Some(will_view(w)),
                None => None,
            },
            username: opt_view(self.username),
            password: opt_view(self.password),
        }
    }
}

pub open spec fn mqtt_name() -> Seq<u8> {
    seq![0x4Du8, 0x51u8, 0x54u8, 0x54u8]
}

pub open spec fn protocol_header() -> Seq<u8> {
    seq![0u8, 4u8, 0x4Du8, 0x51u8, 0x54u8, 0x54u8, 5u8]
}

pub open spec fn connect_flags(c: ConnectView) -> u8 {
    ((if c.username is Some { 128int } else { 0int }) + (if c.password is Some { 64int } else { 0int })
        + (match c.will {
        Some(w) => 4 + 8 * w.qos + (if w.retain { 32int } else { 0int }),
        None => 0int,
    }) + (if c.clean_start { 2int } else { 0int })) as u8
}

/// Connect flags this library reads: the reserved bit clear, a will QoS of
/// 0 or 1, and no will QoS or will retain without the will flag.
pub open spec fn flags_supported(f: u8) -> bool {
    &&& f % 2 == 0
    &&& (f / 8) % 4 <= 1
    &&& (f / 4) % 2 == 0 ==> (f / 8) % 4 == 0 && (f / 32) % 2 == 0
}

pub open spec fn will_bytes(w: Option<WillView>) -> Seq<u8> {
    match w {
        Some(w) => property_block_bytes(w.properties) + string_bytes(w.topic) + string_bytes(w.payload),
        None => Seq::empty(),
    }
}

/// The will at `pos` of `b` where `present`: its property block, a topic
/// that must be a valid string, and a payload; and the position after it.
pub open spec fn parse_will(b: Seq<u8>, pos: int, present: bool, qos: u8, retain: bool) -> Result<
    (Option<WillView>, int),
    ReasonMode,
> {
    if !present {
        Ok((None, pos))
    } else {
        match property_block_decode(b, pos) {
            Err(e) => Err(e),
            Ok((wps, q1)) => match parse_string(b.skip(q1 as int)) {
                None => Err(ReasonMode::MalformedPacket),
                Some((t, n1)) => if !valid_mqtt_string(t) {
                    Err(ReasonMode::MalformedPacket)
                } else {
                    match parse_string(b.skip(q1 + n1 as int)) {
                        None => Err(ReasonMode::MalformedPacket),
                        Some((pl, n2)) => Ok(
                            (
                                Some(WillView { properties: wps, topic: t, payload: pl, qos, retain }),
                                q1 + n1 as int + n2 as int,
                            ),
                        ),
                    }
                },
            },
        }
    }
}

pub open spec fn opt_string_bytes(o: Option<Seq<u8>>) -> Seq<u8> {
    match o {
        Some(s) => string_bytes(s),
        None => Seq::empty(),
    }
}

/// Protocol name and version, connect flags, keep-alive, the property
/// block, the client identifier, then the will, user name and password
/// where present.
pub open spec fn connect_body(c: ConnectView) -> Seq<u8> {
    protocol_header() + seq![connect_flags(c)] + u16_bytes(c.keep_alive) + property_block_bytes(
        c.properties,
    ) + string_bytes(c.client_id) + will_bytes(c.will) + opt_string_bytes(c.username)
        + opt_string_bytes(c.password)
}

pub open spec fn connect_bytes(c: ConnectView) -> Seq<u8> {
    header_bytes(CONNECT_PACKET, connect_body(c).len()) + connect_body(c)
}

/// A string at `pos` of `b` where `present`, and the position after it.
pub open spec fn parse_opt(b: Seq<u8>, pos: int, present: bool) -> Option<(Option<Seq<u8>>, int)> {
    if !present {
        Some((None, pos))
    } else {
        match parse_string(b.skip(pos)) {
            Some((s, n)) => Some((Some(s), pos + n)),
            None => None,
        }
    }
}

/// Reads the body of a CONNECT. A protocol name that is not a valid
/// string is `MalformedPacket`; a valid one other than "MQTT", or a version
/// other than 5, is `UnsupportedProtocolVersion`; a body cut short, the
/// flags outside `flags_supported`, a client identifier, will topic or user
/// name that is not a valid string, or bytes left after the last field is
/// `MalformedPacket`; the property blocks bring their own errors.
pub open spec fn connect_body_decode(b: Seq<u8>) -> Result<ConnectView, ReasonMode> {
    match parse_string(b) {
        None => Err(ReasonMode::MalformedPacket),
        Some((name, _)) => if name != mqtt_name() {
            if !valid_mqtt_string(name) {
                Err(ReasonMode::MalformedPacket)
            } else {
                Err(ReasonMode::UnsupportedProtocolVersion)
            }
        } else if b.len() < 7 {
            Err(ReasonMode::MalformedPacket)
        } else if b[6] != 5 {
            Err(ReasonMode::UnsupportedProtocolVersion)
        } else {
            connect_fields_decode(b)
        },
    }
}

/// The fields after protocol name and version.
pub open spec fn connect_fields_decode(b: Seq<u8>) -> Result<ConnectView, ReasonMode> {
    if b.len() < 10 || !flags_supported(b[7]) {
        Err(ReasonMode::MalformedPacket)
    } else {
        match property_block_decode(b, 10) {
            Err(e) => Err(e),
            Ok((ps, p1)) => match parse_string(b.skip(p1 as int)) {
                None => Err(ReasonMode::MalformedPacket),
                Some((id, n)) => if !valid_mqtt_string(id) {
                    Err(ReasonMode::MalformedPacket)
                } else {
                    match parse_will(b, p1 + n as int, (b[7] / 4) % 2 == 1, (b[7] / 8) % 4, (b[7] / 32) % 2 == 1) {
                        Err(e) => Err(e),
                        Ok((will, p2)) => match parse_opt(b, p2, b[7] >= 128) {
                        None => Err(ReasonMode::MalformedPacket),
                        Some((user, p3)) => if user matches Some(u) && !valid_mqtt_string(u) {
                            Err(ReasonMode::MalformedPacket)
                        } else {
                            match parse_opt(b, p3, (b[7] / 64) % 2 == 1) {
                                None => Err(ReasonMode::MalformedPacket),
                                Some((pw, p4)) => if p4 != b.len() {
                                    Err(ReasonMode::MalformedPacket)
                                } else {
                                    Ok(
                                        ConnectView {
                                            client_id: id,
                                            clean_start: (b[7] / 2) % 2 == 1,
                                            keep_alive: be16(b[8], b[9]) as u16,
                                            properties: ps,
                                            will,
                                            username: user,
                                            password: pw,
                                        },
                                    )
                                },
                            }
                        },
                    },
                    }
                },
            },
        }
    }
}

/// Reads a whole CONNECT at the start of `s`, and the number of bytes taken.
pub open spec fn connect_decode(s: Seq<u8>) -> Result<(ConnectView, nat), ReasonMode> {
    match header_parse(s) {
        None => Err(ReasonMode::MalformedPacket),
        Some((t, len, n)) => if t != CONNECT_PACKET || n + len > s.len() {
            Err(ReasonMode::MalformedPacket)
        } else {
            match connect_body_decode(s.subrange(n as int, (n + len) as int)) {
                Ok(c) => Ok((c, n + len)),
                Err(e) => Err(e),
            }
        },
    }
}

/// What can be written and read back: strings that fit a two-byte length,
/// a client identifier and user name that are valid strings, writable
/// properties, and a body a variable byte integer can measure.
pub open spec fn connect_writable(c: ConnectView) -> bool {
    &&& c.client_id.len() <= 65535
    &&& valid_mqtt_string(c.client_id)
    &&& c.will matches Some(w) ==> props_writable(w.properties) && w.topic.len() <= 65535
        && valid_mqtt_string(w.topic) && w.payload.len() <= 65535 && w.qos <= 1
    &&& c.username matches Some(u) ==> u.len() <= 65535 && valid_mqtt_string(u)
    &&& c.password matches Some(p) ==> p.len() <= 65535
    &&& props_writable(c.properties)
    &&& connect_body(c).len() <= VBI_MAX
}

proof fn lemma_connect_body_round_trip(c: ConnectView)
    requires
        connect_writable(c),
    ensures
        connect_body_decode(connect_body(c)) == Ok::<ConnectView, ReasonMode>(c),
{
    let b = connect_body(c);
    assert(b.subrange(0, 7) =~= protocol_header());
    assert(be16(b[0], b[1]) == 4);
    assert(b.subrange(2, 6) =~= mqtt_name());
    assert(b[6] == 5);
    lemma_connect_fields_round_trip(c);
}

proof fn lemma_connect_flags(c: ConnectView)
    requires
        connect_writable(c),
    ensures
        flags_supported(connect_flags(c)),
        connect_flags(c) >= 128 <==> c.username is Some,
        (connect_flags(c) / 64) % 2 == 1 <==> c.password is Some,
        (connect_flags(c) / 2) % 2 == 1 <==> c.clean_start,
        (connect_flags(c) / 4) % 2 == 1 <==> c.will is Some,
        c.will matches Some(w) ==> (connect_flags(c) / 8) % 4 == w.qos && ((connect_flags(c) / 32) % 2 == 1
            <==> w.retain),
{
}

proof fn lemma_will_round_trip(pre: Seq<u8>, w: Option<WillView>, rest: Seq<u8>, qos: u8, retain: bool)
    requires
        w matches Some(x) ==> props_writable(x.properties) && x.topic.len() <= 65535 && valid_mqtt_string(
            x.topic,
        ) && x.payload.len() <= 65535 && x.qos == qos && x.retain == retain,
    ensures
        parse_will(pre + will_bytes(w) + rest, pre.len() as int, w is Some, qos, retain) == Ok::<
            (Option<WillView>, int),
            ReasonMode,
        >((w, pre.len() + will_bytes(w).len() as int)),
{
    let b = pre + will_bytes(w) + rest;
    if let Some(x) = w {
        let tb = string_bytes(x.topic);
        let pb = string_bytes(x.payload);
        assert(b =~= pre + property_block_bytes(x.properties) + (tb + pb + rest));
        lemma_property_block_round_trip(pre, x.properties, tb + pb + rest);
        let q1 = pre.len() + property_block_bytes(x.properties).len();
        assert(b.skip(q1 as int) =~= tb + (pb + rest));
        lemma_string_round_trip(x.topic, pb + rest);
        assert(b.skip(q1 + tb.len() as int) =~= pb + rest);
        lemma_string_round_trip(x.payload, rest);
    } else {
        assert(b =~= pre + rest);
    }
}

#[verifier::rlimit(60)]
proof fn lemma_connect_fields_round_trip(c: ConnectView)
    requires
        connect_writable(c),
    ensures
        connect_fields_decode(connect_body(c)) == Ok::<ConnectView, ReasonMode>(c),
{
    let b = connect_body(c);
    let f = connect_flags(c);
    let pre = protocol_header() + seq![f] + u16_bytes(c.keep_alive);
    let ids = string_bytes(c.client_id);
    let ws = will_bytes(c.will);
    let us = opt_string_bytes(c.username);
    let pws = opt_string_bytes(c.password);
    assert(b =~= pre + property_block_bytes(c.properties) + (ids + ws + us + pws));
    assert(b[7] == f);
    lemma_connect_flags(c);
    assert(be16(b[8], b[9]) == c.keep_alive);
    lemma_property_block_round_trip(pre, c.properties, ids + ws + us + pws);
    let p1 = pre.len() + property_block_bytes(c.properties).len();
    assert(b.skip(p1 as int) =~= ids + (ws + us + pws));
    lemma_string_round_trip(c.client_id, ws + us + pws);
    let pre2 = pre + property_block_bytes(c.properties) + ids;
    assert(b =~= pre2 + ws + (us + pws));
    let wq: u8 = (f / 8) % 4;
    let wr: bool = (f / 32) % 2 == 1;
    lemma_will_round_trip(pre2, c.will, us + pws, wq, wr);
    let p2 = pre2.len() + ws.len();
    if c.username is Some {
        assert(b.skip(p2 as int) =~= us + pws);
        lemma_string_round_trip(c.username.unwrap(), pws);
    }
    let p3 = p2 + us.len();
    if c.password is Some {
        assert(b.skip(p3 as int) =~= pws + Seq::<u8>::empty());
        lemma_string_round_trip(c.password.unwrap(), Seq::empty());
    }
}

/// Decoding the bytes of a CONNECT gives it back, whatever follows them.
#[verifier::rlimit(80)]
pub proof fn lemma_connect_round_trip(c: ConnectView, rest: Seq<u8>)
    requires
        connect_writable(c),
    ensures
        connect_decode(connect_bytes(c) + rest) == Ok::<(ConnectView, nat), ReasonMode>(
            (c, connect_bytes(c).len()),
        ),
{
    let body = connect_body(c);
    let h = header_bytes(CONNECT_PACKET, body.len());
    let s = connect_bytes(c) + rest;
    assert(s =~= h + (body + rest));
    lemma_header_round_trip(CONNECT_PACKET, body.len(), body + rest);
    let n = h.len();
    assert(s.subrange(n as int, (n + body.len()) as int) =~= body);
    lemma_connect_body_round_trip(c);
}

fn write_string(s: &[u8], out: &mut Vec<u8>)
    requires
        s@.len() <= 65535,
    ensures
        final(out)@ == old(out)@ + string_bytes(s@),
{
    let n = s.len();
    out.push((n / 256) as u8);
    out.push((n % 256) as u8);
    append_bytes(out, s);
    assert(final(out)@ =~= old(out)@ + string_bytes(s@));
}

fn read_opt(b: &[u8], pos: usize, present: bool) -> (r: Option<(Option<Vec<u8>>, usize)>)
    requires
        pos <= b@.len(),
    ensures
        match parse_opt(b@, pos as int, present) {
            Some((o, q)) => r matches Some((x, m)) && opt_view(x) == o && m == q && m <= b@.len(),
            None => r is None,
        },
{
    if !present {
        return Some((None, pos));
    }
    assert(b@.skip(pos as int) =~= b@.subrange(pos as int, b@.len() as int));
    match read_string(b, pos, b.len()) {
        Some((s, q)) => Some((Some(s), q)),
        None => None,
    }
}

fn read_will(b: &[u8], pos: usize, present: bool, qos: u8, retain: bool) -> (r: Result<
    (Option<Will>, usize),
    ReasonMode,
>)
    requires
        pos <= b@.len(),
    ensures
        match parse_will(b@, pos as int, present, qos, retain) {
            Ok((w, q)) => r matches Ok((x, m)) && m == q && m <= b@.len() && match x {
                Some(y) => w == Some(will_view(y)),
                None => w is None,
            },
            Err(e) => r == Err::<(Option<Will>, usize), ReasonMode>(e),
        },
{
    if !present {
        return Ok((None, pos));
    }
    let (properties, q1) = match decode_property_block(b, pos) {
        Ok(x) => x,
        Err(e) => return Err(e),
    };
    assert(b@.skip(q1 as int) =~= b@.subrange(q1 as int, b@.len() as int));
    let (topic, q2) = match read_string(b, q1, b.len()) {
        Some(x) => x,
        None => return Err(ReasonMode::MalformedPacket),
    };
    if !is_valid_mqtt_string(topic.as_slice()) {
        return Err(ReasonMode::MalformedPacket);
    }
    assert(b@.skip(q2 as int) =~= b@.subrange(q2 as int, b@.len() as int));
    let (payload, q3) = match read_string(b, q2, b.len()) {
        Some(x) => x,
        None => return Err(ReasonMode::MalformedPacket),
    };
    Ok((Some(Will { properties, topic, payload, qos, retain }), q3))
}

#[verifier::rlimit(60)]
fn read_fields(b: &[u8]) -> (r: Result<Connect, ReasonMode>)
    ensures
        match connect_fields_decode(b@) {
            Ok(v) => r matches Ok(c) && c@ == v,
            Err(e) => r == Err::<Connect, ReasonMode>(e),
        },
{
    if b.len() < 10 {
        return Err(ReasonMode::MalformedPacket);
    }
    let flags = b[7];
    if !(flags % 2 == 0 && (flags / 8) % 4 <= 1 && ((flags / 4) % 2 == 1 || ((flags / 8) % 4 == 0 && (flags
        / 32) % 2 == 0))) {
        return Err(ReasonMode::MalformedPacket);
    }
    let keep_alive = b[8] as u16 * 256 + b[9] as u16;
    let (properties, p1) = match decode_property_block(b, 10) {
        Ok(x) => x,
        Err(e) => return Err(e),
    };
    assert(b@.skip(p1 as int) =~= b@.subrange(p1 as int, b@.len() as int));
    let (client_id, p2) = match read_string(b, p1, b.len()) {
        Some(x) => x,
        None => return Err(ReasonMode::MalformedPacket),
    };
    if !is_valid_mqtt_string(client_id.as_slice()) {
        return Err(ReasonMode::MalformedPacket);
    }
    let (will, p2w) = match read_will(b, p2, (flags / 4) % 2 == 1, (flags / 8) % 4, (flags / 32) % 2 == 1) {
        Ok(x) => x,
        Err(e) => return Err(e),
    };
    let (username, p3) = match read_opt(b, p2w, flags >= 128) {
        Some(x) => x,
        None => return Err(ReasonMode::MalformedPacket),
    };
    match &username {
        Some(u) => if !is_valid_mqtt_string(u.as_slice()) {
            return Err(ReasonMode::MalformedPacket);
        },
        None => {},
    }
    let (password, p4) = match read_opt(b, p3, (flags / 64) % 2 == 1) {
        Some(x) => x,
        None => return Err(ReasonMode::MalformedPacket),
    };
    if p4 != b.len() {
        return Err(ReasonMode::MalformedPacket);
    }
    let connect = Connect {
        client_id,
        clean_start: (flags / 2) % 2 == 1,
        keep_alive,
        properties,
        will,
        username,
        password,
    };
    Ok(connect)
}

impl Connect {
    /// A CONNECT for `client_id` that asks for a clean start, with the
    /// default keep-alive and no properties, will, user name or password.
    pub fn new(client_id: String) -> (r: Self)
        ensures
            r.client_id@ == encode_utf8(client_id@),
            r.clean_start,
            r.keep_alive == DEFAULT_KEEP_ALIVE,
            r.properties@.len() == 0,
            r.will is None,
            r.username is None,
            r.password is None,
    {
        let id = copy_bytes(client_id.as_str().as_bytes());
        Connect {
            client_id: id,
            clean_start: true,
            keep_alive: DEFAULT_KEEP_ALIVE,
            properties: Vec::new(),
            will: None,
            username: None,
            password: None,
        }
    }

    /// Appends the bytes of this packet to `out`.
    #[verifier::rlimit(80)]
    pub fn write_to(&self, out: &mut Vec<u8>)
        requires
            connect_writable(self@),
        ensures
            final(out)@ == old(out)@ + connect_bytes(self@),
    {
        let ghost c = self@;
        let mut body: Vec<u8> = Vec::new();
        body.push(0u8);
        body.push(4u8);
        body.push(0x4Du8);
        body.push(0x51u8);
        body.push(0x54u8);
        body.push(0x54u8);
        body.push(5u8);
        let flags: u8 = (if self.username.is_some() { USER_NAME_FLAG } else { 0u8 }) + (if self.password.is_some() {
            PASSWORD_FLAG
        } else {
            0u8
        }) + (match &self.will {
            Some(w) => 4u8 + 8 * w.qos + (if w.retain { 32u8 } else { 0u8 }),
            None => 0u8,
        }) + (if self.clean_start { CLEAN_START_FLAG } else { 0u8 });
        assert(flags == connect_flags(c));
        body.push(flags);
        body.push((self.keep_alive / 256) as u8);
        body.push((self.keep_alive % 256) as u8);
        assert(body@ =~= protocol_header() + seq![connect_flags(c)] + u16_bytes(c.keep_alive));
        write_property_block(&self.properties, &mut body);
        write_string(self.client_id.as_slice(), &mut body);
        let ghost head = body@;
        match &self.will {
            Some(w) => {
                write_property_block(&w.properties, &mut body);
                write_string(w.topic.as_slice(), &mut body);
                write_string(w.payload.as_slice(), &mut body);
            },
            None => {},
        }
        assert(body@ =~= head + will_bytes(c.will));
        let ghost head2 = body@;
        match &self.username {
            Some(u) => write_string(u.as_slice(), &mut body),
            None => {},
        }
        match &self.password {
            Some(p) => write_string(p.as_slice(), &mut body),
            None => {},
        }
        assert(body@ =~= head2 + opt_string_bytes(c.username) + opt_string_bytes(c.password));
        assert(body@ =~= connect_body(c));
        let header = PacketFixedHeader::new(CONNECT_PACKET, body.len() as u32);
        let hb = header.as_bytes();
        append_bytes(out, hb.as_slice());
        append_bytes(out, body.as_slice());
        assert(final(out)@ =~= old(out)@ + connect_bytes(c));
    }

    /// Reads a CONNECT at the start of `bytes`, and the number of bytes it
    /// took.
    pub fn read_from(bytes: &[u8]) -> (r: Result<(Connect, usize), ReasonMode>)
        ensures
            match connect_decode(bytes@) {
                Ok((v, n)) => r matches Ok((c, m)) && c@ == v && m == n,
                Err(e) => r == Err::<(Connect, usize), ReasonMode>(e),
            },
    {
        let (header, n) = match PacketFixedHeader::read_from(bytes) {
            Ok(h) => h,
            Err(e) => return Err(e),
        };
        let len = header.remaining_length as usize;
        if header.packet_type != CONNECT_PACKET || len > bytes.len() - n {
            return Err(ReasonMode::MalformedPacket);
        }
        let body = copy_range(bytes, n, n + len);
        let b = body.as_slice();
        let (name, q) = match read_string(b, 0, len) {
            Some(x) => x,
            None => {
                assert(b@.subrange(0, len as int) =~= b@);
                return Err(ReasonMode::MalformedPacket);
            },
        };
        assert(b@.subrange(0, len as int) =~= b@);
        let is_mqtt = name.len() == 4 && name[0] == 0x4D && name[1] == 0x51 && name[2] == 0x54 && name[3] == 0x54;
        if !is_mqtt {
            proof {
                if name@ == mqtt_name() {
                    assert(name@[0] == 0x4D && name@[1] == 0x51 && name@[2] == 0x54 && name@[3] == 0x54);
                }
            }
            if !is_valid_mqtt_string(name.as_slice()) {
                return Err(ReasonMode::MalformedPacket);
            }
            return Err(ReasonMode::UnsupportedProtocolVersion);
        }
        assert(name@ =~= mqtt_name());
        if len < 7 {
            return Err(ReasonMode::MalformedPacket);
        }
        if b[6] != 5 {
            return Err(ReasonMode::UnsupportedProtocolVersion);
        }
        match read_fields(b) {
            Ok(connect) => Ok((connect, n + len)),
            Err(e) => Err(e),
        }
    }
}

} // verus!
