use vstd::prelude::*;
use crate::bytes::copy_bytes;
use crate::fixed_header::publish_flags;
use crate::publish::{bit, encodable, lemma_publish_round_trip, publish_body, publish_bytes, publish_decode, PublishView};
use crate::reason_codes::ReasonMode;

verus! {

/// A QoS 1 packet sent and not yet acknowledged: its identifier, its bytes
/// as first sent, and how many times it has been re-sent.
#[derive(Debug)]
pub struct InflightEntry {
    pub packet_id: u16,
    pub packet: Vec<u8>,
    pub attempts: u32,
}

/// What to do when a packet's acknowledgement is overdue.
#[derive(Debug)]
pub enum RetryAction {
    /// Send these bytes again: the packet with its DUP flag set.
    Resend(Vec<u8>),
    /// The retries are spent: close the connection.
    GiveUp,
    /// No packet with that identifier is in flight.
    Unknown,
}

/// The packets a sender has in flight, at most one per identifier.
pub struct Inflight {
    pub entries: Vec<InflightEntry>,
}

/// The first byte of a packet with its DUP flag (bit 3) set.
pub open spec fn with_dup(b: u8) -> u8 {
    b | 8u8
}

/// A packet's bytes with the DUP flag set; an empty one stays empty.
pub open spec fn dup_bytes(p: Seq<u8>) -> Seq<u8> {
    if p.len() == 0 {
        p
    } else {
        p.update(0, with_dup(p[0]))
    }
}

/// A PUBLISH resent with its DUP flag set decodes to the packet first sent,
/// with the same packet identifier and DUP set.
pub proof fn lemma_resend_decodes_as_duplicate(p: PublishView, rest: Seq<u8>)
    requires
        encodable(p),
    ensures
        publish_decode(dup_bytes(publish_bytes(p)) + rest) == Ok::<(PublishView, nat), ReasonMode>(
            (PublishView { dup: true, ..p }, publish_bytes(p).len()),
        ),
{
    let q = PublishView { dup: true, ..p };
    let d = bit(p.dup);
    let qos = p.qos;
    let r = bit(p.retain);
    assert((publish_flags(d, qos, r) | 8u8) == publish_flags(1, qos, r)) by (bit_vector)
        requires
            d <= 1,
            qos <= 1,
            r <= 1,
            publish_flags(d, qos, r) == (0x30 + 8 * d + 2 * qos + r) as u8,
            publish_flags(1, qos, r) == (0x30 + 8 + 2 * qos + r) as u8,
    ;
    assert(publish_body(q) == publish_body(p));
    assert(dup_bytes(publish_bytes(p)) =~= publish_bytes(q));
    lemma_publish_round_trip(q, rest);
}

impl Inflight {
    pub open spec fn in_use(&self, id: u16) -> bool {
        exists|j: int| 0 <= j < self.entries@.len() && #[trigger] self.entries@[j].packet_id == id
    }

    /// Identifiers are non-zero and unique.
    pub open spec fn wf(&self) -> bool {
        &&& forall|i: int| 0 <= i < self.entries@.len() ==> #[trigger] self.entries@[i].packet_id != 0
        &&& forall|i: int, j: int|
            0 <= i < j < self.entries@.len() ==> #[trigger] self.entries@[i].packet_id
                != #[trigger] self.entries@[j].packet_id
    }

    pub fn new() -> (r: Inflight)
        ensures
            r.wf(),
            r.entries@.len() == 0,
    {
        Inflight { entries: Vec::new() }
    }

    fn find(&self, packet_id: u16) -> (r: Option<usize>)
        ensures
            match r {
                Some(j) => j < self.entries@.len() && self.entries@[j as int].packet_id == packet_id,
                None => !self.in_use(packet_id),
            },
    {
        let mut i: usize = 0;
        while i < self.entries.len()
            invariant
                i <= self.entries@.len(),
                forall|j: int| 0 <= j < i ==> (#[trigger] self.entries@[j]).packet_id != packet_id,
            decreases self.entries@.len() - i,
        {
            if self.entries[i].packet_id == packet_id {
                return Some(i);
            }
            i = i + 1;
        }
        None
    }

    /// Whether a packet with this identifier is in flight.
    pub fn contains(&self, packet_id: u16) -> (r: bool)
        ensures
            r == self.in_use(packet_id),
    {
        self.find(packet_id).is_some()
    }

    /// The smallest identifier not in flight; `None` when all 65535 are.
    pub fn allocate_id(&self) -> (r: Option<u16>)
        ensures
            match r {
                Some(id) => id != 0 && !self.in_use(id) && forall|k: u16|
                    0 < k < id ==> #[trigger] self.in_use(k),
                None => forall|k: u16| k != 0 ==> #[trigger] self.in_use(k),
            },
    {
        let mut id: u16 = 1;
        loop
            invariant
                id >= 1,
                forall|k: u16| 0 < k < id ==> #[trigger] self.in_use(k),
            decreases 65535 - id,
        {
            if !self.contains(id) {
                return Some(id);
            }
            if id == 65535 {
                assert forall|k: u16| k != 0 implies #[trigger] self.in_use(k) by {
                    if k == 65535 {
                    } else {
                        assert(0 < k < id);
                    }
                }
                return None;
            }
            id = id + 1;
        }
    }

    /// Records `packet` as in flight under `packet_id`. An identifier of 0
    /// is `ProtocolError`; one already in flight is `PacketIdentifierInUse`.
    pub fn insert(&mut self, packet_id: u16, packet: Vec<u8>) -> (r: Result<(), ReasonMode>)
        requires
            old(self).wf(),
        ensures
            final(self).wf(),
            packet_id == 0 ==> r == Err::<(), ReasonMode>(ReasonMode::ProtocolError),
            packet_id != 0 && old(self).in_use(packet_id) ==> r == Err::<(), ReasonMode>(
                ReasonMode::PacketIdentifierInUse,
            ),
            r is Err ==> final(self).entries == old(self).entries,
            packet_id != 0 && !old(self).in_use(packet_id) ==> r is Ok
                && final(self).entries@.len() == old(self).entries@.len() + 1
                && final(self).entries@.drop_last() == old(self).entries@
                && final(self).entries@.last().packet_id == packet_id
                && final(self).entries@.last().packet@ == packet@
                && final(self).entries@.last().attempts == 0,
    {
        if packet_id == 0 {
            return Err(ReasonMode::ProtocolError);
        }
        if self.contains(packet_id) {
            return Err(ReasonMode::PacketIdentifierInUse);
        }
        let ghost before = self.entries@;
        self.entries.push(InflightEntry { packet_id, packet, attempts: 0 });
        assert(self.entries@.drop_last() =~= before);
        assert forall|a: int, b: int|
            0 <= a < b < self.entries@.len() implies #[trigger] self.entries@[a].packet_id
            != #[trigger] self.entries@[b].packet_id by {
            if b == before.len() {
                assert(self.entries@[a] == before[a]);
            } else {
                assert(before[a].packet_id != before[b].packet_id);
            }
        }
        Ok(())
    }

    /// Takes the acknowledgement of `packet_id`: the packet leaves the
    /// ledger. False, with nothing changed, where none was in flight.
    pub fn acknowledge(&mut self, packet_id: u16) -> (r: bool)
        requires
            old(self).wf(),
        ensures
            final(self).wf(),
            r == old(self).in_use(packet_id),
            !final(self).in_use(packet_id),
            !r ==> final(self).entries == old(self).entries,
            forall|j: int|
                0 <= j < old(self).entries@.len() && #[trigger] old(self).entries@[j].packet_id
                    == packet_id ==> final(self).entries@ == old(self).entries@.remove(j),
    {
        let ghost before = self.entries@;
        match self.find(packet_id) {
            Some(j) => {
                proof {
                    assert forall|k: int|
                        0 <= k < before.len() && #[trigger] before[k].packet_id == packet_id
                        implies k == j by {
                        if k < j {
                            assert(before[k].packet_id != before[j as int].packet_id);
                        } else if k > j {
                            assert(before[j as int].packet_id != before[k].packet_id);
                        }
                    }
                }
                self.entries.remove(j);
                assert forall|a: int, b: int|
                    0 <= a < b < self.entries@.len() implies #[trigger] self.entries@[a].packet_id
                    != #[trigger] self.entries@[b].packet_id by {
                    let a0 = if a < j { a } else { a + 1 };
                    let b0 = if b < j { b } else { b + 1 };
                    assert(self.entries@[a] == before[a0]);
                    assert(self.entries@[b] == before[b0]);
                    assert(before[a0].packet_id != before[b0].packet_id);
                }
                assert forall|a: int| 0 <= a < self.entries@.len() implies #[trigger] self.entries@[a].packet_id != 0 by {
                    let a0 = if a < j { a } else { a + 1 };
                    assert(self.entries@[a] == before[a0]);
                }
                assert forall|a: int| 0 <= a < self.entries@.len() implies #[trigger] self.entries@[a].packet_id != packet_id by {
                    let a0 = if a < j { a } else { a + 1 };
                    assert(self.entries@[a] == before[a0]);
                    assert(before[a0].packet_id != before[j as int].packet_id);
                }
                true
            },
            None => false,
        }
    }

    /// Decides on an overdue acknowledgement of `packet_id`: resend the
    /// packet with DUP set, and count the resend, while fewer than
    /// `max_retries` resends have been made; give up after that, leaving the
    /// packet in the ledger for replay on reconnection.
    pub fn retransmit(&mut self, packet_id: u16, max_retries: u32) -> (r: RetryAction)
        requires
            old(self).wf(),
        ensures
            final(self).wf(),
            !old(self).in_use(packet_id) ==> r is Unknown && final(self).entries == old(self).entries,
            forall|j: int|
                0 <= j < old(self).entries@.len() && #[trigger] old(self).entries@[j].packet_id
                    == packet_id ==> {
                    let e = old(self).entries@[j];
                    if e.attempts < max_retries {
                        &&& r matches RetryAction::Resend(bytes) && bytes@ == dup_bytes(e.packet@)
                        &&& final(self).entries@.len() == old(self).entries@.len()
                        &&& forall|k: int|
                            0 <= k < old(self).entries@.len() && k != j ==> final(self).entries@[k]
                                == old(self).entries@[k]
                        &&& final(self).entries@[j].packet_id == packet_id
                        &&& final(self).entries@[j].packet@ == e.packet@
                        &&& final(self).entries@[j].attempts == e.attempts + 1
                    } else {
                        r is GiveUp && final(self).entries == old(self).entries
                    }
                },
    {
        let ghost before = self.entries@;
        match self.find(packet_id) {
            Some(j) => {
                proof {
                    assert forall|k: int|
                        0 <= k < before.len() && #[trigger] before[k].packet_id == packet_id
                        implies k == j by {
                        if k < j {
                            assert(before[k].packet_id != before[j as int].packet_id);
                        } else if k > j {
                            assert(before[j as int].packet_id != before[k].packet_id);
                        }
                    }
                }
                let attempts = self.entries[j].attempts;
                if attempts >= max_retries {
                    return RetryAction::GiveUp;
                }
                let mut bytes = copy_bytes(self.entries[j].packet.as_slice());
                if bytes.len() > 0 {
                    let b = bytes[0] | 8u8;
                    bytes.set(0, b);
                }
                assert(bytes@ =~= dup_bytes(before[j as int].packet@));
                let old_entry = self.entries.remove(j);
                let entry = InflightEntry {
                    packet_id: old_entry.packet_id,
                    packet: old_entry.packet,
                    attempts: attempts + 1,
                };
                self.entries.insert(j, entry);
                assert forall|k: int| 0 <= k < before.len() && k != j implies self.entries@[k] == before[k] by {}
                assert forall|a: int, b: int|
                    0 <= a < b < self.entries@.len() implies #[trigger] self.entries@[a].packet_id
                    != #[trigger] self.entries@[b].packet_id by {
                    assert(self.entries@[a].packet_id == before[a].packet_id);
                    assert(self.entries@[b].packet_id == before[b].packet_id);
                    assert(before[a].packet_id != before[b].packet_id);
                }
                assert forall|a: int| 0 <= a < self.entries@.len() implies #[trigger] self.entries@[a].packet_id != 0 by {
                    assert(self.entries@[a].packet_id == before[a].packet_id);
                }
                RetryAction::Resend(bytes)
            },
            None => RetryAction::Unknown,
        }
    }
}

} // verus!
