use vstd::prelude::*;
use crate::bytes::{bytes_equal, copy_bytes};
use crate::publish::Publish;
use crate::reason_codes::{reason_id, ReasonMode};
use crate::subscribe::{Subscribe, TopicRequest};
use crate::suback::Suback;
use crate::unsubscribe::{Unsuback, Unsubscribe};
use crate::topic::{is_valid_topic_filter, is_valid_topic_name, matches_topic, topic_matches, valid_topic_filter, valid_topic_name};

verus! {

/// One client's subscription to a topic filter.
#[derive(Debug)]
pub struct Subscription {
    pub client_id: Vec<u8>,
    pub topic_filter: Vec<u8>,
    pub max_qos: u8,
    pub no_local: bool,
    pub retain_as_published: bool,
    pub retain_handling: u8,
}

/// The payload kept for a topic by the last PUBLISH with RETAIN set.
#[derive(Debug)]
pub struct RetainedMessage {
    pub topic: Vec<u8>,
    pub payload: Vec<u8>,
}

/// One copy of a PUBLISH to forward: to whom, at which QoS, and whether
/// its RETAIN flag is set.
#[derive(Debug)]
pub struct Delivery {
    pub client_id: Vec<u8>,
    pub qos: u8,
    pub retain: bool,
}

/// What the broker does with an accepted PUBLISH: the copies to forward
/// and, under QoS 1, the packet identifier to acknowledge to the publisher.
#[derive(Debug)]
pub struct PublishOutcome {
    pub deliveries: Vec<Delivery>,
    pub puback: Option<u16>,
}

/// The broker's subscription table and retained messages.
pub struct Router {
    pub subscriptions: Vec<Subscription>,
    pub retained: Vec<RetainedMessage>,
}

pub open spec fn same_key(a: Subscription, client_id: Seq<u8>, filter: Seq<u8>) -> bool {
    a.client_id@ == client_id && a.topic_filter@ == filter
}

pub open spec fn delivery_view(d: Delivery) -> (Seq<u8>, u8, bool) {
    (d.client_id@, d.qos, d.retain)
}

pub open spec fn deliveries_view(v: Seq<Delivery>) -> Seq<(Seq<u8>, u8, bool)> {
    v.map_values(|d: Delivery| delivery_view(d))
}

pub open spec fn retained_view(v: Seq<RetainedMessage>) -> Seq<(Seq<u8>, Seq<u8>)> {
    v.map_values(|m: RetainedMessage| (m.topic@, m.payload@))
}

/// Whether a PUBLISH on `topic` from `publisher` goes to the holder of `s`:
/// the filter matches and no-local does not keep it from its own sender.
pub open spec fn delivers(s: Subscription, publisher: Seq<u8>, topic: Seq<u8>) -> bool {
    topic_matches(s.topic_filter@, topic) && !(s.no_local && s.client_id@ == publisher)
}

pub open spec fn min_qos(a: u8, b: u8) -> u8 {
    if a < b {
        a
    } else {
        b
    }
}

/// The copies of a PUBLISH, one per subscription that takes it, in the
/// order of the table: at the lower of the two QoS levels, and with RETAIN
/// kept only where the subscription asks for it as published.
pub open spec fn route_spec(
    subs: Seq<Subscription>,
    publisher: Seq<u8>,
    topic: Seq<u8>,
    qos: u8,
    retain: bool,
) -> Seq<(Seq<u8>, u8, bool)>
    decreases subs.len(),
{
    if subs.len() == 0 {
        Seq::empty()
    } else {
        let prev = route_spec(subs.drop_last(), publisher, topic, qos, retain);
        let s = subs.last();
        if delivers(s, publisher, topic) {
            prev.push((s.client_id@, min_qos(qos, s.max_qos), retain && s.retain_as_published))
        } else {
            prev
        }
    }
}

/// The retained messages whose topic `filter` matches, in the order kept.
pub open spec fn retained_for(ret: Seq<(Seq<u8>, Seq<u8>)>, filter: Seq<u8>) -> Seq<(Seq<u8>, Seq<u8>)>
    decreases ret.len(),
{
    if ret.len() == 0 {
        Seq::empty()
    } else {
        let prev = retained_for(ret.drop_last(), filter);
        if topic_matches(filter, ret.last().0) {
            prev.push(ret.last())
        } else {
            prev
        }
    }
}

/// The retained messages after a PUBLISH with RETAIN set: an empty payload
/// clears the topic's slot, any other fills it.
pub open spec fn retain_update(ret: Seq<(Seq<u8>, Seq<u8>)>, topic: Seq<u8>, payload: Seq<u8>) -> Seq<(Seq<u8>, Seq<u8>)> {
    if exists|j: int| 0 <= j < ret.len() && ret[j].0 == topic {
        let j = choose|j: int| 0 <= j < ret.len() && ret[j].0 == topic;
        if payload.len() == 0 {
            ret.remove(j)
        } else {
            ret.update(j, (topic, payload))
        }
    } else if payload.len() == 0 {
        ret
    } else {
        ret.push((topic, payload))
    }
}

impl Router {
    /// At most one subscription per client and filter, each with a valid
    /// filter and a QoS of 0 or 1; at most one non-empty retained payload
    /// per topic.
    pub open spec fn wf(&self) -> bool {
        &&& forall|i: int, j: int|
            0 <= i < j < self.subscriptions@.len() ==> !same_key(
                #[trigger] self.subscriptions@[i],
                self.subscriptions@[j].client_id@,
                #[trigger] self.subscriptions@[j].topic_filter@,
            )
        &&& forall|i: int|
            0 <= i < self.subscriptions@.len() ==> valid_topic_filter(
                #[trigger] self.subscriptions@[i].topic_filter@,
            ) && self.subscriptions@[i].max_qos <= 1
        &&& forall|i: int, j: int|
            0 <= i < j < self.retained@.len() ==> #[trigger] self.retained@[i].topic@
                != #[trigger] self.retained@[j].topic@
        &&& forall|i: int|
            0 <= i < self.retained@.len() ==> #[trigger] self.retained@[i].payload@.len() > 0
    }

    pub fn new() -> (r: Router)
        ensures
            r.wf(),
            r.subscriptions@.len() == 0,
            r.retained@.len() == 0,
    {
        Router { subscriptions: Vec::new(), retained: Vec::new() }
    }

    /// The copies of a PUBLISH on `topic` from `publisher`.
    pub fn route(&self, publisher: &[u8], topic: &[u8], qos: u8, retain: bool) -> (r: Vec<Delivery>)
        ensures
            deliveries_view(r@) == route_spec(self.subscriptions@, publisher@, topic@, qos, retain),
    {
        let mut out: Vec<Delivery> = Vec::new();
        let mut i: usize = 0;
        while i < self.subscriptions.len()
            invariant
                i <= self.subscriptions@.len(),
                deliveries_view(out@) == route_spec(
                    self.subscriptions@.take(i as int),
                    publisher@,
                    topic@,
                    qos,
                    retain,
                ),
            decreases self.subscriptions@.len() - i,
        {
            let s = &self.subscriptions[i];
            proof {
                assert(self.subscriptions@.take(i + 1).drop_last() =~= self.subscriptions@.take(i as int));
            }
            let m = matches_topic(s.topic_filter.as_slice(), topic);
            if m && !(s.no_local && bytes_equal(s.client_id.as_slice(), publisher)) {
                let q = if qos < s.max_qos {
                    qos
                } else {
                    s.max_qos
                };
                let ghost before = out@;
                out.push(Delivery {
                    client_id: copy_bytes(s.client_id.as_slice()),
                    qos: q,
                    retain: retain && s.retain_as_published,
                });
                assert(deliveries_view(out@) =~= deliveries_view(before).push(
                    (s.client_id@, min_qos(qos, s.max_qos), retain && s.retain_as_published),
                ));
            }
            i = i + 1;
        }
        assert(self.subscriptions@.take(i as int) =~= self.subscriptions@);
        out
    }

    fn find_subscription(&self, client_id: &[u8], filter: &[u8]) -> (r: Option<usize>)
        ensures
            match r {
                Some(j) => j < self.subscriptions@.len() && same_key(
                    self.subscriptions@[j as int],
                    client_id@,
                    filter@,
                ),
                None => forall|j: int|
                    0 <= j < self.subscriptions@.len() ==> !same_key(
                        #[trigger] self.subscriptions@[j],
                        client_id@,
                        filter@,
                    ),
            },
    {
        let mut i: usize = 0;
        while i < self.subscriptions.len()
            invariant
                i <= self.subscriptions@.len(),
                forall|j: int|
                    0 <= j < i ==> !same_key(#[trigger] self.subscriptions@[j], client_id@, filter@),
            decreases self.subscriptions@.len() - i,
        {
            let s = &self.subscriptions[i];
            if bytes_equal(s.client_id.as_slice(), client_id) && bytes_equal(
                s.topic_filter.as_slice(),
                filter,
            ) {
                return Some(i);
            }
            i = i + 1;
        }
        None
    }

    fn find_retained(&self, topic: &[u8]) -> (r: Option<usize>)
        ensures
            match r {
                Some(j) => j < self.retained@.len() && self.retained@[j as int].topic@ == topic@,
                None => forall|j: int|
                    0 <= j < self.retained@.len() ==> (#[trigger] self.retained@[j]).topic@ != topic@,
            },
    {
        let mut i: usize = 0;
        while i < self.retained.len()
            invariant
                i <= self.retained@.len(),
                forall|j: int| 0 <= j < i ==> (#[trigger] self.retained@[j]).topic@ != topic@,
            decreases self.retained@.len() - i,
        {
            if bytes_equal(self.retained[i].topic.as_slice(), topic) {
                return Some(i);
            }
            i = i + 1;
        }
        None
    }

    /// Copies of the retained messages whose topic `filter` matches.
    pub fn retained_matching(&self, filter: &[u8]) -> (r: Vec<RetainedMessage>)
        ensures
            retained_view(r@) == retained_for(retained_view(self.retained@), filter@),
    {
        let ghost all = retained_view(self.retained@);
        let mut out: Vec<RetainedMessage> = Vec::new();
        let mut i: usize = 0;
        while i < self.retained.len()
            invariant
                all == retained_view(self.retained@),
                i <= self.retained@.len(),
                retained_view(out@) == retained_for(all.take(i as int), filter@),
            decreases self.retained@.len() - i,
        {
            proof {
                assert(all.take(i + 1).drop_last() =~= all.take(i as int));
            }
            let m = &self.retained[i];
            if matches_topic(filter, m.topic.as_slice()) {
                let ghost before = out@;
                out.push(RetainedMessage {
                    topic: copy_bytes(m.topic.as_slice()),
                    payload: copy_bytes(m.payload.as_slice()),
                });
                assert(retained_view(out@) =~= retained_view(before).push((m.topic@, m.payload@)));
            }
            i = i + 1;
        }
        assert(all.take(i as int) =~= all);
        out
    }
    /// Sets the retained payload of `topic`: an empty payload clears it.
    pub fn store_retained(&mut self, topic: &[u8], payload: &[u8])
        requires
            old(self).wf(),
        ensures
            final(self).wf(),
            final(self).subscriptions == old(self).subscriptions,
            retained_view(final(self).retained@) == retain_update(
                retained_view(old(self).retained@),
                topic@,
                payload@,
            ),
    {
        let ghost old_view = retained_view(self.retained@);
        match self.find_retained(topic) {
            Some(j) => {
                proof {
                    assert(old_view[j as int].0 == topic@);
                    let k = choose|k: int| 0 <= k < old_view.len() && old_view[k].0 == topic@;
                    assert(k == j) by {
                        if k != j {
                            assert(self.retained@[k].topic@ == topic@);
                            if k < j {
                                assert(self.retained@[k].topic@ != self.retained@[j as int].topic@);
                            } else {
                                assert(self.retained@[j as int].topic@ != self.retained@[k].topic@);
                            }
                        }
                    }
                }
                if payload.len() == 0 {
                    let ghost before = self.retained@;
                    self.retained.remove(j);
                    assert(retained_view(self.retained@) =~= old_view.remove(j as int));
                    assert forall|a: int, b: int|
                        0 <= a < b < self.retained@.len() implies #[trigger] self.retained@[a].topic@
                        != #[trigger] self.retained@[b].topic@ by {
                        let a0 = if a < j { a } else { a + 1 };
                        let b0 = if b < j { b } else { b + 1 };
                        assert(self.retained@[a] == before[a0]);
                        assert(self.retained@[b] == before[b0]);
                    }
                    assert forall|a: int|
                        0 <= a < self.retained@.len() implies #[trigger] self.retained@[a].payload@.len() > 0 by {
                        let a0 = if a < j { a } else { a + 1 };
                        assert(self.retained@[a] == before[a0]);
                    }
                } else {
                    let m = RetainedMessage { topic: copy_bytes(topic), payload: copy_bytes(payload) };
                    self.retained.set(j, m);
                    assert(retained_view(self.retained@) =~= old_view.update(j as int, (topic@, payload@)));
                }
            },
            None => {
                if payload.len() > 0 {
                    let m = RetainedMessage { topic: copy_bytes(topic), payload: copy_bytes(payload) };
                    self.retained.push(m);
                    assert(retained_view(self.retained@) =~= old_view.push((topic@, payload@)));
                }
            },
        }
    }

    /// Adds `sub` to the table, replacing the client's subscription to the
    /// same filter, and hands back the retained messages to send at once:
    /// all that the filter matches where `retain_handling` is 0, or is 1 and
    /// the subscription is new; none otherwise. An invalid filter is
    /// `MalformedPacket`, a QoS above 1 `QoSNotSupported`, a
    /// `retain_handling` above 2 `ProtocolError`; the table is then left
    /// as it was.
    pub fn subscribe(&mut self, sub: Subscription) -> (r: Result<Vec<RetainedMessage>, ReasonMode>)
        requires
            old(self).wf(),
        ensures
            final(self).wf(),
            final(self).retained == old(self).retained,
            !valid_topic_filter(sub.topic_filter@) ==> r == Err::<Vec<RetainedMessage>, ReasonMode>(
                ReasonMode::MalformedPacket,
            ),
            valid_topic_filter(sub.topic_filter@) && sub.max_qos > 1 ==> r == Err::<
                Vec<RetainedMessage>,
                ReasonMode,
            >(ReasonMode::QoSNotSupported),
            valid_topic_filter(sub.topic_filter@) && sub.max_qos <= 1 && sub.retain_handling > 2
                ==> r == Err::<Vec<RetainedMessage>, ReasonMode>(ReasonMode::ProtocolError),
            r is Err ==> final(self).subscriptions == old(self).subscriptions,
            valid_topic_filter(sub.topic_filter@) && sub.max_qos <= 1 && sub.retain_handling <= 2
                ==> r is Ok,
            r matches Ok(sent) ==> {
                let existed = exists|j: int|
                    0 <= j < old(self).subscriptions@.len() && same_key(
                        #[trigger] old(self).subscriptions@[j],
                        sub.client_id@,
                        sub.topic_filter@,
                    );
                &&& existed ==> forall|j: int|
                    0 <= j < old(self).subscriptions@.len() && same_key(
                        #[trigger] old(self).subscriptions@[j],
                        sub.client_id@,
                        sub.topic_filter@,
                    ) ==> final(self).subscriptions@ == old(self).subscriptions@.update(j, sub)
                &&& !existed ==> final(self).subscriptions@ == old(self).subscriptions@.push(sub)
                &&& retained_view(sent@) == if sub.retain_handling == 0 || (sub.retain_handling
                    == 1 && !existed) {
                    retained_for(retained_view(old(self).retained@), sub.topic_filter@)
                } else {
                    Seq::empty()
                }
            },
    {
        if !is_valid_topic_filter(sub.topic_filter.as_slice()) {
            return Err(ReasonMode::MalformedPacket);
        }
        if sub.max_qos > 1 {
            return Err(ReasonMode::QoSNotSupported);
        }
        if sub.retain_handling > 2 {
            return Err(ReasonMode::ProtocolError);
        }
        let found = self.find_subscription(sub.client_id.as_slice(), sub.topic_filter.as_slice());
        let send = sub.retain_handling == 0 || (sub.retain_handling == 1 && found.is_none());
        let sent = if send {
            self.retained_matching(sub.topic_filter.as_slice())
        } else {
            Vec::new()
        };
        let ghost before = self.subscriptions@;
        match found {
            Some(j) => {
                proof {
                    assert forall|k: int|
                        0 <= k < before.len() && same_key(
                            #[trigger] before[k],
                            sub.client_id@,
                            sub.topic_filter@,
                        ) implies k == j by {
                        if k < j {
                            assert(!same_key(before[k], before[j as int].client_id@, before[j as int].topic_filter@));
                        } else if k > j {
                            assert(!same_key(before[j as int], before[k].client_id@, before[k].topic_filter@));
                        }
                    }
                }
                self.subscriptions.set(j, sub);
                assert forall|a: int, b: int|
                    0 <= a < b < self.subscriptions@.len() implies !same_key(
                    #[trigger] self.subscriptions@[a],
                    self.subscriptions@[b].client_id@,
                    #[trigger] self.subscriptions@[b].topic_filter@,
                ) by {
                    if a != j && b != j {
                        assert(!same_key(before[a], before[b].client_id@, before[b].topic_filter@));
                    } else if a == j {
                        assert(!same_key(before[a], before[b].client_id@, before[b].topic_filter@));
                    } else {
                        assert(!same_key(before[a], before[b].client_id@, before[b].topic_filter@));
                    }
                }
            },
            None => {
                self.subscriptions.push(sub);
                assert forall|a: int, b: int|
                    0 <= a < b < self.subscriptions@.len() implies !same_key(
                    #[trigger] self.subscriptions@[a],
                    self.subscriptions@[b].client_id@,
                    #[trigger] self.subscriptions@[b].topic_filter@,
                ) by {
                    if b < before.len() {
                        assert(!same_key(before[a], before[b].client_id@, before[b].topic_filter@));
                    } else {
                        assert(self.subscriptions@[a] == before[a]);
                    }
                }
            },
        }
        assert forall|i: int|
            0 <= i < self.subscriptions@.len() implies valid_topic_filter(
            #[trigger] self.subscriptions@[i].topic_filter@,
        ) && self.subscriptions@[i].max_qos <= 1 by {
            if i < before.len() && self.subscriptions@[i] == before[i] {
                assert(valid_topic_filter(before[i].topic_filter@));
            }
        }
        Ok(sent)
    }

    /// Removes the client's subscription to `filter`; false where it had none.
    pub fn unsubscribe(&mut self, client_id: &[u8], filter: &[u8]) -> (r: bool)
        requires
            old(self).wf(),
        ensures
            final(self).wf(),
            final(self).retained == old(self).retained,
            r == exists|j: int|
                0 <= j < old(self).subscriptions@.len() && same_key(
                    #[trigger] old(self).subscriptions@[j],
                    client_id@,
                    filter@,
                ),
            !r ==> final(self).subscriptions == old(self).subscriptions,
            forall|j: int|
                0 <= j < old(self).subscriptions@.len() && same_key(
                    #[trigger] old(self).subscriptions@[j],
                    client_id@,
                    filter@,
                ) ==> final(self).subscriptions@ == old(self).subscriptions@.remove(j),
    {
        let ghost before = self.subscriptions@;
        match self.find_subscription(client_id, filter) {
            Some(j) => {
                proof {
                    assert forall|k: int|
                        0 <= k < before.len() && same_key(#[trigger] before[k], client_id@, filter@)
                        implies k == j by {
                        if k < j {
                            assert(!same_key(before[k], before[j as int].client_id@, before[j as int].topic_filter@));
                        } else if k > j {
                            assert(!same_key(before[j as int], before[k].client_id@, before[k].topic_filter@));
                        }
                    }
                }
                self.subscriptions.remove(j);
                assert forall|a: int, b: int|
                    0 <= a < b < self.subscriptions@.len() implies !same_key(
                    #[trigger] self.subscriptions@[a],
                    self.subscriptions@[b].client_id@,
                    #[trigger] self.subscriptions@[b].topic_filter@,
                ) by {
                    let a0 = if a < j { a } else { a + 1 };
                    let b0 = if b < j { b } else { b + 1 };
                    assert(self.subscriptions@[a] == before[a0]);
                    assert(self.subscriptions@[b] == before[b0]);
                    assert(!same_key(before[a0], before[b0].client_id@, before[b0].topic_filter@));
                }
                assert forall|i: int|
                    0 <= i < self.subscriptions@.len() implies valid_topic_filter(
                    #[trigger] self.subscriptions@[i].topic_filter@,
                ) && self.subscriptions@[i].max_qos <= 1 by {
                    let i0 = if i < j { i } else { i + 1 };
                    assert(self.subscriptions@[i] == before[i0]);
                    assert(valid_topic_filter(before[i0].topic_filter@));
                }
                true
            },
            None => false,
        }
    }

    /// Takes a PUBLISH from `publisher`. A topic that is empty or holds a
    /// wildcard is `TopicNameInvalid`, a QoS above 1 `QoSNotSupported`; the
    /// router is then left as it was. Otherwise RETAIN updates the topic's
    /// retained slot, and the outcome holds the copies to forward and, under
    /// QoS 1, the packet identifier to acknowledge.
    pub fn handle_publish(&mut self, publisher: &[u8], p: &Publish) -> (r: Result<PublishOutcome, ReasonMode>)
        requires
            old(self).wf(),
        ensures
            final(self).wf(),
            final(self).subscriptions == old(self).subscriptions,
            !valid_topic_name(p.topic@) ==> r == Err::<PublishOutcome, ReasonMode>(ReasonMode::TopicNameInvalid),
            valid_topic_name(p.topic@) && p.qos > 1 ==> r == Err::<PublishOutcome, ReasonMode>(
                ReasonMode::QoSNotSupported,
            ),
            r is Err ==> final(self).retained == old(self).retained,
            valid_topic_name(p.topic@) && p.qos <= 1 ==> r is Ok,
            r matches Ok(o) ==> {
                &&& deliveries_view(o.deliveries@) == route_spec(
                    old(self).subscriptions@,
                    publisher@,
                    p.topic@,
                    p.qos,
                    p.retain,
                )
                &&& o.puback == if p.qos == 1 {
                    Some(p.packet_id)
                } else {
                    None::<u16>
                }
                &&& retained_view(final(self).retained@) == if p.retain {
                    retain_update(retained_view(old(self).retained@), p.topic@, p.payload@)
                } else {
                    retained_view(old(self).retained@)
                }
            },
    {
        if !is_valid_topic_name(p.topic.as_slice()) {
            return Err(ReasonMode::TopicNameInvalid);
        }
        if p.qos > 1 {
            return Err(ReasonMode::QoSNotSupported);
        }
        if p.retain {
            self.store_retained(p.topic.as_slice(), p.payload.as_slice());
        }
        let deliveries = self.route(publisher, p.topic.as_slice(), p.qos, p.retain);
        let puback = if p.qos == 1 {
            Some(p.packet_id)
        } else {
            None
        };
        Ok(PublishOutcome { deliveries, puback })
    }
}

/// The SUBACK code for one request whose options passed decoding: the
/// granted QoS for a valid filter, `MalformedPacket` for an invalid one.
pub open spec fn suback_code(filter: Seq<u8>, max_qos: u8) -> u8 {
    if valid_topic_filter(filter) {
        max_qos
    } else {
        reason_id(ReasonMode::MalformedPacket)
    }
}

/// The retained messages a SUBSCRIBE from `client` brings, request by
/// request: for each valid filter, those it matches, where
/// `retain_handling` is 0, or is 1 and the client held no subscription to
/// that filter (in `subs` or by an earlier request).
pub open spec fn retained_sent(
    ret: Seq<(Seq<u8>, Seq<u8>)>,
    subs: Seq<Subscription>,
    client: Seq<u8>,
    reqs: Seq<TopicRequest>,
) -> Seq<(Seq<u8>, Seq<u8>)>
    decreases reqs.len(),
{
    if reqs.len() == 0 {
        Seq::empty()
    } else {
        let k = reqs.len() - 1;
        let f = reqs[k].topic_filter@;
        let rh = reqs[k].retain_handling;
        let prev = retained_sent(ret, subs, client, reqs.drop_last());
        let existed = has_sub(subs, client, f) || exists|j: int| 0 <= j < k && #[trigger] reqs[j].topic_filter@ == f;
        if valid_topic_filter(f) && (rh == 0 || (rh == 1 && !existed)) {
            prev + retained_for(ret, f)
        } else {
            prev
        }
    }
}

proof fn lemma_update_same_key(subs: Seq<Subscription>, j: int, sub: Subscription)
    requires
        0 <= j < subs.len(),
        same_key(subs[j], sub.client_id@, sub.topic_filter@),
    ensures
        forall|c: Seq<u8>, g: Seq<u8>| #[trigger] has_sub(subs.update(j, sub), c, g) == has_sub(subs, c, g),
{
    assert forall|c: Seq<u8>, g: Seq<u8>| #[trigger] has_sub(subs.update(j, sub), c, g) == has_sub(subs, c, g) by {
        let u = subs.update(j, sub);
        if has_sub(subs, c, g) {
            let k = choose|k: int| 0 <= k < subs.len() && same_key(#[trigger] subs[k], c, g);
            assert(same_key(u[k], c, g));
        }
        if has_sub(u, c, g) {
            let k = choose|k: int| 0 <= k < u.len() && same_key(#[trigger] u[k], c, g);
            assert(same_key(subs[k], c, g));
        }
    }
}

proof fn lemma_push(subs: Seq<Subscription>, sub: Subscription)
    ensures
        forall|c: Seq<u8>, g: Seq<u8>| #[trigger] has_sub(subs.push(sub), c, g) == (has_sub(subs, c, g) || (
            c == sub.client_id@ && g == sub.topic_filter@)),
{
    assert forall|c: Seq<u8>, g: Seq<u8>| #[trigger] has_sub(subs.push(sub), c, g) == (has_sub(subs, c, g) || (
        c == sub.client_id@ && g == sub.topic_filter@)) by {
        let u = subs.push(sub);
        if has_sub(subs, c, g) {
            let k = choose|k: int| 0 <= k < subs.len() && same_key(#[trigger] subs[k], c, g);
            assert(same_key(u[k], c, g));
        }
        if c == sub.client_id@ && g == sub.topic_filter@ {
            assert(same_key(u[subs.len() as int], c, g));
        }
        if has_sub(u, c, g) {
            let k = choose|k: int| 0 <= k < u.len() && same_key(#[trigger] u[k], c, g);
            if k < subs.len() {
                assert(same_key(subs[k], c, g));
            }
        }
    }
}

impl Router {
    /// Applies each request of a SUBSCRIBE from `client_id` in order, and
    /// gives the SUBACK that answers it, one code per request, with the
    /// retained messages to send, request by request. Afterwards the client
    /// holds a subscription to each valid filter it named, and no other
    /// subscription has come or gone.
    pub fn subscribe_all(&mut self, client_id: &[u8], req: &Subscribe) -> (r: (Suback, Vec<RetainedMessage>))
        requires
            old(self).wf(),
            forall|i: int| 0 <= i < req.topics@.len() ==> (#[trigger] req.topics@[i]).max_qos <= 1
                && req.topics@[i].retain_handling <= 2,
        ensures
            final(self).wf(),
            final(self).retained == old(self).retained,
            r.0.packet_id == req.packet_id,
            r.0.reason_codes@.len() == req.topics@.len(),
            forall|i: int| 0 <= i < req.topics@.len() ==> r.0.reason_codes@[i] == suback_code(
                (#[trigger] req.topics@[i]).topic_filter@,
                req.topics@[i].max_qos,
            ),
            forall|c: Seq<u8>, g: Seq<u8>|
                #[trigger] has_sub(final(self).subscriptions@, c, g) == (has_sub(old(self).subscriptions@, c, g)
                    || (c == client_id@ && valid_topic_filter(g) && exists|k: int|
                    0 <= k < req.topics@.len() && #[trigger] req.topics@[k].topic_filter@ == g)),
            retained_view(r.1@) == retained_sent(
                retained_view(old(self).retained@),
                old(self).subscriptions@,
                client_id@,
                req.topics@,
            ),
    {
        let mut codes: Vec<u8> = Vec::new();
        let mut sent: Vec<RetainedMessage> = Vec::new();
        let mut i: usize = 0;
        while i < req.topics.len()
            invariant
                self.wf(),
                self.retained == old(self).retained,
                i <= req.topics@.len(),
                codes@.len() == i,
                forall|k: int| 0 <= k < req.topics@.len() ==> (#[trigger] req.topics@[k]).max_qos <= 1
                    && req.topics@[k].retain_handling <= 2,
                forall|k: int| 0 <= k < i ==> codes@[k] == suback_code(
                    (#[trigger] req.topics@[k]).topic_filter@,
                    req.topics@[k].max_qos,
                ),
                forall|c: Seq<u8>, g: Seq<u8>|
                    #[trigger] has_sub(self.subscriptions@, c, g) == (has_sub(old(self).subscriptions@, c, g)
                        || (c == client_id@ && valid_topic_filter(g) && exists|k: int|
                        0 <= k < i && #[trigger] req.topics@[k].topic_filter@ == g)),
                retained_view(sent@) == retained_sent(
                    retained_view(old(self).retained@),
                    old(self).subscriptions@,
                    client_id@,
                    req.topics@.take(i as int),
                ),
            decreases req.topics@.len() - i,
        {
            let ghost before = self.subscriptions@;
            let ghost sent_before = sent@;
            let t = &req.topics[i];
            proof {
                let tk = req.topics@.take(i + 1);
                assert(tk.drop_last() =~= req.topics@.take(i as int));
                assert(tk[i as int] == req.topics@[i as int]);
                let f = req.topics@[i as int].topic_filter@;
                let existed_spec = has_sub(old(self).subscriptions@, client_id@, f) || exists|j: int|
                    0 <= j < i && #[trigger] tk[j].topic_filter@ == f;
                let rh = req.topics@[i as int].retain_handling;
                assert(retained_sent(retained_view(old(self).retained@), old(self).subscriptions@, client_id@, tk)
                    == if valid_topic_filter(f) && (rh == 0 || (rh == 1 && !existed_spec)) {
                    retained_sent(retained_view(old(self).retained@), old(self).subscriptions@, client_id@, req.topics@.take(i as int))
                        + retained_for(retained_view(old(self).retained@), f)
                } else {
                    retained_sent(retained_view(old(self).retained@), old(self).subscriptions@, client_id@, req.topics@.take(i as int))
                });
                if valid_topic_filter(f) {
                    if exists|j: int| 0 <= j < i && #[trigger] tk[j].topic_filter@ == f {
                        let j = choose|j: int| 0 <= j < i && #[trigger] tk[j].topic_filter@ == f;
                        assert(req.topics@[j].topic_filter@ == f);
                        assert(has_sub(before, client_id@, f));
                    }
                    if has_sub(before, client_id@, f) && !has_sub(old(self).subscriptions@, client_id@, f) {
                        let j = choose|j: int| 0 <= j < i && #[trigger] req.topics@[j].topic_filter@ == f;
                        assert(tk[j].topic_filter@ == f);
                    }
                    assert(existed_spec == has_sub(before, client_id@, f));
                }
            }
            let sub = Subscription {
                client_id: copy_bytes(client_id),
                topic_filter: copy_bytes(t.topic_filter.as_slice()),
                max_qos: t.max_qos,
                no_local: t.no_local,
                retain_as_published: t.retain_as_published,
                retain_handling: t.retain_handling,
            };
            let ghost key_c = sub.client_id@;
            let ghost key_f = sub.topic_filter@;
            let ghost new_sub = sub;
            match self.subscribe(sub) {
                Ok(mut msgs) => {
                    proof {
                        if exists|j: int| 0 <= j < before.len() && same_key(#[trigger] before[j], key_c, key_f) {
                            let j = choose|j: int| 0 <= j < before.len() && same_key(#[trigger] before[j], key_c, key_f);
                            lemma_update_same_key(before, j, new_sub);
                        } else {
                            lemma_push(before, new_sub);
                        }
                    }
                    codes.push(t.max_qos);
                    let ghost got = msgs@;
                    sent.append(&mut msgs);
                    assert(retained_view(sent@) =~= retained_view(sent_before) + retained_view(got));
                },
                Err(e) => {
                    codes.push(e.get_id());
                },
            }
            proof {
                assert forall|c: Seq<u8>, g: Seq<u8>|
                    #[trigger] has_sub(self.subscriptions@, c, g) == (has_sub(old(self).subscriptions@, c, g)
                        || (c == client_id@ && valid_topic_filter(g) && exists|k: int|
                        0 <= k < i + 1 && #[trigger] req.topics@[k].topic_filter@ == g)) by {
                    if exists|k: int| 0 <= k < i && #[trigger] req.topics@[k].topic_filter@ == g {
                        let k = choose|k: int| 0 <= k < i && #[trigger] req.topics@[k].topic_filter@ == g;
                        assert(0 <= k < i + 1 && req.topics@[k].topic_filter@ == g);
                    }
                    if exists|k: int| 0 <= k < i + 1 && #[trigger] req.topics@[k].topic_filter@ == g {
                        let k = choose|k: int| 0 <= k < i + 1 && #[trigger] req.topics@[k].topic_filter@ == g;
                        if k < i {
                            assert(0 <= k < i && req.topics@[k].topic_filter@ == g);
                        }
                    }
                }
            }
            i = i + 1;
        }
        assert(req.topics@.take(i as int) =~= req.topics@);
        (Suback::new(req.packet_id, codes), sent)
    }
}

/// Whether `subs` holds a subscription of `client_id` to `filter`.
pub open spec fn has_sub(subs: Seq<Subscription>, client_id: Seq<u8>, filter: Seq<u8>) -> bool {
    exists|j: int| 0 <= j < subs.len() && same_key(#[trigger] subs[j], client_id, filter)
}

proof fn lemma_remove_keeps_others(subs: Seq<Subscription>, j: int, c: Seq<u8>, f: Seq<u8>)
    requires
        0 <= j < subs.len(),
        !(subs[j].client_id@ == c && subs[j].topic_filter@ == f),
    ensures
        has_sub(subs.remove(j), c, f) == has_sub(subs, c, f),
{
    let r = subs.remove(j);
    if has_sub(subs, c, f) {
        let k = choose|k: int| 0 <= k < subs.len() && same_key(#[trigger] subs[k], c, f);
        if k < j {
            assert(same_key(r[k], c, f));
        } else {
            assert(k != j);
            assert(same_key(r[k - 1], c, f));
        }
    }
    if has_sub(r, c, f) {
        let k = choose|k: int| 0 <= k < r.len() && same_key(#[trigger] r[k], c, f);
        if k < j {
            assert(same_key(subs[k], c, f));
        } else {
            assert(same_key(subs[k + 1], c, f));
        }
    }
}

impl Router {
    /// Applies each filter of an UNSUBSCRIBE from `client_id` in order, and
    /// gives the UNSUBACK that answers it: `Success` for every filter, the
    /// client's subscription to it being gone afterwards whether or not it
    /// had one.
    pub fn unsubscribe_all(&mut self, client_id: &[u8], req: &Unsubscribe) -> (r: Unsuback)
        requires
            old(self).wf(),
        ensures
            final(self).wf(),
            final(self).retained == old(self).retained,
            r.packet_id == req.packet_id,
            r.properties@.len() == 0,
            r.reason_codes@.len() == req.topic_filters@.len(),
            forall|i: int| 0 <= i < req.topic_filters@.len() ==> #[trigger] r.reason_codes@[i] == reason_id(
                ReasonMode::Success,
            ),
            forall|c: Seq<u8>, g: Seq<u8>|
                #[trigger] has_sub(final(self).subscriptions@, c, g) == (has_sub(old(self).subscriptions@, c, g)
                    && !(c == client_id@ && exists|k: int| 0 <= k < req.topic_filters@.len() && #[trigger] req.topic_filters@[k]@ == g)),
    {
        let ghost fs = req.topic_filters@;
        let mut codes: Vec<u8> = Vec::new();
        let mut i: usize = 0;
        while i < req.topic_filters.len()
            invariant
                self.wf(),
                self.retained == old(self).retained,
                fs == req.topic_filters@,
                i <= fs.len(),
                codes@.len() == i,
                forall|k: int| 0 <= k < i ==> #[trigger] codes@[k] == reason_id(ReasonMode::Success),
                forall|c: Seq<u8>, g: Seq<u8>|
                    #[trigger] has_sub(self.subscriptions@, c, g) == (has_sub(old(self).subscriptions@, c, g)
                        && !(c == client_id@ && exists|k: int| 0 <= k < i && #[trigger] fs[k]@ == g)),
            decreases fs.len() - i,
        {
            let ghost before = self.subscriptions@;
            let f = req.topic_filters[i].as_slice();
            let removed = self.unsubscribe(client_id, f);
            proof {
                assert forall|c: Seq<u8>, g: Seq<u8>|
                    #[trigger] has_sub(self.subscriptions@, c, g) == (has_sub(old(self).subscriptions@, c, g)
                        && !(c == client_id@ && exists|k: int| 0 <= k < i + 1 && #[trigger] fs[k]@ == g)) by {
                    let named_before = exists|k: int| 0 <= k < i && #[trigger] fs[k]@ == g;
                    let named_now = exists|k: int| 0 <= k < i + 1 && #[trigger] fs[k]@ == g;
                    if named_before {
                        let k = choose|k: int| 0 <= k < i && #[trigger] fs[k]@ == g;
                        assert(0 <= k < i + 1 && fs[k]@ == g);
                    }
                    if named_now && !named_before {
                        assert(fs[i as int]@ == g);
                    }
                    if removed {
                        let j = choose|j: int| 0 <= j < before.len() && same_key(#[trigger] before[j], client_id@, f@);
                        assert(self.subscriptions@ == before.remove(j));
                        if c == client_id@ && g == f@ {
                            assert forall|m: int| 0 <= m < self.subscriptions@.len() implies !same_key(
                                #[trigger] self.subscriptions@[m], c, g) by {
                                let m0 = if m < j { m } else { m + 1 };
                                assert(self.subscriptions@[m] == before[m0]);
                                if m0 < j {
                                    assert(!same_key(before[m0], before[j].client_id@, before[j].topic_filter@));
                                } else {
                                    assert(!same_key(before[j], before[m0].client_id@, before[m0].topic_filter@));
                                }
                            }
                        } else {
                            lemma_remove_keeps_others(before, j, c, g);
                        }
                    } else {
                        if c == client_id@ && g == f@ {
                            assert(!has_sub(before, c, g));
                        }
                    }
                }
            }
            codes.push(ReasonMode::Success.get_id());
            i = i + 1;
        }
        Unsuback { packet_id: req.packet_id, properties: Vec::new(), reason_codes: codes }
    }
}

proof fn lemma_remove_narrows(subs: Seq<Subscription>, j: int, c: Seq<u8>, g: Seq<u8>)
    requires
        0 <= j < subs.len(),
    ensures
        has_sub(subs.remove(j), c, g) ==> has_sub(subs, c, g),
{
    let r = subs.remove(j);
    if has_sub(r, c, g) {
        let k = choose|k: int| 0 <= k < r.len() && same_key(#[trigger] r[k], c, g);
        if k < j {
            assert(same_key(subs[k], c, g));
        } else {
            assert(same_key(subs[k + 1], c, g));
        }
    }
}

impl Router {
    /// Drops every subscription of `client_id`, as a clean start of its
    /// session asks; the others stay.
    pub fn remove_client(&mut self, client_id: &[u8])
        requires
            old(self).wf(),
        ensures
            final(self).wf(),
            final(self).retained == old(self).retained,
            forall|c: Seq<u8>, g: Seq<u8>|
                #[trigger] has_sub(final(self).subscriptions@, c, g) == (has_sub(old(self).subscriptions@, c, g)
                    && c != client_id@),
    {
        let mut i: usize = 0;
        while i < self.subscriptions.len()
            invariant
                self.wf(),
                self.retained == old(self).retained,
                i <= self.subscriptions@.len(),
                forall|k: int| 0 <= k < i ==> (#[trigger] self.subscriptions@[k]).client_id@ != client_id@,
                forall|c: Seq<u8>, g: Seq<u8>|
                    c != client_id@ ==> #[trigger] has_sub(self.subscriptions@, c, g) == has_sub(
                        old(self).subscriptions@,
                        c,
                        g,
                    ),
                forall|g: Seq<u8>|
                    #[trigger] has_sub(self.subscriptions@, client_id@, g) ==> has_sub(
                        old(self).subscriptions@,
                        client_id@,
                        g,
                    ),
            decreases self.subscriptions@.len() - i,
        {
            if bytes_equal(self.subscriptions[i].client_id.as_slice(), client_id) {
                let ghost before = self.subscriptions@;
                let ghost j = i as int;
                self.subscriptions.remove(i);
                proof {
                    assert(self.subscriptions@ == before.remove(j));
                    assert forall|a: int, b: int|
                        0 <= a < b < self.subscriptions@.len() implies !same_key(
                        #[trigger] self.subscriptions@[a],
                        self.subscriptions@[b].client_id@,
                        #[trigger] self.subscriptions@[b].topic_filter@,
                    ) by {
                        let a0 = if a < j { a } else { a + 1 };
                        let b0 = if b < j { b } else { b + 1 };
                        assert(self.subscriptions@[a] == before[a0]);
                        assert(self.subscriptions@[b] == before[b0]);
                        assert(!same_key(before[a0], before[b0].client_id@, before[b0].topic_filter@));
                    }
                    assert forall|k: int|
                        0 <= k < self.subscriptions@.len() implies valid_topic_filter(
                        #[trigger] self.subscriptions@[k].topic_filter@,
                    ) && self.subscriptions@[k].max_qos <= 1 by {
                        let k0 = if k < j { k } else { k + 1 };
                        assert(self.subscriptions@[k] == before[k0]);
                        assert(valid_topic_filter(before[k0].topic_filter@));
                    }
                    assert forall|k: int| 0 <= k < i implies (#[trigger] self.subscriptions@[k]).client_id@
                        != client_id@ by {
                        assert(self.subscriptions@[k] == before[k]);
                    }
                    assert forall|c: Seq<u8>, g: Seq<u8>|
                        c != client_id@ implies #[trigger] has_sub(self.subscriptions@, c, g) == has_sub(
                        old(self).subscriptions@,
                        c,
                        g,
                    ) by {
                        lemma_remove_keeps_others(before, j, c, g);
                    }
                    assert forall|g: Seq<u8>|
                        #[trigger] has_sub(self.subscriptions@, client_id@, g) implies has_sub(
                        old(self).subscriptions@,
                        client_id@,
                        g,
                    ) by {
                        lemma_remove_narrows(before, j, client_id@, g);
                    }
                }
            } else {
                i = i + 1;
            }
        }
        assert forall|c: Seq<u8>, g: Seq<u8>|
            #[trigger] has_sub(self.subscriptions@, c, g) == (has_sub(old(self).subscriptions@, c, g)
                && c != client_id@) by {
            if c == client_id@ && has_sub(self.subscriptions@, c, g) {
                let k = choose|k: int| 0 <= k < self.subscriptions@.len() && same_key(
                    #[trigger] self.subscriptions@[k],
                    c,
                    g,
                );
                assert(self.subscriptions@[k].client_id@ != client_id@);
            }
        }
    }
}

} // verus!
