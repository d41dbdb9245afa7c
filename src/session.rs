use vstd::prelude::*;
use crate::bytes::{bytes_equal, copy_bytes};

verus! {

/// A client's session: its identifier, the connection bound to it if any,
/// and the PUBLISH packets kept for it while no connection is bound.
#[derive(Debug)]
pub struct Session {
    pub client_id: Vec<u8>,
    pub connection: Option<u64>,
    pub queued: Vec<Vec<u8>>,
}

/// What binding a connection to a session brings: whether the session was
/// kept, the connection that held it before (to be closed with
/// `SessionTakenOver`), and the packets queued for it, oldest first.
#[derive(Debug)]
pub struct BindOutcome {
    pub session_present: bool,
    pub taken_over: Option<u64>,
    pub queued: Vec<Vec<u8>>,
}

/// Where a copy of a PUBLISH for a client goes.
#[derive(Clone, Copy, Debug, PartialEq, Eq, Structural)]
pub enum Target {
    /// Send it on this connection.
    Send(u64),
    /// Keep it in the session until a connection is bound again.
    Queue,
    /// The client has no session: nothing to deliver to.
    Absent,
}

/// The broker's sessions, one per client identifier.
pub struct SessionTable {
    pub sessions: Vec<Session>,
}

pub open spec fn queue_view(q: Seq<Vec<u8>>) -> Seq<Seq<u8>> {
    q.map_values(|p: Vec<u8>| p@)
}

impl SessionTable {
    pub open spec fn has(&self, client_id: Seq<u8>) -> bool {
        exists|j: int| 0 <= j < self.sessions@.len() && #[trigger] self.sessions@[j].client_id@ == client_id
    }

    /// Client identifiers are unique.
    pub open spec fn wf(&self) -> bool {
        forall|i: int, j: int|
            0 <= i < j < self.sessions@.len() ==> #[trigger] self.sessions@[i].client_id@
                != #[trigger] self.sessions@[j].client_id@
    }

    pub fn new() -> (r: SessionTable)
        ensures
            r.wf(),
            r.sessions@.len() == 0,
    {
        SessionTable { sessions: Vec::new() }
    }

    fn find(&self, client_id: &[u8]) -> (r: Option<usize>)
        ensures
            match r {
                Some(j) => j < self.sessions@.len() && self.sessions@[j as int].client_id@ == client_id@,
                None => !self.has(client_id@),
            },
    {
        let mut i: usize = 0;
        while i < self.sessions.len()
            invariant
                i <= self.sessions@.len(),
                forall|j: int| 0 <= j < i ==> (#[trigger] self.sessions@[j]).client_id@ != client_id@,
            decreases self.sessions@.len() - i,
        {
            if bytes_equal(self.sessions[i].client_id.as_slice(), client_id) {
                return Some(i);
            }
            i = i + 1;
        }
        None
    }

    /// Where a copy for `client_id` goes: to the connection bound to its
    /// session, into the session's queue when none is bound, nowhere when
    /// the client has no session.
    pub fn target_of(&self, client_id: &[u8]) -> (r: Target)
        requires
            self.wf(),
        ensures
            !self.has(client_id@) ==> r == Target::Absent,
            forall|j: int|
                0 <= j < self.sessions@.len() && #[trigger] self.sessions@[j].client_id@ == client_id@
                    ==> r == match self.sessions@[j].connection {
                    Some(c) => Target::Send(c),
                    None => Target::Queue,
                },
    {
        match self.find(client_id) {
            Some(j) => {
                proof {
                    assert forall|k: int|
                        0 <= k < self.sessions@.len() && #[trigger] self.sessions@[k].client_id@ == client_id@
                        implies k == j by {
                        lemma_one_session_per_client(*self, client_id@, k, j as int);
                    }
                }
                match self.sessions[j].connection {
                    Some(c) => Target::Send(c),
                    None => Target::Queue,
                }
            },
            None => Target::Absent,
        }
    }

    /// An identifier for a client that connected with an empty one: a run of
    /// `a` one byte longer than every identifier in use, so it names no
    /// session. `None` where an identifier in use already takes 65535
    /// bytes, the most a string holds.
    pub fn assign_client_id(&self) -> (r: Option<Vec<u8>>)
        ensures
            match r {
                Some(id) => !self.has(id@) && 0 < id@.len() <= 65535 && forall|k: int|
                    0 <= k < id@.len() ==> id@[k] == 0x61u8,
                None => exists|j: int|
                    0 <= j < self.sessions@.len() && (#[trigger] self.sessions@[j]).client_id@.len() >= 65535,
            },
    {
        let mut longest: usize = 0;
        let mut i: usize = 0;
        while i < self.sessions.len()
            invariant
                i <= self.sessions@.len(),
                longest < 65535,
                forall|j: int| 0 <= j < i ==> (#[trigger] self.sessions@[j]).client_id@.len() <= longest,
            decreases self.sessions@.len() - i,
        {
            let l = self.sessions[i].client_id.len();
            if l >= 65535 {
                return None;
            }
            if l > longest {
                longest = l;
            }
            i = i + 1;
        }
        let mut id: Vec<u8> = Vec::new();
        while id.len() <= longest
            invariant
                id@.len() <= longest + 1,
                forall|k: int| 0 <= k < id@.len() ==> id@[k] == 0x61u8,
            decreases longest + 1 - id@.len(),
        {
            id.push(0x61u8);
        }
        assert(!self.has(id@)) by {
            if self.has(id@) {
                let j = choose|j: int| 0 <= j < self.sessions@.len() && #[trigger] self.sessions@[j].client_id@ == id@;
                assert(self.sessions@[j].client_id@.len() <= longest);
            }
        }
        Some(id)
    }

    /// Binds `connection` to the session of `client_id`. A session already
    /// there loses its previous connection, which the outcome names; with
    /// `clean_start` it is started afresh, otherwise it is kept and its
    /// queued packets are handed back. A client without a session gets a
    /// fresh one.
    pub fn bind(&mut self, client_id: &[u8], clean_start: bool, connection: u64) -> (r: BindOutcome)
        requires
            old(self).wf(),
        ensures
            final(self).wf(),
            exists|j: int|
                0 <= j < final(self).sessions@.len() && #[trigger] final(self).sessions@[j].client_id@
                    == client_id@ && final(self).sessions@[j].connection == Some(connection)
                    && final(self).sessions@[j].queued@.len() == 0,
            forall|k: int|
                0 <= k < old(self).sessions@.len() && old(self).sessions@[k].client_id@ != client_id@
                    ==> final(self).sessions@[k] == #[trigger] old(self).sessions@[k],
            !old(self).has(client_id@) ==> !r.session_present && r.taken_over is None
                && r.queued@.len() == 0 && final(self).sessions@.len() == old(self).sessions@.len() + 1,
            forall|j: int|
                0 <= j < old(self).sessions@.len() && #[trigger] old(self).sessions@[j].client_id@
                    == client_id@ ==> {
                    &&& final(self).sessions@.len() == old(self).sessions@.len()
                    &&& r.taken_over == old(self).sessions@[j].connection
                    &&& r.session_present == !clean_start
                    &&& queue_view(r.queued@) == if clean_start {
                        Seq::<Seq<u8>>::empty()
                    } else {
                        queue_view(old(self).sessions@[j].queued@)
                    }
                },
    {
        let ghost before = self.sessions@;
        match self.find(client_id) {
            Some(j) => {
                proof {
                    assert forall|k: int|
                        0 <= k < before.len() && #[trigger] before[k].client_id@ == client_id@
                        implies k == j by {
                        if k < j {
                            assert(before[k].client_id@ != before[j as int].client_id@);
                        } else if k > j {
                            assert(before[j as int].client_id@ != before[k].client_id@);
                        }
                    }
                }
                let old_session = self.sessions.remove(j);
                let taken_over = old_session.connection;
                let queued = if clean_start {
                    Vec::new()
                } else {
                    old_session.queued
                };
                let fresh = Session { client_id: old_session.client_id, connection: Some(connection), queued: Vec::new() };
                self.sessions.insert(j, fresh);
                assert forall|k: int| 0 <= k < before.len() && k != j implies self.sessions@[k] == before[k] by {}
                assert forall|a: int, b: int|
                    0 <= a < b < self.sessions@.len() implies #[trigger] self.sessions@[a].client_id@
                    != #[trigger] self.sessions@[b].client_id@ by {
                    assert(self.sessions@[a].client_id@ == before[a].client_id@);
                    assert(self.sessions@[b].client_id@ == before[b].client_id@);
                }
                assert(self.sessions@[j as int].client_id@ == client_id@);
                BindOutcome { session_present: !clean_start, taken_over, queued }
            },
            None => {
                let fresh = Session { client_id: copy_bytes(client_id), connection: Some(connection), queued: Vec::new() };
                self.sessions.push(fresh);
                assert forall|a: int, b: int|
                    0 <= a < b < self.sessions@.len() implies #[trigger] self.sessions@[a].client_id@
                    != #[trigger] self.sessions@[b].client_id@ by {
                    if b < before.len() {
                        assert(before[a].client_id@ != before[b].client_id@);
                    } else {
                        assert(self.sessions@[a] == before[a]);
                    }
                }
                assert(self.sessions@[before.len() as int].client_id@ == client_id@);
                BindOutcome { session_present: false, taken_over: None, queued: Vec::new() }
            },
        }
    }

    /// Detaches `connection` from the session of `client_id`, if that is the
    /// connection bound to it; a connection already taken over leaves the
    /// session alone. True where it was detached.
    pub fn unbind(&mut self, client_id: &[u8], connection: u64) -> (r: bool)
        requires
            old(self).wf(),
        ensures
            final(self).wf(),
            final(self).sessions@.len() == old(self).sessions@.len(),
            r == exists|j: int|
                0 <= j < old(self).sessions@.len() && #[trigger] old(self).sessions@[j].client_id@
                    == client_id@ && old(self).sessions@[j].connection == Some(connection),
            forall|k: int|
                0 <= k < old(self).sessions@.len() ==> {
                    let s = #[trigger] old(self).sessions@[k];
                    let t = final(self).sessions@[k];
                    if s.client_id@ == client_id@ && s.connection == Some(connection) {
                        t.client_id@ == s.client_id@ && t.connection is None && t.queued@ == s.queued@
                    } else {
                        t == s
                    }
                },
    {
        let ghost before = self.sessions@;
        match self.find(client_id) {
            Some(j) => {
                proof {
                    assert forall|k: int|
                        0 <= k < before.len() && #[trigger] before[k].client_id@ == client_id@
                        implies k == j by {
                        if k < j {
                            assert(before[k].client_id@ != before[j as int].client_id@);
                        } else if k > j {
                            assert(before[j as int].client_id@ != before[k].client_id@);
                        }
                    }
                }
                if self.sessions[j].connection != Some(connection) {
                    return false;
                }
                let s = self.sessions.remove(j);
                self.sessions.insert(j, Session { client_id: s.client_id, connection: None, queued: s.queued });
                assert forall|k: int| 0 <= k < before.len() && k != j implies self.sessions@[k] == before[k] by {}
                assert forall|a: int, b: int|
                    0 <= a < b < self.sessions@.len() implies #[trigger] self.sessions@[a].client_id@
                    != #[trigger] self.sessions@[b].client_id@ by {
                    assert(self.sessions@[a].client_id@ == before[a].client_id@);
                    assert(self.sessions@[b].client_id@ == before[b].client_id@);
                }
                true
            },
            None => false,
        }
    }

    /// Keeps `packet` for the session of `client_id` while no connection is
    /// bound to it, after those already queued. False, with nothing
    /// changed, where the client has no session or is connected.
    pub fn enqueue(&mut self, client_id: &[u8], packet: Vec<u8>) -> (r: bool)
        requires
            old(self).wf(),
        ensures
            final(self).wf(),
            final(self).sessions@.len() == old(self).sessions@.len(),
            r == exists|j: int|
                0 <= j < old(self).sessions@.len() && #[trigger] old(self).sessions@[j].client_id@
                    == client_id@ && old(self).sessions@[j].connection is None,
            !r ==> final(self).sessions == old(self).sessions,
            forall|k: int|
                0 <= k < old(self).sessions@.len() ==> {
                    let s = #[trigger] old(self).sessions@[k];
                    let t = final(self).sessions@[k];
                    if r && s.client_id@ == client_id@ {
                        t.client_id@ == s.client_id@ && t.connection is None
                            && queue_view(t.queued@) == queue_view(s.queued@).push(packet@)
                    } else {
                        t == s
                    }
                },
    {
        let ghost before = self.sessions@;
        match self.find(client_id) {
            Some(j) => {
                proof {
                    assert forall|k: int|
                        0 <= k < before.len() && #[trigger] before[k].client_id@ == client_id@
                        implies k == j by {
                        if k < j {
                            assert(before[k].client_id@ != before[j as int].client_id@);
                        } else if k > j {
                            assert(before[j as int].client_id@ != before[k].client_id@);
                        }
                    }
                }
                if self.sessions[j].connection.is_some() {
                    return false;
                }
                let s = self.sessions.remove(j);
                let mut queued = s.queued;
                let ghost q0 = queued@;
                queued.push(packet);
                assert(queue_view(queued@) =~= queue_view(q0).push(packet@));
                self.sessions.insert(j, Session { client_id: s.client_id, connection: None, queued });
                assert forall|k: int| 0 <= k < before.len() && k != j implies self.sessions@[k] == before[k] by {}
                assert forall|a: int, b: int|
                    0 <= a < b < self.sessions@.len() implies #[trigger] self.sessions@[a].client_id@
                    != #[trigger] self.sessions@[b].client_id@ by {
                    assert(self.sessions@[a].client_id@ == before[a].client_id@);
                    assert(self.sessions@[b].client_id@ == before[b].client_id@);
                }
                true
            },
            None => false,
        }
    }
}

/// A well-formed table holds at most one session per client identifier.
pub proof fn lemma_one_session_per_client(t: SessionTable, client_id: Seq<u8>, i: int, j: int)
    requires
        t.wf(),
        0 <= i < t.sessions@.len(),
        0 <= j < t.sessions@.len(),
        t.sessions@[i].client_id@ == client_id,
        t.sessions@[j].client_id@ == client_id,
    ensures
        i == j,
{
    if i < j {
        assert(t.sessions@[i].client_id@ != t.sessions@[j].client_id@);
    } else if j < i {
        assert(t.sessions@[j].client_id@ != t.sessions@[i].client_id@);
    }
}

} // verus!
