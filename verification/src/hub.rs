//! Hub-side session machinery: the shared state, the registration handshake
//! decision, the inbound demultiplexer of an established session, the
//! periodic heartbeat fanout with its per-agent sequence counters, and the
//! staleness reaper pass.
//!
//! Each function here is a decision step: the surrounding process performs
//! the socket reads and writes and hands the bytes and the clock in.

use vstd::prelude::*;
use crate::protocol::{AgentStatus, AgentMessage, HubMessage, HubMessageV, HeartbeatMessage,
    HeartbeatMessageV, AgentRegistration, AgentMessageV, AgentRegistrationV};
use crate::registry::{Registry, SendOutcome, QUEUE_CAPACITY};
use crate::store::{AgentTable, Agent, is_stale, find_identity};
use crate::codec::{decode_agent_frame, encode_hub_message, spec_decode_agent, spec_encode_hub,
    spec_encode_error, AgentFrameV, DecodeError};
use crate::lit::{vec_code_unknown_message, vec_code_registration_failed, vec_msg_unknown_type,
    vec_msg_registration_failed, code_unknown_message, code_registration_failed, msg_unknown_type,
    msg_registration_failed};
use crate::ids::fresh_uuid;

verus! {

/// One per-agent heartbeat sequence counter of the fanout task.
pub struct SeqEntry {
    pub agent_id: u128,
    pub value: u64,
}

/// The hub's shared state: the agent records, the connection registry, the
/// fanout task's sequence counters, and the next session token.
pub struct AppState {
    pub db: AgentTable,
    pub connections: Registry,
    pub seqs: Vec<SeqEntry>,
    pub next_session: u64,
    pub tailscale_ip: Option<Vec<u8>>,
}

/// The next counter value after `s`: one on the first tick, one more on each
/// further tick, pinned at the top of the counter's width.
pub open spec fn sat_inc(s: Option<u64>) -> u64 {
    match s {
        None => 1,
        Some(n) => if n == u64::MAX {
            u64::MAX
        } else {
            (n + 1) as u64
        },
    }
}

/// What one agent's slice of a fanout tick did.
pub struct FanoutRecord {
    pub agent_id: u128,
    pub correlation_id: u128,
    pub sequence: u64,
    pub outcome: SendOutcome,
}

/// How the hub session handler reacts to an inbound frame after
/// registration.
pub enum EstablishedAction {
    SeenUpdated,
    Ignored,
    CloseWithError(Vec<u8>),
    CloseSilent,
}

/// Why a connection was refused before registration completed.
pub enum RegistrationRefusal {
    CloseWithError(Vec<u8>),
    CloseSilent,
}

/// What a completed registration hands the session: the agent's identifier,
/// the session token owning the outbound queue, and the acknowledgment frame
/// to transmit.
pub struct SessionStart {
    pub agent_id: u128,
    pub session: u64,
    pub ack_frame: Vec<u8>,
}


/// What one agent's slice of a fanout tick guarantees, relating the state
/// before the tick to the state after it.
pub open spec fn fanout_slot_ok(
    pre: &AppState,
    post: &AppState,
    rec: FanoutRecord,
    ts: Seq<u8>,
) -> bool {
    let id = rec.agent_id;
    &&& rec.sequence == sat_inc(pre.seq_of(id))
    &&& match rec.outcome {
        SendOutcome::Delivered => {
            &&& pre.connections.has_conn(id)
            &&& pre.connections.conn_queue(id).len() < QUEUE_CAPACITY
            &&& post.connections.has_conn(id)
            &&& post.connections.conn_queue(id) == pre.connections.conn_queue(id).push(
                HubMessageV::Heartbeat(
                    HeartbeatMessageV {
                        correlation_id: rec.correlation_id,
                        timestamp: ts,
                        sequence: rec.sequence,
                    },
                ),
            )
            &&& post.connections.conn_session(id) == pre.connections.conn_session(id)
            &&& post.seq_of(id) == Some(rec.sequence)
        },
        SendOutcome::QueueFull => {
            &&& pre.connections.has_conn(id)
            &&& pre.connections.conn_queue(id).len() >= QUEUE_CAPACITY
            &&& post.connections.conn_unchanged(&pre.connections, id)
            &&& post.seq_of(id) is None
        },
        SendOutcome::NotConnected => {
            &&& !pre.connections.has_conn(id)
            &&& post.seq_of(id) is None
        },
    }
}


/// The counter stored for one agent after `k` successful fanout ticks in a
/// row, starting from no stored counter: absent before the first tick, then
/// the value each tick emitted, exactly as `fanout_tick` stores it.
pub open spec fn counter_after(k: nat) -> Option<u64>
    decreases k,
{
    if k == 0 {
        None
    } else {
        Some(sat_inc(counter_after((k - 1) as nat)))
    }
}

/// Heartbeat sequences within one session are strictly increasing by one,
/// starting from one: registering a session clears the agent's counter, so
/// it is absent when the session begins, and the agent receives sequence `k`
/// on the `k`-th successful fanout tick, for every `k` the counter's width
/// can hold.
pub proof fn lemma_heartbeat_sequences(k: nat)
    requires
        1 <= k <= u64::MAX,
    ensures
        sat_inc(counter_after((k - 1) as nat)) == k,
        counter_after(k) == Some(k as u64),
    decreases k,
{
    if k > 1 {
        lemma_heartbeat_sequences((k - 1) as nat);
    }
}


/// Whether the registration window of an accepted connection has passed at
/// `now_ms`: the hub waits this long for the first frame, then closes.
pub fn registration_window_expired(accepted_at_ms: u64, now_ms: u64) -> (r: bool)
    ensures
        r == crate::agent::deadline_exceeded(
            accepted_at_ms,
            now_ms,
            crate::agent::REGISTRATION_TIMEOUT_MS,
        ),
{
    crate::agent::deadline_check(accepted_at_ms, now_ms, crate::agent::REGISTRATION_TIMEOUT_MS)
}


/// The reaper's cadence bounds how long a stale agent can linger: with
/// passes at times `start + j * cadence`, the first pass at or after the
/// instant `e` where an agent crosses the staleness threshold runs less than
/// one cadence later, and that pass marks the agent and evicts it. With the
/// fifteen-second cadence this keeps the lag well inside the thirty seconds
/// the staleness threshold itself allows.
pub proof fn lemma_reaper_detection_latency(start: int, e: int, cadence: int)
    requires
        cadence > 0,
        start <= e,
    ensures
        ({
            let j = (e - start + cadence - 1) / cadence;
            &&& start + j * cadence >= e
            &&& start + j * cadence < e + cadence
        }),
{
    crate::agent::lemma_monitor_detection_latency(start, e, cadence);
}

/// Copies a byte slice into a vector.
pub fn copy_slice(s: &[u8]) -> (r: Vec<u8>)
    ensures
        r@ == s@,
{
    let mut out: Vec<u8> = Vec::new();
    let mut i: usize = 0;
    while i < s.len()
        invariant
            i <= s@.len(),
            out@ =~= s@.take(i as int),
        decreases s@.len() - i,
    {
        out.push(s[i]);
        i = i + 1;
    }
    proof {
        assert(s@.take(s@.len() as int) =~= s@);
    }
    out
}


/// The error frame the hub answers an unknown variant tag with.
pub fn unknown_message_frame() -> (r: Vec<u8>)
    ensures
        r@ == spec_encode_error(msg_unknown_type(), code_unknown_message(), None),
{
    let m = HubMessage::Error {
        message: vec_msg_unknown_type(),
        code: vec_code_unknown_message(),
        correlation_id: None,
    };
    encode_hub_message(&m)
}

/// The error frame the hub closes a registration with when the record could
/// not be persisted.
pub fn registration_failed_frame(cid: Option<u128>) -> (r: Vec<u8>)
    ensures
        r@ == spec_encode_error(msg_registration_failed(), code_registration_failed(), cid),
{
    let m = HubMessage::Error {
        message: vec_msg_registration_failed(),
        code: vec_code_registration_failed(),
        correlation_id: cid,
    };
    encode_hub_message(&m)
}

impl AppState {
    /// State invariant: records, connections and counters each keyed at most
    /// once.
    pub open spec fn wf(&self) -> bool {
        &&& self.db.wf()
        &&& self.connections.wf()
        &&& forall|k1: int, k2: int|
            0 <= k1 < self.seqs@.len() && 0 <= k2 < self.seqs@.len() && k1 != k2
                ==> #[trigger] self.seqs@[k1].agent_id != #[trigger] self.seqs@[k2].agent_id
    }

    /// Whether a counter for `id` exists.
    pub open spec fn has_seq(&self, id: u128) -> bool {
        exists|k: int| 0 <= k < self.seqs@.len() && self.seqs@[k].agent_id == id
    }

    /// The counter value stored for `id`, if any.
    pub open spec fn seq_of(&self, id: u128) -> Option<u64> {
        if self.has_seq(id) {
            Some(
                self.seqs@[choose|k: int|
                    0 <= k < self.seqs@.len() && self.seqs@[k].agent_id == id].value,
            )
        } else {
            None
        }
    }

    /// A fresh hub state with no records, no connections and no counters.
    pub fn new() -> (r: AppState)
        ensures
            r.wf(),
            r.db.rows@.len() == 0,
            r.connections.entries@.len() == 0,
            r.seqs@.len() == 0,
            r.next_session == 0,
            r.tailscale_ip is None,
    {
        AppState {
            db: AgentTable::new(),
            connections: Registry::new(),
            seqs: Vec::new(),
            next_session: 0,
            tailscale_ip: None,
        }
    }

    /// The hub's own overlay address, as last cached.
    pub fn get_tailscale_ip(&self) -> (r: Option<Vec<u8>>)
        ensures
            match r {
                Some(v) => self.tailscale_ip is Some && v@ == self.tailscale_ip->0@,
                None => self.tailscale_ip is None,
            },
    {
        match &self.tailscale_ip {
            Some(v) => Some(crate::store::clone_bytes(v)),
            None => None,
        }
    }

    /// Caches the hub's own overlay address.
    pub fn set_tailscale_ip(&mut self, ip: Vec<u8>)
        requires
            old(self).wf(),
        ensures
            final(self).wf(),
            final(self).tailscale_ip == Some(ip),
            final(self).db == old(self).db,
            final(self).connections == old(self).connections,
            final(self).seqs == old(self).seqs,
            final(self).next_session == old(self).next_session,
    {
        self.tailscale_ip = Some(ip);
    }

    /// Under the invariant, any counter index holding `id` determines
    /// `seq_of`.
    proof fn lemma_seq_unique(&self, id: u128, k: int)
        requires
            self.wf(),
            0 <= k < self.seqs@.len(),
            self.seqs@[k].agent_id == id,
        ensures
            self.has_seq(id),
            self.seq_of(id) == Some(self.seqs@[k].value),
    {
        assert(self.has_seq(id));
        let j = choose|j: int| 0 <= j < self.seqs@.len() && self.seqs@[j].agent_id == id;
        if j != k {
            assert(self.seqs@[j].agent_id != self.seqs@[k].agent_id);
        }
    }

    /// Counters of other agents are untouched between two states.
    pub open spec fn seq_unchanged(&self, other: &AppState, id: u128) -> bool {
        self.seq_of(id) == other.seq_of(id)
    }

    /// Two states with the same counter entries store the same counters.
    proof fn lemma_seq_of_same(&self, other: &AppState, id: u128)
        requires
            self.seqs == other.seqs,
        ensures
            self.seq_of(id) == other.seq_of(id),
    {
        if self.has_seq(id) {
            let k = choose|k: int| 0 <= k < self.seqs@.len() && self.seqs@[k].agent_id == id;
            assert(other.seqs@[k].agent_id == id);
            assert(other.has_seq(id));
        } else {
            if other.has_seq(id) {
                let k = choose|k: int|
                    0 <= k < other.seqs@.len() && other.seqs@[k].agent_id == id;
                assert(self.seqs@[k].agent_id == id);
            }
        }
    }

    /// Stores `value` as the counter of `id`, creating or overwriting its
    /// entry; everything else stands untouched.
    fn seq_store(&mut self, id: u128, value: u64)
        requires
            old(self).wf(),
        ensures
            final(self).wf(),
            final(self).seq_of(id) == Some(value),
            forall|o: u128| o != id ==> final(self).seq_unchanged(old(self), o),
            final(self).db == old(self).db,
            final(self).connections == old(self).connections,
            final(self).next_session == old(self).next_session,
            final(self).tailscale_ip == old(self).tailscale_ip,
    {
        let n = self.seqs.len();
        let mut i: usize = 0;
        while i < n
            invariant
                self.wf(),
                *self == *old(self),
                n == self.seqs@.len(),
                i <= n,
                forall|j: int| 0 <= j < i ==> #[trigger] self.seqs@[j].agent_id != id,
            decreases n - i,
        {
            if self.seqs[i].agent_id == id {
                let ghost pre = self.seqs@;
                self.seqs[i].value = value;
                proof {
                    assert(forall|j: int|
                        0 <= j < pre.len() && j != i ==> #[trigger] self.seqs@[j] == pre[j]);
                    assert forall|k1: int, k2: int|
                        0 <= k1 < self.seqs@.len() && 0 <= k2 < self.seqs@.len() && k1 != k2
                        implies #[trigger] self.seqs@[k1].agent_id
                        != #[trigger] self.seqs@[k2].agent_id by {
                        assert(pre[k1].agent_id == self.seqs@[k1].agent_id);
                        assert(pre[k2].agent_id == self.seqs@[k2].agent_id);
                    }
                    self.lemma_seq_unique(id, i as int);
                    assert forall|o: u128| o != id implies self.seq_unchanged(old(self), o) by {
                        if old(self).has_seq(o) {
                            let j = choose|j: int|
                                0 <= j < pre.len() && pre[j].agent_id == o;
                            old(self).lemma_seq_unique(o, j);
                            assert(j != i);
                            assert(self.seqs@[j] == pre[j]);
                            self.lemma_seq_unique(o, j);
                        } else {
                            if self.has_seq(o) {
                                let j = choose|j: int|
                                    0 <= j < self.seqs@.len() && self.seqs@[j].agent_id == o;
                                assert(j != i);
                                assert(pre[j].agent_id == o);
                                assert(old(self).has_seq(o));
                            }
                        }
                    }
                }
                return ;
            }
            i = i + 1;
        }
        let ghost pre = self.seqs@;
        self.seqs.push(SeqEntry { agent_id: id, value });
        proof {
            let m = self.seqs@.len();
            assert(forall|j: int| 0 <= j < m - 1 ==> #[trigger] self.seqs@[j] == pre[j]);
            assert(self.seqs@[m - 1].agent_id == id);
            assert(self.wf());
            self.lemma_seq_unique(id, m - 1);
            assert forall|o: u128| o != id implies self.seq_unchanged(old(self), o) by {
                if old(self).has_seq(o) {
                    let j = choose|j: int| 0 <= j < pre.len() && pre[j].agent_id == o;
                    old(self).lemma_seq_unique(o, j);
                    assert(self.seqs@[j] == pre[j]);
                    self.lemma_seq_unique(o, j);
                } else {
                    if self.has_seq(o) {
                        let j = choose|j: int|
                            0 <= j < self.seqs@.len() && self.seqs@[j].agent_id == o;
                        assert(j != m - 1);
                        assert(pre[j].agent_id == o);
                        assert(old(self).has_seq(o));
                    }
                }
            }
        }
    }

    /// Drops the counter of `id`, if any; everything else stands untouched.
    #[verifier::rlimit(60)]
    fn seq_erase(&mut self, id: u128)
        requires
            old(self).wf(),
        ensures
            final(self).wf(),
            final(self).seq_of(id) is None,
            forall|o: u128| o != id ==> final(self).seq_unchanged(old(self), o),
            final(self).db == old(self).db,
            final(self).connections == old(self).connections,
            final(self).next_session == old(self).next_session,
            final(self).tailscale_ip == old(self).tailscale_ip,
    {
        let n = self.seqs.len();
        let mut i: usize = 0;
        while i < n
            invariant
                self.wf(),
                *self == *old(self),
                n == self.seqs@.len(),
                i <= n,
                forall|j: int| 0 <= j < i ==> #[trigger] self.seqs@[j].agent_id != id,
            decreases n - i,
        {
            if self.seqs[i].agent_id == id {
                let ghost pre = self.seqs@;
                let _ = self.seqs.remove(i);
                proof {
                    assert(forall|j: int| 0 <= j < i ==> #[trigger] self.seqs@[j] == pre[j]);
                    assert(forall|j: int|
                        i <= j < self.seqs@.len() ==> #[trigger] self.seqs@[j] == pre[j + 1]);
                    assert forall|k1: int, k2: int|
                        0 <= k1 < self.seqs@.len() && 0 <= k2 < self.seqs@.len() && k1 != k2
                        implies #[trigger] self.seqs@[k1].agent_id
                        != #[trigger] self.seqs@[k2].agent_id by {
                        let o1 = if k1 < i {
                            k1
                        } else {
                            k1 + 1
                        };
                        let o2 = if k2 < i {
                            k2
                        } else {
                            k2 + 1
                        };
                        assert(pre[o1].agent_id != pre[o2].agent_id);
                    }
                    assert(self.wf());
                    if self.has_seq(id) {
                        let j = choose|j: int|
                            0 <= j < self.seqs@.len() && self.seqs@[j].agent_id == id;
                        let oj = if j < i {
                            j
                        } else {
                            j + 1
                        };
                        assert(pre[oj].agent_id == id);
                        assert(oj != i);
                        assert(pre[oj].agent_id != pre[i as int].agent_id);
                        assert(false);
                    }
                    assert forall|o: u128| o != id implies self.seq_unchanged(old(self), o) by {
                        if old(self).has_seq(o) {
                            let j = choose|j: int|
                                0 <= j < pre.len() && pre[j].agent_id == o;
                            old(self).lemma_seq_unique(o, j);
                            assert(j != i);
                            let j2 = if j < i {
                                j
                            } else {
                                j - 1
                            };
                            assert(self.seqs@[j2] == pre[j]);
                            self.lemma_seq_unique(o, j2);
                        } else {
                            if self.has_seq(o) {
                                let j = choose|j: int|
                                    0 <= j < self.seqs@.len() && self.seqs@[j].agent_id == o;
                                let oj = if j < i {
                                    j
                                } else {
                                    j + 1
                                };
                                assert(pre[oj].agent_id == o);
                                assert(old(self).has_seq(o));
                            }
                        }
                    }
                }
                return ;
            }
            i = i + 1;
        }
        proof {
            if self.has_seq(id) {
                let j = choose|j: int| 0 <= j < self.seqs@.len() && self.seqs@[j].agent_id == id;
                assert(self.seqs@[j].agent_id != id);
            }
        }
    }


    /// Reads the counter of `id`.
    fn seq_get(&self, id: u128) -> (r: Option<u64>)
        requires
            self.wf(),
        ensures
            r == self.seq_of(id),
    {
        let mut i: usize = 0;
        while i < self.seqs.len()
            invariant
                self.wf(),
                i <= self.seqs@.len(),
                forall|j: int| 0 <= j < i ==> #[trigger] self.seqs@[j].agent_id != id,
            decreases self.seqs@.len() - i,
        {
            if self.seqs[i].agent_id == id {
                proof {
                    self.lemma_seq_unique(id, i as int);
                }
                return Some(self.seqs[i].value);
            }
            i = i + 1;
        }
        proof {
            if self.has_seq(id) {
                let j = choose|j: int| 0 <= j < self.seqs@.len() && self.seqs@[j].agent_id == id;
                assert(self.seqs@[j].agent_id != id);
            }
        }
        None
    }

    /// One fanout tick: for every connected agent, in registry order, draw a
    /// fresh correlation identifier, advance that agent's sequence counter
    /// and queue a heartbeat stamped `now_ts`. An agent whose queue refuses
    /// the heartbeat loses its counter, so its next sequence restarts at one.
    pub fn fanout_tick(&mut self, now_ts: &[u8]) -> (r: Vec<FanoutRecord>)
        requires
            old(self).wf(),
        ensures
            final(self).wf(),
            final(self).db == old(self).db,
            final(self).next_session == old(self).next_session,
            final(self).tailscale_ip == old(self).tailscale_ip,
            r@.len() == old(self).connections.entries@.len(),
            forall|k: int|
                0 <= k < r@.len() ==> #[trigger] r@[k].agent_id
                    == old(self).connections.entries@[k].agent_id,
            forall|k: int|
                0 <= k < r@.len() ==> fanout_slot_ok(
                    old(self),
                    final(self),
                    #[trigger] r@[k],
                    now_ts@,
                ),
            forall|o: u128|
                !old(self).connections.has_conn(o) ==> final(self).connections.conn_unchanged(
                    &old(self).connections,
                    o,
                ) && final(self).seq_unchanged(old(self), o),
    {
        let ids = self.connections.connected_agents();
        proof {
            assert forall|k1: int, k2: int|
                0 <= k1 < ids@.len() && 0 <= k2 < ids@.len() && k1 != k2 implies #[trigger] ids@[k1]
                != #[trigger] ids@[k2] by {
                assert(ids@[k1] == self.connections.entries@[k1].agent_id);
                assert(ids@[k2] == self.connections.entries@[k2].agent_id);
            }
        }
        let mut out: Vec<FanoutRecord> = Vec::new();
        let mut i: usize = 0;
        while i < ids.len()
            invariant
                self.wf(),
                self.db == old(self).db,
                self.next_session == old(self).next_session,
                self.tailscale_ip == old(self).tailscale_ip,
                i <= ids@.len(),
                out@.len() == i,
                ids@.len() == old(self).connections.entries@.len(),
                forall|k: int|
                    0 <= k < ids@.len() ==> #[trigger] ids@[k]
                        == old(self).connections.entries@[k].agent_id,
                forall|k1: int, k2: int|
                    0 <= k1 < ids@.len() && 0 <= k2 < ids@.len() && k1 != k2 ==> #[trigger] ids@[k1]
                        != #[trigger] ids@[k2],
                forall|k: int| 0 <= k < i ==> #[trigger] out@[k].agent_id == ids@[k],
                forall|k: int|
                    0 <= k < i ==> fanout_slot_ok(old(self), self, #[trigger] out@[k], now_ts@),
                forall|o: u128|
                    !old(self).connections.has_conn(o) ==> self.connections.conn_unchanged(
                        &old(self).connections,
                        o,
                    ) && self.seq_unchanged(old(self), o),
                forall|k: int|
                    i <= k < ids@.len() ==> self.connections.conn_unchanged(
                        &old(self).connections,
                        #[trigger] ids@[k],
                    ) && self.seq_unchanged(old(self), ids@[k]),
            decreases ids@.len() - i,
        {
            let id = ids[i];
            let cid = crate::ids::fresh_uuid();
            let s0 = self.seq_get(id);
            let n: u64 = match s0 {
                Some(v) => if v < u64::MAX {
                    v + 1
                } else {
                    u64::MAX
                },
                None => 1,
            };
            proof {
                assert(self.seq_unchanged(old(self), ids@[i as int]));
                assert(n == sat_inc(old(self).seq_of(id)));
            }
            let hb = HubMessage::Heartbeat(
                HeartbeatMessage { correlation_id: cid, timestamp: copy_slice(now_ts), sequence: n },
            );
            proof {
                assert(hb@ == HubMessageV::Heartbeat(
                    HeartbeatMessageV { correlation_id: cid, timestamp: now_ts@, sequence: n },
                ));
            }
            let ghost mid = *self;
            let outcome = self.connections.send_to_agent(id, hb);
            let ghost mid2 = *self;
            match outcome {
                SendOutcome::Delivered => {
                    self.seq_store(id, n);
                },
                _ => {
                    self.seq_erase(id);
                },
            }
            let rec = FanoutRecord { agent_id: id, correlation_id: cid, sequence: n, outcome };
            proof {
                assert(fanout_slot_ok(old(self), self, rec, now_ts@));
            }
            out.push(rec);
            proof {
                assert forall|k: int| 0 <= k < i + 1 implies fanout_slot_ok(
                    old(self),
                    self,
                    #[trigger] out@[k],
                    now_ts@,
                ) by {
                    if k < i {
                        let oid = out@[k].agent_id;
                        assert(oid == ids@[k]);
                        assert(oid != id);
                        assert(mid2.connections.conn_unchanged(&mid.connections, oid));
                        assert(self.connections == mid2.connections);
                        assert(self.seq_unchanged(&mid2, oid));
                        assert(mid2.seqs == mid.seqs);
                        assert(fanout_slot_ok(old(self), &mid, out@[k], now_ts@));
                    }
                }
                assert forall|o: u128|
                    !old(self).connections.has_conn(o) implies self.connections.conn_unchanged(
                    &old(self).connections,
                    o,
                ) && self.seq_unchanged(old(self), o) by {
                    if o != id {
                        assert(mid2.connections.conn_unchanged(&mid.connections, o));
                        assert(self.connections == mid2.connections);
                        assert(self.seq_unchanged(&mid2, o));
                        assert(mid2.seqs == mid.seqs);
                        assert(mid.connections.conn_unchanged(&old(self).connections, o));
                        assert(mid.seq_unchanged(old(self), o));
                    } else {
                        assert(old(self).connections.has_conn(id));
                    }
                }
                assert forall|k: int|
                    i + 1 <= k < ids@.len() implies self.connections.conn_unchanged(
                    &old(self).connections,
                    #[trigger] ids@[k],
                ) && self.seq_unchanged(old(self), ids@[k]) by {
                    let oid = ids@[k];
                    assert(oid != id);
                    assert(mid2.connections.conn_unchanged(&mid.connections, oid));
                    assert(self.connections == mid2.connections);
                    assert(self.seq_unchanged(&mid2, oid));
                    assert(mid2.seqs == mid.seqs);
                    assert(mid.connections.conn_unchanged(&old(self).connections, oid));
                    assert(mid.seq_unchanged(old(self), oid));
                }
            }
            i = i + 1;
        }
        out
    }


    /// Registers a connection for `agent_id` under `session` in the
    /// connection registry and clears the agent's heartbeat counter, so the
    /// fresh session's sequences restart at one; records and every other
    /// agent's counter stand untouched.
    pub fn register_connection(&mut self, agent_id: u128, session: u64)
        requires
            old(self).wf(),
        ensures
            final(self).wf(),
            final(self).connections.has_conn(agent_id),
            final(self).connections.conn_session(agent_id) == session,
            final(self).connections.conn_queue(agent_id) == Seq::<HubMessageV>::empty(),
            forall|o: u128|
                o != agent_id ==> final(self).connections.conn_unchanged(
                    &old(self).connections,
                    o,
                ),
            final(self).db == old(self).db,
            final(self).seq_of(agent_id) is None,
            forall|o: u128| o != agent_id ==> final(self).seq_unchanged(old(self), o),
            final(self).tailscale_ip == old(self).tailscale_ip,
            final(self).next_session == old(self).next_session,
    {
        self.connections.register_connection(agent_id, session);
        let ghost mid = *self;
        self.seq_erase(agent_id);
        proof {
            assert forall|o: u128| o != agent_id implies self.seq_unchanged(old(self), o) by {
                assert(self.seq_unchanged(&mid, o));
                assert(mid.seqs == old(self).seqs);
                mid.lemma_seq_of_same(old(self), o);
            }
        }
    }

    /// Removes the connection of `agent_id`, if any, and clears the agent's
    /// heartbeat counter: destroying the registry entry resets the sequence.
    /// Records and every other agent's counter stand untouched.
    pub fn remove_connection(&mut self, agent_id: u128)
        requires
            old(self).wf(),
        ensures
            final(self).wf(),
            !final(self).connections.has_conn(agent_id),
            forall|o: u128|
                o != agent_id ==> final(self).connections.conn_unchanged(
                    &old(self).connections,
                    o,
                ),
            final(self).db == old(self).db,
            final(self).seq_of(agent_id) is None,
            forall|o: u128| o != agent_id ==> final(self).seq_unchanged(old(self), o),
            final(self).tailscale_ip == old(self).tailscale_ip,
            final(self).next_session == old(self).next_session,
    {
        self.connections.remove_connection(agent_id);
        let ghost mid = *self;
        self.seq_erase(agent_id);
        proof {
            assert forall|o: u128| o != agent_id implies self.seq_unchanged(old(self), o) by {
                assert(self.seq_unchanged(&mid, o));
                assert(mid.seqs == old(self).seqs);
                mid.lemma_seq_of_same(old(self), o);
            }
        }
    }

    /// Queues `message` for `agent_id`; records and counters stand untouched.
    pub fn send_to_agent(&mut self, agent_id: u128, message: HubMessage) -> (r: SendOutcome)
        requires
            old(self).wf(),
        ensures
            final(self).wf(),
            final(self).db == old(self).db,
            final(self).seqs == old(self).seqs,
            final(self).tailscale_ip == old(self).tailscale_ip,
            final(self).next_session == old(self).next_session,
            match r {
                SendOutcome::NotConnected => !old(self).connections.has_conn(agent_id)
                    && final(self).connections == old(self).connections,
                SendOutcome::QueueFull => {
                    &&& old(self).connections.has_conn(agent_id)
                    &&& old(self).connections.conn_queue(agent_id).len() >= QUEUE_CAPACITY
                    &&& final(self).connections == old(self).connections
                },
                SendOutcome::Delivered => {
                    &&& old(self).connections.has_conn(agent_id)
                    &&& final(self).connections.has_conn(agent_id)
                    &&& final(self).connections.conn_queue(agent_id) == old(self).connections.conn_queue(agent_id).push(message@)
                    &&& final(self).connections.conn_session(agent_id) == old(self).connections.conn_session(agent_id)
                    &&& forall|o: u128|
                        o != agent_id ==> final(self).connections.conn_unchanged(
                            &old(self).connections,
                            o,
                        )
                },
            },
    {
        self.connections.send_to_agent(agent_id, message)
    }

    /// A snapshot of every connected agent's identifier.
    pub fn connected_agents(&self) -> (r: Vec<u128>)
        requires
            self.wf(),
        ensures
            r@.len() == self.connections.entries@.len(),
            forall|k: int|
                0 <= k < r@.len() ==> #[trigger] r@[k] == self.connections.entries@[k].agent_id,
            forall|k: int| 0 <= k < r@.len() ==> self.connections.has_conn(#[trigger] r@[k]),
    {
        self.connections.connected_agents()
    }

    /// The number of connected agents.
    pub fn connection_count(&self) -> (r: usize)
        ensures
            r == self.connections.entries@.len(),
    {
        self.connections.connection_count()
    }

    /// The registration handshake, applied to the first inbound frame of an
    /// accepted connection. A session starts only on a `register` frame whose
    /// identity could be persisted: the frame's identity is resolved against
    /// the records, the connection is registered, the agent's heartbeat
    /// counter is cleared so its sequences restart at one, and the
    /// acknowledgment frame echoing the frame's correlation identifier is
    /// produced. Any other first frame refuses the connection and persists
    /// nothing.
    pub fn handle_first_frame(
        &mut self,
        frame: &[u8],
        hub_version: &[u8],
        now_ms: u64,
        now_ts: &[u8],
    ) -> (r: Result<SessionStart, RegistrationRefusal>)
        requires
            old(self).wf(),
        ensures
            final(self).wf(),
            final(self).tailscale_ip == old(self).tailscale_ip,
            ({
                let d = spec_decode_agent(frame@);
                match r {
                    Ok(ss) => match d {
                        AgentFrameV::Msg(m) => match m {
                            AgentMessageV::Register(info) => {
                                &&& ss.ack_frame@ == spec_encode_hub(
                                    HubMessageV::RegisterAck(
                                        AgentRegistrationV {
                                            correlation_id: info.correlation_id,
                                            agent_id: ss.agent_id,
                                            registered_at: now_ts@,
                                            hub_version: hub_version@,
                                        },
                                    ),
                                )
                                &&& ss.session == old(self).next_session
                                &&& final(self).next_session == (if old(self).next_session
                                    < u64::MAX {
                                    (old(self).next_session + 1) as u64
                                } else {
                                    u64::MAX
                                })
                                &&& final(self).connections.has_conn(ss.agent_id)
                                &&& final(self).connections.conn_session(ss.agent_id) == ss.session
                                &&& final(self).connections.conn_queue(ss.agent_id)
                                    == Seq::<HubMessageV>::empty()
                                &&& forall|o: u128|
                                    o != ss.agent_id ==> final(self).connections.conn_unchanged(
                                        &old(self).connections,
                                        o,
                                    )
                                &&& final(self).seq_of(ss.agent_id) is None
                                &&& forall|o: u128|
                                    o != ss.agent_id ==> final(self).seq_unchanged(old(self), o)
                                &&& final(self).db.has_row(ss.agent_id)
                                &&& final(self).db.row(ss.agent_id).status
                                    == AgentStatus::Registering
                                &&& final(self).db.row(ss.agent_id).last_seen_at == Some(now_ms)
                                &&& final(self).db.row(ss.agent_id).hostname@ == info.hostname
                                &&& final(self).db.row(ss.agent_id).gpu_info@ == info.gpu_info
                                &&& match find_identity(
                                    old(self).db.rows@,
                                    info.tailscale_ip,
                                    info.provider_instance_id,
                                ) {
                                    Some(k) => {
                                        &&& ss.agent_id == old(self).db.rows@[k].id
                                        &&& final(self).db.rows@.len() == old(self).db.rows@.len()
                                    },
                                    None => {
                                        &&& !old(self).db.has_row(ss.agent_id)
                                        &&& final(self).db.rows@.len() == old(self).db.rows@.len()
                                            + 1
                                        &&& final(self).db.row(ss.agent_id).provider_instance_id@
                                            == info.provider_instance_id
                                        &&& final(self).db.row(ss.agent_id).tailscale_ip@
                                            == info.tailscale_ip
                                        &&& final(self).db.row(ss.agent_id).provider
                                            == info.provider
                                        &&& final(self).db.row(ss.agent_id).registered_at == now_ms
                                        &&& final(self).db.row(ss.agent_id).terminated_at is None
                                    },
                                }
                                &&& forall|o: u128|
                                    o != ss.agent_id ==> final(self).db.row_unchanged(
                                        &old(self).db,
                                        o,
                                    )
                            },
                            AgentMessageV::HeartbeatAck(_) => false,
                        },
                        _ => false,
                    },
                    Err(refusal) => {
                        &&& final(self).db == old(self).db
                        &&& final(self).connections == old(self).connections
                        &&& final(self).seqs == old(self).seqs
                        &&& final(self).next_session == old(self).next_session
                        &&& match refusal {
                            RegistrationRefusal::CloseSilent => d == AgentFrameV::Malformed || (
                            match d {
                                AgentFrameV::Msg(m) => m is HeartbeatAck,
                                _ => false,
                            }),
                            RegistrationRefusal::CloseWithError(ef) => (d
                                == AgentFrameV::UnknownType && ef@ == spec_encode_error(
                                msg_unknown_type(),
                                code_unknown_message(),
                                None,
                            )) || (match d {
                                AgentFrameV::Msg(m) => match m {
                                    AgentMessageV::Register(info) => {
                                        &&& ef@ == spec_encode_error(
                                            msg_registration_failed(),
                                            code_registration_failed(),
                                            Some(info.correlation_id),
                                        )
                                        &&& find_identity(
                                            old(self).db.rows@,
                                            info.tailscale_ip,
                                            info.provider_instance_id,
                                        ) is None
                                    },
                                    _ => false,
                                },
                                _ => false,
                            }),
                        }
                    },
                }
            }),
    {
        match decode_agent_frame(frame) {
            Ok(msg) => match msg {
                AgentMessage::Register(info) => {
                    let fresh = fresh_uuid();
                    match self.db.resolve_identity(&info, now_ms, fresh) {
                        Ok(id) => {
                            let session = self.next_session;
                            if self.next_session < u64::MAX {
                                self.next_session = self.next_session + 1;
                            }
                            self.connections.register_connection(id, session);
                            let ghost mid = *self;
                            self.seq_erase(id);
                            proof {
                                assert forall|o: u128| o != id implies self.seq_unchanged(
                                    old(self),
                                    o,
                                ) by {
                                    assert(self.seq_unchanged(&mid, o));
                                    assert(mid.seqs == old(self).seqs);
                                    mid.lemma_seq_of_same(old(self), o);
                                }
                            }
                            let ack = HubMessage::RegisterAck(
                                AgentRegistration {
                                    correlation_id: info.correlation_id,
                                    agent_id: id,
                                    registered_at: copy_slice(now_ts),
                                    hub_version: copy_slice(hub_version),
                                },
                            );
                            let ack_frame = encode_hub_message(&ack);
                            Ok(SessionStart { agent_id: id, session, ack_frame })
                        },
                        Err(_) => {
                            let ef = registration_failed_frame(Some(info.correlation_id));
                            Err(RegistrationRefusal::CloseWithError(ef))
                        },
                    }
                },
                AgentMessage::HeartbeatAck(_) => Err(RegistrationRefusal::CloseSilent),
            },
            Err(DecodeError::UnknownType) => Err(
                RegistrationRefusal::CloseWithError(unknown_message_frame()),
            ),
            Err(DecodeError::Malformed) => Err(RegistrationRefusal::CloseSilent),
        }
    }

    /// The inbound demultiplexer of an established session: a heartbeat
    /// acknowledgment stamps the agent's last-seen time, a repeated
    /// registration is ignored, an unknown variant tag closes the session
    /// with an error envelope, and unparsable text closes it silently.
    pub fn handle_established_frame(&mut self, agent_id: u128, frame: &[u8], now_ms: u64) -> (r:
        EstablishedAction)
        requires
            old(self).wf(),
        ensures
            final(self).wf(),
            final(self).connections == old(self).connections,
            final(self).seqs == old(self).seqs,
            final(self).tailscale_ip == old(self).tailscale_ip,
            final(self).next_session == old(self).next_session,
            ({
                let d = spec_decode_agent(frame@);
                match r {
                    EstablishedAction::SeenUpdated => {
                        &&& (match d {
                            AgentFrameV::Msg(m) => m is HeartbeatAck,
                            _ => false,
                        })
                        &&& old(self).db.has_row(agent_id)
                        &&& final(self).db.has_row(agent_id)
                        &&& final(self).db.row(agent_id) == (Agent {
                            last_seen_at: Some(now_ms),
                            ..old(self).db.row(agent_id)
                        })
                        &&& forall|o: u128|
                            o != agent_id ==> final(self).db.row_unchanged(&old(self).db, o)
                    },
                    EstablishedAction::Ignored => {
                        &&& (match d {
                            AgentFrameV::Msg(m) => match m {
                                AgentMessageV::HeartbeatAck(_) => !old(self).db.has_row(agent_id),
                                AgentMessageV::Register(_) => true,
                            },
                            _ => false,
                        })
                        &&& final(self).db == old(self).db
                    },
                    EstablishedAction::CloseWithError(ef) => {
                        &&& d == AgentFrameV::UnknownType
                        &&& ef@ == spec_encode_error(msg_unknown_type(), code_unknown_message(), None)
                        &&& final(self).db == old(self).db
                    },
                    EstablishedAction::CloseSilent => {
                        &&& d == AgentFrameV::Malformed
                        &&& final(self).db == old(self).db
                    },
                }
            }),
    {
        match decode_agent_frame(frame) {
            Ok(msg) => match msg {
                AgentMessage::HeartbeatAck(_) => {
                    let found = self.db.touch_last_seen(agent_id, now_ms);
                    if found {
                        EstablishedAction::SeenUpdated
                    } else {
                        EstablishedAction::Ignored
                    }
                },
                AgentMessage::Register(_) => EstablishedAction::Ignored,
            },
            Err(DecodeError::UnknownType) => EstablishedAction::CloseWithError(
                unknown_message_frame(),
            ),
            Err(DecodeError::Malformed) => EstablishedAction::CloseSilent,
        }
    }

    /// One reaper pass: every agent stale at `now_ms` has its record marked
    /// `Error` with a fresh update stamp, loses its registry entry and loses
    /// its heartbeat counter; everything else stands untouched. Returns the
    /// reaped identifiers.
    pub fn reap_stale(&mut self, now_ms: u64) -> (r: Vec<u128>)
        requires
            old(self).wf(),
        ensures
            final(self).wf(),
            final(self).tailscale_ip == old(self).tailscale_ip,
            final(self).next_session == old(self).next_session,
            forall|k: int|
                0 <= k < r@.len() ==> old(self).db.has_row(#[trigger] r@[k]) && is_stale(
                    old(self).db.row(r@[k]),
                    now_ms,
                ),
            forall|j: int|
                0 <= j < old(self).db.rows@.len() && is_stale(#[trigger] old(self).db.rows@[j], now_ms)
                    ==> r@.contains(old(self).db.rows@[j].id),
            forall|k1: int, k2: int|
                0 <= k1 < r@.len() && 0 <= k2 < r@.len() && k1 != k2 ==> #[trigger] r@[k1]
                    != #[trigger] r@[k2],
            forall|k: int|
                0 <= k < r@.len() ==> final(self).db.has_row(#[trigger] r@[k]) && final(self).db.row(r@[k]) == (Agent {
                    status: AgentStatus::Error,
                    updated_at: now_ms,
                    ..old(self).db.row(r@[k])
                }) && !final(self).connections.has_conn(r@[k]) && final(self).seq_of(r@[k]) is None,
            forall|o: u128|
                !r@.contains(o) ==> final(self).db.row_unchanged(&old(self).db, o) && final(self).connections.conn_unchanged(&old(self).connections, o) && final(self).seq_unchanged(old(self), o),
    {
        let stale = self.db.stale_agent_ids(now_ms);
        proof {
            assert(self.db == old(self).db);
        }
        let mut i: usize = 0;
        while i < stale.len()
            invariant
                self.wf(),
                self.next_session == old(self).next_session,
                self.tailscale_ip == old(self).tailscale_ip,
                i <= stale@.len(),
                forall|k: int|
                    0 <= k < stale@.len() ==> old(self).db.has_row(#[trigger] stale@[k]) && is_stale(
                        old(self).db.row(stale@[k]),
                        now_ms,
                    ),
                forall|j: int|
                    0 <= j < old(self).db.rows@.len() && is_stale(
                        #[trigger] old(self).db.rows@[j],
                        now_ms,
                    ) ==> stale@.contains(old(self).db.rows@[j].id),
                forall|k1: int, k2: int|
                    0 <= k1 < stale@.len() && 0 <= k2 < stale@.len() && k1 != k2
                        ==> #[trigger] stale@[k1] != #[trigger] stale@[k2],
                forall|k: int|
                    0 <= k < i ==> self.db.has_row(#[trigger] stale@[k]) && self.db.row(stale@[k])
                        == (Agent {
                        status: AgentStatus::Error,
                        updated_at: now_ms,
                        ..old(self).db.row(stale@[k])
                    }) && !self.connections.has_conn(stale@[k]) && self.seq_of(stale@[k]) is None,
                forall|o: u128|
                    !stale@.contains(o) ==> self.db.row_unchanged(&old(self).db, o)
                        && self.connections.conn_unchanged(&old(self).connections, o)
                        && self.seq_unchanged(old(self), o),
                forall|k: int|
                    i <= k < stale@.len() ==> self.db.row_unchanged(
                        &old(self).db,
                        #[trigger] stale@[k],
                    ) && self.connections.conn_unchanged(&old(self).connections, stale@[k])
                        && self.seq_unchanged(old(self), stale@[k]),
            decreases stale@.len() - i,
        {
            let id = stale[i];
            let ghost mid = *self;
            proof {
                assert(self.db.row_unchanged(&old(self).db, stale@[i as int]));
                assert(self.db.has_row(id));
                assert(self.db.row(id) == old(self).db.row(id));
            }
            let _ = self.db.set_status(id, AgentStatus::Error, now_ms);
            let ghost mid2 = *self;
            self.connections.remove_connection(id);
            let ghost mid3 = *self;
            self.seq_erase(id);
            proof {
                assert(self.db == mid3.db && mid3.db == mid2.db);
                assert(self.connections == mid3.connections);
                assert(mid3.seqs == mid2.seqs && mid2.seqs == mid.seqs);
                assert(self.db.row(id) == (Agent {
                    status: AgentStatus::Error,
                    updated_at: now_ms,
                    ..old(self).db.row(id)
                }));
                assert(stale@.contains(stale@[i as int]));
                assert forall|k: int|
                    0 <= k < i + 1 implies self.db.has_row(#[trigger] stale@[k]) && self.db.row(
                    stale@[k],
                ) == (Agent {
                    status: AgentStatus::Error,
                    updated_at: now_ms,
                    ..old(self).db.row(stale@[k])
                }) && !self.connections.has_conn(stale@[k]) && self.seq_of(stale@[k]) is None by {
                    if k < i {
                        let oid = stale@[k];
                        assert(oid != id);
                        assert(mid2.db.row_unchanged(&mid.db, oid));
                        assert(mid3.connections.conn_unchanged(&mid2.connections, oid));
                        assert(mid2.connections == mid.connections);
                        assert(self.seq_unchanged(&mid3, oid));
                        assert(mid.db.has_row(oid) && mid.db.row(oid) == (Agent {
                            status: AgentStatus::Error,
                            updated_at: now_ms,
                            ..old(self).db.row(oid)
                        }) && !mid.connections.has_conn(oid) && mid.seq_of(oid) is None);
                    }
                }
                assert forall|o: u128|
                    !stale@.contains(o) implies self.db.row_unchanged(&old(self).db, o)
                    && self.connections.conn_unchanged(&old(self).connections, o)
                    && self.seq_unchanged(old(self), o) by {
                    assert(o != id);
                    assert(mid2.db.row_unchanged(&mid.db, o));
                    assert(mid3.connections.conn_unchanged(&mid2.connections, o));
                    assert(mid2.connections == mid.connections);
                    assert(self.seq_unchanged(&mid3, o));
                    assert(mid.db.row_unchanged(&old(self).db, o));
                    assert(mid.connections.conn_unchanged(&old(self).connections, o));
                    assert(mid.seq_unchanged(old(self), o));
                }
                assert forall|k: int|
                    i + 1 <= k < stale@.len() implies self.db.row_unchanged(
                    &old(self).db,
                    #[trigger] stale@[k],
                ) && self.connections.conn_unchanged(&old(self).connections, stale@[k])
                    && self.seq_unchanged(old(self), stale@[k]) by {
                    let oid = stale@[k];
                    assert(oid != id);
                    assert(mid2.db.row_unchanged(&mid.db, oid));
                    assert(mid3.connections.conn_unchanged(&mid2.connections, oid));
                    assert(mid2.connections == mid.connections);
                    assert(self.seq_unchanged(&mid3, oid));
                    assert(mid.db.row_unchanged(&old(self).db, oid));
                    assert(mid.connections.conn_unchanged(&old(self).connections, oid));
                    assert(mid.seq_unchanged(old(self), oid));
                }
            }
            i = i + 1;
        }
        stale
    }

}

} // verus!


