//! The hub's connection registry: the in-memory map from agent identifier to
//! that agent's outbound message queue.
//!
//! At most one entry exists per agent at any instant; registering an agent
//! that is already present replaces its entry with a fresh queue under a new
//! session token, which displaces the prior session. Each queue holds at most
//! thirty-two messages; a full queue refuses further sends, so the heartbeat
//! cadence is decoupled from a stalled socket without unbounded memory.

use vstd::prelude::*;
use crate::protocol::{HubMessage, HubMessageV};

verus! {

/// Capacity of one agent's outbound queue.
pub const QUEUE_CAPACITY: usize = 32;

/// One registered connection: the agent, the token of the session that owns
/// the queue, and the queued outbound messages, oldest first.
pub struct ConnEntry {
    pub agent_id: u128,
    pub session: u64,
    pub queue: Vec<HubMessage>,
}

/// The connection registry.
pub struct Registry {
    pub entries: Vec<ConnEntry>,
}

/// What a send into an agent's queue came to.
#[derive(Clone, Copy, PartialEq, Eq, Debug, Structural)]
pub enum SendOutcome {
    Delivered,
    NotConnected,
    QueueFull,
}

impl Registry {
    /// Registry invariant: one entry per agent, and every queue within its
    /// capacity.
    pub open spec fn wf(&self) -> bool {
        &&& forall|k1: int, k2: int|
            0 <= k1 < self.entries@.len() && 0 <= k2 < self.entries@.len() && k1 != k2
                ==> #[trigger] self.entries@[k1].agent_id != #[trigger] self.entries@[k2].agent_id
        &&& forall|k: int|
            0 <= k < self.entries@.len() ==> #[trigger] self.entries@[k].queue@.len()
                <= QUEUE_CAPACITY
    }

    /// Whether an entry for `id` exists.
    pub open spec fn has_conn(&self, id: u128) -> bool {
        exists|k: int| 0 <= k < self.entries@.len() && self.entries@[k].agent_id == id
    }

    /// The index of the entry for `id`.
    pub open spec fn idx_of(&self, id: u128) -> int {
        choose|k: int| 0 <= k < self.entries@.len() && self.entries@[k].agent_id == id
    }

    /// The session token of the entry for `id`.
    pub open spec fn conn_session(&self, id: u128) -> u64 {
        self.entries@[self.idx_of(id)].session
    }

    /// The queued outbound messages of the entry for `id`, oldest first.
    pub open spec fn conn_queue(&self, id: u128) -> Seq<HubMessageV> {
        self.entries@[self.idx_of(id)].queue.deep_view()
    }

    /// The entry of `id` is untouched between two registry states.
    pub open spec fn conn_unchanged(&self, other: &Registry, id: u128) -> bool {
        &&& (self.has_conn(id) <==> other.has_conn(id))
        &&& self.has_conn(id) ==> {
            &&& self.conn_session(id) == other.conn_session(id)
            &&& self.conn_queue(id) == other.conn_queue(id)
        }
    }

    /// An empty registry.
    pub fn new() -> (r: Registry)
        ensures
            r.wf(),
            r.entries@.len() == 0,
            forall|id: u128| !r.has_conn(id),
    {
        Registry { entries: Vec::new() }
    }

    /// Under the invariant, any index holding `id` is the index of `id`.
    pub proof fn lemma_idx_unique(&self, id: u128, k: int)
        requires
            self.wf(),
            0 <= k < self.entries@.len(),
            self.entries@[k].agent_id == id,
        ensures
            self.has_conn(id),
            self.idx_of(id) == k,
    {
        assert(self.has_conn(id));
        let j = self.idx_of(id);
        assert(0 <= j < self.entries@.len() && self.entries@[j].agent_id == id);
        if j != k {
            assert(self.entries@[j].agent_id != self.entries@[k].agent_id);
        }
    }

    /// At most one registry entry exists for an agent at any instant: two
    /// indices that both hold the agent are the same index.
    pub proof fn lemma_at_most_one_entry(&self, id: u128, k1: int, k2: int)
        requires
            self.wf(),
            0 <= k1 < self.entries@.len(),
            0 <= k2 < self.entries@.len(),
            self.entries@[k1].agent_id == id,
            self.entries@[k2].agent_id == id,
        ensures
            k1 == k2,
    {
        self.lemma_idx_unique(id, k1);
        self.lemma_idx_unique(id, k2);
    }

    /// Finds the entry index for `id`.
    fn find(&self, id: u128) -> (r: Option<usize>)
        requires
            self.wf(),
        ensures
            match r {
                Some(k) => {
                    &&& k < self.entries@.len()
                    &&& self.entries@[k as int].agent_id == id
                    &&& self.has_conn(id)
                    &&& self.idx_of(id) == k
                },
                None => !self.has_conn(id),
            },
    {
        let mut i: usize = 0;
        while i < self.entries.len()
            invariant
                self.wf(),
                i <= self.entries@.len(),
                forall|j: int| 0 <= j < i ==> #[trigger] self.entries@[j].agent_id != id,
            decreases self.entries@.len() - i,
        {
            if self.entries[i].agent_id == id {
                proof {
                    self.lemma_idx_unique(id, i as int);
                }
                return Some(i);
            }
            i = i + 1;
        }
        None
    }

    /// Registers a connection for `agent_id` under the session token
    /// `session`: the agent's entry afterwards holds an empty queue and that
    /// token, replacing any prior entry; every other agent's entry stands
    /// untouched.
    pub fn register_connection(&mut self, agent_id: u128, session: u64)
        requires
            old(self).wf(),
        ensures
            final(self).wf(),
            final(self).has_conn(agent_id),
            final(self).conn_session(agent_id) == session,
            final(self).conn_queue(agent_id) == Seq::<HubMessageV>::empty(),
            forall|o: u128| o != agent_id ==> final(self).conn_unchanged(old(self), o),
    {
        match self.find(agent_id) {
            Some(k) => {
                let ghost pre = self.entries@;
                let _ = self.entries.remove(k);
                proof {
                    assert(forall|j: int|
                        0 <= j < k ==> #[trigger] self.entries@[j] == pre[j]);
                    assert(forall|j: int|
                        k <= j < self.entries@.len() ==> #[trigger] self.entries@[j] == pre[j
                            + 1]);
                    assert forall|o: u128|
                        o != agent_id && self.has_conn(o) implies (Registry {
                        entries: self.entries,
                    }).has_conn(o) by {}
                }
                self.entries.push(ConnEntry { agent_id, session, queue: Vec::new() });
                proof {
                    let n = self.entries@.len();
                    assert(self.entries@[n - 1].agent_id == agent_id);
                    self.lemma_register_post(old(self), agent_id, session, pre, k);
                }
            },
            None => {
                let ghost pre = self.entries@;
                self.entries.push(ConnEntry { agent_id, session, queue: Vec::new() });
                proof {
                    let n = self.entries@.len();
                    assert(self.entries@[n - 1].agent_id == agent_id);
                    assert(forall|j: int| 0 <= j < n - 1 ==> #[trigger] self.entries@[j] == pre[j]);
                    assert(self.wf());
                    self.lemma_idx_unique(agent_id, n - 1);
                    assert(self.conn_queue(agent_id) =~= Seq::<HubMessageV>::empty());
                    assert forall|o: u128| o != agent_id implies self.conn_unchanged(
                        old(self),
                        o,
                    ) by {
                        if old(self).has_conn(o) {
                            let j = old(self).idx_of(o);
                            old(self).lemma_idx_unique(o, j);
                            self.lemma_idx_unique(o, j);
                        } else {
                            if self.has_conn(o) {
                                let j = self.idx_of(o);
                                assert(pre[j].agent_id == o);
                            }
                        }
                    }
                }
            },
        }
    }

    /// After removing index `k` (which held `agent_id`) from `pre` and
    /// pushing a fresh entry, the registry holds the fresh entry for
    /// `agent_id` and everything else unchanged.
    proof fn lemma_register_post(
        &self,
        prev: &Registry,
        agent_id: u128,
        session: u64,
        pre: Seq<ConnEntry>,
        k: usize,
    )
        requires
            prev.wf(),
            prev.entries@ == pre,
            0 <= k < pre.len(),
            pre[k as int].agent_id == agent_id,
            self.entries@.len() == pre.len(),
            forall|j: int| 0 <= j < k ==> #[trigger] self.entries@[j] == pre[j],
            forall|j: int|
                k <= j < pre.len() - 1 ==> #[trigger] self.entries@[j] == pre[j + 1],
            self.entries@[pre.len() - 1].agent_id == agent_id,
            self.entries@[pre.len() - 1].session == session,
            self.entries@[pre.len() - 1].queue@.len() == 0,
        ensures
            self.wf(),
            self.has_conn(agent_id),
            self.conn_session(agent_id) == session,
            self.conn_queue(agent_id) == Seq::<HubMessageV>::empty(),
            forall|o: u128| o != agent_id ==> self.conn_unchanged(prev, o),
    {
        let n = pre.len() as int;
        assert forall|k1: int, k2: int|
            0 <= k1 < n && 0 <= k2 < n && k1 != k2 implies #[trigger] self.entries@[k1].agent_id
            != #[trigger] self.entries@[k2].agent_id by {
            if k1 < n - 1 && k2 < n - 1 {
                let o1 = if k1 < k {
                    k1
                } else {
                    k1 + 1
                };
                let o2 = if k2 < k {
                    k2
                } else {
                    k2 + 1
                };
                assert(pre[o1].agent_id != pre[o2].agent_id);
            } else if k1 == n - 1 {
                let o2 = if k2 < k {
                    k2
                } else {
                    k2 + 1
                };
                assert(o2 != k);
                assert(pre[o2].agent_id != agent_id);
            } else {
                let o1 = if k1 < k {
                    k1
                } else {
                    k1 + 1
                };
                assert(o1 != k);
                assert(pre[o1].agent_id != agent_id);
            }
        }
        assert(self.wf());
        self.lemma_idx_unique(agent_id, n - 1);
        assert(self.conn_queue(agent_id) =~= Seq::<HubMessageV>::empty());
        assert forall|o: u128| o != agent_id implies self.conn_unchanged(prev, o) by {
            if prev.has_conn(o) {
                let j = prev.idx_of(o);
                prev.lemma_idx_unique(o, j);
                assert(pre[j].agent_id == o);
                assert(j != k);
                let j2 = if j < k {
                    j
                } else {
                    j - 1
                };
                assert(self.entries@[j2] == pre[j]);
                self.lemma_idx_unique(o, j2);
            } else {
                if self.has_conn(o) {
                    let j = self.idx_of(o);
                    assert(self.entries@[j].agent_id == o);
                    let oj = if j < k {
                        j
                    } else {
                        j + 1
                    };
                    assert(j != n - 1);
                    assert(pre[oj].agent_id == o);
                    assert(prev.has_conn(o));
                }
            }
        }
    }

    /// Removes the entry for `agent_id`, if any; every other agent's entry
    /// stands untouched.
    pub fn remove_connection(&mut self, agent_id: u128)
        requires
            old(self).wf(),
        ensures
            final(self).wf(),
            !final(self).has_conn(agent_id),
            forall|o: u128| o != agent_id ==> final(self).conn_unchanged(old(self), o),
    {
        match self.find(agent_id) {
            Some(k) => {
                let ghost pre = self.entries@;
                let _ = self.entries.remove(k);
                proof {
                    assert(forall|j: int|
                        0 <= j < k ==> #[trigger] self.entries@[j] == pre[j]);
                    assert(forall|j: int|
                        k <= j < self.entries@.len() ==> #[trigger] self.entries@[j] == pre[j
                            + 1]);
                    assert forall|k1: int, k2: int|
                        0 <= k1 < self.entries@.len() && 0 <= k2 < self.entries@.len() && k1 != k2
                        implies #[trigger] self.entries@[k1].agent_id
                        != #[trigger] self.entries@[k2].agent_id by {
                        let o1 = if k1 < k {
                            k1
                        } else {
                            k1 + 1
                        };
                        let o2 = if k2 < k {
                            k2
                        } else {
                            k2 + 1
                        };
                        assert(pre[o1].agent_id != pre[o2].agent_id);
                    }
                    assert(self.wf());
                    if self.has_conn(agent_id) {
                        let j = self.idx_of(agent_id);
                        let oj = if j < k {
                            j
                        } else {
                            j + 1
                        };
                        assert(pre[oj].agent_id == agent_id);
                        assert(oj != k);
                        old(self).lemma_at_most_one_entry(agent_id, oj, k as int);
                    }
                    assert forall|o: u128| o != agent_id implies self.conn_unchanged(
                        old(self),
                        o,
                    ) by {
                        if old(self).has_conn(o) {
                            let j = old(self).idx_of(o);
                            old(self).lemma_idx_unique(o, j);
                            assert(j != k);
                            let j2 = if j < k {
                                j
                            } else {
                                j - 1
                            };
                            assert(self.entries@[j2] == pre[j]);
                            self.lemma_idx_unique(o, j2);
                        } else {
                            if self.has_conn(o) {
                                let j = self.idx_of(o);
                                let oj = if j < k {
                                    j
                                } else {
                                    j + 1
                                };
                                assert(pre[oj].agent_id == o);
                                assert(old(self).has_conn(o));
                            }
                        }
                    }
                }
            },
            None => {
            },
        }
    }

    /// Queues `message` for `agent_id`: delivered when the agent is present
    /// and its queue has room; otherwise the registry stands untouched and
    /// the outcome says why.
    pub fn send_to_agent(&mut self, agent_id: u128, message: HubMessage) -> (r: SendOutcome)
        requires
            old(self).wf(),
        ensures
            final(self).wf(),
            match r {
                SendOutcome::NotConnected => !old(self).has_conn(agent_id) && *final(self)
                    == *old(self),
                SendOutcome::QueueFull => {
                    &&& old(self).has_conn(agent_id)
                    &&& old(self).conn_queue(agent_id).len() >= QUEUE_CAPACITY
                    &&& *final(self) == *old(self)
                },
                SendOutcome::Delivered => {
                    &&& old(self).has_conn(agent_id)
                    &&& old(self).conn_queue(agent_id).len() < QUEUE_CAPACITY
                    &&& final(self).has_conn(agent_id)
                    &&& final(self).conn_queue(agent_id) == old(self).conn_queue(
                        agent_id,
                    ).push(message@)
                    &&& final(self).conn_session(agent_id) == old(self).conn_session(agent_id)
                    &&& forall|o: u128|
                        o != agent_id ==> final(self).conn_unchanged(old(self), o)
                },
            },
    {
        match self.find(agent_id) {
            Some(k) => {
                if self.entries[k].queue.len() >= QUEUE_CAPACITY {
                    return SendOutcome::QueueFull;
                }
                let ghost pre = self.entries@;
                let ghost preq = self.entries@[k as int].queue.deep_view();
                self.entries[k].queue.push(message);
                proof {
                    assert(self.entries@[k as int].agent_id == agent_id);
                    assert(forall|j: int|
                        0 <= j < pre.len() && j != k ==> #[trigger] self.entries@[j] == pre[j]);
                    assert forall|k1: int, k2: int|
                        0 <= k1 < self.entries@.len() && 0 <= k2 < self.entries@.len() && k1 != k2
                        implies #[trigger] self.entries@[k1].agent_id
                        != #[trigger] self.entries@[k2].agent_id by {
                        assert(pre[k1].agent_id == self.entries@[k1].agent_id);
                        assert(pre[k2].agent_id == self.entries@[k2].agent_id);
                    }
                    assert(self.wf());
                    self.lemma_idx_unique(agent_id, k as int);
                    assert(self.entries@[k as int].queue.deep_view() =~= preq.push(message@));
                    assert forall|o: u128| o != agent_id implies self.conn_unchanged(
                        old(self),
                        o,
                    ) by {
                        if old(self).has_conn(o) {
                            let j = old(self).idx_of(o);
                            old(self).lemma_idx_unique(o, j);
                            assert(j != k);
                            self.lemma_idx_unique(o, j);
                        } else {
                            if self.has_conn(o) {
                                let j = self.idx_of(o);
                                assert(pre[j].agent_id == o);
                            }
                        }
                    }
                }
                SendOutcome::Delivered
            },
            None => SendOutcome::NotConnected,
        }
    }

    /// Takes the oldest queued message for `agent_id`, provided the caller's
    /// session still owns the queue; a displaced session draws nothing.
    pub fn pop_outbound(&mut self, agent_id: u128, session: u64) -> (r: Option<HubMessage>)
        requires
            old(self).wf(),
        ensures
            final(self).wf(),
            match r {
                Some(m) => {
                    &&& old(self).has_conn(agent_id)
                    &&& old(self).conn_session(agent_id) == session
                    &&& old(self).conn_queue(agent_id).len() > 0
                    &&& m@ == old(self).conn_queue(agent_id)[0]
                    &&& final(self).has_conn(agent_id)
                    &&& final(self).conn_queue(agent_id) == old(self).conn_queue(agent_id).skip(1)
                    &&& final(self).conn_session(agent_id) == session
                    &&& forall|o: u128|
                        o != agent_id ==> final(self).conn_unchanged(old(self), o)
                },
                None => *final(self) == *old(self) && (!old(self).has_conn(agent_id) || old(
                    self,
                ).conn_session(agent_id) != session || old(self).conn_queue(agent_id).len() == 0),
            },
    {
        match self.find(agent_id) {
            Some(k) => {
                if self.entries[k].session != session {
                    return None;
                }
                if self.entries[k].queue.len() == 0 {
                    return None;
                }
                let ghost pre = self.entries@;
                let ghost preq = self.entries@[k as int].queue.deep_view();
                let m = self.entries[k].queue.remove(0);
                proof {
                    assert(self.entries@[k as int].agent_id == agent_id);
                    assert(forall|j: int|
                        0 <= j < pre.len() && j != k ==> #[trigger] self.entries@[j] == pre[j]);
                    assert forall|k1: int, k2: int|
                        0 <= k1 < self.entries@.len() && 0 <= k2 < self.entries@.len() && k1 != k2
                        implies #[trigger] self.entries@[k1].agent_id
                        != #[trigger] self.entries@[k2].agent_id by {
                        assert(pre[k1].agent_id == self.entries@[k1].agent_id);
                        assert(pre[k2].agent_id == self.entries@[k2].agent_id);
                    }
                    assert(self.wf());
                    self.lemma_idx_unique(agent_id, k as int);
                    assert(m@ == preq[0]);
                    assert(self.entries@[k as int].queue.deep_view() =~= preq.skip(1));
                    assert forall|o: u128| o != agent_id implies self.conn_unchanged(
                        old(self),
                        o,
                    ) by {
                        if old(self).has_conn(o) {
                            let j = old(self).idx_of(o);
                            old(self).lemma_idx_unique(o, j);
                            assert(j != k);
                            self.lemma_idx_unique(o, j);
                        } else {
                            if self.has_conn(o) {
                                let j = self.idx_of(o);
                                assert(pre[j].agent_id == o);
                            }
                        }
                    }
                }
                Some(m)
            },
            None => None,
        }
    }

    /// A snapshot of every connected agent's identifier.
    pub fn connected_agents(&self) -> (r: Vec<u128>)
        requires
            self.wf(),
        ensures
            r@.len() == self.entries@.len(),
            forall|k: int| 0 <= k < r@.len() ==> #[trigger] r@[k] == self.entries@[k].agent_id,
            forall|k: int| 0 <= k < r@.len() ==> self.has_conn(#[trigger] r@[k]),
    {
        let mut out: Vec<u128> = Vec::new();
        let mut i: usize = 0;
        while i < self.entries.len()
            invariant
                self.wf(),
                i <= self.entries@.len(),
                out@.len() == i,
                forall|k: int| 0 <= k < i ==> #[trigger] out@[k] == self.entries@[k].agent_id,
            decreases self.entries@.len() - i,
        {
            out.push(self.entries[i].agent_id);
            i = i + 1;
        }
        proof {
            assert forall|k: int| 0 <= k < out@.len() implies self.has_conn(#[trigger] out@[k]) by {
                assert(self.entries@[k].agent_id == out@[k]);
            }
        }
        out
    }

    /// The number of connected agents.
    pub fn connection_count(&self) -> (r: usize)
        ensures
            r == self.entries@.len(),
    {
        self.entries.len()
    }
}

} // verus!
