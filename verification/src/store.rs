//! Model of the persisted agent records and the rules that read and write
//! them: the identity resolver that reuses or creates a record on
//! registration, the last-seen update on a heartbeat acknowledgment, and the
//! staleness rule the reaper selects by.
//!
//! Times are milliseconds of the hub's clock. An agent that has not been seen
//! for more than the staleness threshold while in an active status is stale.

use vstd::prelude::*;
use crate::protocol::{ProviderType, AgentStatus, GpuInfo, AgentInfo};

verus! {

/// How long an active agent may stay unseen before the reaper declares it
/// dead, in milliseconds.
pub const STALE_THRESHOLD_MS: u64 = 30000;

/// Kind of a stored model file.
#[derive(Clone, Copy, PartialEq, Eq, Debug, Structural)]
pub enum ModelType {
    Checkpoint,
    Lora,
    Embedding,
    Vae,
}

/// A persisted agent record.
pub struct Agent {
    pub id: u128,
    pub provider: ProviderType,
    pub provider_instance_id: Vec<u8>,
    pub hostname: Vec<u8>,
    pub status: AgentStatus,
    pub tailscale_ip: Vec<u8>,
    pub gpu_info: GpuInfo,
    pub registered_at: u64,
    pub last_seen_at: Option<u64>,
    pub terminated_at: Option<u64>,
    pub created_at: u64,
    pub updated_at: u64,
}

/// The table of agent records.
pub struct AgentTable {
    pub rows: Vec<Agent>,
}

/// Whether a record may be reused for a registration carrying this overlay
/// address and provider instance: same identity, never terminated.
pub open spec fn matches_identity(r: Agent, ip: Seq<u8>, pid: Seq<u8>) -> bool {
    &&& r.tailscale_ip@ == ip
    &&& r.provider_instance_id@ == pid
    &&& r.terminated_at is None
}

/// The first row matching the identity, if any.
pub open spec fn find_identity(rows: Seq<Agent>, ip: Seq<u8>, pid: Seq<u8>) -> Option<int>
    decreases rows.len(),
{
    if rows.len() == 0 {
        None
    } else if matches_identity(rows[0], ip, pid) {
        Some(0)
    } else {
        match find_identity(rows.skip(1), ip, pid) {
            None => None,
            Some(k) => Some(k + 1),
        }
    }
}

/// The first match past a matchless prefix is the first match of the suffix,
/// shifted.
pub proof fn lemma_find_identity_skip(rows: Seq<Agent>, ip: Seq<u8>, pid: Seq<u8>, i: int)
    requires
        0 <= i <= rows.len(),
        forall|j: int| 0 <= j < i ==> !matches_identity(#[trigger] rows[j], ip, pid),
    ensures
        find_identity(rows, ip, pid) == match find_identity(rows.skip(i), ip, pid) {
            None => None::<int>,
            Some(k) => Some(k + i),
        },
    decreases i,
{
    if i == 0 {
        assert(rows.skip(0) =~= rows);
    } else {
        assert(!matches_identity(rows[0], ip, pid));
        let t = rows.skip(1);
        assert(forall|j: int| 0 <= j < i - 1 ==> #[trigger] t[j] == rows[j + 1]);
        lemma_find_identity_skip(t, ip, pid, i - 1);
        assert(t.skip(i - 1) =~= rows.skip(i));
    }
}

/// An agent in an active status whose last-seen time lies more than the
/// threshold in the past is stale.
pub open spec fn is_stale(r: Agent, now: u64) -> bool {
    &&& (r.status == AgentStatus::Ready || r.status == AgentStatus::Running || r.status
        == AgentStatus::Idle)
    &&& match r.last_seen_at {
        Some(t) => t + STALE_THRESHOLD_MS < now,
        None => false,
    }
}

impl AgentTable {
    /// Table invariant: one row per agent identifier.
    pub open spec fn wf(&self) -> bool {
        forall|k1: int, k2: int|
            0 <= k1 < self.rows@.len() && 0 <= k2 < self.rows@.len() && k1 != k2
                ==> #[trigger] self.rows@[k1].id != #[trigger] self.rows@[k2].id
    }

    /// Whether a row for `id` exists.
    pub open spec fn has_row(&self, id: u128) -> bool {
        exists|k: int| 0 <= k < self.rows@.len() && self.rows@[k].id == id
    }

    /// The index of the row for `id`.
    pub open spec fn row_idx(&self, id: u128) -> int {
        choose|k: int| 0 <= k < self.rows@.len() && self.rows@[k].id == id
    }

    /// The row for `id`.
    pub open spec fn row(&self, id: u128) -> Agent {
        self.rows@[self.row_idx(id)]
    }

    /// The row of `id` is untouched between two table states.
    pub open spec fn row_unchanged(&self, other: &AgentTable, id: u128) -> bool {
        &&& (self.has_row(id) <==> other.has_row(id))
        &&& self.has_row(id) ==> self.row(id) == other.row(id)
    }

    /// An empty table.
    pub fn new() -> (r: AgentTable)
        ensures
            r.wf(),
            r.rows@.len() == 0,
            forall|id: u128| !r.has_row(id),
    {
        AgentTable { rows: Vec::new() }
    }

    /// Under the invariant, any index holding `id` is the index of `id`.
    pub proof fn lemma_row_unique(&self, id: u128, k: int)
        requires
            self.wf(),
            0 <= k < self.rows@.len(),
            self.rows@[k].id == id,
        ensures
            self.has_row(id),
            self.row_idx(id) == k,
    {
        assert(self.has_row(id));
        let j = self.row_idx(id);
        if j != k {
            assert(self.rows@[j].id != self.rows@[k].id);
        }
    }

    /// Finds the row index for `id`.
    fn find(&self, id: u128) -> (r: Option<usize>)
        requires
            self.wf(),
        ensures
            match r {
                Some(k) => {
                    &&& k < self.rows@.len()
                    &&& self.rows@[k as int].id == id
                    &&& self.has_row(id)
                    &&& self.row_idx(id) == k
                },
                None => !self.has_row(id),
            },
    {
        let mut i: usize = 0;
        while i < self.rows.len()
            invariant
                self.wf(),
                i <= self.rows@.len(),
                forall|j: int| 0 <= j < i ==> #[trigger] self.rows@[j].id != id,
            decreases self.rows@.len() - i,
        {
            if self.rows[i].id == id {
                proof {
                    self.lemma_row_unique(id, i as int);
                }
                return Some(i);
            }
            i = i + 1;
        }
        None
    }

    /// How many rows the table holds.
    pub fn row_count(&self) -> (r: usize)
        ensures
            r == self.rows@.len(),
    {
        self.rows.len()
    }

    /// Sets the status of the row for `id` and stamps its update time;
    /// returns whether the row was found. Every other row stands untouched.
    pub fn set_status(&mut self, id: u128, status: AgentStatus, now: u64) -> (r: bool)
        requires
            old(self).wf(),
        ensures
            final(self).wf(),
            r == old(self).has_row(id),
            r ==> {
                &&& final(self).has_row(id)
                &&& final(self).row(id) == (Agent {
                    status: status,
                    updated_at: now,
                    ..old(self).row(id)
                })
            },
            !r ==> *final(self) == *old(self),
            forall|o: u128| o != id ==> final(self).row_unchanged(old(self), o),
            final(self).rows@.len() == old(self).rows@.len(),
    {
        match self.find(id) {
            Some(k) => {
                let ghost pre = self.rows@;
                self.rows[k].status = status;
                self.rows[k].updated_at = now;
                proof {
                    self.lemma_update_frame(old(self), pre, k, id);
                }
                true
            },
            None => false,
        }
    }

    /// Stamps the last-seen time of the row for `id`; returns whether the row
    /// was found. Every other row stands untouched.
    pub fn touch_last_seen(&mut self, id: u128, now: u64) -> (r: bool)
        requires
            old(self).wf(),
        ensures
            final(self).wf(),
            r == old(self).has_row(id),
            r ==> {
                &&& final(self).has_row(id)
                &&& final(self).row(id) == (Agent {
                    last_seen_at: Some(now),
                    ..old(self).row(id)
                })
            },
            !r ==> *final(self) == *old(self),
            forall|o: u128| o != id ==> final(self).row_unchanged(old(self), o),
            final(self).rows@.len() == old(self).rows@.len(),
    {
        match self.find(id) {
            Some(k) => {
                let ghost pre = self.rows@;
                self.rows[k].last_seen_at = Some(now);
                proof {
                    self.lemma_update_frame(old(self), pre, k, id);
                }
                true
            },
            None => false,
        }
    }

    /// After updating row `k` in place without changing its identifier, the
    /// invariant holds and every other row is untouched.
    proof fn lemma_update_frame(&self, prev: &AgentTable, pre: Seq<Agent>, k: usize, id: u128)
        requires
            prev.wf(),
            prev.rows@ == pre,
            0 <= k < pre.len(),
            pre[k as int].id == id,
            self.rows@.len() == pre.len(),
            self.rows@[k as int].id == id,
            forall|j: int| 0 <= j < pre.len() && j != k ==> #[trigger] self.rows@[j] == pre[j],
        ensures
            self.wf(),
            self.has_row(id),
            self.row_idx(id) == k,
            forall|o: u128| o != id ==> self.row_unchanged(prev, o),
    {
        assert forall|k1: int, k2: int|
            0 <= k1 < self.rows@.len() && 0 <= k2 < self.rows@.len() && k1 != k2
            implies #[trigger] self.rows@[k1].id != #[trigger] self.rows@[k2].id by {
            assert(pre[k1].id == self.rows@[k1].id);
            assert(pre[k2].id == self.rows@[k2].id);
        }
        self.lemma_row_unique(id, k as int);
        assert forall|o: u128| o != id implies self.row_unchanged(prev, o) by {
            if prev.has_row(o) {
                let j = prev.row_idx(o);
                prev.lemma_row_unique(o, j);
                assert(j != k);
                self.lemma_row_unique(o, j);
            } else {
                if self.has_row(o) {
                    let j = self.row_idx(o);
                    assert(pre[j].id == o);
                }
            }
        }
    }

    /// Resolves the identity of a registering agent: reuses the first
    /// non-terminated row with the same overlay address and provider
    /// instance, refreshing it for the new session, or inserts a new row
    /// under `fresh_id`. Fails only when no row is reusable and `fresh_id`
    /// already names a row.
    pub fn resolve_identity(&mut self, info: &AgentInfo, now: u64, fresh_id: u128) -> (r: Result<
        u128,
        (),
    >)
        requires
            old(self).wf(),
        ensures
            final(self).wf(),
            ({
                let found = find_identity(old(self).rows@, info.tailscale_ip@,
                    info.provider_instance_id@);
                match r {
                    Ok(id) => {
                        &&& final(self).has_row(id)
                        &&& match found {
                            Some(k) => {
                                &&& id == old(self).rows@[k].id
                                &&& final(self).rows@.len() == old(self).rows@.len()
                                &&& final(self).row(id) == (Agent {
                                    status: AgentStatus::Registering,
                                    hostname: final(self).row(id).hostname,
                                    gpu_info: final(self).row(id).gpu_info,
                                    last_seen_at: Some(now),
                                    updated_at: now,
                                    ..old(self).rows@[k]
                                })
                                &&& final(self).row(id).hostname@ == info.hostname@
                                &&& final(self).row(id).gpu_info@ == info.gpu_info@
                            },
                            None => {
                                &&& id == fresh_id
                                &&& !old(self).has_row(fresh_id)
                                &&& final(self).rows@.len() == old(self).rows@.len() + 1
                                &&& final(self).row(id) == (Agent {
                                    id: fresh_id,
                                    provider: info.provider,
                                    provider_instance_id: final(self).row(id).provider_instance_id,
                                    hostname: final(self).row(id).hostname,
                                    status: AgentStatus::Registering,
                                    tailscale_ip: final(self).row(id).tailscale_ip,
                                    gpu_info: final(self).row(id).gpu_info,
                                    registered_at: now,
                                    last_seen_at: Some(now),
                                    terminated_at: None,
                                    created_at: now,
                                    updated_at: now,
                                })
                                &&& final(self).row(id).provider_instance_id@
                                    == info.provider_instance_id@
                                &&& final(self).row(id).hostname@ == info.hostname@
                                &&& final(self).row(id).tailscale_ip@ == info.tailscale_ip@
                                &&& final(self).row(id).gpu_info@ == info.gpu_info@
                            },
                        }
                        &&& forall|o: u128| o != id ==> final(self).row_unchanged(old(self), o)
                    },
                    Err(_) => {
                        &&& found is None
                        &&& old(self).has_row(fresh_id)
                        &&& *final(self) == *old(self)
                    },
                }
            }),
    {
        let ghost ip = info.tailscale_ip@;
        let ghost pid = info.provider_instance_id@;
        let mut i: usize = 0;
        while i < self.rows.len()
            invariant
                self.wf(),
                *self == *old(self),
                ip == info.tailscale_ip@,
                pid == info.provider_instance_id@,
                i <= self.rows@.len(),
                forall|j: int| 0 <= j < i ==> !matches_identity(#[trigger] self.rows@[j], ip, pid),
            decreases self.rows@.len() - i,
        {
            let cur = &self.rows[i];
            let row_ip_eq = crate::codec::bytes_eq(
                cur.tailscale_ip.as_slice(),
                info.tailscale_ip.as_slice(),
            );
            let row_pid_eq = crate::codec::bytes_eq(
                cur.provider_instance_id.as_slice(),
                info.provider_instance_id.as_slice(),
            );
            let never_terminated = cur.terminated_at.is_none();
            proof {
                assert(*cur == self.rows@[i as int]);
            }
            if row_ip_eq && row_pid_eq && never_terminated {
                proof {
                    assert(self.rows@[i as int].tailscale_ip@ == ip);
                    assert(self.rows@[i as int].provider_instance_id@ == pid);
                    assert(self.rows@[i as int].terminated_at is None);
                    assert(matches_identity(self.rows@[i as int], ip, pid));
                    lemma_find_identity_skip(self.rows@, ip, pid, i as int);
                    assert(self.rows@.skip(i as int)[0] == self.rows@[i as int]);
                    assert(find_identity(self.rows@.skip(i as int), ip, pid) == Some(0int));
                    assert(find_identity(self.rows@, ip, pid) == Some(i as int));
                }
                let id = self.rows[i].id;
                let ghost pre = self.rows@;
                self.rows[i].status = AgentStatus::Registering;
                self.rows[i].hostname = clone_bytes(&info.hostname);
                self.rows[i].gpu_info = clone_gpu(&info.gpu_info);
                self.rows[i].last_seen_at = Some(now);
                self.rows[i].updated_at = now;
                proof {
                    self.lemma_update_frame(old(self), pre, i, id);
                }
                return Ok(id);
            }
            proof {
                assert(!matches_identity(self.rows@[i as int], ip, pid));
            }
            i = i + 1;
        }
        proof {
            lemma_find_identity_skip(self.rows@, ip, pid, self.rows@.len() as int);
            assert(self.rows@.skip(self.rows@.len() as int).len() == 0);
            assert(find_identity(self.rows@, ip, pid) is None);
        }
        match self.find(fresh_id) {
            Some(_) => Err(()),
            None => {
                let ghost pre = self.rows@;
                self.rows.push(
                    Agent {
                        id: fresh_id,
                        provider: info.provider,
                        provider_instance_id: clone_bytes(&info.provider_instance_id),
                        hostname: clone_bytes(&info.hostname),
                        status: AgentStatus::Registering,
                        tailscale_ip: clone_bytes(&info.tailscale_ip),
                        gpu_info: clone_gpu(&info.gpu_info),
                        registered_at: now,
                        last_seen_at: Some(now),
                        terminated_at: None,
                        created_at: now,
                        updated_at: now,
                    },
                );
                proof {
                    let n = self.rows@.len();
                    assert(forall|j: int| 0 <= j < n - 1 ==> #[trigger] self.rows@[j] == pre[j]);
                    assert(self.rows@[n - 1].id == fresh_id);
                    assert(self.wf());
                    self.lemma_row_unique(fresh_id, n - 1);
                    assert forall|o: u128| o != fresh_id implies self.row_unchanged(
                        old(self),
                        o,
                    ) by {
                        if old(self).has_row(o) {
                            let j = old(self).row_idx(o);
                            old(self).lemma_row_unique(o, j);
                            self.lemma_row_unique(o, j);
                        } else {
                            if self.has_row(o) {
                                let j = self.row_idx(o);
                                assert(pre[j].id == o);
                            }
                        }
                    }
                }
                Ok(fresh_id)
            },
        }
    }

    /// The identifiers of every stale row: agents in an active status whose
    /// last-seen time lies more than the threshold before `now`.
    pub fn stale_agent_ids(&self, now: u64) -> (r: Vec<u128>)
        requires
            self.wf(),
        ensures
            forall|k: int|
                0 <= k < r@.len() ==> self.has_row(#[trigger] r@[k]) && is_stale(
                    self.row(r@[k]),
                    now,
                ),
            forall|j: int|
                0 <= j < self.rows@.len() && is_stale(#[trigger] self.rows@[j], now)
                    ==> r@.contains(self.rows@[j].id),
            forall|k1: int, k2: int|
                0 <= k1 < r@.len() && 0 <= k2 < r@.len() && k1 != k2 ==> #[trigger] r@[k1]
                    != #[trigger] r@[k2],
    {
        let mut out: Vec<u128> = Vec::new();
        let mut i: usize = 0;
        while i < self.rows.len()
            invariant
                self.wf(),
                i <= self.rows@.len(),
                forall|k: int|
                    0 <= k < out@.len() ==> self.has_row(#[trigger] out@[k]) && is_stale(
                        self.row(out@[k]),
                        now,
                    ),
                forall|j: int|
                    0 <= j < i && is_stale(#[trigger] self.rows@[j], now) ==> out@.contains(
                        self.rows@[j].id,
                    ),
                forall|k: int|
                    0 <= k < out@.len() ==> exists|j: int|
                        0 <= j < i && #[trigger] out@[k] == self.rows@[j].id,
                forall|k1: int, k2: int|
                    0 <= k1 < out@.len() && 0 <= k2 < out@.len() && k1 != k2 ==> #[trigger] out@[k1]
                        != #[trigger] out@[k2],
            decreases self.rows@.len() - i,
    {
            let row = &self.rows[i];
            let active = match row.status {
                AgentStatus::Ready => true,
                AgentStatus::Running => true,
                AgentStatus::Idle => true,
                _ => false,
            };
            let overdue = match row.last_seen_at {
                Some(t) => t < u64::MAX - STALE_THRESHOLD_MS && t + STALE_THRESHOLD_MS < now,
                None => false,
            };
            if active && overdue {
                let ghost preout = out@;
                out.push(row.id);
                proof {
                    self.lemma_row_unique(self.rows@[i as int].id, i as int);
                    assert forall|k: int| 0 <= k < out@.len() implies self.has_row(
                        #[trigger] out@[k],
                    ) && is_stale(self.row(out@[k]), now) by {
                        if k < preout.len() {
                            assert(out@[k] == preout[k]);
                        }
                    }
                    assert forall|k1: int, k2: int|
                        0 <= k1 < out@.len() && 0 <= k2 < out@.len() && k1 != k2
                        implies #[trigger] out@[k1] != #[trigger] out@[k2] by {
                        if k1 == out@.len() - 1 && k2 < out@.len() - 1 {
                            let j2 = choose|j: int|
                                0 <= j < i && #[trigger] preout[k2] == self.rows@[j].id;
                            assert(self.rows@[j2].id != self.rows@[i as int].id);
                        } else if k2 == out@.len() - 1 && k1 < out@.len() - 1 {
                            let j1 = choose|j: int|
                                0 <= j < i && #[trigger] preout[k1] == self.rows@[j].id;
                            assert(self.rows@[j1].id != self.rows@[i as int].id);
                        }
                    }
                    assert(out@[out@.len() - 1] == self.rows@[i as int].id);
                    assert forall|j: int|
                        0 <= j < i + 1 && is_stale(#[trigger] self.rows@[j], now)
                        implies out@.contains(self.rows@[j].id) by {
                        if j < i {
                            assert(preout.contains(self.rows@[j].id));
                            let k = choose|k: int|
                                0 <= k < preout.len() && preout[k] == self.rows@[j].id;
                            assert(out@[k] == self.rows@[j].id);
                        } else {
                            assert(out@[out@.len() - 1] == self.rows@[j].id);
                        }
                    }
                    assert forall|k: int| 0 <= k < out@.len() implies exists|j: int|
                        0 <= j < i + 1 && #[trigger] out@[k] == self.rows@[j].id by {
                        if k < preout.len() {
                            let j = choose|j: int|
                                0 <= j < i && #[trigger] preout[k] == self.rows@[j].id;
                            assert(0 <= j < i + 1 && out@[k] == self.rows@[j].id);
                        } else {
                            assert(out@[k] == self.rows@[i as int].id);
                        }
                    }
                }
            } else {
                proof {
                    assert(!is_stale(self.rows@[i as int], now));
                }
            }
            i = i + 1;
        }
        out
    }
}

/// Copies a byte string.
pub fn clone_bytes(v: &Vec<u8>) -> (r: Vec<u8>)
    ensures
        r@ == v@,
{
    let mut out: Vec<u8> = Vec::new();
    let mut i: usize = 0;
    while i < v.len()
        invariant
            i <= v@.len(),
            out@ =~= v@.take(i as int),
        decreases v@.len() - i,
    {
        out.push(v[i]);
        i = i + 1;
    }
    proof {
        assert(v@.take(v@.len() as int) =~= v@);
    }
    out
}

/// Copies a GPU record.
pub fn clone_gpu(g: &GpuInfo) -> (r: GpuInfo)
    ensures
        r@ == g@,
{
    GpuInfo {
        name: clone_bytes(&g.name),
        memory_gb: clone_bytes(&g.memory_gb),
        cuda_version: clone_bytes(&g.cuda_version),
        compute_capability: match &g.compute_capability {
            Some(cc) => Some(clone_bytes(cc)),
            None => None,
        },
    }
}

} // verus!
