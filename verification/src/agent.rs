//! The agent's session driver: the state machine that owns one outbound
//! connection to the hub.
//!
//! One attempt runs connect, register, await the acknowledgment, then serve
//! heartbeats until the session ends. Failures before the session is
//! established back off exponentially; a session that was established resets
//! the backoff when it closes. A monitor running on its own cadence tears the
//! session down when no heartbeat arrived within the deadline. The transport
//! loop around this machine performs the socket work and feeds frames, clock
//! readings and failures in.

use vstd::prelude::*;
use crate::protocol::{ProviderType, GpuInfo, AgentInfo, AgentMessage, HeartbeatAckMessage,
    AgentMessageV, AgentInfoV, HeartbeatAckMessageV, HubMessageV, wf_gpu_info};
use crate::codec::{encode_agent_message, decode_hub_frame, spec_encode_agent, spec_decode_hub,
    HubFrameV};
use crate::backoff::{INITIAL_BACKOFF_MS, MAX_BACKOFF_MS, next_backoff, spec_next_backoff};
use crate::store::{clone_bytes, clone_gpu};
use crate::hub::copy_slice;
use crate::ids::fresh_uuid;

verus! {

/// How long the agent waits for a heartbeat before it declares the session
/// dead, in milliseconds.
pub const HEARTBEAT_TIMEOUT_MS: u64 = 30000;

/// How long the agent waits for the registration acknowledgment, in
/// milliseconds.
pub const REGISTRATION_TIMEOUT_MS: u64 = 30000;

/// Cadence of the heartbeat-deadline monitor, in milliseconds.
pub const MONITOR_INTERVAL_MS: u64 = 5000;

/// Where one connection attempt stands.
#[derive(Clone, Copy, PartialEq, Eq, Debug, Structural)]
pub enum AgentPhase {
    Disconnected,
    AwaitRegAck,
    Connected,
}

/// What the driver decided about a frame that arrived while awaiting the
/// registration acknowledgment: the session is established, or the hub
/// rejected the registration under the carried code, or the attempt failed
/// some other way.
#[derive(PartialEq, Debug)]
pub enum AwaitOutcome {
    Established,
    Rejected(Vec<u8>),
    AttemptFailed,
}

/// What the driver decided about a frame that arrived on an established
/// session: answer with the returned acknowledgment frame, take note of a
/// known but unanswerable message, or close the session on a protocol
/// violation.
pub enum ConnectedAction {
    Ack(Vec<u8>),
    Ignore,
    Close,
}

/// The acknowledgment owed for one inbound message: exactly one per
/// heartbeat, echoing its correlation identifier under the driver's clock
/// reading, and none for anything else.
pub open spec fn ack_for(m: HubMessageV, ts: Seq<u8>) -> Option<AgentMessageV> {
    match m {
        HubMessageV::Heartbeat(hb) => Some(
            AgentMessageV::HeartbeatAck(
                HeartbeatAckMessageV { correlation_id: hb.correlation_id, timestamp: ts },
            ),
        ),
        _ => None,
    }
}

/// The session driver at the core of the agent's connection client; the
/// transport loop drives it with connection events, inbound frames and
/// clock readings.
pub struct WsClient {
    pub hub_url: String,
    pub provider: ProviderType,
    pub provider_instance_id: Vec<u8>,
    pub hostname: Vec<u8>,
    pub gpu_info: GpuInfo,
    pub tailscale_ip: Vec<u8>,
    pub agent_version: Vec<u8>,
    pub phase: AgentPhase,
    pub backoff_ms: u64,
    pub agent_id: Option<u128>,
    pub last_heartbeat_ms: u64,
    pub register_sent_at_ms: u64,
    pub shutdown_requested: bool,
}

impl WsClient {
    /// Driver invariant: the backoff stays between its floor and its
    /// ceiling, and the GPU record is fit for the wire.
    pub open spec fn wf(&self) -> bool {
        &&& INITIAL_BACKOFF_MS <= self.backoff_ms <= MAX_BACKOFF_MS
        &&& wf_gpu_info(self.gpu_info@)
    }

    /// The driver's configuration is untouched between two states.
    pub open spec fn config_unchanged(&self, other: &WsClient) -> bool {
        &&& self.hub_url@ == other.hub_url@
        &&& self.provider == other.provider
        &&& self.provider_instance_id@ == other.provider_instance_id@
        &&& self.hostname@ == other.hostname@
        &&& self.gpu_info@ == other.gpu_info@
        &&& self.tailscale_ip@ == other.tailscale_ip@
        &&& self.agent_version@ == other.agent_version@
    }

    /// A new driver: disconnected, at the initial backoff, with no
    /// registered identity and no shutdown requested.
    pub fn new(
        hub_url: String,
        provider: ProviderType,
        provider_instance_id: Vec<u8>,
        hostname: Vec<u8>,
        gpu_info: GpuInfo,
        tailscale_ip: Vec<u8>,
        agent_version: Vec<u8>,
    ) -> (r: WsClient)
        requires
            wf_gpu_info(gpu_info@),
        ensures
            r.wf(),
            r.phase == AgentPhase::Disconnected,
            r.backoff_ms == INITIAL_BACKOFF_MS,
            r.agent_id is None,
            !r.shutdown_requested,
            r.hub_url@ == hub_url@,
            r.provider == provider,
            r.provider_instance_id@ == provider_instance_id@,
            r.hostname@ == hostname@,
            r.gpu_info@ == gpu_info@,
            r.tailscale_ip@ == tailscale_ip@,
            r.agent_version@ == agent_version@,
    {
        WsClient {
            hub_url,
            provider,
            provider_instance_id,
            hostname,
            gpu_info,
            tailscale_ip,
            agent_version,
            phase: AgentPhase::Disconnected,
            backoff_ms: INITIAL_BACKOFF_MS,
            agent_id: None,
            last_heartbeat_ms: 0,
            register_sent_at_ms: 0,
            shutdown_requested: false,
        }
    }

    /// The registration message of this driver, under a freshly drawn
    /// correlation identifier.
    pub fn create_registration_message(&self) -> (r: AgentMessage)
        ensures
            ({
                match r@ {
                    AgentMessageV::Register(info) => {
                        &&& info.provider == self.provider
                        &&& info.provider_instance_id == self.provider_instance_id@
                        &&& info.hostname == self.hostname@
                        &&& info.gpu_info == self.gpu_info@
                        &&& info.tailscale_ip == self.tailscale_ip@
                        &&& info.agent_version == self.agent_version@
                    },
                    AgentMessageV::HeartbeatAck(_) => false,
                }
            }),
    {
        let cid = fresh_uuid();
        AgentMessage::Register(
            AgentInfo {
                correlation_id: cid,
                provider: self.provider,
                provider_instance_id: clone_bytes(&self.provider_instance_id),
                hostname: clone_bytes(&self.hostname),
                gpu_info: clone_gpu(&self.gpu_info),
                tailscale_ip: clone_bytes(&self.tailscale_ip),
                agent_version: clone_bytes(&self.agent_version),
            },
        )
    }

    /// The transport opened: send the registration frame and await its
    /// acknowledgment from `now_ms` on.
    pub fn on_connected(&mut self, now_ms: u64) -> (frame: Vec<u8>)
        requires
            old(self).wf(),
            old(self).phase == AgentPhase::Disconnected,
        ensures
            final(self).wf(),
            final(self).config_unchanged(old(self)),
            final(self).phase == AgentPhase::AwaitRegAck,
            final(self).register_sent_at_ms == now_ms,
            final(self).backoff_ms == old(self).backoff_ms,
            final(self).shutdown_requested == old(self).shutdown_requested,
            final(self).agent_id == old(self).agent_id,
            final(self).last_heartbeat_ms == old(self).last_heartbeat_ms,
            exists|cid: u128|
                frame@ == spec_encode_agent(
                    AgentMessageV::Register(
                        AgentInfoV {
                            correlation_id: cid,
                            provider: old(self).provider,
                            provider_instance_id: old(self).provider_instance_id@,
                            hostname: old(self).hostname@,
                            gpu_info: old(self).gpu_info@,
                            tailscale_ip: old(self).tailscale_ip@,
                            agent_version: old(self).agent_version@,
                        },
                    ),
                ),
    {
        let msg = self.create_registration_message();
        let frame = encode_agent_message(&msg);
        self.phase = AgentPhase::AwaitRegAck;
        self.register_sent_at_ms = now_ms;
        proof {
            match msg@ {
                AgentMessageV::Register(info) => {
                    assert(frame@ == spec_encode_agent(
                        AgentMessageV::Register(
                            AgentInfoV {
                                correlation_id: info.correlation_id,
                                provider: old(self).provider,
                                provider_instance_id: old(self).provider_instance_id@,
                                hostname: old(self).hostname@,
                                gpu_info: old(self).gpu_info@,
                                tailscale_ip: old(self).tailscale_ip@,
                                agent_version: old(self).agent_version@,
                            },
                        ),
                    ));
                },
                AgentMessageV::HeartbeatAck(_) => {
                    assert(false);
                },
            }
        }
        frame
    }

    /// A frame arrived while awaiting the registration acknowledgment. Only
    /// a `register_ack` establishes the session; an error envelope is a
    /// rejection, surfaced with the hub's code; any other variant and
    /// unparsable text are fatal for the attempt.
    pub fn on_await_frame(&mut self, frame: &[u8], now_ms: u64) -> (r: AwaitOutcome)
        requires
            old(self).wf(),
            old(self).phase == AgentPhase::AwaitRegAck,
        ensures
            final(self).wf(),
            final(self).config_unchanged(old(self)),
            final(self).backoff_ms == old(self).backoff_ms,
            final(self).shutdown_requested == old(self).shutdown_requested,
            final(self).register_sent_at_ms == old(self).register_sent_at_ms,
            ({
                let d = spec_decode_hub(frame@);
                match r {
                    AwaitOutcome::Established => {
                        &&& (match d {
                            HubFrameV::Msg(m) => match m {
                                HubMessageV::RegisterAck(ack) => final(self).agent_id == Some(
                                    ack.agent_id,
                                ),
                                _ => false,
                            },
                            _ => false,
                        })
                        &&& final(self).phase == AgentPhase::Connected
                        &&& final(self).last_heartbeat_ms == now_ms
                    },
                    AwaitOutcome::Rejected(code) => {
                        &&& (match d {
                            HubFrameV::Msg(m) => match m {
                                HubMessageV::Error { code: c, .. } => code@ == c,
                                _ => false,
                            },
                            _ => false,
                        })
                        &&& final(self).phase == AgentPhase::AwaitRegAck
                        &&& final(self).agent_id == old(self).agent_id
                        &&& final(self).last_heartbeat_ms == old(self).last_heartbeat_ms
                    },
                    AwaitOutcome::AttemptFailed => {
                        &&& (match d {
                            HubFrameV::Msg(m) => m is Heartbeat,
                            _ => true,
                        })
                        &&& final(self).phase == AgentPhase::AwaitRegAck
                        &&& final(self).agent_id == old(self).agent_id
                        &&& final(self).last_heartbeat_ms == old(self).last_heartbeat_ms
                    },
                }
            }),
    {
        match decode_hub_frame(frame) {
            Ok(msg) => match msg {
                crate::protocol::HubMessage::RegisterAck(ack) => {
                    self.agent_id = Some(ack.agent_id);
                    self.phase = AgentPhase::Connected;
                    self.last_heartbeat_ms = now_ms;
                    AwaitOutcome::Established
                },
                crate::protocol::HubMessage::Error { code, .. } => AwaitOutcome::Rejected(code),
                crate::protocol::HubMessage::Heartbeat(_) => AwaitOutcome::AttemptFailed,
            },
            Err(_) => AwaitOutcome::AttemptFailed,
        }
    }

    /// A frame arrived on the established session. A heartbeat refreshes the
    /// deadline baseline and is answered, immediately and exactly once, by
    /// the acknowledgment it is owed; a stray acknowledgment of the hub's
    /// own kind or an error envelope is noted and ignored; an unknown
    /// variant tag or unparsable text is a protocol violation that closes
    /// the session, and the driver reconnects.
    pub fn on_connected_frame(&mut self, frame: &[u8], now_ms: u64, now_ts: &[u8]) -> (r:
        ConnectedAction)
        requires
            old(self).wf(),
            old(self).phase == AgentPhase::Connected,
        ensures
            final(self).wf(),
            final(self).config_unchanged(old(self)),
            final(self).phase == AgentPhase::Connected,
            final(self).backoff_ms == old(self).backoff_ms,
            final(self).agent_id == old(self).agent_id,
            final(self).shutdown_requested == old(self).shutdown_requested,
            final(self).register_sent_at_ms == old(self).register_sent_at_ms,
            ({
                let d = spec_decode_hub(frame@);
                match r {
                    ConnectedAction::Ack(af) => {
                        &&& (match d {
                            HubFrameV::Msg(m) => ack_for(m, now_ts@) is Some && af@
                                == spec_encode_agent(ack_for(m, now_ts@)->0),
                            _ => false,
                        })
                        &&& final(self).last_heartbeat_ms == now_ms
                    },
                    ConnectedAction::Ignore => {
                        &&& (match d {
                            HubFrameV::Msg(m) => ack_for(m, now_ts@) is None,
                            _ => false,
                        })
                        &&& final(self).last_heartbeat_ms == old(self).last_heartbeat_ms
                    },
                    ConnectedAction::Close => {
                        &&& (d == HubFrameV::UnknownType || d == HubFrameV::Malformed)
                        &&& final(self).last_heartbeat_ms == old(self).last_heartbeat_ms
                    },
                }
            }),
    {
        match decode_hub_frame(frame) {
            Ok(msg) => match msg {
                crate::protocol::HubMessage::Heartbeat(hb) => {
                    self.last_heartbeat_ms = now_ms;
                    let ack = AgentMessage::HeartbeatAck(
                        HeartbeatAckMessage {
                            correlation_id: hb.correlation_id,
                            timestamp: copy_slice(now_ts),
                        },
                    );
                    ConnectedAction::Ack(encode_agent_message(&ack))
                },
                _ => ConnectedAction::Ignore,
            },
            Err(_) => ConnectedAction::Close,
        }
    }

    /// The attempt failed before the session was established: fall back to
    /// disconnected, wait out the returned delay, and widen the next one.
    /// Within one failure streak the backoff never decreases.
    pub fn attempt_failed(&mut self) -> (delay_ms: u64)
        requires
            old(self).wf(),
        ensures
            final(self).wf(),
            final(self).config_unchanged(old(self)),
            final(self).phase == AgentPhase::Disconnected,
            final(self).shutdown_requested == old(self).shutdown_requested,
            delay_ms == old(self).backoff_ms,
            final(self).backoff_ms == spec_next_backoff(old(self).backoff_ms),
            final(self).backoff_ms >= old(self).backoff_ms,
            final(self).agent_id == old(self).agent_id,
            final(self).last_heartbeat_ms == old(self).last_heartbeat_ms,
            final(self).register_sent_at_ms == old(self).register_sent_at_ms,
    {
        let delay = self.backoff_ms;
        self.backoff_ms = next_backoff(self.backoff_ms);
        self.phase = AgentPhase::Disconnected;
        delay
    }

    /// A session that had been established closed: fall back to
    /// disconnected and reset the backoff to its initial value.
    pub fn session_closed(&mut self)
        requires
            old(self).wf(),
        ensures
            final(self).wf(),
            final(self).config_unchanged(old(self)),
            final(self).phase == AgentPhase::Disconnected,
            final(self).backoff_ms == INITIAL_BACKOFF_MS,
            final(self).shutdown_requested == old(self).shutdown_requested,
            final(self).agent_id == old(self).agent_id,
            final(self).last_heartbeat_ms == old(self).last_heartbeat_ms,
            final(self).register_sent_at_ms == old(self).register_sent_at_ms,
    {
        self.backoff_ms = INITIAL_BACKOFF_MS;
        self.phase = AgentPhase::Disconnected;
    }

    /// Requests shutdown; the driver exits at its next decision point.
    /// Requesting it again changes nothing.
    pub fn shutdown(&mut self)
        requires
            old(self).wf(),
        ensures
            final(self).wf(),
            final(self).config_unchanged(old(self)),
            final(self).shutdown_requested,
            final(self).phase == old(self).phase,
            final(self).backoff_ms == old(self).backoff_ms,
            final(self).agent_id == old(self).agent_id,
            final(self).last_heartbeat_ms == old(self).last_heartbeat_ms,
            final(self).register_sent_at_ms == old(self).register_sent_at_ms,
    {
        self.shutdown_requested = true;
    }

    /// Whether the heartbeat deadline has passed at `now_ms`: more than the
    /// timeout elapsed since the last observed heartbeat.
    pub fn heartbeat_expired(&self, now_ms: u64) -> (r: bool)
        ensures
            r == deadline_exceeded(self.last_heartbeat_ms, now_ms, HEARTBEAT_TIMEOUT_MS),
    {
        deadline_check(self.last_heartbeat_ms, now_ms, HEARTBEAT_TIMEOUT_MS)
    }

    /// Whether the registration acknowledgment is overdue at `now_ms`.
    pub fn registration_timed_out(&self, now_ms: u64) -> (r: bool)
        ensures
            r == deadline_exceeded(self.register_sent_at_ms, now_ms, REGISTRATION_TIMEOUT_MS),
    {
        deadline_check(self.register_sent_at_ms, now_ms, REGISTRATION_TIMEOUT_MS)
    }
}

/// A deadline of `timeout_ms` after `base_ms` has been exceeded at `now_ms`
/// exactly when more than the timeout elapsed since the base.
pub open spec fn deadline_exceeded(base_ms: u64, now_ms: u64, timeout_ms: u64) -> bool {
    base_ms + timeout_ms < now_ms
}

/// Checks a deadline: fires exactly when more than `timeout_ms` passed
/// since `base_ms`.
pub fn deadline_check(base_ms: u64, now_ms: u64, timeout_ms: u64) -> (r: bool)
    ensures
        r == deadline_exceeded(base_ms, now_ms, timeout_ms),
{
    now_ms > timeout_ms && base_ms < now_ms - timeout_ms
}

/// The backoff in force after `k` failed attempts in one streak.
pub open spec fn backoff_after(k: nat) -> u64
    decreases k,
{
    if k == 0 {
        INITIAL_BACKOFF_MS
    } else {
        spec_next_backoff(backoff_after((k - 1) as nat))
    }
}

/// Within one failure streak the reconnect backoff never decreases, and it
/// never leaves its floor-to-ceiling band.
pub proof fn lemma_backoff_monotone(k: nat)
    ensures
        INITIAL_BACKOFF_MS <= backoff_after(k) <= MAX_BACKOFF_MS,
        backoff_after(k) <= backoff_after(k + 1),
    decreases k,
{
    if k > 0 {
        lemma_backoff_monotone((k - 1) as nat);
    }
}

/// The deterministic backoff schedule: one second doubling each failure,
/// sixty seconds from the sixth failure on.
pub proof fn lemma_backoff_schedule()
    ensures
        backoff_after(0) == 1000,
        backoff_after(1) == 2000,
        backoff_after(2) == 4000,
        backoff_after(3) == 8000,
        backoff_after(4) == 16000,
        backoff_after(5) == 32000,
        forall|k: nat| k >= 6 ==> #[trigger] backoff_after(k) == 60000,
{
    assert(backoff_after(0) == 1000);
    assert(backoff_after(1) == 2000);
    assert(backoff_after(2) == 4000);
    assert(backoff_after(3) == 8000);
    assert(backoff_after(4) == 16000);
    assert(backoff_after(5) == 32000);
    assert forall|k: nat| k >= 6 implies #[trigger] backoff_after(k) == 60000 by {
        lemma_backoff_ceiling(k);
    }
}

/// From the sixth failure on the backoff sits at its ceiling.
proof fn lemma_backoff_ceiling(k: nat)
    requires
        k >= 6,
    ensures
        backoff_after(k) == 60000,
    decreases k,
{
    if k == 6 {
        assert(backoff_after(0) == 1000);
        assert(backoff_after(1) == 2000);
        assert(backoff_after(2) == 4000);
        assert(backoff_after(3) == 8000);
        assert(backoff_after(4) == 16000);
        assert(backoff_after(5) == 32000);
        assert(backoff_after(6) == 60000);
    } else {
        lemma_backoff_ceiling((k - 1) as nat);
    }
}


/// The monitor's cadence bounds its detection delay. With checks at times
/// `start + j * cadence` and a deadline that expires at time `e`, the first
/// check at or after `e` comes less than one cadence after it; with the
/// thirty-second heartbeat deadline and the five-second cadence, a lost hub
/// is detected within thirty-five seconds of the last observed heartbeat.
pub proof fn lemma_monitor_detection_latency(start: int, e: int, c: int)
    requires
        c > 0,
        start <= e,
    ensures
        ({
            let j = (e - start + c - 1) / c;
            &&& start + j * c >= e
            &&& start + j * c < e + c
        }),
{
    let n = e - start;
    let q = (n + c - 1) / c;
    let r = (n + c - 1) % c;
    vstd::arithmetic::div_mod::lemma_fundamental_div_mod(n + c - 1, c);
    vstd::arithmetic::div_mod::lemma_mod_bound(n + c - 1, c);
    assert(n + c - 1 == q * c + r);
    assert(0 <= r < c);
}

/// The correlation identifiers of the heartbeats in a run of inbound
/// messages, in order of receipt.
pub open spec fn heartbeat_cids(ds: Seq<HubMessageV>) -> Seq<u128>
    decreases ds.len(),
{
    if ds.len() == 0 {
        Seq::empty()
    } else {
        (match ds[0] {
            HubMessageV::Heartbeat(hb) => seq![hb.correlation_id],
            _ => Seq::empty(),
        }) + heartbeat_cids(ds.skip(1))
    }
}

/// The acknowledgments the driver emits for a run of inbound messages, in
/// order of receipt: the acknowledgment each message is owed, where one is
/// owed at all, stamped with the clock reading taken at its receipt.
pub open spec fn acks_in_run(ds: Seq<HubMessageV>, tss: Seq<Seq<u8>>) -> Seq<AgentMessageV>
    decreases ds.len(),
{
    if ds.len() == 0 {
        Seq::empty()
    } else {
        (match ack_for(ds[0], tss[0]) {
            Some(a) => seq![a],
            None => Seq::empty(),
        }) + acks_in_run(ds.skip(1), tss.skip(1))
    }
}

/// The correlation identifiers the emitted acknowledgments carry, in order.
pub open spec fn ack_run_cids(acks: Seq<AgentMessageV>) -> Seq<u128>
    decreases acks.len(),
{
    if acks.len() == 0 {
        Seq::empty()
    } else {
        (match acks[0] {
            AgentMessageV::HeartbeatAck(a) => seq![a.correlation_id],
            AgentMessageV::Register(_) => Seq::empty(),
        }) + ack_run_cids(acks.skip(1))
    }
}

/// For every heartbeat the agent receives, exactly one acknowledgment with
/// the same correlation identifier is transmitted, before the next
/// heartbeat is acknowledged: over any run of inbound messages, the
/// acknowledgments owed under `ack_for` — which `on_connected_frame` emits —
/// are all heartbeat acknowledgments, one per heartbeat received, and their
/// correlation identifiers are exactly the heartbeat identifiers, in order.
pub proof fn lemma_one_ack_per_heartbeat(ds: Seq<HubMessageV>, tss: Seq<Seq<u8>>)
    requires
        ds.len() == tss.len(),
    ensures
        acks_in_run(ds, tss).len() == heartbeat_cids(ds).len(),
        ack_run_cids(acks_in_run(ds, tss)) == heartbeat_cids(ds),
        forall|k: int|
            0 <= k < acks_in_run(ds, tss).len() ==> acks_in_run(ds, tss)[k] is HeartbeatAck,
    decreases ds.len(),
{
    if ds.len() > 0 {
        lemma_one_ack_per_heartbeat(ds.skip(1), tss.skip(1));
        let head = (match ack_for(ds[0], tss[0]) {
            Some(a) => seq![a],
            None => Seq::<AgentMessageV>::empty(),
        });
        let tail = acks_in_run(ds.skip(1), tss.skip(1));
        assert((head + tail).skip(head.len() as int) =~= tail);
        if head.len() > 0 {
            assert((head + tail)[0] == head[0]);
            assert((head + tail).skip(1) =~= tail);
        } else {
            assert(head + tail =~= tail);
        }
        assert(ack_run_cids(acks_in_run(ds, tss)) =~= heartbeat_cids(ds));
    }
}

} // verus!
