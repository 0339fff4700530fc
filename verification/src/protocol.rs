//! The wire messages exchanged between an agent and the hub.
//!
//! Each direction is a tagged union: the agent sends `register` and
//! `heartbeat_ack`, the hub sends `register_ack`, `heartbeat` and `error`.
//! Every message carries a correlation identifier used to match a reply to
//! its request or trace a heartbeat round trip. Text rides as UTF-8 bytes;
//! timestamps are ISO-8601 UTC text; the heartbeat sequence is an unsigned
//! 64-bit counter.

use vstd::prelude::*;
use crate::text::wf_number;

verus! {

/// Cloud provider or platform type for agent instances.
#[derive(Clone, Copy, PartialEq, Eq, Hash, Debug, Structural)]
pub enum ProviderType {
    VastAI,
    Runpod,
    Local,
}

/// Agent status representing the current operational state of a persisted
/// agent record.
#[derive(Clone, Copy, PartialEq, Eq, Hash, Debug, Structural)]
pub enum AgentStatus {
    Registering,
    Ready,
    Running,
    Idle,
    Error,
    Terminated,
}

/// GPU information reported by an agent. The memory size rides as the bare
/// numeric token of the frame, so no floating point enters the library.
#[derive(Clone, PartialEq, Debug)]
pub struct GpuInfo {
    pub name: Vec<u8>,
    pub memory_gb: Vec<u8>,
    pub cuda_version: Vec<u8>,
    pub compute_capability: Option<Vec<u8>>,
}

/// Mathematical model of `GpuInfo`.
#[verifier::ext_equal]
pub ghost struct GpuInfoV {
    pub name: Seq<u8>,
    pub memory_gb: Seq<u8>,
    pub cuda_version: Seq<u8>,
    pub compute_capability: Option<Seq<u8>>,
}

impl View for GpuInfo {
    type V = GpuInfoV;

    open spec fn view(&self) -> GpuInfoV {
        GpuInfoV {
            name: self.name@,
            memory_gb: self.memory_gb@,
            cuda_version: self.cuda_version@,
            compute_capability: match self.compute_capability {
                Some(ref cc) => Some(cc@),
                None => None,
            },
        }
    }
}

/// A GPU record is well formed when its memory size is a proper numeric
/// token.
pub open spec fn wf_gpu_info(g: GpuInfoV) -> bool {
    wf_number(g.memory_gb)
}

/// Agent registration information, the payload of a `register` frame.
#[derive(Clone, PartialEq, Debug)]
pub struct AgentInfo {
    pub correlation_id: u128,
    pub provider: ProviderType,
    pub provider_instance_id: Vec<u8>,
    pub hostname: Vec<u8>,
    pub gpu_info: GpuInfo,
    pub tailscale_ip: Vec<u8>,
    pub agent_version: Vec<u8>,
}

/// Mathematical model of `AgentInfo`.
#[verifier::ext_equal]
pub ghost struct AgentInfoV {
    pub correlation_id: u128,
    pub provider: ProviderType,
    pub provider_instance_id: Seq<u8>,
    pub hostname: Seq<u8>,
    pub gpu_info: GpuInfoV,
    pub tailscale_ip: Seq<u8>,
    pub agent_version: Seq<u8>,
}

impl View for AgentInfo {
    type V = AgentInfoV;

    open spec fn view(&self) -> AgentInfoV {
        AgentInfoV {
            correlation_id: self.correlation_id,
            provider: self.provider,
            provider_instance_id: self.provider_instance_id@,
            hostname: self.hostname@,
            gpu_info: self.gpu_info@,
            tailscale_ip: self.tailscale_ip@,
            agent_version: self.agent_version@,
        }
    }
}

/// Agent registration response, the payload of a `register_ack` frame.
#[derive(Clone, PartialEq, Debug)]
pub struct AgentRegistration {
    pub correlation_id: u128,
    pub agent_id: u128,
    pub registered_at: Vec<u8>,
    pub hub_version: Vec<u8>,
}

/// Mathematical model of `AgentRegistration`.
#[verifier::ext_equal]
pub ghost struct AgentRegistrationV {
    pub correlation_id: u128,
    pub agent_id: u128,
    pub registered_at: Seq<u8>,
    pub hub_version: Seq<u8>,
}

impl View for AgentRegistration {
    type V = AgentRegistrationV;

    open spec fn view(&self) -> AgentRegistrationV {
        AgentRegistrationV {
            correlation_id: self.correlation_id,
            agent_id: self.agent_id,
            registered_at: self.registered_at@,
            hub_version: self.hub_version@,
        }
    }
}

/// Heartbeat ping from hub to agent.
#[derive(Clone, PartialEq, Debug)]
pub struct HeartbeatMessage {
    pub correlation_id: u128,
    pub timestamp: Vec<u8>,
    pub sequence: u64,
}

/// Mathematical model of `HeartbeatMessage`.
#[verifier::ext_equal]
pub ghost struct HeartbeatMessageV {
    pub correlation_id: u128,
    pub timestamp: Seq<u8>,
    pub sequence: u64,
}

impl View for HeartbeatMessage {
    type V = HeartbeatMessageV;

    open spec fn view(&self) -> HeartbeatMessageV {
        HeartbeatMessageV {
            correlation_id: self.correlation_id,
            timestamp: self.timestamp@,
            sequence: self.sequence,
        }
    }
}

/// Heartbeat acknowledgment from agent to hub.
#[derive(Clone, PartialEq, Debug)]
pub struct HeartbeatAckMessage {
    pub correlation_id: u128,
    pub timestamp: Vec<u8>,
}

/// Mathematical model of `HeartbeatAckMessage`.
#[verifier::ext_equal]
pub ghost struct HeartbeatAckMessageV {
    pub correlation_id: u128,
    pub timestamp: Seq<u8>,
}

impl View for HeartbeatAckMessage {
    type V = HeartbeatAckMessageV;

    open spec fn view(&self) -> HeartbeatAckMessageV {
        HeartbeatAckMessageV {
            correlation_id: self.correlation_id,
            timestamp: self.timestamp@,
        }
    }
}

/// Messages sent from agent to hub.
#[derive(Clone, PartialEq, Debug)]
pub enum AgentMessage {
    Register(AgentInfo),
    HeartbeatAck(HeartbeatAckMessage),
}

/// Mathematical model of `AgentMessage`.
#[verifier::ext_equal]
pub ghost enum AgentMessageV {
    Register(AgentInfoV),
    HeartbeatAck(HeartbeatAckMessageV),
}

impl View for AgentMessage {
    type V = AgentMessageV;

    open spec fn view(&self) -> AgentMessageV {
        match self {
            AgentMessage::Register(i) => AgentMessageV::Register(i@),
            AgentMessage::HeartbeatAck(a) => AgentMessageV::HeartbeatAck(a@),
        }
    }
}

/// Messages sent from hub to agent.
#[derive(Clone, PartialEq, Debug)]
pub enum HubMessage {
    RegisterAck(AgentRegistration),
    Heartbeat(HeartbeatMessage),
    Error { message: Vec<u8>, code: Vec<u8>, correlation_id: Option<u128> },
}

/// Mathematical model of `HubMessage`.
#[verifier::ext_equal]
pub ghost enum HubMessageV {
    RegisterAck(AgentRegistrationV),
    Heartbeat(HeartbeatMessageV),
    Error { message: Seq<u8>, code: Seq<u8>, correlation_id: Option<u128> },
}

impl View for HubMessage {
    type V = HubMessageV;

    open spec fn view(&self) -> HubMessageV {
        match self {
            HubMessage::RegisterAck(r) => HubMessageV::RegisterAck(r@),
            HubMessage::Heartbeat(h) => HubMessageV::Heartbeat(h@),
            HubMessage::Error { message, code, correlation_id } => HubMessageV::Error {
                message: message@,
                code: code@,
                correlation_id: *correlation_id,
            },
        }
    }
}

impl DeepView for AgentMessage {
    type V = AgentMessageV;

    open spec fn deep_view(&self) -> AgentMessageV {
        self.view()
    }
}

impl DeepView for HubMessage {
    type V = HubMessageV;

    open spec fn deep_view(&self) -> HubMessageV {
        self.view()
    }
}

/// An agent-to-hub message is well formed when its numeric tokens have their
/// proper shape; only the GPU memory size rides as a bare token.
pub open spec fn wf_agent_message(m: AgentMessageV) -> bool {
    match m {
        AgentMessageV::Register(i) => wf_gpu_info(i.gpu_info),
        AgentMessageV::HeartbeatAck(_) => true,
    }
}

} // verus!
