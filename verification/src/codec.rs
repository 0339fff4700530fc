//! The wire codec: renders each message to its text frame and parses frames
//! back.
//!
//! A frame is a single object whose first member is the variant tag under the
//! key `type`; the remaining members follow in the fixed order of §the
//! protocol tables. The encoder emits exactly one rendering per message; the
//! decoder accepts that rendering, reports an unknown variant tag as its own
//! error, and rejects everything else. Encoding then decoding is proved to be
//! the identity on every variant.

use vstd::prelude::*;
use crate::text::{QUOTE, dec_bytes, spec_parse_u64, parse_u64, spec_parse_number, parse_number, wf_number, is_number_byte, is_digit};
use crate::escape::{esc, spec_parse_str_body, parse_str_body, escape_into};
use crate::ids::{uuid_bytes, spec_parse_uuid, parse_uuid, encode_uuid};
use crate::lit::{lit_open_type, lit_corr, lit_uq_provider, lit_pid, lit_host, lit_gpu_name,
    lit_mem, lit_cuda, lit_cc, lit_gpu_end, lit_ver, lit_rb, lit_uq_ts, lit_uq_agent_id,
    lit_uq_reg_at, lit_hub_ver, lit_seq, lit_msg, lit_code, lit_uq_rb, tag_register,
    tag_heartbeat_ack, tag_register_ack, tag_heartbeat, tag_error, prov_vastai, prov_runpod,
    prov_local, emit_lit_open_type, emit_lit_corr, emit_lit_uq_provider, emit_lit_pid,
    emit_lit_host, emit_lit_gpu_name, emit_lit_mem, emit_lit_cuda, emit_lit_cc, emit_lit_gpu_end,
    emit_lit_ver, emit_lit_rb, emit_lit_uq_ts, emit_lit_uq_agent_id, emit_lit_uq_reg_at,
    emit_lit_hub_ver, emit_lit_seq, emit_lit_msg, emit_lit_code, emit_lit_uq_rb,
    emit_tag_register, emit_tag_heartbeat_ack, emit_tag_register_ack, emit_tag_heartbeat,
    emit_tag_error, emit_prov_vastai, emit_prov_runpod, emit_prov_local, vec_lit_open_type,
    vec_lit_corr, vec_lit_uq_provider, vec_lit_pid, vec_lit_host, vec_lit_gpu_name, vec_lit_mem,
    vec_lit_cuda, vec_lit_cc, vec_lit_gpu_end, vec_lit_ver, vec_lit_rb, vec_lit_uq_ts,
    vec_lit_uq_agent_id, vec_lit_uq_reg_at, vec_lit_hub_ver, vec_lit_seq, vec_lit_msg,
    vec_lit_code, vec_lit_uq_rb, vec_tag_register, vec_tag_heartbeat_ack, vec_tag_register_ack,
    vec_tag_heartbeat, vec_tag_error, vec_prov_vastai, vec_prov_runpod, vec_prov_local};
use crate::protocol::{ProviderType, GpuInfo, GpuInfoV, AgentInfoV, AgentRegistrationV, HeartbeatMessageV,
    HeartbeatAckMessageV, AgentMessageV, HubMessageV, AgentMessage, HubMessage, AgentInfo,
    AgentRegistration, HeartbeatMessage, HeartbeatAckMessage, wf_gpu_info, wf_agent_message};

verus! {

/// A string value as it rides in a frame after its opening quote: the
/// escaped payload and the closing quote.
pub open spec fn jstrc(v: Seq<u8>) -> Seq<u8> {
    esc(v) + seq![QUOTE]
}

/// The wire name of a provider.
pub open spec fn provider_bytes(p: ProviderType) -> Seq<u8> {
    match p {
        ProviderType::VastAI => prov_vastai(),
        ProviderType::Runpod => prov_runpod(),
        ProviderType::Local => prov_local(),
    }
}

/// The provider a wire name stands for.
pub open spec fn spec_provider_of(b: Seq<u8>) -> Option<ProviderType> {
    if b == prov_vastai() {
        Some(ProviderType::VastAI)
    } else if b == prov_runpod() {
        Some(ProviderType::Runpod)
    } else if b == prov_local() {
        Some(ProviderType::Local)
    } else {
        None
    }
}

/// The optional compute-capability member of the GPU object.
pub open spec fn enc_opt_cc(cc: Option<Seq<u8>>) -> Seq<u8> {
    match cc {
        Some(c) => lit_cc() + jstrc(c),
        None => Seq::empty(),
    }
}

/// The optional trailing correlation member of an error frame, or the bare
/// closing brace.
pub open spec fn enc_opt_err_corr(cid: Option<u128>) -> Seq<u8> {
    match cid {
        Some(u) => lit_corr() + uuid_bytes(u) + lit_uq_rb(),
        None => lit_rb(),
    }
}

/// The frame of a `register` message.
pub open spec fn spec_encode_register(i: AgentInfoV) -> Seq<u8> {
    lit_open_type() + jstrc(tag_register()) + lit_corr() + uuid_bytes(i.correlation_id)
        + lit_uq_provider() + jstrc(provider_bytes(i.provider)) + lit_pid() + jstrc(
        i.provider_instance_id,
    ) + lit_host() + jstrc(i.hostname) + lit_gpu_name() + jstrc(i.gpu_info.name) + lit_mem()
        + i.gpu_info.memory_gb + lit_cuda() + jstrc(i.gpu_info.cuda_version) + enc_opt_cc(
        i.gpu_info.compute_capability,
    ) + lit_gpu_end() + jstrc(i.tailscale_ip) + lit_ver() + jstrc(i.agent_version) + lit_rb()
}

/// The frame of a `heartbeat_ack` message.
pub open spec fn spec_encode_heartbeat_ack(a: HeartbeatAckMessageV) -> Seq<u8> {
    lit_open_type() + jstrc(tag_heartbeat_ack()) + lit_corr() + uuid_bytes(a.correlation_id)
        + lit_uq_ts() + jstrc(a.timestamp) + lit_rb()
}

/// The frame of a `register_ack` message.
pub open spec fn spec_encode_register_ack(r: AgentRegistrationV) -> Seq<u8> {
    lit_open_type() + jstrc(tag_register_ack()) + lit_corr() + uuid_bytes(r.correlation_id)
        + lit_uq_agent_id() + uuid_bytes(r.agent_id) + lit_uq_reg_at() + jstrc(r.registered_at)
        + lit_hub_ver() + jstrc(r.hub_version) + lit_rb()
}

/// The frame of a `heartbeat` message.
pub open spec fn spec_encode_heartbeat(h: HeartbeatMessageV) -> Seq<u8> {
    lit_open_type() + jstrc(tag_heartbeat()) + lit_corr() + uuid_bytes(h.correlation_id)
        + lit_uq_ts() + jstrc(h.timestamp) + lit_seq() + dec_bytes(h.sequence as nat) + lit_rb()
}

/// The frame of an `error` message.
pub open spec fn spec_encode_error(message: Seq<u8>, code: Seq<u8>, cid: Option<u128>) -> Seq<u8> {
    lit_open_type() + jstrc(tag_error()) + lit_msg() + jstrc(message) + lit_code() + jstrc(code)
        + enc_opt_err_corr(cid)
}

/// The frame of an agent-to-hub message.
pub open spec fn spec_encode_agent(m: AgentMessageV) -> Seq<u8> {
    match m {
        AgentMessageV::Register(i) => spec_encode_register(i),
        AgentMessageV::HeartbeatAck(a) => spec_encode_heartbeat_ack(a),
    }
}

/// The frame of a hub-to-agent message.
pub open spec fn spec_encode_hub(m: HubMessageV) -> Seq<u8> {
    match m {
        HubMessageV::RegisterAck(r) => spec_encode_register_ack(r),
        HubMessageV::Heartbeat(h) => spec_encode_heartbeat(h),
        HubMessageV::Error { message, code, correlation_id } => spec_encode_error(
            message,
            code,
            correlation_id,
        ),
    }
}


/// What consuming the fixed fragment `lit` at the head of `s` leaves.
pub open spec fn sp_expect(s: Seq<u8>, lit: Seq<u8>) -> Option<Seq<u8>> {
    if s.len() >= lit.len() && s.take(lit.len() as int) == lit {
        Some(s.skip(lit.len() as int))
    } else {
        None
    }
}

/// What parsing a string value at the head of `s` yields and leaves.
pub open spec fn sp_str(s: Seq<u8>) -> Option<(Seq<u8>, Seq<u8>)> {
    match spec_parse_str_body(s) {
        None => None,
        Some(t) => Some((t.0, s.skip(t.1 as int))),
    }
}

/// What parsing an identifier at the head of `s` yields and leaves.
pub open spec fn sp_uuid(s: Seq<u8>) -> Option<(u128, Seq<u8>)> {
    match spec_parse_uuid(s) {
        None => None,
        Some(t) => Some((t.0, s.skip(t.1 as int))),
    }
}

/// What parsing a numeric token at the head of `s` yields and leaves.
pub open spec fn sp_num(s: Seq<u8>) -> Option<(Seq<u8>, Seq<u8>)> {
    match spec_parse_number(s) {
        None => None,
        Some(t) => Some((t.0, s.skip(t.1 as int))),
    }
}

/// What parsing an unsigned 64-bit counter at the head of `s` yields and
/// leaves.
pub open spec fn sp_u64(s: Seq<u8>) -> Option<(u64, Seq<u8>)> {
    match spec_parse_u64(s) {
        None => None,
        Some(t) => Some((t.0, s.skip(t.1 as int))),
    }
}

/// Outcome of parsing an agent-to-hub frame.
#[verifier::ext_equal]
pub ghost enum AgentFrameV {
    Msg(AgentMessageV),
    UnknownType,
    Malformed,
}

/// Outcome of parsing a hub-to-agent frame.
#[verifier::ext_equal]
pub ghost enum HubFrameV {
    Msg(HubMessageV),
    UnknownType,
    Malformed,
}

/// Why a frame was rejected: its variant tag is not a known message type, or
/// its text does not render any message.
#[derive(Clone, Copy, PartialEq, Eq, Debug, Structural)]
pub enum DecodeError {
    UnknownType,
    Malformed,
}

/// What parsing the body of a `register` frame after its tag yields.
pub open spec fn spec_decode_register(s0: Seq<u8>) -> AgentFrameV {
    match sp_expect(s0, lit_corr()) {
        None => AgentFrameV::Malformed,
        Some(s1) => match sp_uuid(s1) {
            None => AgentFrameV::Malformed,
            Some((cid, s2)) => match sp_expect(s2, lit_uq_provider()) {
                None => AgentFrameV::Malformed,
                Some(s3) => match sp_str(s3) {
                    None => AgentFrameV::Malformed,
                    Some((pv, s4)) => match spec_provider_of(pv) {
                        None => AgentFrameV::Malformed,
                        Some(provider) => match sp_expect(s4, lit_pid()) {
                            None => AgentFrameV::Malformed,
                            Some(s5) => match sp_str(s5) {
                                None => AgentFrameV::Malformed,
                                Some((pid, s6)) => match sp_expect(s6, lit_host()) {
                                    None => AgentFrameV::Malformed,
                                    Some(s7) => match sp_str(s7) {
                                        None => AgentFrameV::Malformed,
                                        Some((host, s8)) => spec_decode_register_gpu(
                                            s8,
                                            cid,
                                            provider,
                                            pid,
                                            host,
                                        ),
                                    },
                                },
                            },
                        },
                    },
                },
            },
        },
    }
}

/// What parsing the GPU object and the rest of a `register` frame yields.
pub open spec fn spec_decode_register_gpu(
    s0: Seq<u8>,
    cid: u128,
    provider: ProviderType,
    pid: Seq<u8>,
    host: Seq<u8>,
) -> AgentFrameV {
    match sp_expect(s0, lit_gpu_name()) {
        None => AgentFrameV::Malformed,
        Some(s1) => match sp_str(s1) {
            None => AgentFrameV::Malformed,
            Some((name, s2)) => match sp_expect(s2, lit_mem()) {
                None => AgentFrameV::Malformed,
                Some(s3) => match sp_num(s3) {
                    None => AgentFrameV::Malformed,
                    Some((mem, s4)) => match sp_expect(s4, lit_cuda()) {
                        None => AgentFrameV::Malformed,
                        Some(s5) => match sp_str(s5) {
                            None => AgentFrameV::Malformed,
                            Some((cuda, s6)) => match sp_expect(s6, lit_cc()) {
                                Some(s7) => match sp_str(s7) {
                                    None => AgentFrameV::Malformed,
                                    Some((cc, s8)) => spec_decode_register_end(
                                        s8,
                                        cid,
                                        provider,
                                        pid,
                                        host,
                                        GpuInfoV {
                                            name: name,
                                            memory_gb: mem,
                                            cuda_version: cuda,
                                            compute_capability: Some(cc),
                                        },
                                    ),
                                },
                                None => spec_decode_register_end(
                                    s6,
                                    cid,
                                    provider,
                                    pid,
                                    host,
                                    GpuInfoV {
                                        name: name,
                                        memory_gb: mem,
                                        cuda_version: cuda,
                                        compute_capability: None,
                                    },
                                ),
                            },
                        },
                    },
                },
            },
        },
    }
}

/// What parsing the overlay address, version and closing brace of a
/// `register` frame yields.
pub open spec fn spec_decode_register_end(
    s0: Seq<u8>,
    cid: u128,
    provider: ProviderType,
    pid: Seq<u8>,
    host: Seq<u8>,
    gpu: GpuInfoV,
) -> AgentFrameV {
    match sp_expect(s0, lit_gpu_end()) {
        None => AgentFrameV::Malformed,
        Some(s1) => match sp_str(s1) {
            None => AgentFrameV::Malformed,
            Some((ip, s2)) => match sp_expect(s2, lit_ver()) {
                None => AgentFrameV::Malformed,
                Some(s3) => match sp_str(s3) {
                    None => AgentFrameV::Malformed,
                    Some((ver, s4)) => match sp_expect(s4, lit_rb()) {
                        None => AgentFrameV::Malformed,
                        Some(s5) => if s5.len() == 0 {
                            AgentFrameV::Msg(
                                AgentMessageV::Register(
                                    AgentInfoV {
                                        correlation_id: cid,
                                        provider: provider,
                                        provider_instance_id: pid,
                                        hostname: host,
                                        gpu_info: gpu,
                                        tailscale_ip: ip,
                                        agent_version: ver,
                                    },
                                ),
                            )
                        } else {
                            AgentFrameV::Malformed
                        },
                    },
                },
            },
        },
    }
}

/// What parsing the body of a `heartbeat_ack` frame after its tag yields.
pub open spec fn spec_decode_heartbeat_ack(s0: Seq<u8>) -> AgentFrameV {
    match sp_expect(s0, lit_corr()) {
        None => AgentFrameV::Malformed,
        Some(s1) => match sp_uuid(s1) {
            None => AgentFrameV::Malformed,
            Some((cid, s2)) => match sp_expect(s2, lit_uq_ts()) {
                None => AgentFrameV::Malformed,
                Some(s3) => match sp_str(s3) {
                    None => AgentFrameV::Malformed,
                    Some((ts, s4)) => match sp_expect(s4, lit_rb()) {
                        None => AgentFrameV::Malformed,
                        Some(s5) => if s5.len() == 0 {
                            AgentFrameV::Msg(
                                AgentMessageV::HeartbeatAck(
                                    HeartbeatAckMessageV { correlation_id: cid, timestamp: ts },
                                ),
                            )
                        } else {
                            AgentFrameV::Malformed
                        },
                    },
                },
            },
        },
    }
}

/// What parsing an agent-to-hub frame yields: the message, or the report of
/// an unknown variant tag, or a rejection.
pub open spec fn spec_decode_agent(s: Seq<u8>) -> AgentFrameV {
    match sp_expect(s, lit_open_type()) {
        None => AgentFrameV::Malformed,
        Some(s1) => match sp_str(s1) {
            None => AgentFrameV::Malformed,
            Some((tag, s2)) => if tag == tag_register() {
                spec_decode_register(s2)
            } else if tag == tag_heartbeat_ack() {
                spec_decode_heartbeat_ack(s2)
            } else {
                AgentFrameV::UnknownType
            },
        },
    }
}

/// What parsing the body of a `register_ack` frame after its tag yields.
pub open spec fn spec_decode_register_ack(s0: Seq<u8>) -> HubFrameV {
    match sp_expect(s0, lit_corr()) {
        None => HubFrameV::Malformed,
        Some(s1) => match sp_uuid(s1) {
            None => HubFrameV::Malformed,
            Some((cid, s2)) => match sp_expect(s2, lit_uq_agent_id()) {
                None => HubFrameV::Malformed,
                Some(s3) => match sp_uuid(s3) {
                    None => HubFrameV::Malformed,
                    Some((aid, s4)) => match sp_expect(s4, lit_uq_reg_at()) {
                        None => HubFrameV::Malformed,
                        Some(s5) => match sp_str(s5) {
                            None => HubFrameV::Malformed,
                            Some((at, s6)) => match sp_expect(s6, lit_hub_ver()) {
                                None => HubFrameV::Malformed,
                                Some(s7) => match sp_str(s7) {
                                    None => HubFrameV::Malformed,
                                    Some((hv, s8)) => match sp_expect(s8, lit_rb()) {
                                        None => HubFrameV::Malformed,
                                        Some(s9) => if s9.len() == 0 {
                                            HubFrameV::Msg(
                                                HubMessageV::RegisterAck(
                                                    AgentRegistrationV {
                                                        correlation_id: cid,
                                                        agent_id: aid,
                                                        registered_at: at,
                                                        hub_version: hv,
                                                    },
                                                ),
                                            )
                                        } else {
                                            HubFrameV::Malformed
                                        },
                                    },
                                },
                            },
                        },
                    },
                },
            },
        },
    }
}

/// What parsing the body of a `heartbeat` frame after its tag yields.
pub open spec fn spec_decode_heartbeat(s0: Seq<u8>) -> HubFrameV {
    match sp_expect(s0, lit_corr()) {
        None => HubFrameV::Malformed,
        Some(s1) => match sp_uuid(s1) {
            None => HubFrameV::Malformed,
            Some((cid, s2)) => match sp_expect(s2, lit_uq_ts()) {
                None => HubFrameV::Malformed,
                Some(s3) => match sp_str(s3) {
                    None => HubFrameV::Malformed,
                    Some((ts, s4)) => match sp_expect(s4, lit_seq()) {
                        None => HubFrameV::Malformed,
                        Some(s5) => match sp_u64(s5) {
                            None => HubFrameV::Malformed,
                            Some((n, s6)) => match sp_expect(s6, lit_rb()) {
                                None => HubFrameV::Malformed,
                                Some(s7) => if s7.len() == 0 {
                                    HubFrameV::Msg(
                                        HubMessageV::Heartbeat(
                                            HeartbeatMessageV {
                                                correlation_id: cid,
                                                timestamp: ts,
                                                sequence: n,
                                            },
                                        ),
                                    )
                                } else {
                                    HubFrameV::Malformed
                                },
                            },
                        },
                    },
                },
            },
        },
    }
}

/// What parsing the body of an `error` frame after its tag yields.
pub open spec fn spec_decode_error(s0: Seq<u8>) -> HubFrameV {
    match sp_expect(s0, lit_msg()) {
        None => HubFrameV::Malformed,
        Some(s1) => match sp_str(s1) {
            None => HubFrameV::Malformed,
            Some((message, s2)) => match sp_expect(s2, lit_code()) {
                None => HubFrameV::Malformed,
                Some(s3) => match sp_str(s3) {
                    None => HubFrameV::Malformed,
                    Some((code, s4)) => match sp_expect(s4, lit_corr()) {
                        Some(s5) => match sp_uuid(s5) {
                            None => HubFrameV::Malformed,
                            Some((cid, s6)) => match sp_expect(s6, lit_uq_rb()) {
                                None => HubFrameV::Malformed,
                                Some(s7) => if s7.len() == 0 {
                                    HubFrameV::Msg(
                                        HubMessageV::Error {
                                            message: message,
                                            code: code,
                                            correlation_id: Some(cid),
                                        },
                                    )
                                } else {
                                    HubFrameV::Malformed
                                },
                            },
                        },
                        None => match sp_expect(s4, lit_rb()) {
                            None => HubFrameV::Malformed,
                            Some(s5) => if s5.len() == 0 {
                                HubFrameV::Msg(
                                    HubMessageV::Error {
                                        message: message,
                                        code: code,
                                        correlation_id: None,
                                    },
                                )
                            } else {
                                HubFrameV::Malformed
                            },
                        },
                    },
                },
            },
        },
    }
}

/// What parsing a hub-to-agent frame yields.
pub open spec fn spec_decode_hub(s: Seq<u8>) -> HubFrameV {
    match sp_expect(s, lit_open_type()) {
        None => HubFrameV::Malformed,
        Some(s1) => match sp_str(s1) {
            None => HubFrameV::Malformed,
            Some((tag, s2)) => if tag == tag_register_ack() {
                spec_decode_register_ack(s2)
            } else if tag == tag_heartbeat() {
                spec_decode_heartbeat(s2)
            } else if tag == tag_error() {
                spec_decode_error(s2)
            } else {
                HubFrameV::UnknownType
            },
        },
    }
}

/// Appends a string value and its closing quote to `out`.
fn emit_jstrc(v: &[u8], out: &mut Vec<u8>)
    ensures
        final(out)@ == old(out)@ + jstrc(v@),
{
    escape_into(v, out);
    out.push(QUOTE);
    proof {
        assert(out@ =~= old(out)@ + jstrc(v@));
    }
}

/// Appends the wire name of a provider to `out`.
fn emit_provider(p: ProviderType, out: &mut Vec<u8>)
    ensures
        final(out)@ == old(out)@ + provider_bytes(p),
{
    match p {
        ProviderType::VastAI => emit_prov_vastai(out),
        ProviderType::Runpod => emit_prov_runpod(out),
        ProviderType::Local => emit_prov_local(out),
    }
}

/// A plain value followed by its closing quote is the value's string
/// rendering.
proof fn lemma_jstrc_plain_push(p: Seq<u8>, v: Seq<u8>)
    requires
        esc(v) == v,
    ensures
        (p + v).push(QUOTE) == p + jstrc(v),
{
    assert((p + v).push(QUOTE) =~= p + jstrc(v));
}

/// Renders an agent-to-hub message to its frame.
pub fn encode_agent_message(m: &AgentMessage) -> (r: Vec<u8>)
    ensures
        r@ == spec_encode_agent(m@),
{
    proof {
        crate::lit::lemma_plain_tags();
    }
    let mut out: Vec<u8> = Vec::new();
    match m {
        AgentMessage::Register(i) => {
            emit_lit_open_type(&mut out);
            proof {
                assert(out@ =~= lit_open_type());
            }
            let ghost p_tag = out@;
            emit_tag_register(&mut out);
            out.push(QUOTE);
            proof {
                lemma_jstrc_plain_push(p_tag, tag_register());
            }
            emit_lit_corr(&mut out);
            encode_uuid(i.correlation_id, &mut out);
            emit_lit_uq_provider(&mut out);
            let ghost p_prov = out@;
            emit_provider(i.provider, &mut out);
            out.push(QUOTE);
            proof {
                lemma_jstrc_plain_push(p_prov, provider_bytes(i.provider));
            }
            emit_lit_pid(&mut out);
            emit_jstrc(i.provider_instance_id.as_slice(), &mut out);
            emit_lit_host(&mut out);
            emit_jstrc(i.hostname.as_slice(), &mut out);
            emit_lit_gpu_name(&mut out);
            emit_jstrc(i.gpu_info.name.as_slice(), &mut out);
            emit_lit_mem(&mut out);
            let mut j: usize = 0;
            let mem = &i.gpu_info.memory_gb;
            let ghost pre_mem = out@;
            while j < mem.len()
                invariant
                    j <= mem.len(),
                    out@ == pre_mem + mem@.take(j as int),
                decreases mem.len() - j,
            {
                out.push(mem[j]);
                proof {
                    assert(out@ =~= pre_mem + mem@.take(j + 1));
                }
                j = j + 1;
            }
            proof {
                assert(mem@.take(mem@.len() as int) =~= mem@);
            }
            emit_lit_cuda(&mut out);
            emit_jstrc(i.gpu_info.cuda_version.as_slice(), &mut out);
            let ghost p_cc = out@;
            match &i.gpu_info.compute_capability {
                Some(cc) => {
                    emit_lit_cc(&mut out);
                    emit_jstrc(cc.as_slice(), &mut out);
                    proof {
                        assert((p_cc + lit_cc()) + jstrc(cc@) =~= p_cc + enc_opt_cc(
                            i.gpu_info@.compute_capability,
                        ));
                    }
                },
                None => {
                    proof {
                        assert(p_cc + enc_opt_cc(i.gpu_info@.compute_capability) =~= p_cc);
                    }
                },
            }
            emit_lit_gpu_end(&mut out);
            emit_jstrc(i.tailscale_ip.as_slice(), &mut out);
            emit_lit_ver(&mut out);
            emit_jstrc(i.agent_version.as_slice(), &mut out);
            emit_lit_rb(&mut out);
        },
        AgentMessage::HeartbeatAck(a) => {
            emit_lit_open_type(&mut out);
            proof {
                assert(out@ =~= lit_open_type());
            }
            let ghost p_tag = out@;
            emit_tag_heartbeat_ack(&mut out);
            out.push(QUOTE);
            proof {
                lemma_jstrc_plain_push(p_tag, tag_heartbeat_ack());
            }
            emit_lit_corr(&mut out);
            encode_uuid(a.correlation_id, &mut out);
            emit_lit_uq_ts(&mut out);
            emit_jstrc(a.timestamp.as_slice(), &mut out);
            emit_lit_rb(&mut out);
        },
    }
    out
}

/// Renders a hub-to-agent message to its frame.
pub fn encode_hub_message(m: &HubMessage) -> (r: Vec<u8>)
    ensures
        r@ == spec_encode_hub(m@),
{
    proof {
        crate::lit::lemma_plain_tags();
    }
    let mut out: Vec<u8> = Vec::new();
    match m {
        HubMessage::RegisterAck(r) => {
            emit_lit_open_type(&mut out);
            proof {
                assert(out@ =~= lit_open_type());
            }
            let ghost p_tag = out@;
            emit_tag_register_ack(&mut out);
            out.push(QUOTE);
            proof {
                lemma_jstrc_plain_push(p_tag, tag_register_ack());
            }
            emit_lit_corr(&mut out);
            encode_uuid(r.correlation_id, &mut out);
            emit_lit_uq_agent_id(&mut out);
            encode_uuid(r.agent_id, &mut out);
            emit_lit_uq_reg_at(&mut out);
            emit_jstrc(r.registered_at.as_slice(), &mut out);
            emit_lit_hub_ver(&mut out);
            emit_jstrc(r.hub_version.as_slice(), &mut out);
            emit_lit_rb(&mut out);
        },
        HubMessage::Heartbeat(h) => {
            emit_lit_open_type(&mut out);
            proof {
                assert(out@ =~= lit_open_type());
            }
            let ghost p_tag = out@;
            emit_tag_heartbeat(&mut out);
            out.push(QUOTE);
            proof {
                lemma_jstrc_plain_push(p_tag, tag_heartbeat());
            }
            emit_lit_corr(&mut out);
            encode_uuid(h.correlation_id, &mut out);
            emit_lit_uq_ts(&mut out);
            emit_jstrc(h.timestamp.as_slice(), &mut out);
            emit_lit_seq(&mut out);
            crate::text::encode_u64(h.sequence, &mut out);
            emit_lit_rb(&mut out);
        },
        HubMessage::Error { message, code, correlation_id } => {
            emit_lit_open_type(&mut out);
            proof {
                assert(out@ =~= lit_open_type());
            }
            let ghost p_tag = out@;
            emit_tag_error(&mut out);
            out.push(QUOTE);
            proof {
                lemma_jstrc_plain_push(p_tag, tag_error());
            }
            emit_lit_msg(&mut out);
            emit_jstrc(message.as_slice(), &mut out);
            emit_lit_code(&mut out);
            emit_jstrc(code.as_slice(), &mut out);
            let ghost p_cid = out@;
            match correlation_id {
                Some(u) => {
                    emit_lit_corr(&mut out);
                    encode_uuid(*u, &mut out);
                    emit_lit_uq_rb(&mut out);
                    proof {
                        assert(((p_cid + lit_corr()) + uuid_bytes(*u)) + lit_uq_rb() =~= p_cid
                            + enc_opt_err_corr(Some(*u)));
                    }
                },
                None => {
                    emit_lit_rb(&mut out);
                },
            }
        },
    }
    out
}


/// Skipping twice is skipping the sum.
proof fn lemma_skip_skip(s: Seq<u8>, a: int, b: int)
    requires
        0 <= a,
        0 <= b,
        a + b <= s.len(),
    ensures
        s.skip(a).skip(b) == s.skip(a + b),
{
    assert(s.skip(a).skip(b) =~= s.skip(a + b));
}

/// Consumes the fixed fragment `lit` at `pos`, if it is there.
pub fn expect_bytes(buf: &[u8], pos: usize, lit: &[u8]) -> (r: Option<usize>)
    requires
        pos <= buf.len(),
    ensures
        match r {
            None => sp_expect(buf@.skip(pos as int), lit@) is None,
            Some(j) => {
                &&& pos <= j <= buf.len()
                &&& j - pos == lit@.len()
                &&& sp_expect(buf@.skip(pos as int), lit@) == Some(buf@.skip(j as int))
            },
        },
{
    let ghost s = buf@.skip(pos as int);
    if buf.len() - pos < lit.len() {
        return None;
    }
    let mut i: usize = 0;
    while i < lit.len()
        invariant
            pos <= buf.len(),
            lit.len() <= buf.len() - pos,
            i <= lit.len(),
            s =~= buf@.skip(pos as int),
            forall|k: int| 0 <= k < i ==> buf@[pos + k] == lit@[k],
        decreases lit.len() - i,
    {
        if buf[pos + i] != lit[i] {
            proof {
                assert(s[i as int] == buf@[pos + i]);
                if s.len() >= lit@.len() && s.take(lit@.len() as int) == lit@ {
                    assert(s.take(lit@.len() as int)[i as int] == s[i as int]);
                    assert(false);
                }
            }
            return None;
        }
        i = i + 1;
    }
    proof {
        assert(forall|k: int| 0 <= k < lit@.len() ==> #[trigger] s[k] == buf@[pos + k]);
        assert(s.take(lit@.len() as int) =~= lit@);
        assert(s.skip(lit@.len() as int) =~= buf@.skip((pos + lit.len()) as int));
    }
    Some(pos + lit.len())
}

/// Whether two byte strings hold the same bytes.
pub fn bytes_eq(a: &[u8], b: &[u8]) -> (r: bool)
    ensures
        r == (a@ == b@),
{
    if a.len() != b.len() {
        return false;
    }
    let mut i: usize = 0;
    while i < a.len()
        invariant
            a.len() == b.len(),
            i <= a.len(),
            forall|k: int| 0 <= k < i ==> a@[k] == b@[k],
        decreases a.len() - i,
    {
        if a[i] != b[i] {
            return false;
        }
        i = i + 1;
    }
    proof {
        assert(a@ =~= b@);
    }
    true
}

/// Parses the overlay address, version and closing brace of a `register`
/// frame.
fn decode_register_end_body(
    buf: &[u8],
    pos: usize,
    cid: u128,
    provider: ProviderType,
    pid: Vec<u8>,
    host: Vec<u8>,
    gpu: GpuInfo,
) -> (r: Result<AgentMessage, DecodeError>)
    requires
        pos <= buf.len(),
    ensures
        ({
            let d = spec_decode_register_end(
                buf@.skip(pos as int),
                cid,
                provider,
                pid@,
                host@,
                gpu@,
            );
            match r {
                Ok(m) => d == AgentFrameV::Msg(m@),
                Err(e) => e == DecodeError::Malformed && d == AgentFrameV::Malformed,
            }
        }),
{
    let l_gend = vec_lit_gpu_end();
    let i1 = match expect_bytes(buf, pos, l_gend.as_slice()) {
        Some(j) => j,
        None => {
            return Err(DecodeError::Malformed);
        },
    };
    let (ip, i2) = match parse_str_body(buf, i1) {
        Some(t) => t,
        None => {
            return Err(DecodeError::Malformed);
        },
    };
    proof {
        lemma_skip_skip(buf@, i1 as int, (i2 - i1) as int);
    }
    let l_ver = vec_lit_ver();
    let i3 = match expect_bytes(buf, i2, l_ver.as_slice()) {
        Some(j) => j,
        None => {
            return Err(DecodeError::Malformed);
        },
    };
    let (ver, i4) = match parse_str_body(buf, i3) {
        Some(t) => t,
        None => {
            return Err(DecodeError::Malformed);
        },
    };
    proof {
        lemma_skip_skip(buf@, i3 as int, (i4 - i3) as int);
    }
    let l_rb = vec_lit_rb();
    let i5 = match expect_bytes(buf, i4, l_rb.as_slice()) {
        Some(j) => j,
        None => {
            return Err(DecodeError::Malformed);
        },
    };
    if i5 != buf.len() {
        return Err(DecodeError::Malformed);
    }
    Ok(
        AgentMessage::Register(
            AgentInfo {
                correlation_id: cid,
                provider: provider,
                provider_instance_id: pid,
                hostname: host,
                gpu_info: gpu,
                tailscale_ip: ip,
                agent_version: ver,
            },
        ),
    )
}

/// Parses the GPU object of a `register` frame and hands on to the tail.
fn decode_register_gpu_body(
    buf: &[u8],
    pos: usize,
    cid: u128,
    provider: ProviderType,
    pid: Vec<u8>,
    host: Vec<u8>,
) -> (r: Result<AgentMessage, DecodeError>)
    requires
        pos <= buf.len(),
    ensures
        ({
            let d = spec_decode_register_gpu(buf@.skip(pos as int), cid, provider, pid@, host@);
            match r {
                Ok(m) => d == AgentFrameV::Msg(m@),
                Err(e) => e == DecodeError::Malformed && d == AgentFrameV::Malformed,
            }
        }),
{
    let l_gname = vec_lit_gpu_name();
    let i1 = match expect_bytes(buf, pos, l_gname.as_slice()) {
        Some(j) => j,
        None => {
            return Err(DecodeError::Malformed);
        },
    };
    let (gname, i2) = match parse_str_body(buf, i1) {
        Some(t) => t,
        None => {
            return Err(DecodeError::Malformed);
        },
    };
    proof {
        lemma_skip_skip(buf@, i1 as int, (i2 - i1) as int);
    }
    let l_mem = vec_lit_mem();
    let i3 = match expect_bytes(buf, i2, l_mem.as_slice()) {
        Some(j) => j,
        None => {
            return Err(DecodeError::Malformed);
        },
    };
    let (mem, i4) = match parse_number(buf, i3) {
        Some(t) => t,
        None => {
            return Err(DecodeError::Malformed);
        },
    };
    proof {
        lemma_skip_skip(buf@, i3 as int, (i4 - i3) as int);
    }
    let l_cuda = vec_lit_cuda();
    let i5 = match expect_bytes(buf, i4, l_cuda.as_slice()) {
        Some(j) => j,
        None => {
            return Err(DecodeError::Malformed);
        },
    };
    let (cuda, i6) = match parse_str_body(buf, i5) {
        Some(t) => t,
        None => {
            return Err(DecodeError::Malformed);
        },
    };
    proof {
        lemma_skip_skip(buf@, i5 as int, (i6 - i5) as int);
    }
    let l_cc = vec_lit_cc();
    match expect_bytes(buf, i6, l_cc.as_slice()) {
        Some(i7) => {
            let (cc, i8) = match parse_str_body(buf, i7) {
                Some(t) => t,
                None => {
                    return Err(DecodeError::Malformed);
                },
            };
            proof {
                lemma_skip_skip(buf@, i7 as int, (i8 - i7) as int);
            }
            let gpu = GpuInfo {
                name: gname,
                memory_gb: mem,
                cuda_version: cuda,
                compute_capability: Some(cc),
            };
            decode_register_end_body(buf, i8, cid, provider, pid, host, gpu)
        },
        None => {
            let gpu = GpuInfo {
                name: gname,
                memory_gb: mem,
                cuda_version: cuda,
                compute_capability: None,
            };
            decode_register_end_body(buf, i6, cid, provider, pid, host, gpu)
        },
    }
}

/// Parses the body of a `register` frame after its tag.
fn decode_register_body(buf: &[u8], pos: usize) -> (r: Result<AgentMessage, DecodeError>)
    requires
        pos <= buf.len(),
    ensures
        ({
            let d = spec_decode_register(buf@.skip(pos as int));
            match r {
                Ok(m) => d == AgentFrameV::Msg(m@),
                Err(e) => e == DecodeError::Malformed && d == AgentFrameV::Malformed,
            }
        }),
{
    let l_corr = vec_lit_corr();
    let i1 = match expect_bytes(buf, pos, l_corr.as_slice()) {
        Some(j) => j,
        None => {
            return Err(DecodeError::Malformed);
        },
    };
    let (cid, i2) = match parse_uuid(buf, i1) {
        Some(t) => t,
        None => {
            return Err(DecodeError::Malformed);
        },
    };
    proof {
        lemma_skip_skip(buf@, i1 as int, (i2 - i1) as int);
    }
    let l_prov = vec_lit_uq_provider();
    let i3 = match expect_bytes(buf, i2, l_prov.as_slice()) {
        Some(j) => j,
        None => {
            return Err(DecodeError::Malformed);
        },
    };
    let (pv, i4) = match parse_str_body(buf, i3) {
        Some(t) => t,
        None => {
            return Err(DecodeError::Malformed);
        },
    };
    proof {
        lemma_skip_skip(buf@, i3 as int, (i4 - i3) as int);
    }
    let p_vastai = vec_prov_vastai();
    let p_runpod = vec_prov_runpod();
    let p_local = vec_prov_local();
    let provider: ProviderType = if bytes_eq(pv.as_slice(), p_vastai.as_slice()) {
        ProviderType::VastAI
    } else if bytes_eq(pv.as_slice(), p_runpod.as_slice()) {
        ProviderType::Runpod
    } else if bytes_eq(pv.as_slice(), p_local.as_slice()) {
        ProviderType::Local
    } else {
        return Err(DecodeError::Malformed);
    };
    let l_pid = vec_lit_pid();
    let i5 = match expect_bytes(buf, i4, l_pid.as_slice()) {
        Some(j) => j,
        None => {
            return Err(DecodeError::Malformed);
        },
    };
    let (pid, i6) = match parse_str_body(buf, i5) {
        Some(t) => t,
        None => {
            return Err(DecodeError::Malformed);
        },
    };
    proof {
        lemma_skip_skip(buf@, i5 as int, (i6 - i5) as int);
    }
    let l_host = vec_lit_host();
    let i7 = match expect_bytes(buf, i6, l_host.as_slice()) {
        Some(j) => j,
        None => {
            return Err(DecodeError::Malformed);
        },
    };
    let (host, i8) = match parse_str_body(buf, i7) {
        Some(t) => t,
        None => {
            return Err(DecodeError::Malformed);
        },
    };
    proof {
        lemma_skip_skip(buf@, i7 as int, (i8 - i7) as int);
    }
    decode_register_gpu_body(buf, i8, cid, provider, pid, host)
}

/// Parses the body of a `heartbeat_ack` frame after its tag.
fn decode_heartbeat_ack_body(buf: &[u8], pos: usize) -> (r: Result<AgentMessage, DecodeError>)
    requires
        pos <= buf.len(),
    ensures
        ({
            let d = spec_decode_heartbeat_ack(buf@.skip(pos as int));
            match r {
                Ok(m) => d == AgentFrameV::Msg(m@),
                Err(e) => e == DecodeError::Malformed && d == AgentFrameV::Malformed,
            }
        }),
{
    let l_corr = vec_lit_corr();
    let i1 = match expect_bytes(buf, pos, l_corr.as_slice()) {
        Some(j) => j,
        None => {
            return Err(DecodeError::Malformed);
        },
    };
    let (cid, i2) = match parse_uuid(buf, i1) {
        Some(t) => t,
        None => {
            return Err(DecodeError::Malformed);
        },
    };
    proof {
        lemma_skip_skip(buf@, i1 as int, (i2 - i1) as int);
    }
    let l_ts = vec_lit_uq_ts();
    let i3 = match expect_bytes(buf, i2, l_ts.as_slice()) {
        Some(j) => j,
        None => {
            return Err(DecodeError::Malformed);
        },
    };
    let (ts, i4) = match parse_str_body(buf, i3) {
        Some(t) => t,
        None => {
            return Err(DecodeError::Malformed);
        },
    };
    proof {
        lemma_skip_skip(buf@, i3 as int, (i4 - i3) as int);
    }
    let l_rb = vec_lit_rb();
    let i5 = match expect_bytes(buf, i4, l_rb.as_slice()) {
        Some(j) => j,
        None => {
            return Err(DecodeError::Malformed);
        },
    };
    if i5 != buf.len() {
        return Err(DecodeError::Malformed);
    }
    Ok(AgentMessage::HeartbeatAck(HeartbeatAckMessage { correlation_id: cid, timestamp: ts }))
}

/// Parses an agent-to-hub frame: the message, or which way it was refused.
pub fn decode_agent_frame(frame: &[u8]) -> (r: Result<AgentMessage, DecodeError>)
    ensures
        ({
            let d = spec_decode_agent(frame@);
            match r {
                Ok(m) => d == AgentFrameV::Msg(m@),
                Err(e) => match e {
                    DecodeError::UnknownType => d == AgentFrameV::UnknownType,
                    DecodeError::Malformed => d == AgentFrameV::Malformed,
                },
            }
        }),
{
    proof {
        assert(frame@.skip(0) =~= frame@);
    }
    let l_open = vec_lit_open_type();
    let j0 = match expect_bytes(frame, 0, l_open.as_slice()) {
        Some(j) => j,
        None => {
            return Err(DecodeError::Malformed);
        },
    };
    let (tag, j1) = match parse_str_body(frame, j0) {
        Some(t) => t,
        None => {
            return Err(DecodeError::Malformed);
        },
    };
    proof {
        lemma_skip_skip(frame@, j0 as int, (j1 - j0) as int);
    }
    let t_reg = vec_tag_register();
    let t_hba = vec_tag_heartbeat_ack();
    if bytes_eq(tag.as_slice(), t_reg.as_slice()) {
        decode_register_body(frame, j1)
    } else if bytes_eq(tag.as_slice(), t_hba.as_slice()) {
        decode_heartbeat_ack_body(frame, j1)
    } else {
        Err(DecodeError::UnknownType)
    }
}

/// Parses the body of a `register_ack` frame after its tag.
fn decode_register_ack_body(buf: &[u8], pos: usize) -> (r: Result<HubMessage, DecodeError>)
    requires
        pos <= buf.len(),
    ensures
        ({
            let d = spec_decode_register_ack(buf@.skip(pos as int));
            match r {
                Ok(m) => d == HubFrameV::Msg(m@),
                Err(e) => e == DecodeError::Malformed && d == HubFrameV::Malformed,
            }
        }),
{
    let l_corr = vec_lit_corr();
    let i1 = match expect_bytes(buf, pos, l_corr.as_slice()) {
        Some(j) => j,
        None => {
            return Err(DecodeError::Malformed);
        },
    };
    let (cid, i2) = match parse_uuid(buf, i1) {
        Some(t) => t,
        None => {
            return Err(DecodeError::Malformed);
        },
    };
    proof {
        lemma_skip_skip(buf@, i1 as int, (i2 - i1) as int);
    }
    let l_aid = vec_lit_uq_agent_id();
    let i3 = match expect_bytes(buf, i2, l_aid.as_slice()) {
        Some(j) => j,
        None => {
            return Err(DecodeError::Malformed);
        },
    };
    let (aid, i4) = match parse_uuid(buf, i3) {
        Some(t) => t,
        None => {
            return Err(DecodeError::Malformed);
        },
    };
    proof {
        lemma_skip_skip(buf@, i3 as int, (i4 - i3) as int);
    }
    let l_rat = vec_lit_uq_reg_at();
    let i5 = match expect_bytes(buf, i4, l_rat.as_slice()) {
        Some(j) => j,
        None => {
            return Err(DecodeError::Malformed);
        },
    };
    let (at, i6) = match parse_str_body(buf, i5) {
        Some(t) => t,
        None => {
            return Err(DecodeError::Malformed);
        },
    };
    proof {
        lemma_skip_skip(buf@, i5 as int, (i6 - i5) as int);
    }
    let l_hv = vec_lit_hub_ver();
    let i7 = match expect_bytes(buf, i6, l_hv.as_slice()) {
        Some(j) => j,
        None => {
            return Err(DecodeError::Malformed);
        },
    };
    let (hv, i8) = match parse_str_body(buf, i7) {
        Some(t) => t,
        None => {
            return Err(DecodeError::Malformed);
        },
    };
    proof {
        lemma_skip_skip(buf@, i7 as int, (i8 - i7) as int);
    }
    let l_rb = vec_lit_rb();
    let i9 = match expect_bytes(buf, i8, l_rb.as_slice()) {
        Some(j) => j,
        None => {
            return Err(DecodeError::Malformed);
        },
    };
    if i9 != buf.len() {
        return Err(DecodeError::Malformed);
    }
    Ok(
        HubMessage::RegisterAck(
            AgentRegistration {
                correlation_id: cid,
                agent_id: aid,
                registered_at: at,
                hub_version: hv,
            },
        ),
    )
}

/// Parses the body of a `heartbeat` frame after its tag.
fn decode_heartbeat_body(buf: &[u8], pos: usize) -> (r: Result<HubMessage, DecodeError>)
    requires
        pos <= buf.len(),
    ensures
        ({
            let d = spec_decode_heartbeat(buf@.skip(pos as int));
            match r {
                Ok(m) => d == HubFrameV::Msg(m@),
                Err(e) => e == DecodeError::Malformed && d == HubFrameV::Malformed,
            }
        }),
{
    let l_corr = vec_lit_corr();
    let i1 = match expect_bytes(buf, pos, l_corr.as_slice()) {
        Some(j) => j,
        None => {
            return Err(DecodeError::Malformed);
        },
    };
    let (cid, i2) = match parse_uuid(buf, i1) {
        Some(t) => t,
        None => {
            return Err(DecodeError::Malformed);
        },
    };
    proof {
        lemma_skip_skip(buf@, i1 as int, (i2 - i1) as int);
    }
    let l_ts = vec_lit_uq_ts();
    let i3 = match expect_bytes(buf, i2, l_ts.as_slice()) {
        Some(j) => j,
        None => {
            return Err(DecodeError::Malformed);
        },
    };
    let (ts, i4) = match parse_str_body(buf, i3) {
        Some(t) => t,
        None => {
            return Err(DecodeError::Malformed);
        },
    };
    proof {
        lemma_skip_skip(buf@, i3 as int, (i4 - i3) as int);
    }
    let l_seq = vec_lit_seq();
    let i5 = match expect_bytes(buf, i4, l_seq.as_slice()) {
        Some(j) => j,
        None => {
            return Err(DecodeError::Malformed);
        },
    };
    let (n, i6) = match parse_u64(buf, i5) {
        Some(t) => t,
        None => {
            return Err(DecodeError::Malformed);
        },
    };
    proof {
        lemma_skip_skip(buf@, i5 as int, (i6 - i5) as int);
    }
    let l_rb = vec_lit_rb();
    let i7 = match expect_bytes(buf, i6, l_rb.as_slice()) {
        Some(j) => j,
        None => {
            return Err(DecodeError::Malformed);
        },
    };
    if i7 != buf.len() {
        return Err(DecodeError::Malformed);
    }
    Ok(HubMessage::Heartbeat(HeartbeatMessage { correlation_id: cid, timestamp: ts, sequence: n }))
}

/// Parses the body of an `error` frame after its tag.
fn decode_error_body(buf: &[u8], pos: usize) -> (r: Result<HubMessage, DecodeError>)
    requires
        pos <= buf.len(),
    ensures
        ({
            let d = spec_decode_error(buf@.skip(pos as int));
            match r {
                Ok(m) => d == HubFrameV::Msg(m@),
                Err(e) => e == DecodeError::Malformed && d == HubFrameV::Malformed,
            }
        }),
{
    let l_msg = vec_lit_msg();
    let i1 = match expect_bytes(buf, pos, l_msg.as_slice()) {
        Some(j) => j,
        None => {
            return Err(DecodeError::Malformed);
        },
    };
    let (message, i2) = match parse_str_body(buf, i1) {
        Some(t) => t,
        None => {
            return Err(DecodeError::Malformed);
        },
    };
    proof {
        lemma_skip_skip(buf@, i1 as int, (i2 - i1) as int);
    }
    let l_code = vec_lit_code();
    let i3 = match expect_bytes(buf, i2, l_code.as_slice()) {
        Some(j) => j,
        None => {
            return Err(DecodeError::Malformed);
        },
    };
    let (code, i4) = match parse_str_body(buf, i3) {
        Some(t) => t,
        None => {
            return Err(DecodeError::Malformed);
        },
    };
    proof {
        lemma_skip_skip(buf@, i3 as int, (i4 - i3) as int);
    }
    let l_corr = vec_lit_corr();
    match expect_bytes(buf, i4, l_corr.as_slice()) {
        Some(i5) => {
            let (cid, i6) = match parse_uuid(buf, i5) {
                Some(t) => t,
                None => {
                    return Err(DecodeError::Malformed);
                },
            };
            proof {
                lemma_skip_skip(buf@, i5 as int, (i6 - i5) as int);
            }
            let l_uq_rb = vec_lit_uq_rb();
            let i7 = match expect_bytes(buf, i6, l_uq_rb.as_slice()) {
                Some(j) => j,
                None => {
                    return Err(DecodeError::Malformed);
                },
            };
            if i7 != buf.len() {
                return Err(DecodeError::Malformed);
            }
            Ok(HubMessage::Error { message: message, code: code, correlation_id: Some(cid) })
        },
        None => {
            let l_rb = vec_lit_rb();
            let i5 = match expect_bytes(buf, i4, l_rb.as_slice()) {
                Some(j) => j,
                None => {
                    return Err(DecodeError::Malformed);
                },
            };
            if i5 != buf.len() {
                return Err(DecodeError::Malformed);
            }
            Ok(HubMessage::Error { message: message, code: code, correlation_id: None })
        },
    }
}

/// Parses a hub-to-agent frame: the message, or which way it was refused.
pub fn decode_hub_frame(frame: &[u8]) -> (r: Result<HubMessage, DecodeError>)
    ensures
        ({
            let d = spec_decode_hub(frame@);
            match r {
                Ok(m) => d == HubFrameV::Msg(m@),
                Err(e) => match e {
                    DecodeError::UnknownType => d == HubFrameV::UnknownType,
                    DecodeError::Malformed => d == HubFrameV::Malformed,
                },
            }
        }),
{
    proof {
        assert(frame@.skip(0) =~= frame@);
    }
    let l_open = vec_lit_open_type();
    let j0 = match expect_bytes(frame, 0, l_open.as_slice()) {
        Some(j) => j,
        None => {
            return Err(DecodeError::Malformed);
        },
    };
    let (tag, j1) = match parse_str_body(frame, j0) {
        Some(t) => t,
        None => {
            return Err(DecodeError::Malformed);
        },
    };
    proof {
        lemma_skip_skip(frame@, j0 as int, (j1 - j0) as int);
    }
    let t_rack = vec_tag_register_ack();
    let t_hb = vec_tag_heartbeat();
    let t_err = vec_tag_error();
    if bytes_eq(tag.as_slice(), t_rack.as_slice()) {
        decode_register_ack_body(frame, j1)
    } else if bytes_eq(tag.as_slice(), t_hb.as_slice()) {
        decode_heartbeat_body(frame, j1)
    } else if bytes_eq(tag.as_slice(), t_err.as_slice()) {
        decode_error_body(frame, j1)
    } else {
        Err(DecodeError::UnknownType)
    }
}



/// Concatenation of byte strings reassociates.
proof fn lemma_chain(a: Seq<u8>, b: Seq<u8>, c: Seq<u8>)
    ensures
        (a + b) + c == a + (b + c),
{
    assert((a + b) + c =~= a + (b + c));
}

/// Consuming a fragment that heads the input leaves the rest.
proof fn lemma_sp_expect_prefix(lit: Seq<u8>, rest: Seq<u8>)
    ensures
        sp_expect(lit + rest, lit) == Some(rest),
{
    let s = lit + rest;
    assert(s.take(lit.len() as int) =~= lit);
    assert(s.skip(lit.len() as int) =~= rest);
}

/// Parsing a string value that heads the input yields its payload and leaves
/// the rest.
proof fn lemma_sp_str_prefix(v: Seq<u8>, rest: Seq<u8>)
    ensures
        sp_str(jstrc(v) + rest) == Some((v, rest)),
{
    let s = jstrc(v) + rest;
    assert(s =~= esc(v) + seq![QUOTE] + rest);
    crate::escape::lemma_parse_esc(v, rest);
    assert(s.skip((esc(v).len() + 1) as int) =~= rest);
}

/// Parsing an identifier that heads the input yields it and leaves the rest.
proof fn lemma_sp_uuid_prefix(u: u128, rest: Seq<u8>)
    ensures
        sp_uuid(uuid_bytes(u) + rest) == Some((u, rest)),
{
    crate::ids::lemma_parse_uuid_bytes(u, rest);
    assert((uuid_bytes(u) + rest).skip(36) =~= rest);
}

/// Parsing a numeric token that heads the input yields it and leaves the
/// rest, when the rest starts outside the token alphabet.
proof fn lemma_sp_num_prefix(t: Seq<u8>, rest: Seq<u8>)
    requires
        wf_number(t),
        rest.len() > 0,
        !is_number_byte(rest[0]),
    ensures
        sp_num(t + rest) == Some((t, rest)),
{
    crate::text::lemma_parse_number_token(t, rest);
    assert((t + rest).skip(t.len() as int) =~= rest);
}

/// Parsing a counter that heads the input yields it and leaves the rest,
/// when the rest starts with a non-digit.
proof fn lemma_sp_u64_prefix(n: u64, rest: Seq<u8>)
    requires
        rest.len() > 0,
        !is_digit(rest[0]),
    ensures
        sp_u64(dec_bytes(n as nat) + rest) == Some((n, rest)),
{
    crate::text::lemma_parse_dec_bytes(n, rest);
    assert((dec_bytes(n as nat) + rest).skip(dec_bytes(n as nat).len() as int) =~= rest);
}

/// The wire name of each provider reads back as that provider.
proof fn lemma_provider_roundtrip(p: ProviderType)
    ensures
        spec_provider_of(provider_bytes(p)) == Some(p),
{
    crate::lit::lemma_tags_distinct();
}

/// The tail of a register frame from the GPU object on, grouped for
/// head-first parsing.
pub open spec fn enc_gpu_tail(g: GpuInfoV, ip: Seq<u8>, ver: Seq<u8>) -> Seq<u8> {
    lit_gpu_name() + (jstrc(g.name) + (lit_mem() + (g.memory_gb + (lit_cuda() + (jstrc(
        g.cuda_version,
    ) + (match g.compute_capability {
        Some(c) => lit_cc() + (jstrc(c) + enc_reg_end_tail(ip, ver)),
        None => enc_reg_end_tail(ip, ver),
    }))))))
}

/// The tail of a register frame from the overlay address on, grouped for
/// head-first parsing.
pub open spec fn enc_reg_end_tail(ip: Seq<u8>, ver: Seq<u8>) -> Seq<u8> {
    lit_gpu_end() + (jstrc(ip) + (lit_ver() + (jstrc(ver) + lit_rb())))
}

/// The body of a register frame after its tag, grouped for head-first
/// parsing.
pub open spec fn enc_register_body(i: AgentInfoV) -> Seq<u8> {
    lit_corr() + (uuid_bytes(i.correlation_id) + (lit_uq_provider() + (jstrc(
        provider_bytes(i.provider),
    ) + (lit_pid() + (jstrc(i.provider_instance_id) + (lit_host() + (jstrc(i.hostname)
        + enc_gpu_tail(i.gpu_info, i.tailscale_ip, i.agent_version))))))))
}

/// A whole register frame, grouped for head-first parsing.
pub open spec fn enc_register_frame(i: AgentInfoV) -> Seq<u8> {
    lit_open_type() + (jstrc(tag_register()) + enc_register_body(i))
}

/// The closing brace alone is consumed whole and leaves nothing.
proof fn lemma_sp_expect_rb()
    ensures
        sp_expect(lit_rb(), lit_rb()) == Some(Seq::<u8>::empty()),
{
    crate::lit::lemma_lit_shapes();
    assert(lit_rb().take(1) =~= lit_rb());
    assert(lit_rb().skip(1) =~= Seq::<u8>::empty());
}

/// The flat rendering of a register frame regroups into its head-first form.
#[verifier::rlimit(100)]
#[verifier::spinoff_prover]
proof fn lemma_register_decomp(i: AgentInfoV)
    ensures
        spec_encode_register(i) == enc_register_frame(i),
{
    let e = spec_encode_register(i);
    let t1 = lit_open_type();
    let t2 = jstrc(tag_register());
    let t3 = lit_corr();
    let t4 = uuid_bytes(i.correlation_id);
    let t5 = lit_uq_provider();
    let t6 = jstrc(provider_bytes(i.provider));
    let t7 = lit_pid();
    let t8 = jstrc(i.provider_instance_id);
    let t9 = lit_host();
    let t10 = jstrc(i.hostname);
    let t11 = lit_gpu_name();
    let t12 = jstrc(i.gpu_info.name);
    let t13 = lit_mem();
    let t14 = i.gpu_info.memory_gb;
    let t15 = lit_cuda();
    let t16 = jstrc(i.gpu_info.cuda_version);
    let t17 = enc_opt_cc(i.gpu_info.compute_capability);
    let t18 = lit_gpu_end();
    let t19 = jstrc(i.tailscale_ip);
    let t20 = lit_ver();
    let t21 = jstrc(i.agent_version);
    let t22 = lit_rb();
    let p1 = t1;
    let p2 = p1 + t2;
    let p3 = p2 + t3;
    let p4 = p3 + t4;
    let p5 = p4 + t5;
    let p6 = p5 + t6;
    let p7 = p6 + t7;
    let p8 = p7 + t8;
    let p9 = p8 + t9;
    let p10 = p9 + t10;
    let p11 = p10 + t11;
    let p12 = p11 + t12;
    let p13 = p12 + t13;
    let p14 = p13 + t14;
    let p15 = p14 + t15;
    let p16 = p15 + t16;
    let p17 = p16 + t17;
    let p18 = p17 + t18;
    let p19 = p18 + t19;
    let p20 = p19 + t20;
    let p21 = p20 + t21;
    let p22 = p21 + t22;
    assert(e == p22);
    let s22 = t22;
    let s21 = t21 + s22;
    let s20 = t20 + s21;
    let s19 = t19 + s20;
    let s18 = t18 + s19;
    let s17 = t17 + s18;
    let s16 = t16 + s17;
    let s15 = t15 + s16;
    let s14 = t14 + s15;
    let s13 = t13 + s14;
    let s12 = t12 + s13;
    let s11 = t11 + s12;
    let s10 = t10 + s11;
    let s9 = t9 + s10;
    let s8 = t8 + s9;
    let s7 = t7 + s8;
    let s6 = t6 + s7;
    let s5 = t5 + s6;
    let s4 = t4 + s5;
    let s3 = t3 + s4;
    let s2 = t2 + s3;
    let s1 = t1 + s2;
    assert(e == p20 + s21) by {
        lemma_chain(p20, t21, s22);
    }
    assert(e == p19 + s20) by {
        lemma_chain(p19, t20, s21);
    }
    assert(e == p18 + s19) by {
        lemma_chain(p18, t19, s20);
    }
    assert(e == p17 + s18) by {
        lemma_chain(p17, t18, s19);
    }
    assert(e == p16 + s17) by {
        lemma_chain(p16, t17, s18);
    }
    assert(e == p15 + s16) by {
        lemma_chain(p15, t16, s17);
    }
    assert(e == p14 + s15) by {
        lemma_chain(p14, t15, s16);
    }
    assert(e == p13 + s14) by {
        lemma_chain(p13, t14, s15);
    }
    assert(e == p12 + s13) by {
        lemma_chain(p12, t13, s14);
    }
    assert(e == p11 + s12) by {
        lemma_chain(p11, t12, s13);
    }
    assert(e == p10 + s11) by {
        lemma_chain(p10, t11, s12);
    }
    assert(e == p9 + s10) by {
        lemma_chain(p9, t10, s11);
    }
    assert(e == p8 + s9) by {
        lemma_chain(p8, t9, s10);
    }
    assert(e == p7 + s8) by {
        lemma_chain(p7, t8, s9);
    }
    assert(e == p6 + s7) by {
        lemma_chain(p6, t7, s8);
    }
    assert(e == p5 + s6) by {
        lemma_chain(p5, t6, s7);
    }
    assert(e == p4 + s5) by {
        lemma_chain(p4, t5, s6);
    }
    assert(e == p3 + s4) by {
        lemma_chain(p3, t4, s5);
    }
    assert(e == p2 + s3) by {
        lemma_chain(p2, t3, s4);
    }
    assert(e == p1 + s2) by {
        lemma_chain(p1, t2, s3);
    }
    assert(e == s1);
    assert(s18 == enc_reg_end_tail(i.tailscale_ip, i.agent_version));
    match i.gpu_info.compute_capability {
        Some(c) => {
            assert(t17 == lit_cc() + jstrc(c));
            assert(s17 == (lit_cc() + jstrc(c)) + s18);
            assert(s17 == lit_cc() + (jstrc(c) + s18)) by {
                lemma_chain(lit_cc(), jstrc(c), s18);
            }
            assert(s11 == enc_gpu_tail(i.gpu_info, i.tailscale_ip, i.agent_version));
        },
        None => {
            assert(t17 == Seq::<u8>::empty());
            assert(s17 =~= s18);
            assert(s11 == enc_gpu_tail(i.gpu_info, i.tailscale_ip, i.agent_version));
        },
    }
    assert(e == enc_register_frame(i));
}

/// Parsing the head-first tail of a register frame from the overlay address
/// on recovers the message fields.
#[verifier::rlimit(100)]
#[verifier::spinoff_prover]
proof fn lemma_register_end_eval(
    cid: u128,
    provider: ProviderType,
    pid: Seq<u8>,
    host: Seq<u8>,
    g: GpuInfoV,
    ip: Seq<u8>,
    ver: Seq<u8>,
)
    ensures
        spec_decode_register_end(enc_reg_end_tail(ip, ver), cid, provider, pid, host, g)
            == AgentFrameV::Msg(
            AgentMessageV::Register(
                AgentInfoV {
                    correlation_id: cid,
                    provider: provider,
                    provider_instance_id: pid,
                    hostname: host,
                    gpu_info: g,
                    tailscale_ip: ip,
                    agent_version: ver,
                },
            ),
        ),
{
    crate::lit::lemma_lit_shapes();
    let s22 = lit_rb();
    let s21 = jstrc(ver) + s22;
    let s20 = lit_ver() + s21;
    let s19 = jstrc(ip) + s20;
    let s18 = lit_gpu_end() + s19;
    assert(s18 == enc_reg_end_tail(ip, ver));
    lemma_sp_expect_prefix(lit_gpu_end(), s19);
    lemma_sp_str_prefix(ip, s20);
    lemma_sp_expect_prefix(lit_ver(), s21);
    lemma_sp_str_prefix(ver, s22);
    lemma_sp_expect_rb();
}

/// Parsing the head-first tail of a register frame from the GPU object on
/// recovers the message fields, when a compute capability is present.
#[verifier::rlimit(100)]
#[verifier::spinoff_prover]
proof fn lemma_register_gpu_eval_some(
    cid: u128,
    provider: ProviderType,
    pid: Seq<u8>,
    host: Seq<u8>,
    g: GpuInfoV,
    c: Seq<u8>,
    ip: Seq<u8>,
    ver: Seq<u8>,
)
    requires
        wf_gpu_info(g),
        g.compute_capability == Some(c),
    ensures
        spec_decode_register_gpu(enc_gpu_tail(g, ip, ver), cid, provider, pid, host)
            == AgentFrameV::Msg(
            AgentMessageV::Register(
                AgentInfoV {
                    correlation_id: cid,
                    provider: provider,
                    provider_instance_id: pid,
                    hostname: host,
                    gpu_info: g,
                    tailscale_ip: ip,
                    agent_version: ver,
                },
            ),
        ),
{
    crate::lit::lemma_lit_shapes();
    let s18 = enc_reg_end_tail(ip, ver);
    let s17b = jstrc(c) + s18;
    let s17 = lit_cc() + s17b;
    let s16 = jstrc(g.cuda_version) + s17;
    let s15 = lit_cuda() + s16;
    let s14 = g.memory_gb + s15;
    let s13 = lit_mem() + s14;
    let s12 = jstrc(g.name) + s13;
    let s11 = lit_gpu_name() + s12;
    assert(s11 == enc_gpu_tail(g, ip, ver));
    lemma_sp_expect_prefix(lit_gpu_name(), s12);
    lemma_sp_str_prefix(g.name, s13);
    lemma_sp_expect_prefix(lit_mem(), s14);
    assert(s15[0] == lit_cuda()[0]);
    assert(!is_number_byte(s15[0]));
    lemma_sp_num_prefix(g.memory_gb, s15);
    lemma_sp_expect_prefix(lit_cuda(), s16);
    lemma_sp_str_prefix(g.cuda_version, s17);
    lemma_sp_expect_prefix(lit_cc(), s17b);
    lemma_sp_str_prefix(c, s18);
    lemma_register_end_eval(cid, provider, pid, host, g, ip, ver);
    assert(GpuInfoV {
        name: g.name,
        memory_gb: g.memory_gb,
        cuda_version: g.cuda_version,
        compute_capability: Some(c),
    } =~= g);
}

/// Parsing the head-first tail of a register frame from the GPU object on
/// recovers the message fields, when no compute capability is present.
#[verifier::rlimit(100)]
#[verifier::spinoff_prover]
proof fn lemma_register_gpu_eval_none(
    cid: u128,
    provider: ProviderType,
    pid: Seq<u8>,
    host: Seq<u8>,
    g: GpuInfoV,
    ip: Seq<u8>,
    ver: Seq<u8>,
)
    requires
        wf_gpu_info(g),
        g.compute_capability is None,
    ensures
        spec_decode_register_gpu(enc_gpu_tail(g, ip, ver), cid, provider, pid, host)
            == AgentFrameV::Msg(
            AgentMessageV::Register(
                AgentInfoV {
                    correlation_id: cid,
                    provider: provider,
                    provider_instance_id: pid,
                    hostname: host,
                    gpu_info: g,
                    tailscale_ip: ip,
                    agent_version: ver,
                },
            ),
        ),
{
    crate::lit::lemma_lit_shapes();
    let s18 = enc_reg_end_tail(ip, ver);
    let s16 = jstrc(g.cuda_version) + s18;
    let s15 = lit_cuda() + s16;
    let s14 = g.memory_gb + s15;
    let s13 = lit_mem() + s14;
    let s12 = jstrc(g.name) + s13;
    let s11 = lit_gpu_name() + s12;
    assert(s11 == enc_gpu_tail(g, ip, ver));
    lemma_sp_expect_prefix(lit_gpu_name(), s12);
    lemma_sp_str_prefix(g.name, s13);
    lemma_sp_expect_prefix(lit_mem(), s14);
    assert(s15[0] == lit_cuda()[0]);
    assert(!is_number_byte(s15[0]));
    lemma_sp_num_prefix(g.memory_gb, s15);
    lemma_sp_expect_prefix(lit_cuda(), s16);
    lemma_sp_str_prefix(g.cuda_version, s18);
    assert(sp_expect(s18, lit_cc()) is None) by {
        if s18.len() >= lit_cc().len() && s18.take(lit_cc().len() as int) == lit_cc() {
            assert(s18.take(lit_cc().len() as int)[0] == s18[0]);
            assert(s18[0] == lit_gpu_end()[0]);
            assert(false);
        }
    }
    lemma_register_end_eval(cid, provider, pid, host, g, ip, ver);
    assert(GpuInfoV {
        name: g.name,
        memory_gb: g.memory_gb,
        cuda_version: g.cuda_version,
        compute_capability: None,
    } =~= g);
}

/// Parsing the head-first tail of a register frame from the GPU object on
/// recovers the message fields.
proof fn lemma_register_gpu_eval(
    cid: u128,
    provider: ProviderType,
    pid: Seq<u8>,
    host: Seq<u8>,
    g: GpuInfoV,
    ip: Seq<u8>,
    ver: Seq<u8>,
)
    requires
        wf_gpu_info(g),
    ensures
        spec_decode_register_gpu(enc_gpu_tail(g, ip, ver), cid, provider, pid, host)
            == AgentFrameV::Msg(
            AgentMessageV::Register(
                AgentInfoV {
                    correlation_id: cid,
                    provider: provider,
                    provider_instance_id: pid,
                    hostname: host,
                    gpu_info: g,
                    tailscale_ip: ip,
                    agent_version: ver,
                },
            ),
        ),
{
    match g.compute_capability {
        Some(c) => lemma_register_gpu_eval_some(cid, provider, pid, host, g, c, ip, ver),
        None => lemma_register_gpu_eval_none(cid, provider, pid, host, g, ip, ver),
    }
}

/// Parsing the body of a register frame after its tag recovers the message
/// fields.
#[verifier::rlimit(100)]
#[verifier::spinoff_prover]
proof fn lemma_register_body_eval(i: AgentInfoV)
    requires
        wf_gpu_info(i.gpu_info),
    ensures
        spec_decode_register(enc_register_body(i)) == AgentFrameV::Msg(
            AgentMessageV::Register(i),
        ),
{
    crate::lit::lemma_lit_shapes();
    let tail = enc_gpu_tail(i.gpu_info, i.tailscale_ip, i.agent_version);
    let s10 = jstrc(i.hostname) + tail;
    let s9 = lit_host() + s10;
    let s8 = jstrc(i.provider_instance_id) + s9;
    let s7 = lit_pid() + s8;
    let s6 = jstrc(provider_bytes(i.provider)) + s7;
    let s5 = lit_uq_provider() + s6;
    let s4 = uuid_bytes(i.correlation_id) + s5;
    let s3 = lit_corr() + s4;
    assert(enc_register_body(i) == s3);
    lemma_sp_expect_prefix(lit_corr(), s4);
    lemma_sp_uuid_prefix(i.correlation_id, s5);
    lemma_sp_expect_prefix(lit_uq_provider(), s6);
    lemma_sp_str_prefix(provider_bytes(i.provider), s7);
    lemma_provider_roundtrip(i.provider);
    lemma_sp_expect_prefix(lit_pid(), s8);
    lemma_sp_str_prefix(i.provider_instance_id, s9);
    lemma_sp_expect_prefix(lit_host(), s10);
    lemma_sp_str_prefix(i.hostname, tail);
    lemma_register_gpu_eval(
        i.correlation_id,
        i.provider,
        i.provider_instance_id,
        i.hostname,
        i.gpu_info,
        i.tailscale_ip,
        i.agent_version,
    );
    assert(AgentInfoV {
        correlation_id: i.correlation_id,
        provider: i.provider,
        provider_instance_id: i.provider_instance_id,
        hostname: i.hostname,
        gpu_info: i.gpu_info,
        tailscale_ip: i.tailscale_ip,
        agent_version: i.agent_version,
    } =~= i);
}

/// Parsing the frame of a register message recovers the message.
#[verifier::rlimit(100)]
#[verifier::spinoff_prover]
pub proof fn lemma_encode_decode_register(i: AgentInfoV)
    requires
        wf_gpu_info(i.gpu_info),
    ensures
        spec_decode_agent(spec_encode_register(i)) == AgentFrameV::Msg(AgentMessageV::Register(i)),
{
    crate::lit::lemma_lit_shapes();
    crate::lit::lemma_tags_distinct();
    lemma_register_decomp(i);
    let s3 = enc_register_body(i);
    let s2 = jstrc(tag_register()) + s3;
    let s1 = lit_open_type() + s2;
    assert(spec_encode_register(i) == s1);
    lemma_sp_expect_prefix(lit_open_type(), s2);
    lemma_sp_str_prefix(tag_register(), s3);
    lemma_register_body_eval(i);
}

pub proof fn lemma_encode_decode_heartbeat_ack(a: HeartbeatAckMessageV)
    ensures
        spec_decode_agent(spec_encode_heartbeat_ack(a)) == AgentFrameV::Msg(AgentMessageV::HeartbeatAck(a)),
{
    crate::lit::lemma_lit_shapes();
    crate::lit::lemma_tags_distinct();
    let e = spec_encode_heartbeat_ack(a);
    let t1 = lit_open_type();
    let t2 = jstrc(tag_heartbeat_ack());
    let t3 = lit_corr();
    let t4 = uuid_bytes(a.correlation_id);
    let t5 = lit_uq_ts();
    let t6 = jstrc(a.timestamp);
    let t7 = lit_rb();
    let p1 = t1;
    let p2 = p1 + t2;
    let p3 = p2 + t3;
    let p4 = p3 + t4;
    let p5 = p4 + t5;
    let p6 = p5 + t6;
    let p7 = p6 + t7;
    let se = Seq::<u8>::empty();
    let s8 = se;
    let s7 = t7 + s8;
    let s6 = t6 + s7;
    let s5 = t5 + s6;
    let s4 = t4 + s5;
    let s3 = t3 + s4;
    let s2 = t2 + s3;
    let s1 = t1 + s2;
    assert(e == p7);
    assert(p7 + se =~= p7);
    assert(e == p6 + s7) by {
        lemma_chain(p6, t7, s8);
    }
    assert(e == p5 + s6) by {
        lemma_chain(p5, t6, s7);
    }
    assert(e == p4 + s5) by {
        lemma_chain(p4, t5, s6);
    }
    assert(e == p3 + s4) by {
        lemma_chain(p3, t4, s5);
    }
    assert(e == p2 + s3) by {
        lemma_chain(p2, t3, s4);
    }
    assert(e == p1 + s2) by {
        lemma_chain(p1, t2, s3);
    }
    assert(e == s1);
    lemma_sp_expect_prefix(lit_open_type(), s2);
    lemma_sp_str_prefix(tag_heartbeat_ack(), s3);
    lemma_sp_expect_prefix(lit_corr(), s4);
    lemma_sp_uuid_prefix(a.correlation_id, s5);
    lemma_sp_expect_prefix(lit_uq_ts(), s6);
    lemma_sp_str_prefix(a.timestamp, s7);
    lemma_sp_expect_prefix(lit_rb(), s8);
}

pub proof fn lemma_encode_decode_register_ack(r: AgentRegistrationV)
    ensures
        spec_decode_hub(spec_encode_register_ack(r)) == HubFrameV::Msg(HubMessageV::RegisterAck(r)),
{
    crate::lit::lemma_lit_shapes();
    crate::lit::lemma_tags_distinct();
    let e = spec_encode_register_ack(r);
    let t1 = lit_open_type();
    let t2 = jstrc(tag_register_ack());
    let t3 = lit_corr();
    let t4 = uuid_bytes(r.correlation_id);
    let t5 = lit_uq_agent_id();
    let t6 = uuid_bytes(r.agent_id);
    let t7 = lit_uq_reg_at();
    let t8 = jstrc(r.registered_at);
    let t9 = lit_hub_ver();
    let t10 = jstrc(r.hub_version);
    let t11 = lit_rb();
    let p1 = t1;
    let p2 = p1 + t2;
    let p3 = p2 + t3;
    let p4 = p3 + t4;
    let p5 = p4 + t5;
    let p6 = p5 + t6;
    let p7 = p6 + t7;
    let p8 = p7 + t8;
    let p9 = p8 + t9;
    let p10 = p9 + t10;
    let p11 = p10 + t11;
    let se = Seq::<u8>::empty();
    let s12 = se;
    let s11 = t11 + s12;
    let s10 = t10 + s11;
    let s9 = t9 + s10;
    let s8 = t8 + s9;
    let s7 = t7 + s8;
    let s6 = t6 + s7;
    let s5 = t5 + s6;
    let s4 = t4 + s5;
    let s3 = t3 + s4;
    let s2 = t2 + s3;
    let s1 = t1 + s2;
    assert(e == p11);
    assert(p11 + se =~= p11);
    assert(e == p10 + s11) by {
        lemma_chain(p10, t11, s12);
    }
    assert(e == p9 + s10) by {
        lemma_chain(p9, t10, s11);
    }
    assert(e == p8 + s9) by {
        lemma_chain(p8, t9, s10);
    }
    assert(e == p7 + s8) by {
        lemma_chain(p7, t8, s9);
    }
    assert(e == p6 + s7) by {
        lemma_chain(p6, t7, s8);
    }
    assert(e == p5 + s6) by {
        lemma_chain(p5, t6, s7);
    }
    assert(e == p4 + s5) by {
        lemma_chain(p4, t5, s6);
    }
    assert(e == p3 + s4) by {
        lemma_chain(p3, t4, s5);
    }
    assert(e == p2 + s3) by {
        lemma_chain(p2, t3, s4);
    }
    assert(e == p1 + s2) by {
        lemma_chain(p1, t2, s3);
    }
    assert(e == s1);
    lemma_sp_expect_prefix(lit_open_type(), s2);
    lemma_sp_str_prefix(tag_register_ack(), s3);
    lemma_sp_expect_prefix(lit_corr(), s4);
    lemma_sp_uuid_prefix(r.correlation_id, s5);
    lemma_sp_expect_prefix(lit_uq_agent_id(), s6);
    lemma_sp_uuid_prefix(r.agent_id, s7);
    lemma_sp_expect_prefix(lit_uq_reg_at(), s8);
    lemma_sp_str_prefix(r.registered_at, s9);
    lemma_sp_expect_prefix(lit_hub_ver(), s10);
    lemma_sp_str_prefix(r.hub_version, s11);
    lemma_sp_expect_prefix(lit_rb(), s12);
}

#[verifier::rlimit(100)]
#[verifier::spinoff_prover]
pub proof fn lemma_encode_decode_heartbeat(h: HeartbeatMessageV)
    ensures
        spec_decode_hub(spec_encode_heartbeat(h)) == HubFrameV::Msg(HubMessageV::Heartbeat(h)),
{
    crate::lit::lemma_lit_shapes();
    crate::lit::lemma_tags_distinct();
    let e = spec_encode_heartbeat(h);
    let t1 = lit_open_type();
    let t2 = jstrc(tag_heartbeat());
    let t3 = lit_corr();
    let t4 = uuid_bytes(h.correlation_id);
    let t5 = lit_uq_ts();
    let t6 = jstrc(h.timestamp);
    let t7 = lit_seq();
    let t8 = dec_bytes(h.sequence as nat);
    let t9 = lit_rb();
    let p1 = t1;
    let p2 = p1 + t2;
    let p3 = p2 + t3;
    let p4 = p3 + t4;
    let p5 = p4 + t5;
    let p6 = p5 + t6;
    let p7 = p6 + t7;
    let p8 = p7 + t8;
    let p9 = p8 + t9;
    let se = Seq::<u8>::empty();
    let s10 = se;
    let s9 = t9 + s10;
    let s8 = t8 + s9;
    let s7 = t7 + s8;
    let s6 = t6 + s7;
    let s5 = t5 + s6;
    let s4 = t4 + s5;
    let s3 = t3 + s4;
    let s2 = t2 + s3;
    let s1 = t1 + s2;
    assert(e == p9);
    assert(p9 + se =~= p9);
    assert(e == p8 + s9) by {
        lemma_chain(p8, t9, s10);
    }
    assert(e == p7 + s8) by {
        lemma_chain(p7, t8, s9);
    }
    assert(e == p6 + s7) by {
        lemma_chain(p6, t7, s8);
    }
    assert(e == p5 + s6) by {
        lemma_chain(p5, t6, s7);
    }
    assert(e == p4 + s5) by {
        lemma_chain(p4, t5, s6);
    }
    assert(e == p3 + s4) by {
        lemma_chain(p3, t4, s5);
    }
    assert(e == p2 + s3) by {
        lemma_chain(p2, t3, s4);
    }
    assert(e == p1 + s2) by {
        lemma_chain(p1, t2, s3);
    }
    assert(e == s1);
    lemma_sp_expect_prefix(lit_open_type(), s2);
    lemma_sp_str_prefix(tag_heartbeat(), s3);
    lemma_sp_expect_prefix(lit_corr(), s4);
    lemma_sp_uuid_prefix(h.correlation_id, s5);
    lemma_sp_expect_prefix(lit_uq_ts(), s6);
    lemma_sp_str_prefix(h.timestamp, s7);
    lemma_sp_expect_prefix(lit_seq(), s8);
    assert(s9[0] == lit_rb()[0]);
    assert(!is_digit(s9[0]));
    lemma_sp_u64_prefix(h.sequence, s9);
    lemma_sp_expect_prefix(lit_rb(), s10);
}

#[verifier::rlimit(100)]
#[verifier::spinoff_prover]
pub proof fn lemma_encode_decode_error_some(message: Seq<u8>, code: Seq<u8>, u: u128)
    ensures
        spec_decode_hub(spec_encode_error(message, code, Some(u))) == HubFrameV::Msg((HubMessageV::Error { message, code, correlation_id: Some(u) })),
{
    crate::lit::lemma_lit_shapes();
    crate::lit::lemma_tags_distinct();
    let e = spec_encode_error(message, code, Some(u));
    let t1 = lit_open_type();
    let t2 = jstrc(tag_error());
    let t3 = lit_msg();
    let t4 = jstrc(message);
    let t5 = lit_code();
    let t6 = jstrc(code);
    let t7 = lit_corr();
    let t8 = uuid_bytes(u);
    let t9 = lit_uq_rb();
    let p1 = t1;
    let p2 = p1 + t2;
    let p3 = p2 + t3;
    let p4 = p3 + t4;
    let p5 = p4 + t5;
    let p6 = p5 + t6;
    let p7 = p6 + t7;
    let p8 = p7 + t8;
    let p9 = p8 + t9;
    let se = Seq::<u8>::empty();
    let s10 = se;
    let s9 = t9 + s10;
    let s8 = t8 + s9;
    let s7 = t7 + s8;
    let s6 = t6 + s7;
    let s5 = t5 + s6;
    let s4 = t4 + s5;
    let s3 = t3 + s4;
    let s2 = t2 + s3;
    let s1 = t1 + s2;
    assert(e == p9);
    assert(p9 + se =~= p9);
    assert(e == p8 + s9) by {
        lemma_chain(p8, t9, s10);
    }
    assert(e == p7 + s8) by {
        lemma_chain(p7, t8, s9);
    }
    assert(e == p6 + s7) by {
        lemma_chain(p6, t7, s8);
    }
    assert(e == p5 + s6) by {
        lemma_chain(p5, t6, s7);
    }
    assert(e == p4 + s5) by {
        lemma_chain(p4, t5, s6);
    }
    assert(e == p3 + s4) by {
        lemma_chain(p3, t4, s5);
    }
    assert(e == p2 + s3) by {
        lemma_chain(p2, t3, s4);
    }
    assert(e == p1 + s2) by {
        lemma_chain(p1, t2, s3);
    }
    assert(e == s1);
    lemma_sp_expect_prefix(lit_open_type(), s2);
    lemma_sp_str_prefix(tag_error(), s3);
    lemma_sp_expect_prefix(lit_msg(), s4);
    lemma_sp_str_prefix(message, s5);
    lemma_sp_expect_prefix(lit_code(), s6);
    lemma_sp_str_prefix(code, s7);
    lemma_sp_expect_prefix(lit_corr(), s8);
    lemma_sp_uuid_prefix(u, s9);
    lemma_sp_expect_prefix(lit_uq_rb(), s10);
}

#[verifier::rlimit(100)]
#[verifier::spinoff_prover]
pub proof fn lemma_encode_decode_error_none(message: Seq<u8>, code: Seq<u8>)
    ensures
        spec_decode_hub(spec_encode_error(message, code, None)) == HubFrameV::Msg((HubMessageV::Error { message, code, correlation_id: None })),
{
    crate::lit::lemma_lit_shapes();
    crate::lit::lemma_tags_distinct();
    let e = spec_encode_error(message, code, None);
    let t1 = lit_open_type();
    let t2 = jstrc(tag_error());
    let t3 = lit_msg();
    let t4 = jstrc(message);
    let t5 = lit_code();
    let t6 = jstrc(code);
    let t7 = lit_rb();
    let p1 = t1;
    let p2 = p1 + t2;
    let p3 = p2 + t3;
    let p4 = p3 + t4;
    let p5 = p4 + t5;
    let p6 = p5 + t6;
    let p7 = p6 + t7;
    let se = Seq::<u8>::empty();
    let s8 = se;
    let s7 = t7 + s8;
    let s6 = t6 + s7;
    let s5 = t5 + s6;
    let s4 = t4 + s5;
    let s3 = t3 + s4;
    let s2 = t2 + s3;
    let s1 = t1 + s2;
    assert(e == p7);
    assert(p7 + se =~= p7);
    assert(e == p6 + s7) by {
        lemma_chain(p6, t7, s8);
    }
    assert(e == p5 + s6) by {
        lemma_chain(p5, t6, s7);
    }
    assert(e == p4 + s5) by {
        lemma_chain(p4, t5, s6);
    }
    assert(e == p3 + s4) by {
        lemma_chain(p3, t4, s5);
    }
    assert(e == p2 + s3) by {
        lemma_chain(p2, t3, s4);
    }
    assert(e == p1 + s2) by {
        lemma_chain(p1, t2, s3);
    }
    assert(e == s1);
    lemma_sp_expect_prefix(lit_open_type(), s2);
    lemma_sp_str_prefix(tag_error(), s3);
    lemma_sp_expect_prefix(lit_msg(), s4);
    lemma_sp_str_prefix(message, s5);
    lemma_sp_expect_prefix(lit_code(), s6);
    lemma_sp_str_prefix(code, s7);
    lemma_sp_expect_prefix(lit_rb(), s8);
}

/// Encoding an agent-to-hub message and parsing the frame back yields the
/// message again: the encode-then-decode round trip is the identity on every
/// wire variant of that direction.
pub proof fn lemma_agent_roundtrip(m: AgentMessageV)
    requires
        wf_agent_message(m),
    ensures
        spec_decode_agent(spec_encode_agent(m)) == AgentFrameV::Msg(m),
{
    match m {
        AgentMessageV::Register(i) => lemma_encode_decode_register(i),
        AgentMessageV::HeartbeatAck(a) => lemma_encode_decode_heartbeat_ack(a),
    }
}

/// Encoding a hub-to-agent message and parsing the frame back yields the
/// message again: the encode-then-decode round trip is the identity on every
/// wire variant of that direction.
pub proof fn lemma_hub_roundtrip(m: HubMessageV)
    ensures
        spec_decode_hub(spec_encode_hub(m)) == HubFrameV::Msg(m),
{
    match m {
        HubMessageV::RegisterAck(r) => lemma_encode_decode_register_ack(r),
        HubMessageV::Heartbeat(h) => lemma_encode_decode_heartbeat(h),
        HubMessageV::Error { message, code, correlation_id } => {
            match correlation_id {
                Some(u) => lemma_encode_decode_error_some(message, code, u),
                None => lemma_encode_decode_error_none(message, code),
            }
        },
    }
}

} // verus!
