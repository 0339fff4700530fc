//! The fixed byte fragments of the wire frames: object framing, keys,
//! variant tags and provider names, each as a specification constant paired
//! with a verified emitter. The comment beside each constant shows its ASCII
//! text.

use vstd::prelude::*;
use crate::escape::{esc, plain_byte, lemma_esc_plain};

verus! {

/// `{"type":"`
pub closed spec fn lit_open_type() -> Seq<u8> {
    seq![0x7b, 0x22, 0x74, 0x79, 0x70, 0x65, 0x22, 0x3a, 0x22]
}

/// Appends `{"type":"` to `out`.
pub fn emit_lit_open_type(out: &mut Vec<u8>)
    ensures
        final(out)@ == old(out)@ + lit_open_type(),
{
    out.push(0x7b);
    out.push(0x22);
    out.push(0x74);
    out.push(0x79);
    out.push(0x70);
    out.push(0x65);
    out.push(0x22);
    out.push(0x3a);
    out.push(0x22);
    proof {
        assert(out@ =~= old(out)@ + lit_open_type());
    }
}

/// `,"correlation_id":"`
pub closed spec fn lit_corr() -> Seq<u8> {
    seq![0x2c, 0x22, 0x63, 0x6f, 0x72, 0x72, 0x65, 0x6c, 0x61, 0x74, 0x69, 0x6f, 0x6e, 0x5f, 0x69, 0x64, 0x22, 0x3a, 0x22]
}

/// Appends `,"correlation_id":"` to `out`.
pub fn emit_lit_corr(out: &mut Vec<u8>)
    ensures
        final(out)@ == old(out)@ + lit_corr(),
{
    out.push(0x2c);
    out.push(0x22);
    out.push(0x63);
    out.push(0x6f);
    out.push(0x72);
    out.push(0x72);
    out.push(0x65);
    out.push(0x6c);
    out.push(0x61);
    out.push(0x74);
    out.push(0x69);
    out.push(0x6f);
    out.push(0x6e);
    out.push(0x5f);
    out.push(0x69);
    out.push(0x64);
    out.push(0x22);
    out.push(0x3a);
    out.push(0x22);
    proof {
        assert(out@ =~= old(out)@ + lit_corr());
    }
}

/// `","provider":"`
pub closed spec fn lit_uq_provider() -> Seq<u8> {
    seq![0x22, 0x2c, 0x22, 0x70, 0x72, 0x6f, 0x76, 0x69, 0x64, 0x65, 0x72, 0x22, 0x3a, 0x22]
}

/// Appends `","provider":"` to `out`.
pub fn emit_lit_uq_provider(out: &mut Vec<u8>)
    ensures
        final(out)@ == old(out)@ + lit_uq_provider(),
{
    out.push(0x22);
    out.push(0x2c);
    out.push(0x22);
    out.push(0x70);
    out.push(0x72);
    out.push(0x6f);
    out.push(0x76);
    out.push(0x69);
    out.push(0x64);
    out.push(0x65);
    out.push(0x72);
    out.push(0x22);
    out.push(0x3a);
    out.push(0x22);
    proof {
        assert(out@ =~= old(out)@ + lit_uq_provider());
    }
}

/// `,"provider_instance_id":"`
pub closed spec fn lit_pid() -> Seq<u8> {
    seq![0x2c, 0x22, 0x70, 0x72, 0x6f, 0x76, 0x69, 0x64, 0x65, 0x72, 0x5f, 0x69, 0x6e, 0x73, 0x74, 0x61, 0x6e, 0x63, 0x65, 0x5f, 0x69, 0x64, 0x22, 0x3a, 0x22]
}

/// Appends `,"provider_instance_id":"` to `out`.
pub fn emit_lit_pid(out: &mut Vec<u8>)
    ensures
        final(out)@ == old(out)@ + lit_pid(),
{
    out.push(0x2c);
    out.push(0x22);
    out.push(0x70);
    out.push(0x72);
    out.push(0x6f);
    out.push(0x76);
    out.push(0x69);
    out.push(0x64);
    out.push(0x65);
    out.push(0x72);
    out.push(0x5f);
    out.push(0x69);
    out.push(0x6e);
    out.push(0x73);
    out.push(0x74);
    out.push(0x61);
    out.push(0x6e);
    out.push(0x63);
    out.push(0x65);
    out.push(0x5f);
    out.push(0x69);
    out.push(0x64);
    out.push(0x22);
    out.push(0x3a);
    out.push(0x22);
    proof {
        assert(out@ =~= old(out)@ + lit_pid());
    }
}

/// `,"hostname":"`
pub closed spec fn lit_host() -> Seq<u8> {
    seq![0x2c, 0x22, 0x68, 0x6f, 0x73, 0x74, 0x6e, 0x61, 0x6d, 0x65, 0x22, 0x3a, 0x22]
}

/// Appends `,"hostname":"` to `out`.
pub fn emit_lit_host(out: &mut Vec<u8>)
    ensures
        final(out)@ == old(out)@ + lit_host(),
{
    out.push(0x2c);
    out.push(0x22);
    out.push(0x68);
    out.push(0x6f);
    out.push(0x73);
    out.push(0x74);
    out.push(0x6e);
    out.push(0x61);
    out.push(0x6d);
    out.push(0x65);
    out.push(0x22);
    out.push(0x3a);
    out.push(0x22);
    proof {
        assert(out@ =~= old(out)@ + lit_host());
    }
}

/// `,"gpu_info":{"name":"`
pub closed spec fn lit_gpu_name() -> Seq<u8> {
    seq![0x2c, 0x22, 0x67, 0x70, 0x75, 0x5f, 0x69, 0x6e, 0x66, 0x6f, 0x22, 0x3a, 0x7b, 0x22, 0x6e, 0x61, 0x6d, 0x65, 0x22, 0x3a, 0x22]
}

/// Appends `,"gpu_info":{"name":"` to `out`.
pub fn emit_lit_gpu_name(out: &mut Vec<u8>)
    ensures
        final(out)@ == old(out)@ + lit_gpu_name(),
{
    out.push(0x2c);
    out.push(0x22);
    out.push(0x67);
    out.push(0x70);
    out.push(0x75);
    out.push(0x5f);
    out.push(0x69);
    out.push(0x6e);
    out.push(0x66);
    out.push(0x6f);
    out.push(0x22);
    out.push(0x3a);
    out.push(0x7b);
    out.push(0x22);
    out.push(0x6e);
    out.push(0x61);
    out.push(0x6d);
    out.push(0x65);
    out.push(0x22);
    out.push(0x3a);
    out.push(0x22);
    proof {
        assert(out@ =~= old(out)@ + lit_gpu_name());
    }
}

/// `,"memory_gb":`
pub closed spec fn lit_mem() -> Seq<u8> {
    seq![0x2c, 0x22, 0x6d, 0x65, 0x6d, 0x6f, 0x72, 0x79, 0x5f, 0x67, 0x62, 0x22, 0x3a]
}

/// Appends `,"memory_gb":` to `out`.
pub fn emit_lit_mem(out: &mut Vec<u8>)
    ensures
        final(out)@ == old(out)@ + lit_mem(),
{
    out.push(0x2c);
    out.push(0x22);
    out.push(0x6d);
    out.push(0x65);
    out.push(0x6d);
    out.push(0x6f);
    out.push(0x72);
    out.push(0x79);
    out.push(0x5f);
    out.push(0x67);
    out.push(0x62);
    out.push(0x22);
    out.push(0x3a);
    proof {
        assert(out@ =~= old(out)@ + lit_mem());
    }
}

/// `,"cuda_version":"`
pub closed spec fn lit_cuda() -> Seq<u8> {
    seq![0x2c, 0x22, 0x63, 0x75, 0x64, 0x61, 0x5f, 0x76, 0x65, 0x72, 0x73, 0x69, 0x6f, 0x6e, 0x22, 0x3a, 0x22]
}

/// Appends `,"cuda_version":"` to `out`.
pub fn emit_lit_cuda(out: &mut Vec<u8>)
    ensures
        final(out)@ == old(out)@ + lit_cuda(),
{
    out.push(0x2c);
    out.push(0x22);
    out.push(0x63);
    out.push(0x75);
    out.push(0x64);
    out.push(0x61);
    out.push(0x5f);
    out.push(0x76);
    out.push(0x65);
    out.push(0x72);
    out.push(0x73);
    out.push(0x69);
    out.push(0x6f);
    out.push(0x6e);
    out.push(0x22);
    out.push(0x3a);
    out.push(0x22);
    proof {
        assert(out@ =~= old(out)@ + lit_cuda());
    }
}

/// `,"compute_capability":"`
pub closed spec fn lit_cc() -> Seq<u8> {
    seq![0x2c, 0x22, 0x63, 0x6f, 0x6d, 0x70, 0x75, 0x74, 0x65, 0x5f, 0x63, 0x61, 0x70, 0x61, 0x62, 0x69, 0x6c, 0x69, 0x74, 0x79, 0x22, 0x3a, 0x22]
}

/// Appends `,"compute_capability":"` to `out`.
pub fn emit_lit_cc(out: &mut Vec<u8>)
    ensures
        final(out)@ == old(out)@ + lit_cc(),
{
    out.push(0x2c);
    out.push(0x22);
    out.push(0x63);
    out.push(0x6f);
    out.push(0x6d);
    out.push(0x70);
    out.push(0x75);
    out.push(0x74);
    out.push(0x65);
    out.push(0x5f);
    out.push(0x63);
    out.push(0x61);
    out.push(0x70);
    out.push(0x61);
    out.push(0x62);
    out.push(0x69);
    out.push(0x6c);
    out.push(0x69);
    out.push(0x74);
    out.push(0x79);
    out.push(0x22);
    out.push(0x3a);
    out.push(0x22);
    proof {
        assert(out@ =~= old(out)@ + lit_cc());
    }
}

/// `},"tailscale_ip":"`
pub closed spec fn lit_gpu_end() -> Seq<u8> {
    seq![0x7d, 0x2c, 0x22, 0x74, 0x61, 0x69, 0x6c, 0x73, 0x63, 0x61, 0x6c, 0x65, 0x5f, 0x69, 0x70, 0x22, 0x3a, 0x22]
}

/// Appends `},"tailscale_ip":"` to `out`.
pub fn emit_lit_gpu_end(out: &mut Vec<u8>)
    ensures
        final(out)@ == old(out)@ + lit_gpu_end(),
{
    out.push(0x7d);
    out.push(0x2c);
    out.push(0x22);
    out.push(0x74);
    out.push(0x61);
    out.push(0x69);
    out.push(0x6c);
    out.push(0x73);
    out.push(0x63);
    out.push(0x61);
    out.push(0x6c);
    out.push(0x65);
    out.push(0x5f);
    out.push(0x69);
    out.push(0x70);
    out.push(0x22);
    out.push(0x3a);
    out.push(0x22);
    proof {
        assert(out@ =~= old(out)@ + lit_gpu_end());
    }
}

/// `,"agent_version":"`
pub closed spec fn lit_ver() -> Seq<u8> {
    seq![0x2c, 0x22, 0x61, 0x67, 0x65, 0x6e, 0x74, 0x5f, 0x76, 0x65, 0x72, 0x73, 0x69, 0x6f, 0x6e, 0x22, 0x3a, 0x22]
}

/// Appends `,"agent_version":"` to `out`.
pub fn emit_lit_ver(out: &mut Vec<u8>)
    ensures
        final(out)@ == old(out)@ + lit_ver(),
{
    out.push(0x2c);
    out.push(0x22);
    out.push(0x61);
    out.push(0x67);
    out.push(0x65);
    out.push(0x6e);
    out.push(0x74);
    out.push(0x5f);
    out.push(0x76);
    out.push(0x65);
    out.push(0x72);
    out.push(0x73);
    out.push(0x69);
    out.push(0x6f);
    out.push(0x6e);
    out.push(0x22);
    out.push(0x3a);
    out.push(0x22);
    proof {
        assert(out@ =~= old(out)@ + lit_ver());
    }
}

/// `}`
pub closed spec fn lit_rb() -> Seq<u8> {
    seq![0x7d]
}

/// Appends `}` to `out`.
pub fn emit_lit_rb(out: &mut Vec<u8>)
    ensures
        final(out)@ == old(out)@ + lit_rb(),
{
    out.push(0x7d);
    proof {
        assert(out@ =~= old(out)@ + lit_rb());
    }
}

/// `","timestamp":"`
pub closed spec fn lit_uq_ts() -> Seq<u8> {
    seq![0x22, 0x2c, 0x22, 0x74, 0x69, 0x6d, 0x65, 0x73, 0x74, 0x61, 0x6d, 0x70, 0x22, 0x3a, 0x22]
}

/// Appends `","timestamp":"` to `out`.
pub fn emit_lit_uq_ts(out: &mut Vec<u8>)
    ensures
        final(out)@ == old(out)@ + lit_uq_ts(),
{
    out.push(0x22);
    out.push(0x2c);
    out.push(0x22);
    out.push(0x74);
    out.push(0x69);
    out.push(0x6d);
    out.push(0x65);
    out.push(0x73);
    out.push(0x74);
    out.push(0x61);
    out.push(0x6d);
    out.push(0x70);
    out.push(0x22);
    out.push(0x3a);
    out.push(0x22);
    proof {
        assert(out@ =~= old(out)@ + lit_uq_ts());
    }
}

/// `","agent_id":"`
pub closed spec fn lit_uq_agent_id() -> Seq<u8> {
    seq![0x22, 0x2c, 0x22, 0x61, 0x67, 0x65, 0x6e, 0x74, 0x5f, 0x69, 0x64, 0x22, 0x3a, 0x22]
}

/// Appends `","agent_id":"` to `out`.
pub fn emit_lit_uq_agent_id(out: &mut Vec<u8>)
    ensures
        final(out)@ == old(out)@ + lit_uq_agent_id(),
{
    out.push(0x22);
    out.push(0x2c);
    out.push(0x22);
    out.push(0x61);
    out.push(0x67);
    out.push(0x65);
    out.push(0x6e);
    out.push(0x74);
    out.push(0x5f);
    out.push(0x69);
    out.push(0x64);
    out.push(0x22);
    out.push(0x3a);
    out.push(0x22);
    proof {
        assert(out@ =~= old(out)@ + lit_uq_agent_id());
    }
}

/// `","registered_at":"`
pub closed spec fn lit_uq_reg_at() -> Seq<u8> {
    seq![0x22, 0x2c, 0x22, 0x72, 0x65, 0x67, 0x69, 0x73, 0x74, 0x65, 0x72, 0x65, 0x64, 0x5f, 0x61, 0x74, 0x22, 0x3a, 0x22]
}

/// Appends `","registered_at":"` to `out`.
pub fn emit_lit_uq_reg_at(out: &mut Vec<u8>)
    ensures
        final(out)@ == old(out)@ + lit_uq_reg_at(),
{
    out.push(0x22);
    out.push(0x2c);
    out.push(0x22);
    out.push(0x72);
    out.push(0x65);
    out.push(0x67);
    out.push(0x69);
    out.push(0x73);
    out.push(0x74);
    out.push(0x65);
    out.push(0x72);
    out.push(0x65);
    out.push(0x64);
    out.push(0x5f);
    out.push(0x61);
    out.push(0x74);
    out.push(0x22);
    out.push(0x3a);
    out.push(0x22);
    proof {
        assert(out@ =~= old(out)@ + lit_uq_reg_at());
    }
}

/// `,"hub_version":"`
pub closed spec fn lit_hub_ver() -> Seq<u8> {
    seq![0x2c, 0x22, 0x68, 0x75, 0x62, 0x5f, 0x76, 0x65, 0x72, 0x73, 0x69, 0x6f, 0x6e, 0x22, 0x3a, 0x22]
}

/// Appends `,"hub_version":"` to `out`.
pub fn emit_lit_hub_ver(out: &mut Vec<u8>)
    ensures
        final(out)@ == old(out)@ + lit_hub_ver(),
{
    out.push(0x2c);
    out.push(0x22);
    out.push(0x68);
    out.push(0x75);
    out.push(0x62);
    out.push(0x5f);
    out.push(0x76);
    out.push(0x65);
    out.push(0x72);
    out.push(0x73);
    out.push(0x69);
    out.push(0x6f);
    out.push(0x6e);
    out.push(0x22);
    out.push(0x3a);
    out.push(0x22);
    proof {
        assert(out@ =~= old(out)@ + lit_hub_ver());
    }
}

/// `,"sequence":`
pub closed spec fn lit_seq() -> Seq<u8> {
    seq![0x2c, 0x22, 0x73, 0x65, 0x71, 0x75, 0x65, 0x6e, 0x63, 0x65, 0x22, 0x3a]
}

/// Appends `,"sequence":` to `out`.
pub fn emit_lit_seq(out: &mut Vec<u8>)
    ensures
        final(out)@ == old(out)@ + lit_seq(),
{
    out.push(0x2c);
    out.push(0x22);
    out.push(0x73);
    out.push(0x65);
    out.push(0x71);
    out.push(0x75);
    out.push(0x65);
    out.push(0x6e);
    out.push(0x63);
    out.push(0x65);
    out.push(0x22);
    out.push(0x3a);
    proof {
        assert(out@ =~= old(out)@ + lit_seq());
    }
}

/// `,"message":"`
pub closed spec fn lit_msg() -> Seq<u8> {
    seq![0x2c, 0x22, 0x6d, 0x65, 0x73, 0x73, 0x61, 0x67, 0x65, 0x22, 0x3a, 0x22]
}

/// Appends `,"message":"` to `out`.
pub fn emit_lit_msg(out: &mut Vec<u8>)
    ensures
        final(out)@ == old(out)@ + lit_msg(),
{
    out.push(0x2c);
    out.push(0x22);
    out.push(0x6d);
    out.push(0x65);
    out.push(0x73);
    out.push(0x73);
    out.push(0x61);
    out.push(0x67);
    out.push(0x65);
    out.push(0x22);
    out.push(0x3a);
    out.push(0x22);
    proof {
        assert(out@ =~= old(out)@ + lit_msg());
    }
}

/// `,"code":"`
pub closed spec fn lit_code() -> Seq<u8> {
    seq![0x2c, 0x22, 0x63, 0x6f, 0x64, 0x65, 0x22, 0x3a, 0x22]
}

/// Appends `,"code":"` to `out`.
pub fn emit_lit_code(out: &mut Vec<u8>)
    ensures
        final(out)@ == old(out)@ + lit_code(),
{
    out.push(0x2c);
    out.push(0x22);
    out.push(0x63);
    out.push(0x6f);
    out.push(0x64);
    out.push(0x65);
    out.push(0x22);
    out.push(0x3a);
    out.push(0x22);
    proof {
        assert(out@ =~= old(out)@ + lit_code());
    }
}

/// `"}`
pub closed spec fn lit_uq_rb() -> Seq<u8> {
    seq![0x22, 0x7d]
}

/// Appends `"}` to `out`.
pub fn emit_lit_uq_rb(out: &mut Vec<u8>)
    ensures
        final(out)@ == old(out)@ + lit_uq_rb(),
{
    out.push(0x22);
    out.push(0x7d);
    proof {
        assert(out@ =~= old(out)@ + lit_uq_rb());
    }
}

/// `register`
pub closed spec fn tag_register() -> Seq<u8> {
    seq![0x72, 0x65, 0x67, 0x69, 0x73, 0x74, 0x65, 0x72]
}

/// Appends `register` to `out`.
pub fn emit_tag_register(out: &mut Vec<u8>)
    ensures
        final(out)@ == old(out)@ + tag_register(),
{
    out.push(0x72);
    out.push(0x65);
    out.push(0x67);
    out.push(0x69);
    out.push(0x73);
    out.push(0x74);
    out.push(0x65);
    out.push(0x72);
    proof {
        assert(out@ =~= old(out)@ + tag_register());
    }
}

/// `heartbeat_ack`
pub closed spec fn tag_heartbeat_ack() -> Seq<u8> {
    seq![0x68, 0x65, 0x61, 0x72, 0x74, 0x62, 0x65, 0x61, 0x74, 0x5f, 0x61, 0x63, 0x6b]
}

/// Appends `heartbeat_ack` to `out`.
pub fn emit_tag_heartbeat_ack(out: &mut Vec<u8>)
    ensures
        final(out)@ == old(out)@ + tag_heartbeat_ack(),
{
    out.push(0x68);
    out.push(0x65);
    out.push(0x61);
    out.push(0x72);
    out.push(0x74);
    out.push(0x62);
    out.push(0x65);
    out.push(0x61);
    out.push(0x74);
    out.push(0x5f);
    out.push(0x61);
    out.push(0x63);
    out.push(0x6b);
    proof {
        assert(out@ =~= old(out)@ + tag_heartbeat_ack());
    }
}

/// `register_ack`
pub closed spec fn tag_register_ack() -> Seq<u8> {
    seq![0x72, 0x65, 0x67, 0x69, 0x73, 0x74, 0x65, 0x72, 0x5f, 0x61, 0x63, 0x6b]
}

/// Appends `register_ack` to `out`.
pub fn emit_tag_register_ack(out: &mut Vec<u8>)
    ensures
        final(out)@ == old(out)@ + tag_register_ack(),
{
    out.push(0x72);
    out.push(0x65);
    out.push(0x67);
    out.push(0x69);
    out.push(0x73);
    out.push(0x74);
    out.push(0x65);
    out.push(0x72);
    out.push(0x5f);
    out.push(0x61);
    out.push(0x63);
    out.push(0x6b);
    proof {
        assert(out@ =~= old(out)@ + tag_register_ack());
    }
}

/// `heartbeat`
pub closed spec fn tag_heartbeat() -> Seq<u8> {
    seq![0x68, 0x65, 0x61, 0x72, 0x74, 0x62, 0x65, 0x61, 0x74]
}

/// Appends `heartbeat` to `out`.
pub fn emit_tag_heartbeat(out: &mut Vec<u8>)
    ensures
        final(out)@ == old(out)@ + tag_heartbeat(),
{
    out.push(0x68);
    out.push(0x65);
    out.push(0x61);
    out.push(0x72);
    out.push(0x74);
    out.push(0x62);
    out.push(0x65);
    out.push(0x61);
    out.push(0x74);
    proof {
        assert(out@ =~= old(out)@ + tag_heartbeat());
    }
}

/// `error`
pub closed spec fn tag_error() -> Seq<u8> {
    seq![0x65, 0x72, 0x72, 0x6f, 0x72]
}

/// Appends `error` to `out`.
pub fn emit_tag_error(out: &mut Vec<u8>)
    ensures
        final(out)@ == old(out)@ + tag_error(),
{
    out.push(0x65);
    out.push(0x72);
    out.push(0x72);
    out.push(0x6f);
    out.push(0x72);
    proof {
        assert(out@ =~= old(out)@ + tag_error());
    }
}

/// `vastai`
pub closed spec fn prov_vastai() -> Seq<u8> {
    seq![0x76, 0x61, 0x73, 0x74, 0x61, 0x69]
}

/// Appends `vastai` to `out`.
pub fn emit_prov_vastai(out: &mut Vec<u8>)
    ensures
        final(out)@ == old(out)@ + prov_vastai(),
{
    out.push(0x76);
    out.push(0x61);
    out.push(0x73);
    out.push(0x74);
    out.push(0x61);
    out.push(0x69);
    proof {
        assert(out@ =~= old(out)@ + prov_vastai());
    }
}

/// `runpod`
pub closed spec fn prov_runpod() -> Seq<u8> {
    seq![0x72, 0x75, 0x6e, 0x70, 0x6f, 0x64]
}

/// Appends `runpod` to `out`.
pub fn emit_prov_runpod(out: &mut Vec<u8>)
    ensures
        final(out)@ == old(out)@ + prov_runpod(),
{
    out.push(0x72);
    out.push(0x75);
    out.push(0x6e);
    out.push(0x70);
    out.push(0x6f);
    out.push(0x64);
    proof {
        assert(out@ =~= old(out)@ + prov_runpod());
    }
}

/// `local`
pub closed spec fn prov_local() -> Seq<u8> {
    seq![0x6c, 0x6f, 0x63, 0x61, 0x6c]
}

/// Appends `local` to `out`.
pub fn emit_prov_local(out: &mut Vec<u8>)
    ensures
        final(out)@ == old(out)@ + prov_local(),
{
    out.push(0x6c);
    out.push(0x6f);
    out.push(0x63);
    out.push(0x61);
    out.push(0x6c);
    proof {
        assert(out@ =~= old(out)@ + prov_local());
    }
}

/// The bytes of `lit_open_type` as a vector.
pub fn vec_lit_open_type() -> (v: Vec<u8>)
    ensures
        v@ == lit_open_type(),
{
    let mut v: Vec<u8> = Vec::new();
    emit_lit_open_type(&mut v);
    proof {
        assert(v@ =~= lit_open_type());
    }
    v
}

/// The bytes of `lit_corr` as a vector.
pub fn vec_lit_corr() -> (v: Vec<u8>)
    ensures
        v@ == lit_corr(),
{
    let mut v: Vec<u8> = Vec::new();
    emit_lit_corr(&mut v);
    proof {
        assert(v@ =~= lit_corr());
    }
    v
}

/// The bytes of `lit_uq_provider` as a vector.
pub fn vec_lit_uq_provider() -> (v: Vec<u8>)
    ensures
        v@ == lit_uq_provider(),
{
    let mut v: Vec<u8> = Vec::new();
    emit_lit_uq_provider(&mut v);
    proof {
        assert(v@ =~= lit_uq_provider());
    }
    v
}

/// The bytes of `lit_pid` as a vector.
pub fn vec_lit_pid() -> (v: Vec<u8>)
    ensures
        v@ == lit_pid(),
{
    let mut v: Vec<u8> = Vec::new();
    emit_lit_pid(&mut v);
    proof {
        assert(v@ =~= lit_pid());
    }
    v
}

/// The bytes of `lit_host` as a vector.
pub fn vec_lit_host() -> (v: Vec<u8>)
    ensures
        v@ == lit_host(),
{
    let mut v: Vec<u8> = Vec::new();
    emit_lit_host(&mut v);
    proof {
        assert(v@ =~= lit_host());
    }
    v
}

/// The bytes of `lit_gpu_name` as a vector.
pub fn vec_lit_gpu_name() -> (v: Vec<u8>)
    ensures
        v@ == lit_gpu_name(),
{
    let mut v: Vec<u8> = Vec::new();
    emit_lit_gpu_name(&mut v);
    proof {
        assert(v@ =~= lit_gpu_name());
    }
    v
}

/// The bytes of `lit_mem` as a vector.
pub fn vec_lit_mem() -> (v: Vec<u8>)
    ensures
        v@ == lit_mem(),
{
    let mut v: Vec<u8> = Vec::new();
    emit_lit_mem(&mut v);
    proof {
        assert(v@ =~= lit_mem());
    }
    v
}

/// The bytes of `lit_cuda` as a vector.
pub fn vec_lit_cuda() -> (v: Vec<u8>)
    ensures
        v@ == lit_cuda(),
{
    let mut v: Vec<u8> = Vec::new();
    emit_lit_cuda(&mut v);
    proof {
        assert(v@ =~= lit_cuda());
    }
    v
}

/// The bytes of `lit_cc` as a vector.
pub fn vec_lit_cc() -> (v: Vec<u8>)
    ensures
        v@ == lit_cc(),
{
    let mut v: Vec<u8> = Vec::new();
    emit_lit_cc(&mut v);
    proof {
        assert(v@ =~= lit_cc());
    }
    v
}

/// The bytes of `lit_gpu_end` as a vector.
pub fn vec_lit_gpu_end() -> (v: Vec<u8>)
    ensures
        v@ == lit_gpu_end(),
{
    let mut v: Vec<u8> = Vec::new();
    emit_lit_gpu_end(&mut v);
    proof {
        assert(v@ =~= lit_gpu_end());
    }
    v
}

/// The bytes of `lit_ver` as a vector.
pub fn vec_lit_ver() -> (v: Vec<u8>)
    ensures
        v@ == lit_ver(),
{
    let mut v: Vec<u8> = Vec::new();
    emit_lit_ver(&mut v);
    proof {
        assert(v@ =~= lit_ver());
    }
    v
}

/// The bytes of `lit_rb` as a vector.
pub fn vec_lit_rb() -> (v: Vec<u8>)
    ensures
        v@ == lit_rb(),
{
    let mut v: Vec<u8> = Vec::new();
    emit_lit_rb(&mut v);
    proof {
        assert(v@ =~= lit_rb());
    }
    v
}

/// The bytes of `lit_uq_ts` as a vector.
pub fn vec_lit_uq_ts() -> (v: Vec<u8>)
    ensures
        v@ == lit_uq_ts(),
{
    let mut v: Vec<u8> = Vec::new();
    emit_lit_uq_ts(&mut v);
    proof {
        assert(v@ =~= lit_uq_ts());
    }
    v
}

/// The bytes of `lit_uq_agent_id` as a vector.
pub fn vec_lit_uq_agent_id() -> (v: Vec<u8>)
    ensures
        v@ == lit_uq_agent_id(),
{
    let mut v: Vec<u8> = Vec::new();
    emit_lit_uq_agent_id(&mut v);
    proof {
        assert(v@ =~= lit_uq_agent_id());
    }
    v
}

/// The bytes of `lit_uq_reg_at` as a vector.
pub fn vec_lit_uq_reg_at() -> (v: Vec<u8>)
    ensures
        v@ == lit_uq_reg_at(),
{
    let mut v: Vec<u8> = Vec::new();
    emit_lit_uq_reg_at(&mut v);
    proof {
        assert(v@ =~= lit_uq_reg_at());
    }
    v
}

/// The bytes of `lit_hub_ver` as a vector.
pub fn vec_lit_hub_ver() -> (v: Vec<u8>)
    ensures
        v@ == lit_hub_ver(),
{
    let mut v: Vec<u8> = Vec::new();
    emit_lit_hub_ver(&mut v);
    proof {
        assert(v@ =~= lit_hub_ver());
    }
    v
}

/// The bytes of `lit_seq` as a vector.
pub fn vec_lit_seq() -> (v: Vec<u8>)
    ensures
        v@ == lit_seq(),
{
    let mut v: Vec<u8> = Vec::new();
    emit_lit_seq(&mut v);
    proof {
        assert(v@ =~= lit_seq());
    }
    v
}

/// The bytes of `lit_msg` as a vector.
pub fn vec_lit_msg() -> (v: Vec<u8>)
    ensures
        v@ == lit_msg(),
{
    let mut v: Vec<u8> = Vec::new();
    emit_lit_msg(&mut v);
    proof {
        assert(v@ =~= lit_msg());
    }
    v
}

/// The bytes of `lit_code` as a vector.
pub fn vec_lit_code() -> (v: Vec<u8>)
    ensures
        v@ == lit_code(),
{
    let mut v: Vec<u8> = Vec::new();
    emit_lit_code(&mut v);
    proof {
        assert(v@ =~= lit_code());
    }
    v
}

/// The bytes of `lit_uq_rb` as a vector.
pub fn vec_lit_uq_rb() -> (v: Vec<u8>)
    ensures
        v@ == lit_uq_rb(),
{
    let mut v: Vec<u8> = Vec::new();
    emit_lit_uq_rb(&mut v);
    proof {
        assert(v@ =~= lit_uq_rb());
    }
    v
}

/// The bytes of `tag_register` as a vector.
pub fn vec_tag_register() -> (v: Vec<u8>)
    ensures
        v@ == tag_register(),
{
    let mut v: Vec<u8> = Vec::new();
    emit_tag_register(&mut v);
    proof {
        assert(v@ =~= tag_register());
    }
    v
}

/// The bytes of `tag_heartbeat_ack` as a vector.
pub fn vec_tag_heartbeat_ack() -> (v: Vec<u8>)
    ensures
        v@ == tag_heartbeat_ack(),
{
    let mut v: Vec<u8> = Vec::new();
    emit_tag_heartbeat_ack(&mut v);
    proof {
        assert(v@ =~= tag_heartbeat_ack());
    }
    v
}

/// The bytes of `tag_register_ack` as a vector.
pub fn vec_tag_register_ack() -> (v: Vec<u8>)
    ensures
        v@ == tag_register_ack(),
{
    let mut v: Vec<u8> = Vec::new();
    emit_tag_register_ack(&mut v);
    proof {
        assert(v@ =~= tag_register_ack());
    }
    v
}

/// The bytes of `tag_heartbeat` as a vector.
pub fn vec_tag_heartbeat() -> (v: Vec<u8>)
    ensures
        v@ == tag_heartbeat(),
{
    let mut v: Vec<u8> = Vec::new();
    emit_tag_heartbeat(&mut v);
    proof {
        assert(v@ =~= tag_heartbeat());
    }
    v
}

/// The bytes of `tag_error` as a vector.
pub fn vec_tag_error() -> (v: Vec<u8>)
    ensures
        v@ == tag_error(),
{
    let mut v: Vec<u8> = Vec::new();
    emit_tag_error(&mut v);
    proof {
        assert(v@ =~= tag_error());
    }
    v
}

/// The bytes of `prov_vastai` as a vector.
pub fn vec_prov_vastai() -> (v: Vec<u8>)
    ensures
        v@ == prov_vastai(),
{
    let mut v: Vec<u8> = Vec::new();
    emit_prov_vastai(&mut v);
    proof {
        assert(v@ =~= prov_vastai());
    }
    v
}

/// The bytes of `prov_runpod` as a vector.
pub fn vec_prov_runpod() -> (v: Vec<u8>)
    ensures
        v@ == prov_runpod(),
{
    let mut v: Vec<u8> = Vec::new();
    emit_prov_runpod(&mut v);
    proof {
        assert(v@ =~= prov_runpod());
    }
    v
}

/// The bytes of `prov_local` as a vector.
pub fn vec_prov_local() -> (v: Vec<u8>)
    ensures
        v@ == prov_local(),
{
    let mut v: Vec<u8> = Vec::new();
    emit_prov_local(&mut v);
    proof {
        assert(v@ =~= prov_local());
    }
    v
}


/// `unknown_message`
pub closed spec fn code_unknown_message() -> Seq<u8> {
    seq![0x75, 0x6e, 0x6b, 0x6e, 0x6f, 0x77, 0x6e, 0x5f, 0x6d, 0x65, 0x73, 0x73, 0x61, 0x67, 0x65]
}

/// Appends `unknown_message` to `out`.
pub fn emit_code_unknown_message(out: &mut Vec<u8>)
    ensures
        final(out)@ == old(out)@ + code_unknown_message(),
{
    out.push(0x75);
    out.push(0x6e);
    out.push(0x6b);
    out.push(0x6e);
    out.push(0x6f);
    out.push(0x77);
    out.push(0x6e);
    out.push(0x5f);
    out.push(0x6d);
    out.push(0x65);
    out.push(0x73);
    out.push(0x73);
    out.push(0x61);
    out.push(0x67);
    out.push(0x65);
    proof {
        assert(out@ =~= old(out)@ + code_unknown_message());
    }
}

/// The bytes of `code_unknown_message` as a vector.
pub fn vec_code_unknown_message() -> (v: Vec<u8>)
    ensures
        v@ == code_unknown_message(),
{
    let mut v: Vec<u8> = Vec::new();
    emit_code_unknown_message(&mut v);
    proof {
        assert(v@ =~= code_unknown_message());
    }
    v
}

/// `registration_failed`
pub closed spec fn code_registration_failed() -> Seq<u8> {
    seq![0x72, 0x65, 0x67, 0x69, 0x73, 0x74, 0x72, 0x61, 0x74, 0x69, 0x6f, 0x6e, 0x5f, 0x66, 0x61, 0x69, 0x6c, 0x65, 0x64]
}

/// Appends `registration_failed` to `out`.
pub fn emit_code_registration_failed(out: &mut Vec<u8>)
    ensures
        final(out)@ == old(out)@ + code_registration_failed(),
{
    out.push(0x72);
    out.push(0x65);
    out.push(0x67);
    out.push(0x69);
    out.push(0x73);
    out.push(0x74);
    out.push(0x72);
    out.push(0x61);
    out.push(0x74);
    out.push(0x69);
    out.push(0x6f);
    out.push(0x6e);
    out.push(0x5f);
    out.push(0x66);
    out.push(0x61);
    out.push(0x69);
    out.push(0x6c);
    out.push(0x65);
    out.push(0x64);
    proof {
        assert(out@ =~= old(out)@ + code_registration_failed());
    }
}

/// The bytes of `code_registration_failed` as a vector.
pub fn vec_code_registration_failed() -> (v: Vec<u8>)
    ensures
        v@ == code_registration_failed(),
{
    let mut v: Vec<u8> = Vec::new();
    emit_code_registration_failed(&mut v);
    proof {
        assert(v@ =~= code_registration_failed());
    }
    v
}

/// `unrecognized message type`
pub closed spec fn msg_unknown_type() -> Seq<u8> {
    seq![0x75, 0x6e, 0x72, 0x65, 0x63, 0x6f, 0x67, 0x6e, 0x69, 0x7a, 0x65, 0x64, 0x20, 0x6d, 0x65, 0x73, 0x73, 0x61, 0x67, 0x65, 0x20, 0x74, 0x79, 0x70, 0x65]
}

/// Appends `unrecognized message type` to `out`.
pub fn emit_msg_unknown_type(out: &mut Vec<u8>)
    ensures
        final(out)@ == old(out)@ + msg_unknown_type(),
{
    out.push(0x75);
    out.push(0x6e);
    out.push(0x72);
    out.push(0x65);
    out.push(0x63);
    out.push(0x6f);
    out.push(0x67);
    out.push(0x6e);
    out.push(0x69);
    out.push(0x7a);
    out.push(0x65);
    out.push(0x64);
    out.push(0x20);
    out.push(0x6d);
    out.push(0x65);
    out.push(0x73);
    out.push(0x73);
    out.push(0x61);
    out.push(0x67);
    out.push(0x65);
    out.push(0x20);
    out.push(0x74);
    out.push(0x79);
    out.push(0x70);
    out.push(0x65);
    proof {
        assert(out@ =~= old(out)@ + msg_unknown_type());
    }
}

/// The bytes of `msg_unknown_type` as a vector.
pub fn vec_msg_unknown_type() -> (v: Vec<u8>)
    ensures
        v@ == msg_unknown_type(),
{
    let mut v: Vec<u8> = Vec::new();
    emit_msg_unknown_type(&mut v);
    proof {
        assert(v@ =~= msg_unknown_type());
    }
    v
}

/// `registration could not be persisted`
pub closed spec fn msg_registration_failed() -> Seq<u8> {
    seq![0x72, 0x65, 0x67, 0x69, 0x73, 0x74, 0x72, 0x61, 0x74, 0x69, 0x6f, 0x6e, 0x20, 0x63, 0x6f, 0x75, 0x6c, 0x64, 0x20, 0x6e, 0x6f, 0x74, 0x20, 0x62, 0x65, 0x20, 0x70, 0x65, 0x72, 0x73, 0x69, 0x73, 0x74, 0x65, 0x64]
}

/// Appends `registration could not be persisted` to `out`.
pub fn emit_msg_registration_failed(out: &mut Vec<u8>)
    ensures
        final(out)@ == old(out)@ + msg_registration_failed(),
{
    out.push(0x72);
    out.push(0x65);
    out.push(0x67);
    out.push(0x69);
    out.push(0x73);
    out.push(0x74);
    out.push(0x72);
    out.push(0x61);
    out.push(0x74);
    out.push(0x69);
    out.push(0x6f);
    out.push(0x6e);
    out.push(0x20);
    out.push(0x63);
    out.push(0x6f);
    out.push(0x75);
    out.push(0x6c);
    out.push(0x64);
    out.push(0x20);
    out.push(0x6e);
    out.push(0x6f);
    out.push(0x74);
    out.push(0x20);
    out.push(0x62);
    out.push(0x65);
    out.push(0x20);
    out.push(0x70);
    out.push(0x65);
    out.push(0x72);
    out.push(0x73);
    out.push(0x69);
    out.push(0x73);
    out.push(0x74);
    out.push(0x65);
    out.push(0x64);
    proof {
        assert(out@ =~= old(out)@ + msg_registration_failed());
    }
}

/// The bytes of `msg_registration_failed` as a vector.
pub fn vec_msg_registration_failed() -> (v: Vec<u8>)
    ensures
        v@ == msg_registration_failed(),
{
    let mut v: Vec<u8> = Vec::new();
    emit_msg_registration_failed(&mut v);
    proof {
        assert(v@ =~= msg_registration_failed());
    }
    v
}

/// The shapes of the fragments that the parsing proofs consult: the closing
/// braces, and the first byte and presence of the fragments that follow a
/// bare numeric value or an optional member.
pub proof fn lemma_lit_shapes()
    ensures
        lit_rb().len() == 1,
        lit_rb()[0] == 0x7d,
        lit_uq_rb().len() == 2,
        lit_corr().len() == 19,
        lit_cc().len() >= 1,
        lit_cc()[0] == 0x2c,
        lit_gpu_end().len() >= 1,
        lit_gpu_end()[0] == 0x7d,
        lit_cuda().len() >= 1,
        lit_cuda()[0] == 0x2c,
{
}

/// The five variant tags are pairwise distinct, and so are the three
/// provider names.
pub proof fn lemma_tags_distinct()
    ensures
        tag_register() != tag_heartbeat_ack(),
        tag_register() != tag_register_ack(),
        tag_register() != tag_heartbeat(),
        tag_register() != tag_error(),
        tag_heartbeat_ack() != tag_register_ack(),
        tag_heartbeat_ack() != tag_heartbeat(),
        tag_heartbeat_ack() != tag_error(),
        tag_register_ack() != tag_heartbeat(),
        tag_register_ack() != tag_error(),
        tag_heartbeat() != tag_error(),
        prov_vastai() != prov_runpod(),
        prov_vastai() != prov_local(),
        prov_runpod() != prov_local(),
{
    assert(tag_register().len() == 8);
    assert(tag_heartbeat_ack().len() == 13);
    assert(tag_register_ack().len() == 12);
    assert(tag_heartbeat().len() == 9);
    assert(tag_error().len() == 5);
    if prov_vastai() == prov_runpod() {
        assert(prov_vastai()[0] == prov_runpod()[0]);
        assert(false);
    }
}

/// The variant tags and provider names hold no byte that escaping would
/// change.
pub proof fn lemma_plain_tags()
    ensures
        esc(tag_register()) == tag_register(),
        esc(tag_heartbeat_ack()) == tag_heartbeat_ack(),
        esc(tag_register_ack()) == tag_register_ack(),
        esc(tag_heartbeat()) == tag_heartbeat(),
        esc(tag_error()) == tag_error(),
        esc(prov_vastai()) == prov_vastai(),
        esc(prov_runpod()) == prov_runpod(),
        esc(prov_local()) == prov_local(),
{
    lemma_esc_plain(tag_register());
    lemma_esc_plain(tag_heartbeat_ack());
    lemma_esc_plain(tag_register_ack());
    lemma_esc_plain(tag_heartbeat());
    lemma_esc_plain(tag_error());
    lemma_esc_plain(prov_vastai());
    lemma_esc_plain(prov_runpod());
    lemma_esc_plain(prov_local());
}

} // verus!
