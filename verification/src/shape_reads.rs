//! What a shape says of its header: every field is the value that the
//! header holds under its key, or the field's own default.

use vstd::prelude::*;

use crate::header;
use crate::header::{Header, MetaEntry, MetaItem, TensorInfo};
use crate::shape;
use crate::shape::{Arch, Family, Fault, Shape};

verus! {

/// The header names this architecture.
pub open spec fn named(h: &Header, n: Seq<char>) -> bool {
    h.arch() == Some(n)
}

/// A field is what a lookup found, or else `other`.
pub open spec fn follows(field: u32, found: Option<u32>, other: u32) -> bool {
    &&& found matches Some(n) ==> field == n
    &&& found is None ==> field == other
}

/// The header is of the latent family.
pub open spec fn latent(h: &Header) -> bool {
    named(h, "glm-dsa"@) || named(h, "glm_dsa"@) || named(h, "deepseek2"@)
}

/// The header is of the gated delta family.
pub open spec fn delta(h: &Header) -> bool {
    named(h, "qwen35moe"@) || named(h, "qwen35"@)
}

/// The header is of none of the families with a graph of their own.
pub open spec fn grouped(h: &Header) -> bool {
    !latent(h) && !delta(h) && !named(h, "kimi-k3"@) && !named(h, "deepseek4"@)
}

/// What the architecture's name alone decides.
pub open spec fn reads_name(h: &Header, s: Shape) -> bool {
    &&& s.family == Family::Mla <==> latent(h)
    &&& s.family == Family::Qwen35 <==> delta(h)
    &&& s.family == Family::K3 <==> named(h, "kimi-k3"@)
    &&& s.family == Family::Dsv4 <==> named(h, "deepseek4"@)
    &&& s.router_softmax <==> named(h, "qwen3moe"@) || named(h, "gemma4"@) || named(
        h,
        "qwen35moe"@,
    ) || named(h, "gpt-oss"@)
    &&& s.rope_yarn_uniform <==> named(h, "gpt-oss"@)
    &&& named(h, "gemma4"@) ==> s.moe_act_op == 1
    &&& named(h, "minimax-m3"@) || named(h, "gpt-oss"@) ==> s.moe_act_op == 2
    &&& named(h, "kimi-k3"@) ==> s.moe_act_op == 4
    &&& !named(h, "gemma4"@) && !named(h, "minimax-m3"@) && !named(h, "gpt-oss"@) && !named(
        h,
        "kimi-k3"@,
    ) ==> s.moe_act_op == 0
}

/// A count per layer, from one number or from a list of them: the largest.
pub open spec fn reads_most(h: &Header, key: Seq<char>, n: u32) -> bool {
    &&& h.num32(key) matches Some(v) ==> n == v
    &&& h.num32(key) is None && h.list(key) is None ==> n == 1
    &&& h.num32(key) is None && h.list(key) is Some && (forall|i: int|
        0 <= i < h.list(key)->0.len() ==> (#[trigger] h.list(key)->0[i]).num is None) ==> n == 1
    &&& h.num32(key) is None && h.list(key) is Some && (exists|i: int|
        0 <= i < h.list(key)->0.len() && (#[trigger] h.list(key)->0[i]).num is Some)
        ==> exists|i: int|
        0 <= i < h.list(key)->0.len() && (#[trigger] h.list(key)->0[i]).num is Some && n
            == h.list(key)->0[i].num->0 % 0x1_0000_0000 && forall|j: int|
            0 <= j < h.list(key)->0.len() && (#[trigger] h.list(key)->0[j]).num is Some
                ==> h.list(key)->0[j].num->0 <= h.list(key)->0[i].num->0
}

/// A layer holds routed experts, gate and up apart or in one.
pub open spec fn routes(h: &Header, il: int) -> bool {
    h.tensor_named(header::blk_name(il as nat, "ffn_gate_exps.weight"@)) is Some || h.tensor_named(
        header::blk_name(il as nat, "ffn_gate_up_exps.weight"@),
    ) is Some
}

/// What every header says.
pub open spec fn reads_common(h: &Header, s: Shape) -> bool {
    &&& h.num32("block_count"@) == Some(s.n_layer)
    &&& h.num32("embedding_length"@) == Some(s.n_embd)
    &&& h.num32("attention.key_length"@) == Some(s.head_dim)
    &&& h.bits("attention.layer_norm_rms_epsilon"@) == Some(s.rms_eps)
    &&& h.n_tokens is Some && s.n_vocab == h.n_tokens->0 as u64 % 0x1_0000_0000
    &&& h.bits("rope.freq_base"@) is Some ==> s.rope_freq_base == h.bits("rope.freq_base"@)->0
    &&& h.bits("rope.freq_base"@) is None ==> named(h, "inkling"@) && s.rope_freq_base
        == 0x461c_4000
    &&& follows(s.expert_weight_scale, h.bits("expert_weights_scale"@), 0x3f80_0000)
    &&& reads_most(h, "attention.head_count"@, s.n_head)
    &&& reads_most(h, "attention.head_count_kv"@, s.n_head_kv)
    &&& named(h, "deepseek4"@) || h.num32("nextn_predict_layers"@) is None ==> s.n_exec_layer
        == s.n_layer
    &&& !named(h, "deepseek4"@) && h.num32("nextn_predict_layers"@) is Some ==> s.n_exec_layer
        + h.num32("nextn_predict_layers"@)->0 == s.n_layer
    &&& h.num32("feed_forward_length"@) is Some ==> s.n_ff_dense == h.num32(
        "feed_forward_length"@,
    )->0
    &&& h.num32("feed_forward_length"@) is None ==> h.num32("expert_feed_forward_length"@) == Some(
        s.n_ff_dense,
    )
}

/// What a header says of its experts: one model of the delta family has a
/// single one as wide as its feed-forward.
pub open spec fn reads_experts(h: &Header, s: Shape) -> bool {
    &&& named(h, "qwen35"@) ==> s.n_expert == 1 && s.n_expert_used == 1 && s.n_leading_dense == 0
        && h.num32("feed_forward_length"@) == Some(s.n_ff_exp)
    &&& !named(h, "qwen35"@) ==> {
        &&& h.num32("expert_count"@) == Some(s.n_expert)
        &&& h.num32("expert_feed_forward_length"@) == Some(s.n_ff_exp)
        &&& h.num32("expert_used_count"@) is Some
        &&& s.n_expert_used == h.num32("expert_used_count"@)->0 + s.n_shexp_sink
        &&& h.num32("leading_dense_block_count"@) is Some ==> s.n_leading_dense == h.num32(
            "leading_dense_block_count"@,
        )->0
        &&& h.num32("leading_dense_block_count"@) is None ==> {
            &&& s.n_leading_dense < s.n_layer
            &&& routes(h, s.n_leading_dense as int)
            &&& forall|il: int| 0 <= il < s.n_leading_dense ==> !#[trigger] routes(h, il)
        }
    }
    &&& named(h, "inkling"@) ==> h.num32("expert_shared_count"@) == Some(s.n_shexp_sink)
    &&& !named(h, "inkling"@) ==> s.n_shexp_sink == 0
}

/// What a header says of positions.
pub open spec fn reads_positions(h: &Header, s: Shape) -> bool {
    let rope = h.num32("rope.dimension_count"@);
    let native = h.num32("rope.scaling.original_context_length"@);
    let factor = h.bits("rope.scaling.factor"@);
    &&& grouped(h) && !named(h, "inkling"@) ==> follows(s.rot_dim, rope, s.head_dim)
    &&& delta(h) || named(h, "deepseek4"@) ==> follows(s.rot_dim, rope, 64)
    &&& named(h, "inkling"@) || latent(h) || named(h, "kimi-k3"@) ==> s.rot_dim == 0
    &&& latent(h) || named(h, "kimi-k3"@) ==> follows(s.qk_rope, rope, 64)
    &&& !latent(h) && !named(h, "kimi-k3"@) ==> s.qk_rope == 0 && s.qk_nope == 0
    &&& named(h, "laguna"@) ==> follows(s.rope_orig_ctx, native, 8192)
    &&& named(h, "gpt-oss"@) ==> follows(s.rope_orig_ctx, native, 4096)
    &&& latent(h) || named(h, "kimi-k3"@) ==> follows(s.rope_orig_ctx, native, 0x10_0000)
    &&& named(h, "deepseek4"@) ==> follows(s.rope_orig_ctx, native, 0x1_0000)
    &&& grouped(h) && !named(h, "laguna"@) && !named(h, "gpt-oss"@) || delta(h)
        ==> s.rope_orig_ctx == 0 && s.rope_scale_factor == 0x3f80_0000
    &&& named(h, "laguna"@) || named(h, "gpt-oss"@) || latent(h) ==> follows(
        s.rope_scale_factor,
        factor,
        0x3f80_0000,
    )
    &&& named(h, "deepseek4"@) ==> follows(s.rope_scale_factor, factor, 0x4180_0000)
    &&& named(h, "kimi-k3"@) ==> s.rope_scale_factor == 0x3f80_0000
    &&& latent(h) ==> follows(s.rope_yarn_log_mult, h.bits("rope.scaling.yarn_log_multiplier"@), 0)
    &&& !latent(h) ==> s.rope_yarn_log_mult == 0
    &&& named(h, "deepseek4"@) ==> follows(
        s.compress_rope_base,
        h.bits("attention.compress_rope_freq_base"@),
        0x481c_4000,
    )
    &&& !named(h, "deepseek4"@) ==> s.compress_rope_base == 0
}

/// What a header says of low ranks, latent rows and selected rows.
pub open spec fn reads_latent(h: &Header, s: Shape) -> bool {
    let q = h.num32("attention.q_lora_rank"@);
    let kv = h.num32("attention.kv_lora_rank"@);
    let key = h.num32("attention.key_length_mla"@);
    let value = h.num32("attention.value_length_mla"@);
    let k3 = named(h, "kimi-k3"@);
    let d4 = named(h, "deepseek4"@);
    &&& latent(h) ==> follows(s.n_lora_q, q, 2048)
    &&& k3 ==> follows(s.n_lora_q, q, 1536)
    &&& d4 ==> follows(s.n_lora_q, q, 1024)
    &&& !latent(h) && !k3 && !d4 ==> s.n_lora_q == 0
    &&& latent(h) || k3 ==> follows(s.n_kv_lora, kv, 512)
    &&& !latent(h) && !k3 ==> s.n_kv_lora == 0 && s.value_mla == 0
    &&& (latent(h) || k3) && key is Some ==> s.qk_nope + s.qk_rope == key->0
    &&& latent(h) && key is None ==> s.qk_nope + s.qk_rope == 256
    &&& k3 && key is None ==> s.qk_nope + s.qk_rope == 192
    &&& latent(h) ==> follows(s.value_mla, value, 256)
    &&& k3 ==> follows(s.value_mla, value, 128)
    &&& latent(h) ==> follows(s.n_idx_head, h.num32("attention.indexer.head_count"@), 0)
    &&& latent(h) ==> follows(s.n_idx_dim, h.num32("attention.indexer.key_length"@), 0)
    &&& latent(h) ==> follows(s.n_idx_topk, h.num32("attention.indexer.top_k"@), 0)
    &&& d4 ==> follows(s.n_idx_head, h.num32("attention.indexer.head_count"@), 64)
    &&& d4 ==> follows(s.n_idx_dim, h.num32("attention.indexer.key_length"@), 128)
    &&& d4 ==> follows(s.n_idx_topk, h.num32("attention.indexer.top_k"@), 512)
    &&& !latent(h) && !d4 ==> s.n_idx_head == 0 && s.n_idx_dim == 0 && s.n_idx_topk == 0
}

/// What a header says of rolling states and short convolutions.
pub open spec fn reads_states(h: &Header, s: Shape) -> bool {
    let k3 = named(h, "kimi-k3"@);
    let ink = named(h, "inkling"@);
    &&& delta(h) || k3 ==> follows(s.ssm_conv_k, h.num32("ssm.conv_kernel"@), 4)
    &&& delta(h) ==> follows(s.ssm_state, h.num32("ssm.state_size"@), 128)
    &&& delta(h) ==> follows(s.ssm_k_heads, h.num32("ssm.group_count"@), 16)
    &&& delta(h) ==> follows(s.ssm_v_heads, h.num32("ssm.time_step_rank"@), 32)
    &&& delta(h) ==> follows(s.ssm_inner, h.num32("ssm.inner_size"@), 4096)
    &&& delta(h) ==> follows(s.full_attn_interval, h.num32("full_attention_interval"@), 4)
    &&& !delta(h) ==> s.full_attn_interval == 0
    &&& k3 ==> follows(s.kda_head_dim, h.num32("kda.head_dim"@), 128)
    &&& k3 ==> s.ssm_state == s.kda_head_dim && s.ssm_k_heads == s.n_head && s.ssm_v_heads
        == s.n_head && s.ssm_inner == s.ssm_v_heads * s.ssm_state
    &&& k3 ==> follows(s.kda_gate_lb, h.bits("kda.gate_lower_bound"@), 0xc0a0_0000)
    &&& k3 ==> follows(s.n_expert_latent, h.num32("expert_latent_length"@), 0)
    &&& k3 ==> follows(s.attn_res_block, h.num32("attn_res.block_size"@), 0)
    &&& k3 && h.num32("expert_shared_feed_forward_length"@) is Some ==> s.n_ff_shexp == h.num32(
        "expert_shared_feed_forward_length"@,
    )->0
    &&& k3 && h.num32("expert_shared_feed_forward_length"@) is None && h.num32(
        "expert_shared_count"@,
    ) is Some ==> s.n_ff_shexp == s.n_ff_exp * h.num32("expert_shared_count"@)->0
    &&& k3 && h.num32("expert_shared_feed_forward_length"@) is None && h.num32(
        "expert_shared_count"@,
    ) is None ==> s.n_ff_shexp == s.n_ff_exp
    &&& !k3 ==> s.kda_head_dim == 0 && s.kda_gate_lb == 0 && s.n_expert_latent == 0
        && s.attn_res_block == 0 && s.n_ff_shexp == 0
    &&& !delta(h) && !k3 ==> s.ssm_conv_k == 0 && s.ssm_state == 0 && s.ssm_k_heads == 0
        && s.ssm_v_heads == 0 && s.ssm_inner == 0
    &&& ink ==> h.num32("d_rel"@) == Some(s.d_rel)
    &&& ink ==> h.num32("rel_extent"@) == Some(s.rel_ext)
    &&& ink ==> h.num32("rel_extent_swa"@) == Some(s.rel_ext_swa)
    &&& ink ==> h.num32("shortconv_kernel"@) == Some(s.sconv_k)
    &&& !ink ==> s.d_rel == 0 && s.rel_ext == 0 && s.rel_ext_swa == 0 && s.sconv_k == 0
}

/// What a header says of hyper-connections, windows and hash routing.
pub open spec fn reads_hyper(h: &Header, s: Shape) -> bool {
    let d4 = named(h, "deepseek4"@);
    let clamp = h.list("swiglu_clamp_exp"@);
    &&& d4 ==> follows(s.n_swa, h.num32("attention.sliding_window"@), 128)
    &&& d4 ==> follows(s.n_hash_layer, h.num32("hash_layer_count"@), 3)
    &&& d4 ==> follows(s.n_hc, h.num32("hyper_connection.count"@), 4)
    &&& d4 ==> follows(s.hc_sinkhorn, h.num32("hyper_connection.sinkhorn_iterations"@), 20)
    &&& d4 ==> follows(s.hc_eps, h.bits("hyper_connection.epsilon"@), 0x3586_37bd)
    &&& d4 ==> follows(s.n_out_group, h.num32("attention.output_group_count"@), 8)
    &&& d4 && clamp is Some && clamp->0.len() > 0 ==> follows(
        s.clamp_exp,
        clamp->0[0].bits,
        0x4120_0000,
    )
    &&& d4 && (clamp is None || clamp->0.len() == 0) ==> s.clamp_exp == 0x4120_0000
    &&& !d4 ==> s.n_swa == 0 && s.n_hash_layer == 0 && s.n_hc == 0 && s.hc_sinkhorn == 0
        && s.hc_eps == 0 && s.n_out_group == 0 && s.clamp_exp == 0
}

/// Everything that a shape says of its header.
pub open spec fn reads(h: &Header, s: Shape) -> bool {
    &&& reads_name(h, s)
    &&& reads_common(h, s)
    &&& reads_experts(h, s)
    &&& reads_positions(h, s)
    &&& reads_latent(h, s)
    &&& reads_states(h, s)
    &&& reads_hyper(h, s)
}

/// An architecture has its own names, and no name is of two of them.
pub proof fn names_tell_architectures(h: &Header)
    ensures
        shape::arch_of(h) == Some(Arch::HyV3) <==> named(h, "hy-v3"@) || named(h, "hy_v3"@),
        shape::arch_of(h) == Some(Arch::MinimaxM3) <==> named(h, "minimax-m3"@),
        shape::arch_of(h) == Some(Arch::MinimaxM2) <==> named(h, "minimax-m2"@),
        shape::arch_of(h) == Some(Arch::Qwen3Moe) <==> named(h, "qwen3moe"@),
        shape::arch_of(h) == Some(Arch::Gemma4) <==> named(h, "gemma4"@),
        shape::arch_of(h) == Some(Arch::GlmDsa) <==> named(h, "glm-dsa"@) || named(h, "glm_dsa"@),
        shape::arch_of(h) == Some(Arch::Deepseek2) <==> named(h, "deepseek2"@),
        shape::arch_of(h) == Some(Arch::Inkling) <==> named(h, "inkling"@),
        shape::arch_of(h) == Some(Arch::Deepseek4) <==> named(h, "deepseek4"@),
        shape::arch_of(h) == Some(Arch::Laguna) <==> named(h, "laguna"@),
        shape::arch_of(h) == Some(Arch::GptOss) <==> named(h, "gpt-oss"@),
        shape::arch_of(h) == Some(Arch::Qwen35Moe) <==> named(h, "qwen35moe"@),
        shape::arch_of(h) == Some(Arch::Qwen35) <==> named(h, "qwen35"@),
        shape::arch_of(h) == Some(Arch::KimiK3) <==> named(h, "kimi-k3"@),
        shape::arch_of(h) is None <==> !(named(h, "hy-v3"@) || named(h, "hy_v3"@) || named(h, "minimax-m3"@) || named(h, "minimax-m2"@) || named(h, "qwen3moe"@) || named(h, "gemma4"@) || named(h, "glm-dsa"@) || named(h, "glm_dsa"@) || named(h, "deepseek2"@) || named(h, "inkling"@) || named(h, "deepseek4"@) || named(h, "laguna"@) || named(h, "gpt-oss"@) || named(h, "qwen35moe"@) || named(h, "qwen35"@) || named(h, "kimi-k3"@)),
{
    reveal_strlit("hy-v3");
    assert("hy-v3"@.len() == 5 && "hy-v3"@[2] == '-');
    reveal_strlit("hy_v3");
    assert("hy_v3"@.len() == 5 && "hy_v3"@[2] == '_');
    reveal_strlit("minimax-m3");
    assert("minimax-m3"@.len() == 10 && "minimax-m3"@[9] == '3');
    reveal_strlit("minimax-m2");
    assert("minimax-m2"@.len() == 10 && "minimax-m2"@[9] == '2');
    reveal_strlit("qwen3moe");
    assert("qwen3moe"@.len() == 8);
    reveal_strlit("gemma4");
    assert("gemma4"@.len() == 6 && "gemma4"@[0] == 'g');
    reveal_strlit("glm-dsa");
    assert("glm-dsa"@.len() == 7 && "glm-dsa"@[1] == 'l' && "glm-dsa"@[3] == '-');
    reveal_strlit("glm_dsa");
    assert("glm_dsa"@.len() == 7 && "glm_dsa"@[1] == 'l' && "glm_dsa"@[3] == '_');
    reveal_strlit("deepseek2");
    assert("deepseek2"@.len() == 9 && "deepseek2"@[8] == '2');
    reveal_strlit("inkling");
    assert("inkling"@.len() == 7 && "inkling"@[1] == 'n' && "inkling"@[3] == 'l');
    reveal_strlit("deepseek4");
    assert("deepseek4"@.len() == 9 && "deepseek4"@[8] == '4');
    reveal_strlit("laguna");
    assert("laguna"@.len() == 6 && "laguna"@[0] == 'l');
    reveal_strlit("gpt-oss");
    assert("gpt-oss"@.len() == 7 && "gpt-oss"@[1] == 'p' && "gpt-oss"@[3] == '-');
    reveal_strlit("qwen35moe");
    assert("qwen35moe"@.len() == 9 && "qwen35moe"@[8] == 'e');
    reveal_strlit("qwen35");
    assert("qwen35"@.len() == 6 && "qwen35"@[0] == 'q');
    reveal_strlit("kimi-k3");
    assert("kimi-k3"@.len() == 7 && "kimi-k3"@[1] == 'i' && "kimi-k3"@[3] == 'i');
}

/// A lookup finds the first entry under its key.
pub proof fn lookup_finds_the_first(meta: Seq<MetaEntry>, key: Seq<char>)
    ensures
        header::find_key(meta, key) is None <==> forall|i: int|
            0 <= i < meta.len() ==> (#[trigger] meta[i]).key@ != key,
        header::find_key(meta, key) matches Some(n) ==> {
            &&& 0 <= n < meta.len()
            &&& meta[n].key@ == key
            &&& forall|i: int| 0 <= i < n ==> (#[trigger] meta[i]).key@ != key
        },
    decreases meta.len(),
{
    if meta.len() > 0 {
        let front = meta.drop_last();
        lookup_finds_the_first(front, key);
        assert(forall|i: int| 0 <= i < front.len() ==> front[i] == meta[i]);
        if header::find_key(front, key) is Some {
            assert(meta[header::find_key(front, key)->0].key@ == key);
        } else if meta.last().key@ != key {
            assert forall|i: int| 0 <= i < meta.len() implies (#[trigger] meta[i]).key@ != key by {
                if i < front.len() {
                    assert(front[i].key@ != key);
                }
            }
        } else {
            assert(meta[meta.len() - 1].key@ == key);
            assert forall|i: int| 0 <= i < front.len() implies (#[trigger] meta[i]).key@ != key by {
                assert(front[i].key@ != key);
            }
        }
    }
}

/// A tensor lookup finds the first tensor of its name.
pub proof fn tensor_lookup_finds_the_first(ts: Seq<TensorInfo>, name: Seq<char>)
    ensures
        header::find_name(ts, name) is None <==> forall|i: int|
            0 <= i < ts.len() ==> (#[trigger] ts[i]).name@ != name,
        header::find_name(ts, name) matches Some(n) ==> {
            &&& 0 <= n < ts.len()
            &&& ts[n].name@ == name
            &&& forall|i: int| 0 <= i < n ==> (#[trigger] ts[i]).name@ != name
        },
    decreases ts.len(),
{
    if ts.len() > 0 {
        let front = ts.drop_last();
        tensor_lookup_finds_the_first(front, name);
        assert(forall|i: int| 0 <= i < front.len() ==> front[i] == ts[i]);
        if header::find_name(front, name) is Some {
            assert(ts[header::find_name(front, name)->0].name@ == name);
        } else if ts.last().name@ != name {
            assert forall|i: int| 0 <= i < ts.len() implies (#[trigger] ts[i]).name@ != name by {
                if i < front.len() {
                    assert(front[i].name@ != name);
                }
            }
        } else {
            assert(ts[ts.len() - 1].name@ == name);
            assert forall|i: int| 0 <= i < front.len() implies (#[trigger] ts[i]).name@ != name by {
                assert(front[i].name@ != name);
            }
        }
    }
}

/// What a header gives under a key is what its first entry of that key
/// holds.
pub proof fn values_come_from_entries(h: &Header, key: Seq<char>, i: int)
    requires
        0 <= i < h.meta@.len(),
        h.meta@[i].key@ == key,
        forall|j: int| 0 <= j < i ==> (#[trigger] h.meta@[j]).key@ != key,
    ensures
        h.bits(key) == h.meta@[i].value.item.bits,
        h.num(key) == h.meta@[i].value.item.num,
        h.num32(key) is Some <==> h.num(key) is Some,
        h.num32(key) matches Some(n) ==> (h.num(key)->0 - n) % 0x1_0000_0000 == 0,
        h.list(key) is Some <==> h.meta@[i].value.list is Some,
        h.list(key) matches Some(l) ==> l == h.meta@[i].value.list->0@,
{
    lookup_finds_the_first(h.meta@, key);
    let n = header::find_key(h.meta@, key);
    assert(n is Some);
    if n->0 < i {
        assert(h.meta@[n->0].key@ != key);
    } else if n->0 > i {
        assert(h.meta@[i].key@ != key);
    }
}

proof fn lemma_most(l: Seq<MetaItem>)
    ensures
        header::max_num(l) is None <==> forall|i: int|
            0 <= i < l.len() ==> (#[trigger] l[i]).num is None,
        header::max_num(l) matches Some(m) ==> {
            &&& exists|i: int| 0 <= i < l.len() && (#[trigger] l[i]).num == Some(m)
            &&& forall|i: int|
                0 <= i < l.len() && (#[trigger] l[i]).num is Some ==> l[i].num->0 <= m
        },
    decreases l.len(),
{
    if l.len() > 0 {
        let front = l.drop_last();
        lemma_most(front);
        assert(forall|i: int| 0 <= i < front.len() ==> front[i] == l[i]);
        if header::max_num(front) is Some {
            let k = choose|k: int|
                0 <= k < front.len() && (#[trigger] front[k]).num == header::max_num(front);
            assert(l[k].num == header::max_num(front));
        }
        assert(l[l.len() - 1] == l.last());
        assert forall|i: int| 0 <= i < l.len() && (#[trigger] l[i]).num is Some implies header::max_num(
            l,
        ) is Some && l[i].num->0 <= header::max_num(l)->0 by {
            if i < front.len() {
                assert(front[i].num is Some);
            }
        }
        if header::max_num(l) is Some && header::max_num(front) is None {
            assert(l[l.len() - 1].num == header::max_num(l));
        }
    }
}

/// The largest of a list is one of its numbers, and none is larger.
pub proof fn largest_is_in_the_list(h: &Header, key: Seq<char>)
    ensures
        reads_most(h, key, shape::per_layer_max(h, key)),
{
    if h.num32(key) is None && h.list(key) is Some {
        let l = h.list(key)->0;
        lemma_most(l);
        if header::max_num(l) is Some {
            let i = choose|i: int|
                0 <= i < l.len() && (#[trigger] l[i]).num == header::max_num(l);
            assert(l[i].num is Some);
            assert(shape::per_layer_max(h, key) == l[i].num->0 % 0x1_0000_0000);
        } else {
            assert forall|i: int| 0 <= i < l.len() implies (#[trigger] l[i]).num is None by {}
        }
    }
}

proof fn lemma_first_routes(h: &Header, n: nat)
    ensures
        shape::first_moe(h, n) matches Some(k) ==> k < n && routes(h, k as int) && forall|il: int|
            0 <= il < k ==> !#[trigger] routes(h, il),
        shape::first_moe(h, n) is None ==> forall|il: int|
            0 <= il < n ==> !#[trigger] routes(h, il),
    decreases n,
{
    if n > 0 {
        lemma_first_routes(h, (n - 1) as nat);
        assert(shape::is_moe_layer(h, (n - 1) as nat) == routes(h, n - 1));
    }
}

/// The shape of an accepted header says what the header says.
pub proof fn shape_reads_its_header(h: &Header)
    requires
        shape::shape_fits(h),
        shape::shape_fault(h) is None,
    ensures
        reads(h, shape::shape_of(h)),
{
    names_tell_architectures(h);
    largest_is_in_the_list(h, "attention.head_count"@);
    largest_is_in_the_list(h, "attention.head_count_kv"@);
    lemma_first_routes(h, h.num32_or("block_count"@, 0) as nat);
    let s = shape::shape_of(h);
    assert(reads_name(h, s));
    assert(reads_common(h, s));
    assert(reads_experts(h, s));
    assert(reads_positions(h, s));
    assert(reads_latent(h, s));
    assert(reads_states(h, s));
    assert(reads_hyper(h, s));
}

/// A header that names a known architecture and holds every key that the
/// architecture needs is accepted.
pub proof fn complete_headers_are_accepted(h: &Header)
    requires
        shape::arch_of(h) is Some,
        h.num32("block_count"@) is Some,
        h.n_tokens is Some,
        h.num32("embedding_length"@) is Some,
        h.num32("attention.key_length"@) is Some,
        h.num32("feed_forward_length"@) is Some,
        h.bits("rope.freq_base"@) is Some || named(h, "inkling"@),
        h.bits("attention.layer_norm_rms_epsilon"@) is Some,
        named(h, "qwen35"@) || (h.num32("leading_dense_block_count"@) is Some && h.num32(
            "expert_count"@,
        ) is Some && h.num32("expert_used_count"@) is Some && h.num32(
            "expert_feed_forward_length"@,
        ) is Some),
        named(h, "inkling"@) ==> h.num32("expert_shared_count"@) is Some && h.num32("d_rel"@) is Some
            && h.num32("rel_extent"@) is Some && h.num32("rel_extent_swa"@) is Some && h.num32(
            "shortconv_kernel"@,
        ) is Some,
    ensures
        shape::shape_fault(h) is None,
{
    names_tell_architectures(h);
}

/// A refusal names what the header lacks: its architecture is none that is
/// known, or the key it names has no value of the kind that is read, or no
/// layer routes.
pub proof fn refusal_names_what_is_missing(h: &Header)
    ensures
        match shape::shape_fault(h) {
            Some(Fault::Architecture(n)) => n == h.arch() && shape::arch_of(h) is None,
            Some(Fault::Meta(k)) => {
                &&& shape::arch_of(h) is Some
                &&& {
                    ||| k == "tokenizer.ggml.tokens"@ && h.n_tokens is None
                    ||| k == "no MoE layers found"@ && h.num32("leading_dense_block_count"@) is None
                        && forall|il: int|
                        0 <= il < h.num32("block_count"@)->0 ==> !#[trigger] routes(h, il)
                    ||| (k == "rope.freq_base"@ || k == "attention.layer_norm_rms_epsilon"@)
                        && h.bits(k) is None
                    ||| h.num32(k) is None
                }
            },
            None => shape::arch_of(h) is Some,
        },
{
    names_tell_architectures(h);
    lemma_first_routes(h, h.num32_or("block_count"@, 0) as nat);
}

} // verus!
