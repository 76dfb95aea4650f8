//! Model shape: what a header's metadata says about the network.

use vstd::prelude::*;

use crate::header;
use crate::header::Header;
use crate::shape_reads;
use crate::text;

verus! {

/// Bits of the 32-bit float `1.0`.
pub const F32_ONE: u32 = 0x3f80_0000;

/// Bits of the 32-bit float `0.0`.
pub const F32_ZERO: u32 = 0;

/// Forward-graph family.
#[derive(Debug, Clone, Copy, PartialEq, Eq, Structural)]
pub enum Family {
    /// Grouped-query attention.
    Gqa,
    /// Multi-head latent attention over a compact key/value cache.
    Mla,
    /// Hyper-connection residual, sink attention over a raw ring plus
    /// compressed key/value rows, hash routing on the first layers.
    Dsv4,
    /// Gated DeltaNet linear attention on most layers, gated full attention
    /// on the rest.
    Qwen35,
    /// Kimi delta attention on most layers, latent attention without
    /// position on the rest, latent experts.
    K3,
}

/// Architectures the engine runs.
#[derive(Debug, Clone, Copy, PartialEq, Eq, Structural)]
pub enum Arch {
    HyV3,
    MinimaxM2,
    MinimaxM3,
    Qwen3Moe,
    Gemma4,
    GlmDsa,
    Deepseek2,
    Inkling,
    Deepseek4,
    Laguna,
    GptOss,
    Qwen35Moe,
    Qwen35,
    KimiK3,
}

/// Why a header is refused.
pub enum Error {
    /// The architecture of this name, or of none, is unknown.
    Architecture(Option<String>),
    /// A metadata key is missing or has the wrong kind.
    Meta(String),
}

/// `Error`, with its text as characters.
pub enum Fault {
    Architecture(Option<Seq<char>>),
    Meta(Seq<char>),
}

impl Error {
    pub open spec fn fault(self) -> Fault {
        match self {
            Error::Architecture(Some(name)) => Fault::Architecture(Some(name@)),
            Error::Architecture(None) => Fault::Architecture(None),
            Error::Meta(k) => Fault::Meta(k@),
        }
    }

    /// What to print.
    pub fn message(&self) -> (s: String)
        ensures
            s@ == fault_text(self.fault()),
            self.fault() matches Fault::Architecture(Some(name)) ==> is_plain(name) ==> s@
                == arch_text(Some(seq!['"'] + name + seq!['"'])),
    {
        match self {
            Error::Architecture(name) => match name {
                Some(n) => {
                    let q = quoted(n.as_str());
                    arch_message(Some(q.as_str()))
                },
                None => arch_message(None),
            },
            Error::Meta(k) => meta_message(k.as_str()),
        }
    }
}

/// A string of letters, digits, dots, dashes and underscores.
pub open spec fn is_plain(s: Seq<char>) -> bool {
    forall|i: int|
        0 <= i < s.len() ==> {
            let c = #[trigger] s[i];
            'a' <= c <= 'z' || 'A' <= c <= 'Z' || '0' <= c <= '9' || c == '.' || c == '-' || c
                == '_'
        }
}

/// A string as `{:?}` writes it.
pub uninterp spec fn debug_text(s: Seq<char>) -> Seq<char>;

/// `format!` of a string with `{:?}`: the string in double quotes, with
/// escapes inside. The text is a function of the string; that of a string
/// without anything to escape is the string between the quotes. Which
/// characters are escaped, and how, is not stated.
#[verifier::external_body]
fn quoted(s: &str) -> (q: String)
    ensures
        q@ == debug_text(s@),
        is_plain(s@) ==> q@ == seq!['"'] + s@ + seq!['"'],
{
    format!("{:?}", s)
}

/// What to print of an unknown architecture whose name is written `quoted`.
pub open spec fn arch_text(quoted: Option<Seq<char>>) -> Seq<char> {
    "unsupported architecture "@ + match quoted {
        Some(q) => "Some("@ + q + ")"@,
        None => "None"@,
    }
}

/// What to print of an unknown architecture whose name is written `quoted`.
pub fn arch_message(quoted: Option<&str>) -> (s: String)
    ensures
        s@ == arch_text(
            match quoted {
                Some(q) => Some(q@),
                None => None,
            },
        ),
{
    let mut s = String::from_str("unsupported architecture ");
    match quoted {
        Some(q) => {
            s.append("Some(");
            s.append(q);
            s.append(")");
        },
        None => {
            s.append("None");
        },
    }
    assert(quoted is Some ==> s@ =~= "unsupported architecture "@ + ("Some("@ + quoted->0@ + ")"@));
    s
}

/// What to print when a header is refused.
pub open spec fn fault_text(f: Fault) -> Seq<char> {
    match f {
        Fault::Architecture(Some(name)) => arch_text(Some(debug_text(name))),
        Fault::Architecture(None) => arch_text(None),
        Fault::Meta(key) => "gguf metadata missing/bad: "@ + key,
    }
}

/// The error for a missing or bad metadata key.
pub fn meta_err(key: &str) -> (e: Error)
    ensures
        e.fault() == Fault::Meta(key@),
{
    Error::Meta(String::from_str(key))
}

/// What to print for a missing or bad metadata key.
pub fn meta_message(key: &str) -> (s: String)
    ensures
        s@ == "gguf metadata missing/bad: "@ + key@,
{
    let mut s = String::from_str("gguf metadata missing/bad: ");
    s.append(key);
    s
}

/// The architecture named in a header.
pub open spec fn arch_named(a: Seq<char>) -> Option<Arch> {
    if a == "hy-v3"@ || a == "hy_v3"@ {
        Some(Arch::HyV3)
    } else if a == "minimax-m3"@ {
        Some(Arch::MinimaxM3)
    } else if a == "minimax-m2"@ {
        Some(Arch::MinimaxM2)
    } else if a == "qwen3moe"@ {
        Some(Arch::Qwen3Moe)
    } else if a == "gemma4"@ {
        Some(Arch::Gemma4)
    } else if a == "glm-dsa"@ || a == "glm_dsa"@ {
        Some(Arch::GlmDsa)
    } else if a == "deepseek2"@ {
        Some(Arch::Deepseek2)
    } else if a == "inkling"@ {
        Some(Arch::Inkling)
    } else if a == "deepseek4"@ {
        Some(Arch::Deepseek4)
    } else if a == "laguna"@ {
        Some(Arch::Laguna)
    } else if a == "gpt-oss"@ {
        Some(Arch::GptOss)
    } else if a == "qwen35moe"@ {
        Some(Arch::Qwen35Moe)
    } else if a == "qwen35"@ {
        Some(Arch::Qwen35)
    } else if a == "kimi-k3"@ {
        Some(Arch::KimiK3)
    } else {
        None
    }
}

pub open spec fn arch_of(h: &Header) -> Option<Arch> {
    match h.arch() {
        Some(a) => arch_named(a),
        None => None,
    }
}

/// The architecture named in a header.
pub fn parse_arch(h: &Header) -> (r: Option<Arch>)
    ensures
        r == arch_of(h),
{
    match &h.architecture {
        None => None,
        Some(name) => {
            let a: &str = name.as_str();
            if text::same(a, "hy-v3") || text::same(a, "hy_v3") {
                Some(Arch::HyV3)
            } else if text::same(a, "minimax-m3") {
                Some(Arch::MinimaxM3)
            } else if text::same(a, "minimax-m2") {
                Some(Arch::MinimaxM2)
            } else if text::same(a, "qwen3moe") {
                Some(Arch::Qwen3Moe)
            } else if text::same(a, "gemma4") {
                Some(Arch::Gemma4)
            } else if text::same(a, "glm-dsa") || text::same(a, "glm_dsa") {
                Some(Arch::GlmDsa)
            } else if text::same(a, "deepseek2") {
                Some(Arch::Deepseek2)
            } else if text::same(a, "inkling") {
                Some(Arch::Inkling)
            } else if text::same(a, "deepseek4") {
                Some(Arch::Deepseek4)
            } else if text::same(a, "laguna") {
                Some(Arch::Laguna)
            } else if text::same(a, "gpt-oss") {
                Some(Arch::GptOss)
            } else if text::same(a, "qwen35moe") {
                Some(Arch::Qwen35Moe)
            } else if text::same(a, "qwen35") {
                Some(Arch::Qwen35)
            } else if text::same(a, "kimi-k3") {
                Some(Arch::KimiK3)
            } else {
                None
            }
        },
    }
}

/// The forward graph an architecture runs on.
pub open spec fn family_of(a: Arch) -> Family {
    match a {
        Arch::GlmDsa | Arch::Deepseek2 => Family::Mla,
        Arch::Deepseek4 => Family::Dsv4,
        Arch::Qwen35Moe | Arch::Qwen35 => Family::Qwen35,
        Arch::KimiK3 => Family::K3,
        _ => Family::Gqa,
    }
}

impl Arch {
    /// The forward graph this architecture runs on.
    pub fn family(self) -> (f: Family)
        ensures
            f == family_of(self),
    {
        match self {
            Arch::GlmDsa | Arch::Deepseek2 => Family::Mla,
            Arch::Deepseek4 => Family::Dsv4,
            Arch::Qwen35Moe | Arch::Qwen35 => Family::Qwen35,
            Arch::KimiK3 => Family::K3,
            _ => Family::Gqa,
        }
    }
}

/// Dimensions and constants of a model. Fields that stand for reals hold the
/// bits of a 32-bit float.
#[derive(Debug, Clone, Copy, PartialEq, Eq, Structural)]
pub struct Shape {
    pub family: Family,
    pub n_embd: u32,
    pub n_head: u32,
    pub n_head_kv: u32,
    pub head_dim: u32,
    pub n_layer: u32,
    pub n_exec_layer: u32,
    pub n_leading_dense: u32,
    pub n_expert: u32,
    pub n_expert_used: u32,
    pub n_ff_exp: u32,
    pub n_ff_dense: u32,
    pub n_vocab: u32,
    /// Float bits.
    pub expert_weight_scale: u32,
    /// Softmax router over the selected experts; otherwise sigmoid.
    pub router_softmax: bool,
    /// Scaled rope on every layer rather than on full-window layers only.
    pub rope_yarn_uniform: bool,
    /// Gated feed-forward op: plain silu, gelu, clamped variants.
    pub moe_act_op: u32,
    /// Float bits.
    pub rope_freq_base: u32,
    /// Float bits.
    pub rms_eps: u32,
    pub n_lora_q: u32,
    pub n_kv_lora: u32,
    pub qk_nope: u32,
    pub qk_rope: u32,
    pub value_mla: u32,
    pub rope_orig_ctx: u32,
    pub rot_dim: u32,
    pub n_idx_head: u32,
    pub n_idx_dim: u32,
    pub n_idx_topk: u32,
    /// Float bits.
    pub rope_scale_factor: u32,
    /// Float bits.
    pub rope_yarn_log_mult: u32,
    /// Shared experts that ride the router as always-selected slots; they
    /// count in `n_expert_used`.
    pub n_shexp_sink: u32,
    pub d_rel: u32,
    pub rel_ext: u32,
    pub rel_ext_swa: u32,
    pub sconv_k: u32,
    pub n_swa: u32,
    pub n_hash_layer: u32,
    pub n_hc: u32,
    pub hc_sinkhorn: u32,
    /// Float bits.
    pub hc_eps: u32,
    /// Float bits.
    pub compress_rope_base: u32,
    pub n_out_group: u32,
    pub ssm_conv_k: u32,
    pub ssm_state: u32,
    pub ssm_k_heads: u32,
    pub ssm_v_heads: u32,
    pub ssm_inner: u32,
    pub full_attn_interval: u32,
    /// Float bits.
    pub clamp_exp: u32,
    pub kda_head_dim: u32,
    /// Float bits.
    pub kda_gate_lb: u32,
    pub n_expert_latent: u32,
    pub attn_res_block: u32,
    pub n_ff_shexp: u32,
}

/// A layer has routed experts.
pub open spec fn is_moe_layer(h: &Header, il: nat) -> bool {
    h.tensor_named(header::blk_name(il, "ffn_gate_exps.weight"@)) is Some || h.tensor_named(
        header::blk_name(il, "ffn_gate_up_exps.weight"@),
    ) is Some
}

/// The first of `n` layers with routed experts.
pub open spec fn first_moe(h: &Header, n: nat) -> Option<nat>
    decreases n,
{
    if n == 0 {
        None
    } else {
        match first_moe(h, (n - 1) as nat) {
            Some(i) => Some(i),
            None => if is_moe_layer(h, (n - 1) as nat) { Some((n - 1) as nat) } else { None },
        }
    }
}

proof fn lemma_first_moe(h: &Header, n: nat, m: nat)
    requires
        n <= m,
        first_moe(h, n) is Some,
    ensures
        first_moe(h, m) == first_moe(h, n),
    decreases m,
{
    if n < m {
        lemma_first_moe(h, n, (m - 1) as nat);
    }
}

fn find_first_moe(h: &Header, n: u32) -> (r: Option<u32>)
    ensures
        match r {
            Some(i) => first_moe(h, n as nat) == Some(i as nat),
            None => first_moe(h, n as nat) is None,
        },
{
    let mut i: u32 = 0;
    while i < n
        invariant
            i <= n,
            first_moe(h, i as nat) is None,
        decreases n - i,
    {
        let a = header::blk(i as u64, "ffn_gate_exps.weight");
        let b = header::blk(i as u64, "ffn_gate_up_exps.weight");
        if h.tensor(a.as_str()).is_some() || h.tensor(b.as_str()).is_some() {
            proof {
                lemma_first_moe(h, (i + 1) as nat, n as nat);
            }
            return Some(i);
        }
        i = i + 1;
    }
    None
}

/// Layers at the end of the file that only draft.
pub open spec fn draft_layers(h: &Header, a: Arch) -> u32 {
    if a == Arch::Deepseek4 {
        0
    } else {
        h.num32_or("nextn_predict_layers"@, 0)
    }
}

/// The scalar under `key`, or the largest item of the list under it, or one.
pub open spec fn per_layer_max(h: &Header, key: Seq<char>) -> u32 {
    match h.num32(key) {
        Some(n) => n,
        None => match h.list(key) {
            Some(l) => match header::max_num(l) {
                Some(m) => header::low32(m),
                None => 1,
            },
            None => 1,
        },
    }
}

fn read_per_layer_max(h: &Header, key: &str) -> (r: u32)
    ensures
        r == per_layer_max(h, key@),
{
    match h.get_num32(key) {
        Some(n) => n,
        None => match h.get_list(key) {
            Some(l) => match header::largest(l) {
                Some(m) => header::cut32(m),
                None => 1,
            },
            None => 1,
        },
    }
}

/// Number of leading layers without routed experts, where the header tells.
pub open spec fn leading_dense(h: &Header, a: Arch) -> Option<u32> {
    if a == Arch::Qwen35 {
        Some(0)
    } else {
        match h.num32("leading_dense_block_count"@) {
            Some(n) => Some(n),
            None => match first_moe(h, h.num32_or("block_count"@, 0) as nat) {
                Some(i) => Some(i as u32),
                None => None,
            },
        }
    }
}

/// The key that gives the width of one expert.
pub open spec fn expert_width_key(a: Arch) -> Seq<char> {
    if a == Arch::Qwen35 {
        "feed_forward_length"@
    } else {
        "expert_feed_forward_length"@
    }
}

/// Width of the dense feed-forward: two families fall back to the expert
/// width.
pub open spec fn dense_width(h: &Header, a: Arch) -> Option<u32> {
    match h.num32("feed_forward_length"@) {
        Some(n) => Some(n),
        None => match family_of(a) {
            Family::Dsv4 | Family::Qwen35 => h.num32("expert_feed_forward_length"@),
            _ => None,
        },
    }
}

/// The first of the leading needs that is not met: layer count, token list,
/// width, head width.
pub open spec fn head_fault(h: &Header) -> Option<Seq<char>> {
    if h.num32("block_count"@) is None {
        Some("block_count"@)
    } else if h.n_tokens is None {
        Some("tokenizer.ggml.tokens"@)
    } else if h.num32("embedding_length"@) is None {
        Some("embedding_length"@)
    } else if h.num32("attention.key_length"@) is None {
        Some("attention.key_length"@)
    } else {
        None
    }
}

/// The first need of the body that is not met.
pub open spec fn body_fault(h: &Header, a: Arch) -> Option<Seq<char>> {
    if leading_dense(h, a) is None {
        Some("no MoE layers found"@)
    } else if a != Arch::Qwen35 && h.num32("expert_count"@) is None {
        Some("expert_count"@)
    } else if a != Arch::Qwen35 && h.num32("expert_used_count"@) is None {
        Some("expert_used_count"@)
    } else if h.num32(expert_width_key(a)) is None {
        Some(expert_width_key(a))
    } else if dense_width(h, a) is None {
        match family_of(a) {
            Family::Dsv4 | Family::Qwen35 => Some("expert_feed_forward_length"@),
            _ => Some("feed_forward_length"@),
        }
    } else if a != Arch::Inkling && h.bits("rope.freq_base"@) is None {
        Some("rope.freq_base"@)
    } else if h.bits("attention.layer_norm_rms_epsilon"@) is None {
        Some("attention.layer_norm_rms_epsilon"@)
    } else {
        None
    }
}

/// The first need of the relative-position extras that is not met.
pub open spec fn extra_fault(h: &Header, a: Arch) -> Option<Seq<char>> {
    if a != Arch::Inkling {
        None
    } else if h.num32("expert_shared_count"@) is None {
        Some("expert_shared_count"@)
    } else if h.num32("d_rel"@) is None {
        Some("d_rel"@)
    } else if h.num32("rel_extent"@) is None {
        Some("rel_extent"@)
    } else if h.num32("rel_extent_swa"@) is None {
        Some("rel_extent_swa"@)
    } else if h.num32("shortconv_kernel"@) is None {
        Some("shortconv_kernel"@)
    } else {
        None
    }
}

/// Why a header is refused, if it is.
pub open spec fn shape_fault(h: &Header) -> Option<Fault> {
    match arch_of(h) {
        None => Some(Fault::Architecture(h.arch())),
        Some(a) => match head_fault(h) {
            Some(k) => Some(Fault::Meta(k)),
            None => match body_fault(h, a) {
                Some(k) => Some(Fault::Meta(k)),
                None => match extra_fault(h, a) {
                    Some(k) => Some(Fault::Meta(k)),
                    None => None,
                },
            },
        },
    }
}

/// The dimensions that every family has.
pub open spec fn common_shape(h: &Header, a: Arch) -> Shape {
    let dense = a == Arch::Qwen35;
    let n_layer = h.num32("block_count"@)->0;
    Shape {
        family: family_of(a),
        n_embd: h.num32("embedding_length"@)->0,
        n_head: per_layer_max(h, "attention.head_count"@),
        n_head_kv: per_layer_max(h, "attention.head_count_kv"@),
        head_dim: h.num32("attention.key_length"@)->0,
        n_layer,
        n_exec_layer: (n_layer - draft_layers(h, a)) as u32,
        n_leading_dense: leading_dense(h, a)->0,
        n_expert: if dense { 1 } else { h.num32("expert_count"@)->0 },
        n_expert_used: if dense { 1 } else { h.num32("expert_used_count"@)->0 },
        n_ff_exp: h.num32(expert_width_key(a))->0,
        n_ff_dense: dense_width(h, a)->0,
        n_vocab: header::low32(h.n_tokens->0 as u64),
        expert_weight_scale: h.bits_or("expert_weights_scale"@, F32_ONE),
        router_softmax: a == Arch::Qwen3Moe || a == Arch::Gemma4 || a == Arch::Qwen35Moe || a
            == Arch::GptOss,
        rope_yarn_uniform: a == Arch::GptOss,
        moe_act_op: match a {
            Arch::Gemma4 => 1,
            Arch::MinimaxM3 | Arch::GptOss => 2,
            Arch::KimiK3 => 4,
            _ => 0,
        },
        rope_freq_base: h.bits_or("rope.freq_base"@, 0x461c_4000),
        rms_eps: h.bits("attention.layer_norm_rms_epsilon"@)->0,
        n_lora_q: 0,
        n_kv_lora: 0,
        qk_nope: 0,
        qk_rope: 0,
        value_mla: 0,
        rope_orig_ctx: 0,
        rot_dim: 0,
        n_idx_head: 0,
        n_idx_dim: 0,
        n_idx_topk: 0,
        rope_scale_factor: F32_ONE,
        rope_yarn_log_mult: F32_ZERO,
        n_shexp_sink: 0,
        d_rel: 0,
        rel_ext: 0,
        rel_ext_swa: 0,
        sconv_k: 0,
        n_swa: 0,
        n_hash_layer: 0,
        n_hc: 0,
        hc_sinkhorn: 0,
        hc_eps: F32_ZERO,
        compress_rope_base: F32_ZERO,
        n_out_group: 0,
        ssm_conv_k: 0,
        ssm_state: 0,
        ssm_k_heads: 0,
        ssm_v_heads: 0,
        ssm_inner: 0,
        full_attn_interval: 0,
        clamp_exp: F32_ZERO,
        kda_head_dim: 0,
        kda_gate_lb: F32_ZERO,
        n_expert_latent: 0,
        attn_res_block: 0,
        n_ff_shexp: 0,
    }
}

/// What grouped-query architectures add.
pub open spec fn gqa_shape(h: &Header, a: Arch, s: Shape) -> Shape {
    let yarn = a == Arch::Laguna || a == Arch::GptOss;
    let native: u32 = if a == Arch::Laguna { 8192 } else { 4096 };
    let r = Shape {
        rope_scale_factor: if yarn {
            h.bits_or("rope.scaling.factor"@, F32_ONE)
        } else {
            s.rope_scale_factor
        },
        rope_orig_ctx: if yarn {
            h.num32_or("rope.scaling.original_context_length"@, native)
        } else {
            s.rope_orig_ctx
        },
        rot_dim: if a == Arch::Inkling {
            0
        } else {
            h.num32_or("rope.dimension_count"@, s.head_dim)
        },
        ..s
    };
    if a == Arch::Inkling {
        Shape {
            n_shexp_sink: h.num32("expert_shared_count"@)->0,
            n_expert_used: (s.n_expert_used + h.num32("expert_shared_count"@)->0) as u32,
            d_rel: h.num32("d_rel"@)->0,
            rel_ext: h.num32("rel_extent"@)->0,
            rel_ext_swa: h.num32("rel_extent_swa"@)->0,
            sconv_k: h.num32("shortconv_kernel"@)->0,
            ..r
        }
    } else {
        r
    }
}

/// What latent attention adds.
pub open spec fn mla_shape(h: &Header, s: Shape) -> Shape {
    let qk_rope = h.num32_or("rope.dimension_count"@, 64);
    Shape {
        n_lora_q: h.num32_or("attention.q_lora_rank"@, 2048),
        n_kv_lora: h.num32_or("attention.kv_lora_rank"@, 512),
        qk_rope,
        qk_nope: (h.num32_or("attention.key_length_mla"@, 256) - qk_rope) as u32,
        value_mla: h.num32_or("attention.value_length_mla"@, 256),
        rope_orig_ctx: h.num32_or("rope.scaling.original_context_length"@, 1_048_576),
        n_idx_head: h.num32_or("attention.indexer.head_count"@, 0),
        n_idx_dim: h.num32_or("attention.indexer.key_length"@, 0),
        n_idx_topk: h.num32_or("attention.indexer.top_k"@, 0),
        rope_scale_factor: h.bits_or("rope.scaling.factor"@, F32_ONE),
        rope_yarn_log_mult: h.bits_or("rope.scaling.yarn_log_multiplier"@, F32_ZERO),
        ..s
    }
}

/// What the gated delta layers add.
pub open spec fn qwen_shape(h: &Header, s: Shape) -> Shape {
    Shape {
        rot_dim: h.num32_or("rope.dimension_count"@, 64),
        ssm_conv_k: h.num32_or("ssm.conv_kernel"@, 4),
        ssm_state: h.num32_or("ssm.state_size"@, 128),
        ssm_k_heads: h.num32_or("ssm.group_count"@, 16),
        ssm_v_heads: h.num32_or("ssm.time_step_rank"@, 32),
        ssm_inner: h.num32_or("ssm.inner_size"@, 4096),
        full_attn_interval: h.num32_or("full_attention_interval"@, 4),
        ..s
    }
}

/// What the Kimi delta layers and the latent experts add.
pub open spec fn k3_shape(h: &Header, s: Shape) -> Shape {
    let qk_rope = h.num32_or("rope.dimension_count"@, 64);
    let kda = h.num32_or("kda.head_dim"@, 128);
    Shape {
        n_lora_q: h.num32_or("attention.q_lora_rank"@, 1536),
        n_kv_lora: h.num32_or("attention.kv_lora_rank"@, 512),
        qk_rope,
        qk_nope: (h.num32_or("attention.key_length_mla"@, 192) - qk_rope) as u32,
        value_mla: h.num32_or("attention.value_length_mla"@, 128),
        kda_head_dim: kda,
        ssm_conv_k: h.num32_or("ssm.conv_kernel"@, 4),
        ssm_inner: (s.n_head * kda) as u32,
        ssm_k_heads: s.n_head,
        ssm_v_heads: s.n_head,
        ssm_state: kda,
        kda_gate_lb: h.bits_or("kda.gate_lower_bound"@, 0xc0a0_0000),
        n_expert_latent: h.num32_or("expert_latent_length"@, 0),
        attn_res_block: h.num32_or("attn_res.block_size"@, 0),
        n_ff_shexp: match h.num32("expert_shared_feed_forward_length"@) {
            Some(n) => n,
            None => (s.n_ff_exp * h.num32_or("expert_shared_count"@, 1)) as u32,
        },
        rope_orig_ctx: h.num32_or("rope.scaling.original_context_length"@, 1_048_576),
        ..s
    }
}

/// The clamp of the gated feed-forward: the first item of the per-layer list.
pub open spec fn clamp_of(h: &Header) -> u32 {
    match h.list("swiglu_clamp_exp"@) {
        Some(l) => if l.len() > 0 && l[0].bits is Some { l[0].bits->0 } else { 0x4120_0000 },
        None => 0x4120_0000,
    }
}

/// What hyper-connections, compressed rows and hash routing add.
pub open spec fn dsv4_shape(h: &Header, s: Shape) -> Shape {
    Shape {
        n_lora_q: h.num32_or("attention.q_lora_rank"@, 1024),
        rot_dim: h.num32_or("rope.dimension_count"@, 64),
        rope_orig_ctx: h.num32_or("rope.scaling.original_context_length"@, 65_536),
        rope_scale_factor: h.bits_or("rope.scaling.factor"@, 0x4180_0000),
        n_idx_head: h.num32_or("attention.indexer.head_count"@, 64),
        n_idx_dim: h.num32_or("attention.indexer.key_length"@, 128),
        n_idx_topk: h.num32_or("attention.indexer.top_k"@, 512),
        n_swa: h.num32_or("attention.sliding_window"@, 128),
        n_hash_layer: h.num32_or("hash_layer_count"@, 3),
        n_hc: h.num32_or("hyper_connection.count"@, 4),
        hc_sinkhorn: h.num32_or("hyper_connection.sinkhorn_iterations"@, 20),
        hc_eps: h.bits_or("hyper_connection.epsilon"@, 0x3586_37bd),
        compress_rope_base: h.bits_or("attention.compress_rope_freq_base"@, 0x481c_4000),
        n_out_group: h.num32_or("attention.output_group_count"@, 8),
        clamp_exp: clamp_of(h),
        ..s
    }
}

/// The shape a header describes.
pub open spec fn shape_of(h: &Header) -> Shape {
    let a = arch_of(h)->0;
    let s = common_shape(h, a);
    match family_of(a) {
        Family::Gqa => gqa_shape(h, a, s),
        Family::Mla => mla_shape(h, s),
        Family::Qwen35 => qwen_shape(h, s),
        Family::K3 => k3_shape(h, s),
        Family::Dsv4 => dsv4_shape(h, s),
    }
}

/// The sums, differences and products of the shape stay within 32 bits, as
/// far as the header is read before it is refused.
pub open spec fn shape_fits(h: &Header) -> bool {
    arch_of(h) matches Some(a) ==> head_fault(h) is None ==> {
        let s = common_shape(h, a);
        &&& draft_layers(h, a) <= h.num32("block_count"@)->0
        &&& body_fault(h, a) is None ==> {
            &&& a == Arch::Inkling && h.num32("expert_shared_count"@) is Some ==> s.n_expert_used
                + h.num32("expert_shared_count"@)->0 <= u32::MAX
            &&& family_of(a) == Family::Mla ==> h.num32_or("rope.dimension_count"@, 64)
                <= h.num32_or("attention.key_length_mla"@, 256)
            &&& family_of(a) == Family::K3 ==> {
                &&& h.num32_or("rope.dimension_count"@, 64) <= h.num32_or(
                    "attention.key_length_mla"@,
                    192,
                )
                &&& s.n_head * h.num32_or("kda.head_dim"@, 128) <= u32::MAX
                &&& s.n_ff_exp * h.num32_or("expert_shared_count"@, 1) <= u32::MAX
            }
        }
    }
}

/// Test whether the shape's arithmetic stays within 32 bits.
pub fn arithmetic_fits(h: &Header) -> (r: bool)
    ensures
        r == shape_fits(h),
{
    let a: Arch = match parse_arch(h) {
        Some(a) => a,
        None => {
            return true;
        },
    };
    if read_head_fault(h).is_some() {
        return true;
    }
    let nextn: u32 = if a == Arch::Deepseek4 {
        0
    } else {
        h.get_num32_or("nextn_predict_layers", 0)
    };
    if nextn > h.get_num32_or("block_count", 0) {
        return false;
    }
    if read_body_fault(h, a).is_some() {
        return true;
    }
    let max: u64 = 0xffff_ffff;
    if a == Arch::Inkling {
        let used: u64 = h.get_num32_or("expert_used_count", 0) as u64;
        return match h.get_num32("expert_shared_count") {
            Some(n) => used + n as u64 <= max,
            None => true,
        };
    }
    let rope: u32 = h.get_num32_or("rope.dimension_count", 64);
    match a.family() {
        Family::Mla => rope <= h.get_num32_or("attention.key_length_mla", 256),
        Family::K3 => {
            let n_head: u64 = read_per_layer_max(h, "attention.head_count") as u64;
            let kda: u64 = h.get_num32_or("kda.head_dim", 128) as u64;
            let width: u64 = h.get_num32_or("expert_feed_forward_length", 0) as u64;
            let shared: u64 = h.get_num32_or("expert_shared_count", 1) as u64;
            proof {
                assert(n_head * kda <= 0xffff_ffff * 0xffff_ffff) by (nonlinear_arith)
                    requires
                        n_head <= 0xffff_ffff,
                        kda <= 0xffff_ffff,
                ;
                assert(width * shared <= 0xffff_ffff * 0xffff_ffff) by (nonlinear_arith)
                    requires
                        width <= 0xffff_ffff,
                        shared <= 0xffff_ffff,
                ;
            }
            rope <= h.get_num32_or("attention.key_length_mla", 192) && n_head * kda <= max && width
                * shared <= max
        },
        _ => true,
    }
}

impl Shape {
    /// Read the shape out of a header.
    pub fn from_gguf(h: &Header) -> (r: Result<Shape, Error>)
        requires
            shape_fits(h),
        ensures
            match r {
                Ok(s) => shape_fault(h) is None && s == shape_of(h),
                Err(e) => shape_fault(h) == Some(e.fault()),
            },
            r matches Ok(s) ==> shape_reads::reads(h, s),
    {
        proof {
            if shape_fault(h) is None {
                shape_reads::shape_reads_its_header(h);
            }
        }
        let arch: Arch = match parse_arch(h) {
            Some(a) => a,
            None => {
                return Err(
                    Error::Architecture(
                        match &h.architecture {
                            Some(n) => Some(String::from_str(n.as_str())),
                            None => None,
                        },
                    ),
                );
            },
        };
        let base: Shape = match read_common(h, arch) {
            Ok(s) => s,
            Err(e) => {
                return Err(e);
            },
        };
        match arch.family() {
            Family::Gqa => read_gqa(h, arch, base),
            Family::Mla => Ok(read_mla(h, base)),
            Family::Qwen35 => Ok(read_qwen(h, base)),
            Family::K3 => Ok(read_k3(h, base)),
            Family::Dsv4 => Ok(read_dsv4(h, base)),
        }
    }

    /// Width of one query/key head of latent attention.
    pub fn qk_dim(&self) -> (n: u32)
        requires
            self.qk_nope + self.qk_rope <= u32::MAX,
        ensures
            n == self.qk_nope + self.qk_rope,
    {
        self.qk_nope + self.qk_rope
    }

    /// Width of the attention output before its projection.
    pub open spec fn out_width(&self) -> int {
        match self.family {
            Family::Gqa | Family::Dsv4 | Family::Qwen35 => self.n_head * self.head_dim,
            Family::Mla | Family::K3 => self.n_head * self.value_mla,
        }
    }

    /// Width of the attention output before its projection.
    pub fn heads_dim(&self) -> (n: u32)
        requires
            self.out_width() <= u32::MAX,
        ensures
            n == self.out_width(),
    {
        match self.family {
            Family::Gqa | Family::Dsv4 | Family::Qwen35 => self.n_head * self.head_dim,
            Family::Mla | Family::K3 => self.n_head * self.value_mla,
        }
    }

    /// The forward carries state that a cut of the cached rows cannot undo.
    pub open spec fn is_recurrent(&self) -> bool {
        self.family == Family::Dsv4 || self.family == Family::Qwen35 || self.family == Family::K3
            || self.sconv_k > 1
    }

    /// True when the forward carries recurrent state beyond its cached rows:
    /// a stream may then only be appended to, never rewound.
    pub fn recurrent_state(&self) -> (r: bool)
        ensures
            r == self.is_recurrent(),
    {
        let by_family: bool = match self.family {
            Family::Dsv4 | Family::Qwen35 | Family::K3 => true,
            Family::Gqa | Family::Mla => false,
        };
        by_family || self.sconv_k > 1
    }
}

fn read_head_fault(h: &Header) -> (r: Option<Error>)
    ensures
        match r {
            Some(e) => head_fault(h) is Some && e.fault() == Fault::Meta(head_fault(h)->0),
            None => head_fault(h) is None,
        },
{
    if h.get_num32("block_count").is_none() {
        return Some(meta_err("block_count"));
    }
    if h.n_tokens.is_none() {
        return Some(meta_err("tokenizer.ggml.tokens"));
    }
    if h.get_num32("embedding_length").is_none() {
        return Some(meta_err("embedding_length"));
    }
    if h.get_num32("attention.key_length").is_none() {
        return Some(meta_err("attention.key_length"));
    }
    None
}

fn read_leading_dense(h: &Header, a: Arch) -> (r: Option<u32>)
    requires
        h.num32("block_count"@) is Some,
    ensures
        r == leading_dense(h, a),
{
    if a == Arch::Qwen35 {
        return Some(0);
    }
    match h.get_num32("leading_dense_block_count") {
        Some(n) => Some(n),
        None => {
            let n: u32 = h.get_num32_or("block_count", 0);
            find_first_moe(h, n)
        },
    }
}

fn read_dense_width(h: &Header, a: Arch) -> (r: Option<u32>)
    ensures
        r == dense_width(h, a),
{
    match h.get_num32("feed_forward_length") {
        Some(n) => Some(n),
        None => match a.family() {
            Family::Dsv4 | Family::Qwen35 => h.get_num32("expert_feed_forward_length"),
            _ => None,
        },
    }
}

fn read_body_fault(h: &Header, a: Arch) -> (r: Option<Error>)
    requires
        h.num32("block_count"@) is Some,
    ensures
        match r {
            Some(e) => body_fault(h, a) is Some && e.fault() == Fault::Meta(body_fault(h, a)->0),
            None => body_fault(h, a) is None,
        },
{
    if read_leading_dense(h, a).is_none() {
        return Some(meta_err("no MoE layers found"));
    }
    let dense: bool = a == Arch::Qwen35;
    if !dense && h.get_num32("expert_count").is_none() {
        return Some(meta_err("expert_count"));
    }
    if !dense && h.get_num32("expert_used_count").is_none() {
        return Some(meta_err("expert_used_count"));
    }
    let width_key: &str = if dense { "feed_forward_length" } else { "expert_feed_forward_length" };
    if h.get_num32(width_key).is_none() {
        return Some(meta_err(width_key));
    }
    if read_dense_width(h, a).is_none() {
        return match a.family() {
            Family::Dsv4 | Family::Qwen35 => Some(meta_err("expert_feed_forward_length")),
            _ => Some(meta_err("feed_forward_length")),
        };
    }
    if a != Arch::Inkling && h.get_bits("rope.freq_base").is_none() {
        return Some(meta_err("rope.freq_base"));
    }
    if h.get_bits("attention.layer_norm_rms_epsilon").is_none() {
        return Some(meta_err("attention.layer_norm_rms_epsilon"));
    }
    None
}

fn read_common(h: &Header, a: Arch) -> (r: Result<Shape, Error>)
    requires
        head_fault(h) is None ==> draft_layers(h, a) <= h.num32("block_count"@)->0,
    ensures
        match r {
            Ok(s) => head_fault(h) is None && body_fault(h, a) is None && s == common_shape(h, a),
            Err(e) => match head_fault(h) {
                Some(k) => e.fault() == Fault::Meta(k),
                None => body_fault(h, a) is Some && e.fault() == Fault::Meta(body_fault(h, a)->0),
            },
        },
{
    match read_head_fault(h) {
        Some(e) => {
            return Err(e);
        },
        None => {},
    }
    let n_layer: u32 = h.get_num32_or("block_count", 0);
    let nextn: u32 = if a == Arch::Deepseek4 {
        0
    } else {
        h.get_num32_or("nextn_predict_layers", 0)
    };
    let n_exec_layer: u32 = n_layer - nextn;
    match read_body_fault(h, a) {
        Some(e) => {
            return Err(e);
        },
        None => {},
    }
    let dense: bool = a == Arch::Qwen35;
    let n_tokens: usize = h.n_tokens.unwrap();
    let n_leading_dense: u32 = match read_leading_dense(h, a) {
        Some(n) => n,
        None => 0,
    };
    let width_key: &str = if dense { "feed_forward_length" } else { "expert_feed_forward_length" };
    let n_ff_dense: u32 = match read_dense_width(h, a) {
        Some(n) => n,
        None => 0,
    };
    Ok(
        Shape {
            family: a.family(),
            n_embd: h.get_num32_or("embedding_length", 0),
            n_head: read_per_layer_max(h, "attention.head_count"),
            n_head_kv: read_per_layer_max(h, "attention.head_count_kv"),
            head_dim: h.get_num32_or("attention.key_length", 0),
            n_layer,
            n_exec_layer,
            n_leading_dense,
            n_expert: if dense { 1 } else { h.get_num32_or("expert_count", 0) },
            n_expert_used: if dense { 1 } else { h.get_num32_or("expert_used_count", 0) },
            n_ff_exp: h.get_num32_or(width_key, 0),
            n_ff_dense,
            n_vocab: header::cut32(n_tokens as u64),
            expert_weight_scale: h.get_bits_or("expert_weights_scale", F32_ONE),
            router_softmax: a == Arch::Qwen3Moe || a == Arch::Gemma4 || a == Arch::Qwen35Moe || a
                == Arch::GptOss,
            rope_yarn_uniform: a == Arch::GptOss,
            moe_act_op: match a {
                Arch::Gemma4 => 1,
                Arch::MinimaxM3 | Arch::GptOss => 2,
                Arch::KimiK3 => 4,
                _ => 0,
            },
            rope_freq_base: h.get_bits_or("rope.freq_base", 0x461c_4000),
            rms_eps: h.get_bits_or("attention.layer_norm_rms_epsilon", 0),
            n_lora_q: 0,
            n_kv_lora: 0,
            qk_nope: 0,
            qk_rope: 0,
            value_mla: 0,
            rope_orig_ctx: 0,
            rot_dim: 0,
            n_idx_head: 0,
            n_idx_dim: 0,
            n_idx_topk: 0,
            rope_scale_factor: F32_ONE,
            rope_yarn_log_mult: F32_ZERO,
            n_shexp_sink: 0,
            d_rel: 0,
            rel_ext: 0,
            rel_ext_swa: 0,
            sconv_k: 0,
            n_swa: 0,
            n_hash_layer: 0,
            n_hc: 0,
            hc_sinkhorn: 0,
            hc_eps: F32_ZERO,
            compress_rope_base: F32_ZERO,
            n_out_group: 0,
            ssm_conv_k: 0,
            ssm_state: 0,
            ssm_k_heads: 0,
            ssm_v_heads: 0,
            ssm_inner: 0,
            full_attn_interval: 0,
            clamp_exp: F32_ZERO,
            kda_head_dim: 0,
            kda_gate_lb: F32_ZERO,
            n_expert_latent: 0,
            attn_res_block: 0,
            n_ff_shexp: 0,
        },
    )
}

fn read_gqa(h: &Header, a: Arch, base: Shape) -> (r: Result<Shape, Error>)
    requires
        a == Arch::Inkling && h.num32("expert_shared_count"@) is Some ==> base.n_expert_used
            + h.num32("expert_shared_count"@)->0 <= u32::MAX,
    ensures
        match r {
            Ok(s) => extra_fault(h, a) is None && s == gqa_shape(h, a, base),
            Err(e) => extra_fault(h, a) is Some && e.fault() == Fault::Meta(extra_fault(h, a)->0),
        },
{
    let mut s: Shape = base;
    if a == Arch::Laguna || a == Arch::GptOss {
        let native: u32 = if a == Arch::Laguna { 8192 } else { 4096 };
        s.rope_scale_factor = h.get_bits_or("rope.scaling.factor", F32_ONE);
        s.rope_orig_ctx = h.get_num32_or("rope.scaling.original_context_length", native);
    }
    if a != Arch::Inkling {
        s.rot_dim = h.get_num32_or("rope.dimension_count", base.head_dim);
        return Ok(s);
    }
    s.rot_dim = 0;
    s.n_shexp_sink = match h.get_num32("expert_shared_count") {
        Some(n) => n,
        None => {
            return Err(meta_err("expert_shared_count"));
        },
    };
    s.n_expert_used = s.n_expert_used + s.n_shexp_sink;
    s.d_rel = match h.get_num32("d_rel") {
        Some(n) => n,
        None => {
            return Err(meta_err("d_rel"));
        },
    };
    s.rel_ext = match h.get_num32("rel_extent") {
        Some(n) => n,
        None => {
            return Err(meta_err("rel_extent"));
        },
    };
    s.rel_ext_swa = match h.get_num32("rel_extent_swa") {
        Some(n) => n,
        None => {
            return Err(meta_err("rel_extent_swa"));
        },
    };
    s.sconv_k = match h.get_num32("shortconv_kernel") {
        Some(n) => n,
        None => {
            return Err(meta_err("shortconv_kernel"));
        },
    };
    Ok(s)
}

fn read_mla(h: &Header, base: Shape) -> (s: Shape)
    requires
        h.num32_or("rope.dimension_count"@, 64) <= h.num32_or("attention.key_length_mla"@, 256),
    ensures
        s == mla_shape(h, base),
{
    let qk_rope: u32 = h.get_num32_or("rope.dimension_count", 64);
    let qk_mla: u32 = h.get_num32_or("attention.key_length_mla", 256);
    let mut s: Shape = base;
    s.n_lora_q = h.get_num32_or("attention.q_lora_rank", 2048);
    s.n_kv_lora = h.get_num32_or("attention.kv_lora_rank", 512);
    s.qk_rope = qk_rope;
    s.qk_nope = qk_mla - qk_rope;
    s.value_mla = h.get_num32_or("attention.value_length_mla", 256);
    s.rope_orig_ctx = h.get_num32_or("rope.scaling.original_context_length", 1_048_576);
    s.n_idx_head = h.get_num32_or("attention.indexer.head_count", 0);
    s.n_idx_dim = h.get_num32_or("attention.indexer.key_length", 0);
    s.n_idx_topk = h.get_num32_or("attention.indexer.top_k", 0);
    s.rope_scale_factor = h.get_bits_or("rope.scaling.factor", F32_ONE);
    s.rope_yarn_log_mult = h.get_bits_or("rope.scaling.yarn_log_multiplier", F32_ZERO);
    s
}

fn read_qwen(h: &Header, base: Shape) -> (s: Shape)
    ensures
        s == qwen_shape(h, base),
{
    let mut s: Shape = base;
    s.rot_dim = h.get_num32_or("rope.dimension_count", 64);
    s.ssm_conv_k = h.get_num32_or("ssm.conv_kernel", 4);
    s.ssm_state = h.get_num32_or("ssm.state_size", 128);
    s.ssm_k_heads = h.get_num32_or("ssm.group_count", 16);
    s.ssm_v_heads = h.get_num32_or("ssm.time_step_rank", 32);
    s.ssm_inner = h.get_num32_or("ssm.inner_size", 4096);
    s.full_attn_interval = h.get_num32_or("full_attention_interval", 4);
    s
}

fn read_k3(h: &Header, base: Shape) -> (s: Shape)
    requires
        h.num32_or("rope.dimension_count"@, 64) <= h.num32_or("attention.key_length_mla"@, 192),
        base.n_head * h.num32_or("kda.head_dim"@, 128) <= u32::MAX,
        base.n_ff_exp * h.num32_or("expert_shared_count"@, 1) <= u32::MAX,
    ensures
        s == k3_shape(h, base),
{
    let qk_rope: u32 = h.get_num32_or("rope.dimension_count", 64);
    let qk_mla: u32 = h.get_num32_or("attention.key_length_mla", 192);
    let kda: u32 = h.get_num32_or("kda.head_dim", 128);
    let shared: u32 = base.n_ff_exp * h.get_num32_or("expert_shared_count", 1);
    let mut s: Shape = base;
    s.n_lora_q = h.get_num32_or("attention.q_lora_rank", 1536);
    s.n_kv_lora = h.get_num32_or("attention.kv_lora_rank", 512);
    s.qk_rope = qk_rope;
    s.qk_nope = qk_mla - qk_rope;
    s.value_mla = h.get_num32_or("attention.value_length_mla", 128);
    s.kda_head_dim = kda;
    s.ssm_conv_k = h.get_num32_or("ssm.conv_kernel", 4);
    s.ssm_inner = base.n_head * kda;
    s.ssm_k_heads = base.n_head;
    s.ssm_v_heads = base.n_head;
    s.ssm_state = kda;
    s.kda_gate_lb = h.get_bits_or("kda.gate_lower_bound", 0xc0a0_0000);
    s.n_expert_latent = h.get_num32_or("expert_latent_length", 0);
    s.attn_res_block = h.get_num32_or("attn_res.block_size", 0);
    s.n_ff_shexp = match h.get_num32("expert_shared_feed_forward_length") {
        Some(n) => n,
        None => shared,
    };
    s.rope_orig_ctx = h.get_num32_or("rope.scaling.original_context_length", 1_048_576);
    s
}

fn read_clamp(h: &Header) -> (r: u32)
    ensures
        r == clamp_of(h),
{
    match h.get_list("swiglu_clamp_exp") {
        Some(l) => {
            if l.len() > 0 {
                match l[0].bits {
                    Some(b) => b,
                    None => 0x4120_0000,
                }
            } else {
                0x4120_0000
            }
        },
        None => 0x4120_0000,
    }
}

fn read_dsv4(h: &Header, base: Shape) -> (s: Shape)
    ensures
        s == dsv4_shape(h, base),
{
    let mut s: Shape = base;
    s.n_lora_q = h.get_num32_or("attention.q_lora_rank", 1024);
    s.rot_dim = h.get_num32_or("rope.dimension_count", 64);
    s.rope_orig_ctx = h.get_num32_or("rope.scaling.original_context_length", 65_536);
    s.rope_scale_factor = h.get_bits_or("rope.scaling.factor", 0x4180_0000);
    s.n_idx_head = h.get_num32_or("attention.indexer.head_count", 64);
    s.n_idx_dim = h.get_num32_or("attention.indexer.key_length", 128);
    s.n_idx_topk = h.get_num32_or("attention.indexer.top_k", 512);
    s.n_swa = h.get_num32_or("attention.sliding_window", 128);
    s.n_hash_layer = h.get_num32_or("hash_layer_count", 3);
    s.n_hc = h.get_num32_or("hyper_connection.count", 4);
    s.hc_sinkhorn = h.get_num32_or("hyper_connection.sinkhorn_iterations", 20);
    s.hc_eps = h.get_bits_or("hyper_connection.epsilon", 0x3586_37bd);
    s.compress_rope_base = h.get_bits_or("attention.compress_rope_freq_base", 0x481c_4000);
    s.n_out_group = h.get_num32_or("attention.output_group_count", 8);
    s.clamp_exp = read_clamp(h);
    s
}

} // verus!
