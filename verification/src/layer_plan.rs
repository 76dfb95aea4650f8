//! What a layer loads: which tensors, in which order, in which form and on
//! which card.

use vstd::prelude::*;

use crate::header;
use crate::header::Header;
use crate::shape::{Arch, Family, Shape};

verus! {

/// Form in which a tensor is loaded.
#[derive(Clone, Copy, Debug, PartialEq, Eq, Hash, Structural)]
pub enum Form {
    /// As stored, or as 8-bit blocks where no kernel reads it as stored.
    Plain,
    /// Like `Plain`, in device memory while the attention budget lasts.
    Attn,
    /// Like `Attn`, on the budget of small tensors.
    Small,
    /// A matrix, as stored where a kernel reads it.
    Mat,
    /// As stored, a k-quant matrix.
    Kq,
    /// Widened to 32-bit floats.
    Float,
    /// Half floats as 8-bit blocks, on the attention budget.
    HalfBlocks,
    /// Half floats widened to 32-bit floats.
    HalfFloat,
    /// 32-bit floats that stay on the host.
    HostFloat,
    /// A table of 32-bit integers that stays on the host.
    HostTable,
    /// One 32-bit float.
    Scalar,
    /// One 32-bit float, one when it cannot be read.
    ScalarOrOne,
    /// Not in the file: one zero per expert.
    Zeros,
    /// Not in the file: zeros that stay on the host.
    HostZeros,
    /// Streamed, one slab per expert.
    Experts,
    /// Streamed, one slab per shared expert.
    SharedExperts,
    /// 32-bit floats over the square root of the embedding width.
    RouterNorm,
    /// 32-bit floats, transposed.
    Transposed,
}

/// Card on which a tensor is placed.
#[derive(Clone, Copy, Debug, PartialEq, Eq, Structural)]
pub enum Home {
    /// The card that owns the layer.
    Layer,
    /// The card of the layer's attention.
    Attn,
    /// The primary card.
    Primary,
    /// Where loading goes on behind the attention stack.
    After,
    /// The first attention card off the primary.
    Offload,
}

/// One tensor to load.
#[derive(Clone, Copy, Debug)]
pub struct Step {
    pub part: &'static str,
    pub form: Form,
    pub home: Home,
}

/// The card a step runs on.
pub fn card_of(home: Home, layer_dev: i32, attn_layer_dev: i32, attn_dev: Option<i32>, primary: i32) -> (d:
    i32)
    ensures
        d == match home {
            Home::Layer => layer_dev,
            Home::Attn => if attn_layer_dev != primary { attn_layer_dev } else { layer_dev },
            Home::Primary => primary,
            Home::After => if attn_layer_dev != primary { primary } else { layer_dev },
            Home::Offload => match attn_dev {
                Some(d) => d,
                None => layer_dev,
            },
        },
{
    match home {
        Home::Layer => layer_dev,
        Home::Attn => if attn_layer_dev != primary {
            attn_layer_dev
        } else {
            layer_dev
        },
        Home::Primary => primary,
        Home::After => if attn_layer_dev != primary {
            primary
        } else {
            layer_dev
        },
        Home::Offload => match attn_dev {
            Some(d) => d,
            None => layer_dev,
        },
    }
}

/// Layer `il` has this part.
pub open spec fn carries(h: &Header, il: nat, part: Seq<char>) -> bool {
    h.tensor_named(header::blk_name(il, part)) is Some
}

fn has_part(h: &Header, il: u32, part: &str) -> (r: bool)
    ensures
        r == carries(h, il as nat, part@),
{
    let name = header::blk(il as u64, part);
    h.tensor(name.as_str()).is_some()
}

pub open spec fn step(part: &'static str, form: Form, home: Home) -> Step {
    Step { part, form, home }
}

fn put(v: &mut Vec<Step>, part: &'static str, form: Form, home: Home)
    ensures
        final(v)@ == old(v)@.push(step(part, form, home)),
{
    v.push(Step { part, form, home });
}

/// `s` where `c` holds, nothing otherwise.
pub open spec fn only(c: bool, s: Seq<Step>) -> Seq<Step> {
    if c {
        s
    } else {
        Seq::empty()
    }
}

/// The three plain feed-forward matrices.
pub open spec fn plain_ffn(form: Form) -> Seq<Step> {
    seq![
        step("ffn_gate.weight", form, Home::Layer),
        step("ffn_up.weight", form, Home::Layer),
        step("ffn_down.weight", form, Home::Layer),
    ]
}

fn put_plain_ffn(v: &mut Vec<Step>, form: Form)
    ensures
        final(v)@ == old(v)@ + plain_ffn(form),
{
    put(v, "ffn_gate.weight", form, Home::Layer);
    put(v, "ffn_up.weight", form, Home::Layer);
    put(v, "ffn_down.weight", form, Home::Layer);
    assert(v@ =~= old(v)@ + plain_ffn(form));
}

/// The routed-expert matrices that come first: one that holds gate and up,
/// or both.
pub open spec fn gate_up(h: &Header, il: nat) -> Seq<Step> {
    if carries(h, il, "ffn_gate_up_exps.weight"@) {
        seq![step("ffn_gate_up_exps.weight", Form::Experts, Home::Layer)]
    } else {
        seq![
            step("ffn_gate_exps.weight", Form::Experts, Home::Layer),
            step("ffn_up_exps.weight", Form::Experts, Home::Layer),
        ]
    }
}

/// The router's bias, under either name, or zeros.
pub open spec fn router_bias(h: &Header, il: nat) -> Step {
    if carries(h, il, "exp_probs_b"@) {
        step("exp_probs_b", Form::Plain, Home::Layer)
    } else if carries(h, il, "exp_probs_b.bias"@) {
        step("exp_probs_b.bias", Form::Plain, Home::Layer)
    } else {
        step("exp_probs_b.bias", Form::Zeros, Home::Layer)
    }
}

/// The always-on expert beside the routed ones.
pub open spec fn shared_ffn(h: &Header, s: &Shape, arch: Arch, il: nat) -> Seq<Step> {
    if arch != Arch::Inkling && s.family != Family::K3 && carries(h, il, "ffn_gate_shexp.weight"@) {
        seq![
            step("ffn_gate_shexp.weight", Form::Plain, Home::Layer),
            step("ffn_up_shexp.weight", Form::Plain, Home::Layer),
            step("ffn_down_shexp.weight", Form::Plain, Home::Layer),
        ]
    } else if arch == Arch::Gemma4 {
        plain_ffn(Form::Plain)
    } else {
        Seq::empty()
    }
}

/// Gate and up experts, router, and the always-on expert.
pub open spec fn moe_front(h: &Header, s: &Shape, arch: Arch, il: nat) -> Seq<Step> {
    gate_up(h, il) + seq![
        step("ffn_gate_inp.weight", Form::Float, Home::Layer),
        router_bias(h, il),
    ] + shared_ffn(h, s, arch, il)
}

/// Down experts, and what only some files have.
pub open spec fn moe_rest(h: &Header, arch: Arch, il: nat) -> Seq<Step> {
    seq![
        step("ffn_down_exps.weight", Form::Experts, Home::Layer),
    ] + only(
        carries(h, il, "ffn_down_exps.scale"@),
        seq![step("ffn_down_exps.scale", Form::Plain, Home::Layer)],
    ) + only(
        arch == Arch::Inkling,
        seq![
            step("ffn_gate_shexp.weight", Form::SharedExperts, Home::Layer),
            step("ffn_up_shexp.weight", Form::SharedExperts, Home::Layer),
            step("ffn_down_shexp.weight", Form::SharedExperts, Home::Layer),
        ],
    ) + only(
        carries(h, il, "ffn_gate_inp.bias"@),
        seq![step("ffn_gate_inp.bias", Form::Plain, Home::Layer)],
    ) + only(
        carries(h, il, "ffn_gate_exps.bias"@),
        seq![
            step("ffn_gate_exps.bias", Form::Plain, Home::Layer),
            step("ffn_up_exps.bias", Form::Plain, Home::Layer),
            step("ffn_down_exps.bias", Form::Plain, Home::Layer),
        ],
    )
}

/// What a layer of routed experts loads.
pub open spec fn moe_steps(h: &Header, s: &Shape, arch: Arch, il: nat) -> Seq<Step> {
    moe_front(h, s, arch, il) + moe_rest(h, arch, il)
}

/// How a layer's feed-forward half runs.
#[derive(Clone, Copy, Debug, PartialEq, Eq, Structural)]
pub enum FfnKind {
    Dense,
    /// Dense, as stored.
    DenseKq,
    Moe,
}

pub open spec fn ffn_kind_of(h: &Header, s: &Shape, il: nat) -> FfnKind {
    if il < s.n_leading_dense {
        FfnKind::Dense
    } else if s.family == Family::Qwen35 && !carries(h, il, "ffn_gate_exps.weight"@) {
        FfnKind::DenseKq
    } else {
        FfnKind::Moe
    }
}

/// How a layer's feed-forward half runs.
pub fn ffn_kind(h: &Header, s: &Shape, il: u32) -> (k: FfnKind)
    ensures
        k == ffn_kind_of(h, s, il as nat),
{
    if il < s.n_leading_dense {
        FfnKind::Dense
    } else if s.family == Family::Qwen35 && !has_part(h, il, "ffn_gate_exps.weight") {
        FfnKind::DenseKq
    } else {
        FfnKind::Moe
    }
}

/// What the feed-forward half of a layer loads.
pub open spec fn ffn_steps(h: &Header, s: &Shape, arch: Arch, il: nat) -> Seq<Step> {
    match ffn_kind_of(h, s, il) {
        FfnKind::Dense => plain_ffn(Form::Plain),
        FfnKind::DenseKq => plain_ffn(Form::Kq),
        FfnKind::Moe => moe_steps(h, s, arch, il),
    }
}

fn moe_plan(h: &Header, s: &Shape, arch: Arch, il: u32) -> (v: Vec<Step>)
    ensures
        v@ == moe_steps(h, s, arch, il as nat),
{
    let mut v = front_plan(h, s, arch, il);
    let mut w = rest_plan(h, arch, il);
    v.append(&mut w);
    v
}

fn front_plan(h: &Header, s: &Shape, arch: Arch, il: u32) -> (v: Vec<Step>)
    ensures
        v@ == moe_front(h, s, arch, il as nat),
{
    let mut v: Vec<Step> = Vec::new();
    let ghost n = il as nat;
    if has_part(h, il, "ffn_gate_up_exps.weight") {
        put(&mut v, "ffn_gate_up_exps.weight", Form::Experts, Home::Layer);
    } else {
        put(&mut v, "ffn_gate_exps.weight", Form::Experts, Home::Layer);
        put(&mut v, "ffn_up_exps.weight", Form::Experts, Home::Layer);
    }
    assert(v@ == gate_up(h, n));
    let ghost v1 = v@;
    put(&mut v, "ffn_gate_inp.weight", Form::Float, Home::Layer);
    if has_part(h, il, "exp_probs_b") {
        put(&mut v, "exp_probs_b", Form::Plain, Home::Layer);
    } else if has_part(h, il, "exp_probs_b.bias") {
        put(&mut v, "exp_probs_b.bias", Form::Plain, Home::Layer);
    } else {
        put(&mut v, "exp_probs_b.bias", Form::Zeros, Home::Layer);
    }
    assert(v@ =~= v1 + seq![
        step("ffn_gate_inp.weight", Form::Float, Home::Layer),
        router_bias(h, n),
    ]);
    let ghost v2 = v@;
    if arch != Arch::Inkling && s.family != Family::K3 && has_part(h, il, "ffn_gate_shexp.weight") {
        put(&mut v, "ffn_gate_shexp.weight", Form::Plain, Home::Layer);
        put(&mut v, "ffn_up_shexp.weight", Form::Plain, Home::Layer);
        put(&mut v, "ffn_down_shexp.weight", Form::Plain, Home::Layer);
    } else if arch == Arch::Gemma4 {
        put_plain_ffn(&mut v, Form::Plain);
    }
    assert(v@ =~= v2 + shared_ffn(h, s, arch, n));
    v
}

fn rest_plan(h: &Header, arch: Arch, il: u32) -> (v: Vec<Step>)
    ensures
        v@ == moe_rest(h, arch, il as nat),
{
    let mut v: Vec<Step> = Vec::new();
    put(&mut v, "ffn_down_exps.weight", Form::Experts, Home::Layer);
    let ghost v4 = v@;
    let scaled: bool = has_part(h, il, "ffn_down_exps.scale");
    if scaled {
        put(&mut v, "ffn_down_exps.scale", Form::Plain, Home::Layer);
    }
    assert(v@ =~= v4 + only(
        scaled,
        seq![step("ffn_down_exps.scale", Form::Plain, Home::Layer)],
    ));
    let ghost v5 = v@;
    if arch == Arch::Inkling {
        put(&mut v, "ffn_gate_shexp.weight", Form::SharedExperts, Home::Layer);
        put(&mut v, "ffn_up_shexp.weight", Form::SharedExperts, Home::Layer);
        put(&mut v, "ffn_down_shexp.weight", Form::SharedExperts, Home::Layer);
    }
    assert(v@ =~= v5 + only(
        arch == Arch::Inkling,
        seq![
            step("ffn_gate_shexp.weight", Form::SharedExperts, Home::Layer),
            step("ffn_up_shexp.weight", Form::SharedExperts, Home::Layer),
            step("ffn_down_shexp.weight", Form::SharedExperts, Home::Layer),
        ],
    ));
    let ghost v6 = v@;
    let biased: bool = has_part(h, il, "ffn_gate_inp.bias");
    if biased {
        put(&mut v, "ffn_gate_inp.bias", Form::Plain, Home::Layer);
    }
    assert(v@ =~= v6 + only(
        biased,
        seq![step("ffn_gate_inp.bias", Form::Plain, Home::Layer)],
    ));
    let ghost v7 = v@;
    let exp_biased: bool = has_part(h, il, "ffn_gate_exps.bias");
    if exp_biased {
        put(&mut v, "ffn_gate_exps.bias", Form::Plain, Home::Layer);
        put(&mut v, "ffn_up_exps.bias", Form::Plain, Home::Layer);
        put(&mut v, "ffn_down_exps.bias", Form::Plain, Home::Layer);
    }
    assert(v@ =~= v7 + only(
        exp_biased,
        seq![
            step("ffn_gate_exps.bias", Form::Plain, Home::Layer),
            step("ffn_up_exps.bias", Form::Plain, Home::Layer),
            step("ffn_down_exps.bias", Form::Plain, Home::Layer),
        ],
    ));
    v
}

/// Grouped-query attention.
pub open spec fn gqa_steps(h: &Header, il: nat) -> Seq<Step> {
    seq![
        step("attn_q.weight", Form::Attn, Home::Attn),
        step("attn_k.weight", Form::Attn, Home::Attn),
    ] + only(
        carries(h, il, "attn_v.weight"@),
        seq![step("attn_v.weight", Form::Attn, Home::Attn)],
    ) + only(
        carries(h, il, "attn_q_norm.weight"@),
        seq![step("attn_q_norm.weight", Form::Plain, Home::Attn)],
    ) + only(
        carries(h, il, "attn_k_norm.weight"@),
        seq![step("attn_k_norm.weight", Form::Plain, Home::Attn)],
    ) + only(
        carries(h, il, "attn_sinks.weight"@),
        seq![step("attn_sinks.weight", Form::Plain, Home::Attn)],
    )
}

fn put_gqa(v: &mut Vec<Step>, h: &Header, il: u32)
    ensures
        final(v)@ == old(v)@ + gqa_steps(h, il as nat),
{
    put(v, "attn_q.weight", Form::Attn, Home::Attn);
    put(v, "attn_k.weight", Form::Attn, Home::Attn);
    if has_part(h, il, "attn_v.weight") {
        put(v, "attn_v.weight", Form::Attn, Home::Attn);
    }
    if has_part(h, il, "attn_q_norm.weight") {
        put(v, "attn_q_norm.weight", Form::Plain, Home::Attn);
    }
    if has_part(h, il, "attn_k_norm.weight") {
        put(v, "attn_k_norm.weight", Form::Plain, Home::Attn);
    }
    if has_part(h, il, "attn_sinks.weight") {
        put(v, "attn_sinks.weight", Form::Plain, Home::Attn);
    }
    assert(v@ =~= old(v)@ + gqa_steps(h, il as nat));
}

/// Latent attention, with its key-row selection where the layer has one.
pub open spec fn mla_steps(h: &Header, s: &Shape, il: nat) -> Seq<Step> {
    seq![
        step("attn_q_a.weight", Form::Small, Home::Attn),
        step("attn_q_a_norm.weight", Form::Plain, Home::Attn),
        step("attn_q_b.weight", Form::Attn, Home::Attn),
        step("attn_kv_a_mqa.weight", Form::Small, Home::Attn),
        step("attn_kv_a_norm.weight", Form::Plain, Home::Attn),
        step("attn_k_b.weight", Form::Small, Home::Attn),
        step("attn_v_b.weight", Form::Small, Home::Attn),
    ] + only(
        s.n_idx_topk > 0 && carries(h, il, "indexer.attn_q_b.weight"@),
        seq![
            step("indexer.attn_q_b.weight", Form::Plain, Home::Attn),
            step("indexer.attn_k.weight", Form::Plain, Home::Attn),
            step("indexer.k_norm.weight", Form::Plain, Home::Attn),
            step("indexer.k_norm.bias", Form::Plain, Home::Attn),
            step("indexer.proj.weight", Form::Plain, Home::Attn),
        ],
    )
}

fn put_mla(v: &mut Vec<Step>, h: &Header, s: &Shape, il: u32)
    ensures
        final(v)@ == old(v)@ + mla_steps(h, s, il as nat),
{
    put(v, "attn_q_a.weight", Form::Small, Home::Attn);
    put(v, "attn_q_a_norm.weight", Form::Plain, Home::Attn);
    put(v, "attn_q_b.weight", Form::Attn, Home::Attn);
    put(v, "attn_kv_a_mqa.weight", Form::Small, Home::Attn);
    put(v, "attn_kv_a_norm.weight", Form::Plain, Home::Attn);
    put(v, "attn_k_b.weight", Form::Small, Home::Attn);
    put(v, "attn_v_b.weight", Form::Small, Home::Attn);
    if s.n_idx_topk > 0 && has_part(h, il, "indexer.attn_q_b.weight") {
        put(v, "indexer.attn_q_b.weight", Form::Plain, Home::Attn);
        put(v, "indexer.attn_k.weight", Form::Plain, Home::Attn);
        put(v, "indexer.k_norm.weight", Form::Plain, Home::Attn);
        put(v, "indexer.k_norm.bias", Form::Plain, Home::Attn);
        put(v, "indexer.proj.weight", Form::Plain, Home::Attn);
    }
    assert(v@ =~= old(v)@ + mla_steps(h, s, il as nat));
}

/// The compressor of the key/value rows.
pub open spec fn compressor() -> Seq<Step> {
    seq![
        step("attn_compressor_kv.weight", Form::HalfBlocks, Home::Attn),
        step("attn_compressor_gate.weight", Form::HalfBlocks, Home::Attn),
        step("attn_compressor_ape.weight", Form::HalfFloat, Home::Attn),
        step("attn_compressor_norm.weight", Form::Float, Home::Attn),
    ]
}

/// The key-row selection of a layer that compresses by four.
pub open spec fn selector() -> Seq<Step> {
    seq![
        step("indexer.attn_q_b.weight", Form::HalfBlocks, Home::Attn),
        step("indexer.proj.weight", Form::HalfFloat, Home::Attn),
        step("indexer_compressor_kv.weight", Form::HalfBlocks, Home::Attn),
        step("indexer_compressor_gate.weight", Form::HalfBlocks, Home::Attn),
        step("indexer_compressor_ape.weight", Form::HalfFloat, Home::Attn),
        step("indexer_compressor_norm.weight", Form::Float, Home::Attn),
    ]
}

/// The stack every hyper-connection layer has.
pub open spec fn dsv4_base() -> Seq<Step> {
    seq![
        step("attn_q_a.weight", Form::Attn, Home::Attn),
        step("attn_q_a_norm.weight", Form::Plain, Home::Attn),
        step("attn_q_b.weight", Form::Attn, Home::Attn),
        step("attn_kv.weight", Form::Attn, Home::Attn),
        step("attn_kv_a_norm.weight", Form::Plain, Home::Attn),
        step("attn_output_a.weight", Form::Attn, Home::Attn),
        step("attn_sinks.weight", Form::Plain, Home::Attn),
        step("hc_attn_fn.weight", Form::HalfFloat, Home::Attn),
        step("hc_ffn_fn.weight", Form::HalfFloat, Home::Attn),
        step("hc_attn_scale.weight", Form::Float, Home::Attn),
        step("hc_attn_base.weight", Form::Float, Home::Attn),
        step("hc_ffn_scale.weight", Form::Float, Home::Attn),
        step("hc_ffn_base.weight", Form::Float, Home::Attn),
    ]
}

/// The router's bias on the host; zeros where selection goes by token.
pub open spec fn host_bias(h: &Header, il: nat) -> Step {
    if carries(h, il, "exp_probs_b.bias"@) {
        step("exp_probs_b.bias", Form::HostFloat, Home::Attn)
    } else {
        step("exp_probs_b.bias", Form::HostZeros, Home::Attn)
    }
}

/// Hyper-connection attention, with the compressors its ratio asks for.
pub open spec fn dsv4_steps(h: &Header, il: nat, ratio: u32) -> Seq<Step> {
    only(
        carries(h, il, "ffn_gate_tid2eid.weight"@),
        seq![step("ffn_gate_tid2eid.weight", Form::HostTable, Home::Attn)],
    ) + dsv4_base() + seq![host_bias(h, il)] + only(ratio != 0, compressor()) + only(
        ratio == 4,
        selector(),
    )
}

fn base_plan() -> (v: Vec<Step>)
    ensures
        v@ == dsv4_base(),
{
    let mut v: Vec<Step> = Vec::new();
    put(&mut v, "attn_q_a.weight", Form::Attn, Home::Attn);
    put(&mut v, "attn_q_a_norm.weight", Form::Plain, Home::Attn);
    put(&mut v, "attn_q_b.weight", Form::Attn, Home::Attn);
    put(&mut v, "attn_kv.weight", Form::Attn, Home::Attn);
    put(&mut v, "attn_kv_a_norm.weight", Form::Plain, Home::Attn);
    put(&mut v, "attn_output_a.weight", Form::Attn, Home::Attn);
    put(&mut v, "attn_sinks.weight", Form::Plain, Home::Attn);
    put(&mut v, "hc_attn_fn.weight", Form::HalfFloat, Home::Attn);
    put(&mut v, "hc_ffn_fn.weight", Form::HalfFloat, Home::Attn);
    put(&mut v, "hc_attn_scale.weight", Form::Float, Home::Attn);
    put(&mut v, "hc_attn_base.weight", Form::Float, Home::Attn);
    put(&mut v, "hc_ffn_scale.weight", Form::Float, Home::Attn);
    put(&mut v, "hc_ffn_base.weight", Form::Float, Home::Attn);
    v
}

fn compressor_plan() -> (v: Vec<Step>)
    ensures
        v@ == compressor(),
{
    let mut v: Vec<Step> = Vec::new();
    put(&mut v, "attn_compressor_kv.weight", Form::HalfBlocks, Home::Attn);
    put(&mut v, "attn_compressor_gate.weight", Form::HalfBlocks, Home::Attn);
    put(&mut v, "attn_compressor_ape.weight", Form::HalfFloat, Home::Attn);
    put(&mut v, "attn_compressor_norm.weight", Form::Float, Home::Attn);
    v
}

fn selector_plan() -> (v: Vec<Step>)
    ensures
        v@ == selector(),
{
    let mut v: Vec<Step> = Vec::new();
    put(&mut v, "indexer.attn_q_b.weight", Form::HalfBlocks, Home::Attn);
    put(&mut v, "indexer.proj.weight", Form::HalfFloat, Home::Attn);
    put(&mut v, "indexer_compressor_kv.weight", Form::HalfBlocks, Home::Attn);
    put(&mut v, "indexer_compressor_gate.weight", Form::HalfBlocks, Home::Attn);
    put(&mut v, "indexer_compressor_ape.weight", Form::HalfFloat, Home::Attn);
    put(&mut v, "indexer_compressor_norm.weight", Form::Float, Home::Attn);
    v
}

fn dsv4_plan(h: &Header, il: u32, ratio: u32) -> (v: Vec<Step>)
    ensures
        v@ == dsv4_steps(h, il as nat, ratio),
{
    let mut v: Vec<Step> = Vec::new();
    if has_part(h, il, "ffn_gate_tid2eid.weight") {
        put(&mut v, "ffn_gate_tid2eid.weight", Form::HostTable, Home::Attn);
    }
    let mut b = base_plan();
    v.append(&mut b);
    let ghost v1 = v@;
    if has_part(h, il, "exp_probs_b.bias") {
        put(&mut v, "exp_probs_b.bias", Form::HostFloat, Home::Attn);
    } else {
        put(&mut v, "exp_probs_b.bias", Form::HostZeros, Home::Attn);
    }
    assert(v@ =~= v1 + seq![host_bias(h, il as nat)]);
    let ghost v2 = v@;
    if ratio != 0 {
        let mut c = compressor_plan();
        v.append(&mut c);
    }
    assert(v@ =~= v2 + only(ratio != 0, compressor()));
    let ghost v3 = v@;
    if ratio == 4 {
        let mut c = selector_plan();
        v.append(&mut c);
    }
    assert(v@ =~= v3 + only(ratio == 4, selector()));
    v
}

/// Gated attention where the layer has a query matrix, DeltaNet otherwise.
pub open spec fn qwen35_steps(h: &Header, il: nat) -> Seq<Step> {
    (if carries(h, il, "attn_q.weight"@) {
        seq![
            step("attn_q.weight", Form::Mat, Home::Attn),
            step("attn_k.weight", Form::Mat, Home::Attn),
            step("attn_v.weight", Form::Mat, Home::Attn),
            step("attn_output.weight", Form::Mat, Home::Attn),
            step("attn_q_norm.weight", Form::Plain, Home::Attn),
            step("attn_k_norm.weight", Form::Plain, Home::Attn),
        ]
    } else {
        seq![
            step("attn_qkv.weight", Form::Mat, Home::Attn),
            step("attn_gate.weight", Form::Mat, Home::Attn),
            step("ssm_conv1d.weight", Form::Float, Home::Attn),
            step("ssm_alpha.weight", Form::Float, Home::Attn),
            step("ssm_beta.weight", Form::Float, Home::Attn),
            step("ssm_a", Form::Plain, Home::Attn),
            step("ssm_dt.bias", Form::Plain, Home::Attn),
            step("ssm_norm.weight", Form::Plain, Home::Attn),
            step("ssm_out.weight", Form::Mat, Home::Attn),
        ]
    }) + only(
        carries(h, il, "ffn_gate_inp_shexp.weight"@),
        seq![step("ffn_gate_inp_shexp.weight", Form::Float, Home::Attn)],
    )
}

fn put_qwen35(v: &mut Vec<Step>, h: &Header, il: u32)
    ensures
        final(v)@ == old(v)@ + qwen35_steps(h, il as nat),
{
    if has_part(h, il, "attn_q.weight") {
        put(v, "attn_q.weight", Form::Mat, Home::Attn);
        put(v, "attn_k.weight", Form::Mat, Home::Attn);
        put(v, "attn_v.weight", Form::Mat, Home::Attn);
        put(v, "attn_output.weight", Form::Mat, Home::Attn);
        put(v, "attn_q_norm.weight", Form::Plain, Home::Attn);
        put(v, "attn_k_norm.weight", Form::Plain, Home::Attn);
    } else {
        put(v, "attn_qkv.weight", Form::Mat, Home::Attn);
        put(v, "attn_gate.weight", Form::Mat, Home::Attn);
        put(v, "ssm_conv1d.weight", Form::Float, Home::Attn);
        put(v, "ssm_alpha.weight", Form::Float, Home::Attn);
        put(v, "ssm_beta.weight", Form::Float, Home::Attn);
        put(v, "ssm_a", Form::Plain, Home::Attn);
        put(v, "ssm_dt.bias", Form::Plain, Home::Attn);
        put(v, "ssm_norm.weight", Form::Plain, Home::Attn);
        put(v, "ssm_out.weight", Form::Mat, Home::Attn);
    }
    if has_part(h, il, "ffn_gate_inp_shexp.weight") {
        put(v, "ffn_gate_inp_shexp.weight", Form::Float, Home::Attn);
    }
    assert(v@ =~= old(v)@ + qwen35_steps(h, il as nat));
}

/// Delta attention where the layer has a decay, latent attention otherwise.
pub open spec fn k3_attn(h: &Header, il: nat) -> Seq<Step> {
    if carries(h, il, "ssm_a"@) {
        seq![
            step("attn_q.weight", Form::Mat, Home::Attn),
            step("attn_k.weight", Form::Mat, Home::Attn),
            step("attn_v.weight", Form::Mat, Home::Attn),
            step("ssm_conv1d_q.weight", Form::Plain, Home::Attn),
            step("ssm_conv1d_k.weight", Form::Plain, Home::Attn),
            step("ssm_conv1d_v.weight", Form::Plain, Home::Attn),
            step("ssm_f_a.weight", Form::Mat, Home::Attn),
            step("ssm_f_b.weight", Form::Float, Home::Attn),
            step("ssm_beta.weight", Form::Mat, Home::Attn),
            step("ssm_a", Form::Float, Home::Attn),
            step("ssm_dt.bias", Form::Plain, Home::Attn),
            step("ssm_g.weight", Form::Mat, Home::Attn),
            step("ssm_norm.weight", Form::Plain, Home::Attn),
            step("attn_output.weight", Form::Mat, Home::Attn),
        ]
    } else {
        seq![
            step("attn_q_a.weight", Form::Attn, Home::Attn),
            step("attn_q_a_norm.weight", Form::Plain, Home::Attn),
            step("attn_q_b.weight", Form::Attn, Home::Attn),
            step("attn_kv_a_mqa.weight", Form::Attn, Home::Attn),
            step("attn_kv_a_norm.weight", Form::Plain, Home::Attn),
            step("attn_k_b.weight", Form::Plain, Home::Attn),
            step("attn_v_b.weight", Form::Plain, Home::Attn),
            step("attn_gate.weight", Form::Mat, Home::Attn),
            step("attn_output.weight", Form::Mat, Home::Attn),
        ]
    }
}

/// The hybrid stack: attention and shared expert on the layer's card, what
/// the residual stream reads on the primary.
pub open spec fn k3_steps(h: &Header, il: nat) -> Seq<Step> {
    k3_attn(h, il) + seq![
        step("attn_res_score.weight", Form::Plain, Home::Primary),
        step("ffn_res_score.weight", Form::Plain, Home::Primary),
    ] + only(
        carries(h, il, "ffn_routed_down.weight"@),
        seq![
            step("ffn_routed_down.weight", Form::Mat, Home::Primary),
            step("ffn_routed_up.weight", Form::Mat, Home::Primary),
        ] + only(
            carries(h, il, "ffn_routed_norm.weight"@),
            seq![step("ffn_routed_norm.weight", Form::Plain, Home::Primary)],
        ),
    ) + only(
        carries(h, il, "ffn_gate_shexp.weight"@),
        seq![
            step("ffn_gate_shexp.weight", Form::Mat, Home::Attn),
            step("ffn_up_shexp.weight", Form::Mat, Home::Attn),
            step("ffn_down_shexp.weight", Form::Mat, Home::Attn),
        ],
    )
}

fn put_k3(v: &mut Vec<Step>, h: &Header, il: u32)
    ensures
        final(v)@ == old(v)@ + k3_steps(h, il as nat),
{
    let ghost v0 = v@;
    if has_part(h, il, "ssm_a") {
        put(v, "attn_q.weight", Form::Mat, Home::Attn);
        put(v, "attn_k.weight", Form::Mat, Home::Attn);
        put(v, "attn_v.weight", Form::Mat, Home::Attn);
        put(v, "ssm_conv1d_q.weight", Form::Plain, Home::Attn);
        put(v, "ssm_conv1d_k.weight", Form::Plain, Home::Attn);
        put(v, "ssm_conv1d_v.weight", Form::Plain, Home::Attn);
        put(v, "ssm_f_a.weight", Form::Mat, Home::Attn);
        put(v, "ssm_f_b.weight", Form::Float, Home::Attn);
        put(v, "ssm_beta.weight", Form::Mat, Home::Attn);
        put(v, "ssm_a", Form::Float, Home::Attn);
        put(v, "ssm_dt.bias", Form::Plain, Home::Attn);
        put(v, "ssm_g.weight", Form::Mat, Home::Attn);
        put(v, "ssm_norm.weight", Form::Plain, Home::Attn);
        put(v, "attn_output.weight", Form::Mat, Home::Attn);
    } else {
        put(v, "attn_q_a.weight", Form::Attn, Home::Attn);
        put(v, "attn_q_a_norm.weight", Form::Plain, Home::Attn);
        put(v, "attn_q_b.weight", Form::Attn, Home::Attn);
        put(v, "attn_kv_a_mqa.weight", Form::Attn, Home::Attn);
        put(v, "attn_kv_a_norm.weight", Form::Plain, Home::Attn);
        put(v, "attn_k_b.weight", Form::Plain, Home::Attn);
        put(v, "attn_v_b.weight", Form::Plain, Home::Attn);
        put(v, "attn_gate.weight", Form::Mat, Home::Attn);
        put(v, "attn_output.weight", Form::Mat, Home::Attn);
    }
    assert(v@ =~= v0 + k3_attn(h, il as nat));
    put(v, "attn_res_score.weight", Form::Plain, Home::Primary);
    put(v, "ffn_res_score.weight", Form::Plain, Home::Primary);
    if has_part(h, il, "ffn_routed_down.weight") {
        put(v, "ffn_routed_down.weight", Form::Mat, Home::Primary);
        put(v, "ffn_routed_up.weight", Form::Mat, Home::Primary);
        if has_part(h, il, "ffn_routed_norm.weight") {
            put(v, "ffn_routed_norm.weight", Form::Plain, Home::Primary);
        }
    }
    if has_part(h, il, "ffn_gate_shexp.weight") {
        put(v, "ffn_gate_shexp.weight", Form::Mat, Home::Attn);
        put(v, "ffn_up_shexp.weight", Form::Mat, Home::Attn);
        put(v, "ffn_down_shexp.weight", Form::Mat, Home::Attn);
    }
    assert(v@ =~= v0 + k3_steps(h, il as nat));
}

/// What the attention half of a layer loads.
pub open spec fn attn_steps(h: &Header, s: &Shape, il: nat, ratio: u32) -> Seq<Step> {
    match s.family {
        Family::Gqa => gqa_steps(h, il) + seq![step("attn_output.weight", Form::Attn, Home::Attn)],
        Family::Mla => mla_steps(h, s, il) + seq![
            step("attn_output.weight", Form::Attn, Home::Attn),
        ],
        Family::Dsv4 => dsv4_steps(h, il, ratio) + seq![
            step("attn_output_b.weight", Form::Attn, Home::Attn),
        ],
        Family::Qwen35 => qwen35_steps(h, il),
        Family::K3 => k3_steps(h, il),
    }
}

/// What two architectures load beyond the family's stack.
pub open spec fn extra_steps(arch: Arch) -> Seq<Step> {
    match arch {
        Arch::Gemma4 => seq![
            step("ffn_gate_inp.scale", Form::RouterNorm, Home::After),
            step("layer_output_scale.weight", Form::ScalarOrOne, Home::After),
            step("post_attention_norm.weight", Form::Plain, Home::After),
            step("pre_ffw_norm_2.weight", Form::Plain, Home::After),
            step("post_ffw_norm_1.weight", Form::Plain, Home::After),
            step("post_ffw_norm_2.weight", Form::Plain, Home::After),
            step("post_ffw_norm.weight", Form::Plain, Home::After),
        ],
        Arch::Inkling => seq![
            step("attn_rel_proj.weight", Form::Transposed, Home::Offload),
            step("attn_r.weight", Form::Attn, Home::Offload),
            step("shortconv_k.weight", Form::Float, Home::Offload),
            step("shortconv_v.weight", Form::Float, Home::Offload),
            step("shortconv_attn.weight", Form::Float, Home::After),
            step("shortconv_mlp.weight", Form::Float, Home::After),
            step("ffn_gscale.weight", Form::Scalar, Home::After),
        ],
        _ => Seq::empty(),
    }
}

/// What every layer loads last.
pub open spec fn tail_steps(h: &Header, il: nat) -> Seq<Step> {
    seq![step("attn_norm.weight", Form::Plain, Home::After)] + only(
        carries(h, il, "attn_q.bias"@),
        seq![
            step("attn_q.bias", Form::Plain, Home::After),
            step("attn_k.bias", Form::Plain, Home::After),
            step("attn_v.bias", Form::Plain, Home::After),
            step("attn_output.bias", Form::Plain, Home::After),
        ],
    ) + seq![
        if carries(h, il, "ffn_norm.weight"@) {
            step("ffn_norm.weight", Form::Plain, Home::After)
        } else {
            step("post_attention_norm.weight", Form::Plain, Home::After)
        },
    ] + only(
        carries(h, il, "attn_gate.weight"@),
        seq![step("attn_gate.weight", Form::Plain, Home::After)],
    )
}

/// Everything a layer loads, in order.
pub open spec fn layer_steps(h: &Header, s: &Shape, arch: Arch, il: nat, ratio: u32) -> Seq<Step> {
    ffn_steps(h, s, arch, il) + attn_steps(h, s, il, ratio) + extra_steps(arch) + tail_steps(h, il)
}

fn put_extra(v: &mut Vec<Step>, arch: Arch)
    ensures
        final(v)@ == old(v)@ + extra_steps(arch),
{
    match arch {
        Arch::Gemma4 => {
            put(v, "ffn_gate_inp.scale", Form::RouterNorm, Home::After);
            put(v, "layer_output_scale.weight", Form::ScalarOrOne, Home::After);
            put(v, "post_attention_norm.weight", Form::Plain, Home::After);
            put(v, "pre_ffw_norm_2.weight", Form::Plain, Home::After);
            put(v, "post_ffw_norm_1.weight", Form::Plain, Home::After);
            put(v, "post_ffw_norm_2.weight", Form::Plain, Home::After);
            put(v, "post_ffw_norm.weight", Form::Plain, Home::After);
        },
        Arch::Inkling => {
            put(v, "attn_rel_proj.weight", Form::Transposed, Home::Offload);
            put(v, "attn_r.weight", Form::Attn, Home::Offload);
            put(v, "shortconv_k.weight", Form::Float, Home::Offload);
            put(v, "shortconv_v.weight", Form::Float, Home::Offload);
            put(v, "shortconv_attn.weight", Form::Float, Home::After);
            put(v, "shortconv_mlp.weight", Form::Float, Home::After);
            put(v, "ffn_gscale.weight", Form::Scalar, Home::After);
        },
        _ => {},
    }
    assert(v@ =~= old(v)@ + extra_steps(arch));
}

fn put_tail(v: &mut Vec<Step>, h: &Header, il: u32)
    ensures
        final(v)@ == old(v)@ + tail_steps(h, il as nat),
{
    put(v, "attn_norm.weight", Form::Plain, Home::After);
    if has_part(h, il, "attn_q.bias") {
        put(v, "attn_q.bias", Form::Plain, Home::After);
        put(v, "attn_k.bias", Form::Plain, Home::After);
        put(v, "attn_v.bias", Form::Plain, Home::After);
        put(v, "attn_output.bias", Form::Plain, Home::After);
    }
    if has_part(h, il, "ffn_norm.weight") {
        put(v, "ffn_norm.weight", Form::Plain, Home::After);
    } else {
        put(v, "post_attention_norm.weight", Form::Plain, Home::After);
    }
    if has_part(h, il, "attn_gate.weight") {
        put(v, "attn_gate.weight", Form::Plain, Home::After);
    }
    assert(v@ =~= old(v)@ + tail_steps(h, il as nat));
}

/// Everything a layer loads, in order. `ratio` is the layer's compression
/// ratio, where the family has one.
pub fn plan_layer(h: &Header, s: &Shape, arch: Arch, il: u32, ratio: u32) -> (v: Vec<Step>)
    ensures
        v@ == layer_steps(h, s, arch, il as nat, ratio),
{
    let mut v: Vec<Step> = Vec::new();
    match ffn_kind(h, s, il) {
        FfnKind::Dense => {
            put_plain_ffn(&mut v, Form::Plain);
        },
        FfnKind::DenseKq => {
            put_plain_ffn(&mut v, Form::Kq);
        },
        FfnKind::Moe => {
            v = moe_plan(h, s, arch, il);
        },
    }
    assert(v@ =~= ffn_steps(h, s, arch, il as nat));
    let ghost v0 = v@;
    match s.family {
        Family::Gqa => {
            put_gqa(&mut v, h, il);
            put(&mut v, "attn_output.weight", Form::Attn, Home::Attn);
        },
        Family::Mla => {
            put_mla(&mut v, h, s, il);
            put(&mut v, "attn_output.weight", Form::Attn, Home::Attn);
        },
        Family::Dsv4 => {
            let mut w = dsv4_plan(h, il, ratio);
            v.append(&mut w);
            put(&mut v, "attn_output_b.weight", Form::Attn, Home::Attn);
        },
        Family::Qwen35 => {
            put_qwen35(&mut v, h, il);
        },
        Family::K3 => {
            put_k3(&mut v, h, il);
        },
    }
    assert(v@ =~= v0 + attn_steps(h, s, il as nat, ratio));
    put_extra(&mut v, arch);
    put_tail(&mut v, h, il);
    v
}

} // verus!
