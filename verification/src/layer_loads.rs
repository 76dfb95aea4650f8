//! What the layers of each family load, part by part.

use vstd::prelude::*;

use crate::header::Header;
use crate::layer_plan;
use crate::layer_plan::{FfnKind, Form, Home, Step};
use crate::shape::{Arch, Family, Shape};

verus! {

/// Some step loads this part, in this form, on this card.
pub open spec fn loads(v: Seq<Step>, part: Seq<char>, form: Form, home: Home) -> bool {
    exists|k: int|
        0 <= k < v.len() && (#[trigger] v[k]).part@ == part && v[k].form == form && v[k].home
            == home
}

/// `n` where `c` holds, none otherwise.
pub open spec fn count(c: bool, n: int) -> int {
    if c {
        n
    } else {
        0
    }
}

proof fn lemma_each(v: Seq<Step>)
    ensures
        forall|k: int|
            0 <= k < v.len() ==> loads(v, (#[trigger] v[k]).part@, v[k].form, v[k].home),
{
}

proof fn lemma_join(a: Seq<Step>, b: Seq<Step>)
    ensures
        forall|p: Seq<char>, f: Form, m: Home|
            loads(a, p, f, m) || loads(b, p, f, m) <==> #[trigger] loads(a + b, p, f, m),
{
    assert forall|p: Seq<char>, f: Form, m: Home|
        loads(a, p, f, m) || loads(b, p, f, m) <==> #[trigger] loads(a + b, p, f, m) by {
        if loads(a, p, f, m) {
            let k = choose|k: int|
                0 <= k < a.len() && (#[trigger] a[k]).part@ == p && a[k].form == f && a[k].home == m;
            assert((a + b)[k] == a[k]);
        }
        if loads(b, p, f, m) {
            let k = choose|k: int|
                0 <= k < b.len() && (#[trigger] b[k]).part@ == p && b[k].form == f && b[k].home == m;
            assert((a + b)[a.len() + k] == b[k]);
        }
        if loads(a + b, p, f, m) {
            let k = choose|k: int|
                0 <= k < (a + b).len() && (#[trigger] (a + b)[k]).part@ == p && (a + b)[k].form == f
                    && (a + b)[k].home == m;
            if k < a.len() {
                assert(a[k] == (a + b)[k]);
            } else {
                assert(b[k - a.len()] == (a + b)[k]);
            }
        }
    }
}

/// Grouped-query attention loads queries, keys and output, and values, norms
/// and sinks where the layer has them.
pub proof fn grouped_attention_loads(h: &Header, s: &Shape, il: nat, ratio: u32)
    requires
        s.family == Family::Gqa,
    ensures
        ({
            let v = layer_plan::attn_steps(h, s, il, ratio);
            &&& loads(v, "attn_q.weight"@, Form::Attn, Home::Attn) && loads(v, "attn_k.weight"@, Form::Attn, Home::Attn)
            &&& layer_plan::carries(h, il, "attn_v.weight"@) ==> loads(v, "attn_v.weight"@, Form::Attn, Home::Attn)
            &&& layer_plan::carries(h, il, "attn_q_norm.weight"@) ==> loads(v, "attn_q_norm.weight"@, Form::Plain, Home::Attn)
            &&& layer_plan::carries(h, il, "attn_k_norm.weight"@) ==> loads(v, "attn_k_norm.weight"@, Form::Plain, Home::Attn)
            &&& layer_plan::carries(h, il, "attn_sinks.weight"@) ==> loads(v, "attn_sinks.weight"@, Form::Plain, Home::Attn)
            &&& loads(v, "attn_output.weight"@, Form::Attn, Home::Attn)
            &&& v.len() == 2 + count(layer_plan::carries(h, il, "attn_v.weight"@), 1) + count(layer_plan::carries(h, il, "attn_q_norm.weight"@), 1) + count(layer_plan::carries(h, il, "attn_k_norm.weight"@), 1) + count(layer_plan::carries(h, il, "attn_sinks.weight"@), 1) + 1
        }),
{
    let v = layer_plan::attn_steps(h, s, il, ratio);
    let p0 = seq![
            layer_plan::step("attn_q.weight", Form::Attn, Home::Attn),
            layer_plan::step("attn_k.weight", Form::Attn, Home::Attn),
        ];
    lemma_each(p0);
    assert(loads(p0, p0[0].part@, p0[0].form, p0[0].home));
    assert(loads(p0, p0[1].part@, p0[1].form, p0[1].home));
    let p1 = layer_plan::only(
        layer_plan::carries(h, il, "attn_v.weight"@),
        seq![
            layer_plan::step("attn_v.weight", Form::Attn, Home::Attn),
        ],
    );
    if layer_plan::carries(h, il, "attn_v.weight"@) {
        lemma_each(p1);
        assert(loads(p1, p1[0].part@, p1[0].form, p1[0].home));
    }
    let p2 = layer_plan::only(
        layer_plan::carries(h, il, "attn_q_norm.weight"@),
        seq![
            layer_plan::step("attn_q_norm.weight", Form::Plain, Home::Attn),
        ],
    );
    if layer_plan::carries(h, il, "attn_q_norm.weight"@) {
        lemma_each(p2);
        assert(loads(p2, p2[0].part@, p2[0].form, p2[0].home));
    }
    let p3 = layer_plan::only(
        layer_plan::carries(h, il, "attn_k_norm.weight"@),
        seq![
            layer_plan::step("attn_k_norm.weight", Form::Plain, Home::Attn),
        ],
    );
    if layer_plan::carries(h, il, "attn_k_norm.weight"@) {
        lemma_each(p3);
        assert(loads(p3, p3[0].part@, p3[0].form, p3[0].home));
    }
    let p4 = layer_plan::only(
        layer_plan::carries(h, il, "attn_sinks.weight"@),
        seq![
            layer_plan::step("attn_sinks.weight", Form::Plain, Home::Attn),
        ],
    );
    if layer_plan::carries(h, il, "attn_sinks.weight"@) {
        lemma_each(p4);
        assert(loads(p4, p4[0].part@, p4[0].form, p4[0].home));
    }
    let p5 = seq![
            layer_plan::step("attn_output.weight", Form::Attn, Home::Attn),
        ];
    lemma_each(p5);
    assert(loads(p5, p5[0].part@, p5[0].form, p5[0].home));
    lemma_join(p0, p1);
    lemma_join(p0 + p1, p2);
    lemma_join(p0 + p1 + p2, p3);
    lemma_join(p0 + p1 + p2 + p3, p4);
    lemma_join(p0 + p1 + p2 + p3 + p4, p5);
    assert(v =~= p0 + p1 + p2 + p3 + p4 + p5);
}

/// Latent attention loads its low-rank stack and output, and the key-row
/// selection where the model selects and the layer has one.
pub proof fn latent_attention_loads(h: &Header, s: &Shape, il: nat, ratio: u32)
    requires
        s.family == Family::Mla,
    ensures
        ({
            let v = layer_plan::attn_steps(h, s, il, ratio);
            &&& loads(v, "attn_q_a.weight"@, Form::Small, Home::Attn) && loads(v, "attn_q_a_norm.weight"@, Form::Plain, Home::Attn) && loads(v, "attn_q_b.weight"@, Form::Attn, Home::Attn) && loads(v, "attn_kv_a_mqa.weight"@, Form::Small, Home::Attn) && loads(v, "attn_kv_a_norm.weight"@, Form::Plain, Home::Attn) && loads(v, "attn_k_b.weight"@, Form::Small, Home::Attn) && loads(v, "attn_v_b.weight"@, Form::Small, Home::Attn)
            &&& s.n_idx_topk > 0 && layer_plan::carries(h, il, "indexer.attn_q_b.weight"@) ==> loads(v, "indexer.attn_q_b.weight"@, Form::Plain, Home::Attn) && loads(v, "indexer.attn_k.weight"@, Form::Plain, Home::Attn) && loads(v, "indexer.k_norm.weight"@, Form::Plain, Home::Attn) && loads(v, "indexer.k_norm.bias"@, Form::Plain, Home::Attn) && loads(v, "indexer.proj.weight"@, Form::Plain, Home::Attn)
            &&& loads(v, "attn_output.weight"@, Form::Attn, Home::Attn)
            &&& v.len() == 7 + count(s.n_idx_topk > 0 && layer_plan::carries(h, il, "indexer.attn_q_b.weight"@), 5) + 1
        }),
{
    let v = layer_plan::attn_steps(h, s, il, ratio);
    let p0 = seq![
            layer_plan::step("attn_q_a.weight", Form::Small, Home::Attn),
            layer_plan::step("attn_q_a_norm.weight", Form::Plain, Home::Attn),
            layer_plan::step("attn_q_b.weight", Form::Attn, Home::Attn),
            layer_plan::step("attn_kv_a_mqa.weight", Form::Small, Home::Attn),
            layer_plan::step("attn_kv_a_norm.weight", Form::Plain, Home::Attn),
            layer_plan::step("attn_k_b.weight", Form::Small, Home::Attn),
            layer_plan::step("attn_v_b.weight", Form::Small, Home::Attn),
        ];
    lemma_each(p0);
    assert(loads(p0, p0[0].part@, p0[0].form, p0[0].home));
    assert(loads(p0, p0[1].part@, p0[1].form, p0[1].home));
    assert(loads(p0, p0[2].part@, p0[2].form, p0[2].home));
    assert(loads(p0, p0[3].part@, p0[3].form, p0[3].home));
    assert(loads(p0, p0[4].part@, p0[4].form, p0[4].home));
    assert(loads(p0, p0[5].part@, p0[5].form, p0[5].home));
    assert(loads(p0, p0[6].part@, p0[6].form, p0[6].home));
    let p1 = layer_plan::only(
        s.n_idx_topk > 0 && layer_plan::carries(h, il, "indexer.attn_q_b.weight"@),
        seq![
            layer_plan::step("indexer.attn_q_b.weight", Form::Plain, Home::Attn),
            layer_plan::step("indexer.attn_k.weight", Form::Plain, Home::Attn),
            layer_plan::step("indexer.k_norm.weight", Form::Plain, Home::Attn),
            layer_plan::step("indexer.k_norm.bias", Form::Plain, Home::Attn),
            layer_plan::step("indexer.proj.weight", Form::Plain, Home::Attn),
        ],
    );
    if s.n_idx_topk > 0 && layer_plan::carries(h, il, "indexer.attn_q_b.weight"@) {
        lemma_each(p1);
        assert(loads(p1, p1[0].part@, p1[0].form, p1[0].home));
        assert(loads(p1, p1[1].part@, p1[1].form, p1[1].home));
        assert(loads(p1, p1[2].part@, p1[2].form, p1[2].home));
        assert(loads(p1, p1[3].part@, p1[3].form, p1[3].home));
        assert(loads(p1, p1[4].part@, p1[4].form, p1[4].home));
    }
    let p2 = seq![
            layer_plan::step("attn_output.weight", Form::Attn, Home::Attn),
        ];
    lemma_each(p2);
    assert(loads(p2, p2[0].part@, p2[0].form, p2[0].home));
    lemma_join(p0, p1);
    lemma_join(p0 + p1, p2);
    assert(v =~= p0 + p1 + p2);
}

/// The compressing family loads its stack, the host's router bias or zeros,
/// a token table where the layer has one, the compressor where the layer
/// compresses, and a selection where it compresses by four.
pub proof fn compressed_attention_loads(h: &Header, s: &Shape, il: nat, ratio: u32)
    requires
        s.family == Family::Dsv4,
    ensures
        ({
            let v = layer_plan::attn_steps(h, s, il, ratio);
            &&& layer_plan::carries(h, il, "ffn_gate_tid2eid.weight"@) ==> loads(v, "ffn_gate_tid2eid.weight"@, Form::HostTable, Home::Attn)
            &&& loads(v, "attn_q_a.weight"@, Form::Attn, Home::Attn) && loads(v, "attn_q_a_norm.weight"@, Form::Plain, Home::Attn) && loads(v, "attn_q_b.weight"@, Form::Attn, Home::Attn) && loads(v, "attn_kv.weight"@, Form::Attn, Home::Attn) && loads(v, "attn_kv_a_norm.weight"@, Form::Plain, Home::Attn) && loads(v, "attn_output_a.weight"@, Form::Attn, Home::Attn) && loads(v, "attn_sinks.weight"@, Form::Plain, Home::Attn) && loads(v, "hc_attn_fn.weight"@, Form::HalfFloat, Home::Attn) && loads(v, "hc_ffn_fn.weight"@, Form::HalfFloat, Home::Attn) && loads(v, "hc_attn_scale.weight"@, Form::Float, Home::Attn) && loads(v, "hc_attn_base.weight"@, Form::Float, Home::Attn) && loads(v, "hc_ffn_scale.weight"@, Form::Float, Home::Attn) && loads(v, "hc_ffn_base.weight"@, Form::Float, Home::Attn)
            &&& layer_plan::carries(h, il, "exp_probs_b.bias"@) ==> loads(v, "exp_probs_b.bias"@, Form::HostFloat, Home::Attn)
            &&& !layer_plan::carries(h, il, "exp_probs_b.bias"@) ==> loads(v, "exp_probs_b.bias"@, Form::HostZeros, Home::Attn)
            &&& ratio != 0 ==> loads(v, "attn_compressor_kv.weight"@, Form::HalfBlocks, Home::Attn) && loads(v, "attn_compressor_gate.weight"@, Form::HalfBlocks, Home::Attn) && loads(v, "attn_compressor_ape.weight"@, Form::HalfFloat, Home::Attn) && loads(v, "attn_compressor_norm.weight"@, Form::Float, Home::Attn)
            &&& ratio == 4 ==> loads(v, "indexer.attn_q_b.weight"@, Form::HalfBlocks, Home::Attn) && loads(v, "indexer.proj.weight"@, Form::HalfFloat, Home::Attn) && loads(v, "indexer_compressor_kv.weight"@, Form::HalfBlocks, Home::Attn) && loads(v, "indexer_compressor_gate.weight"@, Form::HalfBlocks, Home::Attn) && loads(v, "indexer_compressor_ape.weight"@, Form::HalfFloat, Home::Attn) && loads(v, "indexer_compressor_norm.weight"@, Form::Float, Home::Attn)
            &&& loads(v, "attn_output_b.weight"@, Form::Attn, Home::Attn)
            &&& v.len() == count(layer_plan::carries(h, il, "ffn_gate_tid2eid.weight"@), 1) + 13 + count(layer_plan::carries(h, il, "exp_probs_b.bias"@), 1) + count(!layer_plan::carries(h, il, "exp_probs_b.bias"@), 1) + count(ratio != 0, 4) + count(ratio == 4, 6) + 1
        }),
{
    let v = layer_plan::attn_steps(h, s, il, ratio);
    let p0 = layer_plan::only(
        layer_plan::carries(h, il, "ffn_gate_tid2eid.weight"@),
        seq![
            layer_plan::step("ffn_gate_tid2eid.weight", Form::HostTable, Home::Attn),
        ],
    );
    if layer_plan::carries(h, il, "ffn_gate_tid2eid.weight"@) {
        lemma_each(p0);
        assert(loads(p0, p0[0].part@, p0[0].form, p0[0].home));
    }
    let p1 = seq![
            layer_plan::step("attn_q_a.weight", Form::Attn, Home::Attn),
            layer_plan::step("attn_q_a_norm.weight", Form::Plain, Home::Attn),
            layer_plan::step("attn_q_b.weight", Form::Attn, Home::Attn),
            layer_plan::step("attn_kv.weight", Form::Attn, Home::Attn),
            layer_plan::step("attn_kv_a_norm.weight", Form::Plain, Home::Attn),
            layer_plan::step("attn_output_a.weight", Form::Attn, Home::Attn),
            layer_plan::step("attn_sinks.weight", Form::Plain, Home::Attn),
            layer_plan::step("hc_attn_fn.weight", Form::HalfFloat, Home::Attn),
            layer_plan::step("hc_ffn_fn.weight", Form::HalfFloat, Home::Attn),
            layer_plan::step("hc_attn_scale.weight", Form::Float, Home::Attn),
            layer_plan::step("hc_attn_base.weight", Form::Float, Home::Attn),
            layer_plan::step("hc_ffn_scale.weight", Form::Float, Home::Attn),
            layer_plan::step("hc_ffn_base.weight", Form::Float, Home::Attn),
        ];
    lemma_each(p1);
    assert(loads(p1, p1[0].part@, p1[0].form, p1[0].home));
    assert(loads(p1, p1[1].part@, p1[1].form, p1[1].home));
    assert(loads(p1, p1[2].part@, p1[2].form, p1[2].home));
    assert(loads(p1, p1[3].part@, p1[3].form, p1[3].home));
    assert(loads(p1, p1[4].part@, p1[4].form, p1[4].home));
    assert(loads(p1, p1[5].part@, p1[5].form, p1[5].home));
    assert(loads(p1, p1[6].part@, p1[6].form, p1[6].home));
    assert(loads(p1, p1[7].part@, p1[7].form, p1[7].home));
    assert(loads(p1, p1[8].part@, p1[8].form, p1[8].home));
    assert(loads(p1, p1[9].part@, p1[9].form, p1[9].home));
    assert(loads(p1, p1[10].part@, p1[10].form, p1[10].home));
    assert(loads(p1, p1[11].part@, p1[11].form, p1[11].home));
    assert(loads(p1, p1[12].part@, p1[12].form, p1[12].home));
    let p2 = layer_plan::only(
        layer_plan::carries(h, il, "exp_probs_b.bias"@),
        seq![
            layer_plan::step("exp_probs_b.bias", Form::HostFloat, Home::Attn),
        ],
    );
    if layer_plan::carries(h, il, "exp_probs_b.bias"@) {
        lemma_each(p2);
        assert(loads(p2, p2[0].part@, p2[0].form, p2[0].home));
    }
    let p3 = layer_plan::only(
        !layer_plan::carries(h, il, "exp_probs_b.bias"@),
        seq![
            layer_plan::step("exp_probs_b.bias", Form::HostZeros, Home::Attn),
        ],
    );
    if !layer_plan::carries(h, il, "exp_probs_b.bias"@) {
        lemma_each(p3);
        assert(loads(p3, p3[0].part@, p3[0].form, p3[0].home));
    }
    let p4 = layer_plan::only(
        ratio != 0,
        seq![
            layer_plan::step("attn_compressor_kv.weight", Form::HalfBlocks, Home::Attn),
            layer_plan::step("attn_compressor_gate.weight", Form::HalfBlocks, Home::Attn),
            layer_plan::step("attn_compressor_ape.weight", Form::HalfFloat, Home::Attn),
            layer_plan::step("attn_compressor_norm.weight", Form::Float, Home::Attn),
        ],
    );
    if ratio != 0 {
        lemma_each(p4);
        assert(loads(p4, p4[0].part@, p4[0].form, p4[0].home));
        assert(loads(p4, p4[1].part@, p4[1].form, p4[1].home));
        assert(loads(p4, p4[2].part@, p4[2].form, p4[2].home));
        assert(loads(p4, p4[3].part@, p4[3].form, p4[3].home));
    }
    let p5 = layer_plan::only(
        ratio == 4,
        seq![
            layer_plan::step("indexer.attn_q_b.weight", Form::HalfBlocks, Home::Attn),
            layer_plan::step("indexer.proj.weight", Form::HalfFloat, Home::Attn),
            layer_plan::step("indexer_compressor_kv.weight", Form::HalfBlocks, Home::Attn),
            layer_plan::step("indexer_compressor_gate.weight", Form::HalfBlocks, Home::Attn),
            layer_plan::step("indexer_compressor_ape.weight", Form::HalfFloat, Home::Attn),
            layer_plan::step("indexer_compressor_norm.weight", Form::Float, Home::Attn),
        ],
    );
    if ratio == 4 {
        lemma_each(p5);
        assert(loads(p5, p5[0].part@, p5[0].form, p5[0].home));
        assert(loads(p5, p5[1].part@, p5[1].form, p5[1].home));
        assert(loads(p5, p5[2].part@, p5[2].form, p5[2].home));
        assert(loads(p5, p5[3].part@, p5[3].form, p5[3].home));
        assert(loads(p5, p5[4].part@, p5[4].form, p5[4].home));
        assert(loads(p5, p5[5].part@, p5[5].form, p5[5].home));
    }
    let p6 = seq![
            layer_plan::step("attn_output_b.weight", Form::Attn, Home::Attn),
        ];
    lemma_each(p6);
    assert(loads(p6, p6[0].part@, p6[0].form, p6[0].home));
    lemma_join(p0, p1);
    lemma_join(p0 + p1, p2);
    lemma_join(p0 + p1 + p2, p3);
    lemma_join(p0 + p1 + p2 + p3, p4);
    lemma_join(p0 + p1 + p2 + p3 + p4, p5);
    lemma_join(p0 + p1 + p2 + p3 + p4 + p5, p6);
    assert(v =~= p0 + p1 + p2 + p3 + p4 + p5 + p6);
}

/// A layer of the delta hybrid loads full attention where it has queries, and
/// the delta rule otherwise.
pub proof fn delta_layers_load(h: &Header, s: &Shape, il: nat, ratio: u32)
    requires
        s.family == Family::Qwen35,
    ensures
        ({
            let v = layer_plan::attn_steps(h, s, il, ratio);
            &&& layer_plan::carries(h, il, "attn_q.weight"@) ==> loads(v, "attn_q.weight"@, Form::Mat, Home::Attn) && loads(v, "attn_k.weight"@, Form::Mat, Home::Attn) && loads(v, "attn_v.weight"@, Form::Mat, Home::Attn) && loads(v, "attn_output.weight"@, Form::Mat, Home::Attn) && loads(v, "attn_q_norm.weight"@, Form::Plain, Home::Attn) && loads(v, "attn_k_norm.weight"@, Form::Plain, Home::Attn)
            &&& !layer_plan::carries(h, il, "attn_q.weight"@) ==> loads(v, "attn_qkv.weight"@, Form::Mat, Home::Attn) && loads(v, "attn_gate.weight"@, Form::Mat, Home::Attn) && loads(v, "ssm_conv1d.weight"@, Form::Float, Home::Attn) && loads(v, "ssm_alpha.weight"@, Form::Float, Home::Attn) && loads(v, "ssm_beta.weight"@, Form::Float, Home::Attn) && loads(v, "ssm_a"@, Form::Plain, Home::Attn) && loads(v, "ssm_dt.bias"@, Form::Plain, Home::Attn) && loads(v, "ssm_norm.weight"@, Form::Plain, Home::Attn) && loads(v, "ssm_out.weight"@, Form::Mat, Home::Attn)
            &&& layer_plan::carries(h, il, "ffn_gate_inp_shexp.weight"@) ==> loads(v, "ffn_gate_inp_shexp.weight"@, Form::Float, Home::Attn)
            &&& v.len() == count(layer_plan::carries(h, il, "attn_q.weight"@), 6) + count(!layer_plan::carries(h, il, "attn_q.weight"@), 9) + count(layer_plan::carries(h, il, "ffn_gate_inp_shexp.weight"@), 1)
        }),
{
    let v = layer_plan::attn_steps(h, s, il, ratio);
    let p0 = layer_plan::only(
        layer_plan::carries(h, il, "attn_q.weight"@),
        seq![
            layer_plan::step("attn_q.weight", Form::Mat, Home::Attn),
            layer_plan::step("attn_k.weight", Form::Mat, Home::Attn),
            layer_plan::step("attn_v.weight", Form::Mat, Home::Attn),
            layer_plan::step("attn_output.weight", Form::Mat, Home::Attn),
            layer_plan::step("attn_q_norm.weight", Form::Plain, Home::Attn),
            layer_plan::step("attn_k_norm.weight", Form::Plain, Home::Attn),
        ],
    );
    if layer_plan::carries(h, il, "attn_q.weight"@) {
        lemma_each(p0);
        assert(loads(p0, p0[0].part@, p0[0].form, p0[0].home));
        assert(loads(p0, p0[1].part@, p0[1].form, p0[1].home));
        assert(loads(p0, p0[2].part@, p0[2].form, p0[2].home));
        assert(loads(p0, p0[3].part@, p0[3].form, p0[3].home));
        assert(loads(p0, p0[4].part@, p0[4].form, p0[4].home));
        assert(loads(p0, p0[5].part@, p0[5].form, p0[5].home));
    }
    let p1 = layer_plan::only(
        !layer_plan::carries(h, il, "attn_q.weight"@),
        seq![
            layer_plan::step("attn_qkv.weight", Form::Mat, Home::Attn),
            layer_plan::step("attn_gate.weight", Form::Mat, Home::Attn),
            layer_plan::step("ssm_conv1d.weight", Form::Float, Home::Attn),
            layer_plan::step("ssm_alpha.weight", Form::Float, Home::Attn),
            layer_plan::step("ssm_beta.weight", Form::Float, Home::Attn),
            layer_plan::step("ssm_a", Form::Plain, Home::Attn),
            layer_plan::step("ssm_dt.bias", Form::Plain, Home::Attn),
            layer_plan::step("ssm_norm.weight", Form::Plain, Home::Attn),
            layer_plan::step("ssm_out.weight", Form::Mat, Home::Attn),
        ],
    );
    if !layer_plan::carries(h, il, "attn_q.weight"@) {
        lemma_each(p1);
        assert(loads(p1, p1[0].part@, p1[0].form, p1[0].home));
        assert(loads(p1, p1[1].part@, p1[1].form, p1[1].home));
        assert(loads(p1, p1[2].part@, p1[2].form, p1[2].home));
        assert(loads(p1, p1[3].part@, p1[3].form, p1[3].home));
        assert(loads(p1, p1[4].part@, p1[4].form, p1[4].home));
        assert(loads(p1, p1[5].part@, p1[5].form, p1[5].home));
        assert(loads(p1, p1[6].part@, p1[6].form, p1[6].home));
        assert(loads(p1, p1[7].part@, p1[7].form, p1[7].home));
        assert(loads(p1, p1[8].part@, p1[8].form, p1[8].home));
    }
    let p2 = layer_plan::only(
        layer_plan::carries(h, il, "ffn_gate_inp_shexp.weight"@),
        seq![
            layer_plan::step("ffn_gate_inp_shexp.weight", Form::Float, Home::Attn),
        ],
    );
    if layer_plan::carries(h, il, "ffn_gate_inp_shexp.weight"@) {
        lemma_each(p2);
        assert(loads(p2, p2[0].part@, p2[0].form, p2[0].home));
    }
    lemma_join(p0, p1);
    lemma_join(p0 + p1, p2);
    assert(v =~= p0 + p1 + p2);
}

/// A layer of the other hybrid loads its delta attention where it has a
/// decay, and latent attention otherwise; its residual scores, its latent
/// experts' way in and out, and its always-on expert.
pub proof fn latent_delta_layers_load(h: &Header, s: &Shape, il: nat, ratio: u32)
    requires
        s.family == Family::K3,
    ensures
        ({
            let v = layer_plan::attn_steps(h, s, il, ratio);
            &&& layer_plan::carries(h, il, "ssm_a"@) ==> loads(v, "attn_q.weight"@, Form::Mat, Home::Attn) && loads(v, "attn_k.weight"@, Form::Mat, Home::Attn) && loads(v, "attn_v.weight"@, Form::Mat, Home::Attn) && loads(v, "ssm_conv1d_q.weight"@, Form::Plain, Home::Attn) && loads(v, "ssm_conv1d_k.weight"@, Form::Plain, Home::Attn) && loads(v, "ssm_conv1d_v.weight"@, Form::Plain, Home::Attn) && loads(v, "ssm_f_a.weight"@, Form::Mat, Home::Attn) && loads(v, "ssm_f_b.weight"@, Form::Float, Home::Attn) && loads(v, "ssm_beta.weight"@, Form::Mat, Home::Attn) && loads(v, "ssm_a"@, Form::Float, Home::Attn) && loads(v, "ssm_dt.bias"@, Form::Plain, Home::Attn) && loads(v, "ssm_g.weight"@, Form::Mat, Home::Attn) && loads(v, "ssm_norm.weight"@, Form::Plain, Home::Attn) && loads(v, "attn_output.weight"@, Form::Mat, Home::Attn)
            &&& !layer_plan::carries(h, il, "ssm_a"@) ==> loads(v, "attn_q_a.weight"@, Form::Attn, Home::Attn) && loads(v, "attn_q_a_norm.weight"@, Form::Plain, Home::Attn) && loads(v, "attn_q_b.weight"@, Form::Attn, Home::Attn) && loads(v, "attn_kv_a_mqa.weight"@, Form::Attn, Home::Attn) && loads(v, "attn_kv_a_norm.weight"@, Form::Plain, Home::Attn) && loads(v, "attn_k_b.weight"@, Form::Plain, Home::Attn) && loads(v, "attn_v_b.weight"@, Form::Plain, Home::Attn) && loads(v, "attn_gate.weight"@, Form::Mat, Home::Attn) && loads(v, "attn_output.weight"@, Form::Mat, Home::Attn)
            &&& loads(v, "attn_res_score.weight"@, Form::Plain, Home::Primary) && loads(v, "ffn_res_score.weight"@, Form::Plain, Home::Primary)
            &&& layer_plan::carries(h, il, "ffn_routed_down.weight"@) ==> loads(v, "ffn_routed_down.weight"@, Form::Mat, Home::Primary) && loads(v, "ffn_routed_up.weight"@, Form::Mat, Home::Primary)
            &&& layer_plan::carries(h, il, "ffn_routed_down.weight"@) && layer_plan::carries(h, il, "ffn_routed_norm.weight"@) ==> loads(v, "ffn_routed_norm.weight"@, Form::Plain, Home::Primary)
            &&& layer_plan::carries(h, il, "ffn_gate_shexp.weight"@) ==> loads(v, "ffn_gate_shexp.weight"@, Form::Mat, Home::Attn) && loads(v, "ffn_up_shexp.weight"@, Form::Mat, Home::Attn) && loads(v, "ffn_down_shexp.weight"@, Form::Mat, Home::Attn)
            &&& v.len() == count(layer_plan::carries(h, il, "ssm_a"@), 14) + count(!layer_plan::carries(h, il, "ssm_a"@), 9) + 2 + count(layer_plan::carries(h, il, "ffn_routed_down.weight"@), 2) + count(layer_plan::carries(h, il, "ffn_routed_down.weight"@) && layer_plan::carries(h, il, "ffn_routed_norm.weight"@), 1) + count(layer_plan::carries(h, il, "ffn_gate_shexp.weight"@), 3)
        }),
{
    let v = layer_plan::attn_steps(h, s, il, ratio);
    let p0 = layer_plan::only(
        layer_plan::carries(h, il, "ssm_a"@),
        seq![
            layer_plan::step("attn_q.weight", Form::Mat, Home::Attn),
            layer_plan::step("attn_k.weight", Form::Mat, Home::Attn),
            layer_plan::step("attn_v.weight", Form::Mat, Home::Attn),
            layer_plan::step("ssm_conv1d_q.weight", Form::Plain, Home::Attn),
            layer_plan::step("ssm_conv1d_k.weight", Form::Plain, Home::Attn),
            layer_plan::step("ssm_conv1d_v.weight", Form::Plain, Home::Attn),
            layer_plan::step("ssm_f_a.weight", Form::Mat, Home::Attn),
            layer_plan::step("ssm_f_b.weight", Form::Float, Home::Attn),
            layer_plan::step("ssm_beta.weight", Form::Mat, Home::Attn),
            layer_plan::step("ssm_a", Form::Float, Home::Attn),
            layer_plan::step("ssm_dt.bias", Form::Plain, Home::Attn),
            layer_plan::step("ssm_g.weight", Form::Mat, Home::Attn),
            layer_plan::step("ssm_norm.weight", Form::Plain, Home::Attn),
            layer_plan::step("attn_output.weight", Form::Mat, Home::Attn),
        ],
    );
    if layer_plan::carries(h, il, "ssm_a"@) {
        lemma_each(p0);
        assert(loads(p0, p0[0].part@, p0[0].form, p0[0].home));
        assert(loads(p0, p0[1].part@, p0[1].form, p0[1].home));
        assert(loads(p0, p0[2].part@, p0[2].form, p0[2].home));
        assert(loads(p0, p0[3].part@, p0[3].form, p0[3].home));
        assert(loads(p0, p0[4].part@, p0[4].form, p0[4].home));
        assert(loads(p0, p0[5].part@, p0[5].form, p0[5].home));
        assert(loads(p0, p0[6].part@, p0[6].form, p0[6].home));
        assert(loads(p0, p0[7].part@, p0[7].form, p0[7].home));
        assert(loads(p0, p0[8].part@, p0[8].form, p0[8].home));
        assert(loads(p0, p0[9].part@, p0[9].form, p0[9].home));
        assert(loads(p0, p0[10].part@, p0[10].form, p0[10].home));
        assert(loads(p0, p0[11].part@, p0[11].form, p0[11].home));
        assert(loads(p0, p0[12].part@, p0[12].form, p0[12].home));
        assert(loads(p0, p0[13].part@, p0[13].form, p0[13].home));
    }
    let p1 = layer_plan::only(
        !layer_plan::carries(h, il, "ssm_a"@),
        seq![
            layer_plan::step("attn_q_a.weight", Form::Attn, Home::Attn),
            layer_plan::step("attn_q_a_norm.weight", Form::Plain, Home::Attn),
            layer_plan::step("attn_q_b.weight", Form::Attn, Home::Attn),
            layer_plan::step("attn_kv_a_mqa.weight", Form::Attn, Home::Attn),
            layer_plan::step("attn_kv_a_norm.weight", Form::Plain, Home::Attn),
            layer_plan::step("attn_k_b.weight", Form::Plain, Home::Attn),
            layer_plan::step("attn_v_b.weight", Form::Plain, Home::Attn),
            layer_plan::step("attn_gate.weight", Form::Mat, Home::Attn),
            layer_plan::step("attn_output.weight", Form::Mat, Home::Attn),
        ],
    );
    if !layer_plan::carries(h, il, "ssm_a"@) {
        lemma_each(p1);
        assert(loads(p1, p1[0].part@, p1[0].form, p1[0].home));
        assert(loads(p1, p1[1].part@, p1[1].form, p1[1].home));
        assert(loads(p1, p1[2].part@, p1[2].form, p1[2].home));
        assert(loads(p1, p1[3].part@, p1[3].form, p1[3].home));
        assert(loads(p1, p1[4].part@, p1[4].form, p1[4].home));
        assert(loads(p1, p1[5].part@, p1[5].form, p1[5].home));
        assert(loads(p1, p1[6].part@, p1[6].form, p1[6].home));
        assert(loads(p1, p1[7].part@, p1[7].form, p1[7].home));
        assert(loads(p1, p1[8].part@, p1[8].form, p1[8].home));
    }
    let p2 = seq![
            layer_plan::step("attn_res_score.weight", Form::Plain, Home::Primary),
            layer_plan::step("ffn_res_score.weight", Form::Plain, Home::Primary),
        ];
    lemma_each(p2);
    assert(loads(p2, p2[0].part@, p2[0].form, p2[0].home));
    assert(loads(p2, p2[1].part@, p2[1].form, p2[1].home));
    let p3 = layer_plan::only(
        layer_plan::carries(h, il, "ffn_routed_down.weight"@),
        seq![
            layer_plan::step("ffn_routed_down.weight", Form::Mat, Home::Primary),
            layer_plan::step("ffn_routed_up.weight", Form::Mat, Home::Primary),
        ],
    );
    if layer_plan::carries(h, il, "ffn_routed_down.weight"@) {
        lemma_each(p3);
        assert(loads(p3, p3[0].part@, p3[0].form, p3[0].home));
        assert(loads(p3, p3[1].part@, p3[1].form, p3[1].home));
    }
    let p4 = layer_plan::only(
        layer_plan::carries(h, il, "ffn_routed_down.weight"@) && layer_plan::carries(h, il, "ffn_routed_norm.weight"@),
        seq![
            layer_plan::step("ffn_routed_norm.weight", Form::Plain, Home::Primary),
        ],
    );
    if layer_plan::carries(h, il, "ffn_routed_down.weight"@) && layer_plan::carries(h, il, "ffn_routed_norm.weight"@) {
        lemma_each(p4);
        assert(loads(p4, p4[0].part@, p4[0].form, p4[0].home));
    }
    let p5 = layer_plan::only(
        layer_plan::carries(h, il, "ffn_gate_shexp.weight"@),
        seq![
            layer_plan::step("ffn_gate_shexp.weight", Form::Mat, Home::Attn),
            layer_plan::step("ffn_up_shexp.weight", Form::Mat, Home::Attn),
            layer_plan::step("ffn_down_shexp.weight", Form::Mat, Home::Attn),
        ],
    );
    if layer_plan::carries(h, il, "ffn_gate_shexp.weight"@) {
        lemma_each(p5);
        assert(loads(p5, p5[0].part@, p5[0].form, p5[0].home));
        assert(loads(p5, p5[1].part@, p5[1].form, p5[1].home));
        assert(loads(p5, p5[2].part@, p5[2].form, p5[2].home));
    }
    lemma_join(p0, p1);
    lemma_join(p0 + p1, p2);
    lemma_join(p0 + p1 + p2, p3);
    lemma_join(p0 + p1 + p2 + p3, p4);
    lemma_join(p0 + p1 + p2 + p3 + p4, p5);
    assert(v =~= p0 + p1 + p2 + p3 + p4 + p5);
}

/// A layer of routed experts loads gate and up first, in one or apart; then
/// the router and its bias, under either name or as zeros; then the always-on
/// expert.
pub proof fn routed_layers_load_first(h: &Header, s: &Shape, arch: Arch, il: nat)
    ensures
        ({
            let v = layer_plan::moe_front(h, s, arch, il);
            &&& layer_plan::carries(h, il, "ffn_gate_up_exps.weight"@) ==> loads(v, "ffn_gate_up_exps.weight"@, Form::Experts, Home::Layer)
            &&& !layer_plan::carries(h, il, "ffn_gate_up_exps.weight"@) ==> loads(v, "ffn_gate_exps.weight"@, Form::Experts, Home::Layer) && loads(v, "ffn_up_exps.weight"@, Form::Experts, Home::Layer)
            &&& loads(v, "ffn_gate_inp.weight"@, Form::Float, Home::Layer)
            &&& layer_plan::carries(h, il, "exp_probs_b"@) ==> loads(v, "exp_probs_b"@, Form::Plain, Home::Layer)
            &&& !layer_plan::carries(h, il, "exp_probs_b"@) && layer_plan::carries(h, il, "exp_probs_b.bias"@) ==> loads(v, "exp_probs_b.bias"@, Form::Plain, Home::Layer)
            &&& !layer_plan::carries(h, il, "exp_probs_b"@) && !layer_plan::carries(h, il, "exp_probs_b.bias"@) ==> loads(v, "exp_probs_b.bias"@, Form::Zeros, Home::Layer)
            &&& arch != Arch::Inkling && s.family != Family::K3 && layer_plan::carries(h, il, "ffn_gate_shexp.weight"@) ==> loads(v, "ffn_gate_shexp.weight"@, Form::Plain, Home::Layer) && loads(v, "ffn_up_shexp.weight"@, Form::Plain, Home::Layer) && loads(v, "ffn_down_shexp.weight"@, Form::Plain, Home::Layer)
            &&& !(arch != Arch::Inkling && s.family != Family::K3 && layer_plan::carries(h, il, "ffn_gate_shexp.weight"@)) && arch == Arch::Gemma4 ==> loads(v, "ffn_gate.weight"@, Form::Plain, Home::Layer) && loads(v, "ffn_up.weight"@, Form::Plain, Home::Layer) && loads(v, "ffn_down.weight"@, Form::Plain, Home::Layer)
            &&& v.len() == count(layer_plan::carries(h, il, "ffn_gate_up_exps.weight"@), 1) + count(!layer_plan::carries(h, il, "ffn_gate_up_exps.weight"@), 2) + 1 + count(layer_plan::carries(h, il, "exp_probs_b"@), 1) + count(!layer_plan::carries(h, il, "exp_probs_b"@) && layer_plan::carries(h, il, "exp_probs_b.bias"@), 1) + count(!layer_plan::carries(h, il, "exp_probs_b"@) && !layer_plan::carries(h, il, "exp_probs_b.bias"@), 1) + count(arch != Arch::Inkling && s.family != Family::K3 && layer_plan::carries(h, il, "ffn_gate_shexp.weight"@), 3) + count(!(arch != Arch::Inkling && s.family != Family::K3 && layer_plan::carries(h, il, "ffn_gate_shexp.weight"@)) && arch == Arch::Gemma4, 3)
        }),
{
    let v = layer_plan::moe_front(h, s, arch, il);
    let p0 = layer_plan::only(
        layer_plan::carries(h, il, "ffn_gate_up_exps.weight"@),
        seq![
            layer_plan::step("ffn_gate_up_exps.weight", Form::Experts, Home::Layer),
        ],
    );
    if layer_plan::carries(h, il, "ffn_gate_up_exps.weight"@) {
        lemma_each(p0);
        assert(loads(p0, p0[0].part@, p0[0].form, p0[0].home));
    }
    let p1 = layer_plan::only(
        !layer_plan::carries(h, il, "ffn_gate_up_exps.weight"@),
        seq![
            layer_plan::step("ffn_gate_exps.weight", Form::Experts, Home::Layer),
            layer_plan::step("ffn_up_exps.weight", Form::Experts, Home::Layer),
        ],
    );
    if !layer_plan::carries(h, il, "ffn_gate_up_exps.weight"@) {
        lemma_each(p1);
        assert(loads(p1, p1[0].part@, p1[0].form, p1[0].home));
        assert(loads(p1, p1[1].part@, p1[1].form, p1[1].home));
    }
    let p2 = seq![
            layer_plan::step("ffn_gate_inp.weight", Form::Float, Home::Layer),
        ];
    lemma_each(p2);
    assert(loads(p2, p2[0].part@, p2[0].form, p2[0].home));
    let p3 = layer_plan::only(
        layer_plan::carries(h, il, "exp_probs_b"@),
        seq![
            layer_plan::step("exp_probs_b", Form::Plain, Home::Layer),
        ],
    );
    if layer_plan::carries(h, il, "exp_probs_b"@) {
        lemma_each(p3);
        assert(loads(p3, p3[0].part@, p3[0].form, p3[0].home));
    }
    let p4 = layer_plan::only(
        !layer_plan::carries(h, il, "exp_probs_b"@) && layer_plan::carries(h, il, "exp_probs_b.bias"@),
        seq![
            layer_plan::step("exp_probs_b.bias", Form::Plain, Home::Layer),
        ],
    );
    if !layer_plan::carries(h, il, "exp_probs_b"@) && layer_plan::carries(h, il, "exp_probs_b.bias"@) {
        lemma_each(p4);
        assert(loads(p4, p4[0].part@, p4[0].form, p4[0].home));
    }
    let p5 = layer_plan::only(
        !layer_plan::carries(h, il, "exp_probs_b"@) && !layer_plan::carries(h, il, "exp_probs_b.bias"@),
        seq![
            layer_plan::step("exp_probs_b.bias", Form::Zeros, Home::Layer),
        ],
    );
    if !layer_plan::carries(h, il, "exp_probs_b"@) && !layer_plan::carries(h, il, "exp_probs_b.bias"@) {
        lemma_each(p5);
        assert(loads(p5, p5[0].part@, p5[0].form, p5[0].home));
    }
    let p6 = layer_plan::only(
        arch != Arch::Inkling && s.family != Family::K3 && layer_plan::carries(h, il, "ffn_gate_shexp.weight"@),
        seq![
            layer_plan::step("ffn_gate_shexp.weight", Form::Plain, Home::Layer),
            layer_plan::step("ffn_up_shexp.weight", Form::Plain, Home::Layer),
            layer_plan::step("ffn_down_shexp.weight", Form::Plain, Home::Layer),
        ],
    );
    if arch != Arch::Inkling && s.family != Family::K3 && layer_plan::carries(h, il, "ffn_gate_shexp.weight"@) {
        lemma_each(p6);
        assert(loads(p6, p6[0].part@, p6[0].form, p6[0].home));
        assert(loads(p6, p6[1].part@, p6[1].form, p6[1].home));
        assert(loads(p6, p6[2].part@, p6[2].form, p6[2].home));
    }
    let p7 = layer_plan::only(
        !(arch != Arch::Inkling && s.family != Family::K3 && layer_plan::carries(h, il, "ffn_gate_shexp.weight"@)) && arch == Arch::Gemma4,
        seq![
            layer_plan::step("ffn_gate.weight", Form::Plain, Home::Layer),
            layer_plan::step("ffn_up.weight", Form::Plain, Home::Layer),
            layer_plan::step("ffn_down.weight", Form::Plain, Home::Layer),
        ],
    );
    if !(arch != Arch::Inkling && s.family != Family::K3 && layer_plan::carries(h, il, "ffn_gate_shexp.weight"@)) && arch == Arch::Gemma4 {
        lemma_each(p7);
        assert(loads(p7, p7[0].part@, p7[0].form, p7[0].home));
        assert(loads(p7, p7[1].part@, p7[1].form, p7[1].home));
        assert(loads(p7, p7[2].part@, p7[2].form, p7[2].home));
    }
    lemma_join(p0, p1);
    lemma_join(p0 + p1, p2);
    lemma_join(p0 + p1 + p2, p3);
    lemma_join(p0 + p1 + p2 + p3, p4);
    lemma_join(p0 + p1 + p2 + p3 + p4, p5);
    lemma_join(p0 + p1 + p2 + p3 + p4 + p5, p6);
    lemma_join(p0 + p1 + p2 + p3 + p4 + p5 + p6, p7);
    assert(v =~= p0 + p1 + p2 + p3 + p4 + p5 + p6 + p7);
}

/// Behind that a layer of routed experts loads down, and the scales, shared
/// slabs and biases that the layer has.
pub proof fn routed_layers_load_last(h: &Header, arch: Arch, il: nat)
    ensures
        ({
            let v = layer_plan::moe_rest(h, arch, il);
            &&& loads(v, "ffn_down_exps.weight"@, Form::Experts, Home::Layer)
            &&& layer_plan::carries(h, il, "ffn_down_exps.scale"@) ==> loads(v, "ffn_down_exps.scale"@, Form::Plain, Home::Layer)
            &&& arch == Arch::Inkling ==> loads(v, "ffn_gate_shexp.weight"@, Form::SharedExperts, Home::Layer) && loads(v, "ffn_up_shexp.weight"@, Form::SharedExperts, Home::Layer) && loads(v, "ffn_down_shexp.weight"@, Form::SharedExperts, Home::Layer)
            &&& layer_plan::carries(h, il, "ffn_gate_inp.bias"@) ==> loads(v, "ffn_gate_inp.bias"@, Form::Plain, Home::Layer)
            &&& layer_plan::carries(h, il, "ffn_gate_exps.bias"@) ==> loads(v, "ffn_gate_exps.bias"@, Form::Plain, Home::Layer) && loads(v, "ffn_up_exps.bias"@, Form::Plain, Home::Layer) && loads(v, "ffn_down_exps.bias"@, Form::Plain, Home::Layer)
            &&& v.len() == 1 + count(layer_plan::carries(h, il, "ffn_down_exps.scale"@), 1) + count(arch == Arch::Inkling, 3) + count(layer_plan::carries(h, il, "ffn_gate_inp.bias"@), 1) + count(layer_plan::carries(h, il, "ffn_gate_exps.bias"@), 3)
        }),
{
    let v = layer_plan::moe_rest(h, arch, il);
    let p0 = seq![
            layer_plan::step("ffn_down_exps.weight", Form::Experts, Home::Layer),
        ];
    lemma_each(p0);
    assert(loads(p0, p0[0].part@, p0[0].form, p0[0].home));
    let p1 = layer_plan::only(
        layer_plan::carries(h, il, "ffn_down_exps.scale"@),
        seq![
            layer_plan::step("ffn_down_exps.scale", Form::Plain, Home::Layer),
        ],
    );
    if layer_plan::carries(h, il, "ffn_down_exps.scale"@) {
        lemma_each(p1);
        assert(loads(p1, p1[0].part@, p1[0].form, p1[0].home));
    }
    let p2 = layer_plan::only(
        arch == Arch::Inkling,
        seq![
            layer_plan::step("ffn_gate_shexp.weight", Form::SharedExperts, Home::Layer),
            layer_plan::step("ffn_up_shexp.weight", Form::SharedExperts, Home::Layer),
            layer_plan::step("ffn_down_shexp.weight", Form::SharedExperts, Home::Layer),
        ],
    );
    if arch == Arch::Inkling {
        lemma_each(p2);
        assert(loads(p2, p2[0].part@, p2[0].form, p2[0].home));
        assert(loads(p2, p2[1].part@, p2[1].form, p2[1].home));
        assert(loads(p2, p2[2].part@, p2[2].form, p2[2].home));
    }
    let p3 = layer_plan::only(
        layer_plan::carries(h, il, "ffn_gate_inp.bias"@),
        seq![
            layer_plan::step("ffn_gate_inp.bias", Form::Plain, Home::Layer),
        ],
    );
    if layer_plan::carries(h, il, "ffn_gate_inp.bias"@) {
        lemma_each(p3);
        assert(loads(p3, p3[0].part@, p3[0].form, p3[0].home));
    }
    let p4 = layer_plan::only(
        layer_plan::carries(h, il, "ffn_gate_exps.bias"@),
        seq![
            layer_plan::step("ffn_gate_exps.bias", Form::Plain, Home::Layer),
            layer_plan::step("ffn_up_exps.bias", Form::Plain, Home::Layer),
            layer_plan::step("ffn_down_exps.bias", Form::Plain, Home::Layer),
        ],
    );
    if layer_plan::carries(h, il, "ffn_gate_exps.bias"@) {
        lemma_each(p4);
        assert(loads(p4, p4[0].part@, p4[0].form, p4[0].home));
        assert(loads(p4, p4[1].part@, p4[1].form, p4[1].home));
        assert(loads(p4, p4[2].part@, p4[2].form, p4[2].home));
    }
    lemma_join(p0, p1);
    lemma_join(p0 + p1, p2);
    lemma_join(p0 + p1 + p2, p3);
    lemma_join(p0 + p1 + p2 + p3, p4);
    assert(v =~= p0 + p1 + p2 + p3 + p4);
}

/// Every layer loads its norms last, with biases and an output gate where it
/// has them; the feed-forward's norm goes by one of two names.
pub proof fn layers_end_with_norms(h: &Header, il: nat)
    ensures
        ({
            let v = layer_plan::tail_steps(h, il);
            &&& loads(v, "attn_norm.weight"@, Form::Plain, Home::After)
            &&& layer_plan::carries(h, il, "attn_q.bias"@) ==> loads(v, "attn_q.bias"@, Form::Plain, Home::After) && loads(v, "attn_k.bias"@, Form::Plain, Home::After) && loads(v, "attn_v.bias"@, Form::Plain, Home::After) && loads(v, "attn_output.bias"@, Form::Plain, Home::After)
            &&& layer_plan::carries(h, il, "ffn_norm.weight"@) ==> loads(v, "ffn_norm.weight"@, Form::Plain, Home::After)
            &&& !layer_plan::carries(h, il, "ffn_norm.weight"@) ==> loads(v, "post_attention_norm.weight"@, Form::Plain, Home::After)
            &&& layer_plan::carries(h, il, "attn_gate.weight"@) ==> loads(v, "attn_gate.weight"@, Form::Plain, Home::After)
            &&& v.len() == 1 + count(layer_plan::carries(h, il, "attn_q.bias"@), 4) + count(layer_plan::carries(h, il, "ffn_norm.weight"@), 1) + count(!layer_plan::carries(h, il, "ffn_norm.weight"@), 1) + count(layer_plan::carries(h, il, "attn_gate.weight"@), 1)
        }),
{
    let v = layer_plan::tail_steps(h, il);
    let p0 = seq![
            layer_plan::step("attn_norm.weight", Form::Plain, Home::After),
        ];
    lemma_each(p0);
    assert(loads(p0, p0[0].part@, p0[0].form, p0[0].home));
    let p1 = layer_plan::only(
        layer_plan::carries(h, il, "attn_q.bias"@),
        seq![
            layer_plan::step("attn_q.bias", Form::Plain, Home::After),
            layer_plan::step("attn_k.bias", Form::Plain, Home::After),
            layer_plan::step("attn_v.bias", Form::Plain, Home::After),
            layer_plan::step("attn_output.bias", Form::Plain, Home::After),
        ],
    );
    if layer_plan::carries(h, il, "attn_q.bias"@) {
        lemma_each(p1);
        assert(loads(p1, p1[0].part@, p1[0].form, p1[0].home));
        assert(loads(p1, p1[1].part@, p1[1].form, p1[1].home));
        assert(loads(p1, p1[2].part@, p1[2].form, p1[2].home));
        assert(loads(p1, p1[3].part@, p1[3].form, p1[3].home));
    }
    let p2 = layer_plan::only(
        layer_plan::carries(h, il, "ffn_norm.weight"@),
        seq![
            layer_plan::step("ffn_norm.weight", Form::Plain, Home::After),
        ],
    );
    if layer_plan::carries(h, il, "ffn_norm.weight"@) {
        lemma_each(p2);
        assert(loads(p2, p2[0].part@, p2[0].form, p2[0].home));
    }
    let p3 = layer_plan::only(
        !layer_plan::carries(h, il, "ffn_norm.weight"@),
        seq![
            layer_plan::step("post_attention_norm.weight", Form::Plain, Home::After),
        ],
    );
    if !layer_plan::carries(h, il, "ffn_norm.weight"@) {
        lemma_each(p3);
        assert(loads(p3, p3[0].part@, p3[0].form, p3[0].home));
    }
    let p4 = layer_plan::only(
        layer_plan::carries(h, il, "attn_gate.weight"@),
        seq![
            layer_plan::step("attn_gate.weight", Form::Plain, Home::After),
        ],
    );
    if layer_plan::carries(h, il, "attn_gate.weight"@) {
        lemma_each(p4);
        assert(loads(p4, p4[0].part@, p4[0].form, p4[0].home));
    }
    lemma_join(p0, p1);
    lemma_join(p0 + p1, p2);
    lemma_join(p0 + p1 + p2, p3);
    lemma_join(p0 + p1 + p2 + p3, p4);
    assert(v =~= p0 + p1 + p2 + p3 + p4);
}

/// A layer loads what its feed-forward half, its attention, its
/// architecture's extras and its norms load, and nothing else.
pub proof fn layers_load_four_parts(h: &Header, s: &Shape, arch: Arch, il: nat, ratio: u32)
    ensures
        forall|p: Seq<char>, f: Form, m: Home| #[trigger]
            loads(layer_plan::layer_steps(h, s, arch, il, ratio), p, f, m) <==> loads(
                layer_plan::ffn_steps(h, s, arch, il),
                p,
                f,
                m,
            ) || loads(layer_plan::attn_steps(h, s, il, ratio), p, f, m) || loads(
                layer_plan::extra_steps(arch),
                p,
                f,
                m,
            ) || loads(layer_plan::tail_steps(h, il), p, f, m),
        layer_plan::layer_steps(h, s, arch, il, ratio).len() == layer_plan::ffn_steps(
            h,
            s,
            arch,
            il,
        ).len() + layer_plan::attn_steps(h, s, il, ratio).len() + layer_plan::extra_steps(
            arch,
        ).len() + layer_plan::tail_steps(h, il).len(),
{
    let a = layer_plan::ffn_steps(h, s, arch, il);
    let b = layer_plan::attn_steps(h, s, il, ratio);
    let c = layer_plan::extra_steps(arch);
    let d = layer_plan::tail_steps(h, il);
    lemma_join(a, b);
    lemma_join(a + b, c);
    lemma_join(a + b + c, d);
}

/// Leading layers are dense; a later one of the delta hybrid is dense as
/// stored where it has no experts; the others route.
pub proof fn feed_forwards_load(h: &Header, s: &Shape, arch: Arch, il: nat)
    ensures
        ({
            let v = layer_plan::ffn_steps(h, s, arch, il);
            let kind = layer_plan::ffn_kind_of(h, s, il);
            let stored = s.family == Family::Qwen35 && !layer_plan::carries(
                h,
                il,
                "ffn_gate_exps.weight"@,
            );
            &&& kind == FfnKind::Dense <==> il < s.n_leading_dense
            &&& kind == FfnKind::DenseKq <==> il >= s.n_leading_dense && stored
            &&& kind == FfnKind::Moe ==> v == layer_plan::moe_front(h, s, arch, il)
                + layer_plan::moe_rest(h, arch, il)
            &&& kind == FfnKind::Dense ==> v.len() == 3 && loads(
                v,
                "ffn_gate.weight"@,
                Form::Plain,
                Home::Layer,
            ) && loads(v, "ffn_up.weight"@, Form::Plain, Home::Layer) && loads(
                v,
                "ffn_down.weight"@,
                Form::Plain,
                Home::Layer,
            )
            &&& kind == FfnKind::DenseKq ==> v.len() == 3 && loads(
                v,
                "ffn_gate.weight"@,
                Form::Kq,
                Home::Layer,
            ) && loads(v, "ffn_up.weight"@, Form::Kq, Home::Layer) && loads(
                v,
                "ffn_down.weight"@,
                Form::Kq,
                Home::Layer,
            )
        }),
{
    let v = layer_plan::ffn_steps(h, s, arch, il);
    lemma_each(v);
    if layer_plan::ffn_kind_of(h, s, il) != FfnKind::Moe {
        assert(loads(v, v[0].part@, v[0].form, v[0].home));
        assert(loads(v, v[1].part@, v[1].form, v[1].home));
        assert(loads(v, v[2].part@, v[2].form, v[2].home));
    }
}

/// Two architectures load more than their family: one its own norms and
/// scales, the other relative positions and short convolutions.
pub proof fn two_architectures_load_more(arch: Arch)
    ensures
        ({
            let v = layer_plan::extra_steps(arch);
            &&& arch == Arch::Gemma4 || arch == Arch::Inkling <==> v.len() > 0
            &&& arch == Arch::Gemma4 ==> v.len() == 7 && loads(
                v,
                "ffn_gate_inp.scale"@,
                Form::RouterNorm,
                Home::After,
            ) && loads(v, "layer_output_scale.weight"@, Form::ScalarOrOne, Home::After) && loads(
                v,
                "post_attention_norm.weight"@,
                Form::Plain,
                Home::After,
            ) && loads(v, "pre_ffw_norm_2.weight"@, Form::Plain, Home::After) && loads(
                v,
                "post_ffw_norm_1.weight"@,
                Form::Plain,
                Home::After,
            ) && loads(v, "post_ffw_norm_2.weight"@, Form::Plain, Home::After) && loads(
                v,
                "post_ffw_norm.weight"@,
                Form::Plain,
                Home::After,
            )
            &&& arch == Arch::Inkling ==> v.len() == 7 && loads(
                v,
                "attn_rel_proj.weight"@,
                Form::Transposed,
                Home::Offload,
            ) && loads(v, "attn_r.weight"@, Form::Attn, Home::Offload) && loads(
                v,
                "shortconv_k.weight"@,
                Form::Float,
                Home::Offload,
            ) && loads(v, "shortconv_v.weight"@, Form::Float, Home::Offload) && loads(
                v,
                "shortconv_attn.weight"@,
                Form::Float,
                Home::After,
            ) && loads(v, "shortconv_mlp.weight"@, Form::Float, Home::After) && loads(
                v,
                "ffn_gscale.weight"@,
                Form::Scalar,
                Home::After,
            )
        }),
{
    let v = layer_plan::extra_steps(arch);
    lemma_each(v);
    if v.len() > 0 {
        assert(loads(v, v[0].part@, v[0].form, v[0].home) && loads(
            v,
            v[1].part@,
            v[1].form,
            v[1].home,
        ) && loads(v, v[2].part@, v[2].form, v[2].home) && loads(
            v,
            v[3].part@,
            v[3].form,
            v[3].home,
        ) && loads(v, v[4].part@, v[4].form, v[4].home) && loads(
            v,
            v[5].part@,
            v[5].form,
            v[5].home,
        ) && loads(v, v[6].part@, v[6].form, v[6].home));
    }
}

} // verus!
