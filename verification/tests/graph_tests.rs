use pulsar::attn::{GqaPlan, Rotation, RouterPlan, Rows, ScoreScale, Selection};
use pulsar::dflash::Capture;
use pulsar::graph;
use pulsar::graph::{AttnFacts, Buf, FfnFacts, LatentFacts, MoeFacts, Op, Part, Place, Refs, TierUse, Weight, Width};
use pulsar::header::{Header, MetaEntry, MetaItem, MetaValue};
use pulsar::hybrid::{GdnDims, HybridFfn, Mixer};
use pulsar::hybrid_graph;
use pulsar::hybrid_graph::Mats;
use pulsar::layer_plan::{FfnKind, Form, Home, Step};
use pulsar::parts;
use pulsar::parts::LatentError;
use pulsar::shape::Shape;

fn num(key: &str, n: u64) -> MetaEntry {
    MetaEntry {
        key: key.to_string(),
        value: MetaValue { item: MetaItem { num: Some(n), bits: Some((n as f32).to_bits()), flag: None }, list: None },
    }
}

fn base(arch: &str) -> Header {
    Header {
        architecture: Some(arch.to_string()),
        meta: vec![
            num("block_count", 4),
            num("embedding_length", 512),
            num("attention.key_length", 64),
            num("attention.head_count", 8),
            num("attention.head_count_kv", 2),
            num("leading_dense_block_count", 1),
            num("expert_count", 16),
            num("expert_used_count", 4),
            num("expert_feed_forward_length", 256),
            num("feed_forward_length", 1024),
            num("rope.freq_base", 10000),
            num("attention.layer_norm_rms_epsilon", 0),
        ],
        n_tokens: Some(1000),
        tensors: Vec::new(),
        data_offset: 4096,
    }
}

fn shape_for(arch: &str) -> Shape {
    Shape::from_gguf(&base(arch)).ok().unwrap()
}

fn plain_attn() -> AttnFacts {
    AttnFacts {
        far: false,
        bias: false,
        has_v: true,
        relative: None,
        q_norm: false,
        k_norm: false,
        head_gate: false,
        rotate: false,
        post_norm: false,
    }
}

fn plain_ffn() -> FfnFacts {
    FfnFacts {
        scale: None,
        conv: false,
        sandwich: false,
        router_bias: false,
        down_scale: false,
        predict: false,
        shared: None,
        out_scale: None,
    }
}

fn plan() -> GqaPlan {
    GqaPlan {
        n_head_q: 8,
        n_head_kv: 2,
        head_dim: 64,
        theta: 0,
        window: 0,
        norm_values: false,
        rotation: Rotation::Plain { width: 64, factors: false },
        scale: ScoreScale::PerRoot,
    }
}

fn dims() -> GdnDims {
    GdnDims { k_heads: 2, v_heads: 4, key: 32, value: 64, conv: 128 }
}

/// The launches by name.
fn names(v: &Vec<Op>) -> Vec<String> {
    v.iter()
        .map(|o| format!("{:?}", o).split(|c: char| c == ' ' || c == '(').next().unwrap().to_string())
        .collect()
}

fn joined(v: &Vec<Op>) -> String {
    names(v).join(" ")
}

fn kq(on: bool) -> Mats {
    Mats { first: on, second: on, third: on, out: on }
}

#[test]
fn grouped_query_half() {
    let s = shape_for("qwen3moe");
    let v = graph::plan_gqa_half(&s, plan(), plain_attn());
    assert_eq!(joined(&v), "Norm Mul Mul Mul Rope Rope AppendK AppendV Attend Mul Add Norm");
    assert_eq!(
        v[0],
        Op::Norm { dst: Buf::Normed, src: Buf::Cur, w: Weight::AttnNorm, width: Width { n: 1, each: 512 } }
    );
    assert_eq!(v[8], Op::Attend { src: Buf::Q, rel: None });
    let v = graph::plan_gqa_half(&s, plan(), AttnFacts { far: true, rotate: true, q_norm: true, k_norm: true, ..plain_attn() });
    assert_eq!(
        joined(&v),
        "Norm Copy On Mul Mul Mul HeadNorm HeadNorm Rope Rope MulF AppendK AppendV MulF Attend Mul Copy On Add Norm"
    );
    assert_eq!(v[2], Op::On(Place::Attn));
    assert_eq!(v[17], Op::On(Place::Primary));
    assert_eq!(v[14], Op::Attend { src: Buf::RotQ, rel: None });
}

#[test]
fn latent_half() {
    let s = shape_for("qwen3moe");
    let m = LatentFacts { hop: None, keeps_keys: true, rows: Rows::All(5), visible: 5, batch: true };
    let v = graph::plan_mla_half(&s, m, plain_attn());
    assert!(v.contains(&Op::SelectAll { visible: 5 }));
    assert!(v.contains(&Op::AttendLatent { rows: 5 }));
    assert!(!names(&v).contains(&"Score".to_string()));
    let m = LatentFacts { hop: None, keeps_keys: true, rows: Rows::Scored(4), visible: 9, batch: true };
    let v = graph::plan_mla_half(&s, m, plain_attn());
    assert!(v.contains(&Op::Score { batch: true, visible: 9 }));
    assert!(v.contains(&Op::TopK { batch: true, visible: 9, topk: 4 }));
    assert!(v.contains(&Op::AttendLatent { rows: 4 }));
}

#[test]
fn dense_half() {
    let s = shape_for("qwen3moe");
    let v = graph::plan_dense_half(&s, plain_ffn());
    assert_eq!(joined(&v), "Mul Mul Swiglu Mul Add");
    assert_eq!(v[4], Op::Add { dst: Buf::Cur, a: Buf::AfterAttn, b: Buf::FfnOut });
}

#[test]
fn routed_half() {
    let s = shape_for("qwen3moe");
    let r = RouterPlan { sink: 0, picks: 4, logits: 16, mode: 0 };
    let v = graph::plan_moe_before(&s, r, FfnFacts { shared: Some(256), ..plain_ffn() });
    assert_eq!(joined(&v), "MulF Select Mul Mul Swiglu Mul Quantize");
    let v = graph::plan_moe_before(&s, r, plain_ffn());
    assert_eq!(joined(&v), "MulF Select Zero Quantize");
    let v = graph::plan_moe_before(&s, r, FfnFacts { predict: true, ..plain_ffn() });
    assert_eq!(joined(&v), "MulF Select MulF Select Zero Quantize");
}

#[test]
fn partials_join_once() {
    let s = shape_for("qwen3moe");
    let m = MoeFacts { grouped: true, bias: false, shared_pass: true, lanes: true, check: false };
    let us = vec![
        TierUse { tier: 0, routed: true, shared: false },
        TierUse { tier: 1, routed: true, shared: true },
    ];
    let v = graph::plan_moe_after(&s, &us, m, plain_ffn());
    let joins = |b: Buf| v.iter().filter(|o| **o == Op::AddIn { dst: Buf::MoeOut, src: b }).count();
    // one routed sum of each tier, the second tier's shared sum
    assert_eq!(joins(Buf::Partial), 3);
    assert_eq!(joins(Buf::LaneOut), 1);
    // references are up before the launch that goes by them
    for r in vec![Refs::Routed, Refs::Shared, Refs::Tier(0), Refs::Tier(1), Refs::TierShared(1)] {
        let put = v.iter().position(|o| *o == Op::PutRefs(r)).unwrap();
        let run = v.iter().position(|o| matches!(o, Op::Pair { refs, .. } if *refs == r)).unwrap();
        assert!(put < run);
    }
    // other cards start before the primary
    let first = v.iter().position(|o| *o == Op::On(Place::Tier(1))).unwrap();
    let home = v.iter().position(|o| matches!(o, Op::Pair { refs: Refs::Routed, .. })).unwrap();
    assert!(first < home);
    assert_eq!(v[v.len() - 1], Op::Add { dst: Buf::Cur, a: Buf::AfterAttn, b: Buf::FfnOut });
    let v = graph::plan_moe_after(&s, &us, m, FfnFacts { out_scale: Some(7), ..plain_ffn() });
    assert_eq!(v[v.len() - 1], Op::Scale { buf: Buf::Cur, bits: 7 });
}

#[test]
fn delta_mixer() {
    let s = shape_for("qwen3moe");
    let x = Mixer::Gdn { halved: false, packed: false };
    let v = hybrid_graph::plan_mix_half(&s, Capture::No, x, dims(), kq(true), kq(true), true);
    assert_eq!(
        joined(&v),
        "Norm Quantize Mat Mat MulF MulF Coeffs Stash ConvRows SplitRows L2 L2 DeltaRule HeadNorm Swiglu Quantize Mat Add Norm"
    );
    let v = hybrid_graph::plan_mix_half(&s, Capture::Ring(3), x, dims(), kq(false), kq(false), false);
    assert_eq!(v[0], Op::Capture { column: 3, staged: false });
    assert!(!names(&v).contains(&"Quantize".to_string()));
}

#[test]
fn halved_mixer_returns_home() {
    let s = shape_for("qwen3moe");
    let x = Mixer::Gdn { halved: true, packed: true };
    let v = hybrid_graph::plan_mix_half(&s, Capture::No, x, dims(), kq(true), kq(true), false);
    let away = v.iter().position(|o| *o == Op::On(Place::Second)).unwrap();
    let home = v.iter().position(|o| *o == Op::On(Place::Primary)).unwrap();
    assert!(away < home);
    for o in &v[away..home] {
        assert!(!matches!(o, Op::Mat { dst: Buf::Half(false, _), .. }));
    }
    let join = Op::AddIn { dst: Buf::Half(false, Part::Out), src: Buf::Half(false, Part::Recv) };
    assert_eq!(v.iter().filter(|o| **o == join).count(), 1);
    assert_eq!(v[v.len() - 2], Op::Add { dst: Buf::AfterAttn, a: Buf::Cur, b: Buf::Half(false, Part::Out) });
}

#[test]
fn gated_attention_mixer() {
    let s = shape_for("qwen3moe");
    let x = Mixer::Attn { halved: false, n_head: 8, n_head_kv: 2, device_pos: true, rotate: true };
    let v = hybrid_graph::plan_mix_half(&s, Capture::No, x, dims(), kq(true), kq(true), false);
    assert_eq!(
        joined(&v),
        "Norm Quantize Mat SplitGate Mat Mat HeadNorm HeadNorm RopeHalf RopeHalf MulF MulF AppendHalf AppendHalf AttendHalf GateRows Quantize Mat Add Norm"
    );
    assert!(v.contains(&Op::AttendHalf { far: false, src: Buf::Half(false, Part::RotQ), on_card: true }));
}

#[test]
fn hybrid_feed_forward() {
    let s = shape_for("qwen3moe");
    let v = hybrid_graph::plan_ffn_half(&s, HybridFfn::Dense, 0);
    assert_eq!(joined(&v), "Quantize Mat Mat Swiglu Quantize Mat Add");
    let v = hybrid_graph::plan_ffn_half(&s, HybridFfn::Halved, 128);
    assert_eq!(
        joined(&v),
        "Quantize Send On Recv Mat Mat Swiglu Quantize Mat Send On Mat Mat Swiglu Quantize Mat Recv AddIn Add"
    );
    let v = hybrid_graph::plan_ffn_half(&s, HybridFfn::Experts { shared: true }, 0);
    assert_eq!(joined(&v), "MulF Select Mul Mul Swiglu Mul MulF GateShared Quantize Experts Add Add");
    assert_eq!(v[v.len() - 1], Op::Add { dst: Buf::Cur, a: Buf::AfterAttn, b: Buf::FfnOut });
}

fn steps(names: &[&'static str]) -> Vec<Step> {
    names.iter().map(|&part| Step { part, form: Form::Plain, home: Home::Layer }).collect()
}

#[test]
fn weights_have_names() {
    let own = steps(&["ffn_norm.weight", "ffn_gate_shexp.weight"]);
    let other = steps(&["post_attention_norm.weight"]);
    assert_eq!(parts::part_of(&own, Weight::FfnNorm), "ffn_norm.weight");
    assert_eq!(parts::part_of(&other, Weight::FfnNorm), "post_attention_norm.weight");
    assert_eq!(parts::part_of(&own, Weight::SharedUp), "ffn_up_shexp.weight");
    assert_eq!(parts::part_of(&other, Weight::SharedUp), "ffn_up.weight");
    assert_eq!(parts::part_of(&other, Weight::KvA), "attn_kv_a_mqa.weight");
    assert_eq!(parts::part_of(&other, Weight::Z), "attn_gate.weight");
    assert_eq!(parts::part_of(&other, Weight::Rotate), "");
    // slabs of experts are no part of the layer
    let slabs = vec![Step { part: "ffn_gate_shexp.weight", form: Form::SharedExperts, home: Home::Layer }];
    assert!(!parts::has(&slabs, "ffn_gate_shexp.weight"));
    assert_eq!(parts::part_of(&slabs, Weight::SharedGate), "ffn_gate.weight");
    assert_eq!(parts::mixer_names(true), ["attn_qkv.weight", "attn_gate.weight", "attn_gate.weight", "ssm_out.weight"]);
    assert_eq!(parts::mixer_names(false)[3], "attn_output.weight");
    assert_eq!(parts::staged()[4], "attn_v_b.weight");
}

#[test]
fn facts_follow_from_parts() {
    let v = steps(&["attn_q.bias", "attn_q_norm.weight", "attn_gate.weight", "pre_ffw_norm_2.weight", "attn_q.weight"]);
    let a = parts::attn_facts(&v, Some(64), 1, 0, true);
    assert!(a.far && a.bias && !a.has_v && a.q_norm && !a.k_norm && a.head_gate && a.rotate && a.post_norm);
    assert_eq!(a.relative, Some(64));
    assert!(!parts::attn_facts(&v, None, 0, 0, true).far);
    let g = parts::gqa_parts(&v, false, true);
    assert!(!g.relative && g.out_gate && g.q_norm && g.factors);
    let f = parts::ffn_parts(&v, Some(1), None, true, Some(FfnKind::Moe));
    assert!(f.sandwich && !f.conv && !f.shared_expert && f.sink && f.next_moe);
    assert_eq!((f.scale, f.out_scale), (Some(1), None));
    assert!(!parts::ffn_parts(&v, None, None, false, Some(FfnKind::Dense)).next_moe);
    assert!(!parts::ffn_parts(&v, None, None, false, None).next_moe);
    let h = parts::hybrid_facts(&v, FfnKind::DenseKq, 3, 100, true, false);
    assert!(h.has_attn && !h.has_gdn && h.resident_ffn && !h.has_experts && h.t == 3);
    let r = parts::graph_facts(&v, FfnKind::Moe, true, 100, false);
    assert!(r.drafting && r.has_attn && !r.resident_ffn && !r.exact_kv);
}

#[test]
fn latent_layers_select_rows() {
    let s = Shape { n_idx_topk: 4, n_leading_dense: 1, ..shape_for("qwen3moe") };
    let v = steps(&["indexer.attn_q_b.weight"]);
    let none = steps(&[]);
    let mut sel = Selection::new();
    let f = parts::latent_facts(&v, &s, &mut sel, 0, 2, false, 1, 2).ok().unwrap();
    assert_eq!((f.rows, f.visible, f.batch, f.hop, f.keeps_keys), (Rows::All(3), 3, true, None, true));
    assert_eq!((sel.len, sel.dev), (3, 2));
    let f = parts::latent_facts(&v, &s, &mut sel, 0, 2, true, 9, 1).ok().unwrap();
    assert_eq!((f.rows, f.batch, f.hop), (Rows::Scored(4), false, None));
    // another card brings the list over, and reuses it
    let f = parts::latent_facts(&none, &s, &mut sel, 3, 0, true, 9, 1).ok().unwrap();
    assert_eq!((f.rows, f.hop, f.keeps_keys), (Rows::Reused(4), Some(4), false));
    assert_eq!(sel.dev, 0);
    let mut fresh = Selection::new();
    assert_eq!(parts::latent_facts(&none, &s, &mut fresh, 3, 0, true, 9, 1), Err(LatentError::NoSelection));
    assert_eq!(parts::latent_facts(&v, &s, &mut fresh, 0, 0, true, u32::MAX, 1), Err(LatentError::Position));
}
