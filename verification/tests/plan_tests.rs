use pulsar::geom;
use pulsar::geom::RatioError;
use pulsar::header::{Header, MetaEntry, MetaItem, MetaValue, TensorInfo, TensorType};
use pulsar::layer_plan;
use pulsar::layer_plan::{FfnKind, Form, Home};
use pulsar::loading;
use pulsar::loading::LoadError;
use pulsar::shape::{Arch, Error, Shape};

fn num(key: &str, n: u64) -> MetaEntry {
    MetaEntry {
        key: key.to_string(),
        value: MetaValue { item: MetaItem { num: Some(n), bits: Some((n as f32).to_bits()), flag: None }, list: None },
    }
}

fn base(arch: &str) -> Header {
    Header {
        architecture: Some(arch.to_string()),
        meta: vec![
            num("block_count", 4),
            num("embedding_length", 512),
            num("attention.key_length", 64),
            num("attention.head_count", 8),
            num("attention.head_count_kv", 2),
            num("leading_dense_block_count", 1),
            num("expert_count", 16),
            num("expert_used_count", 4),
            num("expert_feed_forward_length", 256),
            num("feed_forward_length", 1024),
            num("rope.freq_base", 10000),
            num("attention.layer_norm_rms_epsilon", 0),
        ],
        n_tokens: Some(1000),
        tensors: Vec::new(),
        data_offset: 4096,
    }
}

fn shape_for(arch: &str) -> Shape {
    Shape::from_gguf(&base(arch)).ok().unwrap()
}

fn list(key: &str, ns: &[u64]) -> MetaEntry {
    MetaEntry {
        key: key.to_string(),
        value: MetaValue {
            item: MetaItem { num: None, bits: None, flag: None },
            list: Some(ns.iter().map(|&n| MetaItem { num: Some(n), bits: None, flag: Some(n != 0) }).collect()),
        },
    }
}

fn tensor(name: &str, ty: TensorType, dims: &[u64]) -> TensorInfo {
    TensorInfo {
        name: name.to_string(),
        ty,
        dims: dims.to_vec(),
        offset: 0,
        n_elements: dims.iter().product(),
        byte_size: Some(400),
        row_bytes: Some(10),
    }
}

#[test]
fn uniform_families_have_no_geometry() {
    assert_eq!(geom::layer_geoms(&base("qwen3moe"), &shape_for("qwen3moe")).len(), 0);
}

#[test]
fn numbers_under_a_key() {
    let mut h = base("laguna");
    h.meta.push(list("attention.head_count_per_layer", &[3, 4]));
    assert_eq!(geom::nums_under(&h, "attention.head_count_per_layer"), vec![3, 4]);
    assert_eq!(geom::nums_under(&h, "missing"), Vec::<u64>::new());
}

#[test]
fn head_constants() {
    let h = base("gemma4");
    let c = geom::head_consts(&h, &shape_for("gemma4")).ok().unwrap();
    assert_eq!(c.logit_softcap, 30.0f32.to_bits());
    assert_eq!(c.n_vocab_out, 1000);
    let h = base("qwen3moe");
    let c = geom::head_consts(&h, &shape_for("qwen3moe")).ok().unwrap();
    assert_eq!((c.logit_softcap, c.logit_denom), (0, None));
    let mut h = base("inkling");
    let s = shape_for("qwen3moe");
    assert!(matches!(geom::head_consts(&h, &s), Err(Error::Meta(k)) if k == "logit_scale_denom"));
    h.meta.push(num("logit_scale_denom", 24));
    h.meta.push(num("unpadded_vocab_size", 900));
    let c = geom::head_consts(&h, &s).ok().unwrap();
    assert_eq!((c.logit_denom, c.n_vocab_out), (Some(24.0f32.to_bits()), 900));
}

#[test]
fn compression_ratios() {
    let s = shape_for("deepseek4");
    let mut h = base("deepseek4");
    assert!(matches!(geom::compress_ratios(&h, &s), Err(RatioError::Missing)));
    h.meta.push(list("attention.compress_ratios", &[0, 4]));
    assert!(matches!(geom::compress_ratios(&h, &s), Err(RatioError::Short)));
    h.meta.pop();
    h.meta.push(list("attention.compress_ratios", &[0, 4, 128, 4]));
    assert_eq!(geom::compress_ratios(&h, &s).ok().unwrap(), vec![0, 4, 128, 4]);
    assert_eq!(geom::compress_ratios(&base("qwen3moe"), &shape_for("qwen3moe")).ok().unwrap().len(), 0);
}

#[test]
fn steps_of_a_layer() {
    let mut h = base("qwen3moe");
    for p in ["ffn_gate_exps.weight", "ffn_up_exps.weight", "ffn_down_exps.weight"] {
        h.tensors.push(tensor(&format!("blk.1.{}", p), TensorType::Q4K, &[512, 256, 16]));
    }
    let s = shape_for("qwen3moe");
    assert_eq!(layer_plan::ffn_kind(&h, &s, 0), FfnKind::Dense);
    assert_eq!(layer_plan::ffn_kind(&h, &s, 1), FfnKind::Moe);
    let dense = layer_plan::plan_layer(&h, &s, Arch::Qwen3Moe, 0, 0);
    let moe = layer_plan::plan_layer(&h, &s, Arch::Qwen3Moe, 1, 0);
    assert!(dense.iter().any(|x| x.part == "attn_norm.weight"));
    assert!(dense.iter().any(|x| x.part == "ffn_gate.weight"));
    assert!(!dense.iter().any(|x| x.form == Form::Experts));
    assert!(moe.iter().any(|x| x.part == "ffn_gate_inp.weight"));
    assert!(moe.iter().any(|x| x.form == Form::Experts));
}

#[test]
fn homes_become_cards() {
    assert_eq!(layer_plan::card_of(Home::Layer, 3, 1, Some(2), 0), 3);
    assert_eq!(layer_plan::card_of(Home::Attn, 3, 1, Some(2), 0), 1);
    assert_eq!(layer_plan::card_of(Home::Attn, 3, 0, Some(2), 0), 3);
    assert_eq!(layer_plan::card_of(Home::Primary, 3, 1, Some(2), 0), 0);
    assert_eq!(layer_plan::card_of(Home::After, 3, 1, Some(2), 0), 0);
    assert_eq!(layer_plan::card_of(Home::Offload, 3, 1, Some(2), 0), 2);
    assert_eq!(layer_plan::card_of(Home::Offload, 3, 1, None, 0), 3);
}

#[test]
fn banks_are_loaded_or_named() {
    let s = shape_for("qwen3moe");
    let mut h = base("qwen3moe");
    assert!(loading::bank_fits(&h, &s, Arch::Qwen3Moe, 1));
    assert!(matches!(
        loading::load_bank(&h, &s, Arch::Qwen3Moe, 1),
        Err(LoadError::Missing(n)) if n == "blk.1.ffn_gate_exps.weight"
    ));
    for p in ["ffn_gate_exps.weight", "ffn_up_exps.weight", "ffn_down_exps.weight"] {
        h.tensors.push(tensor(&format!("blk.1.{}", p), TensorType::Q4K, &[512, 256, 16]));
    }
    assert!(loading::bank_fits(&h, &s, Arch::Qwen3Moe, 1));
    let b = loading::load_bank(&h, &s, Arch::Qwen3Moe, 1).ok().unwrap();
    assert_eq!((b.n_expert, b.n_sink, b.fused_up_off), (16, 0, 0));
    assert_eq!(b.gate.expert_bytes, 2560);
    let v = loading::draft_layout(&b);
    assert_eq!(v.len(), 48);
    assert_eq!((v[1].offset, v[1].len), (b.gate.slab(1).offset, 2560));
    h.tensors[0].ty = TensorType::F32;
    assert!(matches!(
        loading::load_bank(&h, &s, Arch::Qwen3Moe, 1),
        Err(LoadError::Unsupported(n)) if n == "blk.1.ffn_gate_exps.weight"
    ));
    assert!(!loading::expert_fits(&h, &tensor("x", TensorType::Q4K, &[512, 256]), 16));
}

#[test]
fn matrices_are_transposed() {
    assert_eq!(loading::transpose(&vec![1, 2, 3, 4, 5, 6], 2, 3).map(|t| t.len()), Some(6));
    assert_eq!(loading::transpose(&vec![1, 2, 3], 2, 3), None);
    let once = loading::transpose(&vec![1, 2, 3, 4, 5, 6], 2, 3).unwrap();
    let twice = loading::transpose(&once, 3, 2).unwrap();
    assert_eq!(twice, vec![1, 2, 3, 4, 5, 6]);
    assert_ne!(once, twice);
}

#[test]
fn unread_tensors_are_noticed() {
    assert_eq!(loading::skipped_notice(&Vec::new(), 4), None);
    let note = loading::skipped_notice(&vec!["blk.1.odd.weight".to_string()], 4).unwrap();
    assert!(note.contains("odd"));
}
