use pulsar::header;
use pulsar::header::{Header, MetaEntry, MetaItem, MetaValue, TensorInfo, TensorType};
use pulsar::shape;
use pulsar::shape::{Arch, Error, Family, Shape, F32_ONE};
use pulsar::store::Read;
use pulsar::tensors;
use pulsar::tensors::{ExpertTensor, FloatPath, Quant, ReadPath};

fn num(key: &str, n: u64) -> MetaEntry {
    MetaEntry {
        key: key.to_string(),
        value: MetaValue { item: MetaItem { num: Some(n), bits: Some((n as f32).to_bits()), flag: None }, list: None },
    }
}

fn real_of(key: &str, x: f32) -> MetaEntry {
    MetaEntry {
        key: key.to_string(),
        value: MetaValue { item: MetaItem { num: None, bits: Some(x.to_bits()), flag: None }, list: None },
    }
}

fn nums(key: &str, ns: &[u64]) -> MetaEntry {
    MetaEntry {
        key: key.to_string(),
        value: MetaValue {
            item: MetaItem { num: None, bits: None, flag: None },
            list: Some(ns.iter().map(|&n| MetaItem { num: Some(n), bits: None, flag: None }).collect()),
        },
    }
}

fn tensor(name: &str, ty: TensorType, dims: &[u64]) -> TensorInfo {
    TensorInfo {
        name: name.to_string(),
        ty,
        dims: dims.to_vec(),
        offset: 64,
        n_elements: dims.iter().product(),
        byte_size: Some(1000),
        row_bytes: Some(144),
    }
}

fn base(arch: &str) -> Header {
    Header {
        architecture: Some(arch.to_string()),
        meta: vec![
            num("block_count", 4),
            num("embedding_length", 512),
            num("attention.key_length", 64),
            num("attention.head_count", 8),
            nums("attention.head_count_kv", &[1, 2, 2]),
            num("leading_dense_block_count", 1),
            num("expert_count", 16),
            num("expert_used_count", 4),
            num("expert_feed_forward_length", 256),
            num("feed_forward_length", 1024),
            real_of("rope.freq_base", 500000.0),
            real_of("attention.layer_norm_rms_epsilon", 1e-6),
        ],
        n_tokens: Some(1000),
        tensors: Vec::new(),
        data_offset: 4096,
    }
}

fn without(mut h: Header, key: &str) -> Header {
    h.meta.retain(|m| m.key != key);
    h
}

fn refused(h: &Header) -> String {
    assert!(shape::arithmetic_fits(h));
    match Shape::from_gguf(h) {
        Err(Error::Meta(k)) => k,
        Err(Error::Architecture(name)) => format!("architecture {}", name.unwrap_or_default()),
        Ok(_) => "accepted".to_string(),
    }
}

#[test]
fn lookup_finds_the_first_entry() {
    let mut h = base("qwen3moe");
    h.meta.push(num("block_count", 99));
    assert_eq!(h.get_num("block_count"), Some(4));
    assert_eq!(h.get_num("nothing"), None);
    assert_eq!(h.get_num32_or("nothing", 7), 7);
    assert_eq!(h.get_bits_or("nothing", 3), 3);
    assert_eq!(h.get_bits("rope.freq_base"), Some(500000.0f32.to_bits()));
    assert_eq!(header::largest(h.get_list("attention.head_count_kv").unwrap()), Some(2));
    assert_eq!(header::cut32(0x1_0000_0005), 5);
    assert!(h.arch_meta("expert_count").is_some());
}

#[test]
fn tensor_names() {
    let mut h = base("qwen3moe");
    h.tensors.push(tensor(&header::blk(3, "ffn_norm.weight"), TensorType::F32, &[512]));
    assert_eq!(h.tensors[0].name, "blk.3.ffn_norm.weight");
    assert!(h.tensor("blk.3.ffn_norm.weight").is_some());
    assert!(h.tensor("blk.4.ffn_norm.weight").is_none());
}

#[test]
fn architectures_and_families() {
    for (name, arch, family) in [
        ("hy-v3", Arch::HyV3, Family::Gqa),
        ("hy_v3", Arch::HyV3, Family::Gqa),
        ("minimax-m2", Arch::MinimaxM2, Family::Gqa),
        ("minimax-m3", Arch::MinimaxM3, Family::Gqa),
        ("qwen3moe", Arch::Qwen3Moe, Family::Gqa),
        ("gemma4", Arch::Gemma4, Family::Gqa),
        ("laguna", Arch::Laguna, Family::Gqa),
        ("gpt-oss", Arch::GptOss, Family::Gqa),
        ("inkling", Arch::Inkling, Family::Gqa),
        ("glm-dsa", Arch::GlmDsa, Family::Mla),
        ("deepseek2", Arch::Deepseek2, Family::Mla),
        ("deepseek4", Arch::Deepseek4, Family::Dsv4),
        ("qwen35", Arch::Qwen35, Family::Qwen35),
        ("qwen35moe", Arch::Qwen35Moe, Family::Qwen35),
        ("kimi-k3", Arch::KimiK3, Family::K3),
    ] {
        let a = shape::parse_arch(&base(name)).unwrap();
        assert_eq!(a, arch);
        assert_eq!(a.family(), family);
    }
    assert!(shape::parse_arch(&base("llama")).is_none());
    assert_eq!(refused(&base("llama")), "architecture llama");
    let text = |h: &Header| Shape::from_gguf(h).err().unwrap().message();
    assert_eq!(text(&base("llama")), "unsupported architecture Some(\"llama\")");
    assert_eq!(text(&base("a\"b")), "unsupported architecture Some(\"a\\\"b\")");
    let unnamed = Header { architecture: None, ..base("llama") };
    assert_eq!(text(&unnamed), "unsupported architecture None");
    assert_eq!(shape::arch_message(Some("\"x\"")), "unsupported architecture Some(\"x\")");
    assert_eq!(text(&without(base("qwen3moe"), "block_count")), "gguf metadata missing/bad: block_count");
}

#[test]
fn grouped_query_shape() {
    let h = base("qwen3moe");
    let s = Shape::from_gguf(&h).ok().unwrap();
    assert_eq!(s.family, Family::Gqa);
    assert_eq!((s.n_embd, s.n_head, s.n_head_kv, s.head_dim), (512, 8, 2, 64));
    assert_eq!((s.n_layer, s.n_exec_layer, s.n_leading_dense), (4, 4, 1));
    assert_eq!((s.n_expert, s.n_expert_used, s.n_ff_exp, s.n_ff_dense), (16, 4, 256, 1024));
    assert_eq!(s.n_vocab, 1000);
    assert_eq!(s.expert_weight_scale, F32_ONE);
    assert!(s.router_softmax);
    assert_eq!(s.rot_dim, 64);
    assert_eq!(s.heads_dim(), 512);
    assert!(!s.recurrent_state());
}

#[test]
fn latent_shape_has_defaults() {
    let mut h = base("glm-dsa");
    h.meta.push(num("nextn_predict_layers", 1));
    h.meta.push(num("attention.indexer.top_k", 2048));
    let s = Shape::from_gguf(&h).ok().unwrap();
    assert_eq!(s.n_exec_layer, 3);
    assert_eq!((s.n_lora_q, s.n_kv_lora, s.qk_rope, s.qk_nope), (2048, 512, 64, 192));
    assert_eq!(s.qk_dim(), 256);
    assert_eq!(s.heads_dim(), 8 * 256);
    assert_eq!(s.n_idx_topk, 2048);
    assert!(!s.router_softmax);
}

#[test]
fn shared_slots_widen_the_selection() {
    let mut h = base("inkling");
    h.meta.push(num("expert_shared_count", 2));
    h.meta.push(num("d_rel", 8));
    h.meta.push(num("rel_extent", 512));
    h.meta.push(num("rel_extent_swa", 128));
    h.meta.push(num("shortconv_kernel", 3));
    let s = Shape::from_gguf(&h).ok().unwrap();
    assert_eq!(s.n_expert_used, 6);
    assert_eq!(s.n_shexp_sink, 2);
    assert_eq!(s.rot_dim, 0);
    for k in ["expert_shared_count", "d_rel", "rel_extent", "rel_extent_swa", "shortconv_kernel"] {
        let mut h = base("inkling");
        for m in ["expert_shared_count", "d_rel", "rel_extent", "rel_extent_swa", "shortconv_kernel"] {
            h.meta.push(num(m, 1));
        }
        assert_eq!(refused(&without(h, k)), k);
    }
}

#[test]
fn other_families_have_their_extras() {
    let s = Shape::from_gguf(&base("qwen35")).ok().unwrap();
    assert_eq!((s.n_expert, s.n_expert_used, s.n_leading_dense, s.n_ff_exp), (1, 1, 0, 1024));
    assert_eq!((s.ssm_conv_k, s.ssm_state, s.ssm_inner, s.full_attn_interval), (4, 128, 4096, 4));
    assert!(s.recurrent_state());
    let s = Shape::from_gguf(&base("kimi-k3")).ok().unwrap();
    assert_eq!((s.kda_head_dim, s.ssm_inner, s.qk_nope, s.n_ff_shexp), (128, 1024, 128, 256));
    assert_eq!(s.moe_act_op, 4);
    let s = Shape::from_gguf(&base("deepseek4")).ok().unwrap();
    assert_eq!((s.n_swa, s.n_hc, s.n_idx_topk, s.n_out_group), (128, 4, 512, 8));
    assert_eq!(s.clamp_exp, 10.0f32.to_bits());
    assert_eq!(s.rope_scale_factor, 16.0f32.to_bits());
    let s = Shape::from_gguf(&base("gpt-oss")).ok().unwrap();
    assert!(s.rope_yarn_uniform && s.router_softmax && s.moe_act_op == 2);
    assert_eq!(s.rope_orig_ctx, 4096);
    assert_eq!(Shape::from_gguf(&base("laguna")).ok().unwrap().rope_orig_ctx, 8192);
    assert_eq!(Shape::from_gguf(&base("gemma4")).ok().unwrap().moe_act_op, 1);
}

#[test]
fn missing_metadata_is_named() {
    for k in [
        "block_count",
        "embedding_length",
        "attention.key_length",
        "expert_count",
        "expert_used_count",
        "expert_feed_forward_length",
        "feed_forward_length",
        "rope.freq_base",
        "attention.layer_norm_rms_epsilon",
    ] {
        assert_eq!(refused(&without(base("qwen3moe"), k)), k);
    }
    let mut h = base("qwen3moe");
    h.n_tokens = None;
    assert_eq!(refused(&h), "tokenizer.ggml.tokens");
    assert_eq!(refused(&without(base("qwen3moe"), "leading_dense_block_count")), "no MoE layers found");
    assert_eq!(shape::meta_message("k"), "gguf metadata missing/bad: k");
    assert!(matches!(shape::meta_err("k"), Error::Meta(m) if m == "k"));
}

#[test]
fn leading_dense_layers_are_counted() {
    let mut h = without(base("qwen3moe"), "leading_dense_block_count");
    h.tensors.push(tensor("blk.2.ffn_gate_exps.weight", TensorType::Q4K, &[512, 256, 16]));
    assert_eq!(Shape::from_gguf(&h).ok().unwrap().n_leading_dense, 2);
}

#[test]
fn overflowing_shapes_are_told() {
    let mut h = base("glm-dsa");
    h.meta.push(num("attention.key_length_mla", 32));
    assert!(!shape::arithmetic_fits(&h));
    let mut h = base("glm-dsa");
    h.meta.push(num("nextn_predict_layers", 5));
    assert!(!shape::arithmetic_fits(&h));
}

#[test]
fn expert_encodings() {
    assert_eq!(tensors::quant_code(TensorType::Q4K), Some(Quant::Q4K));
    assert_eq!(tensors::quant_code(TensorType::MXFP4), Some(Quant::MXFP4));
    assert_eq!(tensors::quant_code(TensorType::F32), None);
    assert!(tensors::supported(Quant::Q4K));
    assert!(!tensors::supported(Quant::MXFP4));
    let t = tensor("w", TensorType::Q4K, &[512, 256, 16]);
    let x = ExpertTensor::new(&base("qwen3moe"), &t, 16).unwrap();
    assert_eq!((x.abs_offset, x.row_bytes, x.expert_bytes), (4160, 144, 144 * 256));
    let Read { offset, len } = x.slab(2);
    assert_eq!((offset, len), (4160 + 2 * 144 * 256, 144 * 256));
    assert!(x.slab(1).offset + x.slab(1).len <= x.slab(2).offset);
}

#[test]
fn read_paths() {
    assert!(matches!(tensors::read_path(&tensor("w", TensorType::Q8_0, &[512, 4])), ReadPath::Raw));
    assert!(matches!(tensors::read_path(&tensor("w", TensorType::F16, &[512, 4])), ReadPath::HalfToQ8));
    assert!(matches!(tensors::read_path(&tensor("w", TensorType::BF16, &[512, 4])), ReadPath::BrainToQ8));
    assert!(matches!(tensors::read_path(&tensor("w", TensorType::F16, &[33, 4])), ReadPath::BadWidth));
    assert!(matches!(tensors::float_path(&tensor("w", TensorType::F32, &[7])), FloatPath::Raw));
    assert!(matches!(tensors::float_path(&tensor("w", TensorType::F16, &[7])), FloatPath::Half));
    assert!(matches!(tensors::float_path(&tensor("w", TensorType::BF16, &[7])), FloatPath::Brain));
    assert!(matches!(tensors::float_path(&tensor("w", TensorType::IQ1S, &[256])), FloatPath::Unsupported));
    for ty in [TensorType::Q2K, TensorType::Q3K, TensorType::Q5K, TensorType::Q6K] {
        assert!(matches!(tensors::float_path(&tensor("w", ty, &[256])), FloatPath::Blocks));
    }
    assert!(matches!(tensors::float_path(&tensor("w", TensorType::Q4K, &[256])), FloatPath::Q4K));
}

#[test]
fn budget_is_spent_once() {
    assert_eq!(tensors::spend_budget(100, 60, false), (true, 40));
    assert_eq!(tensors::spend_budget(40, 60, false), (false, 40));
    assert_eq!(tensors::spend_budget(100, 60, true), (false, 100));
}
