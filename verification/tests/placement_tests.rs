use pulsar::bank::ExpertBank;
use pulsar::capacity;
use pulsar::capacity::{Budget, Remedy};
use pulsar::header::{Header, MetaEntry, MetaItem, MetaValue, TensorInfo, TensorType};
use pulsar::kv;
use pulsar::kv::{CardMap, KvChoice, KvDims, KvFormat, KvNote, LatFormat};
use pulsar::placement;
use pulsar::placement::{Card, GpuChoice, Run, ATTN_RESERVE, DENSE_RESERVE, MLA_RESERVE};
use pulsar::scratch::{Buffer, ScratchDims};
use pulsar::shape::{Family, Shape};
use pulsar::tensors::{ExpertTensor, Quant};

fn num(key: &str, n: u64) -> MetaEntry {
    MetaEntry {
        key: key.to_string(),
        value: MetaValue { item: MetaItem { num: Some(n), bits: Some((n as f32).to_bits()), flag: None }, list: None },
    }
}

fn base(arch: &str) -> Header {
    Header {
        architecture: Some(arch.to_string()),
        meta: vec![
            num("block_count", 4),
            num("embedding_length", 512),
            num("attention.key_length", 64),
            num("attention.head_count", 8),
            num("attention.head_count_kv", 2),
            num("leading_dense_block_count", 1),
            num("expert_count", 16),
            num("expert_used_count", 4),
            num("expert_feed_forward_length", 256),
            num("feed_forward_length", 1024),
            num("rope.freq_base", 10000),
            num("attention.layer_norm_rms_epsilon", 0),
        ],
        n_tokens: Some(1000),
        tensors: Vec::new(),
        data_offset: 4096,
    }
}

fn shape_for(arch: &str) -> Shape {
    Shape::from_gguf(&base(arch)).ok().unwrap()
}

fn tensor(name: &str, bytes: u64) -> TensorInfo {
    TensorInfo {
        name: name.to_string(),
        ty: TensorType::Q8_0,
        dims: vec![32, 1],
        offset: 0,
        n_elements: 32,
        byte_size: Some(bytes),
        row_bytes: Some(34),
    }
}

#[test]
fn attention_card_setting() {
    assert_eq!(placement::choose_gpu(Family::Mla, None, 0, 2), GpuChoice::Auto);
    assert_eq!(placement::choose_gpu(Family::Mla, Some("off"), 0, 2), GpuChoice::Auto);
    assert_eq!(placement::choose_gpu(Family::Mla, Some(" 1 "), 0, 2), GpuChoice::Use(1));
    assert_eq!(placement::choose_gpu(Family::Mla, Some("0"), 0, 2), GpuChoice::Ignored(0));
    assert_eq!(placement::choose_gpu(Family::Mla, Some("5"), 0, 2), GpuChoice::Ignored(5));
    assert_eq!(placement::choose_gpu(Family::Qwen35, Some("1"), 0, 2), GpuChoice::Auto);
    assert!(placement::may_split(Family::Mla, GpuChoice::Auto, None));
    assert!(!placement::may_split(Family::Mla, GpuChoice::Use(1), None));
    assert!(!placement::may_split(Family::Gqa, GpuChoice::Auto, None));
    assert!(!placement::may_split(Family::K3, GpuChoice::Auto, Some("off")));
}

#[test]
fn layers_are_split_in_one_run_per_card() {
    let gib = 1u64 << 30;
    let lb = vec![gib; 6];
    let cards = vec![
        Card { free: ATTN_RESERVE + 2 * gib, dev: 1 },
        Card { free: ATTN_RESERVE + 4 * gib, dev: 2 },
    ];
    assert!(placement::split_sums_fit(&lb, &cards));
    let s = placement::split_layers(&lb, &cards, 0);
    assert_eq!(s.placed, 6);
    assert_eq!(s.devs, vec![2, 2, 2, 2, 1, 1, 1]);
    let runs: Vec<(usize, usize, i32)> = placement::layer_runs(&s.devs, 6).iter().map(|r: &Run| (r.first, r.last, r.dev)).collect();
    assert_eq!(runs, vec![(0, 3, 2), (4, 5, 1)]);
    assert_eq!(placement::first_offload(&s.devs, 0), Some(2));
    assert!(!placement::split_sums_fit(&vec![u64::MAX, 1], &cards));
}

#[test]
fn what_does_not_fit_stays_on_the_primary() {
    let gib = 1u64 << 30;
    let s = placement::split_layers(&vec![gib; 4], &vec![Card { free: ATTN_RESERVE + 2 * gib, dev: 1 }], 0);
    assert_eq!(s.placed, 2);
    assert_eq!(s.devs, vec![1, 1, 0, 0, 0]);
    let none = placement::split_layers(&vec![gib; 2], &vec![Card { free: 10, dev: 1 }], 0);
    assert_eq!(none.placed, 0);
    assert_eq!(none.devs, vec![0, 0, 0]);
    assert_eq!(placement::first_offload(&none.devs, 0), None);
}

#[test]
fn dense_layers_fill_the_primary() {
    assert_eq!(placement::dense_split(&vec![10; 8], 5, None, None), 8);
    assert_eq!(placement::dense_split(&vec![10; 8], 5, None, Some(3)), 3);
    assert_eq!(placement::dense_split(&vec![10; 8], 5, None, Some(30)), 8);
    let gib = 1u64 << 30;
    let n = placement::dense_split(&vec![gib; 8], gib, Some(DENSE_RESERVE + 4 * gib), None);
    assert!(n < 8);
    assert_eq!(placement::roomiest(&vec![Card { free: 5, dev: 3 }, Card { free: 9, dev: 4 }]), Some(4));
    assert_eq!(placement::roomiest(&Vec::new()), None);
}

#[test]
fn layer_weights_come_from_the_tensor_table() {
    let mut h = base("glm-dsa");
    h.tensors.push(tensor("blk.0.attn_q_a.weight", 100));
    h.tensors.push(tensor("blk.0.attn_output.weight", 50));
    h.tensors.push(tensor("blk.0.ffn_gate_exps.weight", 1000));
    h.tensors.push(tensor("blk.1.attn_q_a.weight", 7));
    let w = placement::layer_weights(&h, false, 2);
    assert_eq!(w, vec![150, 7]);
    assert_eq!(placement::layer_resident_bytes(&h, 1), 7);
}

#[test]
fn attention_budgets() {
    let gib = 1i64 << 30;
    assert_eq!(placement::attn_vram_budget(Family::Gqa, false, Some(1)), i64::MAX);
    assert_eq!(placement::attn_vram_budget(Family::Mla, false, Some(3)), 3 * gib);
    assert_eq!(placement::attn_vram_budget(Family::Mla, false, None), 5 * gib);
    assert_eq!(placement::attn_vram_budget(Family::Mla, true, None), i64::MAX);
    assert_eq!(placement::attn_vram_budget(Family::Dsv4, false, None), 8 * gib);
    assert_eq!(placement::clamp_budget(Family::Mla, false, 6 * gib, Some((MLA_RESERVE + gib) as u64)), gib);
    assert_eq!(placement::clamp_budget(Family::Mla, true, 6 * gib, Some((MLA_RESERVE + gib) as u64)), 6 * gib);
    assert_eq!(placement::clamp_budget(Family::Mla, false, 6 * gib, None), 6 * gib);
    assert_eq!(placement::mtp_depth(false, Some("3")), 0);
    assert_eq!(placement::mtp_depth(true, None), 3);
    assert_eq!(placement::mtp_depth(true, Some("2")), 2);
    assert_eq!(placement::mtp_depth(true, Some("99")), 8);
    assert_eq!(placement::mtp_depth(true, Some("x")), 3);
    assert_eq!(placement::mtp_depth(true, Some("0")), 1);
}

#[test]
fn cache_rows_by_format() {
    assert_eq!(KvFormat::F32.row(128), 512);
    assert_eq!(KvFormat::Fp8.row(128), 132);
    assert_eq!(KvFormat::Fp16.row(128), 256);
    assert_eq!(KvFormat::Int8.row(128), 132);
    assert_eq!(KvFormat::Q8.row(128), 136);
    assert_eq!(KvFormat::Q4.row(128), 72);
    assert_eq!(LatFormat::F32.row(512), 2048);
    assert_eq!(LatFormat::Fp8.row(512), 516);
    assert_eq!(LatFormat::Fp16.row(512), 1024);
    assert_eq!([KvFormat::F32.code(), KvFormat::Fp8.code(), KvFormat::Q4.code()], [0, 1, 5]);
}

#[test]
fn cache_formats_are_chosen() {
    let s = shape_for("qwen3moe");
    let c = kv::choose_kv(&s, None, false);
    assert_eq!((c.format, c.rot, c.lat, c.note), (KvFormat::F32, false, LatFormat::F32, KvNote::Quiet));
    let c = kv::choose_kv(&s, None, true);
    assert_eq!((c.format, c.note), (KvFormat::Fp8, KvNote::Auto));
    for (name, format, rot) in [
        ("fp8", KvFormat::Fp8, false),
        ("fp16", KvFormat::Fp16, false),
        ("int8", KvFormat::Int8, false),
        ("q8_0", KvFormat::Q8, false),
        ("q4_0", KvFormat::Q4, false),
        ("turbo8", KvFormat::Q8, true),
        ("turbo4", KvFormat::Q4, true),
        ("f32", KvFormat::F32, false),
    ] {
        let c = kv::choose_kv(&s, Some(name), true);
        assert_eq!((c.format, c.rot), (format, rot));
        assert_eq!(kv::kv_name(&c), name);
    }
    let m = shape_for("glm-dsa");
    let c = kv::choose_kv(&m, Some("fp8"), false);
    assert_eq!((c.format, c.lat), (KvFormat::F32, LatFormat::Fp8));
    assert_eq!(kv::choose_kv(&m, Some("q4_0"), false).note, KvNote::NoLatent);
    assert_eq!(kv::choose_kv(&shape_for("deepseek4"), Some("fp8"), false).format, KvFormat::Fp8);
    assert_eq!(kv::choose_kv(&shape_for("kimi-k3"), Some("fp8"), false).note, KvNote::Ignored);
    assert_eq!(kv::choose_kv(&shape_for("qwen35"), Some("fp8"), false).note, KvNote::Ignored);
    let wide = Shape { qk_nope: 64, qk_rope: 64, ..shape_for("qwen3moe") };
    let c = kv::choose_kv(&wide, Some("turbo4"), false);
    assert_eq!((c.format, c.rot, c.note), (KvFormat::Q4, false, KvNote::RotationOff));
}

#[test]
fn large_caches_are_packed() {
    let gib = 1usize << 30;
    assert!(!kv::auto_fp8(2 * gib, Some(1)));
    assert!(kv::auto_fp8(3 * gib, Some(8 * gib)));
    assert!(!kv::auto_fp8(3 * gib, Some(9 * gib)));
    assert!(!kv::auto_fp8(3 * gib, None));
}

fn exact() -> KvChoice {
    KvChoice { format: KvFormat::F32, rot: false, lat: LatFormat::F32, note: KvNote::Quiet }
}

#[test]
fn cache_slots_have_sizes() {
    let dims = KvDims {
        shape: shape_for("qwen3moe"),
        geom: Vec::new(),
        ratios: Vec::new(),
        latent: Vec::new(),
        ctx: 100,
        has_mtp: false,
    };
    assert_eq!(dims.slot(&exact(), 0), Some((2 * 100 * 256, 2 * 100 * 256)));
    assert_eq!(dims.exact_bytes(), Some(4 * 2 * 2 * 100 * 256));
    let lat = KvDims { shape: shape_for("glm-dsa"), ..dims };
    assert_eq!(lat.slot(&exact(), 0), Some((100 * 2048, 100 * 256)));
}

#[test]
fn cards_of_cache_slots() {
    let m = CardMap { layer_dev: Vec::new(), attn_layer_dev: vec![1, 1, 0], attn_dev: Some(1), primary: 0 };
    assert!(!m.is_dense_split());
    assert!(m.is_attn_split());
    assert_eq!(m.kv_devs(3), kv::distinct_cards(&m.cards(3)));
    assert_eq!(kv::distinct_cards(&vec![2, 1, 2, 0]), vec![2, 1, 0]);
}

#[test]
fn selection_keys_have_sizes() {
    let mut s = shape_for("glm-dsa");
    s.n_idx_topk = 2048;
    s.n_idx_dim = 128;
    let full: Vec<usize> = (0..4).filter(|&il| kv::idx_bytes(&s, LatFormat::F32, il, 10).is_some()).collect();
    assert!(!full.is_empty());
    assert_eq!(kv::idx_bytes(&s, LatFormat::F32, full[0], 10), Some(10 * 256));
    assert_eq!(kv::idx_bytes(&s, LatFormat::Fp8, full[0], 10), Some(10 * 132));
    assert_eq!(kv::idx_bytes(&shape_for("glm-dsa"), LatFormat::F32, full[0], 10), None);
}

fn part(expert_bytes: u64) -> ExpertTensor {
    ExpertTensor { abs_offset: 0, expert_bytes, row_bytes: 10, quant: Quant::Q4K }
}

fn bank(a: u64, b: u64, c: u64) -> ExpertBank {
    ExpertBank { gate: part(a), up: part(b), down: part(c), fused_up_off: 0, sink: None, n_expert: 16, n_sink: 0 }
}

#[test]
fn memory_is_divided() {
    let s = shape_for("qwen3moe");
    let banks = vec![bank(100, 100, 100), bank(100, 300, 200)];
    assert_eq!(capacity::max_slab(&banks), 300);
    assert_eq!(capacity::max_slab(&Vec::new()), 0);
    assert_eq!(capacity::worst_staging(&banks, &s, 1), 4 * 600);
    assert_eq!(capacity::worst_staging(&banks, &s, 100), 16 * 600);
    let gib = 1usize << 30;
    let b = capacity::solve(&banks, &s, 4 * gib, 256, false, None).unwrap();
    assert_eq!(b.chunk, 256);
    assert_eq!(b.staging, 16 * 600);
    assert_eq!(b.cache, 4 * gib - 0x3000_0000 - b.staging);
    let forced = capacity::solve(&banks, &s, 0, 64, true, Some(0)).unwrap();
    assert_eq!((forced.chunk, forced.cache), (64, 1));
    let tight = capacity::solve(&vec![bank(1 << 30, 1 << 30, 1 << 30)], &s, gib, 256, false, None).unwrap();
    assert_eq!(tight.chunk, 4);
    assert_eq!(tight.cache, 0x1000_0000);
}

#[test]
fn crowded_caches_are_told() {
    let gib = 1usize << 30;
    let b = Budget { chunk: 8, staging: 0, cache: 2 * gib };
    assert_eq!(capacity::starved(true, &b, 2 * gib, gib, true, false), Some(Remedy::Pack));
    assert_eq!(capacity::starved(true, &b, 2 * gib, gib, true, true), Some(Remedy::Shorten));
    assert_eq!(capacity::starved(true, &b, 2 * gib, gib, false, false), Some(Remedy::ShortenOnly));
    assert_eq!(capacity::starved(false, &b, 2 * gib, gib, true, false), None);
    assert_eq!(capacity::starved(true, &b, gib, 9 * gib, true, false), None);
    let easy = Budget { chunk: 64, staging: 0, cache: 2 * gib };
    assert_eq!(capacity::starved(true, &easy, 2 * gib, gib, true, false), None);
}

#[test]
fn batch_settings() {
    assert_eq!(capacity::batch_size(None), 256);
    assert_eq!(capacity::batch_size(Some("0")), 1);
    assert_eq!(capacity::batch_size(Some("64")), 64);
    assert_eq!(capacity::batch_size(Some("many")), 256);
    assert_eq!(capacity::spec_rows(0, Family::Gqa, None), 2);
    assert_eq!(capacity::spec_rows(4, Family::Gqa, None), 5);
    assert_eq!(capacity::spec_rows(1, Family::Qwen35, None), 16);
    assert_eq!(capacity::spec_rows(1, Family::Gqa, Some(99)), 16);
    assert_eq!(capacity::spec_rows(1, Family::Gqa, Some(0)), 2);
}

#[test]
fn host_cache_follows_free_memory() {
    let report = "MemTotal:  1 kB\nMemAvailable:   16777216 kB\n";
    assert_eq!(capacity::cache_gb(None, false, Some(report)), 10);
    assert_eq!(capacity::cache_gb(None, true, Some(report)), 10);
    assert_eq!(capacity::cache_gb(None, false, None), 12);
    assert_eq!(capacity::cache_gb(None, true, None), 22);
    assert_eq!(capacity::cache_gb(None, false, Some("MemAvailable: 10 kB")), 4);
    assert_eq!(capacity::cache_gb(Some("3"), false, Some(report)), 3);
    assert_eq!(capacity::cache_gb(Some("x"), false, Some(report)), 10);
}

#[test]
fn scratch_buffers_have_sizes() {
    let d = ScratchDims {
        shape: shape_for("qwen3moe"),
        batch: 8,
        ctx: 100,
        spec_rows: 2,
        block_elems: 256,
        block_bytes: 292,
        ref_bytes: 48,
    };
    assert_eq!(d.bytes(Buffer::Tokens), Some(32));
    assert_eq!(d.bytes(Buffer::Rows), Some(8 * 512 * 4));
    assert_eq!(d.bytes(Buffer::LastRows), Some(2 * 512 * 4));
    assert_eq!(d.bytes(Buffer::Query), Some(8 * 8 * 64 * 4));
    assert_eq!(d.bytes(Buffer::KeyHeads), Some(8 * 2 * 64 * 4));
    assert_eq!(d.bytes(Buffer::FfnAct), Some(8 * 1024 * 4));
    assert_eq!(d.bytes(Buffer::RouterLogits), Some(8 * 16 * 4));
    assert_eq!(d.bytes(Buffer::ExpertMid), Some(8 * 4 * 256 * 4));
    assert_eq!(d.bytes(Buffer::RowBlocks), Some(8 * 2 * 292));
    assert_eq!(d.bytes(Buffer::ExpertRefs), Some(8 * 4 * 48));
    assert_eq!(d.bytes(Buffer::Logits), Some(2 * 1000 * 4));
    assert_eq!(d.bytes(Buffer::GroupStarts), Some(17 * 4));
    assert_eq!(d.bytes(Buffer::Rotation), Some(64 * 64 * 4));
    let huge = ScratchDims { shape: Shape { n_head: u32::MAX, head_dim: u32::MAX, ..shape_for("qwen3moe") }, batch: u32::MAX, ..d };
    assert_eq!(huge.bytes(Buffer::Query), None);
}
