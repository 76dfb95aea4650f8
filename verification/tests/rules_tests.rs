use pulsar::bank::ExpertBank;
use pulsar::capacity;
use pulsar::dev_cache::DeviceSlabCache;
use pulsar::generate;
use pulsar::generate::Speculation;
use pulsar::geom;
use pulsar::graph;
use pulsar::graph::{FfnParts, Refs};
use pulsar::header::{Header, MetaEntry, MetaItem, MetaValue, TensorInfo, TensorType};
use pulsar::hybrid;
use pulsar::kv::{KvChoice, KvFormat, KvNote, LatFormat};
use pulsar::loading;
use pulsar::loading::Extra;
use pulsar::placement;
use pulsar::prefetch;
use pulsar::resolve;
use pulsar::resolve::{Landing, Place, SlotUse};
use pulsar::session::Chat;
use pulsar::shape::{Arch, Family, Shape};
use pulsar::stats;
use pulsar::store::Read;
use pulsar::tensors;
use pulsar::tensors::{ExpertTensor, Quant};

fn num(key: &str, n: u64) -> MetaEntry {
    MetaEntry {
        key: key.to_string(),
        value: MetaValue { item: MetaItem { num: Some(n), bits: Some((n as f32).to_bits()), flag: None }, list: None },
    }
}

fn tensor(name: &str, n: u64, bytes: u64) -> TensorInfo {
    TensorInfo {
        name: name.to_string(),
        ty: TensorType::Q8_0,
        dims: vec![32, 1],
        offset: 0,
        n_elements: n,
        byte_size: Some(bytes),
        row_bytes: Some(34),
    }
}

fn header(arch: &str, tensors: Vec<TensorInfo>) -> Header {
    Header {
        architecture: Some(arch.to_string()),
        meta: vec![
            num("block_count", 4),
            num("embedding_length", 512),
            num("attention.key_length", 64),
            num("attention.head_count", 8),
            num("attention.head_count_kv", 2),
            num("leading_dense_block_count", 1),
            num("expert_count", 16),
            num("expert_used_count", 4),
            num("expert_feed_forward_length", 256),
            num("feed_forward_length", 1024),
            num("rope.freq_base", 10000),
            num("attention.layer_norm_rms_epsilon", 0),
        ],
        n_tokens: Some(1000),
        tensors,
        data_offset: 4096,
    }
}

fn plain_shape() -> Shape {
    Shape::from_gguf(&header("qwen3moe", Vec::new())).ok().unwrap()
}

#[test]
fn slabs_land_where_they_are_read() {
    let mut dev = DeviceSlabCache::new(200, 100);
    let none: Vec<u64> = Vec::new();
    assert_eq!(resolve::land(&mut dev, 5, 70, true, &none, &none), Landing::Host);
    assert_eq!(resolve::land(&mut dev, 5, 70, false, &vec![4, 5], &none), Landing::Stay);
    dev.bump(5, 100);
    dev.bump(5, 100);
    let first = resolve::land(&mut dev, 5, 70, false, &none, &none);
    let Landing::Fill(slot) = first else { panic!("no slot") };
    assert_eq!(dev.meta[slot as usize].freq, 2);
    assert_eq!(resolve::land(&mut dev, 5, 70, false, &none, &none), Landing::Slot(slot));
    let Landing::Fill(other) = resolve::land(&mut dev, 6, 70, false, &none, &none) else {
        panic!("no slot")
    };
    assert_eq!(resolve::land(&mut dev, 7, 70, false, &none, &none), Landing::Stage(70));
    dev.bump(7, 100);
    assert_eq!(resolve::land(&mut dev, 7, 70, false, &none, &vec![6]), Landing::Stage(70));
    assert_eq!(
        resolve::land(&mut dev, 7, 70, false, &none, &none),
        Landing::Fill(other)
    );
    assert_eq!(Landing::Host.place(), Some(Place::Host));
    assert_eq!(Landing::Stay.place(), None);
    assert_eq!(first.place(), Some(Place::Slot(slot)));
    assert_eq!(Landing::Slot(3).place(), Some(Place::Slot(3)));
    assert_eq!(Landing::Stage(9).place(), Some(Place::Stage(9)));
}

#[test]
fn slots_are_listed_for_who_serves_them() {
    assert_eq!(graph::refs_of(SlotUse::Null, true), None);
    assert_eq!(graph::refs_of(SlotUse::Tier { tier: 2, bank_pass: false }, false), Some(Refs::Tier(2)));
    assert_eq!(graph::refs_of(SlotUse::Tier { tier: 2, bank_pass: true }, false), Some(Refs::TierShared(2)));
    assert_eq!(graph::refs_of(SlotUse::Lane, false), None);
    assert_eq!(graph::refs_of(SlotUse::Lane, true), Some(Refs::Lane));
    assert_eq!(graph::refs_of(SlotUse::Bank, false), Some(Refs::Shared));
    assert_eq!(graph::refs_of(SlotUse::Primary, false), Some(Refs::Routed));
}

#[test]
fn feed_forward_facts() {
    let s = plain_shape();
    let p = FfnParts {
        scale: Some(1.0f32.to_bits()),
        conv: false,
        sandwich: false,
        router_bias: true,
        down_scale: false,
        shared_expert: true,
        sink: false,
        out_scale: Some(0.5f32.to_bits()),
        next_moe: true,
    };
    let f = graph::ffn_facts(&s, p, 1, false);
    assert_eq!((f.scale, f.out_scale), (None, Some(0.5f32.to_bits())));
    assert!(f.predict && f.router_bias && !f.conv);
    assert_eq!(f.shared, Some(256));
    let wide = FfnParts { sandwich: true, ..p };
    assert_eq!(graph::ffn_facts(&s, wide, 2, false).shared, Some(1024));
    assert!(!graph::ffn_facts(&s, p, 2, false).predict);
    assert!(!graph::ffn_facts(&s, p, 1, true).predict);
    assert!(!graph::ffn_facts(&s, FfnParts { next_moe: false, ..p }, 1, false).predict);
    assert_eq!(graph::ffn_facts(&s, FfnParts { sink: true, ..p }, 1, false).shared, None);
    assert_eq!(graph::ffn_facts(&s, FfnParts { shared_expert: false, ..p }, 1, false).shared, None);
}

#[test]
fn loading_rules() {
    let own = header("gemma4", vec![tensor("output.weight", 64, 9), tensor("rope_freqs.weight", 8, 1)]);
    let tied = header("gemma4", vec![tensor("token_embd.weight", 64, 9)]);
    assert_eq!(loading::head_tensor(&own), "output.weight");
    assert_eq!(loading::head_tensor(&tied), "token_embd.weight");
    assert!(loading::has_rope_factors(&own, Arch::Gemma4));
    assert!(!loading::has_rope_factors(&own, Arch::Inkling));
    assert!(!loading::has_rope_factors(&tied, Arch::Gemma4));
    assert!(loading::embeds_from_host(Family::Mla) && loading::embeds_from_host(Family::Dsv4));
    assert!(!loading::embeds_from_host(Family::Gqa));
    assert!(loading::norms_tokens(Arch::Inkling) && !loading::norms_tokens(Arch::Gemma4));
    assert!(loading::scales_tokens(Arch::Gemma4) && !loading::scales_tokens(Arch::Laguna));
    let s = Shape { rel_ext: 7, rel_ext_swa: 3, ..plain_shape() };
    assert_eq!((loading::rel_extent(&s, 0), loading::rel_extent(&s, 512)), (7, 3));
    let extra = header("qwen3moe", vec![tensor("blk.4.nextn.eh_proj.weight", 64, 9)]);
    assert_eq!(loading::extra_layer(&extra, &s, None), Extra::Off);
    assert_eq!(loading::extra_layer(&extra, &s, Some("0")), Extra::Off);
    assert_eq!(loading::extra_layer(&extra, &s, Some("1")), Extra::Load);
    assert_eq!(loading::extra_layer(&tied, &s, Some("1")), Extra::Missing);
}

#[test]
fn dense_models_over_two_cards() {
    let s = Shape { family: Family::Qwen35, n_expert: 1, ..plain_shape() };
    assert!(placement::may_split_dense(&s, 2, None));
    assert!(placement::may_split_dense(&s, 2, Some("3")));
    assert!(!placement::may_split_dense(&s, 2, Some("off")));
    assert!(!placement::may_split_dense(&s, 1, None));
    assert!(!placement::may_split_dense(&Shape { n_expert: 16, ..s }, 2, None));
    assert!(!placement::may_split_dense(&plain_shape(), 2, None));
    let h = header("qwen35", vec![tensor("output.weight", 64, 900), tensor("token_embd.weight", 100, 5)]);
    assert_eq!(placement::dense_fixed(&h), Some(900 + 3 * 34));
    let huge = header("qwen35", vec![tensor("token_embd.weight", u64::MAX, 5)]);
    assert_eq!(placement::dense_fixed(&huge), None);
    assert_eq!(placement::dense_devs(4, 1, 0, 2), vec![0, 2, 2, 2]);
    assert_eq!(placement::dense_devs(2, 5, 0, 2), vec![0, 0]);
}

#[test]
fn cards_of_attention() {
    let per = vec![3, 4];
    assert_eq!(placement::attn_card(Family::Mla, &per, Some(9), 1, 0), 4);
    assert_eq!(placement::attn_card(Family::Mla, &per, Some(9), 2, 0), 0);
    assert_eq!(placement::attn_card(Family::Gqa, &per, Some(9), 1, 0), 9);
    assert_eq!(placement::attn_card(Family::Gqa, &per, None, 1, 0), 0);
}

#[test]
fn rounds_of_generation() {
    assert_eq!(generate::margin(Speculation::Layer), 2);
    assert_eq!(generate::margin(Speculation::Off), 1);
    assert_eq!(generate::margin(Speculation::Ngram(4)), 1);
    assert!(generate::keeps_state(Speculation::Layer, Family::Qwen35));
    assert!(!generate::keeps_state(Speculation::Layer, Family::Mla));
    assert!(!generate::keeps_state(Speculation::Ngram(4), Family::Qwen35));
}

#[test]
fn small_rules() {
    assert!(hybrid::graphs_on(None, true) && hybrid::graphs_on(Some("1"), true));
    assert!(!hybrid::graphs_on(Some("0"), true) && !hybrid::graphs_on(None, false));
    let s = plain_shape();
    assert!(capacity::can_pack(&s));
    assert!(capacity::can_pack(&Shape { family: Family::Qwen35, ..s }));
    assert!(!capacity::can_pack(&Shape { family: Family::Qwen35, n_expert: 1, ..s }));
    assert!(!capacity::can_pack(&Shape { family: Family::K3, ..s }));
}

#[test]
fn names_of_cache_formats() {
    let c = KvChoice { format: KvFormat::F32, rot: false, lat: LatFormat::F32, note: KvNote::Quiet };
    assert_eq!((stats::kv_resolved(&c), stats::kv_compact(&c)), ("f32", false));
    let q = KvChoice { format: KvFormat::Q8, rot: true, ..c };
    assert_eq!((stats::kv_resolved(&q), stats::kv_compact(&q)), ("turbo8", true));
    assert_eq!(stats::kv_resolved(&KvChoice { rot: false, ..q }), "q8_0");
    let lat = KvChoice { lat: LatFormat::Fp8, ..c };
    assert_eq!((stats::kv_resolved(&lat), stats::kv_compact(&lat)), ("fp8", true));
    assert_eq!(stats::kv_resolved(&KvChoice { format: KvFormat::Q4, ..c }), "q4_0");
    assert_eq!(stats::kv_resolved(&KvChoice { format: KvFormat::Int8, ..c }), "int8");
    assert_eq!(stats::kv_resolved(&KvChoice { format: KvFormat::Fp16, ..c }), "fp16");
}

#[test]
fn encodings_kept_and_read() {
    assert_eq!(tensors::head_quant(TensorType::Q6K), Some(Quant::Q6K));
    assert_eq!(tensors::head_quant(TensorType::IQ2XXS), Some(Quant::IQ2XXS));
    assert_eq!(tensors::head_quant(TensorType::Q8_0), None);
    let t = |ty: TensorType, width: u64| TensorInfo { ty, dims: vec![width, 2], ..tensor("w", 512, 1) };
    assert!(tensors::keep_native(&t(TensorType::Q4K, 256)));
    assert!(!tensors::keep_native(&t(TensorType::Q4K, 255)));
    assert!(!tensors::keep_native(&t(TensorType::Q5K, 256)));
    let full: Vec<usize> = (0..16).filter(|&il| geom::uses_full_indexer(il, 3)).collect();
    assert_eq!(full, [0, 1, 2, 6, 10, 14]);
}

#[test]
fn given_system_text_goes_first() {
    let given = Chat::new(false, Some("a".to_string()), Some("b".to_string()));
    assert_eq!(given.system_text(Some("b")), Some("a"));
    let own = Chat::new(false, None, Some("b".to_string()));
    assert_eq!((own.system_text(Some("b")), own.system_text(None)), (Some("b"), None));
}

#[test]
fn long_requests_stay_whole() {
    let read = |offset: u64| Read { offset, len: 1 };
    let first: Vec<Read> = (0..300).rev().map(read).collect();
    let out = prefetch::coalesce(&first, &vec![vec![read(900)]]);
    let offs: Vec<u64> = out.iter().map(|r| r.offset).collect();
    assert_eq!(offs, (0..300).collect::<Vec<u64>>());
    let few = prefetch::coalesce(&vec![read(5)], &vec![vec![read(900), read(5)]]);
    assert_eq!(few.iter().map(|r| r.offset).collect::<Vec<u64>>(), [5, 900]);
}

#[test]
fn arena_holds_smaller_batches() {
    let s = plain_shape();
    let t = |n: u64| ExpertTensor { abs_offset: 0, expert_bytes: n, row_bytes: 1, quant: Quant::Q4K };
    let bank = |n: u64| ExpertBank {
        gate: t(n),
        up: t(n + 1),
        down: t(n + 2),
        fused_up_off: 0,
        sink: None,
        n_expert: 16,
        n_sink: 0,
    };
    let banks = vec![bank(1 << 20), bank(1 << 21)];
    let b = capacity::solve(&banks, &s, 4 << 30, 64, false, None).unwrap();
    for c in 1..=b.chunk {
        assert!(capacity::worst_staging(&banks, &s, c) <= b.staging as u128);
    }
    assert_eq!(b.staging as u128, capacity::worst_staging(&banks, &s, b.chunk));
    assert!(b.staging as u64 >= 4 * 3 * capacity::max_slab(&banks));
}
