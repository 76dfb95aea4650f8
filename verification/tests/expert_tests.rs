use pulsar::bank;
use pulsar::bank::{ExpertBank, Facts};
use pulsar::census;
use pulsar::census::CensusEntry;
use pulsar::dev_cache::{Admission, DeviceSlabCache, SLAB_SLACK};
use pulsar::header::{Header, MetaEntry, MetaItem, MetaValue, TensorInfo, TensorType};
use pulsar::hotlist;
use pulsar::hotlist::{ExpertHeat, HotlistError, Listed, TierHeat};
use pulsar::lanes;
use pulsar::lanes::{LaneGate, LayerPins, Pool, SendPtr, WaitGuard};
use pulsar::prefetch;
use pulsar::resolve;
use pulsar::resolve::{Place, SlotUse};
use pulsar::shape::Family;
use pulsar::store::{Read, StreamingStore};
use pulsar::tensors::{ExpertTensor, Quant};
use pulsar::tiers;
use pulsar::tiers::Which;
use std::collections::HashMap;

fn part(abs_offset: u64) -> ExpertTensor {
    ExpertTensor { abs_offset, expert_bytes: 100, row_bytes: 10, quant: Quant::Q4K }
}

fn small_bank() -> ExpertBank {
    ExpertBank {
        gate: part(1000),
        up: part(3000),
        down: part(5000),
        fused_up_off: 0,
        sink: None,
        n_expert: 4,
        n_sink: 0,
    }
}

fn sink_bank() -> ExpertBank {
    ExpertBank {
        sink: Some([part(8000), part(8500), part(9000)]),
        n_sink: 2,
        ..small_bank()
    }
}

fn pool(slots: usize) -> DeviceSlabCache {
    DeviceSlabCache::new(slots * 100, 100)
}

fn resident(c: &mut DeviceSlabCache, off: u64) {
    assert!(matches!(c.maybe_insert(off, &Vec::new()), Admission::Admitted(_)));
}

fn offsets(rs: &[Read]) -> Vec<u64> {
    rs.iter().map(|r| r.offset).collect()
}

#[test]
fn slabs_of_routed_and_shared_experts() {
    let b = sink_bank();
    assert_eq!(offsets(&b.slabs_of(2)), vec![1200, 3200, 5200]);
    assert_eq!(offsets(&b.slabs_of(5)), vec![8100, 8600, 9100]);
    assert!(b.sink_same());
    assert!(b.smem_ok());
    let wide = ExpertBank { down: ExpertTensor { row_bytes: 20000, ..part(5000) }, ..small_bank() };
    assert!(!wide.smem_ok());
    let mut other = sink_bank();
    other.sink = Some([part(8000), part(8500), ExpertTensor { quant: Quant::Q6K, ..part(9000) }]);
    assert!(!other.sink_same());
}

#[test]
fn selection_is_sorted_once() {
    assert_eq!(bank::distinct_experts(&vec![3, 1, 3, -1, 9, 0], 4), vec![0, 1, 3]);
    assert_eq!(bank::distinct_experts(&Vec::new(), 4), Vec::<u32>::new());
}

fn facts_now(b: &ExpertBank, d: &Vec<u32>) -> Vec<Facts> {
    let mut dev = pool(4);
    resident(&mut dev, 1100);
    let mut st: StreamingStore<u8> = StreamingStore::open(10_000);
    for off in [1200, 3200, 5200, 1300] {
        st.keep(off, 0, 100);
    }
    let mut tier = HashMap::new();
    for (i, off) in [1000u64, 3000, 5000].iter().enumerate() {
        tier.insert(*off, i * 100);
    }
    bank::expert_facts(d, b, &vec![tier], &HashMap::new(), &dev, &st)
}

#[test]
fn facts_say_where_an_expert_is() {
    let b = small_bank();
    let d = vec![0, 1, 2, 3];
    let f = facts_now(&b, &d);
    assert_eq!(f[0].tier, Some(0));
    assert!(f[1].dev_any && f[1].tier.is_none());
    assert!(f[2].host_all && f[2].host_any);
    assert!(!f[3].host_all && f[3].host_any);
}

#[test]
fn lanes_take_different_experts() {
    let b = small_bank();
    let d = vec![0, 1, 2, 3];
    let f = facts_now(&b, &d);
    let g = LaneGate { pool: true, n_tok: 1, unified: false, n_embd: 256, n_ff_exp: 256 };
    assert!(lanes::cpu_on(&g, &b));
    assert!(!lanes::cpu_on(&LaneGate { n_tok: 9, ..g }, &b));
    assert!(!lanes::cpu_on(&LaneGate { unified: true, ..g }, &b));
    assert!(!lanes::cpu_on(&LaneGate { n_embd: 250, ..g }, &b));
    let a = lanes::lane_a(&d, &f, 4, true, None);
    assert_eq!(a, vec![2]);
    assert_eq!(lanes::lane_a(&d, &f, 4, true, Some(0)), Vec::<u32>::new());
    let bb = lanes::lane_b(&d, &f, 4, &a, 5);
    assert!(bb.iter().all(|e| !lanes::lists(&a, *e)));
    assert!(!bb.contains(&3));
    assert_eq!(lanes::lane_b(&d, &f, 4, &a, 0), Vec::<u32>::new());
    let probes = lanes::lane_probes(&b, &d, &f, true);
    assert!(probes.contains(&1200));
    let mut st: StreamingStore<u8> = StreamingStore::open(1000);
    st.keep(1200, 0, 100);
    lanes::probe(&mut st, &probes);
    assert_eq!((st.hits, st.misses), (1, 0));
}

#[test]
fn pins_end_with_their_layer() {
    let b = sink_bank();
    let mut st: StreamingStore<u8> = StreamingStore::open(200);
    let mut pins = LayerPins::new();
    pins.begin(&mut st, &b, &vec![2]);
    assert_eq!(st.pinned, vec![1200, 3200, 5200]);
    pins.land(&mut st, &b, &vec![0]);
    assert_eq!(st.pinned, vec![1200, 3200, 5200, 1000, 3000, 5000]);
    pins.finish(&mut st);
    assert!(st.pinned.is_empty() && !pins.open);
    // a layer that begins where another was given up starts afresh
    pins.begin(&mut st, &b, &vec![1]);
    pins.begin(&mut st, &b, &vec![3]);
    assert_eq!(st.pinned, vec![1300, 3300, 5300]);
    pins.finish(&mut st);
    pins.finish(&mut st);
    assert!(st.pinned.is_empty());
}

#[test]
fn worker_threads() {
    assert_eq!(lanes::pool_threads("6", 8), Some(6));
    assert_eq!(lanes::pool_threads("0", 8), None);
}

#[test]
fn jobs_are_counted_until_waited_for() {
    let mut p: Pool<u32> = Pool::new(3);
    assert_eq!(p.submit(vec![1, 2]), 2);
    let g = WaitGuard { n: p.submit(vec![3]) };
    assert_eq!(p.outstanding, 3);
    assert_eq!(p.dispatch(), vec![1, 2, 3]);
    assert_eq!(p.dispatch(), Vec::<u32>::new());
    p.wait(g.n);
    p.wait(2);
    assert_eq!(p.outstanding, 0);
    assert_eq!(SendPtr(77).get(), 77);
}

#[test]
fn tiles_cover_every_row_once() {
    let ts = lanes::tiles(10, 4);
    let got: Vec<(usize, usize)> = ts.iter().map(|t| (t.lo, t.hi)).collect();
    assert_eq!(got, vec![(0, 4), (4, 8), (8, 10)]);
    assert_eq!(lanes::tiles(0, 4).len(), 0);
}

#[test]
fn lane_slots_and_terms() {
    let slots = lanes::lane_slots(&vec![2, 5], &vec![2, 1, 5, 2]);
    assert_eq!(slots, vec![vec![0, 3], vec![2]]);
    let t0 = lanes::token_terms(&slots, 2, 0);
    assert_eq!(t0.iter().map(|t| (t.expert, t.mid)).collect::<Vec<_>>(), vec![(0, 0)]);
    let t1 = lanes::token_terms(&slots, 2, 1);
    assert_eq!(t1.iter().map(|t| (t.expert, t.mid)).collect::<Vec<_>>(), vec![(0, 1), (1, 2)]);
}

#[test]
fn every_read_is_found_or_wanted() {
    let b = small_bank();
    let d = vec![0, 1, 2, 3];
    let f = facts_now(&b, &d);
    let lane = vec![2];
    let reads = resolve::read_list(&b, &d, &f, &lane, false);
    assert_eq!(offsets(&reads), vec![1100, 3100, 5100, 1300, 3300, 5300]);
    assert_eq!(resolve::read_list(&b, &d, &f, &lane, true).len(), 9);
    assert_eq!(offsets(&resolve::tier_touches(&b, &d, &f)), vec![1000, 3000, 5000]);
    let mut dev = pool(4);
    resident(&mut dev, 1100);
    let mut mtp = HashMap::new();
    mtp.insert(5300u64, 40usize);
    let mut resolved = HashMap::new();
    resolved.insert(3100u64, Place::Ahead(7));
    let wants = resolve::split_wants(&reads, &mtp, false, &mut resolved, &mut dev);
    assert_eq!(offsets(&wants), vec![5100, 1300, 3300]);
    assert!(matches!(resolved[&1100], Place::Slot(_)));
    assert!(matches!(resolved[&5300], Place::Draft(40)));
    assert!(matches!(resolved[&3100], Place::Ahead(7)));
    assert_eq!((dev.hits, dev.misses), (1, 3));
    assert_eq!(dev.heat(3100), 1);
    let bases = resolve::stage_bases(&wants);
    assert_eq!(bases, vec![0, 100, 200]);
    for r in &reads {
        assert!(resolved.contains_key(&r.offset) || wants.iter().any(|w| w.offset == r.offset));
    }
}

#[test]
fn touches_heat_without_moving() {
    let mut dev = pool(1);
    resolve::bump_all(&mut dev, &vec![Read { offset: 9, len: 4 }, Read { offset: 9, len: 4 }]);
    assert_eq!(dev.heat(9), 2);
    assert_eq!(dev.map.len(), 0);
}

#[test]
fn slots_go_to_one_place() {
    let b = small_bank();
    let selected = vec![0, 1, 2, 3, -1, 9];
    let d = bank::distinct_experts(&selected, 4);
    let f = facts_now(&b, &d);
    let uses = resolve::slot_uses(&selected, &d, &f, &vec![2], &Vec::new(), 4, 4, true);
    assert!(matches!(uses[0], SlotUse::Tier { tier: 0, bank_pass: false }));
    assert!(matches!(uses[1], SlotUse::Primary));
    assert!(matches!(uses[2], SlotUse::Lane));
    assert!(matches!(uses[3], SlotUse::Primary));
    assert!(matches!(uses[4], SlotUse::Null));
    assert!(matches!(uses[5], SlotUse::Null));
}

#[test]
fn references_follow_the_resolution() {
    let b = ExpertBank { fused_up_off: 8, ..sink_bank() };
    let mut resolved = HashMap::new();
    for (i, off) in [1100u64, 3100, 5100, 8000, 8500, 9000].iter().enumerate() {
        resolved.insert(*off, Place::Stage(i));
    }
    let r = resolve::expert_refs(&b, 1, &resolved);
    assert!(matches!((r.gate, r.up, r.down), (Place::Stage(0), Place::Stage(1), Place::Stage(2))));
    assert_eq!(r.up_off, 8);
    assert_eq!(resolve::expert_refs(&b, 4, &resolved).up_off, 0);
    let mut tier = HashMap::new();
    for (i, off) in [1100u64, 3100, 5100].iter().enumerate() {
        tier.insert(*off, i + 1);
    }
    let t = resolve::tier_refs(&b, 1, &tier);
    assert_eq!((t.gate, t.up, t.up_off, t.down), (1, 2, 8, 3));
}

#[test]
fn slots_are_grouped_by_expert() {
    assert!(resolve::grouped(16, 8, true, 256, false));
    assert!(!resolve::grouped(15, 8, true, 256, false));
    assert!(!resolve::grouped(16, 17, true, 256, false));
    assert!(!resolve::grouped(16, 8, false, 256, false));
    assert!(!resolve::grouped(16, 8, true, 255, false));
    assert!(!resolve::grouped(16, 8, true, 256, true));
    let a = Some(Place::Slot(1));
    let b = Some(Place::Slot(2));
    let g = resolve::group_slots(&vec![a, b, None, a], 2);
    assert_eq!(g.leaders, vec![0, 1]);
    assert_eq!(g.starts, vec![0, 2, 3]);
    // token in the high bits, slot in the low four
    assert_eq!(g.pairs, vec![0, (1 << 4) | 1, 1]);
}

#[test]
fn queued_requests_are_joined() {
    let r = |offset: u64| Read { offset, len: 10 };
    let out = prefetch::coalesce(&vec![r(5), r(1)], &vec![vec![r(5), r(9)]]);
    let mut got = offsets(&out);
    got.sort();
    assert_eq!(got, vec![1, 5, 9]);
}

#[test]
fn what_is_missing_is_fetched_ahead() {
    let b = small_bank();
    assert_eq!(prefetch::predicted_ids(&vec![2, -1, 7, 0], 4), vec![2, 0]);
    assert_eq!(prefetch::all_ids(3), vec![0, 1, 2]);
    let mut st: StreamingStore<u8> = StreamingStore::open(10_000);
    st.keep(1000, 0, 100);
    let mut dev = pool(2);
    resident(&mut dev, 3000);
    let mut tier = HashMap::new();
    tier.insert(5000u64, 0usize);
    let tiers = vec![tier];
    assert!(prefetch::tier_has(&tiers, 5000));
    let reads = prefetch::fetch_ahead(&b, &vec![0, 1], &st, &dev, &tiers);
    assert_eq!(offsets(&reads), vec![1100, 3100, 5100]);
    let copies = prefetch::copy_ahead(&b, &vec![0, 1], &st, &dev, &tiers, &HashMap::new());
    assert_eq!(offsets(&copies), vec![1000]);
}

#[test]
fn predictions_are_scored() {
    assert_eq!(prefetch::score(&vec![1, 2, -1, 9], &vec![2, 3], 4), (1, 2));
    let mut counts = vec![0u64; 8];
    prefetch::count_routes(&mut counts, 1, 4, &vec![0, 3, 3, 7, -1]);
    assert_eq!(counts, vec![0, 0, 0, 0, 1, 0, 0, 2]);
}

#[test]
fn hotlist_rows_heat_their_slabs() {
    let banks = vec![None, Some(sink_bank())];
    let mut heat = HashMap::new();
    let list = "# n_layer=2 n_expert=4\r\n1 2 50\r\n1 4 7\n0 1 9\nbad line\n1 s1 8\n1 s2 8\n";
    hotlist::hotlist_heat(list, 2, 4, &banks, &mut heat);
    assert_eq!(heat.len(), 6);
    assert_eq!(heat.get(&8100), Some(&(8, 100)));
    assert_eq!(heat.get(&1200), Some(&(50, 100)));
    assert_eq!(heat.get(&5200), Some(&(50, 100)));
    assert_eq!(heat.get(&1000), None);
    assert_eq!(hotlist::warm_path("m.gguf"), "m.gguf.warm");
    let mut other = HashMap::new();
    hotlist::hotlist_heat(list, 2, 8, &banks, &mut other);
    assert_eq!(other.len(), 0);
    hotlist::hotlist_heat(list, 3, 4, &banks, &mut other);
    assert_eq!(other.len(), 0);
    hotlist::hotlist_heat("# n_expert=4\n1 2 50\n", 2, 4, &banks, &mut other);
    assert_eq!(other.len(), 0);
    assert_eq!(hotlist::builtin_hotlist(Family::Qwen35), Some("qwen35"));
    assert_eq!(hotlist::builtin_hotlist(Family::Gqa), Some("gqa"));
    assert_eq!(hotlist::builtin_hotlist(Family::Mla), Some("mla"));
    assert_eq!(hotlist::builtin_hotlist(Family::Dsv4), Some("dsv4"));
    assert_eq!(hotlist::builtin_hotlist(Family::K3), None);
}

#[test]
fn caches_warm_from_the_hotlist_and_tiers_from_the_census() {
    let banks = vec![None, Some(sink_bank())];
    let list = "# n_layer=2 n_expert=4\n1 2 50\n";
    let l = Listed { list: Some(list), off: false, n_layer: 2, n_expert: 4, banks: &banks };
    let file = census::write_census(&vec![CensusEntry { offset: 1000, len: 100, count: 3 }]);
    let none: Vec<u8> = Vec::new();
    assert_eq!(hotlist::warm_heat(Some(&file), &l).get(&1000), Some(&(3, 100)));
    assert!(hotlist::warm_heat(Some(&none), &l).is_empty());
    assert_eq!(hotlist::warm_heat(None, &l).get(&1200), Some(&(50, 100)));
    let off = Listed { off: true, ..l };
    assert!(hotlist::warm_heat(None, &off).is_empty());
    let TierHeat::Known(m) = hotlist::tier_heat(None, false, 1, Some(&file)) else { panic!("no heat") };
    assert_eq!(m.len(), 1);
    assert_eq!(m.get(&1000), Some(&(3, 100)));
    assert!(matches!(hotlist::tier_heat(Some("on"), false, 1, Some(&none)), TierHeat::Idle));
    assert!(matches!(hotlist::tier_heat(None, false, 1, None), TierHeat::Idle));
    assert!(matches!(hotlist::tier_heat(Some("off"), false, 1, Some(&file)), TierHeat::Off));
    assert!(matches!(hotlist::tier_heat(None, false, 0, Some(&file)), TierHeat::Off));
    assert!(matches!(hotlist::tier_heat(None, true, 1, Some(&file)), TierHeat::Biased));
}

#[test]
fn overflowing_heat_is_seen() {
    let banks = vec![Some(small_bank())];
    let mut heat = HashMap::new();
    heat.insert(1000u64, (u64::MAX, 100u64));
    assert!(tiers::heats_fit(&banks, &heat));
    heat.insert(3000, (1, 100));
    assert!(!tiers::heats_fit(&banks, &heat));
    let mut dev = pool(1);
    dev.touch.insert(7, (u64::MAX - 1, 100));
    let once = vec![Read { offset: 7, len: 100 }];
    assert!(resolve::heat_ok(&dev, &once));
    assert!(!resolve::heat_ok(&dev, &vec![once[0], once[0]]));
}

fn num(key: &str, n: u64) -> MetaEntry {
    MetaEntry {
        key: key.to_string(),
        value: MetaValue { item: MetaItem { num: Some(n), bits: None, flag: None }, list: None },
    }
}

fn tensor(name: &str, offset: u64) -> TensorInfo {
    TensorInfo {
        name: name.to_string(),
        ty: TensorType::Q4K,
        dims: vec![256, 10, 4],
        offset,
        n_elements: 256 * 40,
        byte_size: Some(400),
        row_bytes: Some(10),
    }
}

#[test]
fn hotlist_round_trip_through_text() {
    let h = Header {
        architecture: Some("qwen3moe".to_string()),
        meta: vec![num("expert_count", 4), num("block_count", 1)],
        n_tokens: None,
        tensors: vec![
            tensor("blk.0.ffn_gate_exps.weight", 0),
            tensor("blk.0.ffn_up_exps.weight", 2000),
            tensor("blk.0.ffn_down_exps.weight", 4000),
        ],
        data_offset: 1000,
    };
    let es = vec![
        CensusEntry { offset: 1200, len: 100, count: 30 },
        CensusEntry { offset: 3200, len: 100, count: 30 },
        CensusEntry { offset: 5200, len: 100, count: 30 },
        CensusEntry { offset: 1000, len: 100, count: 2 },
    ];
    assert!(hotlist::hotlist_sums_fit(&h, &es));
    let text = hotlist::hotlist_text(&h, &es).ok().unwrap();
    let mut heat = HashMap::new();
    hotlist::hotlist_heat(&text, 1, 4, &vec![Some(small_bank())], &mut heat);
    assert!(heat[&1200].0 > heat[&1000].0);
    assert_eq!(heat.get(&1100), None);
    assert!(matches!(hotlist::hotlist_text(&h, &Vec::new()), Err(HotlistError::NoCensus)));
    let no_layers = Header { meta: vec![num("expert_count", 4)], architecture: None, n_tokens: None, tensors: Vec::new(), data_offset: 0 };
    assert!(matches!(hotlist::hotlist_text(&no_layers, &es), Err(HotlistError::NoBlockCount)));
    let nothing = Header { meta: Vec::new(), architecture: None, n_tokens: None, tensors: Vec::new(), data_offset: 0 };
    assert!(matches!(hotlist::hotlist_text(&nothing, &es), Err(HotlistError::NoExpertCount)));
    let rendered = hotlist::render_hotlist(1, 4, &vec![ExpertHeat { layer: 0, expert: 2, count: 30 }]);
    assert!(rendered.contains("0 2 30"));
}

#[test]
fn tiers_are_filled_hottest_first() {
    let banks = vec![Some(small_bank())];
    let mut heat = HashMap::new();
    for k in [1200u64, 3200, 5200] {
        heat.insert(k, (9u64, 100u64));
    }
    for k in [1000u64, 3000, 5000] {
        heat.insert(k, (4, 100));
    }
    let order = tiers::tier_order(&banks, &heat);
    assert_eq!(order[0].gate.offset, 1200);
    assert_eq!(order[1].gate.offset, 1000);
    assert!(order[0].heat >= order[1].heat);
    assert_eq!(tiers::rank_triples(&order).len(), order.len());
    assert_eq!(tiers::collect_triples(&banks, &heat, &Vec::new(), Which::Shared).len(), 0);
    let end = tiers::fill_tier(&order, 0, 350 + SLAB_SLACK);
    assert_eq!(end, 1);
    let pools = vec![350 + SLAB_SLACK, 10, 300 + SLAB_SLACK];
    assert_eq!(tiers::fill_tiers(&order, &pools), vec![1, 1, 2]);
    let m = tiers::place_tier(&order, 0, end);
    assert_eq!(m.len(), 3);
    let mut bases: Vec<usize> = m.values().copied().collect();
    bases.sort();
    assert_eq!(bases, vec![0, 100, 200]);
}

#[test]
fn spare_cards() {
    assert_eq!(tiers::tier_candidates(4, 0, Some(2)), vec![1, 3]);
    assert_eq!(tiers::tier_candidates(1, 0, None), Vec::<i32>::new());
    assert_eq!(tiers::tier_candidates(2, 0, Some(0)), vec![1]);
    assert_eq!(tiers::tier_pool(1 << 30), None);
    assert_eq!(tiers::tier_pool(3 << 30), Some(2 << 30));
}

#[test]
fn warm_start_fills_cards_then_memory() {
    let banks = vec![Some(small_bank())];
    let mut heat = HashMap::new();
    for (i, e) in [0u64, 1, 2].iter().enumerate() {
        for base in [1000u64, 3000, 5000] {
            heat.insert(base + e * 100, (10 - i as u64, 100u64));
        }
    }
    let order = tiers::tier_order(&banks, &heat);
    let plan = tiers::plan_warm(&order, &heat, &Vec::new(), 3, 600);
    assert_eq!(offsets(&plan.dev_reads), vec![1000, 3000, 5000]);
    assert!(plan.host_reads.iter().all(|r| !plan.dev_reads.iter().any(|d| d.offset == r.offset)));
    let mut dev = pool(2);
    let mut seeds = HashMap::new();
    tiers::seed_touch(&mut dev, &mut seeds, &heat, &Vec::new());
    assert_eq!(dev.heat(1000), 10);
    assert_eq!(seeds[&1000], 10);
}
