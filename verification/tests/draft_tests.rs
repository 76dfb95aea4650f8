use pulsar::dflash;
use pulsar::dflash::DraftShape;
use pulsar::draft_graph;
use pulsar::draft_graph::{DraftBuf, DraftDims, DraftOp, DraftWeight, HeadFacts};
use pulsar::eval_bank::EvalBank;
use pulsar::graph;
use pulsar::graph::TierUse;
use pulsar::resolve::SlotUse;

fn dims() -> DraftDims {
    DraftDims { n_embd: 8, ff: 16, n_head: 4, n_kv: 2, head_dim: 4, n_layer: 2, captured: 3 }
}

fn plain_head() -> HeadFacts {
    HeadFacts { kq: false, softcap: false, scale: false, padded: false }
}

#[test]
fn draft_launches() {
    let v = draft_graph::plan_draft(dims(), plain_head(), 300, 4);
    // 300 positions are committed, the ring holds the last 256
    assert_eq!(v[0], DraftOp::Gather { first: 44, rows: 256 });
    assert_eq!(v[1], DraftOp::Embed { dst: DraftBuf::Block, rows: 4 });
    assert_eq!(v.len(), 4 + 2 * 19 + 2);
    assert!(v.contains(&DraftOp::Attend { rows: 4, keys: 260 }));
    assert!(v.contains(&DraftOp::Rope { buf: DraftBuf::Queries, heads: 4, from: 256, rows: 4 }));
    assert_eq!(v[v.len() - 1], DraftOp::Head { kq: false, rows: 4 });
    let block_keys = v
        .iter()
        .filter(|o| matches!(o, DraftOp::Mul { dst: DraftBuf::Keys, at: 256, rows: 4, .. }))
        .count();
    assert_eq!(block_keys, 2);
}

fn draft_shape() -> DraftShape {
    DraftShape {
        n_layer: 2,
        n_embd: 8,
        ff: 16,
        n_head: 4,
        n_kv: 2,
        head_dim: 4,
        block_size: 5,
        mask_id: 0,
        rope_base: 0,
        yarn: None,
        layer_ids: vec![1, 2, 3],
        next_rows: false,
        markov_rank: None,
        confidence: false,
        conf_bias: 0,
    }
}

#[test]
fn draft_buffers_have_sizes() {
    let d = draft_shape();
    let size = |b| draft_graph::draft_bytes(&d, b).unwrap();
    assert_eq!(size(DraftBuf::FeatIn), 256 * (3 * 8) * 4);
    assert_eq!(size(DraftBuf::Feat), 256 * 8 * 4);
    assert_eq!(size(DraftBuf::Block), 5 * 8 * 4);
    assert_eq!(size(DraftBuf::Keys), (256 + 5) * (2 * 4) * 4);
    assert_eq!(size(DraftBuf::Queries), 5 * (4 * 4) * 4);
    assert_eq!(size(DraftBuf::Mid), 5 * 16 * 4);
    assert_eq!(size(DraftBuf::Stream), 0);
    assert_eq!(draft_graph::draft_buffers().len(), 12);
    let wide = DraftShape { n_kv: u32::MAX, head_dim: u32::MAX, ..draft_shape() };
    assert_eq!(draft_graph::draft_bytes(&wide, DraftBuf::Values), None);
}

#[test]
fn draft_weights_have_names() {
    let v = draft_graph::draft_weights(2);
    assert_eq!(v.len(), 2 * 11 + 3);
    assert_eq!(v[0], DraftWeight::AttnNorm(0));
    assert_eq!(v[12], DraftWeight::Q(1));
    assert_eq!(v[22..], [DraftWeight::Fuse, DraftWeight::HiddenNorm, DraftWeight::OutNorm]);
    assert_eq!(draft_graph::draft_name(DraftWeight::FfnNorm(1), 0), "blk.1.post_attention_norm.weight");
    assert_eq!(draft_graph::draft_name(DraftWeight::Fuse, 0), "dflash_fc.weight");
    assert_eq!(draft_graph::draft_name(DraftWeight::Joint, 80), "blk.80.nextn.eh_proj.weight");
    assert_eq!(draft_graph::draft_name(DraftWeight::StreamNorm, 80), "blk.80.nextn.hnorm.weight");
}

#[test]
fn head_launches() {
    assert_eq!(draft_graph::head_logits(plain_head(), 2), vec![DraftOp::Head { kq: false, rows: 2 }]);
    let h = draft_graph::head_facts(true, 30.0f32.to_bits(), 0.5f32.to_bits(), 10, 16);
    assert_eq!(
        draft_graph::head_logits(h, 1),
        vec![
            DraftOp::HeadBlocks { rows: 1 },
            DraftOp::Head { kq: true, rows: 1 },
            DraftOp::Softcap { rows: 1 },
            DraftOp::ScaleLogits { rows: 1 },
            DraftOp::MaskTail { rows: 1 },
        ]
    );
    let h = draft_graph::head_facts(false, 0.0f32.to_bits(), 1.0f32.to_bits(), 16, 16);
    assert_eq!(h, plain_head());
    let h = draft_graph::head_facts(false, f32::NAN.to_bits(), f32::NAN.to_bits(), 16, 16);
    assert!(!h.softcap && h.scale);
}

/// The rows of each buffer, as the copies leave them.
fn run_copies(v: &Vec<DraftOp>, mem: &mut Vec<(DraftBuf, Vec<u32>)>) {
    for o in v {
        if let DraftOp::CopyRows { dst, to, src, from, rows } = *o {
            for r in 0..rows {
                let x = mem.iter().find(|m| m.0 == src).unwrap().1[(from + r) as usize];
                mem.iter_mut().find(|m| m.0 == dst).unwrap().1[(to + r) as usize] = x;
            }
        }
    }
}

#[test]
fn hidden_rows_and_pairs() {
    let v = draft_graph::mtp_prefill_fill(3);
    assert_eq!(v[v.len() - 1], DraftOp::Join { rows: 3 });
    let mut mem = vec![
        (DraftBuf::Hidden, vec![9]),
        (DraftBuf::Stream, vec![10, 11, 12]),
        (DraftBuf::Raw, vec![0, 0, 0]),
        (DraftBuf::EmbNormed, vec![20, 21, 22]),
        (DraftBuf::HiddenNormed, vec![30, 31, 32]),
        (DraftBuf::Pairs, vec![0, 0, 0, 0, 0, 0]),
    ];
    run_copies(&v, &mut mem);
    assert_eq!(mem[2].1, vec![9, 10, 11]);
    assert_eq!(mem[0].1, vec![12]);
    assert_eq!(mem[5].1, vec![20, 30, 21, 31, 22, 32]);
    let one = draft_graph::mtp_prefill_fill(1);
    assert_eq!(one.len(), 2 + 3 + 2 + 1);
}

#[test]
fn one_token_draft() {
    let v = draft_graph::mtp_body();
    assert_eq!(v.len(), 6);
    assert_eq!(
        v[2],
        DraftOp::Norm { dst: DraftBuf::HiddenNormed, src: DraftBuf::Hidden, w: DraftWeight::StreamNorm, rows: 1 }
    );
    let d = draft_graph::mtp_draft(plain_head());
    assert_eq!(d.len(), 2);
    assert_eq!(d[1], DraftOp::Head { kq: false, rows: 1 });
}

#[test]
fn confidence_cuts_the_block() {
    let bits = |v: Vec<f32>| -> Vec<u32> { v.iter().map(|x| x.to_bits()).collect() };
    let bar = 0.0f32.to_bits();
    assert_eq!(dflash::confident(&bits(vec![1.0, 0.5, -0.5, 2.0]), bar), 3);
    assert_eq!(dflash::confident(&bits(vec![-1.0]), bar), 1);
    assert_eq!(dflash::confident(&bits(vec![0.0, 3.0]), bar), 3);
    assert_eq!(dflash::confident(&bits(vec![f32::NAN]), bar), 2);
    assert_eq!(dflash::confident(&Vec::new(), bar), 1);
}

fn bank(n: u32) -> EvalBank<u32> {
    EvalBank {
        cur: n,
        normed: n,
        attn_out: n,
        after_attn: n,
        q: n,
        k: n,
        v: n,
        heads: n,
        xq: n,
        gate_act: n,
        up_act: n,
        ffn_mid: n,
        midq: n,
        ffn_out: n,
        qkv: n,
        conv_out: n,
        z: n,
        gq: n,
        gk: n,
        gv: n,
        small: n,
        g: n,
        beta: n,
        gb: n,
        gdn_o: n,
        gdn_tmp: n,
        qfull: n,
        gate: n,
    }
}

#[test]
fn banks_swap_back() {
    let mut a = bank(1);
    let mut b = bank(2);
    a.swap(&mut b);
    assert_eq!((a.cur, a.gate, b.cur, b.gate), (2, 2, 1, 1));
    assert_eq!((a.gb, b.gb), (2, 1));
    a.swap(&mut b);
    assert_eq!((a.cur, a.gate, b.cur, b.gate), (1, 1, 2, 2));
}

#[test]
fn tiers_that_take_part() {
    let us = vec![
        SlotUse::Primary,
        SlotUse::Tier { tier: 2, bank_pass: false },
        SlotUse::Tier { tier: 0, bank_pass: true },
        SlotUse::Tier { tier: 2, bank_pass: false },
        SlotUse::Null,
    ];
    assert_eq!(
        graph::tier_uses(&us, 3),
        vec![
            TierUse { tier: 0, routed: false, shared: true },
            TierUse { tier: 2, routed: true, shared: false },
        ]
    );
    assert_eq!(graph::slots_served(&us, 2, false), 2);
    assert_eq!(graph::slots_served(&us, 1, false), 0);
}
